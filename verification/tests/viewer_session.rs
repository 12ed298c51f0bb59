use std::cell::RefCell;
use std::collections::BTreeMap;

use manzar::file_actions::{
    plan_rename, refuse_existing_target, trash_outcome, FileActionError, RenamePlan,
    TrashDeleteError, TrashDeleter,
};
use manzar::fs_facts::{FileMetadata, FileSystemError, FolderEntry, ProbedFile, SelectedPath};
use manzar::image_protocol::{approved_image_source, ImageProtocolError};
use manzar::image_registry::{ApprovedImageRegistry, ImageId};
use manzar::metadata_preflight::{ImagePreflight, MetadataPreflightError};
use manzar::sequence_ordering::SequenceOrdering;
use manzar::viewed_image_descriptor::ImagePreflightReader;
use manzar::viewer_session::{SnapshotStep, ViewerSession, ViewerSessionError, ViewerSnapshot};

/// A folder of files held in memory, standing in for the disk.
#[derive(Default)]
struct Folder {
    name: String,
    files: BTreeMap<String, Vec<u8>>,
}

impl Folder {
    fn new(name: &str) -> Self {
        Folder { name: name.to_string(), files: BTreeMap::new() }
    }

    fn path(&self, file: &str) -> String {
        format!("{}/{}", self.name, file)
    }

    fn write(&mut self, file: &str, contents: &[u8]) -> String {
        self.files.insert(file.to_string(), contents.to_vec());
        self.path(file)
    }

    fn file_name<'a>(&self, path: &'a str) -> Option<&'a str> {
        path.strip_prefix(&format!("{}/", self.name))
    }

    fn probe(&self, path: &str) -> Result<ProbedFile, FileSystemError> {
        let name = self.file_name(path).ok_or(FileSystemError::NotFound)?;
        let contents = self.files.get(name).ok_or(FileSystemError::NotFound)?;
        Ok(ProbedFile {
            canonical_path: path.to_string(),
            metadata: FileMetadata { is_file: true, size_bytes: contents.len() as u64, modified: Some(0) },
        })
    }

    fn listing(&self) -> Result<Vec<Result<FolderEntry, FileSystemError>>, FileSystemError> {
        Ok(self
            .files
            .iter()
            .map(|(name, contents)| {
                Ok(FolderEntry {
                    path: self.path(name),
                    metadata: Ok(FileMetadata {
                        is_file: true,
                        size_bytes: contents.len() as u64,
                        modified: Some(0),
                    }),
                    canonical_path: Ok(self.path(name)),
                })
            })
            .collect())
    }
}

#[derive(Default)]
struct SizeReader {
    calls: usize,
    sizes: BTreeMap<String, u64>,
}

impl ImagePreflightReader for SizeReader {
    fn preflight_image(&mut self, path: &str) -> Result<ImagePreflight, MetadataPreflightError> {
        self.calls += 1;
        match self.sizes.get(path) {
            Some(size) => Ok(ImagePreflight::from_measurements(*size, None)),
            None => Err(MetadataPreflightError::FileSystem(FileSystemError::NotFound)),
        }
    }
}

struct Viewer {
    folder: RefCell<Folder>,
    session: ViewerSession,
    registry: ApprovedImageRegistry,
    reader: SizeReader,
}

impl Viewer {
    fn new(folder: Folder, ordering: SequenceOrdering) -> Self {
        Viewer {
            folder: RefCell::new(folder),
            session: ViewerSession::new(ordering),
            registry: ApprovedImageRegistry::default(),
            reader: SizeReader::default(),
        }
    }

    fn snapshot(&mut self) -> Result<ViewerSnapshot, ViewerSessionError> {
        let folder = self.folder.borrow();
        for (name, contents) in folder.files.iter() {
            self.reader.sizes.insert(folder.path(name), contents.len() as u64);
        }
        let current_file = match self.session.current_path_buf() {
            Ok(path) => folder.probe(&path),
            Err(_) => Err(FileSystemError::NotFound),
        };
        let mut read = None;
        loop {
            match self.session.snapshot(&mut self.registry, &current_file, read)? {
                SnapshotStep::Ready(snapshot) => return Ok(snapshot),
                SnapshotStep::ReadPreflight(path) => {
                    read = Some(self.reader.preflight_image(&path));
                }
            }
        }
    }

    fn open_single_image(&mut self, path: &str) -> Result<ViewerSnapshot, ViewerSessionError> {
        let (canonical, listing) = {
            let folder = self.folder.borrow();
            (folder.probe(path).map(|file| file.canonical_path), folder.listing())
        };
        self.session.open_single_image(path, canonical, listing, &mut self.registry)?;
        self.snapshot()
    }

    fn open_image_selection(&mut self, paths: &[&str]) -> Result<ViewerSnapshot, ViewerSessionError> {
        let selection = {
            let folder = self.folder.borrow();
            paths
                .iter()
                .map(|path| SelectedPath { path: path.to_string(), file: folder.probe(path) })
                .collect()
        };
        self.session.open_image_selection(selection, &mut self.registry)?;
        self.snapshot()
    }

    fn open_folder(&mut self) -> Result<ViewerSnapshot, ViewerSessionError> {
        let listing = self.folder.borrow().listing();
        self.session.open_folder(listing, &mut self.registry)?;
        self.snapshot()
    }

    fn next(&mut self) -> Result<ViewerSnapshot, ViewerSessionError> {
        self.session.next();
        self.snapshot()
    }

    fn previous(&mut self) -> Result<ViewerSnapshot, ViewerSessionError> {
        self.session.previous();
        self.snapshot()
    }

    fn set_sequence_ordering(&mut self, ordering: SequenceOrdering) -> Result<ViewerSnapshot, ViewerSessionError> {
        self.session.set_sequence_ordering(ordering);
        self.snapshot()
    }

    fn rename_current_image(&mut self, new_stem: &str) -> Result<ViewerSnapshot, ViewerSessionError> {
        let current = self.session.current_path_buf()?;
        let renamed: Result<String, manzar::file_actions::FileActionError> = (|| {
            let plan = plan_rename(&current, new_stem)?;
            let target_exists = match &plan {
                RenamePlan::Move { to, .. } => self.folder.borrow().probe(to).is_ok(),
                RenamePlan::Keep(_) => false,
            };
            match refuse_existing_target(plan, target_exists)? {
                RenamePlan::Keep(path) => Ok(path),
                RenamePlan::Move { from, to } => {
                    let mut folder = self.folder.borrow_mut();
                    let from_name = folder.file_name(&from).unwrap().to_string();
                    let to_name = folder.file_name(&to).unwrap().to_string();
                    let contents = folder.files.remove(&from_name).unwrap();
                    folder.files.insert(to_name, contents);
                    Ok(to)
                }
            }
        })();
        let renamed_file = match &renamed {
            Ok(path) => self.folder.borrow().probe(path),
            Err(_) => Err(FileSystemError::NotFound),
        };
        let old_resolved = self.folder.borrow().probe(&current).map(|file| file.canonical_path);
        self.session.rename_current_image(
            renamed.map(|_| ()),
            &old_resolved,
            &renamed_file,
            &mut self.registry,
        )?;
        self.snapshot()
    }

    /// Trashes the current image the way the desktop shell does: resolve the
    /// current path, hand it to the deleter, and tell the session how it went.
    /// A deleter that succeeds takes the file off the folder.
    fn trash_current_image(&mut self, deleter: &TestTrashDeleter) -> Result<ViewerSnapshot, ViewerSessionError> {
        let current = self.session.current_path_buf()?;
        let canonical = self.folder.borrow().probe(&current).map(|file| file.canonical_path);
        let trashed = match &canonical {
            Err(error) => Err(FileActionError::FileSystem(*error)),
            Ok(path) => {
                let answer = deleter.trash(path);
                if answer.is_ok() {
                    let mut folder = self.folder.borrow_mut();
                    let name = folder.file_name(path).expect("file in folder").to_string();
                    folder.files.remove(&name);
                }
                trash_outcome(answer)
            }
        };
        let old_resolved = self.folder.borrow().probe(&current).map(|file| file.canonical_path);
        self.session.trash_current_image(trashed, &old_resolved, &mut self.registry)?;
        self.snapshot()
    }

    fn path_for(&self, id: &str) -> Option<String> {
        self.registry.path_for(&ImageId::from_opaque(id)).map(str::to_string)
    }
}

#[derive(Default)]
struct TestTrashDeleter {
    trashed: RefCell<Vec<String>>,
    fail: bool,
}

impl TrashDeleter for TestTrashDeleter {
    fn trash(&self, path: &str) -> Result<(), TrashDeleteError> {
        if self.fail {
            return Err(TrashDeleteError);
        }
        self.trashed.borrow_mut().push(path.to_string());
        Ok(())
    }
}

fn unknown(viewer: &Viewer, id: &str) -> bool {
    matches!(
        approved_image_source(&viewer.registry, &ImageId::from_opaque(id)),
        Err(ImageProtocolError::UnknownImageId)
    )
}

#[test]
fn opening_single_image_returns_frontend_safe_current_image_snapshot() {
    let mut folder = Folder::new("/tmp/viewer-a");
    folder.write("image1.png", b"first image");
    let opened = folder.write("private-image2.png", b"opened image");
    let mut viewer = Viewer::new(folder, SequenceOrdering::NaturalName);

    let snapshot = viewer.open_single_image(&opened).expect("viewer snapshot");

    let current = snapshot.current.expect("current image");
    assert_eq!(snapshot.count, 2);
    assert_eq!(snapshot.current_position, Some(2));
    assert_eq!(snapshot.sequence_ordering, SequenceOrdering::NaturalName);
    assert_eq!(current.url, format!("manzar-image://localhost/{}", current.id));
    assert!(!current.id.contains("private-image2"));
    assert!(!current.url.contains("private-image2"));
    assert!(!current.url.contains("/tmp/viewer-a"));
    assert!(!current.preflight.oversized);
}

#[test]
fn navigation_wraps_and_returns_updated_current_image_snapshot() {
    let mut folder = Folder::new("/tmp/viewer-b");
    let first = folder.write("image1.png", b"first image");
    folder.write("private-image2.png", b"second image");
    let mut viewer = Viewer::new(folder, SequenceOrdering::NaturalName);
    viewer.open_single_image(&first).expect("opened first image");

    let second_snapshot = viewer.next().expect("next image");
    let wrapped_snapshot = viewer.next().expect("wrapped image");
    let previous_snapshot = viewer.previous().expect("previous image");

    assert_eq!(second_snapshot.current_position, Some(2));
    assert_eq!(wrapped_snapshot.current_position, Some(1));
    assert_eq!(previous_snapshot.current_position, Some(2));

    let second_current = second_snapshot.current.expect("second current image");
    assert_eq!(second_current.url, format!("manzar-image://localhost/{}", second_current.id));
    assert!(!second_current.url.contains("private-image2"));
    assert!(!second_current.url.contains("/tmp/viewer-b"));
}

#[test]
fn opening_new_single_image_revokes_previous_approved_image_id() {
    let mut folder = Folder::new("/tmp/viewer-c");
    let first = folder.write("first.png", b"first image");
    let second = folder.write("second.png", b"second image");
    let mut viewer = Viewer::new(folder, SequenceOrdering::NaturalName);
    let opened = viewer
        .open_single_image(&first)
        .expect("opened first image")
        .current
        .expect("first current image");

    viewer.open_single_image(&second).expect("opened second image");

    assert!(unknown(&viewer, &opened.id));
}

#[test]
fn opening_new_image_selection_revokes_previous_approved_image_id() {
    let mut folder = Folder::new("/tmp/viewer-d");
    let first = folder.write("first.png", b"first image");
    let second = folder.write("second.png", b"second image");
    let mut viewer = Viewer::new(folder, SequenceOrdering::NaturalName);
    let opened = viewer
        .open_single_image(&first)
        .expect("opened first image")
        .current
        .expect("first current image");

    viewer.open_image_selection(&[&second]).expect("opened image selection");

    assert!(unknown(&viewer, &opened.id));
}

#[test]
fn opening_new_folder_revokes_previous_approved_image_id() {
    let mut first_folder = Folder::new("/tmp/viewer-e-first");
    let first = first_folder.write("first.png", b"first image");
    let mut second_folder = Folder::new("/tmp/viewer-e-second");
    second_folder.write("second.png", b"second image");
    let mut viewer = Viewer::new(first_folder, SequenceOrdering::NaturalName);
    let opened = viewer
        .open_single_image(&first)
        .expect("opened first image")
        .current
        .expect("first current image");

    viewer.folder.replace(second_folder);
    viewer.open_folder().expect("opened folder");

    assert!(unknown(&viewer, &opened.id));
}

#[test]
fn repeated_navigation_to_the_same_supported_image_reuses_its_opaque_descriptor() {
    let mut folder = Folder::new("/tmp/viewer-f");
    let first = folder.write("image1.png", b"first image");
    folder.write("image2.png", b"second image");
    let mut viewer = Viewer::new(folder, SequenceOrdering::NaturalName);

    let opened = viewer
        .open_single_image(&first)
        .expect("opened first image")
        .current
        .expect("opened current image");
    viewer.next().expect("next image");
    let wrapped = viewer
        .next()
        .expect("wrapped to first image")
        .current
        .expect("wrapped current image");

    assert_eq!(wrapped.id, opened.id);
    assert_eq!(wrapped.url, opened.url);
}

#[test]
fn opening_image_selection_uses_only_explicit_supported_images() {
    let mut folder = Folder::new("/tmp/viewer-g");
    let selected_first = folder.write("image1.png", b"selected first");
    let selected_second = folder.write("private-image2.gif", b"selected second");
    folder.write("image3.jpg", b"unselected sibling");
    let unsupported = folder.write("notes.txt", b"unsupported");
    let mut viewer = Viewer::new(folder, SequenceOrdering::NaturalName);

    let snapshot = viewer
        .open_image_selection(&[&selected_second, &unsupported, &selected_first])
        .expect("opened selection");

    assert_eq!(snapshot.count, 2);
    assert_eq!(snapshot.current_position, Some(1));
    let current = snapshot.current.expect("current image");
    assert!(!current.url.contains("private-image2"));
    assert!(!current.url.contains("/tmp/viewer-g"));
}

#[test]
fn opening_folder_uses_supported_non_hidden_images_in_that_folder() {
    let mut folder = Folder::new("/tmp/viewer-h");
    folder.write("image1.png", b"first");
    folder.write("private-image2.webp", b"second");
    folder.write(".hidden.jpg", b"hidden");
    folder.write("notes.txt", b"unsupported");
    let mut viewer = Viewer::new(folder, SequenceOrdering::NaturalName);

    let snapshot = viewer.open_folder().expect("opened folder");

    assert_eq!(snapshot.count, 2);
    assert_eq!(snapshot.current_position, Some(1));
    let current = snapshot.current.expect("current image");
    assert!(!current.url.contains("/tmp/viewer-h"));
}

#[test]
fn unsupported_single_image_error_is_frontend_safe() {
    let mut folder = Folder::new("/tmp/viewer-i");
    let unsupported = folder.write("private-notes.txt", b"notes");
    let mut viewer = Viewer::new(folder, SequenceOrdering::NaturalName);

    let error = viewer.open_single_image(&unsupported).expect_err("unsupported image");
    let message = error.frontend_safe_message();

    assert_eq!(message, "unsupported image format");
    assert!(!message.contains("private-notes"));
    assert!(!message.contains("/tmp/viewer-i"));
}

#[test]
fn changing_sequence_ordering_without_an_open_image_updates_the_snapshot() {
    let mut viewer = Viewer::new(Folder::new("/tmp/viewer-j"), SequenceOrdering::NewestModifiedFirst);

    let snapshot = viewer
        .set_sequence_ordering(SequenceOrdering::NaturalName)
        .expect("updated ordering snapshot");

    assert_eq!(snapshot.current, None);
    assert_eq!(snapshot.current_position, None);
    assert_eq!(snapshot.count, 0);
    assert_eq!(snapshot.sequence_ordering, SequenceOrdering::NaturalName);
}

#[test]
fn opening_sequence_uses_the_active_sequence_ordering() {
    let mut folder = Folder::new("/tmp/viewer-k");
    folder.write("a-large.png", b"large image contents");
    let small = folder.write("z-small.png", b"s");
    let mut viewer = Viewer::new(folder, SequenceOrdering::SizeSmallestFirst);

    let snapshot = viewer.open_folder().expect("opened folder");
    let current = snapshot.current.expect("current image");

    assert_eq!(snapshot.sequence_ordering, SequenceOrdering::SizeSmallestFirst);
    assert_eq!(snapshot.current_position, Some(1));
    assert_eq!(viewer.path_for(&current.id), Some(small));
}

#[test]
fn changing_sequence_ordering_preserves_current_image_in_reordered_sequence() {
    let mut folder = Folder::new("/tmp/viewer-l");
    let large = folder.write("a-large.png", b"large image contents");
    folder.write("z-small.png", b"s");
    let mut viewer = Viewer::new(folder, SequenceOrdering::NaturalName);
    let opened_snapshot = viewer.open_folder().expect("opened folder");
    let opened_current = opened_snapshot.current.expect("opened current image");

    assert_eq!(viewer.path_for(&opened_current.id), Some(large.clone()));
    assert_eq!(opened_snapshot.current_position, Some(1));

    let reordered_snapshot = viewer
        .set_sequence_ordering(SequenceOrdering::SizeSmallestFirst)
        .expect("reordered snapshot");
    let reordered_current = reordered_snapshot.current.expect("reordered current image");

    assert_eq!(viewer.path_for(&reordered_current.id), Some(large));
    assert_eq!(reordered_snapshot.sequence_ordering, SequenceOrdering::SizeSmallestFirst);
    assert_eq!(reordered_snapshot.current_position, Some(2));
    assert_eq!(reordered_snapshot.count, 2);
}

#[test]
fn renaming_current_image_updates_the_current_descriptor_and_reorders_sequence() {
    let mut folder = Folder::new("/tmp/viewer-m");
    let original = folder.write("a-current.png", b"current");
    folder.write("b-sibling.png", b"sibling");
    let mut viewer = Viewer::new(folder, SequenceOrdering::NaturalName);
    viewer.open_single_image(&original).expect("opened image");

    let snapshot = viewer.rename_current_image("z-renamed").expect("renamed current image");
    let current = snapshot.current.expect("current image");
    let renamed = viewer.folder.borrow().path("z-renamed.png");

    assert!(viewer.folder.borrow().probe(&original).is_err());
    assert_eq!(snapshot.count, 2);
    assert_eq!(snapshot.current_position, Some(2));
    assert_eq!(viewer.path_for(&current.id), Some(renamed));
}

#[test]
fn renamed_current_image_revokes_the_original_opaque_id() {
    let mut folder = Folder::new("/tmp/viewer-n");
    let original = folder.write("current.png", b"current");
    folder.write("sibling.png", b"sibling");
    let mut viewer = Viewer::new(folder, SequenceOrdering::NaturalName);
    let opened = viewer
        .open_single_image(&original)
        .expect("opened image")
        .current
        .expect("opened current image");

    viewer.rename_current_image("renamed").expect("renamed current image");

    assert!(unknown(&viewer, &opened.id));
}

#[test]
fn invalid_rename_error_is_frontend_safe() {
    let mut folder = Folder::new("/tmp/viewer-o");
    let current = folder.write("private-current.png", b"current");
    let mut viewer = Viewer::new(folder, SequenceOrdering::NaturalName);
    viewer.open_single_image(&current).expect("opened image");

    let error = viewer.rename_current_image("bad/name").expect_err("invalid rename");
    let message = error.frontend_safe_message();

    assert_eq!(message, "rename name cannot contain path separators");
    assert!(!message.contains("private-current"));
    assert!(!message.contains("/tmp/viewer-o"));
}

#[test]
fn trashing_current_image_shows_next_image() {
    let mut folder = Folder::new("/tmp/viewer-p");
    let first = folder.write("image1.png", b"first");
    let second = folder.write("private-image2.png", b"second");
    let mut viewer = Viewer::new(folder, SequenceOrdering::NaturalName);
    viewer.open_single_image(&first).expect("opened image");
    let deleter = TestTrashDeleter::default();

    let snapshot = viewer.trash_current_image(&deleter).expect("trashed current image");
    let current = snapshot.current.expect("current image");

    assert_eq!(deleter.trashed.borrow().as_slice(), &[first]);
    assert_eq!(snapshot.count, 1);
    assert_eq!(snapshot.current_position, Some(1));
    assert_eq!(viewer.path_for(&current.id), Some(second));
}

#[test]
fn trashed_current_image_revokes_the_original_opaque_id() {
    let mut folder = Folder::new("/tmp/viewer-q");
    let first = folder.write("image1.png", b"first");
    folder.write("image2.png", b"second");
    let mut viewer = Viewer::new(folder, SequenceOrdering::NaturalName);
    let opened = viewer
        .open_single_image(&first)
        .expect("opened image")
        .current
        .expect("opened current image");
    let deleter = TestTrashDeleter::default();

    viewer.trash_current_image(&deleter).expect("trashed current image");

    assert!(unknown(&viewer, &opened.id));
}

#[test]
fn trashing_the_only_image_returns_empty_snapshot() {
    let mut folder = Folder::new("/tmp/viewer-r");
    let image = folder.write("image1.png", b"image");
    let mut viewer = Viewer::new(folder, SequenceOrdering::NaturalName);
    viewer.open_single_image(&image).expect("opened image");
    let deleter = TestTrashDeleter::default();

    let snapshot = viewer.trash_current_image(&deleter).expect("trashed current image");

    assert_eq!(snapshot.current, None);
    assert_eq!(snapshot.current_position, None);
    assert_eq!(snapshot.count, 0);
}

#[test]
fn trash_failure_keeps_current_image_visible() {
    let mut folder = Folder::new("/tmp/viewer-s");
    let first = folder.write("image1.png", b"first");
    folder.write("image2.png", b"second");
    let mut viewer = Viewer::new(folder, SequenceOrdering::NaturalName);
    let opened = viewer
        .open_single_image(&first)
        .expect("opened image")
        .current
        .expect("opened current image");
    let deleter = TestTrashDeleter { fail: true, ..TestTrashDeleter::default() };

    let error = viewer.trash_current_image(&deleter).expect_err("trash failed");
    let snapshot = viewer.snapshot().expect("current snapshot");

    assert_eq!(error.frontend_safe_message(), "failed to move image to trash");
    assert_eq!(snapshot.count, 2);
    assert_eq!(snapshot.current_position, Some(1));
    assert_eq!(viewer.path_for(&opened.id), Some(first));
}

#[test]
fn actions_without_an_open_image_report_no_current_image() {
    let mut viewer = Viewer::new(Folder::new("/tmp/viewer-t"), SequenceOrdering::NaturalName);
    let deleter = TestTrashDeleter::default();
    assert_eq!(viewer.rename_current_image("x").err(), Some(ViewerSessionError::NoCurrentImage));
    assert_eq!(viewer.trash_current_image(&deleter).err(), Some(ViewerSessionError::NoCurrentImage));
    assert_eq!(
        ViewerSessionError::NoCurrentImage.frontend_safe_message(),
        "no image is currently open"
    );
    let snapshot = viewer.next().expect("empty snapshot");
    assert_eq!(snapshot.count, 0);
}

#[test]
fn snapshot_of_a_deleted_current_image_reports_it_missing() {
    let mut folder = Folder::new("/tmp/viewer-u");
    let first = folder.write("image1.png", b"first");
    let mut viewer = Viewer::new(folder, SequenceOrdering::NaturalName);
    viewer.open_single_image(&first).expect("opened image");
    viewer.folder.borrow_mut().files.clear();
    let error = viewer.snapshot().expect_err("deleted image");
    assert_eq!(error.frontend_safe_message(), "image file was not found");
}

#[test]
fn snapshot_asks_for_a_preflight_only_when_none_is_cached() {
    let mut folder = Folder::new("/tmp/viewer-v");
    let first = folder.write("image1.png", b"first");
    let second = folder.write("image2.png", b"second");
    let mut viewer = Viewer::new(folder, SequenceOrdering::NaturalName);
    viewer.open_single_image(&first).expect("opened image");
    assert_eq!(viewer.reader.calls, 1);

    let probed = viewer.folder.borrow().probe(&second);
    viewer.session.next();
    let step = viewer.session.snapshot(&mut viewer.registry, &probed, None).expect("asked");
    assert_eq!(step, SnapshotStep::ReadPreflight(second.clone()));

    viewer.previous().expect("back to the first image");
    viewer.next().expect("on to the second image");
    viewer.previous().expect("back again");
    assert_eq!(viewer.reader.calls, 2);
}
