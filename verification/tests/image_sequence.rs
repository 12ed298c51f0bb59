use manzar::fs_facts::{FileMetadata, FileSystemError, FolderEntry, ProbedFile, SelectedPath};
use manzar::image_sequence::{ImageSequence, ImageSequenceError};
use manzar::sequence_ordering::SequenceOrdering;

const FOLDER: &str = "/tmp/manzar-test";

fn canonical(name: &str) -> String {
    format!("{FOLDER}/{name}")
}

fn metadata(size_bytes: u64) -> FileMetadata {
    FileMetadata { is_file: true, size_bytes, modified: Some(0) }
}

fn entry(name: &str, contents: &[u8]) -> Result<FolderEntry, FileSystemError> {
    Ok(FolderEntry {
        path: canonical(name),
        metadata: Ok(metadata(contents.len() as u64)),
        canonical_path: Ok(canonical(name)),
    })
}

fn selected(name: &str, contents: &[u8]) -> SelectedPath {
    SelectedPath {
        path: canonical(name),
        file: Ok(ProbedFile { canonical_path: canonical(name), metadata: metadata(contents.len() as u64) }),
    }
}

fn sequence_paths(sequence: &ImageSequence) -> Vec<String> {
    sequence.paths()
}

#[test]
fn opening_one_supported_image_discovers_non_hidden_supported_sibling_images() {
    let listing = vec![
        entry("opened.png", b"opened"),
        entry("sibling.JPG", b"sibling image file"),
        entry(".hidden.png", b"hidden image file"),
        entry("notes.txt", b"unsupported file"),
    ];

    let sequence = ImageSequence::from_single_image(
        &canonical("opened.png"),
        Ok(canonical("opened.png")),
        Ok(listing),
        SequenceOrdering::NaturalName,
    )
    .expect("Image Sequence");

    let opened = canonical("opened.png");
    let sibling = canonical("sibling.JPG");
    assert_eq!(sequence_paths(&sequence), vec![opened.clone(), sibling]);
    assert_eq!(sequence.current_path(), Some(opened.as_str()));
}

#[test]
fn explicit_image_selection_uses_only_selected_supported_images() {
    let selection = vec![
        selected("image2.gif", b"selected second"),
        selected("notes.txt", b"unsupported"),
        selected("image1.png", b"selected first"),
        selected(".hidden.png", b"hidden"),
    ];

    let sequence = ImageSequence::from_image_selection(selection, SequenceOrdering::NaturalName)
        .expect("Image Sequence");

    assert_eq!(
        sequence_paths(&sequence),
        vec![canonical("image1.png"), canonical("image2.gif")]
    );
}

#[test]
fn opening_a_folder_uses_supported_non_hidden_images_in_that_folder() {
    let listing = vec![
        entry("image2.webp", b"image2"),
        entry("image1.png", b"image1"),
        entry(".hidden.jpg", b"hidden"),
        entry("notes.txt", b"unsupported"),
    ];

    let sequence = ImageSequence::from_folder(Ok(listing), SequenceOrdering::NaturalName)
        .expect("Image Sequence");

    assert_eq!(
        sequence_paths(&sequence),
        vec![canonical("image1.png"), canonical("image2.webp")]
    );
}

#[test]
fn sequence_navigation_wraps_next_and_previous() {
    let listing = vec![entry("image1.png", b"image1"), entry("image2.png", b"image2")];
    let mut sequence = ImageSequence::from_folder(Ok(listing), SequenceOrdering::NaturalName)
        .expect("Image Sequence");
    let image1 = canonical("image1.png");
    let image2 = canonical("image2.png");

    assert_eq!(sequence.current_path(), Some(image1.as_str()));
    assert_eq!(sequence.next(), Some(image2.as_str()));
    assert_eq!(sequence.next(), Some(image1.as_str()));
    assert_eq!(sequence.previous(), Some(image2.as_str()));
}

#[test]
fn reordering_preserves_the_current_image() {
    let listing = vec![
        entry("a-large.png", b"large image contents"),
        entry("z-small.png", b"s"),
    ];
    let mut sequence = ImageSequence::from_folder(Ok(listing), SequenceOrdering::NaturalName)
        .expect("Image Sequence");
    let large_name_first = canonical("a-large.png");
    let small_name_second = canonical("z-small.png");

    assert_eq!(sequence.current_path(), Some(large_name_first.as_str()));

    sequence.reorder(SequenceOrdering::SizeSmallestFirst);

    assert_eq!(sequence.current_path(), Some(large_name_first.as_str()));
    assert_eq!(sequence.current_position(), Some(2));
    assert_eq!(sequence_paths(&sequence), vec![small_name_second, large_name_first]);
}

#[test]
fn replacing_current_path_updates_the_current_item() {
    let listing = vec![entry("old.png", b"old"), entry("sibling.png", b"sibling")];
    let mut sequence = ImageSequence::from_single_image(
        &canonical("old.png"),
        Ok(canonical("old.png")),
        Ok(listing),
        SequenceOrdering::NaturalName,
    )
    .expect("Image Sequence");

    let renamed = Ok(ProbedFile { canonical_path: canonical("renamed.png"), metadata: metadata(3) });
    sequence.replace_current_path(&renamed).expect("replace current path");

    assert_eq!(sequence.current_path(), Some(canonical("renamed.png").as_str()));
    assert_eq!(
        sequence_paths(&sequence),
        vec![canonical("renamed.png"), canonical("sibling.png")]
    );
}

#[test]
fn removing_current_selects_the_next_image_and_wraps_from_the_end() {
    let listing = vec![entry("image1.png", b"first"), entry("image2.png", b"second")];
    let mut sequence = ImageSequence::from_folder(Ok(listing), SequenceOrdering::NaturalName)
        .expect("Image Sequence");

    sequence.remove_current();
    assert_eq!(sequence.current_path(), Some(canonical("image2.png").as_str()));
    assert_eq!(sequence.current_position(), Some(1));

    sequence.remove_current();
    assert!(sequence.is_empty());
    assert_eq!(sequence.current_position(), None);
}

#[test]
fn removing_the_last_image_wraps_to_the_first() {
    let listing = vec![
        entry("image1.png", b"1"),
        entry("image2.png", b"2"),
        entry("image3.png", b"3"),
    ];
    let mut sequence = ImageSequence::from_folder(Ok(listing), SequenceOrdering::NaturalName)
        .expect("Image Sequence");
    sequence.previous();
    assert_eq!(sequence.current_position(), Some(3));
    sequence.remove_current();
    assert_eq!(sequence.current_path(), Some(canonical("image1.png").as_str()));
    assert_eq!(sequence.len(), 2);
}

#[test]
fn opening_rejects_hidden_unsupported_and_empty_inputs() {
    assert_eq!(
        ImageSequence::from_single_image("/x/.hidden.png", Ok("/x/.hidden.png".to_string()), Ok(vec![]), SequenceOrdering::NaturalName)
            .err(),
        Some(ImageSequenceError::HiddenImage)
    );
    assert_eq!(
        ImageSequence::from_single_image("/x/notes.txt", Ok("/x/notes.txt".to_string()), Ok(vec![]), SequenceOrdering::NaturalName)
            .err(),
        Some(ImageSequenceError::UnsupportedImage)
    );
    assert_eq!(
        ImageSequence::from_single_image("/x/gone.png", Err(FileSystemError::NotFound), Ok(vec![]), SequenceOrdering::NaturalName)
            .err(),
        Some(ImageSequenceError::FileSystem(FileSystemError::NotFound))
    );
    assert_eq!(
        ImageSequence::from_single_image("/", Ok("/".to_string()), Ok(vec![]), SequenceOrdering::NaturalName).err(),
        Some(ImageSequenceError::UnsupportedImage)
    );
    assert_eq!(
        ImageSequence::from_folder(Ok(vec![entry("notes.txt", b"n")]), SequenceOrdering::NaturalName).err(),
        Some(ImageSequenceError::NoSupportedImages)
    );
    assert_eq!(
        ImageSequence::from_folder(Err(FileSystemError::Other), SequenceOrdering::NaturalName).err(),
        Some(ImageSequenceError::FileSystem(FileSystemError::Other))
    );
}

#[test]
fn opened_image_missing_from_its_folder_is_unsupported() {
    let listing = vec![entry("other.png", b"other")];
    assert_eq!(
        ImageSequence::from_single_image(
            &canonical("opened.png"),
            Ok(canonical("opened.png")),
            Ok(listing),
            SequenceOrdering::NaturalName,
        )
        .err(),
        Some(ImageSequenceError::UnsupportedImage)
    );
}

#[test]
fn folder_scan_stops_at_the_first_unreadable_supported_entry() {
    let listing = vec![
        entry("image1.png", b"1"),
        Ok(FolderEntry {
            path: canonical("notes.txt"),
            metadata: Err(FileSystemError::Other),
            canonical_path: Err(FileSystemError::Other),
        }),
        Ok(FolderEntry {
            path: canonical("folder.png"),
            metadata: Ok(FileMetadata { is_file: false, size_bytes: 0, modified: None }),
            canonical_path: Ok(canonical("folder.png")),
        }),
        Ok(FolderEntry {
            path: canonical("broken.png"),
            metadata: Err(FileSystemError::NotFound),
            canonical_path: Ok(canonical("broken.png")),
        }),
    ];
    assert_eq!(
        ImageSequence::from_folder(Ok(listing), SequenceOrdering::NaturalName).err(),
        Some(ImageSequenceError::FileSystem(FileSystemError::NotFound))
    );
}

#[test]
fn selection_passes_over_missing_files_and_duplicates() {
    let selection = vec![
        selected("image1.png", b"1"),
        SelectedPath { path: canonical("gone.png"), file: Err(FileSystemError::NotFound) },
        selected("image1.png", b"1"),
    ];
    let sequence = ImageSequence::from_image_selection(selection, SequenceOrdering::NaturalName)
        .expect("Image Sequence");
    assert_eq!(sequence_paths(&sequence), vec![canonical("image1.png")]);

    let failing = vec![SelectedPath { path: canonical("locked.png"), file: Err(FileSystemError::Other) }];
    assert_eq!(
        ImageSequence::from_image_selection(failing, SequenceOrdering::NaturalName).err(),
        Some(ImageSequenceError::FileSystem(FileSystemError::Other))
    );
    let directory = vec![SelectedPath {
        path: canonical("dir.png"),
        file: Ok(ProbedFile {
            canonical_path: canonical("dir.png"),
            metadata: FileMetadata { is_file: false, size_bytes: 0, modified: None },
        }),
    }];
    assert_eq!(
        ImageSequence::from_image_selection(directory, SequenceOrdering::NaturalName).err(),
        Some(ImageSequenceError::UnsupportedImage)
    );
}

#[test]
fn next_then_previous_returns_to_the_same_image() {
    let listing = vec![entry("a.png", b"1"), entry("b.png", b"2"), entry("c.png", b"3")];
    let mut sequence = ImageSequence::from_folder(Ok(listing), SequenceOrdering::NaturalName)
        .expect("Image Sequence");
    for _ in 0..4 {
        let before = sequence.current_path().map(str::to_string);
        sequence.next();
        sequence.previous();
        assert_eq!(sequence.current_path().map(str::to_string), before);
        sequence.next();
    }
}
