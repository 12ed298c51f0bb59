use vstd::prelude::*;
use crate::fs_facts::{FileMetadata, FileSystemError, FolderEntry, ProbedFile, SelectedPath};
use crate::path_text::{parent_of, path_parent, same_text};
use crate::sequence_ordering::{sort_images, sorted_images, SequenceOrdering};
use crate::supported_image::{
    hidden_dotfile_path, is_hidden_dotfile, is_supported_image, supported_image_path,
};

verus! {

/// One image of a sequence: its canonical path and what ordering reads of it.
#[derive(Debug)]
pub struct ImageSequenceItem {
    pub path: String,
    /// Modification time in nanoseconds from the Unix epoch.
    pub modified: i128,
    pub size_bytes: u64,
}

impl Clone for ImageSequenceItem {
    fn clone(&self) -> (copy: Self)
        ensures
            copy == *self,
    {
        ImageSequenceItem { path: self.path.clone(), modified: self.modified, size_bytes: self.size_bytes }
    }
}

impl ImageSequenceItem {
    pub fn new(path: String, modified: i128, size_bytes: u64) -> (item: Self)
        ensures
            item.path == path,
            item.modified == modified,
            item.size_bytes == size_bytes,
    {
        ImageSequenceItem { path, modified, size_bytes }
    }
}

/// Why an image sequence could not be built or changed.
#[derive(Debug, Clone, Copy, PartialEq, Eq, Structural)]
pub enum ImageSequenceError {
    HiddenImage,
    NoParentFolder,
    NoSupportedImages,
    UnsupportedImage,
    FileSystem(FileSystemError),
}

/// The sequence item for a file, where the metadata shows a regular file; a
/// file without a modification time counts as modified at the epoch.
pub open spec fn item_for(canonical_path: String, metadata: FileMetadata) -> ImageSequenceItem {
    ImageSequenceItem {
        path: canonical_path,
        modified: match metadata.modified {
            Some(t) => t,
            None => 0,
        },
        size_bytes: metadata.size_bytes,
    }
}

/// The sequence item for a resolved path: the file must be a regular file.
pub open spec fn item_from_probe(file: Result<ProbedFile, FileSystemError>) -> Result<
    ImageSequenceItem,
    ImageSequenceError,
> {
    match file {
        Err(e) => Err(ImageSequenceError::FileSystem(e)),
        Ok(probed) => if !probed.metadata.is_file {
            Err(ImageSequenceError::UnsupportedImage)
        } else {
            Ok(item_for(probed.canonical_path, probed.metadata))
        },
    }
}

/// What one folder entry adds to the folder's images: nothing for hidden,
/// unsupported or non-regular files, an error where reading it failed.
pub open spec fn folder_entry_item(entry: Result<FolderEntry, FileSystemError>) -> Result<
    Option<ImageSequenceItem>,
    ImageSequenceError,
> {
    match entry {
        Err(e) => Err(ImageSequenceError::FileSystem(e)),
        Ok(entry) => if hidden_dotfile_path(entry.path@) || !supported_image_path(entry.path@) {
            Ok(None)
        } else {
            match entry.metadata {
                Err(e) => Err(ImageSequenceError::FileSystem(e)),
                Ok(metadata) => if !metadata.is_file {
                    Ok(None)
                } else {
                    match entry.canonical_path {
                        Err(e) => Err(ImageSequenceError::FileSystem(e)),
                        Ok(canonical) => Ok(Some(item_for(canonical, metadata))),
                    }
                },
            }
        },
    }
}

/// The supported, non-hidden regular files of a folder listing, in listing
/// order; the first entry that fails to read stops the scan.
pub open spec fn folder_images(entries: Seq<Result<FolderEntry, FileSystemError>>) -> Result<
    Seq<ImageSequenceItem>,
    ImageSequenceError,
>
    decreases entries.len(),
{
    if entries.len() == 0 {
        Ok(Seq::empty())
    } else {
        match folder_images(entries.drop_last()) {
            Err(e) => Err(e),
            Ok(items) => match folder_entry_item(entries.last()) {
                Err(e) => Err(e),
                Ok(None) => Ok(items),
                Ok(Some(item)) => Ok(items.push(item)),
            },
        }
    }
}

/// Whether some item of `items` has the path `path`.
pub open spec fn has_path(items: Seq<ImageSequenceItem>, path: Seq<char>) -> bool {
    exists|k: int| 0 <= k < items.len() && #[trigger] items[k].path@ == path
}

/// The images of an explicit selection, in selection order: hidden and
/// unsupported paths and missing files are passed over, a path already taken
/// is not taken again, and any other failure stops the scan.
/// The paths already taken are found by scanning the images taken so far
/// rather than through a `HashSet`: vstd specifies `HashSet` only for
/// elements whose hashing it models, and a `String` is not among them.
pub open spec fn selected_images(selection: Seq<SelectedPath>) -> Result<
    Seq<ImageSequenceItem>,
    ImageSequenceError,
>
    decreases selection.len(),
{
    if selection.len() == 0 {
        Ok(Seq::empty())
    } else {
        match selected_images(selection.drop_last()) {
            Err(e) => Err(e),
            Ok(items) => {
                let selected = selection.last();
                if hidden_dotfile_path(selected.path@) || !supported_image_path(selected.path@) {
                    Ok(items)
                } else {
                    match item_from_probe(selected.file) {
                        Err(ImageSequenceError::FileSystem(FileSystemError::NotFound)) => Ok(items),
                        Err(e) => Err(e),
                        Ok(item) => if has_path(items, item.path@) {
                            Ok(items)
                        } else {
                            Ok(items.push(item))
                        },
                    }
                }
            },
        }
    }
}

/// `k` is the first index of `items` whose path is `path`.
pub open spec fn is_first_index_of(items: Seq<ImageSequenceItem>, path: Seq<char>, k: int) -> bool {
    &&& 0 <= k < items.len()
    &&& items[k].path@ == path
    &&& forall|j: int| 0 <= j < k ==> #[trigger] items[j].path@ != path
}

/// The abstract state of a sequence: its images in order and the index of the
/// current one.
pub struct SequenceState {
    pub items: Seq<ImageSequenceItem>,
    pub current: int,
}

impl SequenceState {
    /// The current index lies within the images, and is 0 when there are none.
    pub open spec fn valid(self) -> bool {
        if self.items.len() == 0 {
            self.current == 0
        } else {
            0 <= self.current < self.items.len()
        }
    }

    pub open spec fn current_path(self) -> Option<Seq<char>> {
        if self.items.len() == 0 {
            None
        } else {
            Some(self.items[self.current].path@)
        }
    }

    /// The state after moving to the next image, wrapping from the last to
    /// the first.
    pub open spec fn after_next(self) -> SequenceState {
        if self.items.len() == 0 {
            self
        } else {
            SequenceState { items: self.items, current: (self.current + 1) % (self.items.len() as int) }
        }
    }

    /// The state after moving to the previous image, wrapping from the first
    /// to the last.
    pub open spec fn after_previous(self) -> SequenceState {
        if self.items.len() == 0 {
            self
        } else {
            SequenceState {
                items: self.items,
                current: if self.current == 0 {
                    self.items.len() - 1
                } else {
                    self.current - 1
                },
            }
        }
    }

    /// The state after dropping the current image: the image after it becomes
    /// current, or the first where it was the last.
    pub open spec fn after_removing_current(self) -> SequenceState {
        if self.items.len() == 0 {
            self
        } else {
            let items = self.items.remove(self.current);
            SequenceState {
                items,
                current: if self.current < items.len() {
                    self.current
                } else {
                    0
                },
            }
        }
    }

    /// The one-based position of the current image.
    pub open spec fn position(self) -> Option<usize> {
        if self.items.len() == 0 {
            None
        } else {
            Some((self.current + 1) as usize)
        }
    }
}

/// An ordered set of images that previous and next move through, wrapping
/// around at either end.
#[derive(Debug)]
pub struct ImageSequence {
    items: Vec<ImageSequenceItem>,
    current_index: usize,
}

impl View for ImageSequence {
    type V = SequenceState;

    closed spec fn view(&self) -> SequenceState {
        SequenceState { items: self.items@, current: self.current_index as int }
    }
}

impl ImageSequence {
    #[verifier::type_invariant]
    closed spec fn current_in_range(self) -> bool {
        if self.items.len() == 0 {
            self.current_index == 0
        } else {
            self.current_index < self.items.len()
        }
    }

    /// Every sequence's state is valid, and its length fits a `usize`.
    pub fn check_valid(&self)
        ensures
            self@.valid(),
            self@.items.len() <= usize::MAX,
    {
        proof {
            use_type_invariant(self);
        }
        self.items.len();
    }

    fn from_items(items: Vec<ImageSequenceItem>, ordering: SequenceOrdering) -> (sequence: Result<
        Self,
        ImageSequenceError,
    >)
        ensures
            items@.len() == 0 ==> sequence == Err::<Self, _>(ImageSequenceError::NoSupportedImages),
            items@.len() > 0 ==> (sequence matches Ok(s) && s@.items == sorted_images(items@, ordering)
                && s@.current == 0),
    {
        if items.len() == 0 {
            return Err(ImageSequenceError::NoSupportedImages);
        }
        let mut items = items;
        proof {
            crate::sequence_ordering::lemma_sorted_images_permutes(items@, ordering);
        }
        sort_images(&mut items, ordering);
        Ok(ImageSequence { items, current_index: 0 })
    }

    /// The sequence of the supported images in a folder listing, arranged by
    /// `ordering`, starting at the first.
    pub fn from_folder(
        listing: Result<Vec<Result<FolderEntry, FileSystemError>>, FileSystemError>,
        ordering: SequenceOrdering,
    ) -> (sequence: Result<Self, ImageSequenceError>)
        ensures
            folder_outcome(listing, ordering, sequence),
    {
        let entries = match listing {
            Err(e) => return Err(ImageSequenceError::FileSystem(e)),
            Ok(entries) => entries,
        };
        let items = supported_images_in_folder(&entries)?;
        Self::from_items(items, ordering)
    }

    /// The sequence of the supported images among those the user selected,
    /// arranged by `ordering`, starting at the first.
    pub fn from_image_selection(selection: Vec<SelectedPath>, ordering: SequenceOrdering) -> (sequence:
        Result<Self, ImageSequenceError>)
        ensures
            built_from(selected_images(selection@), ordering, sequence),
    {
        let mut items: Vec<ImageSequenceItem> = Vec::new();
        let mut i: usize = 0;
        while i < selection.len()
            invariant
                i <= selection.len(),
                selected_images(selection@.take(i as int)) == Ok::<_, ImageSequenceError>(items@),
            decreases selection.len() - i,
        {
            proof {
                assert(selection@.take(i + 1).drop_last() =~= selection@.take(i as int));
            }
            let selected = &selection[i];
            if !is_hidden_dotfile(selected.path.as_str()) && is_supported_image(selected.path.as_str()) {
                match item_from_file(&selected.file) {
                    Ok(item) => {
                        if !contains_path(&items, item.path.as_str()) {
                            items.push(item);
                        }
                    },
                    Err(ImageSequenceError::FileSystem(FileSystemError::NotFound)) => {},
                    Err(e) => {
                        proof {
                            lemma_selected_images_error_persists(selection@, i + 1, e);
                        }
                        return Err(e);
                    },
                }
            }
            i = i + 1;
        }
        proof {
            assert(selection@.take(selection.len() as int) =~= selection@);
        }
        Self::from_items(items, ordering)
    }

    /// The sequence of the images in the folder of an opened image, arranged by
    /// `ordering`, starting at the opened image. `canonical` is the opened
    /// path resolved, `listing` the listing of its folder.
    pub fn from_single_image(
        path: &str,
        canonical: Result<String, FileSystemError>,
        listing: Result<Vec<Result<FolderEntry, FileSystemError>>, FileSystemError>,
        ordering: SequenceOrdering,
    ) -> (sequence: Result<Self, ImageSequenceError>)
        ensures
            single_image_outcome(path@, canonical, listing, ordering, sequence),
    {
        if is_hidden_dotfile(path) {
            return Err(ImageSequenceError::HiddenImage);
        }
        if !is_supported_image(path) {
            return Err(ImageSequenceError::UnsupportedImage);
        }
        let opened = match canonical {
            Err(e) => return Err(ImageSequenceError::FileSystem(e)),
            Ok(opened) => opened,
        };
        if parent_of(opened.as_str()).is_none() {
            return Err(ImageSequenceError::NoParentFolder);
        }
        let entries = match listing {
            Err(e) => return Err(ImageSequenceError::FileSystem(e)),
            Ok(entries) => entries,
        };
        let mut items = supported_images_in_folder(&entries)?;
        proof {
            crate::sequence_ordering::lemma_sorted_images_permutes(items@, ordering);
        }
        sort_images(&mut items, ordering);
        let current_index = match first_index_of_path(&items, opened.as_str()) {
            Some(k) => k,
            None => return Err(ImageSequenceError::UnsupportedImage),
        };
        Ok(ImageSequence { items, current_index })
    }

    pub fn current_path(&self) -> (path: Option<&str>)
        ensures
            match path {
                Some(p) => self@.current_path() == Some(p@),
                None => self@.current_path() is None,
            },
    {
        proof {
            use_type_invariant(self);
        }
        if self.items.len() == 0 {
            None
        } else {
            Some(self.items[self.current_index].path.as_str())
        }
    }

    /// The paths of the images, in sequence order.
    pub fn paths(&self) -> (paths: Vec<String>)
        ensures
            paths@.len() == self@.items.len(),
            forall|k: int| 0 <= k < paths@.len() ==> #[trigger] paths@[k]@ == self@.items[k].path@,
    {
        let mut paths: Vec<String> = Vec::new();
        let mut i: usize = 0;
        while i < self.items.len()
            invariant
                i <= self.items.len(),
                paths@.len() == i,
                forall|k: int| 0 <= k < i ==> #[trigger] paths@[k]@ == self.items@[k].path@,
            decreases self.items.len() - i,
        {
            paths.push(self.items[i].path.clone());
            i = i + 1;
        }
        paths
    }

    pub fn len(&self) -> (len: usize)
        ensures
            len == self@.items.len(),
    {
        self.items.len()
    }

    pub fn is_empty(&self) -> (empty: bool)
        ensures
            empty == (self@.items.len() == 0),
    {
        self.items.len() == 0
    }

    /// The one-based position of the current image, if there is one.
    pub fn current_position(&self) -> (position: Option<usize>)
        ensures
            position == self@.position(),
    {
        proof {
            use_type_invariant(self);
        }
        if self.items.len() == 0 {
            None
        } else {
            Some(self.current_index + 1)
        }
    }

    /// Moves to the next image, from the last back to the first.
    pub fn next(&mut self) -> (path: Option<&str>)
        ensures
            final(self)@ == old(self)@.after_next(),
            match path {
                Some(p) => final(self)@.current_path() == Some(p@),
                None => final(self)@.current_path() is None,
            },
    {
        proof {
            use_type_invariant(&*self);
        }
        if self.items.len() == 0 {
            return None;
        }
        self.current_index = (self.current_index + 1) % self.items.len();
        self.current_path()
    }

    /// Moves to the previous image, from the first back to the last.
    pub fn previous(&mut self) -> (path: Option<&str>)
        ensures
            final(self)@ == old(self)@.after_previous(),
            match path {
                Some(p) => final(self)@.current_path() == Some(p@),
                None => final(self)@.current_path() is None,
            },
    {
        proof {
            use_type_invariant(&*self);
        }
        if self.items.len() == 0 {
            return None;
        }
        self.current_index = if self.current_index == 0 {
            self.items.len() - 1
        } else {
            self.current_index - 1
        };
        self.current_path()
    }

    /// Arranges the images by `ordering`, keeping the current image current.
    pub fn reorder(&mut self, ordering: SequenceOrdering)
        ensures
            reordered(old(self)@, final(self)@, ordering),
            final(self)@.current_path() == old(self)@.current_path(),
    {
        proof {
            use_type_invariant(&*self);
        }
        let ghost old_items = self.items@;
        let ghost old_current = self.current_index as int;
        let current: Option<String> = if self.items.len() == 0 {
            None
        } else {
            Some(self.items[self.current_index].path.clone())
        };
        self.current_index = 0;
        let mut items: Vec<ImageSequenceItem> = Vec::new();
        std::mem::swap(&mut items, &mut self.items);
        proof {
            crate::sequence_ordering::lemma_sorted_images_permutes(items@, ordering);
        }
        sort_images(&mut items, ordering);
        let mut index: usize = 0;
        if let Some(current_path) = current {
            proof {
                broadcast use vstd::seq_lib::group_to_multiset_ensures;
                let item = old_items[old_current];
                assert(old_items.contains(item));
                assert(old_items.to_multiset().count(item) > 0);
                assert(items@.to_multiset().count(item) > 0);
                assert(items@.contains(item));
            }
            match first_index_of_path(&items, current_path.as_str()) {
                Some(k) => {
                    index = k;
                },
                None => {},
            }
        }
        self.items = items;
        self.current_index = index;
    }

    /// Replaces the current image by the file a rename left in its place.
    pub fn replace_current_path(&mut self, file: &Result<ProbedFile, FileSystemError>) -> (outcome:
        Result<(), ImageSequenceError>)
        ensures
            old(self)@.items.len() == 0 ==> outcome == Err::<(), _>(ImageSequenceError::NoSupportedImages)
                && final(self)@ == old(self)@,
            old(self)@.items.len() > 0 ==> match item_from_probe(*file) {
                Err(e) => outcome == Err::<(), _>(e) && final(self)@ == old(self)@,
                Ok(item) => outcome == Ok::<(), ImageSequenceError>(()) && final(self)@ == (
                SequenceState {
                    items: old(self)@.items.update(old(self)@.current, item),
                    current: old(self)@.current,
                }),
            },
    {
        proof {
            use_type_invariant(&*self);
        }
        if self.items.len() == 0 {
            return Err(ImageSequenceError::NoSupportedImages);
        }
        let item = item_from_file(file)?;
        let index: usize = self.current_index;
        self.current_index = 0;
        let mut items: Vec<ImageSequenceItem> = Vec::new();
        std::mem::swap(&mut items, &mut self.items);
        items.set(index, item);
        self.items = items;
        self.current_index = index;
        Ok(())
    }

    /// Drops the current image; the image after it becomes current, or the
    /// first where it was the last.
    pub fn remove_current(&mut self)
        ensures
            final(self)@ == old(self)@.after_removing_current(),
    {
        proof {
            use_type_invariant(&*self);
        }
        if self.items.len() == 0 {
            return;
        }
        let index: usize = self.current_index;
        self.current_index = 0;
        let mut items: Vec<ImageSequenceItem> = Vec::new();
        std::mem::swap(&mut items, &mut self.items);
        items.remove(index);
        let next_index: usize = if items.len() == 0 {
            0
        } else if index >= items.len() {
            0
        } else {
            index
        };
        self.items = items;
        self.current_index = next_index;
    }
}

/// `after` is `before` arranged by `ordering`, with the same image current.
pub open spec fn reordered(before: SequenceState, after: SequenceState, ordering: SequenceOrdering) -> bool {
    &&& after.items == sorted_images(before.items, ordering)
    &&& before.items.len() == 0 ==> after.current == 0
    &&& before.items.len() > 0 ==> is_first_index_of(
        after.items,
        before.items[before.current].path@,
        after.current,
    )
}

/// What building a sequence from found images yields.
pub open spec fn built_from(
    found: Result<Seq<ImageSequenceItem>, ImageSequenceError>,
    ordering: SequenceOrdering,
    sequence: Result<ImageSequence, ImageSequenceError>,
) -> bool {
    match found {
        Err(e) => sequence == Err::<ImageSequence, _>(e),
        Ok(items) => if items.len() == 0 {
            sequence == Err::<ImageSequence, _>(ImageSequenceError::NoSupportedImages)
        } else {
            sequence matches Ok(s) && s@.items == sorted_images(items, ordering) && s@.current == 0
        },
    }
}

/// What opening a folder yields: see `ImageSequence::from_folder`.
pub open spec fn folder_outcome(
    listing: Result<Vec<Result<FolderEntry, FileSystemError>>, FileSystemError>,
    ordering: SequenceOrdering,
    sequence: Result<ImageSequence, ImageSequenceError>,
) -> bool {
    match listing {
        Err(e) => sequence == Err::<ImageSequence, _>(ImageSequenceError::FileSystem(e)),
        Ok(entries) => built_from(folder_images(entries@), ordering, sequence),
    }
}

/// What opening a single image yields: see `ImageSequence::from_single_image`.
pub open spec fn single_image_outcome(
    path: Seq<char>,
    canonical: Result<String, FileSystemError>,
    listing: Result<Vec<Result<FolderEntry, FileSystemError>>, FileSystemError>,
    ordering: SequenceOrdering,
    sequence: Result<ImageSequence, ImageSequenceError>,
) -> bool {
    if hidden_dotfile_path(path) {
        sequence == Err::<ImageSequence, _>(ImageSequenceError::HiddenImage)
    } else if !supported_image_path(path) {
        sequence == Err::<ImageSequence, _>(ImageSequenceError::UnsupportedImage)
    } else {
        match canonical {
            Err(e) => sequence == Err::<ImageSequence, _>(ImageSequenceError::FileSystem(e)),
            Ok(opened) => if path_parent(opened@) is None {
                sequence == Err::<ImageSequence, _>(ImageSequenceError::NoParentFolder)
            } else {
                match listing {
                    Err(e) => sequence == Err::<ImageSequence, _>(ImageSequenceError::FileSystem(e)),
                    Ok(entries) => match folder_images(entries@) {
                        Err(e) => sequence == Err::<ImageSequence, _>(e),
                        Ok(items) => {
                            let arranged = sorted_images(items, ordering);
                            if has_path(arranged, opened@) {
                                sequence matches Ok(s) && s@.items == arranged && is_first_index_of(
                                    arranged,
                                    opened@,
                                    s@.current,
                                )
                            } else {
                                sequence == Err::<ImageSequence, _>(
                                    ImageSequenceError::UnsupportedImage,
                                )
                            }
                        },
                    },
                }
            },
        }
    }
}

proof fn lemma_folder_images_error_persists(
    entries: Seq<Result<FolderEntry, FileSystemError>>,
    k: int,
    e: ImageSequenceError,
)
    requires
        0 <= k <= entries.len(),
        folder_images(entries.take(k)) == Err::<Seq<ImageSequenceItem>, _>(e),
    ensures
        folder_images(entries) == Err::<Seq<ImageSequenceItem>, _>(e),
    decreases entries.len() - k,
{
    if k == entries.len() {
        assert(entries.take(k) =~= entries);
    } else {
        assert(entries.take(k + 1).drop_last() =~= entries.take(k));
        lemma_folder_images_error_persists(entries, k + 1, e);
    }
}

proof fn lemma_selected_images_error_persists(selection: Seq<SelectedPath>, k: int, e: ImageSequenceError)
    requires
        0 <= k <= selection.len(),
        selected_images(selection.take(k)) == Err::<Seq<ImageSequenceItem>, _>(e),
    ensures
        selected_images(selection) == Err::<Seq<ImageSequenceItem>, _>(e),
    decreases selection.len() - k,
{
    if k == selection.len() {
        assert(selection.take(k) =~= selection);
    } else {
        assert(selection.take(k + 1).drop_last() =~= selection.take(k));
        lemma_selected_images_error_persists(selection, k + 1, e);
    }
}

/// The sequence item for a resolved file: see `item_from_probe`.
pub fn item_from_file(file: &Result<ProbedFile, FileSystemError>) -> (item: Result<
    ImageSequenceItem,
    ImageSequenceError,
>)
    ensures
        item == item_from_probe(*file),
{
    match file {
        Err(e) => Err(ImageSequenceError::FileSystem(*e)),
        Ok(probed) => {
            if !probed.metadata.is_file {
                return Err(ImageSequenceError::UnsupportedImage);
            }
            let modified: i128 = match probed.metadata.modified {
                Some(t) => t,
                None => 0,
            };
            Ok(ImageSequenceItem::new(probed.canonical_path.clone(), modified, probed.metadata.size_bytes))
        },
    }
}

/// The supported, non-hidden regular files of a folder listing: see
/// `folder_images`.
pub fn supported_images_in_folder(entries: &Vec<Result<FolderEntry, FileSystemError>>) -> (items:
    Result<Vec<ImageSequenceItem>, ImageSequenceError>)
    ensures
        match folder_images(entries@) {
            Err(e) => items == Err::<Vec<ImageSequenceItem>, _>(e),
            Ok(found) => items matches Ok(v) && v@ == found,
        },
{
    let mut items: Vec<ImageSequenceItem> = Vec::new();
    let mut i: usize = 0;
    while i < entries.len()
        invariant
            i <= entries.len(),
            folder_images(entries@.take(i as int)) == Ok::<_, ImageSequenceError>(items@),
        decreases entries.len() - i,
    {
        proof {
            assert(entries@.take(i + 1).drop_last() =~= entries@.take(i as int));
        }
        match &entries[i] {
            Err(e) => {
                proof {
                    lemma_folder_images_error_persists(entries@, i + 1, ImageSequenceError::FileSystem(*e));
                }
                return Err(ImageSequenceError::FileSystem(*e));
            },
            Ok(entry) => {
                if !is_hidden_dotfile(entry.path.as_str()) && is_supported_image(entry.path.as_str()) {
                    match &entry.metadata {
                        Err(e) => {
                            proof {
                                lemma_folder_images_error_persists(
                                    entries@,
                                    i + 1,
                                    ImageSequenceError::FileSystem(*e),
                                );
                            }
                            return Err(ImageSequenceError::FileSystem(*e));
                        },
                        Ok(metadata) => {
                            if metadata.is_file {
                                match &entry.canonical_path {
                                    Err(e) => {
                                        proof {
                                            lemma_folder_images_error_persists(
                                                entries@,
                                                i + 1,
                                                ImageSequenceError::FileSystem(*e),
                                            );
                                        }
                                        return Err(ImageSequenceError::FileSystem(*e));
                                    },
                                    Ok(canonical) => {
                                        let modified: i128 = match metadata.modified {
                                            Some(t) => t,
                                            None => 0,
                                        };
                                        items.push(
                                            ImageSequenceItem::new(
                                                canonical.clone(),
                                                modified,
                                                metadata.size_bytes,
                                            ),
                                        );
                                    },
                                }
                            }
                        },
                    }
                }
            },
        }
        i = i + 1;
    }
    proof {
        assert(entries@.take(entries.len() as int) =~= entries@);
    }
    Ok(items)
}

/// Whether some item has the path `path`.
fn contains_path(items: &Vec<ImageSequenceItem>, path: &str) -> (found: bool)
    ensures
        found == has_path(items@, path@),
{
    let mut i: usize = 0;
    while i < items.len()
        invariant
            i <= items.len(),
            forall|k: int| 0 <= k < i ==> #[trigger] items@[k].path@ != path@,
        decreases items.len() - i,
    {
        if same_text(items[i].path.as_str(), path) {
            return true;
        }
        i = i + 1;
    }
    false
}

/// The first index whose item has the path `path`, if any.
fn first_index_of_path(items: &Vec<ImageSequenceItem>, path: &str) -> (index: Option<usize>)
    ensures
        match index {
            Some(k) => is_first_index_of(items@, path@, k as int),
            None => !has_path(items@, path@),
        },
{
    let mut i: usize = 0;
    while i < items.len()
        invariant
            i <= items.len(),
            forall|k: int| 0 <= k < i ==> #[trigger] items@[k].path@ != path@,
        decreases items.len() - i,
    {
        if same_text(items[i].path.as_str(), path) {
            return Some(i);
        }
        i = i + 1;
    }
    None
}

/// Moving to the next image and then to the previous one comes back to the
/// image one started from, and the other way round.
pub proof fn lemma_next_previous_undo(state: SequenceState)
    requires
        state.valid(),
    ensures
        state.after_next().valid(),
        state.after_previous().valid(),
        state.after_next().after_previous() == state,
        state.after_previous().after_next() == state,
{
    if state.items.len() > 0 {
        let n = state.items.len() as int;
        assert(n % n == 0) by (nonlinear_arith)
            requires
                n > 0,
        ;
        if state.current + 1 < n {
            vstd::arithmetic::div_mod::lemma_small_mod((state.current + 1) as nat, n as nat);
        }
        if state.current > 0 {
            vstd::arithmetic::div_mod::lemma_small_mod(state.current as nat, n as nat);
        }
    }
}

/// Dropping the current image keeps the state valid and the images after it
/// in order; the image that followed it becomes current.
pub proof fn lemma_removing_current_keeps_valid(state: SequenceState)
    requires
        state.valid(),
    ensures
        state.after_removing_current().valid(),
        state.items.len() > 0 ==> state.after_removing_current().items.len() == state.items.len() - 1,
        state.items.len() > 1 && state.current + 1 < state.items.len() ==> state.after_removing_current().current_path()
            == Some(state.items[state.current + 1].path@),
{
}

} // verus!

verus! {

/// Arranging a sequence by an ordering keeps its images and its current
/// image, and leaves the state valid.
pub proof fn lemma_reordering_keeps_current(
    before: SequenceState,
    after: SequenceState,
    ordering: SequenceOrdering,
)
    requires
        before.valid(),
        reordered(before, after, ordering),
    ensures
        after.valid(),
        after.current_path() == before.current_path(),
        after.items.to_multiset() == before.items.to_multiset(),
{
    crate::sequence_ordering::lemma_sorted_images_permutes(before.items, ordering);
}


/// `entry` is a readable, supported, non-hidden regular file, and `item`
/// carries its canonical path, its size and its modification time (the
/// epoch where the platform gave none).
pub open spec fn entry_gives(entry: Result<FolderEntry, FileSystemError>, item: ImageSequenceItem) -> bool {
    match entry {
        Ok(e) => match (e.metadata, e.canonical_path) {
            (Ok(m), Ok(c)) => {
                &&& !hidden_dotfile_path(e.path@)
                &&& supported_image_path(e.path@)
                &&& m.is_file
                &&& item.path == c
                &&& item.size_bytes == m.size_bytes
                &&& item.modified == match m.modified {
                    Some(t) => t,
                    None => 0,
                }
            },
            _ => false,
        },
        Err(_) => false,
    }
}

/// Some entry of `entries` gives `item`.
pub open spec fn listed_in(entries: Seq<Result<FolderEntry, FileSystemError>>, item: ImageSequenceItem) -> bool {
    exists|j: int| 0 <= j < entries.len() && #[trigger] entry_gives(entries[j], item)
}

/// Every image a folder listing contributes comes from one of its entries
/// and carries that entry's canonical path, size and modification time.
pub proof fn lemma_folder_images_carry_entry_metadata(entries: Seq<Result<FolderEntry, FileSystemError>>)
    ensures
        folder_images(entries) matches Ok(items) ==> forall|k: int|
            0 <= k < items.len() ==> #[trigger] listed_in(entries, items[k]),
    decreases entries.len(),
{
    if entries.len() > 0 {
        let rest = entries.drop_last();
        lemma_folder_images_carry_entry_metadata(rest);
        if let Ok(items) = folder_images(entries) {
            let previous = folder_images(rest)->Ok_0;
            assert forall|k: int| 0 <= k < items.len() implies #[trigger] listed_in(entries, items[k]) by {
                if k < previous.len() {
                    assert(items[k] == previous[k]);
                    assert(listed_in(rest, previous[k]));
                    let j = choose|j: int| 0 <= j < rest.len() && #[trigger] entry_gives(rest[j], previous[k]);
                    assert(entries[j] == rest[j]);
                    assert(entry_gives(entries[j], items[k]));
                } else {
                    let j = entries.len() - 1;
                    assert(entries[j] == entries.last());
                    assert(entry_gives(entries[j], items[k]));
                }
            }
        }
    }
}

/// The images of a sequence opened on a folder are images of its listing:
/// each carries the canonical path, size and modification time of one of
/// its readable, supported, non-hidden regular files.
pub proof fn lemma_folder_sequence_carries_entry_metadata(
    listing: Result<Vec<Result<FolderEntry, FileSystemError>>, FileSystemError>,
    ordering: SequenceOrdering,
    sequence: ImageSequence,
)
    requires
        folder_outcome(listing, ordering, Ok(sequence)),
    ensures
        listing is Ok,
        forall|k: int|
            0 <= k < sequence@.items.len() ==> #[trigger] listed_in(listing->Ok_0@, sequence@.items[k]),
{
    broadcast use vstd::seq_lib::group_to_multiset_ensures;
    let entries = listing->Ok_0@;
    lemma_folder_images_carry_entry_metadata(entries);
    let items = folder_images(entries)->Ok_0;
    crate::sequence_ordering::lemma_sorted_images_permutes(items, ordering);
    assert forall|k: int| 0 <= k < sequence@.items.len() implies #[trigger] listed_in(
        entries,
        sequence@.items[k],
    ) by {
        let x = sequence@.items[k];
        assert(sequence@.items.to_multiset().count(x) > 0);
        assert(items.contains(x));
        let i = choose|i: int| 0 <= i < items.len() && items[i] == x;
        assert(listed_in(entries, items[i]));
    }
}

/// The item for a resolved file: the file must be a regular file, and the
/// item carries its canonical path, its size and its modification time (the
/// epoch where none was reported); a failure to resolve is passed on.
pub proof fn lemma_probed_item_carries_metadata(file: Result<ProbedFile, FileSystemError>)
    ensures
        match file {
            Err(e) => item_from_probe(file) == Err::<ImageSequenceItem, _>(
                ImageSequenceError::FileSystem(e),
            ),
            Ok(p) => if !p.metadata.is_file {
                item_from_probe(file) == Err::<ImageSequenceItem, _>(
                    ImageSequenceError::UnsupportedImage,
                )
            } else {
                &&& item_from_probe(file) is Ok
                &&& item_from_probe(file)->Ok_0.path == p.canonical_path
                &&& item_from_probe(file)->Ok_0.size_bytes == p.metadata.size_bytes
                &&& item_from_probe(file)->Ok_0.modified == match p.metadata.modified {
                    Some(t) => t,
                    None => 0,
                }
            },
        },
{
}

/// `selected` is a supported, non-hidden path resolved to a regular file,
/// and `item` carries its canonical path, size and modification time.
pub open spec fn selection_gives(selected: SelectedPath, item: ImageSequenceItem) -> bool {
    match selected.file {
        Ok(p) => {
            &&& !hidden_dotfile_path(selected.path@)
            &&& supported_image_path(selected.path@)
            &&& p.metadata.is_file
            &&& item.path == p.canonical_path
            &&& item.size_bytes == p.metadata.size_bytes
            &&& item.modified == match p.metadata.modified {
                Some(t) => t,
                None => 0,
            }
        },
        Err(_) => false,
    }
}

/// Some path of `selection` gives `item`.
pub open spec fn chosen_in(selection: Seq<SelectedPath>, item: ImageSequenceItem) -> bool {
    exists|j: int| 0 <= j < selection.len() && #[trigger] selection_gives(selection[j], item)
}

/// Every image an explicit selection contributes comes from one of the
/// selected paths and carries that file's canonical path, size and
/// modification time; no canonical path is taken twice.
pub proof fn lemma_selected_images_carry_probes(selection: Seq<SelectedPath>)
    ensures
        selected_images(selection) matches Ok(items) ==> (forall|k: int|
            0 <= k < items.len() ==> #[trigger] chosen_in(selection, items[k])) && (forall|i: int, j: int|
            0 <= i < j < items.len() ==> #[trigger] items[i].path@ != #[trigger] items[j].path@),
    decreases selection.len(),
{
    if selection.len() > 0 {
        let rest = selection.drop_last();
        lemma_selected_images_carry_probes(rest);
        if let Ok(items) = selected_images(selection) {
            let previous = selected_images(rest)->Ok_0;
            assert forall|k: int| 0 <= k < items.len() implies #[trigger] chosen_in(selection, items[k]) by {
                if k < previous.len() {
                    assert(items[k] == previous[k]);
                    assert(chosen_in(rest, previous[k]));
                    let j = choose|j: int| 0 <= j < rest.len() && #[trigger] selection_gives(rest[j], previous[k]);
                    assert(selection[j] == rest[j]);
                    assert(selection_gives(selection[j], items[k]));
                } else {
                    let j = selection.len() - 1;
                    assert(selection[j] == selection.last());
                    assert(selection_gives(selection[j], items[k]));
                }
            }
            assert forall|i: int, j: int| 0 <= i < j < items.len() implies #[trigger] items[i].path@
                != #[trigger] items[j].path@ by {
                if j < previous.len() {
                    assert(items[i] == previous[i] && items[j] == previous[j]);
                } else {
                    assert(items[i] == previous[i]);
                    assert(!has_path(previous, items[j].path@));
                }
            }
        }
    }
}

} // verus!
