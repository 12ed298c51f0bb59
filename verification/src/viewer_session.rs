use vstd::prelude::*;
use vstd::string::StringExecFns;
use crate::file_actions::FileActionError;
use crate::fs_facts::{FileSystemError, FolderEntry, ProbedFile, SelectedPath};
use crate::image_registry::{
    approval_outcome, id_of_path, lemma_approval_is_stable, lemma_revoked_path_is_unknown,
    one_id_per_path, resolved_or,
    ApprovedImage, ApprovedImageRegistry, ImageRegistryError,
};
use crate::image_sequence::{
    built_from, folder_outcome, item_from_probe, reordered, selected_images,
    single_image_outcome, ImageSequence, ImageSequenceError, SequenceState,
};
use crate::metadata_preflight::{ImagePreflight, MetadataPreflightError, PreflightView};
use crate::sequence_ordering::SequenceOrdering;
use crate::viewed_image_descriptor::{
    descriptor_outcome, lemma_described_image, read_view,
    DescriptorStep, FileFingerprint, ViewedImageDescriptorError, ViewedImageDescriptors,
    ViewerImage,
};

verus! {

/// The viewer's state: the open image sequence, if any, the ordering new
/// sequences get, and the cached preflights.
#[derive(Debug)]
pub struct ViewerSession {
    sequence: Option<ImageSequence>,
    sequence_ordering: SequenceOrdering,
    image_descriptors: ViewedImageDescriptors,
}

/// What the frontend is shown: the current image, its one-based position,
/// the number of images, and the active ordering.
#[derive(Debug, Clone, PartialEq, Eq)]
pub struct ViewerSnapshot {
    pub current: Option<ViewerImage>,
    pub current_position: Option<usize>,
    pub count: usize,
    pub sequence_ordering: SequenceOrdering,
}

#[derive(Debug, Clone, Copy, PartialEq, Eq, Structural)]
pub enum ViewerSessionError {
    ImageSequence(ImageSequenceError),
    ImageRegistry(ImageRegistryError),
    MetadataPreflight(MetadataPreflightError),
    FileAction(FileActionError),
    NoCurrentImage,
}

/// The abstract state of a session.
pub struct SessionView {
    pub sequence: Option<SequenceState>,
    pub ordering: SequenceOrdering,
    pub descriptors: Map<Seq<char>, (FileFingerprint, PreflightView)>,
}

impl SessionView {
    /// The path of the current image, if a nonempty sequence is open.
    pub open spec fn current_path(self) -> Option<Seq<char>> {
        match self.sequence {
            Some(s) => s.current_path(),
            None => None,
        }
    }

    /// The open sequence, if any, is valid, and its length fits a `usize`.
    pub open spec fn valid(self) -> bool {
        match self.sequence {
            Some(s) => s.valid() && s.items.len() <= usize::MAX,
            None => true,
        }
    }

    /// This state with the sequence replaced.
    pub open spec fn with_sequence(self, sequence: Option<SequenceState>) -> SessionView {
        SessionView { sequence, ordering: self.ordering, descriptors: self.descriptors }
    }
}

impl View for ViewerSession {
    type V = SessionView;

    closed spec fn view(&self) -> SessionView {
        SessionView {
            sequence: match self.sequence {
                Some(s) => Some(s@),
                None => None,
            },
            ordering: self.sequence_ordering,
            descriptors: self.image_descriptors@,
        }
    }
}

pub open spec fn session_error_of(error: ViewedImageDescriptorError) -> ViewerSessionError {
    match error {
        ViewedImageDescriptorError::ImageRegistry(e) => ViewerSessionError::ImageRegistry(e),
        ViewedImageDescriptorError::MetadataPreflight(e) => ViewerSessionError::MetadataPreflight(e),
    }
}

impl From<ViewedImageDescriptorError> for ViewerSessionError {
    fn from(error: ViewedImageDescriptorError) -> (session_error: Self) {
        match error {
            ViewedImageDescriptorError::ImageRegistry(e) => ViewerSessionError::ImageRegistry(e),
            ViewedImageDescriptorError::MetadataPreflight(e) => ViewerSessionError::MetadataPreflight(e),
        }
    }
}

impl vstd::std_specs::convert::FromSpecImpl<ViewedImageDescriptorError> for ViewerSessionError {
    open spec fn obeys_from_spec() -> bool {
        true
    }

    open spec fn from_spec(error: ViewedImageDescriptorError) -> Self {
        session_error_of(error)
    }
}

/// What opening a sequence does to the session and the registry: on success
/// the new sequence replaces the old one and every approval is revoked;
/// otherwise nothing changes.
pub open spec fn opened(
    before: SessionView,
    after: SessionView,
    registry_before: Map<Seq<char>, Seq<char>>,
    registry_after: Map<Seq<char>, Seq<char>>,
    built: Result<ImageSequence, ImageSequenceError>,
    outcome: Result<(), ViewerSessionError>,
) -> bool {
    match built {
        Err(e) => outcome == Err::<(), _>(ViewerSessionError::ImageSequence(e)) && after == before
            && registry_after == registry_before,
        Ok(s) => outcome == Ok::<(), ViewerSessionError>(()) && after == before.with_sequence(Some(s@))
            && registry_after == Map::<Seq<char>, Seq<char>>::empty(),
    }
}

/// The snapshot of a session without an open sequence.
pub open spec fn empty_snapshot(ordering: SequenceOrdering) -> ViewerSnapshot {
    ViewerSnapshot { current: None, current_position: None, count: 0, sequence_ordering: ordering }
}

/// What a snapshot still needs: nothing, or the preflight of the current
/// image's file, read from the disk at the canonical path it names.
#[derive(Debug, Clone, PartialEq, Eq)]
pub enum SnapshotStep {
    Ready(ViewerSnapshot),
    ReadPreflight(String),
}

/// What taking a snapshot does: see `ViewerSession::snapshot`.
pub open spec fn snapshot_outcome(
    before: SessionView,
    after: SessionView,
    registry_before: Map<Seq<char>, Seq<char>>,
    registry_after: Map<Seq<char>, Seq<char>>,
    current_file: Result<ProbedFile, FileSystemError>,
    read: Option<Result<PreflightView, MetadataPreflightError>>,
    snapshot: Result<SnapshotStep, ViewerSessionError>,
) -> bool {
    match before.sequence {
        None => snapshot == Ok::<_, ViewerSessionError>(
            SnapshotStep::Ready(empty_snapshot(before.ordering)),
        ) && after == before && registry_after == registry_before,
        Some(s) => if s.items.len() == 0 {
            snapshot == Err::<SnapshotStep, _>(ViewerSessionError::NoCurrentImage) && after == before
                && registry_after == registry_before
        } else {
            after.sequence == before.sequence && after.ordering == before.ordering && exists|
                described: Result<DescriptorStep, ViewedImageDescriptorError>,
            |
                #![trigger descriptor_outcome(registry_before, registry_after, before.descriptors, after.descriptors, s.items[s.current].path@, current_file, read, described)]
                {
                    &&& descriptor_outcome(
                        registry_before,
                        registry_after,
                        before.descriptors,
                        after.descriptors,
                        s.items[s.current].path@,
                        current_file,
                        read,
                        described,
                    )
                    &&& match described {
                        Err(e) => snapshot == Err::<SnapshotStep, _>(session_error_of(e)),
                        Ok(DescriptorStep::ReadPreflight(p)) => snapshot == Ok::<_, ViewerSessionError>(
                            SnapshotStep::ReadPreflight(p),
                        ),
                        Ok(DescriptorStep::Described(image)) => snapshot == Ok::<_, ViewerSessionError>(
                            SnapshotStep::Ready(
                                ViewerSnapshot {
                                    current: Some(image),
                                    current_position: s.position(),
                                    count: s.items.len() as usize,
                                    sequence_ordering: before.ordering,
                                },
                            ),
                        ),
                    }
                }
        },
    }
}

impl Default for ViewerSession {
    fn default() -> (session: Self)
        ensures
            session@.sequence is None,
            session@.ordering == SequenceOrdering::NewestModifiedFirst,
            session@.descriptors == Map::<Seq<char>, (FileFingerprint, PreflightView)>::empty(),
    {
        Self::new(SequenceOrdering::NewestModifiedFirst)
    }
}

impl ViewerSession {
    pub fn new(sequence_ordering: SequenceOrdering) -> (session: Self)
        ensures
            session@.sequence is None,
            session@.ordering == sequence_ordering,
            session@.descriptors == Map::<Seq<char>, (FileFingerprint, PreflightView)>::empty(),
    {
        ViewerSession { sequence: None, sequence_ordering, image_descriptors: ViewedImageDescriptors::new() }
    }

    pub fn sequence_ordering(&self) -> (ordering: SequenceOrdering)
        ensures
            ordering == self@.ordering,
    {
        self.sequence_ordering
    }

    fn open_sequence(
        &mut self,
        built: Result<ImageSequence, ImageSequenceError>,
        registry: &mut ApprovedImageRegistry,
    ) -> (outcome: Result<(), ViewerSessionError>)
        ensures
            opened(old(self)@, final(self)@, old(registry)@, final(registry)@, built, outcome),
    {
        match built {
            Err(e) => Err(ViewerSessionError::ImageSequence(e)),
            Ok(sequence) => {
                self.sequence = Some(sequence);
                registry.clear();
                Ok(())
            },
        }
    }

    /// Opens the folder of the image at `path`, starting at that image; see
    /// `ImageSequence::from_single_image` for `canonical` and `listing`.
    pub fn open_single_image(
        &mut self,
        path: &str,
        canonical: Result<String, FileSystemError>,
        listing: Result<Vec<Result<FolderEntry, FileSystemError>>, FileSystemError>,
        registry: &mut ApprovedImageRegistry,
    ) -> (outcome: Result<(), ViewerSessionError>)
        ensures
            exists|built: Result<ImageSequence, ImageSequenceError>|
                #![trigger opened(old(self)@, final(self)@, old(registry)@, final(registry)@, built, outcome)]
                single_image_outcome(path@, canonical, listing, old(self)@.ordering, built) && opened(
                    old(self)@,
                    final(self)@,
                    old(registry)@,
                    final(registry)@,
                    built,
                    outcome,
                ),
    {
        let ghost canonical_in = canonical;
        let ghost listing_in = listing;
        let built = ImageSequence::from_single_image(path, canonical, listing, self.sequence_ordering);
        let ghost b = built;
        let outcome = self.open_sequence(built, registry);
        assert(single_image_outcome(path@, canonical_in, listing_in, old(self)@.ordering, b));
        outcome
    }

    /// Opens the selected images.
    pub fn open_image_selection(
        &mut self,
        selection: Vec<SelectedPath>,
        registry: &mut ApprovedImageRegistry,
    ) -> (outcome: Result<(), ViewerSessionError>)
        ensures
            exists|built: Result<ImageSequence, ImageSequenceError>|
                #![trigger opened(old(self)@, final(self)@, old(registry)@, final(registry)@, built, outcome)]
                built_from(selected_images(selection@), old(self)@.ordering, built) && opened(
                    old(self)@,
                    final(self)@,
                    old(registry)@,
                    final(registry)@,
                    built,
                    outcome,
                ),
    {
        let ghost selection_in = selection@;
        let built = ImageSequence::from_image_selection(selection, self.sequence_ordering);
        let ghost b = built;
        let outcome = self.open_sequence(built, registry);
        assert(built_from(selected_images(selection_in), old(self)@.ordering, b));
        outcome
    }

    /// Opens the images of a folder from its listing.
    pub fn open_folder(
        &mut self,
        listing: Result<Vec<Result<FolderEntry, FileSystemError>>, FileSystemError>,
        registry: &mut ApprovedImageRegistry,
    ) -> (outcome: Result<(), ViewerSessionError>)
        ensures
            exists|built: Result<ImageSequence, ImageSequenceError>|
                #![trigger opened(old(self)@, final(self)@, old(registry)@, final(registry)@, built, outcome)]
                folder_outcome(listing, old(self)@.ordering, built) && opened(
                    old(self)@,
                    final(self)@,
                    old(registry)@,
                    final(registry)@,
                    built,
                    outcome,
                ),
    {
        let ghost listing_in = listing;
        let built = ImageSequence::from_folder(listing, self.sequence_ordering);
        let ghost b = built;
        let outcome = self.open_sequence(built, registry);
        assert(folder_outcome(listing_in, old(self)@.ordering, b));
        outcome
    }

    /// Moves to the next image of the open sequence, if any.
    pub fn next(&mut self)
        ensures
            final(self)@ == old(self)@.with_sequence(
                match old(self)@.sequence {
                    Some(s) => Some(s.after_next()),
                    None => None,
                },
            ),
    {
        if let Some(sequence) = &mut self.sequence {
            sequence.next();
        }
    }

    /// Moves to the previous image of the open sequence, if any.
    pub fn previous(&mut self)
        ensures
            final(self)@ == old(self)@.with_sequence(
                match old(self)@.sequence {
                    Some(s) => Some(s.after_previous()),
                    None => None,
                },
            ),
    {
        if let Some(sequence) = &mut self.sequence {
            sequence.previous();
        }
    }

    /// Makes `ordering` the active ordering and arranges the open sequence by
    /// it, keeping its current image.
    pub fn set_sequence_ordering(&mut self, ordering: SequenceOrdering)
        ensures
            final(self)@.ordering == ordering,
            final(self)@.descriptors == old(self)@.descriptors,
            match old(self)@.sequence {
                None => final(self)@.sequence is None,
                Some(s) => final(self)@.sequence matches Some(t) && reordered(s, t, ordering),
            },
    {
        self.sequence_ordering = ordering;
        if let Some(sequence) = &mut self.sequence {
            sequence.reorder(ordering);
        }
    }

    /// The path of the current image.
    pub fn current_path_buf(&self) -> (path: Result<String, ViewerSessionError>)
        ensures
            match self@.current_path() {
                Some(p) => path matches Ok(q) && q@ == p,
                None => path == Err::<String, _>(ViewerSessionError::NoCurrentImage),
            },
    {
        let sequence = match &self.sequence {
            Some(sequence) => sequence,
            None => return Err(ViewerSessionError::NoCurrentImage),
        };
        match sequence.current_path() {
            Some(path) => Ok(<String as StringExecFns>::from_str(path)),
            None => Err(ViewerSessionError::NoCurrentImage),
        }
    }

    /// Every session's state is valid: the current index lies within the
    /// open sequence, whose length fits a `usize`.
    pub fn check_valid(&self)
        ensures
            self@.valid(),
    {
        if let Some(sequence) = &self.sequence {
            sequence.check_valid();
        }
    }

    /// Takes the snapshot the frontend is shown, approving the current image
    /// for serving. `current_file` is the outcome of resolving the current
    /// path and querying the file there; `read` is the preflight of the
    /// approved file read from the disk, where the caller has read it. Where
    /// the preflight is neither cached nor read, the step names the canonical
    /// path to read it from, and the caller takes the snapshot again with it.
    pub fn snapshot(
        &mut self,
        registry: &mut ApprovedImageRegistry,
        current_file: &Result<ProbedFile, FileSystemError>,
        read: Option<Result<ImagePreflight, MetadataPreflightError>>,
    ) -> (snapshot: Result<SnapshotStep, ViewerSessionError>)
        ensures
            old(self)@.valid(),
            final(self)@.valid(),
            snapshot_outcome(
                old(self)@,
                final(self)@,
                old(registry)@,
                final(registry)@,
                *current_file,
                read_view(read),
                snapshot,
            ),
    {
        self.check_valid();
        let ghost read_in = read_view(read);
        let sequence = match &self.sequence {
            None => {
                return Ok(
                    SnapshotStep::Ready(
                        ViewerSnapshot {
                            current: None,
                            current_position: None,
                            count: 0,
                            sequence_ordering: self.sequence_ordering,
                        },
                    ),
                );
            },
            Some(sequence) => sequence,
        };
        let current_path: &str = match sequence.current_path() {
            Some(path) => path,
            None => return Err(ViewerSessionError::NoCurrentImage),
        };
        sequence.check_valid();
        let described = self.image_descriptors.descriptor_for_path(
            current_path,
            current_file,
            registry,
            read,
        );
        let ghost d = described;
        let ghost state = old(self)@.sequence->Some_0;
        assert(state.items[state.current].path@ == current_path@);
        assert(descriptor_outcome(
            old(registry)@,
            registry@,
            old(self)@.descriptors,
            self@.descriptors,
            state.items[state.current].path@,
            *current_file,
            read_in,
            d,
        ));
        let current: ViewerImage = match described {
            Ok(DescriptorStep::Described(image)) => image,
            Ok(DescriptorStep::ReadPreflight(path)) => {
                return Ok(SnapshotStep::ReadPreflight(path));
            },
            Err(e) => {
                return Err(ViewerSessionError::from(e));
            },
        };
        Ok(
            SnapshotStep::Ready(
                ViewerSnapshot {
                    current: Some(current),
                    current_position: sequence.current_position(),
                    count: sequence.len(),
                    sequence_ordering: self.sequence_ordering,
                },
            ),
        )
    }

    /// Follows a rename of the current image file on disk: `rename` is the
    /// outcome of the rename, `old_resolved` the outcome of resolving the old
    /// current path after it, and `renamed_file` the outcome of resolving and
    /// querying the renamed file. The old path loses its approval and cached
    /// preflight; the renamed file takes the current place and the sequence
    /// is arranged again.
    pub fn rename_current_image(
        &mut self,
        rename: Result<(), FileActionError>,
        old_resolved: &Result<String, FileSystemError>,
        renamed_file: &Result<ProbedFile, FileSystemError>,
        registry: &mut ApprovedImageRegistry,
    ) -> (outcome: Result<(), ViewerSessionError>)
        ensures
            match old(self)@.current_path() {
                None => outcome == Err::<(), _>(ViewerSessionError::NoCurrentImage) && final(self)@ == old(
                    self,
                )@ && final(registry)@ == old(registry)@,
                Some(current) => match rename {
                    Err(e) => outcome == Err::<(), _>(ViewerSessionError::FileAction(e)) && final(self)@
                        == old(self)@ && final(registry)@ == old(registry)@,
                    Ok(()) => {
                        &&& final(registry)@ == revoked(old(registry)@, resolved_or(current, *old_resolved))
                        &&& final(self)@.descriptors == old(self)@.descriptors.remove(
                            resolved_or(current, *old_resolved),
                        )
                        &&& final(self)@.ordering == old(self)@.ordering
                        &&& match item_from_probe(*renamed_file) {
                            Err(e) => outcome == Err::<(), _>(ViewerSessionError::ImageSequence(e))
                                && final(self)@.sequence == old(self)@.sequence,
                            Ok(item) => {
                                let s = old(self)@.sequence->Some_0;
                                let replaced = SequenceState {
                                    items: s.items.update(s.current, item),
                                    current: s.current,
                                };
                                &&& outcome == Ok::<(), ViewerSessionError>(())
                                &&& final(self)@.sequence matches Some(t) && reordered(
                                    replaced,
                                    t,
                                    old(self)@.ordering,
                                )
                            },
                        }
                    },
                },
            },
    {
        let current: String = self.current_path_buf()?;
        if let Err(e) = rename {
            return Err(ViewerSessionError::FileAction(e));
        }
        registry.revoke_path(current.as_str(), old_resolved);
        self.image_descriptors.forget_path(current.as_str(), old_resolved);
        let ordering: SequenceOrdering = self.sequence_ordering;
        let sequence: &mut ImageSequence = match &mut self.sequence {
            Some(sequence) => sequence,
            None => return Err(ViewerSessionError::NoCurrentImage),
        };
        match sequence.replace_current_path(renamed_file) {
            Err(e) => return Err(ViewerSessionError::ImageSequence(e)),
            Ok(()) => {},
        }
        sequence.reorder(ordering);
        Ok(())
    }

    /// Follows a move of the current image to the trash: `trashed` is the
    /// outcome of trashing the file at the current path, `old_resolved` the
    /// outcome of resolving the current path after it. Once trashed, the
    /// image loses its approval and cached preflight and leaves the sequence;
    /// the image after it becomes current, and a sequence left empty is
    /// closed. Where trashing failed, nothing changes and the image stays.
    pub fn trash_current_image(
        &mut self,
        trashed: Result<(), FileActionError>,
        old_resolved: &Result<String, FileSystemError>,
        registry: &mut ApprovedImageRegistry,
    ) -> (outcome: Result<(), ViewerSessionError>)
        ensures
            match old(self)@.current_path() {
                None => outcome == Err::<(), _>(ViewerSessionError::NoCurrentImage) && final(self)@ == old(
                    self,
                )@ && final(registry)@ == old(registry)@,
                Some(current) => match trashed {
                    Err(e) => outcome == Err::<(), _>(ViewerSessionError::FileAction(e)) && final(self)@
                        == old(self)@ && final(registry)@ == old(registry)@,
                    Ok(()) => outcome == Ok::<(), ViewerSessionError>(()) && final(registry)@ == revoked(
                        old(registry)@,
                        resolved_or(current, *old_resolved),
                    ) && final(self)@ == (SessionView {
                        sequence: after_trashing(old(self)@.sequence->Some_0),
                        ordering: old(self)@.ordering,
                        descriptors: old(self)@.descriptors.remove(resolved_or(current, *old_resolved)),
                    }),
                },
            },
    {
        let current: String = self.current_path_buf()?;
        if let Err(e) = trashed {
            return Err(ViewerSessionError::FileAction(e));
        }
        registry.revoke_path(current.as_str(), old_resolved);
        self.image_descriptors.forget_path(current.as_str(), old_resolved);
        let mut emptied: bool = false;
        if let Some(sequence) = &mut self.sequence {
            sequence.remove_current();
            emptied = sequence.is_empty();
        }
        if emptied {
            self.sequence = None;
        }
        Ok(())
    }
}

/// The registry after the approval of `path`, if it has one, is revoked.
pub open spec fn revoked(registry: Map<Seq<char>, Seq<char>>, path: Seq<char>) -> Map<Seq<char>, Seq<char>> {
    match id_of_path(registry, path) {
        Some(id) => registry.remove(id),
        None => registry,
    }
}

/// The open sequence after its current image was trashed: closed when no
/// image is left.
pub open spec fn after_trashing(sequence: SequenceState) -> Option<SequenceState> {
    let left = sequence.after_removing_current();
    if left.items.len() == 0 {
        None
    } else {
        Some(left)
    }
}

/// The message the frontend is shown for an error: a fixed text that names
/// no file.
pub open spec fn frontend_message(error: ViewerSessionError) -> Seq<char> {
    match error {
        ViewerSessionError::ImageSequence(ImageSequenceError::HiddenImage) => "hidden images are not supported"@,
        ViewerSessionError::ImageSequence(ImageSequenceError::NoParentFolder) => "image has no parent folder"@,
        ViewerSessionError::ImageSequence(ImageSequenceError::NoSupportedImages) => "no supported images were found"@,
        ViewerSessionError::ImageSequence(ImageSequenceError::UnsupportedImage) => "unsupported image format"@,
        ViewerSessionError::ImageSequence(ImageSequenceError::FileSystem(e))
        | ViewerSessionError::ImageRegistry(ImageRegistryError::FileSystem(e))
        | ViewerSessionError::MetadataPreflight(MetadataPreflightError::FileSystem(e)) => match e {
            FileSystemError::NotFound => "image file was not found"@,
            FileSystemError::Other => "failed to access image file"@,
        },
        ViewerSessionError::ImageRegistry(ImageRegistryError::HiddenImage) => "hidden images are not supported"@,
        ViewerSessionError::ImageRegistry(ImageRegistryError::UnsupportedImage) => "unsupported image format"@,
        ViewerSessionError::FileAction(FileActionError::EmptyStem) => "rename name cannot be empty"@,
        ViewerSessionError::FileAction(FileActionError::HiddenTarget) => "rename name cannot start with a dot"@,
        ViewerSessionError::FileAction(FileActionError::PathSeparator) => "rename name cannot contain path separators"@,
        ViewerSessionError::FileAction(FileActionError::TargetAlreadyExists) => "an image with that name already exists"@,
        ViewerSessionError::FileAction(FileActionError::TrashDeletionFailed) => "failed to move image to trash"@,
        ViewerSessionError::FileAction(FileActionError::NoParentFolder) => "image has no parent folder"@,
        ViewerSessionError::FileAction(FileActionError::MissingExtension) => "unsupported image format"@,
        ViewerSessionError::FileAction(FileActionError::FileSystem(e)) => match e {
            FileSystemError::NotFound => "image file was not found"@,
            FileSystemError::Other => "failed to update image file"@,
        },
        ViewerSessionError::NoCurrentImage => "no image is currently open"@,
    }
}

impl ViewerSessionError {
    /// A message for the frontend that does not reveal paths.
    pub fn frontend_safe_message(&self) -> (message: &'static str)
        ensures
            message@ == frontend_message(*self),
    {
        match self {
            ViewerSessionError::ImageSequence(ImageSequenceError::HiddenImage) => "hidden images are not supported",
            ViewerSessionError::ImageSequence(ImageSequenceError::NoParentFolder) => "image has no parent folder",
            ViewerSessionError::ImageSequence(ImageSequenceError::NoSupportedImages) => "no supported images were found",
            ViewerSessionError::ImageSequence(ImageSequenceError::UnsupportedImage) => "unsupported image format",
            ViewerSessionError::ImageSequence(ImageSequenceError::FileSystem(e))
            | ViewerSessionError::ImageRegistry(ImageRegistryError::FileSystem(e))
            | ViewerSessionError::MetadataPreflight(MetadataPreflightError::FileSystem(e)) => match e {
                FileSystemError::NotFound => "image file was not found",
                FileSystemError::Other => "failed to access image file",
            },
            ViewerSessionError::ImageRegistry(ImageRegistryError::HiddenImage) => "hidden images are not supported",
            ViewerSessionError::ImageRegistry(ImageRegistryError::UnsupportedImage) => "unsupported image format",
            ViewerSessionError::FileAction(FileActionError::EmptyStem) => "rename name cannot be empty",
            ViewerSessionError::FileAction(FileActionError::HiddenTarget) => "rename name cannot start with a dot",
            ViewerSessionError::FileAction(FileActionError::PathSeparator) => "rename name cannot contain path separators",
            ViewerSessionError::FileAction(FileActionError::TargetAlreadyExists) => "an image with that name already exists",
            ViewerSessionError::FileAction(FileActionError::TrashDeletionFailed) => "failed to move image to trash",
            ViewerSessionError::FileAction(FileActionError::NoParentFolder) => "image has no parent folder",
            ViewerSessionError::FileAction(FileActionError::MissingExtension) => "unsupported image format",
            ViewerSessionError::FileAction(FileActionError::FileSystem(e)) => match e {
                FileSystemError::NotFound => "image file was not found",
                FileSystemError::Other => "failed to update image file",
            },
            ViewerSessionError::NoCurrentImage => "no image is currently open",
        }
    }
}

} // verus!

verus! {

/// Opening a sequence revokes every image id handed out before it, and the
/// new sequence's current image becomes the session's.
pub proof fn lemma_opening_revokes_every_id(
    before: SessionView,
    after: SessionView,
    registry_before: Map<Seq<char>, Seq<char>>,
    registry_after: Map<Seq<char>, Seq<char>>,
    built: Result<ImageSequence, ImageSequenceError>,
    id: Seq<char>,
)
    requires
        opened(before, after, registry_before, registry_after, built, Ok(())),
    ensures
        !registry_after.contains_key(id),
        built matches Ok(s) && after.current_path() == s@.current_path(),
{
}

/// Once the current image is renamed or trashed, no id resolves to its old
/// path any more.
pub proof fn lemma_revoked_path_no_longer_resolves(
    registry: Map<Seq<char>, Seq<char>>,
    path: Seq<char>,
    id: Seq<char>,
)
    requires
        one_id_per_path(registry),
    ensures
        revoked(registry, path).contains_key(id) ==> revoked(registry, path)[id] != path,
{
    lemma_revoked_path_is_unknown(registry, path, id);
}


/// After a sequence is opened, the snapshot that follows leaves exactly one
/// approved id: the one the frontend is shown, standing for the canonical
/// path of the current image. Every id handed out before is gone.
pub proof fn lemma_open_then_snapshot_approves_only_current(
    before: SessionView,
    opened_view: SessionView,
    after: SessionView,
    registry_before: Map<Seq<char>, Seq<char>>,
    registry_opened: Map<Seq<char>, Seq<char>>,
    registry_after: Map<Seq<char>, Seq<char>>,
    built: Result<ImageSequence, ImageSequenceError>,
    current_file: Result<ProbedFile, FileSystemError>,
    read: Option<Result<PreflightView, MetadataPreflightError>>,
    shown: ViewerSnapshot,
    image: ViewerImage,
)
    requires
        opened(before, opened_view, registry_before, registry_opened, built, Ok(())),
        snapshot_outcome(
            opened_view,
            after,
            registry_opened,
            registry_after,
            current_file,
            read,
            Ok(SnapshotStep::Ready(shown)),
        ),
        shown.current == Some(image),
    ensures
        current_file matches Ok(probed) && registry_after == Map::<Seq<char>, Seq<char>>::empty().insert(
            image.id@,
            probed.canonical_path@,
        ),
{
    let approved = lemma_shown_image_was_approved(
        opened_view,
        after,
        registry_opened,
        registry_after,
        current_file,
        read,
        shown,
        image,
    );
    assert(registry_opened =~= Map::<Seq<char>, Seq<char>>::empty());
    assert(id_of_path(registry_opened, current_file->Ok_0.canonical_path@) is None);
}


/// A snapshot that shows an image approved it: the image's id is the id the
/// approval of the current path gave.
proof fn lemma_shown_image_was_approved(
    before: SessionView,
    after: SessionView,
    registry_before: Map<Seq<char>, Seq<char>>,
    registry_after: Map<Seq<char>, Seq<char>>,
    current_file: Result<ProbedFile, FileSystemError>,
    read: Option<Result<PreflightView, MetadataPreflightError>>,
    shown: ViewerSnapshot,
    image: ViewerImage,
) -> (approved: ApprovedImage)
    requires
        snapshot_outcome(
            before,
            after,
            registry_before,
            registry_after,
            current_file,
            read,
            Ok(SnapshotStep::Ready(shown)),
        ),
        shown.current == Some(image),
    ensures
        before.current_path() matches Some(path) && approval_outcome(
            registry_before,
            registry_after,
            path,
            current_file,
            Ok(approved),
        ),
        image.id@ == approved.spec_id(),
{
    let s = before.sequence->Some_0;
    let path = s.items[s.current].path@;
    let described = choose|described: Result<DescriptorStep, ViewedImageDescriptorError>|
        #![trigger descriptor_outcome(registry_before, registry_after, before.descriptors, after.descriptors, path, current_file, read, described)]
        descriptor_outcome(
            registry_before,
            registry_after,
            before.descriptors,
            after.descriptors,
            path,
            current_file,
            read,
            described,
        ) && match described {
            Err(e) => Ok::<_, ViewerSessionError>(SnapshotStep::Ready(shown)) == Err::<SnapshotStep, _>(
                session_error_of(e),
            ),
            Ok(DescriptorStep::ReadPreflight(p)) => Ok::<_, ViewerSessionError>(
                SnapshotStep::Ready(shown),
            ) == Ok::<_, ViewerSessionError>(SnapshotStep::ReadPreflight(p)),
            Ok(DescriptorStep::Described(v)) => Ok::<_, ViewerSessionError>(SnapshotStep::Ready(shown))
                == Ok::<_, ViewerSessionError>(
                SnapshotStep::Ready(
                    ViewerSnapshot {
                        current: Some(v),
                        current_position: s.position(),
                        count: s.items.len() as usize,
                        sequence_ordering: before.ordering,
                    },
                ),
            ),
        };
    lemma_described_image(
        registry_before,
        registry_after,
        before.descriptors,
        after.descriptors,
        path,
        current_file,
        read,
        described,
    )
}

/// Coming back to the same image, with its file unchanged and no approval
/// revoked in between, shows it under the same opaque id, and the second
/// snapshot approves nothing new.
pub proof fn lemma_revisited_image_keeps_its_id(
    first_before: SessionView,
    first_after: SessionView,
    second_before: SessionView,
    second_after: SessionView,
    registry_before: Map<Seq<char>, Seq<char>>,
    registry_middle: Map<Seq<char>, Seq<char>>,
    registry_after: Map<Seq<char>, Seq<char>>,
    current_file: Result<ProbedFile, FileSystemError>,
    first_read: Option<Result<PreflightView, MetadataPreflightError>>,
    second_read: Option<Result<PreflightView, MetadataPreflightError>>,
    first_shown: ViewerSnapshot,
    second_shown: ViewerSnapshot,
    first_image: ViewerImage,
    second_image: ViewerImage,
)
    requires
        one_id_per_path(registry_before),
        snapshot_outcome(
            first_before,
            first_after,
            registry_before,
            registry_middle,
            current_file,
            first_read,
            Ok(SnapshotStep::Ready(first_shown)),
        ),
        snapshot_outcome(
            second_before,
            second_after,
            registry_middle,
            registry_after,
            current_file,
            second_read,
            Ok(SnapshotStep::Ready(second_shown)),
        ),
        second_before.current_path() == first_before.current_path(),
        first_shown.current == Some(first_image),
        second_shown.current == Some(second_image),
    ensures
        second_image.id@ == first_image.id@,
        registry_after == registry_middle,
{
    let first = lemma_shown_image_was_approved(
        first_before,
        first_after,
        registry_before,
        registry_middle,
        current_file,
        first_read,
        first_shown,
        first_image,
    );
    let second = lemma_shown_image_was_approved(
        second_before,
        second_after,
        registry_middle,
        registry_after,
        current_file,
        second_read,
        second_shown,
        second_image,
    );
    let path = first_before.current_path()->Some_0;
    lemma_approval_is_stable(
        registry_before,
        registry_middle,
        registry_after,
        path,
        current_file,
        first,
        second,
    );
}

} // verus!
