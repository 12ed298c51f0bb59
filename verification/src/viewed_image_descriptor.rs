use vstd::prelude::*;
use vstd::string::StringExecFns;
use crate::fs_facts::{FileSystemError, ProbedFile};
use crate::image_protocol::{image_url, image_url_prefix};
use crate::image_registry::{
    approval_outcome, id_of_path, lemma_approval_keeps_one_id_per_path,
    lemma_approved_image_resolves, one_id_per_path, resolved_or, ApprovedImage,
    ApprovedImageRegistry, ImageRegistryError,
};
use crate::metadata_preflight::{
    lemma_oversized_exactly_when_over_threshold, oversized_reasons, ImageDimensions,
    ImagePreflight, MetadataPreflightError, OversizedImageReason, PreflightView,
    MAX_SAFE_DECODED_RGBA_BYTES, MAX_SAFE_FILE_SIZE_BYTES,
};
use crate::path_text::same_text;

verus! {

/// Reads the preflight of an image file.
pub trait ImagePreflightReader {
    fn preflight_image(&mut self, path: &str) -> Result<ImagePreflight, MetadataPreflightError>;
}

/// The size and modification time of a file; a changed fingerprint means the
/// file changed.
#[derive(Debug, Clone, Copy, PartialEq, Eq, Structural)]
pub struct FileFingerprint {
    pub size_bytes: u64,
    pub modified: i128,
}

/// The fingerprint of a probed file; a file without a modification time
/// counts as modified at the epoch.
pub open spec fn fingerprint_of(file: ProbedFile) -> FileFingerprint {
    FileFingerprint {
        size_bytes: file.metadata.size_bytes,
        modified: match file.metadata.modified {
            Some(t) => t,
            None => 0,
        },
    }
}

#[derive(Debug, Clone, Copy, PartialEq, Eq, Structural)]
pub struct ImageDimensionsDto {
    pub width: u32,
    pub height: u32,
}

#[derive(Debug, Clone, Copy, PartialEq, Eq, Structural)]
pub enum OversizedImageReasonDto {
    FileSize { actual_bytes: u64, threshold_bytes: u64 },
    DecodedRgbaMemory { estimated_bytes: u64, threshold_bytes: u64, width: u32, height: u32 },
}

/// The preflight of an image as the frontend receives it.
#[derive(Debug, Clone, PartialEq, Eq)]
pub struct ImagePreflightDto {
    pub file_size_bytes: u64,
    pub dimensions: Option<ImageDimensionsDto>,
    pub oversized: bool,
    pub reasons: Vec<OversizedImageReasonDto>,
}

/// The current image as the frontend receives it: an opaque id, the URL that
/// serves it, and its preflight. Nothing in it names the file.
#[derive(Debug, Clone, PartialEq, Eq)]
pub struct ViewerImage {
    pub id: String,
    pub url: String,
    pub preflight: ImagePreflightDto,
}

#[derive(Debug, Clone, Copy, PartialEq, Eq, Structural)]
pub enum ViewedImageDescriptorError {
    ImageRegistry(ImageRegistryError),
    MetadataPreflight(MetadataPreflightError),
}

impl From<ImageDimensions> for ImageDimensionsDto {
    fn from(dimensions: ImageDimensions) -> (dto: Self) {
        ImageDimensionsDto { width: dimensions.width, height: dimensions.height }
    }
}

impl vstd::std_specs::convert::FromSpecImpl<ImageDimensions> for ImageDimensionsDto {
    open spec fn obeys_from_spec() -> bool {
        true
    }

    open spec fn from_spec(dimensions: ImageDimensions) -> Self {
        ImageDimensionsDto { width: dimensions.width, height: dimensions.height }
    }
}

pub open spec fn reason_dto(reason: OversizedImageReason) -> OversizedImageReasonDto {
    match reason {
        OversizedImageReason::FileSize { actual_bytes, threshold_bytes } => {
            OversizedImageReasonDto::FileSize { actual_bytes, threshold_bytes }
        },
        OversizedImageReason::DecodedRgbaMemory { estimated_bytes, threshold_bytes, width, height } => {
            OversizedImageReasonDto::DecodedRgbaMemory { estimated_bytes, threshold_bytes, width, height }
        },
    }
}

impl From<OversizedImageReason> for OversizedImageReasonDto {
    fn from(reason: OversizedImageReason) -> (dto: Self) {
        match reason {
            OversizedImageReason::FileSize { actual_bytes, threshold_bytes } => {
                OversizedImageReasonDto::FileSize { actual_bytes, threshold_bytes }
            },
            OversizedImageReason::DecodedRgbaMemory {
                estimated_bytes,
                threshold_bytes,
                width,
                height,
            } => OversizedImageReasonDto::DecodedRgbaMemory {
                estimated_bytes,
                threshold_bytes,
                width,
                height,
            },
        }
    }
}

impl vstd::std_specs::convert::FromSpecImpl<OversizedImageReason> for OversizedImageReasonDto {
    open spec fn obeys_from_spec() -> bool {
        true
    }

    open spec fn from_spec(reason: OversizedImageReason) -> Self {
        reason_dto(reason)
    }
}

/// `dto` carries the content of `preflight`.
pub open spec fn describes_preflight(dto: ImagePreflightDto, preflight: PreflightView) -> bool {
    &&& dto.file_size_bytes == preflight.file_size_bytes
    &&& dto.dimensions == match preflight.dimensions {
        Some(d) => Some(ImageDimensionsDto { width: d.width, height: d.height }),
        None => None,
    }
    &&& dto.oversized == (preflight.reasons.len() > 0)
    &&& dto.reasons@ == preflight.reasons.map_values(|r: OversizedImageReason| reason_dto(r))
}

impl ImagePreflightDto {
    pub fn from_preflight(preflight: ImagePreflight) -> (dto: Self)
        ensures
            describes_preflight(dto, preflight@),
    {
        let source: &[OversizedImageReason] = preflight.reasons();
        let mut reasons: Vec<OversizedImageReasonDto> = Vec::new();
        let mut i: usize = 0;
        while i < source.len()
            invariant
                source@ == preflight@.reasons,
                i <= source@.len(),
                reasons@ == source@.subrange(0, i as int).map_values(
                    |r: OversizedImageReason| reason_dto(r),
                ),
            decreases source@.len() - i,
        {
            reasons.push(OversizedImageReasonDto::from(source[i]));
            i = i + 1;
            assert(source@.subrange(0, i as int).map_values(|r: OversizedImageReason| reason_dto(r))
                =~= source@.subrange(0, i - 1).map_values(|r: OversizedImageReason| reason_dto(r)).push(
                reason_dto(source@[i - 1]),
            ));
        }
        assert(source@.subrange(0, source@.len() as int) =~= source@);
        let dimensions: Option<ImageDimensionsDto> = match preflight.dimensions() {
            Some(d) => Some(ImageDimensionsDto::from(d)),
            None => None,
        };
        ImagePreflightDto {
            file_size_bytes: preflight.file_size_bytes(),
            dimensions,
            oversized: preflight.is_oversized(),
            reasons,
        }
    }
}

#[derive(Debug)]
struct CachedImagePreflight {
    path: String,
    fingerprint: FileFingerprint,
    preflight: ImagePreflight,
}

/// The cache of preflights: the last fingerprint and preflight read for each
/// path.
spec fn cache_map(entries: Seq<CachedImagePreflight>) -> Map<Seq<char>, (FileFingerprint, PreflightView)>
    decreases entries.len(),
{
    if entries.len() == 0 {
        Map::empty()
    } else {
        cache_map(entries.drop_last()).insert(
            entries.last().path@,
            (entries.last().fingerprint, entries.last().preflight@),
        )
    }
}

spec fn distinct_paths(entries: Seq<CachedImagePreflight>) -> bool {
    forall|i: int, j: int|
        0 <= i < entries.len() && 0 <= j < entries.len() && i != j ==> entries[i].path@
            != entries[j].path@
}

proof fn lemma_cache_map_facts(entries: Seq<CachedImagePreflight>)
    requires
        distinct_paths(entries),
    ensures
        forall|k: int|
            0 <= k < entries.len() ==> cache_map(entries).contains_key(#[trigger] entries[k].path@)
                && cache_map(entries)[entries[k].path@] == (entries[k].fingerprint, entries[k].preflight@),
        forall|p: Seq<char>|
            #[trigger] cache_map(entries).contains_key(p) ==> exists|k: int|
                0 <= k < entries.len() && entries[k].path@ == p,
    decreases entries.len(),
{
    if entries.len() > 0 {
        let rest = entries.drop_last();
        assert(distinct_paths(rest));
        lemma_cache_map_facts(rest);
        assert forall|k: int| 0 <= k < entries.len() implies cache_map(entries).contains_key(
            #[trigger] entries[k].path@,
        ) && cache_map(entries)[entries[k].path@] == (entries[k].fingerprint, entries[k].preflight@) by {
            if k < entries.len() - 1 {
                assert(rest[k] == entries[k]);
                assert(entries[k].path@ != entries.last().path@);
            }
        }
        assert forall|p: Seq<char>| #[trigger]
            cache_map(entries).contains_key(p) implies exists|k: int|
            0 <= k < entries.len() && entries[k].path@ == p by {
            if p != entries.last().path@ {
                assert(cache_map(rest).contains_key(p));
                let k = choose|k: int| 0 <= k < rest.len() && rest[k].path@ == p;
                assert(entries[k] == rest[k]);
            }
        }
    }
}

proof fn lemma_cache_map_remove(entries: Seq<CachedImagePreflight>, k: int)
    requires
        distinct_paths(entries),
        0 <= k < entries.len(),
    ensures
        distinct_paths(entries.remove(k)),
        cache_map(entries.remove(k)) == cache_map(entries).remove(entries[k].path@),
{
    let removed = entries.remove(k);
    assert(distinct_paths(removed)) by {
        assert forall|i: int, j: int|
            0 <= i < removed.len() && 0 <= j < removed.len() && i != j implies removed[i].path@
            != removed[j].path@ by {
            let oi = if i < k { i } else { i + 1 };
            let oj = if j < k { j } else { j + 1 };
            assert(removed[i] == entries[oi]);
            assert(removed[j] == entries[oj]);
        }
    }
    lemma_cache_map_facts(entries);
    lemma_cache_map_facts(removed);
    let left = cache_map(removed);
    let right = cache_map(entries).remove(entries[k].path@);
    assert forall|p: Seq<char>| left.contains_key(p) <==> right.contains_key(p) by {
        if left.contains_key(p) {
            let i = choose|i: int| 0 <= i < removed.len() && removed[i].path@ == p;
            let oi = if i < k { i } else { i + 1 };
            assert(removed[i] == entries[oi]);
        }
        if right.contains_key(p) {
            let i = choose|i: int| 0 <= i < entries.len() && entries[i].path@ == p;
            assert(i != k);
            let ri = if i < k { i } else { i - 1 };
            assert(removed[ri] == entries[i]);
        }
    }
    assert forall|p: Seq<char>| left.contains_key(p) implies left[p] == right[p] by {
        let i = choose|i: int| 0 <= i < removed.len() && removed[i].path@ == p;
        let oi = if i < k { i } else { i + 1 };
        assert(removed[i] == entries[oi]);
    }
    assert(left =~= right);
}

/// Describes viewed images to the frontend, reusing the preflight of a file
/// that has not changed since it was last read.
///
/// The cache is a vector with one entry per path rather than a `HashMap`
/// keyed by path: vstd specifies `HashMap` only for keys whose hashing it
/// models, and a `String` key is not among them.
#[derive(Debug)]
pub struct ViewedImageDescriptors {
    preflight_by_path: Vec<CachedImagePreflight>,
}

impl View for ViewedImageDescriptors {
    type V = Map<Seq<char>, (FileFingerprint, PreflightView)>;

    closed spec fn view(&self) -> Map<Seq<char>, (FileFingerprint, PreflightView)> {
        cache_map(self.preflight_by_path@)
    }
}

impl Default for ViewedImageDescriptors {
    fn default() -> (descriptors: Self)
        ensures
            descriptors@ == Map::<Seq<char>, (FileFingerprint, PreflightView)>::empty(),
    {
        ViewedImageDescriptors { preflight_by_path: Vec::new() }
    }
}

/// The preflight read from the disk, seen through its view.
pub open spec fn read_view(read: Option<Result<ImagePreflight, MetadataPreflightError>>) -> Option<
    Result<PreflightView, MetadataPreflightError>,
> {
    match read {
        None => None,
        Some(Ok(p)) => Some(Ok(p@)),
        Some(Err(e)) => Some(Err(e)),
    }
}

/// What looking up the preflight of `path`, whose file has `fingerprint`
/// now, does: see `ViewedImageDescriptors::preflight_for_path`. `read` is the
/// preflight read from the disk, if the caller has read it; `found` is
/// `Ok(None)` where a read is needed.
pub open spec fn preflight_outcome(
    before: Map<Seq<char>, (FileFingerprint, PreflightView)>,
    after: Map<Seq<char>, (FileFingerprint, PreflightView)>,
    path: Seq<char>,
    fingerprint: FileFingerprint,
    read: Option<Result<PreflightView, MetadataPreflightError>>,
    found: Result<Option<PreflightView>, ViewedImageDescriptorError>,
) -> bool {
    if before.contains_key(path) && before[path].0 == fingerprint {
        found == Ok::<_, ViewedImageDescriptorError>(Some(before[path].1)) && after == before
    } else {
        match read {
            None => found == Ok::<_, ViewedImageDescriptorError>(None::<PreflightView>) && after
                == before,
            Some(Ok(preflight)) => found == Ok::<_, ViewedImageDescriptorError>(Some(preflight))
                && after == before.insert(path, (fingerprint, preflight)),
            Some(Err(e)) => found == Err::<Option<PreflightView>, _>(
                ViewedImageDescriptorError::MetadataPreflight(e),
            ) && after == before,
        }
    }
}

/// What describing an image yields: its description, or the canonical path
/// of the file whose preflight must be read from the disk first.
#[derive(Debug, Clone, PartialEq, Eq)]
pub enum DescriptorStep {
    Described(ViewerImage),
    ReadPreflight(String),
}

/// What describing the image at `path` does: see
/// `ViewedImageDescriptors::descriptor_for_path`.
pub open spec fn descriptor_outcome(
    registry_before: Map<Seq<char>, Seq<char>>,
    registry_after: Map<Seq<char>, Seq<char>>,
    cache_before: Map<Seq<char>, (FileFingerprint, PreflightView)>,
    cache_after: Map<Seq<char>, (FileFingerprint, PreflightView)>,
    path: Seq<char>,
    file: Result<ProbedFile, FileSystemError>,
    read: Option<Result<PreflightView, MetadataPreflightError>>,
    described: Result<DescriptorStep, ViewedImageDescriptorError>,
) -> bool {
    exists|approved: Result<ApprovedImage, ImageRegistryError>|
        #![trigger approval_outcome(registry_before, registry_after, path, file, approved)]
        {
            &&& approval_outcome(registry_before, registry_after, path, file, approved)
            &&& match approved {
                Err(e) => described == Err::<DescriptorStep, _>(
                    ViewedImageDescriptorError::ImageRegistry(e),
                ) && cache_after == cache_before,
                Ok(image) => match file {
                    Ok(probed) => exists|found: Result<Option<PreflightView>, ViewedImageDescriptorError>|
                        #![trigger preflight_outcome(cache_before, cache_after, image.spec_path(), fingerprint_of(probed), read, found)]
                        {
                            &&& preflight_outcome(
                                cache_before,
                                cache_after,
                                image.spec_path(),
                                fingerprint_of(probed),
                                read,
                                found,
                            )
                            &&& match found {
                                Err(e) => described == Err::<DescriptorStep, _>(e),
                                Ok(None) => described matches Ok(DescriptorStep::ReadPreflight(p))
                                    && p@ == image.spec_path(),
                                Ok(Some(preflight)) => described matches Ok(
                                    DescriptorStep::Described(v),
                                ) && v.id@ == image.spec_id() && v.url@ == image_url_prefix()
                                    + image.spec_id() && describes_preflight(v.preflight, preflight),
                            }
                        },
                    Err(_) => false,
                },
            }
        }
}

impl ViewedImageDescriptors {
    #[verifier::type_invariant]
    closed spec fn well_formed(self) -> bool {
        distinct_paths(self.preflight_by_path@)
    }

    pub fn new() -> (descriptors: Self)
        ensures
            descriptors@ == Map::<Seq<char>, (FileFingerprint, PreflightView)>::empty(),
    {
        ViewedImageDescriptors { preflight_by_path: Vec::new() }
    }

    fn index_of(&self, path: &str) -> (index: Option<usize>)
        ensures
            match index {
                Some(k) => k < self.preflight_by_path@.len() && self.preflight_by_path@[k as int].path@
                    == path@,
                None => forall|k: int|
                    0 <= k < self.preflight_by_path@.len() ==> #[trigger] self.preflight_by_path@[k].path@
                        != path@,
            },
    {
        let mut i: usize = 0;
        while i < self.preflight_by_path.len()
            invariant
                i <= self.preflight_by_path@.len(),
                forall|k: int| 0 <= k < i ==> #[trigger] self.preflight_by_path@[k].path@ != path@,
            decreases self.preflight_by_path@.len() - i,
        {
            if same_text(self.preflight_by_path[i].path.as_str(), path) {
                return Some(i);
            }
            i = i + 1;
        }
        None
    }

    /// Forgets the preflight cached for `path`. `resolved` is the outcome of
    /// resolving `path`; where that failed, the preflight of `path` itself is
    /// forgotten.
    pub fn forget_path(&mut self, path: &str, resolved: &Result<String, FileSystemError>)
        ensures
            final(self)@ == old(self)@.remove(resolved_or(path@, *resolved)),
    {
        proof {
            use_type_invariant(&*self);
            lemma_cache_map_facts(self.preflight_by_path@);
        }
        let target: &str = match resolved {
            Ok(canonical) => canonical.as_str(),
            Err(_) => path,
        };
        match self.index_of(target) {
            Some(k) => {
                let mut entries: Vec<CachedImagePreflight> = Vec::new();
                std::mem::swap(&mut entries, &mut self.preflight_by_path);
                proof {
                    lemma_cache_map_remove(entries@, k as int);
                }
                entries.remove(k);
                self.preflight_by_path = entries;
            },
            None => {
                assert(self@.remove(target@) =~= self@);
            },
        }
    }

    /// The preflight of the file at `path`, which has `fingerprint` now: the
    /// cached one where the file is unchanged. Otherwise `read`, the preflight
    /// read from the disk, replaces the cached one; where the caller has not
    /// read it yet, `Ok(None)` asks for it and nothing changes.
    pub fn preflight_for_path(
        &mut self,
        path: &str,
        fingerprint: FileFingerprint,
        read: Option<Result<ImagePreflight, MetadataPreflightError>>,
    ) -> (found: Result<Option<ImagePreflight>, ViewedImageDescriptorError>)
        ensures
            preflight_outcome(
                old(self)@,
                final(self)@,
                path@,
                fingerprint,
                read_view(read),
                match found {
                    Ok(Some(p)) => Ok::<_, ViewedImageDescriptorError>(Some(p@)),
                    Ok(None) => Ok::<_, ViewedImageDescriptorError>(None::<PreflightView>),
                    Err(e) => Err::<Option<PreflightView>, _>(e),
                },
            ),
    {
        proof {
            use_type_invariant(&*self);
            lemma_cache_map_facts(self.preflight_by_path@);
        }
        let found: Option<usize> = self.index_of(path);
        if let Some(k) = found {
            if self.preflight_by_path[k].fingerprint == fingerprint {
                return Ok(Some(self.preflight_by_path[k].preflight.clone()));
            }
        }
        let fresh: ImagePreflight = match read {
            None => return Ok(None),
            Some(Ok(p)) => p,
            Some(Err(e)) => return Err(ViewedImageDescriptorError::MetadataPreflight(e)),
        };
        let copy: ImagePreflight = fresh.clone();
        let ghost old_map = self@;
        let mut entries: Vec<CachedImagePreflight> = Vec::new();
        std::mem::swap(&mut entries, &mut self.preflight_by_path);
        if let Some(k) = found {
            proof {
                lemma_cache_map_remove(entries@, k as int);
            }
            entries.remove(k);
        }
        let ghost kept = entries@;
        proof {
            lemma_cache_map_facts(kept);
            assert(cache_map(kept) =~= old_map.remove(path@));
        }
        entries.push(
            CachedImagePreflight {
                path: <String as StringExecFns>::from_str(path),
                fingerprint,
                preflight: copy,
            },
        );
        proof {
            assert(entries@.drop_last() =~= kept);
            assert forall|i: int, j: int|
                0 <= i < entries@.len() && 0 <= j < entries@.len() && i != j implies entries@[i].path@
                != entries@[j].path@ by {
                if i < kept.len() {
                    assert(entries@[i] == kept[i]);
                }
                if j < kept.len() {
                    assert(entries@[j] == kept[j]);
                }
                if i < kept.len() && j == kept.len() {
                    assert(!cache_map(kept).contains_key(path@));
                }
                if j < kept.len() && i == kept.len() {
                    assert(!cache_map(kept).contains_key(path@));
                }
            }
            assert(cache_map(entries@) =~= old_map.insert(path@, (fingerprint, fresh@)));
        }
        self.preflight_by_path = entries;
        Ok(Some(fresh))
    }

    /// Approves the image at `path` and describes it for the frontend. `file`
    /// is the outcome of resolving `path` and querying the file there; `read`
    /// is the preflight of the approved file read from the disk, where the
    /// caller has read it. Where the preflight is neither cached nor read, the
    /// result names the canonical path whose preflight to read.
    pub fn descriptor_for_path(
        &mut self,
        path: &str,
        file: &Result<ProbedFile, FileSystemError>,
        registry: &mut ApprovedImageRegistry,
        read: Option<Result<ImagePreflight, MetadataPreflightError>>,
    ) -> (described: Result<DescriptorStep, ViewedImageDescriptorError>)
        ensures
            descriptor_outcome(
                old(registry)@,
                final(registry)@,
                old(self)@,
                final(self)@,
                path@,
                *file,
                read_view(read),
                described,
            ),
    {
        let ghost read_in = read_view(read);
        let approved = registry.approve_path(path, file);
        let ghost approval = approved;
        let image: ApprovedImage = match approved {
            Ok(image) => image,
            Err(e) => {
                assert(approval_outcome(old(registry)@, registry@, path@, *file, approval));
                return Err(ViewedImageDescriptorError::ImageRegistry(e));
            },
        };
        let fingerprint: FileFingerprint = match file {
            Ok(probed) => FileFingerprint {
                size_bytes: probed.metadata.size_bytes,
                modified: match probed.metadata.modified {
                    Some(t) => t,
                    None => 0,
                },
            },
            Err(_) => {
                assert(false);
                FileFingerprint { size_bytes: 0, modified: 0 }
            },
        };
        let found = self.preflight_for_path(image.path(), fingerprint, read);
        let ghost found_view = match &found {
            Ok(Some(p)) => Ok::<_, ViewedImageDescriptorError>(Some(p@)),
            Ok(None) => Ok::<_, ViewedImageDescriptorError>(None::<PreflightView>),
            Err(e) => Err::<Option<PreflightView>, _>(*e),
        };
        assert(approval_outcome(old(registry)@, registry@, path@, *file, approval));
        assert(fingerprint == fingerprint_of(file->Ok_0));
        assert(preflight_outcome(
            old(self)@,
            self@,
            image.spec_path(),
            fingerprint_of(file->Ok_0),
            read_in,
            found_view,
        ));
        let preflight: ImagePreflight = match found {
            Ok(Some(p)) => p,
            Ok(None) => {
                return Ok(
                    DescriptorStep::ReadPreflight(<String as StringExecFns>::from_str(image.path())),
                );
            },
            Err(e) => {
                return Err(e);
            },
        };
        let id: String = <String as StringExecFns>::from_str(image.id().as_str());
        let url: String = image_url(image.id());
        Ok(
            DescriptorStep::Described(
                ViewerImage { id, url, preflight: ImagePreflightDto::from_preflight(preflight) },
            ),
        )
    }
}

} // verus!

verus! {

/// Looking up the preflight of a file a second time while its fingerprint
/// is unchanged gives back the first result without asking for a read, and
/// the cache stays as it was.
pub proof fn lemma_unchanged_file_reuses_preflight(
    before: Map<Seq<char>, (FileFingerprint, PreflightView)>,
    middle: Map<Seq<char>, (FileFingerprint, PreflightView)>,
    after: Map<Seq<char>, (FileFingerprint, PreflightView)>,
    path: Seq<char>,
    fingerprint: FileFingerprint,
    first_read: Option<Result<PreflightView, MetadataPreflightError>>,
    second_read: Option<Result<PreflightView, MetadataPreflightError>>,
    first: PreflightView,
    second: Result<Option<PreflightView>, ViewedImageDescriptorError>,
)
    requires
        preflight_outcome(before, middle, path, fingerprint, first_read, Ok(Some(first))),
        preflight_outcome(middle, after, path, fingerprint, second_read, second),
    ensures
        second == Ok::<_, ViewedImageDescriptorError>(Some(first)),
        after == middle,
{
}

/// A description approved the image and left its preflight cached under the
/// fingerprint of the probed file.
pub proof fn lemma_described_image(
    registry_before: Map<Seq<char>, Seq<char>>,
    registry_after: Map<Seq<char>, Seq<char>>,
    cache_before: Map<Seq<char>, (FileFingerprint, PreflightView)>,
    cache_after: Map<Seq<char>, (FileFingerprint, PreflightView)>,
    path: Seq<char>,
    file: Result<ProbedFile, FileSystemError>,
    read: Option<Result<PreflightView, MetadataPreflightError>>,
    described: Result<DescriptorStep, ViewedImageDescriptorError>,
) -> (approved: ApprovedImage)
    requires
        descriptor_outcome(
            registry_before,
            registry_after,
            cache_before,
            cache_after,
            path,
            file,
            read,
            described,
        ),
        described matches Ok(DescriptorStep::Described(_)),
    ensures
        approval_outcome(registry_before, registry_after, path, file, Ok(approved)),
        file matches Ok(probed) && described matches Ok(DescriptorStep::Described(v)) && v.id@
            == approved.spec_id() && v.url@ == image_url_prefix() + approved.spec_id()
            && cache_after.contains_key(approved.spec_path()) && cache_after[approved.spec_path()].0
            == fingerprint_of(probed) && describes_preflight(
            v.preflight,
            cache_after[approved.spec_path()].1,
        ),
{
    let approval = choose|approved: Result<ApprovedImage, ImageRegistryError>|
        #![trigger approval_outcome(registry_before, registry_after, path, file, approved)]
        {
            &&& approval_outcome(registry_before, registry_after, path, file, approved)
            &&& match approved {
                Err(e) => described == Err::<DescriptorStep, _>(
                    ViewedImageDescriptorError::ImageRegistry(e),
                ) && cache_after == cache_before,
                Ok(image) => match file {
                    Ok(probed) => exists|found: Result<Option<PreflightView>, ViewedImageDescriptorError>|
                        #![trigger preflight_outcome(cache_before, cache_after, image.spec_path(), fingerprint_of(probed), read, found)]
                        {
                            &&& preflight_outcome(
                                cache_before,
                                cache_after,
                                image.spec_path(),
                                fingerprint_of(probed),
                                read,
                                found,
                            )
                            &&& match found {
                                Err(e) => described == Err::<DescriptorStep, _>(e),
                                Ok(None) => described matches Ok(DescriptorStep::ReadPreflight(p))
                                    && p@ == image.spec_path(),
                                Ok(Some(preflight)) => described matches Ok(
                                    DescriptorStep::Described(v),
                                ) && v.id@ == image.spec_id() && v.url@ == image_url_prefix()
                                    + image.spec_id() && describes_preflight(v.preflight, preflight),
                            }
                        },
                    Err(_) => false,
                },
            }
        };
    let image = approval->Ok_0;
    let probed = file->Ok_0;
    let found = choose|found: Result<Option<PreflightView>, ViewedImageDescriptorError>|
        #![trigger preflight_outcome(cache_before, cache_after, image.spec_path(), fingerprint_of(probed), read, found)]
        {
            &&& preflight_outcome(
                cache_before,
                cache_after,
                image.spec_path(),
                fingerprint_of(probed),
                read,
                found,
            )
            &&& match found {
                Err(e) => described == Err::<DescriptorStep, _>(e),
                Ok(None) => described matches Ok(DescriptorStep::ReadPreflight(p)) && p@
                    == image.spec_path(),
                Ok(Some(preflight)) => described matches Ok(DescriptorStep::Described(v)) && v.id@
                    == image.spec_id() && v.url@ == image_url_prefix() + image.spec_id()
                    && describes_preflight(v.preflight, preflight),
            }
        };
    image
}

/// A file that changed since it was last described, described again with
/// its new preflight read from the disk, keeps its opaque id and URL, carries
/// the new preflight, and replaces the cached one; no new approval is made.
pub proof fn lemma_changed_file_keeps_id_with_new_preflight(
    registry_before: Map<Seq<char>, Seq<char>>,
    registry_middle: Map<Seq<char>, Seq<char>>,
    registry_after: Map<Seq<char>, Seq<char>>,
    cache_before: Map<Seq<char>, (FileFingerprint, PreflightView)>,
    cache_middle: Map<Seq<char>, (FileFingerprint, PreflightView)>,
    cache_after: Map<Seq<char>, (FileFingerprint, PreflightView)>,
    path: Seq<char>,
    first_file: ProbedFile,
    first_read: Option<Result<PreflightView, MetadataPreflightError>>,
    first: ViewerImage,
    changed_file: ProbedFile,
    preflight: PreflightView,
    second: Result<DescriptorStep, ViewedImageDescriptorError>,
)
    requires
        one_id_per_path(registry_before),
        descriptor_outcome(
            registry_before,
            registry_middle,
            cache_before,
            cache_middle,
            path,
            Ok(first_file),
            first_read,
            Ok(DescriptorStep::Described(first)),
        ),
        changed_file.canonical_path@ == first_file.canonical_path@,
        changed_file.metadata.is_file,
        fingerprint_of(changed_file) != fingerprint_of(first_file),
        descriptor_outcome(
            registry_middle,
            registry_after,
            cache_middle,
            cache_after,
            path,
            Ok(changed_file),
            Some(Ok(preflight)),
            second,
        ),
    ensures
        second matches Ok(DescriptorStep::Described(v)) && v.id@ == first.id@ && v.url@
            == first.url@ && describes_preflight(v.preflight, preflight),
        registry_after == registry_middle,
        cache_after == cache_middle.insert(
            first_file.canonical_path@,
            (fingerprint_of(changed_file), preflight),
        ),
{
    let image = lemma_described_image(
        registry_before,
        registry_middle,
        cache_before,
        cache_middle,
        path,
        Ok(first_file),
        first_read,
        Ok(DescriptorStep::Described(first)),
    );
    lemma_approved_image_resolves(registry_before, registry_middle, path, Ok(first_file), image);
    lemma_approval_keeps_one_id_per_path(
        registry_before,
        registry_middle,
        path,
        Ok(first_file),
        Ok(image),
    );
    let canonical = first_file.canonical_path@;
    assert(registry_middle.contains_key(image.spec_id()) && registry_middle[image.spec_id()] == canonical);
    let found_id = choose|id: Seq<char>| registry_middle.contains_key(id) && registry_middle[id] == canonical;
    assert(id_of_path(registry_middle, canonical) == Some(found_id));
    assert(registry_middle[found_id] == registry_middle[image.spec_id()]);
    let approval = choose|approved: Result<ApprovedImage, ImageRegistryError>|
        #![trigger approval_outcome(registry_middle, registry_after, path, Ok(changed_file), approved)]
        {
            &&& approval_outcome(registry_middle, registry_after, path, Ok(changed_file), approved)
            &&& match approved {
                Err(e) => second == Err::<DescriptorStep, _>(
                    ViewedImageDescriptorError::ImageRegistry(e),
                ) && cache_after == cache_middle,
                Ok(a) => exists|found: Result<Option<PreflightView>, ViewedImageDescriptorError>|
                    #![trigger preflight_outcome(cache_middle, cache_after, a.spec_path(), fingerprint_of(changed_file), Some(Ok(preflight)), found)]
                    {
                        &&& preflight_outcome(
                            cache_middle,
                            cache_after,
                            a.spec_path(),
                            fingerprint_of(changed_file),
                            Some(Ok(preflight)),
                            found,
                        )
                        &&& match found {
                            Err(e) => second == Err::<DescriptorStep, _>(e),
                            Ok(None) => second matches Ok(DescriptorStep::ReadPreflight(p)) && p@
                                == a.spec_path(),
                            Ok(Some(pv)) => second matches Ok(DescriptorStep::Described(v)) && v.id@
                                == a.spec_id() && v.url@ == image_url_prefix() + a.spec_id()
                                && describes_preflight(v.preflight, pv),
                        }
                    },
            }
        };
    assert(approval matches Ok(a) && a.spec_id() == image.spec_id() && a.spec_path() == canonical);
}

/// Two probes of a file have the same fingerprint exactly when they report
/// the same size and the same modification time (the epoch where none was
/// reported).
pub proof fn lemma_fingerprint_tracks_size_and_time(p: ProbedFile, q: ProbedFile)
    ensures
        fingerprint_of(p) == fingerprint_of(q) <==> (p.metadata.size_bytes == q.metadata.size_bytes && (
        match p.metadata.modified {
            Some(t) => t,
            None => 0,
        }) == (match q.metadata.modified {
            Some(t) => t,
            None => 0,
        })),
{
}

/// A file whose size or modification time changed since it was described is
/// not described from the cache: describing it again without a fresh read
/// asks for the preflight of its canonical path and changes nothing.
pub proof fn lemma_modified_file_is_read_again(
    registry_before: Map<Seq<char>, Seq<char>>,
    registry_middle: Map<Seq<char>, Seq<char>>,
    registry_after: Map<Seq<char>, Seq<char>>,
    cache_before: Map<Seq<char>, (FileFingerprint, PreflightView)>,
    cache_middle: Map<Seq<char>, (FileFingerprint, PreflightView)>,
    cache_after: Map<Seq<char>, (FileFingerprint, PreflightView)>,
    path: Seq<char>,
    first_file: ProbedFile,
    first_read: Option<Result<PreflightView, MetadataPreflightError>>,
    first: ViewerImage,
    changed_file: ProbedFile,
    second: Result<DescriptorStep, ViewedImageDescriptorError>,
)
    requires
        one_id_per_path(registry_before),
        descriptor_outcome(
            registry_before,
            registry_middle,
            cache_before,
            cache_middle,
            path,
            Ok(first_file),
            first_read,
            Ok(DescriptorStep::Described(first)),
        ),
        changed_file.canonical_path@ == first_file.canonical_path@,
        changed_file.metadata.is_file,
        changed_file.metadata.size_bytes != first_file.metadata.size_bytes || (
        match changed_file.metadata.modified {
            Some(t) => t,
            None => 0,
        }) != (match first_file.metadata.modified {
            Some(t) => t,
            None => 0,
        }),
        descriptor_outcome(
            registry_middle,
            registry_after,
            cache_middle,
            cache_after,
            path,
            Ok(changed_file),
            None,
            second,
        ),
    ensures
        second matches Ok(DescriptorStep::ReadPreflight(p)) && p@ == first_file.canonical_path@,
        registry_after == registry_middle,
        cache_after == cache_middle,
{
    let image = lemma_described_image(
        registry_before,
        registry_middle,
        cache_before,
        cache_middle,
        path,
        Ok(first_file),
        first_read,
        Ok(DescriptorStep::Described(first)),
    );
    lemma_approved_image_resolves(registry_before, registry_middle, path, Ok(first_file), image);
    lemma_approval_keeps_one_id_per_path(
        registry_before,
        registry_middle,
        path,
        Ok(first_file),
        Ok(image),
    );
    lemma_fingerprint_tracks_size_and_time(changed_file, first_file);
    let canonical = first_file.canonical_path@;
    assert(registry_middle.contains_key(image.spec_id()) && registry_middle[image.spec_id()] == canonical);
    let found_id = choose|id: Seq<char>| registry_middle.contains_key(id) && registry_middle[id] == canonical;
    assert(id_of_path(registry_middle, canonical) == Some(found_id));
    assert(registry_middle[found_id] == registry_middle[image.spec_id()]);
    let approval = choose|approved: Result<ApprovedImage, ImageRegistryError>|
        #![trigger approval_outcome(registry_middle, registry_after, path, Ok(changed_file), approved)]
        {
            &&& approval_outcome(registry_middle, registry_after, path, Ok(changed_file), approved)
            &&& match approved {
                Err(e) => second == Err::<DescriptorStep, _>(
                    ViewedImageDescriptorError::ImageRegistry(e),
                ) && cache_after == cache_middle,
                Ok(a) => exists|found: Result<Option<PreflightView>, ViewedImageDescriptorError>|
                    #![trigger preflight_outcome(cache_middle, cache_after, a.spec_path(), fingerprint_of(changed_file), None, found)]
                    {
                        &&& preflight_outcome(
                            cache_middle,
                            cache_after,
                            a.spec_path(),
                            fingerprint_of(changed_file),
                            None,
                            found,
                        )
                        &&& match found {
                            Err(e) => second == Err::<DescriptorStep, _>(e),
                            Ok(None) => second matches Ok(DescriptorStep::ReadPreflight(p)) && p@
                                == a.spec_path(),
                            Ok(Some(pv)) => second matches Ok(DescriptorStep::Described(v)) && v.id@
                                == a.spec_id() && v.url@ == image_url_prefix() + a.spec_id()
                                && describes_preflight(v.preflight, pv),
                        }
                    },
            }
        };
    assert(approval matches Ok(a) && a.spec_path() == canonical);
}

/// The frontend is told an image is oversized exactly when its preflight
/// found a reason: the file is over the safe size or its decoded pixels over
/// the safe memory. The reasons and the file size reach it unchanged.
pub proof fn lemma_frontend_oversized_flag(
    dto: ImagePreflightDto,
    file_size_bytes: u64,
    dimensions: Option<ImageDimensions>,
)
    requires
        describes_preflight(
            dto,
            PreflightView {
                file_size_bytes,
                dimensions,
                reasons: oversized_reasons(file_size_bytes, dimensions),
            },
        ),
    ensures
        dto.oversized <==> (file_size_bytes > MAX_SAFE_FILE_SIZE_BYTES || (dimensions matches Some(d)
            && d.width * d.height * 4 > MAX_SAFE_DECODED_RGBA_BYTES)),
        dto.oversized <==> dto.reasons.len() > 0,
        dto.file_size_bytes == file_size_bytes,
{
    lemma_oversized_exactly_when_over_threshold(file_size_bytes, dimensions);
}

/// Whatever preflight the frontend is shown, it receives the same file size
/// and dimensions, the same reasons with the same figures in the same order,
/// and an oversized flag set exactly when there is a reason.
pub proof fn lemma_described_flag_follows_reasons(dto: ImagePreflightDto, preflight: PreflightView)
    requires
        describes_preflight(dto, preflight),
    ensures
        dto.oversized <==> preflight.reasons.len() > 0,
        dto.file_size_bytes == preflight.file_size_bytes,
        dto.dimensions is Some <==> preflight.dimensions is Some,
        preflight.dimensions matches Some(d) ==> dto.dimensions->Some_0.width == d.width
            && dto.dimensions->Some_0.height == d.height,
        dto.reasons.len() == preflight.reasons.len(),
        forall|k: int|
            0 <= k < preflight.reasons.len() ==> match #[trigger] preflight.reasons[k] {
                OversizedImageReason::FileSize { actual_bytes, threshold_bytes } => dto.reasons@[k]
                    == OversizedImageReasonDto::FileSize { actual_bytes, threshold_bytes },
                OversizedImageReason::DecodedRgbaMemory {
                    estimated_bytes,
                    threshold_bytes,
                    width,
                    height,
                } => dto.reasons@[k] == OversizedImageReasonDto::DecodedRgbaMemory {
                    estimated_bytes,
                    threshold_bytes,
                    width,
                    height,
                },
            },
{
}

} // verus!
