use vstd::prelude::*;
use crate::fs_facts::FileSystemError;

verus! {

/// Files larger than this are oversized.
pub const MAX_SAFE_FILE_SIZE_BYTES: u64 = 200 * 1024 * 1024;

/// Images whose decoded RGBA pixels would take more than this are oversized.
pub const MAX_SAFE_DECODED_RGBA_BYTES: u64 = 512 * 1024 * 1024;

#[derive(Debug, Clone, Copy, PartialEq, Eq, Structural)]
pub struct ImageDimensions {
    pub width: u32,
    pub height: u32,
}

/// Why an image counts as oversized.
#[derive(Debug, Clone, Copy, PartialEq, Eq, Structural)]
pub enum OversizedImageReason {
    FileSize { actual_bytes: u64, threshold_bytes: u64 },
    DecodedRgbaMemory { estimated_bytes: u64, threshold_bytes: u64, width: u32, height: u32 },
}

#[derive(Debug, Clone, Copy, PartialEq, Eq, Structural)]
pub enum MetadataPreflightError {
    FileSystem(FileSystemError),
}

/// The bytes that decoding an image to RGBA would take: four per pixel,
/// saturating at the largest `u64`.
pub open spec fn estimated_rgba_bytes(dimensions: ImageDimensions) -> u64 {
    let bytes = dimensions.width * dimensions.height * 4;
    if bytes > u64::MAX {
        u64::MAX
    } else {
        bytes as u64
    }
}

/// The reasons an image of this file size and these dimensions is oversized,
/// the file size first.
pub open spec fn oversized_reasons(
    file_size_bytes: u64,
    dimensions: Option<ImageDimensions>,
) -> Seq<OversizedImageReason> {
    let by_size = if file_size_bytes > MAX_SAFE_FILE_SIZE_BYTES {
        seq![
            OversizedImageReason::FileSize {
                actual_bytes: file_size_bytes,
                threshold_bytes: MAX_SAFE_FILE_SIZE_BYTES,
            },
        ]
    } else {
        Seq::empty()
    };
    let by_memory = match dimensions {
        Some(d) => if estimated_rgba_bytes(d) > MAX_SAFE_DECODED_RGBA_BYTES {
            seq![
                OversizedImageReason::DecodedRgbaMemory {
                    estimated_bytes: estimated_rgba_bytes(d),
                    threshold_bytes: MAX_SAFE_DECODED_RGBA_BYTES,
                    width: d.width,
                    height: d.height,
                },
            ]
        } else {
            Seq::empty()
        },
        None => Seq::empty(),
    };
    by_size + by_memory
}

/// What is known about an image before it is shown: its file size, its
/// dimensions where its header could be read, and why it is oversized.
#[derive(Debug, PartialEq, Eq)]
pub struct ImagePreflight {
    file_size_bytes: u64,
    dimensions: Option<ImageDimensions>,
    reasons: Vec<OversizedImageReason>,
}

fn estimate_rgba_bytes(dimensions: ImageDimensions) -> (bytes: u64)
    ensures
        bytes == estimated_rgba_bytes(dimensions),
{
    let width: u64 = dimensions.width as u64;
    let height: u64 = dimensions.height as u64;
    assert(width * height <= 0xffff_ffff * 0xffff_ffff) by (nonlinear_arith)
        requires
            width <= 0xffff_ffff,
            height <= 0xffff_ffff,
    ;
    let pixels: u64 = width * height;
    assert(pixels == dimensions.width * dimensions.height);
    if pixels > u64::MAX / 4 {
        u64::MAX
    } else {
        pixels * 4
    }
}

/// The abstract content of a preflight.
pub struct PreflightView {
    pub file_size_bytes: u64,
    pub dimensions: Option<ImageDimensions>,
    pub reasons: Seq<OversizedImageReason>,
}

impl View for ImagePreflight {
    type V = PreflightView;

    closed spec fn view(&self) -> PreflightView {
        PreflightView {
            file_size_bytes: self.file_size_bytes,
            dimensions: self.dimensions,
            reasons: self.reasons@,
        }
    }
}

impl ImagePreflight {
    pub open spec fn spec_file_size_bytes(&self) -> u64 {
        self@.file_size_bytes
    }

    pub open spec fn spec_dimensions(&self) -> Option<ImageDimensions> {
        self@.dimensions
    }

    pub open spec fn spec_reasons(&self) -> Seq<OversizedImageReason> {
        self@.reasons
    }

    /// The preflight of an image with this file size and, where its header
    /// could be read, these dimensions.
    pub fn from_measurements(file_size_bytes: u64, dimensions: Option<ImageDimensions>) -> (preflight:
        Self)
        ensures
            preflight.spec_file_size_bytes() == file_size_bytes,
            preflight.spec_dimensions() == dimensions,
            preflight.spec_reasons() == oversized_reasons(file_size_bytes, dimensions),
            preflight@ == (PreflightView {
                file_size_bytes,
                dimensions,
                reasons: oversized_reasons(file_size_bytes, dimensions),
            }),
    {
        let mut reasons: Vec<OversizedImageReason> = Vec::new();
        if file_size_bytes > MAX_SAFE_FILE_SIZE_BYTES {
            reasons.push(
                OversizedImageReason::FileSize {
                    actual_bytes: file_size_bytes,
                    threshold_bytes: MAX_SAFE_FILE_SIZE_BYTES,
                },
            );
        }
        if let Some(d) = dimensions {
            let estimated_bytes: u64 = estimate_rgba_bytes(d);
            if estimated_bytes > MAX_SAFE_DECODED_RGBA_BYTES {
                reasons.push(
                    OversizedImageReason::DecodedRgbaMemory {
                        estimated_bytes,
                        threshold_bytes: MAX_SAFE_DECODED_RGBA_BYTES,
                        width: d.width,
                        height: d.height,
                    },
                );
            }
        }
        assert(reasons@ =~= oversized_reasons(file_size_bytes, dimensions));
        ImagePreflight { file_size_bytes, dimensions, reasons }
    }

    pub fn file_size_bytes(&self) -> (size: u64)
        ensures
            size == self.spec_file_size_bytes(),
    {
        self.file_size_bytes
    }

    pub fn dimensions(&self) -> (dimensions: Option<ImageDimensions>)
        ensures
            dimensions == self.spec_dimensions(),
    {
        self.dimensions
    }

    pub fn is_oversized(&self) -> (oversized: bool)
        ensures
            oversized == (self.spec_reasons().len() > 0),
    {
        self.reasons.len() > 0
    }

    pub fn reasons(&self) -> (reasons: &[OversizedImageReason])
        ensures
            reasons@ == self.spec_reasons(),
    {
        self.reasons.as_slice()
    }
}

impl Clone for ImagePreflight {
    fn clone(&self) -> (copy: Self)
        ensures
            copy.spec_file_size_bytes() == self.spec_file_size_bytes(),
            copy.spec_dimensions() == self.spec_dimensions(),
            copy.spec_reasons() == self.spec_reasons(),
            copy@ == self@,
    {
        let mut reasons: Vec<OversizedImageReason> = Vec::new();
        let mut i: usize = 0;
        while i < self.reasons.len()
            invariant
                i <= self.reasons@.len(),
                reasons@ == self.reasons@.subrange(0, i as int),
            decreases self.reasons@.len() - i,
        {
            reasons.push(self.reasons[i]);
            i = i + 1;
        }
        assert(reasons@ =~= self.reasons@);
        ImagePreflight { file_size_bytes: self.file_size_bytes, dimensions: self.dimensions, reasons }
    }
}

/// A file larger than the safe size, or an image whose decoded pixels would
/// take more than the safe memory, is oversized; at the thresholds it is not.
pub proof fn lemma_oversized_exactly_when_over_threshold(
    file_size_bytes: u64,
    dimensions: Option<ImageDimensions>,
)
    ensures
        oversized_reasons(file_size_bytes, dimensions).len() > 0 <==> (file_size_bytes
            > MAX_SAFE_FILE_SIZE_BYTES || (dimensions matches Some(d)
            && d.width * d.height * 4 > MAX_SAFE_DECODED_RGBA_BYTES)),
{
}

} // verus!
