use manzar::metadata_preflight::{
    ImageDimensions, ImagePreflight, OversizedImageReason, MAX_SAFE_DECODED_RGBA_BYTES,
    MAX_SAFE_FILE_SIZE_BYTES,
};

/// The size of a bitmap file that holds only its headers.
const BMP_HEADER_BYTES: u64 = 54;

#[test]
fn image_larger_than_200_mb_is_oversized() {
    let preflight = ImagePreflight::from_measurements(MAX_SAFE_FILE_SIZE_BYTES + 1, None);

    assert!(preflight.is_oversized());
    assert_eq!(
        preflight.reasons(),
        &[OversizedImageReason::FileSize {
            actual_bytes: MAX_SAFE_FILE_SIZE_BYTES + 1,
            threshold_bytes: MAX_SAFE_FILE_SIZE_BYTES,
        }]
    );
}

#[test]
fn decoded_rgba_memory_larger_than_512_mb_is_oversized() {
    let dimensions = ImageDimensions { width: 16_384, height: 8_193 };
    let preflight = ImagePreflight::from_measurements(BMP_HEADER_BYTES, Some(dimensions));

    assert!(preflight.is_oversized());
    assert_eq!(preflight.dimensions(), Some(ImageDimensions { width: 16_384, height: 8_193 }));
    assert_eq!(
        preflight.reasons(),
        &[OversizedImageReason::DecodedRgbaMemory {
            estimated_bytes: 536_936_448,
            threshold_bytes: MAX_SAFE_DECODED_RGBA_BYTES,
            width: 16_384,
            height: 8_193,
        }]
    );
}

#[test]
fn threshold_values_are_not_oversized() {
    let file_preflight = ImagePreflight::from_measurements(MAX_SAFE_FILE_SIZE_BYTES, None);
    let memory_preflight = ImagePreflight::from_measurements(
        BMP_HEADER_BYTES,
        Some(ImageDimensions { width: 16_384, height: 8_192 }),
    );

    assert!(!file_preflight.is_oversized());
    assert!(file_preflight.reasons().is_empty());
    assert!(!memory_preflight.is_oversized());
    assert!(memory_preflight.reasons().is_empty());
}

#[test]
fn both_reasons_are_reported_file_size_first() {
    let preflight = ImagePreflight::from_measurements(
        MAX_SAFE_FILE_SIZE_BYTES + 10,
        Some(ImageDimensions { width: 20_000, height: 20_000 }),
    );

    assert_eq!(preflight.file_size_bytes(), MAX_SAFE_FILE_SIZE_BYTES + 10);
    assert_eq!(
        preflight.reasons(),
        &[
            OversizedImageReason::FileSize {
                actual_bytes: MAX_SAFE_FILE_SIZE_BYTES + 10,
                threshold_bytes: MAX_SAFE_FILE_SIZE_BYTES,
            },
            OversizedImageReason::DecodedRgbaMemory {
                estimated_bytes: 1_600_000_000,
                threshold_bytes: MAX_SAFE_DECODED_RGBA_BYTES,
                width: 20_000,
                height: 20_000,
            },
        ]
    );
}

#[test]
fn largest_dimensions_do_not_overflow_the_estimate() {
    let preflight = ImagePreflight::from_measurements(
        1,
        Some(ImageDimensions { width: u32::MAX, height: u32::MAX }),
    );

    assert_eq!(
        preflight.reasons(),
        &[OversizedImageReason::DecodedRgbaMemory {
            estimated_bytes: u64::MAX,
            threshold_bytes: MAX_SAFE_DECODED_RGBA_BYTES,
            width: u32::MAX,
            height: u32::MAX,
        }]
    );
}

#[test]
fn unreadable_dimensions_leave_only_the_file_size_check() {
    let preflight = ImagePreflight::from_measurements(1024, None);

    assert!(!preflight.is_oversized());
    assert_eq!(preflight.dimensions(), None);
    assert_eq!(preflight.clone(), preflight);
    assert_eq!(MAX_SAFE_FILE_SIZE_BYTES, 209_715_200);
    assert_eq!(MAX_SAFE_DECODED_RGBA_BYTES, 536_870_912);
}
