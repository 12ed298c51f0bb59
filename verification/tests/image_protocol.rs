use std::collections::BTreeMap;

use manzar::fs_facts::{FileMetadata, FileSystemError, ProbedFile};
use manzar::image_protocol::{
    approved_image_source, check_served_file_size, image_id_from_protocol_path, image_url,
    invalid_image_id_response,
    protocol_error_response, supported_image_mime_type, ImageProtocolError, ProtocolImageResponse,
    IMAGE_PROTOCOL_SCHEME,
};
use manzar::image_registry::{ApprovedImageRegistry, ImageId};
use manzar::metadata_preflight::MAX_SAFE_FILE_SIZE_BYTES;

const FOLDER: &str = "/home/someone/Pictures";

/// Files held in memory, standing in for the disk: each path with its size
/// and, where they were written, its bytes.
#[derive(Default)]
struct Disk {
    files: BTreeMap<String, (u64, Vec<u8>)>,
}

impl Disk {
    fn write(&mut self, name: &str, bytes: &[u8]) -> String {
        let path = format!("{FOLDER}/{name}");
        self.files.insert(path.clone(), (bytes.len() as u64, bytes.to_vec()));
        path
    }

    fn write_sparse(&mut self, name: &str, size: u64) -> String {
        let path = format!("{FOLDER}/{name}");
        self.files.insert(path.clone(), (size, Vec::new()));
        path
    }

    fn probe(&self, path: &str) -> Result<ProbedFile, FileSystemError> {
        let (size, _) = self.files.get(path).ok_or(FileSystemError::NotFound)?;
        Ok(ProbedFile {
            canonical_path: path.to_string(),
            metadata: FileMetadata { is_file: true, size_bytes: *size, modified: Some(0) },
        })
    }

    fn approve(&self, registry: &mut ApprovedImageRegistry, path: &str) -> ImageId {
        registry.approve_path(path, &self.probe(path)).expect("approved image").id().clone()
    }

    /// Serves an approved image the way the protocol handler does: look the
    /// id up, check the file's size, then read its bytes.
    fn serve(
        &self,
        registry: &ApprovedImageRegistry,
        id: &ImageId,
    ) -> Result<ProtocolImageResponse, ImageProtocolError> {
        let source = approved_image_source(registry, id)?;
        let (size, bytes) = self
            .files
            .get(&source.path)
            .ok_or(ImageProtocolError::FileSystem(FileSystemError::NotFound))?;
        check_served_file_size(*size)?;
        Ok(ProtocolImageResponse::new(source.mime_type, bytes.clone()))
    }

    /// The status and body the protocol answers a request path with.
    fn respond(&self, registry: &ApprovedImageRegistry, path: &str) -> (u16, Vec<u8>) {
        let Some(id) = image_id_from_protocol_path(path) else {
            let (status, message) = invalid_image_id_response();
            return (status, message.as_bytes().to_vec());
        };
        match self.serve(registry, &id) {
            Ok(image) => (200, image.into_bytes()),
            Err(error) => {
                let (status, message) = protocol_error_response(&error);
                (status, message.as_bytes().to_vec())
            }
        }
    }
}

#[test]
fn approved_image_id_serves_bytes_with_supported_mime_type() {
    let mut disk = Disk::default();
    let image = disk.write("private-name.png", b"png bytes");

    let mut registry = ApprovedImageRegistry::default();
    let id = disk.approve(&mut registry, &image);

    let response = disk.serve(&registry, &id).expect("protocol image response");

    assert_eq!(response.mime_type(), "image/png");
    assert_eq!(response.bytes(), b"png bytes");
}

#[test]
fn unknown_image_id_is_rejected() {
    let disk = Disk::default();
    let registry = ApprovedImageRegistry::default();
    let unknown = ImageId::from_opaque("image-404");

    assert!(matches!(disk.serve(&registry, &unknown), Err(ImageProtocolError::UnknownImageId)));
    assert!(matches!(
        approved_image_source(&registry, &unknown),
        Err(ImageProtocolError::UnknownImageId)
    ));
}

#[test]
fn oversized_approved_image_is_rejected_before_serving_bytes() {
    let mut disk = Disk::default();
    let image = disk.write_sparse("large.png", MAX_SAFE_FILE_SIZE_BYTES + 1);

    let mut registry = ApprovedImageRegistry::default();
    let id = disk.approve(&mut registry, &image);

    assert!(matches!(disk.serve(&registry, &id), Err(ImageProtocolError::OversizedImage)));
}

#[test]
fn image_url_contains_only_protocol_origin_and_opaque_id() {
    let mut disk = Disk::default();
    let image = disk.write("private-name.png", b"png bytes");

    let mut registry = ApprovedImageRegistry::default();
    let id = disk.approve(&mut registry, &image);

    let url = image_url(&id);

    assert_eq!(url, format!("manzar-image://localhost/{}", id.as_str()));
    assert!(!url.contains("private-name"));
    assert!(!url.contains(FOLDER));
}

#[test]
fn protocol_path_parses_only_a_single_opaque_id_segment() {
    assert_eq!(
        image_id_from_protocol_path("/image-42").map(|id| id.as_str().to_string()),
        Some("image-42".to_string())
    );
    assert_eq!(image_id_from_protocol_path("/"), None);
    assert_eq!(image_id_from_protocol_path("/../secret"), None);
    assert_eq!(image_id_from_protocol_path("/image-1/extra"), None);
}

#[test]
fn supported_image_mime_types_are_served() {
    for (name, expected_mime_type) in [
        ("image.png", "image/png"),
        ("image.jpg", "image/jpeg"),
        ("image.JPG", "image/jpeg"),
        ("image.jpeg", "image/jpeg"),
        ("image.webp", "image/webp"),
        ("image.gif", "image/gif"),
        ("image.bmp", "image/bmp"),
    ] {
        let mut disk = Disk::default();
        let image = disk.write(name, b"image bytes");

        let mut registry = ApprovedImageRegistry::default();
        let id = disk.approve(&mut registry, &image);
        let response = disk.serve(&registry, &id).expect("protocol response");

        assert_eq!(response.mime_type(), expected_mime_type, "{name}");
    }
}

#[test]
fn stale_approved_image_id_is_rejected_at_serving_time() {
    let mut disk = Disk::default();
    let image = disk.write("deleted.png", b"png bytes");

    let mut registry = ApprovedImageRegistry::default();
    let id = disk.approve(&mut registry, &image);
    disk.files.remove(&image);

    assert!(matches!(
        disk.serve(&registry, &id),
        Err(ImageProtocolError::FileSystem(FileSystemError::NotFound))
    ));
}

#[test]
fn oversized_protocol_image_returns_frontend_safe_payload_too_large_response() {
    let mut disk = Disk::default();
    let image = disk.write_sparse("large.png", MAX_SAFE_FILE_SIZE_BYTES + 1);

    let mut registry = ApprovedImageRegistry::default();
    let id = disk.approve(&mut registry, &image);

    let (status, body) = disk.respond(&registry, &format!("/{}", id.as_str()));

    assert_eq!(status, 413);
    assert_eq!(body, b"image too large");
}

#[test]
fn image_url_path_names_the_same_id() {
    let mut disk = Disk::default();
    let image = disk.write("photo.webp", b"webp");
    let mut registry = ApprovedImageRegistry::default();
    let id = disk.approve(&mut registry, &image);

    let url = image_url(&id);
    let path = url.strip_prefix("manzar-image://localhost").expect("protocol origin");

    assert_eq!(image_id_from_protocol_path(path), Some(id.clone()));
    assert_eq!(disk.respond(&registry, path), (200, b"webp".to_vec()));
}

#[test]
fn protocol_path_without_leading_slash_and_dot_segments() {
    assert_eq!(
        image_id_from_protocol_path("abc-123").map(|id| id.as_str().to_string()),
        Some("abc-123".to_string())
    );
    assert_eq!(image_id_from_protocol_path(""), None);
    assert_eq!(image_id_from_protocol_path("/."), None);
    assert_eq!(image_id_from_protocol_path("/.."), None);
    assert_eq!(image_id_from_protocol_path("/a\\b"), None);
    assert_eq!(image_id_from_protocol_path("//a"), None);
}

#[test]
fn mime_types_follow_the_extension_only() {
    assert_eq!(supported_image_mime_type("photo.JPEG"), Some("image/jpeg"));
    assert_eq!(supported_image_mime_type("photo.Bmp"), Some("image/bmp"));
    assert_eq!(supported_image_mime_type("photo.tiff"), None);
    assert_eq!(supported_image_mime_type("png"), None);
    assert_eq!(supported_image_mime_type("folder.png/photo"), None);
}

#[test]
fn served_size_limit_is_inclusive() {
    assert_eq!(check_served_file_size(MAX_SAFE_FILE_SIZE_BYTES), Ok(()));
    assert_eq!(check_served_file_size(0), Ok(()));
    assert_eq!(
        check_served_file_size(MAX_SAFE_FILE_SIZE_BYTES + 1),
        Err(ImageProtocolError::OversizedImage)
    );
}

#[test]
fn every_protocol_error_has_a_frontend_safe_answer() {
    assert_eq!(protocol_error_response(&ImageProtocolError::UnknownImageId), (404, "image not found"));
    assert_eq!(protocol_error_response(&ImageProtocolError::UnsupportedImage), (403, "unsupported image"));
    assert_eq!(protocol_error_response(&ImageProtocolError::OversizedImage), (413, "image too large"));
    assert_eq!(
        protocol_error_response(&ImageProtocolError::FileSystem(FileSystemError::NotFound)),
        (404, "image not found")
    );
    assert_eq!(
        protocol_error_response(&ImageProtocolError::FileSystem(FileSystemError::Other)),
        (500, "failed to read image")
    );
    assert_eq!(IMAGE_PROTOCOL_SCHEME, "manzar-image");
}

#[test]
fn request_paths_without_a_single_id_get_the_invalid_id_answer() {
    let disk = Disk::default();
    let registry = ApprovedImageRegistry::default();

    assert_eq!(disk.respond(&registry, "/a/b"), (400, b"invalid image id".to_vec()));
    assert_eq!(disk.respond(&registry, "/"), (400, b"invalid image id".to_vec()));
    assert_eq!(disk.respond(&registry, "/unknown"), (404, b"image not found".to_vec()));
}
