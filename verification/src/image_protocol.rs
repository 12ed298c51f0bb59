use vstd::prelude::*;
use vstd::string::{StrSliceExecFns, StringExecFns};
use crate::fs_facts::FileSystemError;
use crate::image_registry::{is_opaque_id_char, is_opaque_id_text, ApprovedImageRegistry, ImageId};
use crate::metadata_preflight::MAX_SAFE_FILE_SIZE_BYTES;
use crate::supported_image::supported_image_path;
use crate::path_text::{
    ascii_lowercase, ascii_lowercase_chars, chars_of, extension_of, has_char, path_extension,
    same_chars,
};

verus! {

pub const IMAGE_PROTOCOL_SCHEME: &'static str = "manzar-image";

/// The bytes of an approved image and the MIME type they are served as.
#[derive(Debug, Clone, PartialEq, Eq)]
pub struct ProtocolImageResponse {
    mime_type: &'static str,
    bytes: Vec<u8>,
}

#[derive(Debug, Clone, Copy, PartialEq, Eq, Structural)]
pub enum ImageProtocolError {
    UnknownImageId,
    UnsupportedImage,
    OversizedImage,
    FileSystem(FileSystemError),
}

impl ProtocolImageResponse {
    pub closed spec fn spec_mime_type(&self) -> Seq<char> {
        self.mime_type@
    }

    pub closed spec fn spec_bytes(&self) -> Seq<u8> {
        self.bytes@
    }

    pub fn new(mime_type: &'static str, bytes: Vec<u8>) -> (response: Self)
        ensures
            response.spec_mime_type() == mime_type@,
            response.spec_bytes() == bytes@,
    {
        ProtocolImageResponse { mime_type, bytes }
    }

    pub fn mime_type(&self) -> (mime_type: &'static str)
        ensures
            mime_type@ == self.spec_mime_type(),
    {
        self.mime_type
    }

    pub fn bytes(&self) -> (bytes: &[u8])
        ensures
            bytes@ == self.spec_bytes(),
    {
        self.bytes.as_slice()
    }

    pub fn into_bytes(self) -> (bytes: Vec<u8>)
        ensures
            bytes@ == self.spec_bytes(),
    {
        self.bytes
    }
}

/// The URL prefix under which images are served.
pub open spec fn image_url_prefix() -> Seq<char> {
    "manzar-image://localhost/"@
}

/// The URL that serves the image with id `id`: the protocol's origin and the
/// opaque id, nothing else.
pub fn image_url(id: &ImageId) -> (url: String)
    ensures
        url@ == image_url_prefix() + id@,
{
    let prefix: String = <String as StringExecFns>::from_str("manzar-image://localhost/");
    prefix.concat(id.as_str())
}

/// The opaque id a protocol request path names: the path without one leading
/// slash, where that is a single nonempty segment other than `.` and `..`.
pub open spec fn protocol_path_id(path: Seq<char>) -> Option<Seq<char>> {
    let opaque = if path.len() > 0 && path[0] == '/' {
        path.drop_first()
    } else {
        path
    };
    if opaque.len() == 0 || opaque == "."@ || opaque == ".."@ || opaque.contains('/')
        || opaque.contains('\\') {
        None
    } else {
        Some(opaque)
    }
}

/// Reads the opaque image id from the path of a protocol request.
pub fn image_id_from_protocol_path(path: &str) -> (id: Option<ImageId>)
    ensures
        match id {
            Some(id) => protocol_path_id(path@) == Some(id@),
            None => protocol_path_id(path@) is None,
        },
{
    let chars: Vec<char> = chars_of(path);
    let opaque: &str = if chars.len() > 0 && chars[0] == '/' {
        path.substring_char(1, chars.len())
    } else {
        path
    };
    proof {
        if chars.len() > 0 && chars[0] == '/' {
            assert(opaque@ =~= path@.drop_first());
        }
    }
    let opaque_chars: Vec<char> = chars_of(opaque);
    if opaque_chars.len() == 0 || same_chars(&opaque_chars, &chars_of(".")) || same_chars(
        &opaque_chars,
        &chars_of(".."),
    ) || has_char(&opaque_chars, '/') || has_char(&opaque_chars, '\\') {
        return None;
    }
    Some(ImageId::from_opaque(opaque))
}

/// The MIME type an image is served as, by the extension of its path.
pub open spec fn mime_type_text(path: Seq<char>) -> Option<Seq<char>> {
    match path_extension(path) {
        Some(extension) => {
            let lower = ascii_lowercase(extension);
            if lower == "png"@ {
                Some("image/png"@)
            } else if lower == "jpg"@ || lower == "jpeg"@ {
                Some("image/jpeg"@)
            } else if lower == "webp"@ {
                Some("image/webp"@)
            } else if lower == "gif"@ {
                Some("image/gif"@)
            } else if lower == "bmp"@ {
                Some("image/bmp"@)
            } else {
                None
            }
        },
        None => None,
    }
}

pub fn supported_image_mime_type(path: &str) -> (mime_type: Option<&'static str>)
    ensures
        match mime_type {
            Some(m) => mime_type_text(path@) == Some(m@),
            None => mime_type_text(path@) is None,
        },
{
    let extension: &str = match extension_of(path) {
        Some(extension) => extension,
        None => return None,
    };
    let lower: Vec<char> = ascii_lowercase_chars(&chars_of(extension));
    if same_chars(&lower, &chars_of("png")) {
        Some("image/png")
    } else if same_chars(&lower, &chars_of("jpg")) || same_chars(&lower, &chars_of("jpeg")) {
        Some("image/jpeg")
    } else if same_chars(&lower, &chars_of("webp")) {
        Some("image/webp")
    } else if same_chars(&lower, &chars_of("gif")) {
        Some("image/gif")
    } else if same_chars(&lower, &chars_of("bmp")) {
        Some("image/bmp")
    } else {
        None
    }
}

/// The file behind an approved image id and the MIME type to serve it as.
#[derive(Debug)]
pub struct ApprovedImageSource {
    pub path: String,
    pub mime_type: &'static str,
}

/// Looks up the file that `id` stands for and the MIME type it is served as;
/// the first step of serving an approved image.
pub fn approved_image_source(registry: &ApprovedImageRegistry, id: &ImageId) -> (source: Result<
    ApprovedImageSource,
    ImageProtocolError,
>)
    ensures
        !registry@.contains_key(id@) ==> source == Err::<ApprovedImageSource, _>(
            ImageProtocolError::UnknownImageId,
        ),
        registry@.contains_key(id@) ==> match mime_type_text(registry@[id@]) {
            None => source == Err::<ApprovedImageSource, _>(ImageProtocolError::UnsupportedImage),
            Some(m) => source matches Ok(s) && s.path@ == registry@[id@] && s.mime_type@ == m,
        },
{
    let path: &str = match registry.path_for(id) {
        Some(path) => path,
        None => return Err(ImageProtocolError::UnknownImageId),
    };
    let mime_type: &'static str = match supported_image_mime_type(path) {
        Some(m) => m,
        None => return Err(ImageProtocolError::UnsupportedImage),
    };
    Ok(ApprovedImageSource { path: <String as StringExecFns>::from_str(path), mime_type })
}

/// Refuses to serve a file larger than the safe size; the second step of
/// serving an approved image, before its bytes are read.
pub fn check_served_file_size(file_size_bytes: u64) -> (outcome: Result<(), ImageProtocolError>)
    ensures
        outcome == if file_size_bytes > MAX_SAFE_FILE_SIZE_BYTES {
            Err::<(), _>(ImageProtocolError::OversizedImage)
        } else {
            Ok::<(), ImageProtocolError>(())
        },
{
    if file_size_bytes > MAX_SAFE_FILE_SIZE_BYTES {
        Err(ImageProtocolError::OversizedImage)
    } else {
        Ok(())
    }
}

/// The HTTP status and the plain-text message a failed image request is
/// answered with.
pub open spec fn protocol_error_answer(error: ImageProtocolError) -> (u16, Seq<char>) {
    match error {
        ImageProtocolError::UnknownImageId => (404, "image not found"@),
        ImageProtocolError::UnsupportedImage => (403, "unsupported image"@),
        ImageProtocolError::OversizedImage => (413, "image too large"@),
        ImageProtocolError::FileSystem(FileSystemError::NotFound) => (404, "image not found"@),
        ImageProtocolError::FileSystem(FileSystemError::Other) => (500, "failed to read image"@),
    }
}

pub fn protocol_error_response(error: &ImageProtocolError) -> (answer: (u16, &'static str))
    ensures
        answer.0 == protocol_error_answer(*error).0,
        answer.1@ == protocol_error_answer(*error).1,
{
    match error {
        ImageProtocolError::UnknownImageId => (404, "image not found"),
        ImageProtocolError::UnsupportedImage => (403, "unsupported image"),
        ImageProtocolError::OversizedImage => (413, "image too large"),
        ImageProtocolError::FileSystem(FileSystemError::NotFound) => (404, "image not found"),
        ImageProtocolError::FileSystem(FileSystemError::Other) => (500, "failed to read image"),
    }
}

/// The HTTP status and the plain-text message a request is answered with
/// when its path names no single opaque id.
pub fn invalid_image_id_response() -> (answer: (u16, &'static str))
    ensures
        answer.0 == 400,
        answer.1@ == "invalid image id"@,
{
    (400, "invalid image id")
}

/// Every id the registry hands out survives the trip through an image URL:
/// the request path `/<id>` names exactly that id.
pub proof fn lemma_opaque_id_round_trips(id: Seq<char>)
    requires
        is_opaque_id_text(id),
    ensures
        protocol_path_id(seq!['/'] + id) == Some(id),
{
    let path = seq!['/'] + id;
    assert(path.drop_first() =~= id);
    reveal_strlit(".");
    reveal_strlit("..");
    assert(!id.contains('/'));
    assert(!id.contains('\\'));
    if id == "."@ {
        assert(is_opaque_id_char(id[0]));
    }
    if id == ".."@ {
        assert(is_opaque_id_char(id[0]));
    }
}

/// A path names a supported image exactly when its extension, read without
/// regard to ASCII case, is png, jpeg, jpg, webp, gif or bmp; and so exactly
/// when the protocol has a MIME type to serve it as: every image that can be
/// approved can be served.
pub proof fn lemma_supported_exactly_when_servable(path: Seq<char>)
    ensures
        supported_image_path(path) <==> (path_extension(path) is Some && ({
            let lower = ascii_lowercase(path_extension(path)->Some_0);
            lower == "png"@ || lower == "jpeg"@ || lower == "jpg"@ || lower == "webp"@ || lower
                == "gif"@ || lower == "bmp"@
        })),
        supported_image_path(path) <==> mime_type_text(path) is Some,
{
}

} // verus!
