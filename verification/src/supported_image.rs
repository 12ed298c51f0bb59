use vstd::prelude::*;
use crate::path_text::{
    ascii_lowercase, ascii_lowercase_chars, chars_of, extension_of, file_name_of, path_extension,
    path_file_name, same_chars,
};

verus! {

/// The extensions, compared without regard to ASCII case, of the image
/// formats the viewer accepts.
pub open spec fn is_supported_extension(extension: Seq<char>) -> bool {
    let lower = ascii_lowercase(extension);
    ||| lower == "png"@
    ||| lower == "jpeg"@
    ||| lower == "jpg"@
    ||| lower == "webp"@
    ||| lower == "gif"@
    ||| lower == "bmp"@
}

/// A path names a supported image when its extension is one of the supported
/// ones.
pub open spec fn supported_image_path(path: Seq<char>) -> bool {
    match path_extension(path) {
        Some(extension) => is_supported_extension(extension),
        None => false,
    }
}

/// A path names a hidden dotfile when its file name starts with a dot.
pub open spec fn hidden_dotfile_path(path: Seq<char>) -> bool {
    match path_file_name(path) {
        Some(name) => name.len() > 0 && name[0] == '.',
        None => false,
    }
}

pub fn is_supported_extension_text(extension: &str) -> (supported: bool)
    ensures
        supported == is_supported_extension(extension@),
{
    let chars: Vec<char> = chars_of(extension);
    let lower: Vec<char> = ascii_lowercase_chars(&chars);
    same_chars(&lower, &chars_of("png")) || same_chars(&lower, &chars_of("jpeg"))
        || same_chars(&lower, &chars_of("jpg")) || same_chars(&lower, &chars_of("webp"))
        || same_chars(&lower, &chars_of("gif")) || same_chars(&lower, &chars_of("bmp"))
}

/// Whether `path` names an image in one of the supported formats.
pub fn is_supported_image(path: &str) -> (supported: bool)
    ensures
        supported == supported_image_path(path@),
{
    match extension_of(path) {
        Some(extension) => is_supported_extension_text(extension),
        None => false,
    }
}

/// Whether the file name of `path` starts with a dot.
pub fn is_hidden_dotfile(path: &str) -> (hidden: bool)
    ensures
        hidden == hidden_dotfile_path(path@),
{
    match file_name_of(path) {
        Some(name) => {
            let chars: Vec<char> = chars_of(name);
            chars.len() > 0 && chars[0] == '.'
        },
        None => false,
    }
}

} // verus!
