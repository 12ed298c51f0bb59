use vstd::prelude::*;

verus! {

/// A failed filesystem operation, reduced to what the viewer's decisions read
/// from it: whether the file was missing.
#[derive(Debug, Clone, Copy, PartialEq, Eq, Structural)]
pub enum FileSystemError {
    NotFound,
    Other,
}

/// What a metadata query reported about a file.
#[derive(Debug, Clone, Copy, PartialEq, Eq, Structural)]
pub struct FileMetadata {
    pub is_file: bool,
    pub size_bytes: u64,
    /// Modification time in nanoseconds from the Unix epoch (negative before
    /// it), or `None` where the platform could not report one.
    pub modified: Option<i128>,
}

} // verus!

verus! {

/// A path resolved to its canonical form, with what a metadata query
/// reported about the file there.
#[derive(Debug)]
pub struct ProbedFile {
    pub canonical_path: String,
    pub metadata: FileMetadata,
}

/// One entry of a folder listing: its path, what a metadata query reported
/// about it, and its canonical path.
#[derive(Debug)]
pub struct FolderEntry {
    pub path: String,
    pub metadata: Result<FileMetadata, FileSystemError>,
    pub canonical_path: Result<String, FileSystemError>,
}

/// A path the user selected, with the outcome of resolving and querying it.
#[derive(Debug)]
pub struct SelectedPath {
    pub path: String,
    pub file: Result<ProbedFile, FileSystemError>,
}

} // verus!
