//! The typed parameter shapes of the engine's operations, as a dispatch
//! layer hands them in. A transport keeps its own serializable copies of
//! these and converts; the engine itself sees only these plain values.

use vstd::prelude::*;

use crate::edit::Edit;

verus! {

/// Parameters of a directory listing.
pub struct ReadFolderParameters {
    /// Directory path whose immediate files and subdirectories are
    /// listed.
    pub path: String,
}

/// Parameters of a recursive glob search.
pub struct SearchFolderParameters {
    /// Root directory to search recursively.
    pub path: String,
    /// Glob pattern a file name must match.
    pub pattern: String,
    /// Glob patterns a file name must not match.
    pub exclude_pattern: Vec<String>,
}

/// Parameters of a single-file read.
pub struct ReadFileParameters {
    /// Path of the file to read.
    pub path: String,
}

/// Parameters of a multi-file read.
pub struct ReadMultipleFileParameters {
    /// Paths of the files to read.
    pub paths: Vec<String>,
}

/// Parameters of a metadata query.
pub struct GetFileInfoParameters {
    /// Path of the entry to describe.
    pub path: String,
}

/// Parameters of a whole-file write.
pub struct CreateFileParameters {
    /// Path of the file to create or overwrite.
    pub path: String,
    /// The content to write.
    pub content: String,
}

/// Parameters of a directory creation.
pub struct CreateDirectoryParameter {
    /// Path of the directory to create.
    pub path: String,
}

/// Parameters of a move.
pub struct MoveFileParameters {
    /// The path moved from.
    pub source: String,
    /// The path moved to.
    pub destination: String,
}

/// Parameters of an in-place edit.
pub struct EditFileParameters {
    /// Path of the file to edit.
    pub path: String,
    /// The edits, applied in list order.
    pub edits: Vec<Edit>,
    /// Whether to only report the diff, leaving the file untouched.
    pub dry_run: bool,
}

} // verus!
