//! The error taxonomy of the engine, and the wrapping of each failure
//! with the operation and path that caused it.

use vstd::prelude::*;
use vstd::string::*;

verus! {

/// Why an operation was refused or failed.
///
/// Every operation of the engine returns one of these instead of raising a
/// fault, so a dispatch layer can report the kind together with the path
/// that caused it.
#[derive(Clone, Copy, Debug, PartialEq, Eq, Structural)]
pub enum FsError {
    /// A root handed to the sandbox at startup does not exist, cannot be
    /// resolved, or is not a directory.
    Configuration,
    /// The path resolves to a location that is not equal to, or a
    /// descendant of, any sandbox root.
    OutsideSandbox,
    /// The path, or a required parent of it, does not exist.
    NotFound,
    /// The path exists but is not a regular file.
    NotRegularFile,
    /// The file is larger than the read ceiling.
    SizeLimitExceeded,
    /// The file's bytes are not valid UTF-8.
    Encoding,
    /// An underlying write, rename or metadata operation failed.
    Io,
    /// A glob pattern does not compile.
    InvalidPattern,
}

/// A short text for each error kind.
pub open spec fn spec_kind_text(e: FsError) -> Seq<char> {
    match e {
        FsError::Configuration => "root does not resolve to a directory"@,
        FsError::OutsideSandbox => "path is outside sandbox roots"@,
        FsError::NotFound => "path not found"@,
        FsError::NotRegularFile => "not a regular file"@,
        FsError::SizeLimitExceeded => "file exceeds size limit"@,
        FsError::Encoding => "file is not valid UTF-8"@,
        FsError::Io => "I/O error"@,
        FsError::InvalidPattern => "invalid glob pattern"@,
    }
}

impl FsError {
    /// The error kind as a short text.
    pub fn kind_text(&self) -> (r: String)
        ensures
            r@ == spec_kind_text(*self),
    {
        match self {
            FsError::Configuration => String::from_str("root does not resolve to a directory"),
            FsError::OutsideSandbox => String::from_str("path is outside sandbox roots"),
            FsError::NotFound => String::from_str("path not found"),
            FsError::NotRegularFile => String::from_str("not a regular file"),
            FsError::SizeLimitExceeded => String::from_str("file exceeds size limit"),
            FsError::Encoding => String::from_str("file is not valid UTF-8"),
            FsError::Io => String::from_str("I/O error"),
            FsError::InvalidPattern => String::from_str("invalid glob pattern"),
        }
    }
}

/// A failure wrapped with the operation and the path that caused it, so
/// no error kind reaches a caller without its context.
pub fn error_message(operation: &str, path: &str, e: FsError) -> (r: String)
    ensures
        r@ == operation@ + " '"@ + path@ + "': "@ + spec_kind_text(e),
{
    let mut message = String::from_str(operation);
    message.append(" '");
    message.append(path);
    message.append("': ");
    let kind = e.kind_text();
    message.append(kind.as_str());
    message
}

} // verus!
