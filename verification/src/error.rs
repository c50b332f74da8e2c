//! The ways in which a diff can fail.

use vstd::prelude::*;
use vstd::string::StringExecFns;
use crate::format_bulleted_list::bulleted_list;
use crate::format_bulleted_list::format_bulleted_list;
use crate::text::copy_texts;
use crate::text::texts;

verus! {

/// The model of a [`DiffError`].
pub enum ErrorModel {
    IoError { path: Seq<char>, cause: Seq<char> },
    SymlinkLoop { paths: Seq<Seq<char>> },
    PathEncodingError { path: Seq<char> },
}

/// Why no diff was produced. Each error names the path at which it arose;
/// none is recovered from: a diff is made in full or not at all.
#[derive(Debug)]
pub enum DiffError {
    /// A path could not be read: the path, and what the system said.
    IoError { path: String, cause: String },
    /// A chain of symbolic links leads back into itself: the links that
    /// were followed, in the order in which they were met.
    SymlinkLoop { paths: Vec<String> },
    /// A path is not valid text: the path with each invalid part replaced.
    PathEncodingError { path: String },
}

impl View for DiffError {
    type V = ErrorModel;

    open spec fn view(&self) -> ErrorModel {
        match self {
            DiffError::IoError { path, cause } => ErrorModel::IoError {
                path: path@,
                cause: cause@,
            },
            DiffError::SymlinkLoop { paths } => ErrorModel::SymlinkLoop { paths: texts(paths@) },
            DiffError::PathEncodingError { path } => ErrorModel::PathEncodingError { path: path@ },
        }
    }
}

/// What an error says to a reader.
pub open spec fn message_of(e: ErrorModel) -> Seq<char> {
    match e {
        ErrorModel::IoError { path, cause } => "Failed to read "@ + path + ": "@ + cause,
        ErrorModel::SymlinkLoop { paths } => "Detected symlink loop:\n"@ + bulleted_list(paths),
        ErrorModel::PathEncodingError { path } => "Path is not valid UTF-8: "@ + path,
    }
}

impl Clone for DiffError {
    fn clone(&self) -> (r: Self)
        ensures
            r@ == self@,
    {
        match self {
            DiffError::IoError { path, cause } => DiffError::IoError {
                path: path.clone(),
                cause: cause.clone(),
            },
            DiffError::SymlinkLoop { paths } => DiffError::SymlinkLoop { paths: copy_texts(paths) },
            DiffError::PathEncodingError { path } => DiffError::PathEncodingError {
                path: path.clone(),
            },
        }
    }
}

impl DiffError {
    /// The error as a message for the user.
    pub fn message(&self) -> (r: String)
        ensures
            r@ == message_of(self@),
    {
        match self {
            DiffError::IoError { path, cause } => {
                let mut out = String::from_str("Failed to read ");
                out.append(path.as_str());
                out.append(": ");
                out.append(cause.as_str());
                out
            },
            DiffError::SymlinkLoop { paths } => {
                let mut out = String::from_str("Detected symlink loop:\n");
                let list = format_bulleted_list(paths.as_slice());
                out.append(list.as_str());
                out
            },
            DiffError::PathEncodingError { path } => {
                let mut out = String::from_str("Path is not valid UTF-8: ");
                out.append(path.as_str());
                out
            },
        }
    }
}

} // verus!
