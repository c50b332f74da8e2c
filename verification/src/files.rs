//! The files of a build that belong into the home directory.

use vstd::prelude::*;
use crate::absolute::joined_path;
use crate::absolute::path_join;

verus! {

/// What an entry of a directory is.
#[derive(Clone, Copy, Debug, PartialEq, Eq, Structural)]
pub enum FileType {
    Directory,
    File,
    Symlink,
    Other,
}

/// The model of a [`FileStep`].
pub enum FileStepModel {
    Descend { base_dir: Seq<char> },
    Ensure { from: Seq<char>, to: Seq<char> },
    Symlink,
    Unknown,
}

/// What to do with an entry of a build's output.
#[derive(Debug)]
pub enum FileStep {
    /// Go through the directory; this is its path below the output.
    Descend { base_dir: String },
    /// See to it that the path in the home directory leads to the file.
    Ensure { from: String, to: String },
    /// A symbolic link: nothing is done with it.
    Symlink,
    /// Neither directory, file nor link: nothing is done with it.
    Unknown,
}

impl View for FileStep {
    type V = FileStepModel;

    open spec fn view(&self) -> FileStepModel {
        match self {
            FileStep::Descend { base_dir } => FileStepModel::Descend { base_dir: base_dir@ },
            FileStep::Ensure { from, to } => FileStepModel::Ensure { from: from@, to: to@ },
            FileStep::Symlink => FileStepModel::Symlink,
            FileStep::Unknown => FileStepModel::Unknown,
        }
    }
}

/// What to do with the entry `name` of the directory `base_dir` of a
/// build's output, which lies at `path`: a file belongs at the same place
/// below the home directory.
pub open spec fn file_step_of(
    home_dir: Seq<char>,
    base_dir: Seq<char>,
    name: Seq<char>,
    path: Seq<char>,
    file_type: FileType,
) -> FileStepModel {
    match file_type {
        FileType::Directory => FileStepModel::Descend { base_dir: joined_path(base_dir, name) },
        FileType::File => FileStepModel::Ensure {
            from: joined_path(joined_path(home_dir, base_dir), name),
            to: path,
        },
        FileType::Symlink => FileStepModel::Symlink,
        FileType::Other => FileStepModel::Unknown,
    }
}

/// Decides what to do with an entry of a build's output.
pub fn file_step(home_dir: &str, base_dir: &str, name: &str, path: &str, file_type: FileType) -> (r:
    FileStep)
    ensures
        r@ == file_step_of(home_dir@, base_dir@, name@, path@, file_type),
{
    match file_type {
        FileType::Directory => FileStep::Descend { base_dir: path_join(base_dir, name) },
        FileType::File => {
            let dir = path_join(home_dir, base_dir);
            FileStep::Ensure { from: path_join(dir.as_str(), name), to: path.to_owned() }
        },
        FileType::Symlink => FileStep::Symlink,
        FileType::Other => FileStep::Unknown,
    }
}

} // verus!
