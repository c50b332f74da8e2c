//! What a tree holds for a path: what kind of thing lies there, and which
//! root it came from.

use vstd::prelude::*;
use crate::content::ContentHash;
use crate::content::ContentModel;
use crate::error::DiffError;
use crate::error::ErrorModel;
use crate::symlink::ChainModel;
use crate::symlink::SymlinkChain;

verus! {

/// The device and the inode of a file: where both are equal, two paths
/// lead to the same object.
#[derive(Clone, Copy, Debug, PartialEq, Eq, Structural)]
pub struct Identity {
    pub dev: u64,
    pub ino: u64,
}

/// The model of a [`PathState`].
#[allow(inconsistent_fields)]
pub enum PathStateModel {
    Directory,
    File { hash: ContentModel },
    Symlink { chain: ChainModel, hash: Option<ContentModel> },
}

/// The state of a path. A symbolic link holds a hash only where its chain
/// ends at a regular file: not where it ends at a directory, or at nothing.
#[derive(Debug)]
#[allow(inconsistent_fields)]
pub enum PathState {
    Directory,
    File { hash: ContentHash },
    Symlink { chain: SymlinkChain, hash: Option<ContentHash> },
}

/// The view of a content hash that may be missing.
pub open spec fn optional_content(hash: Option<ContentHash>) -> Option<ContentModel> {
    match hash {
        Some(h) => Some(h@),
        None => None,
    }
}

impl View for PathState {
    type V = PathStateModel;

    open spec fn view(&self) -> PathStateModel {
        match self {
            PathState::Directory => PathStateModel::Directory,
            PathState::File { hash } => PathStateModel::File { hash: hash@ },
            PathState::Symlink { chain, hash } => PathStateModel::Symlink {
                chain: chain@,
                hash: optional_content(*hash),
            },
        }
    }
}

impl Clone for PathState {
    fn clone(&self) -> (r: Self)
        ensures
            r@ == self@,
    {
        match self {
            PathState::Directory => PathState::Directory,
            PathState::File { hash } => PathState::File { hash: hash.clone() },
            PathState::Symlink { chain, hash } => {
                let hash = match hash {
                    Some(h) => Some(h.clone()),
                    None => None,
                };
                PathState::Symlink { chain: chain.clone(), hash }
            },
        }
    }
}

impl PathState {
    /// Tells whether the path is a directory itself, not a link to one.
    pub fn is_dir(&self) -> (r: bool)
        ensures
            r == (self@ is Directory),
    {
        match self {
            PathState::Directory => true,
            _ => false,
        }
    }

    /// The hash of the regular file that lies at the path or at the end of
    /// its chain.
    pub fn content(&self) -> (r: Option<&ContentHash>)
        ensures
            r is Some <==> content_of_state(self@) is Some,
            r matches Some(h) ==> content_of_state(self@) == Some(h@),
    {
        match self {
            PathState::Directory => None,
            PathState::File { hash } => Some(hash),
            PathState::Symlink { chain, hash } => match hash {
                Some(hash) => Some(hash),
                None => None,
            },
        }
    }
}

/// The content that a state stands for, where it stands for any.
pub open spec fn content_of_state(state: PathStateModel) -> Option<ContentModel> {
    match state {
        PathStateModel::Directory => None,
        PathStateModel::File { hash } => Some(hash),
        PathStateModel::Symlink { chain, hash } => hash,
    }
}

/// The model of a [`PathInfo`].
pub struct PathInfoModel {
    pub root: Seq<char>,
    pub identity: Option<Identity>,
    pub state: PathStateModel,
}

/// What a tree holds for a path: the root that provides the path, the
/// identity of what lies there, where the platform has one, and its state.
/// The identity of a symbolic link is that of what the link leads to.
#[derive(Debug)]
pub struct PathInfo {
    pub root: String,
    pub identity: Option<Identity>,
    pub state: PathState,
}

impl View for PathInfo {
    type V = PathInfoModel;

    open spec fn view(&self) -> PathInfoModel {
        PathInfoModel { root: self.root@, identity: self.identity, state: self.state@ }
    }
}

impl Clone for PathInfo {
    fn clone(&self) -> (r: Self)
        ensures
            r@ == self@,
    {
        PathInfo {
            root: self.root.clone(),
            identity: self.identity,
            state: self.state.clone(),
        }
    }
}

impl PathInfo {
    /// What a root provides at a path.
    pub fn new(root: String, identity: Option<Identity>, state: PathState) -> (r: PathInfo)
        ensures
            r@ == (PathInfoModel { root: root@, identity, state: state@ }),
    {
        PathInfo { root, identity, state }
    }
}

/// The model of a [`Found`].
#[allow(inconsistent_fields)]
pub enum FoundModel {
    Directory,
    File { content: Result<ContentModel, Seq<char>> },
    Symlink {
        chain: Result<ChainModel, ErrorModel>,
        content: Option<Result<ContentModel, Seq<char>>>,
    },
}

/// What the file system says of a path when it is not followed through a
/// last symbolic link. Whatever is neither a directory nor a link counts as
/// a file. What could not be read comes with what the system said.
#[derive(Debug)]
#[allow(inconsistent_fields)]
pub enum Found {
    Directory,
    /// A file, with the hash of its content.
    File { content: Result<ContentHash, String> },
    /// A symbolic link, with the chain that was resolved for it, and with
    /// the hash of what lies at the end of the chain where that is a regular
    /// file.
    Symlink { chain: Result<SymlinkChain, DiffError>, content: Option<Result<ContentHash, String>> },
}

/// The view of a content hash that may have failed to be read.
pub open spec fn content_read(content: Result<ContentHash, String>) -> Result<
    ContentModel,
    Seq<char>,
> {
    match content {
        Ok(hash) => Ok(hash@),
        Err(cause) => Err(cause@),
    }
}

impl View for Found {
    type V = FoundModel;

    open spec fn view(&self) -> FoundModel {
        match self {
            Found::Directory => FoundModel::Directory,
            Found::File { content } => FoundModel::File { content: content_read(*content) },
            Found::Symlink { chain, content } => FoundModel::Symlink {
                chain: match chain {
                    Ok(chain) => Ok(chain@),
                    Err(e) => Err(e@),
                },
                content: match content {
                    Some(content) => Some(content_read(*content)),
                    None => None,
                },
            },
        }
    }
}

/// The state of a path from what was found at it. A failure comes with the
/// path at which it arose: the path itself, or the end of its chain where
/// the content there could not be read; a chain that could not be resolved
/// comes with its own error.
pub open spec fn classified(path: Seq<char>, found: FoundModel) -> Result<
    PathStateModel,
    ErrorModel,
> {
    match found {
        FoundModel::Directory => Ok(PathStateModel::Directory),
        FoundModel::File { content } => match content {
            Ok(hash) => Ok(PathStateModel::File { hash }),
            Err(cause) => Err(ErrorModel::IoError { path, cause }),
        },
        FoundModel::Symlink { chain, content } => match chain {
            Err(e) => Err(e),
            Ok(chain) => match content {
                None => Ok(PathStateModel::Symlink { chain, hash: None }),
                Some(Ok(hash)) => Ok(PathStateModel::Symlink { chain, hash: Some(hash) }),
                Some(Err(cause)) => Err(ErrorModel::IoError { path: chain.to, cause }),
            },
        },
    }
}

/// The view of a state or of the error in its place.
pub open spec fn state_model(r: Result<PathState, DiffError>) -> Result<
    PathStateModel,
    ErrorModel,
> {
    match r {
        Ok(state) => Ok(state@),
        Err(e) => Err(e@),
    }
}

/// Classifies a path from what was found at it.
pub fn classify(path: &str, found: Found) -> (r: Result<PathState, DiffError>)
    ensures
        state_model(r) == classified(path@, found@),
{
    match found {
        Found::Directory => Ok(PathState::Directory),
        Found::File { content } => match content {
            Ok(hash) => Ok(PathState::File { hash }),
            Err(cause) => Err(DiffError::IoError { path: path.to_owned(), cause }),
        },
        Found::Symlink { chain, content } => match chain {
            Err(e) => Err(e),
            Ok(chain) => match content {
                None => Ok(PathState::Symlink { chain, hash: None }),
                Some(Ok(hash)) => Ok(PathState::Symlink { chain, hash: Some(hash) }),
                Some(Err(cause)) => Err(DiffError::IoError { path: chain.to().to_owned(), cause }),
            },
        },
    }
}

} // verus!
