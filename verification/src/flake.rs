//! A flake: by its URL, or by the path of its directory.

use vstd::prelude::*;
use vstd::string::StringExecFns;
use crate::absolute::joined_path;
use crate::absolute::parent_of;
use crate::absolute::path_join;
use crate::absolute::path_parent;
use crate::symlink::LinkProbe;
use crate::symlink::ProbeModel;

verus! {

/// The model of a [`PathFlake`].
pub struct PathFlakeModel {
    pub path: Seq<char>,
    pub use_path_flake: bool,
}

/// A flake in a directory.
#[derive(Debug)]
pub struct PathFlake {
    pub path: String,
    pub use_path_flake: bool,
}

impl View for PathFlake {
    type V = PathFlakeModel;

    open spec fn view(&self) -> PathFlakeModel {
        PathFlakeModel { path: self.path@, use_path_flake: self.use_path_flake }
    }
}

/// The model of a [`Flake`].
pub enum FlakeModel {
    Url(Seq<char>),
    Path(PathFlakeModel),
}

/// A flake.
#[derive(Debug)]
pub enum Flake {
    Url(String),
    Path(PathFlake),
}

impl View for Flake {
    type V = FlakeModel;

    open spec fn view(&self) -> FlakeModel {
        match self {
            Flake::Url(url) => FlakeModel::Url(url@),
            Flake::Path(path) => FlakeModel::Path(path@),
        }
    }
}

/// A path flake as the package manager takes it: behind `path:` where that
/// is asked for.
pub open spec fn path_flake_text(flake: PathFlakeModel) -> Seq<char> {
    if flake.use_path_flake {
        "path:"@ + flake.path
    } else {
        flake.path
    }
}

/// A flake as the package manager takes it.
pub open spec fn flake_text(flake: FlakeModel) -> Seq<char> {
    match flake {
        FlakeModel::Url(url) => url,
        FlakeModel::Path(path) => path_flake_text(path),
    }
}

/// The flake with the switch set, where it is a path flake.
pub open spec fn with_use_path_flake(flake: FlakeModel, use_path_flake: bool) -> FlakeModel {
    match flake {
        FlakeModel::Url(url) => FlakeModel::Url(url),
        FlakeModel::Path(path) => FlakeModel::Path(
            PathFlakeModel { path: path.path, use_path_flake },
        ),
    }
}

impl Clone for PathFlake {
    fn clone(&self) -> (r: Self)
        ensures
            r@ == self@,
    {
        PathFlake { path: self.path.clone(), use_path_flake: self.use_path_flake }
    }
}

impl Clone for Flake {
    fn clone(&self) -> (r: Self)
        ensures
            r@ == self@,
    {
        match self {
            Flake::Url(url) => Flake::Url(url.clone()),
            Flake::Path(path) => Flake::Path(path.clone()),
        }
    }
}

impl PathFlake {
    /// The flake as the package manager takes it.
    pub fn to_text(&self) -> (r: String)
        ensures
            r@ == path_flake_text(self@),
    {
        if self.use_path_flake {
            let mut out = String::from_str("path:");
            out.append(self.path.as_str());
            out
        } else {
            self.path.clone()
        }
    }
}

impl Flake {
    /// Sets the switch of a path flake; a URL stays as it is.
    pub fn set_use_path_flake(self, use_path_flake: bool) -> (r: Self)
        ensures
            r@ == with_use_path_flake(self@, use_path_flake),
    {
        match self {
            Flake::Url(url) => Flake::Url(url),
            Flake::Path(flake) => Flake::Path(PathFlake { path: flake.path, use_path_flake }),
        }
    }

    /// What a text that names a flake stands for: the path flake that was
    /// found for it where the text is a path that exists, else a URL.
    pub fn named(text: &str, found: Option<PathFlake>) -> (r: Flake)
        ensures
            r@ == (match found {
                Some(flake) => FlakeModel::Path(flake@),
                None => FlakeModel::Url(text@),
            }),
    {
        match found {
            Some(flake) => Flake::Path(flake),
            None => Flake::Url(text.to_owned()),
        }
    }

    /// The flake as the package manager takes it.
    pub fn to_text(&self) -> (r: String)
        ensures
            r@ == flake_text(self@),
    {
        match self {
            Flake::Url(url) => url.clone(),
            Flake::Path(path) => path.to_text(),
        }
    }
}

/// The model of a [`FlakeSearch`].
pub enum FlakeSearchModel {
    Directory { dir: Seq<char> },
    File { dir: Seq<char>, file: Seq<char> },
}

/// The search for the directory of a path flake. Links are resolved by
/// one hop each: first the directory that holds the flake file, then the
/// flake file itself.
#[derive(Debug)]
pub enum FlakeSearch {
    /// Ask whether the directory is a link.
    Directory { dir: String },
    /// Ask whether the flake file in the directory is a link.
    File { dir: String, file: String },
}

impl View for FlakeSearch {
    type V = FlakeSearchModel;

    open spec fn view(&self) -> FlakeSearchModel {
        match self {
            FlakeSearch::Directory { dir } => FlakeSearchModel::Directory { dir: dir@ },
            FlakeSearch::File { dir, file } => FlakeSearchModel::File { dir: dir@, file: file@ },
        }
    }
}

/// The model of a [`FlakeStep`].
pub enum FlakeStepModel {
    Next(FlakeSearchModel),
    Done(PathFlakeModel),
    Failed(Seq<char>),
}

/// Where the search stands after an answer from the file system.
#[derive(Debug)]
pub enum FlakeStep {
    /// The search goes on: ask about its path.
    Next(FlakeSearch),
    /// The directory of the flake is found.
    Done(PathFlake),
    /// The search has failed: the message.
    Failed(String),
}

impl View for FlakeStep {
    type V = FlakeStepModel;

    open spec fn view(&self) -> FlakeStepModel {
        match self {
            FlakeStep::Next(search) => FlakeStepModel::Next(search@),
            FlakeStep::Done(flake) => FlakeStepModel::Done(flake@),
            FlakeStep::Failed(message) => FlakeStepModel::Failed(message@),
        }
    }
}

/// The path that a search asks about.
pub open spec fn asked_path(search: FlakeSearchModel) -> Seq<char> {
    match search {
        FlakeSearchModel::Directory { dir } => dir,
        FlakeSearchModel::File { dir, file } => file,
    }
}

/// How a search starts from the path of a flake file: at the directory that
/// holds the file, or not at all where the path has no parent.
pub open spec fn search_started(path: Seq<char>) -> Result<FlakeSearchModel, Seq<char>> {
    match parent_of(path) {
        Some(dir) => Ok(FlakeSearchModel::Directory { dir }),
        None => Err("Path has no parent: "@ + path),
    }
}

/// The search that looks at the flake file of a directory.
pub open spec fn file_search(dir: Seq<char>) -> FlakeSearchModel {
    FlakeSearchModel::File { dir, file: joined_path(dir, "flake.nix"@) }
}

/// The step that an answer leads to. A directory that is a link gives way
/// to its target; a flake file that is a link gives way to the directory of
/// its target.
pub open spec fn search_advanced(search: FlakeSearchModel, probe: ProbeModel) -> FlakeStepModel {
    match probe {
        ProbeModel::Failed { cause } => FlakeStepModel::Failed(
            "Failed to read link: "@ + asked_path(search) + ": "@ + cause,
        ),
        ProbeModel::NotLink => match search {
            FlakeSearchModel::Directory { dir } => FlakeStepModel::Next(file_search(dir)),
            FlakeSearchModel::File { dir, file } => FlakeStepModel::Done(
                PathFlakeModel { path: dir, use_path_flake: false },
            ),
        },
        ProbeModel::Link { target } => match search {
            FlakeSearchModel::Directory { dir } => FlakeStepModel::Next(file_search(target)),
            FlakeSearchModel::File { dir, file } => match parent_of(target) {
                Some(parent) => FlakeStepModel::Done(
                    PathFlakeModel { path: parent, use_path_flake: false },
                ),
                None => FlakeStepModel::Failed("Path has no parent directory: "@ + target),
            },
        },
    }
}

/// The view of a search that may have failed to start.
pub open spec fn started_model(r: Result<FlakeSearch, String>) -> Result<
    FlakeSearchModel,
    Seq<char>,
> {
    match r {
        Ok(search) => Ok(search@),
        Err(message) => Err(message@),
    }
}

/// The search that looks at the flake file of a directory.
fn search_file(dir: String) -> (r: FlakeSearch)
    ensures
        r@ == file_search(dir@),
{
    let file = path_join(dir.as_str(), "flake.nix");
    FlakeSearch::File { dir, file }
}

impl FlakeSearch {
    /// Starts the search from the path of a flake file.
    pub fn new(path: &str) -> (r: Result<FlakeSearch, String>)
        ensures
            started_model(r) == search_started(path@),
    {
        match path_parent(path) {
            Some(dir) => Ok(FlakeSearch::Directory { dir }),
            None => {
                let mut message = String::from_str("Path has no parent: ");
                message.append(path);
                Err(message)
            },
        }
    }

    /// The path to ask the file system about.
    pub fn path(&self) -> (r: &str)
        ensures
            r@ == asked_path(self@),
    {
        match self {
            FlakeSearch::Directory { dir } => dir.as_str(),
            FlakeSearch::File { dir, file } => file.as_str(),
        }
    }

    /// Takes the file system's answer about the search's path.
    pub fn advance(self, probe: LinkProbe) -> (r: FlakeStep)
        ensures
            r@ == search_advanced(self@, probe@),
    {
        match probe {
            LinkProbe::Failed { cause } => {
                let mut message = String::from_str("Failed to read link: ");
                message.append(self.path());
                message.append(": ");
                message.append(cause.as_str());
                FlakeStep::Failed(message)
            },
            LinkProbe::NotLink => match self {
                FlakeSearch::Directory { dir } => FlakeStep::Next(search_file(dir)),
                FlakeSearch::File { dir, file } => FlakeStep::Done(
                    PathFlake { path: dir, use_path_flake: false },
                ),
            },
            LinkProbe::Link { target } => match self {
                FlakeSearch::Directory { dir } => FlakeStep::Next(search_file(target)),
                FlakeSearch::File { dir, file } => match path_parent(target.as_str()) {
                    Some(parent) => FlakeStep::Done(
                        PathFlake { path: parent, use_path_flake: false },
                    ),
                    None => {
                        let mut message = String::from_str("Path has no parent directory: ");
                        message.append(target.as_str());
                        FlakeStep::Failed(message)
                    },
                },
            },
        }
    }

}

} // verus!
