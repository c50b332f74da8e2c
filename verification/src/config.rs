//! The configuration: what the file says, and what the command line says
//! over it.

use vstd::prelude::*;
use vstd::string::StringExecFns;
use crate::absolute::parent_of;
use crate::absolute::path_parent;
use crate::cli::args_log_filter;
use crate::cli::Args;
use crate::directories::config_dirs_of;
use crate::directories::files_in;
use crate::directories::ProjectPaths;
use crate::flake::with_use_path_flake;
use crate::flake::Flake;
use crate::format_bulleted_list::bulleted_list;
use crate::format_bulleted_list::format_bulleted_list;
use crate::nix::Nix;
use crate::nix::NixModel;
use crate::text::copy_optional;
use crate::text::interleaved;
use crate::text::join_texts;
use crate::text::optional_text;
use crate::text::texts;

verus! {

/// The log filter where neither the file nor the command line gives one.
pub const DEFAULT_FILTER: &'static str = "info";

/// A step of a run.
#[derive(Clone, Copy, Debug, PartialEq, Eq, Structural)]
pub enum Step {
    Packages,
}

/// The log filter of a configuration file: one directive, or several.
#[derive(Debug)]
pub enum LogFilter {
    One(String),
    Many(Vec<String>),
}

/// The directives of a filter as one text, with commas between them.
pub open spec fn filter_text(filter: Option<LogFilter>) -> Seq<char> {
    match filter {
        Some(LogFilter::One(filter)) => filter@,
        Some(LogFilter::Many(filters)) => interleaved(texts(filters@), ","@),
        None => Seq::empty(),
    }
}

/// Configuration loaded from a file.
#[derive(Debug)]
pub struct ConfigFile {
    pub log_filter: Option<LogFilter>,
    pub flake: Option<String>,
    pub update: Option<bool>,
    pub use_path_flake: Option<bool>,
    pub profile: Option<String>,
}

impl Default for ConfigFile {
    fn default() -> (r: Self)
        ensures
            r.log_filter is None,
            r.flake is None,
            r.update is None,
            r.use_path_flake is None,
            r.profile is None,
    {
        ConfigFile { log_filter: None, flake: None, update: None, use_path_flake: None, profile: None }
    }
}

/// The configuration: the file that was found, if any, and the options of
/// the command line, which go before the file.
#[derive(Debug)]
pub struct Config {
    pub path: Option<String>,
    pub project_paths: ProjectPaths,
    pub file: ConfigFile,
    pub args: Args,
}

/// The log filter of a configuration: the file's directives, then a comma
/// and the command line's; the default where both are empty.
pub open spec fn config_log_filter(file: Seq<char>, args: Option<Seq<char>>) -> Seq<char> {
    let text = match args {
        Some(filter) => file + ","@ + filter,
        None => file,
    };
    if text.len() == 0 {
        "info"@
    } else {
        text
    }
}

/// `switch` where it is set, else not.
pub open spec fn is_set(switch: Option<bool>) -> bool {
    switch == Some(true)
}

/// The model of a [`FlakeSource`].
pub enum FlakeSourceModel {
    Named(Seq<char>),
    Search(Seq<Seq<char>>),
}

/// Where the flake of a configuration comes from.
#[derive(Debug)]
pub enum FlakeSource {
    /// The command line or the file names it.
    Named(String),
    /// It is the first of these flake files that exists.
    Search(Vec<String>),
}

impl View for FlakeSource {
    type V = FlakeSourceModel;

    open spec fn view(&self) -> FlakeSourceModel {
        match self {
            FlakeSource::Named(name) => FlakeSourceModel::Named(name@),
            FlakeSource::Search(paths) => FlakeSourceModel::Search(texts(paths@)),
        }
    }
}

/// The view of a source that may have failed to be found.
pub open spec fn source_model(r: Result<FlakeSource, String>) -> Result<
    FlakeSourceModel,
    Seq<char>,
> {
    match r {
        Ok(source) => Ok(source@),
        Err(message) => Err(message@),
    }
}

/// Where the flake comes from: the command line goes before the file; where
/// neither names a flake, it is looked for in the usual directories and then
/// beside the configuration file.
pub open spec fn flake_source_of(
    args_flake: Option<Seq<char>>,
    file_flake: Option<Seq<char>>,
    usual: Seq<Seq<char>>,
    config_path: Option<Seq<char>>,
) -> Result<FlakeSourceModel, Seq<char>> {
    match args_flake {
        Some(name) => Ok(FlakeSourceModel::Named(name)),
        None => match file_flake {
            Some(name) => Ok(FlakeSourceModel::Named(name)),
            None => match config_path {
                None => Ok(FlakeSourceModel::Search(usual)),
                Some(path) => match parent_of(path) {
                    Some(dir) => Ok(FlakeSourceModel::Search(usual.push(dir))),
                    None => Err("Configuration file has no parent directory: "@ + path),
                },
            },
        },
    }
}

/// What is said where no flake file exists.
pub open spec fn flake_not_found(paths: Seq<Seq<char>>) -> Seq<char> {
    "Unable to find home-mangler `flake.nix`. I looked in these paths:\n"@ + bulleted_list(paths)
}

/// The position of the first `true`.
pub open spec fn is_first_existing(exists: Seq<bool>, i: int) -> bool {
    &&& 0 <= i < exists.len()
    &&& exists[i]
    &&& forall|j: int| 0 <= j < i ==> !exists[j]
}

/// The view of a hostname that may be missing.
pub open spec fn hostname_model(r: Result<String, String>) -> Result<Seq<char>, Seq<char>> {
    match r {
        Ok(name) => Ok(name@),
        Err(message) => Err(message@),
    }
}

/// The hostname: the one given, else the system's, which is an error
/// where it is not valid text.
pub open spec fn hostname_of(given: Option<Seq<char>>, system: Result<Seq<char>, Seq<char>>) -> Result<
    Seq<char>,
    Seq<char>,
> {
    match given {
        Some(name) => Ok(name),
        None => match system {
            Ok(name) => Ok(name),
            Err(lossy) => Err("Hostname is not UTF-8: "@ + lossy),
        },
    }
}

/// The position of the path to ask the file system about next, where
/// `exists` holds the answers so far: the next of the `count` candidates, as
/// long as none was found to exist and some are left.
pub fn next_candidate(count: usize, exists: &Vec<bool>) -> (r: Option<usize>)
    ensures
        r == (if exists@.len() < count && !exists@.contains(true) {
            Some(exists@.len() as usize)
        } else {
            None::<usize>
        }),
{
    if exists.len() >= count {
        return None;
    }
    match first_existing(exists) {
        Some(i) => {
            assert(exists@[i as int] == true);
            None
        },
        None => {
            assert(!exists@.contains(true)) by {
                if exists@.contains(true) {
                    let i = exists@.index_of(true);
                    assert(exists@[i]);
                }
            }
            Some(exists.len())
        },
    }
}

/// The position of the first path that exists, where one does: the
/// configuration file, or the flake file, is the first that is found.
pub fn first_existing(exists: &Vec<bool>) -> (r: Option<usize>)
    ensures
        r matches Some(i) ==> is_first_existing(exists@, i as int),
        r is None ==> forall|j: int| 0 <= j < exists@.len() ==> !exists@[j],
{
    let mut i: usize = 0;
    while i < exists.len()
        invariant
            0 <= i <= exists.len(),
            forall|j: int| 0 <= j < i ==> !exists@[j],
        decreases exists.len() - i,
    {
        if exists[i] {
            return Some(i);
        }
        i = i + 1;
    }
    None
}

impl Config {
    /// The configuration for the options of the command line and the file
    /// that was found and loaded, with its path; the empty file where none
    /// was found.
    pub fn from_args(args: Args, project_paths: ProjectPaths, found: Option<(String, ConfigFile)>) -> (r:
        Config)
        ensures
            r.args == args,
            r.project_paths == project_paths,
            match found {
                Some(loaded) => r.path == Some(loaded.0) && r.file == loaded.1,
                None => r.path is None && r.file.log_filter is None && r.file.flake is None
                    && r.file.update is None && r.file.use_path_flake is None
                    && r.file.profile is None,
            },
    {
        match found {
            Some((path, file)) => Config { path: Some(path), project_paths, file, args },
            None => Config { path: None, project_paths, file: ConfigFile::default(), args },
        }
    }

    /// The log filter: the file's, then the command line's.
    pub fn log_filter(&self) -> (r: String)
        ensures
            r@ == config_log_filter(
                filter_text(self.file.log_filter),
                args_log_filter(
                    optional_text(self.args.log_filter),
                    self.args.debug,
                    self.args.verbose,
                ),
            ),
    {
        let mut ret = String::new();
        match &self.file.log_filter {
            Some(LogFilter::One(filter)) => {
                ret.append(filter.as_str());
            },
            Some(LogFilter::Many(filters)) => {
                let all = join_texts(filters, ",");
                ret.append(all.as_str());
            },
            None => {},
        }
        assert(ret@ =~= filter_text(self.file.log_filter));
        match self.args.log_filter() {
            Some(filter) => {
                ret.append(",");
                ret.append(filter.as_str());
            },
            None => {},
        }
        if ret.as_str().is_empty() {
            ret.append(DEFAULT_FILTER);
        }
        ret
    }

    /// Tells whether the flake's inputs are to be updated: the command line
    /// or the file asks for it.
    pub fn update(&self) -> (r: bool)
        ensures
            r == (self.args.update || is_set(self.file.update)),
    {
        if self.args.update {
            return true;
        }
        match self.file.update {
            Some(update) => update,
            None => false,
        }
    }

    /// Tells whether a path flake is to be forced: the command line or the
    /// file asks for it.
    pub fn use_path_flake(&self) -> (r: bool)
        ensures
            r == (self.args.use_path_flake || is_set(self.file.use_path_flake)),
    {
        self.args.use_path_flake || match self.file.use_path_flake {
            Some(switch) => switch,
            None => false,
        }
    }

    /// Where the flake comes from.
    pub fn flake_source(&self) -> (r: Result<FlakeSource, String>)
        ensures
            source_model(r) == flake_source_of(
                optional_text(self.args.flake),
                optional_text(self.file.flake),
                files_in(config_dirs_of(self.project_paths@), "flake.nix"@),
                optional_text(self.path),
            ),
    {
        match &self.args.flake {
            Some(name) => {
                return Ok(FlakeSource::Named(name.clone()));
            },
            None => {},
        }
        match &self.file.flake {
            Some(name) => {
                return Ok(FlakeSource::Named(name.clone()));
            },
            None => {},
        }
        let mut paths = self.project_paths.flake_paths();
        match &self.path {
            Some(path) => match path_parent(path.as_str()) {
                Some(dir) => {
                    let ghost usual = texts(paths@);
                    paths.push(dir);
                    assert(texts(paths@) =~= usual.push(dir@));
                },
                None => {
                    let mut message = String::from_str(
                        "Configuration file has no parent directory: ",
                    );
                    message.append(path.as_str());
                    return Err(message);
                },
            },
            None => {},
        }
        Ok(FlakeSource::Search(paths))
    }

    /// What is said where none of the flake files exists.
    pub fn flake_not_found_message(paths: &Vec<String>) -> (r: String)
        ensures
            r@ == flake_not_found(texts(paths@)),
    {
        let mut message = String::from_str(
            "Unable to find home-mangler `flake.nix`. I looked in these paths:\n",
        );
        let list = format_bulleted_list(paths.as_slice());
        message.append(list.as_str());
        message
    }

    /// The flake of the configuration, from the flake that its source
    /// stands for.
    pub fn flake(&self, unconfigured: Flake) -> (r: Flake)
        ensures
            r@ == with_use_path_flake(
                unconfigured@,
                self.args.use_path_flake || is_set(self.file.use_path_flake),
            ),
    {
        unconfigured.set_use_path_flake(self.use_path_flake())
    }

    /// The hostname: the one given on the command line, else the system's.
    pub fn hostname(&self, system: Result<String, String>) -> (r: Result<String, String>)
        ensures
            hostname_model(r) == hostname_of(
                optional_text(self.args.hostname),
                hostname_model(system),
            ),
    {
        match &self.args.hostname {
            Some(hostname) => Ok(hostname.clone()),
            None => match system {
                Ok(hostname) => Ok(hostname),
                Err(lossy) => {
                    let mut message = String::from_str("Hostname is not UTF-8: ");
                    message.append(lossy.as_str());
                    Err(message)
                },
            },
        }
    }

    /// The package manager with the profile of the configuration: the
    /// command line's, else the file's.
    pub fn nix(&self, nix: Nix) -> (r: Nix)
        ensures
            r@ == (NixModel {
                program: nix@.program,
                profile: if self.args.profile is Some {
                    optional_text(self.args.profile)
                } else {
                    optional_text(self.file.profile)
                },
            }),
    {
        let profile = match &self.args.profile {
            Some(profile) => Some(profile.clone()),
            None => copy_optional(&self.file.profile),
        };
        nix.with_profile(profile)
    }
}

} // verus!
