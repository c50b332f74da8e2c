//! The options of the command line, as plain values.

use vstd::prelude::*;
use vstd::string::StringExecFns;
use crate::directories::config_dirs_of;
use crate::directories::files_in;
use crate::directories::ProjectPaths;
use crate::text::optional_text;
use crate::text::texts;

verus! {

/// The options of the command line.
#[derive(Debug)]
pub struct Args {
    /// Tracing log filter.
    pub log_filter: Option<String>,
    /// Stands for a log filter of `trace`.
    pub debug: bool,
    /// Stands for a log filter of `debug`.
    pub verbose: bool,
    /// Path to the configuration file to use.
    pub config: Option<String>,
    /// Force a path flake where no flake is given.
    pub use_path_flake: bool,
    /// Flake that holds the configuration.
    pub flake: Option<String>,
    /// Update the flake's inputs before building.
    pub update: bool,
    /// Profile to use for profile operations.
    pub profile: Option<String>,
    /// The hostname to build the configuration for.
    pub hostname: Option<String>,
}

/// What the two switches add to the log filter: `debug` goes before
/// `verbose`.
pub open spec fn filter_suffix(debug: bool, verbose: bool) -> Seq<char> {
    if debug {
        ",trace"@
    } else if verbose {
        ",debug"@
    } else {
        Seq::empty()
    }
}

/// The log filter that the options ask for: the filter given, then what the
/// switches add; nothing where that is empty.
pub open spec fn args_log_filter(filter: Option<Seq<char>>, debug: bool, verbose: bool) -> Option<
    Seq<char>,
> {
    let given = match filter {
        Some(f) => f,
        None => Seq::empty(),
    };
    let text = given + filter_suffix(debug, verbose);
    if text.len() == 0 {
        None
    } else {
        Some(text)
    }
}

impl Args {
    /// The paths at which the configuration file is looked for: the one
    /// given, or else the usual ones.
    pub fn config_paths(&self, project_paths: &ProjectPaths) -> (r: Vec<String>)
        ensures
            texts(r@) == (match optional_text(self.config) {
                Some(path) => seq![path],
                None => files_in(config_dirs_of(project_paths@), "config.toml"@),
            }),
    {
        match &self.config {
            Some(path) => {
                let mut ret: Vec<String> = Vec::new();
                ret.push(path.clone());
                assert(texts(ret@) =~= seq![path@]);
                ret
            },
            None => project_paths.config_paths(),
        }
    }

    /// The log filter that the options ask for.
    pub fn log_filter(&self) -> (r: Option<String>)
        ensures
            optional_text(r) == args_log_filter(
                optional_text(self.log_filter),
                self.debug,
                self.verbose,
            ),
    {
        let mut ret = String::new();
        match &self.log_filter {
            Some(filter) => {
                ret.append(filter.as_str());
            },
            None => {},
        }
        if self.debug {
            ret.append(",trace");
        } else if self.verbose {
            ret.append(",debug");
        }
        proof {
            let given = match optional_text(self.log_filter) {
                Some(f) => f,
                None => Seq::empty(),
            };
            assert(ret@ =~= given + filter_suffix(self.debug, self.verbose));
        }
        if ret.as_str().is_empty() {
            None
        } else {
            Some(ret)
        }
    }
}

} // verus!
