//! Where the configuration is looked for.

use vstd::prelude::*;
use crate::absolute::joined_path;
use crate::absolute::path_join;
use crate::text::texts;

verus! {

/// The model of a [`ProjectPaths`].
pub struct ProjectPathsModel {
    pub project_config_dir: Seq<char>,
    pub config_dir: Seq<char>,
    pub home_dir: Seq<char>,
}

/// The directories of the user that the configuration may lie in: the
/// configuration directory of this program, the configuration directory of
/// the user, and the home directory.
#[derive(Debug)]
pub struct ProjectPaths {
    project_config_dir: String,
    config_dir: String,
    home_dir: String,
}

impl View for ProjectPaths {
    type V = ProjectPathsModel;

    closed spec fn view(&self) -> ProjectPathsModel {
        ProjectPathsModel {
            project_config_dir: self.project_config_dir@,
            config_dir: self.config_dir@,
            home_dir: self.home_dir@,
        }
    }
}

/// The directories to look in, the first that counts first: the program's
/// own, then the program's name below the user's configuration directory,
/// then below `.config` in the home directory.
pub open spec fn config_dirs_of(paths: ProjectPathsModel) -> Seq<Seq<char>> {
    seq![
        paths.project_config_dir,
        joined_path(paths.config_dir, "home-mangler"@),
        joined_path(joined_path(paths.home_dir, ".config"@), "home-mangler"@),
    ]
}

/// The file of the given name in each of the directories.
pub open spec fn files_in(dirs: Seq<Seq<char>>, name: Seq<char>) -> Seq<Seq<char>> {
    Seq::new(dirs.len(), |i: int| joined_path(dirs[i], name))
}

impl ProjectPaths {
    /// The paths for the given directories.
    pub fn new(project_config_dir: String, config_dir: String, home_dir: String) -> (r: Self)
        ensures
            r@ == (ProjectPathsModel {
                project_config_dir: project_config_dir@,
                config_dir: config_dir@,
                home_dir: home_dir@,
            }),
    {
        ProjectPaths { project_config_dir, config_dir, home_dir }
    }

    /// The directories in which the configuration is looked for.
    pub fn config_dirs(&self) -> (r: Vec<String>)
        ensures
            texts(r@) == config_dirs_of(self@),
    {
        let mut ret: Vec<String> = Vec::new();
        ret.push(self.project_config_dir.clone());
        ret.push(path_join(self.config_dir.as_str(), "home-mangler"));
        let home = path_join(self.home_dir.as_str(), ".config");
        ret.push(path_join(home.as_str(), "home-mangler"));
        assert(texts(ret@) =~= config_dirs_of(self@));
        ret
    }

    /// The configuration file in each of the directories.
    pub fn config_paths(&self) -> (r: Vec<String>)
        ensures
            texts(r@) == files_in(config_dirs_of(self@), "config.toml"@),
    {
        let dirs = self.config_dirs();
        files_of(&dirs, "config.toml")
    }

    /// The flake file in each of the directories.
    pub fn flake_paths(&self) -> (r: Vec<String>)
        ensures
            texts(r@) == files_in(config_dirs_of(self@), "flake.nix"@),
    {
        let dirs = self.config_dirs();
        files_of(&dirs, "flake.nix")
    }
}

/// The file of the given name in each of the directories.
fn files_of(dirs: &Vec<String>, name: &str) -> (r: Vec<String>)
    ensures
        texts(r@) == files_in(texts(dirs@), name@),
{
    let mut ret: Vec<String> = Vec::new();
    let mut i: usize = 0;
    while i < dirs.len()
        invariant
            0 <= i <= dirs.len(),
            ret@.len() == i,
            forall|j: int| 0 <= j < i ==> ret@[j]@ == joined_path(dirs@[j]@, name@),
        decreases dirs.len() - i,
    {
        ret.push(path_join(dirs[i].as_str(), name));
        i = i + 1;
    }
    assert(texts(ret@) =~= files_in(texts(dirs@), name@));
    ret
}

} // verus!
