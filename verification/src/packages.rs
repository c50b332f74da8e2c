//! What a run has to do to the profile.

use vstd::prelude::*;
use vstd::string::StringExecFns;
use vstd::string::StrSliceExecFns;
use crate::flake::flake_text;
use crate::flake::Flake;
use crate::nix::missing_paths_of;
use crate::nix::nix_args;
use crate::nix::CommandLine;
use crate::nix::CommandLineModel;
use crate::nix::Nix;
use crate::nix::NixModel;
use crate::nix::OldPackages;
use crate::nix::OldPackagesModel;
use crate::nix::old_packages_of;
use crate::nix::ProfileList;
use crate::text::lemma_split_not_empty;
use crate::text::split_at;
use crate::text::split_text;
use crate::text::first_occurrences;
use crate::text::first_texts;
use crate::text::remove_texts;
use crate::text::texts;
use crate::text::without;

verus! {

/// The attribute of a flake that holds an output for a host.
pub open spec fn flake_attr_of(hostname: Seq<char>, output: Seq<char>) -> Seq<char> {
    "home-mangler."@ + hostname + "."@ + output
}

/// An attribute of a flake as an installable.
pub open spec fn installable_of(flake: Seq<char>, attr: Seq<char>) -> Seq<char> {
    flake + "#"@ + attr
}

/// The attribute of a flake that holds an output for a host: the packages,
/// or the files.
pub fn flake_attr(hostname: &str, output: &str) -> (r: String)
    ensures
        r@ == flake_attr_of(hostname@, output@),
{
    let mut attr = String::from_str("home-mangler.");
    attr.append(hostname);
    attr.append(".");
    attr.append(output);
    attr
}

/// An attribute of a flake as an installable.
pub fn installable(flake: &Flake, attr: &str) -> (r: String)
    ensures
        r@ == installable_of(flake_text(flake@), attr@),
{
    let mut out = flake.to_text();
    out.append("#");
    out.append(attr);
    out
}

/// A line without the carriage return that may stand before its end.
pub open spec fn without_return(line: Seq<char>) -> Seq<char> {
    if line.len() > 0 && line.last() == '\r' {
        line.drop_last()
    } else {
        line
    }
}

/// The lines of a text. A line ends with a line feed, or with a carriage
/// return and a line feed; the last line need not end, and is no line
/// where it is empty.
pub open spec fn lines_of(text: Seq<char>) -> Seq<Seq<char>> {
    let pieces = split_at(text, '\n');
    let ended = Seq::new((pieces.len() - 1) as nat, |i: int| without_return(pieces[i]));
    if pieces.last().len() == 0 {
        ended
    } else {
        ended.push(pieces.last())
    }
}

/// A line without the carriage return that may stand before its end.
fn strip_return(line: &str) -> (r: String)
    ensures
        r@ == without_return(line@),
{
    let n = line.unicode_len();
    if n > 0 && line.get_char(n - 1) == '\r' {
        let kept = line.substring_char(0, n - 1);
        assert(kept@ =~= line@.drop_last());
        kept.to_owned()
    } else {
        line.to_owned()
    }
}

/// The lines of a text.
pub fn lines(text: &str) -> (r: Vec<String>)
    ensures
        texts(r@) == lines_of(text@),
{
    let pieces = split_text(text, '\n');
    proof {
        assert(texts(pieces@).len() == pieces@.len());
        lemma_split_not_empty(text@, '\n');
    }
    let mut out: Vec<String> = Vec::new();
    let mut i: usize = 0;
    let last = pieces.len() - 1;
    while i < last
        invariant
            last == pieces@.len() - 1,
            0 <= i <= last,
            out@.len() == i,
            forall|j: int| 0 <= j < i ==> out@[j]@ == without_return(pieces@[j]@),
        decreases last - i,
    {
        out.push(strip_return(pieces[i].as_str()));
        i = i + 1;
    }
    let ghost ended = texts(out@);
    proof {
        let all = split_at(text@, '\n');
        assert(ended =~= Seq::new((all.len() - 1) as nat, |i: int| without_return(all[i]))) by {
            assert forall|j: int| 0 <= j < ended.len() implies ended[j] == without_return(
                all[j],
            ) by {
                assert(all[j] == pieces@[j]@);
            }
        }
        assert(all.last() == pieces@[last as int]@);
    }
    if !pieces[last].as_str().is_empty() {
        out.push(pieces[last].clone());
        assert(texts(out@) =~= ended.push(pieces@[last as int]@));
    }
    out
}

/// The out paths that a build printed: one on each line, none twice.
pub fn out_paths(stdout: &str) -> (r: Vec<String>)
    ensures
        texts(r@) == first_occurrences(lines_of(stdout@)),
{
    let all = lines(stdout);
    first_texts(&all)
}

/// The model of a [`Plan`].
pub enum PlanModel {
    UpToDate,
    Install { remove: Seq<Seq<char>>, removed_paths: Seq<Seq<char>>, added_paths: Seq<Seq<char>> },
}

/// What is to be done to a profile.
#[derive(Debug)]
pub enum Plan {
    /// The profile holds every out path: nothing.
    UpToDate,
    /// Remove the elements that an earlier run installed, then install anew.
    /// The diff is taken between the store paths that leave the profile and
    /// those that enter it.
    Install { remove: Vec<String>, removed_paths: Vec<String>, added_paths: Vec<String> },
}

impl View for Plan {
    type V = PlanModel;

    open spec fn view(&self) -> PlanModel {
        match self {
            Plan::UpToDate => PlanModel::UpToDate,
            Plan::Install { remove, removed_paths, added_paths } => PlanModel::Install {
                remove: texts(remove@),
                removed_paths: texts(removed_paths@),
                added_paths: texts(added_paths@),
            },
        }
    }
}

/// What is to be done to a profile so that it holds the out paths of a
/// build. The store paths that leave are those of the elements that are
/// removed, without those that come back.
pub open spec fn plan_of(
    profile: ProfileList,
    out_paths: Seq<Seq<char>>,
    original_url: Seq<char>,
    attr_path: Seq<char>,
) -> PlanModel {
    let missing = missing_paths_of(profile, out_paths);
    if missing.len() == 0 {
        PlanModel::UpToDate
    } else {
        let old = old_packages_of(profile, original_url, attr_path);
        PlanModel::Install {
            remove: old.elements,
            removed_paths: without(old.paths, missing.to_set()),
            added_paths: missing,
        }
    }
}

/// Plans what is to be done to a profile so that it holds the out paths
/// of a build.
pub fn plan_packages(
    profile: &ProfileList,
    out_paths: &Vec<String>,
    original_url: &str,
    attr_path: &str,
) -> (r: Plan)
    ensures
        r@ == plan_of(*profile, texts(out_paths@), original_url@, attr_path@),
{
    let missing = profile.missing_paths(out_paths);
    assert(texts(missing@).len() == missing@.len());
    if missing.len() == 0 {
        Plan::UpToDate
    } else {
        let old = profile.remove_old_packages(original_url, attr_path);
        let removed_paths = remove_texts(&old.paths, &missing);
        Plan::Install { remove: old.elements, removed_paths, added_paths: missing }
    }
}

/// The view of a command line that may be missing.
pub open spec fn optional_command(r: Option<CommandLine>) -> Option<CommandLineModel> {
    match r {
        Some(line) => Some(line@),
        None => None,
    }
}

/// The command that removes the elements of an earlier run: none where
/// there is no such element, so that nothing is run for nothing.
pub open spec fn removal_of(nix: NixModel, old: OldPackagesModel) -> Option<CommandLineModel> {
    if old.elements.len() == 0 {
        None
    } else {
        Some(
            CommandLineModel {
                program: nix.program,
                args: nix_args(nix.profile, seq!["profile"@, "remove"@]) + old.elements,
            },
        )
    }
}

/// Decides whether elements are removed from the profile, and with what
/// command: the removal is run exactly where an earlier run left elements.
pub fn removal(nix: &Nix, old: &OldPackages) -> (r: Option<CommandLine>)
    ensures
        optional_command(r) == removal_of(nix@, old@),
        r is None <==> old@.elements.len() == 0,
        r matches Some(line) ==> line@ == (CommandLineModel {
            program: nix@.program,
            args: nix_args(nix@.profile, seq!["profile"@, "remove"@]) + old@.elements,
        }),
{
    assert(texts(old.elements@).len() == old.elements@.len());
    if old.elements.len() == 0 {
        None
    } else {
        Some(nix.profile_remove(&old.elements))
    }
}

} // verus!
