//! The package manager: its command lines, and what it says of a profile.

use vstd::prelude::*;
use vstd::string::StringExecFns;
use crate::flake::flake_text;
use crate::flake::Flake;
use crate::symlink::LinkProbe;
use crate::symlink::ProbeModel;
use crate::order::lemma_lex_irreflexive;
use crate::order::lemma_lex_transitive;
use crate::order::Order;
use crate::text::char_order;
use crate::text::decimal;
use crate::text::lemma_char_order_strict;
use crate::text::text_compare;
use crate::text::text_less;
use crate::text::decimal_of;
use crate::text::first_occurrences;
use crate::text::first_texts;
use crate::text::is_text;
use crate::text::optional_text;
use crate::text::push_text;
use crate::text::push_texts;
use crate::text::remove_texts;
use crate::text::text_equal;
use crate::text::texts;
use crate::text::without;

verus! {

/// The model of a [`CommandLine`].
pub struct CommandLineModel {
    pub program: Seq<char>,
    pub args: Seq<Seq<char>>,
}

/// A command to run: the program and its arguments.
#[derive(Debug)]
pub struct CommandLine {
    pub program: String,
    pub args: Vec<String>,
}

impl View for CommandLine {
    type V = CommandLineModel;

    open spec fn view(&self) -> CommandLineModel {
        CommandLineModel { program: self.program@, args: texts(self.args@) }
    }
}

/// The model of a [`Nix`].
pub struct NixModel {
    pub program: Seq<char>,
    pub profile: Option<Seq<char>>,
}

/// The package manager: the path of its program, and the profile to work
/// on where it is not the user's own.
#[derive(Debug)]
pub struct Nix {
    program: String,
    profile: Option<String>,
}

impl View for Nix {
    type V = NixModel;

    closed spec fn view(&self) -> NixModel {
        NixModel { program: self.program@, profile: optional_text(self.profile) }
    }
}

/// The views of a list of string slices.
pub open spec fn words(list: Seq<&str>) -> Seq<Seq<char>> {
    Seq::new(list.len(), |i: int| list[i]@)
}

/// The arguments of every command: the features that the commands need,
/// the subcommand, and for an operation on a profile the profile, where one
/// is set.
pub open spec fn nix_args(profile: Option<Seq<char>>, subcommand: Seq<Seq<char>>) -> Seq<
    Seq<char>,
> {
    let base = seq!["--extra-experimental-features"@, "nix-command flakes"@] + subcommand;
    if subcommand.len() == 2 && subcommand[0] == "profile"@ && profile is Some {
        base + seq!["--profile"@, profile->0]
    } else {
        base
    }
}

/// The program that was found, or where it is a link what the link leads
/// to, by one hop.
pub open spec fn nix_found(found: Seq<char>, link: ProbeModel) -> Result<NixModel, Seq<char>> {
    match link {
        ProbeModel::NotLink => Ok(NixModel { program: found, profile: None }),
        ProbeModel::Link { target } => Ok(NixModel { program: target, profile: None }),
        ProbeModel::Failed { cause } => Err(
            "Failed to read `nix` symlink: "@ + found + ": "@ + cause,
        ),
    }
}

/// The view of a package manager that may not have been found.
pub open spec fn found_model(r: Result<Nix, String>) -> Result<NixModel, Seq<char>> {
    match r {
        Ok(nix) => Ok(nix@),
        Err(message) => Err(message@),
    }
}

impl Clone for Nix {
    fn clone(&self) -> (r: Self)
        ensures
            r@ == self@,
    {
        let profile = match &self.profile {
            Some(profile) => Some(profile.clone()),
            None => None,
        };
        Nix { program: self.program.clone(), profile }
    }
}

impl Nix {
    /// The package manager at the path at which its program was found.
    pub fn new(found: String, link: LinkProbe) -> (r: Result<Nix, String>)
        ensures
            found_model(r) == nix_found(found@, link@),
    {
        match link {
            LinkProbe::NotLink => Ok(Nix { program: found, profile: None }),
            LinkProbe::Link { target } => Ok(Nix { program: target, profile: None }),
            LinkProbe::Failed { cause } => {
                let mut message = String::from_str("Failed to read `nix` symlink: ");
                message.append(found.as_str());
                message.append(": ");
                message.append(cause.as_str());
                Err(message)
            },
        }
    }

    /// The package manager with the given profile.
    pub fn with_profile(self, profile: Option<String>) -> (r: Nix)
        ensures
            r@ == (NixModel { program: self@.program, profile: optional_text(profile) }),
    {
        Nix { program: self.program, profile }
    }

    /// The command line of a subcommand.
    pub fn command(&self, subcommand: &[&str]) -> (r: CommandLine)
        ensures
            r@ == (CommandLineModel {
                program: self@.program,
                args: nix_args(self@.profile, words(subcommand@)),
            }),
    {
        let mut args: Vec<String> = Vec::new();
        push_text(&mut args, "--extra-experimental-features");
        push_text(&mut args, "nix-command flakes");
        let ghost base = texts(args@);
        assert(base =~= seq!["--extra-experimental-features"@, "nix-command flakes"@]);
        let mut i: usize = 0;
        while i < subcommand.len()
            invariant
                0 <= i <= subcommand@.len(),
                texts(args@) == base + words(subcommand@).take(i as int),
            decreases subcommand@.len() - i,
        {
            push_text(&mut args, subcommand[i]);
            assert(texts(args@) =~= base + words(subcommand@).take(i + 1));
            i = i + 1;
        }
        assert(words(subcommand@).take(i as int) =~= words(subcommand@));
        if subcommand.len() == 2 && text_equal(subcommand[0], "profile") {
            match &self.profile {
                Some(profile) => {
                    let ghost before = texts(args@);
                    push_text(&mut args, "--profile");
                    push_text(&mut args, profile.as_str());
                    assert(texts(args@) =~= before + seq!["--profile"@, profile@]);
                },
                None => {},
            }
        }
        CommandLine { program: self.program.clone(), args }
    }

    /// The command line of a subcommand with further arguments.
    pub fn command_with(&self, subcommand: &[&str], rest: &Vec<String>) -> (r: CommandLine)
        ensures
            r@ == (CommandLineModel {
                program: self@.program,
                args: nix_args(self@.profile, words(subcommand@)) + texts(rest@),
            }),
    {
        let line = self.command(subcommand);
        let mut args = line.args;
        push_texts(&mut args, rest);
        CommandLine { program: line.program, args }
    }

    /// The command that asks for the metadata of a flake.
    pub fn flake_metadata(&self, flake: &Flake) -> (r: CommandLine)
        ensures
            r@ == (CommandLineModel {
                program: self@.program,
                args: nix_args(self@.profile, seq!["flake"@, "metadata"@]) + seq![
                    "--json"@,
                    flake_text(flake@),
                ],
            }),
    {
        let subcommand = ["flake", "metadata"];
        let mut rest: Vec<String> = Vec::new();
        push_text(&mut rest, "--json");
        push_text(&mut rest, flake.to_text().as_str());
        assert(texts(rest@) =~= seq!["--json"@, flake_text(flake@)]);
        assert(words(subcommand@) =~= seq!["flake"@, "metadata"@]);
        self.command_with(subcommand.as_slice(), &rest)
    }

    /// The command that updates the lock file of a flake.
    pub fn flake_update(&self, flake: &Flake) -> (r: CommandLine)
        ensures
            r@ == (CommandLineModel {
                program: self@.program,
                args: nix_args(self@.profile, seq!["flake"@, "update"@, "--flake"@]) + seq![
                    flake_text(flake@),
                ],
            }),
    {
        let subcommand = ["flake", "update", "--flake"];
        let mut rest: Vec<String> = Vec::new();
        push_text(&mut rest, flake.to_text().as_str());
        assert(texts(rest@) =~= seq![flake_text(flake@)]);
        assert(words(subcommand@) =~= seq!["flake"@, "update"@, "--flake"@]);
        self.command_with(subcommand.as_slice(), &rest)
    }

    /// The command that builds an installable and prints its out paths.
    pub fn build(&self, installable: &str) -> (r: CommandLine)
        ensures
            r@ == (CommandLineModel {
                program: self@.program,
                args: nix_args(self@.profile, seq!["build"@]) + seq![
                    "--print-build-logs"@,
                    "--no-link"@,
                    "--print-out-paths"@,
                    installable@,
                ],
            }),
    {
        let subcommand = ["build"];
        let mut rest: Vec<String> = Vec::new();
        push_text(&mut rest, "--print-build-logs");
        push_text(&mut rest, "--no-link");
        push_text(&mut rest, "--print-out-paths");
        push_text(&mut rest, installable);
        assert(texts(rest@) =~= seq![
            "--print-build-logs"@,
            "--no-link"@,
            "--print-out-paths"@,
            installable@,
        ]);
        assert(words(subcommand@) =~= seq!["build"@]);
        self.command_with(subcommand.as_slice(), &rest)
    }

    /// The command that lists what a profile holds.
    pub fn profile_list(&self) -> (r: CommandLine)
        ensures
            r@ == (CommandLineModel {
                program: self@.program,
                args: nix_args(self@.profile, seq!["profile"@, "list"@]) + seq!["--json"@],
            }),
    {
        let subcommand = ["profile", "list"];
        let mut rest: Vec<String> = Vec::new();
        push_text(&mut rest, "--json");
        assert(texts(rest@) =~= seq!["--json"@]);
        assert(words(subcommand@) =~= seq!["profile"@, "list"@]);
        self.command_with(subcommand.as_slice(), &rest)
    }

    /// The command that installs an installable into the profile.
    pub fn profile_install(&self, installable: &str) -> (r: CommandLine)
        ensures
            r@ == (CommandLineModel {
                program: self@.program,
                args: nix_args(self@.profile, seq!["profile"@, "install"@]) + seq![
                    "--print-build-logs"@,
                    installable@,
                ],
            }),
    {
        let subcommand = ["profile", "install"];
        let mut rest: Vec<String> = Vec::new();
        push_text(&mut rest, "--print-build-logs");
        push_text(&mut rest, installable);
        assert(texts(rest@) =~= seq!["--print-build-logs"@, installable@]);
        assert(words(subcommand@) =~= seq!["profile"@, "install"@]);
        self.command_with(subcommand.as_slice(), &rest)
    }

    /// The command that removes elements from the profile.
    pub fn profile_remove(&self, elements: &Vec<String>) -> (r: CommandLine)
        ensures
            r@ == (CommandLineModel {
                program: self@.program,
                args: nix_args(self@.profile, seq!["profile"@, "remove"@]) + texts(elements@),
            }),
    {
        let subcommand = ["profile", "remove"];
        assert(words(subcommand@) =~= seq!["profile"@, "remove"@]);
        self.command_with(subcommand.as_slice(), elements)
    }
}

/// What the package manager says of a flake.
#[derive(Debug)]
pub struct FlakeMetadata {
    /// Source store path.
    pub path: String,
    pub original: Vec<(String, String)>,
    pub original_url: String,
    pub resolved: Vec<(String, String)>,
    pub resolved_url: String,
}

/// A flake with what the package manager says of it.
#[derive(Debug)]
pub struct ResolvedFlake {
    /// The flake as the user gave it.
    pub original: Flake,
    /// What it was resolved to.
    pub metadata: FlakeMetadata,
}

impl Nix {
    /// The flake with the metadata that was read for it.
    pub fn resolve(&self, flake: Flake, metadata: FlakeMetadata) -> (r: ResolvedFlake)
        ensures
            r.original == flake,
            r.metadata == metadata,
    {
        ResolvedFlake { original: flake, metadata }
    }
}

/// An element of a profile, as the package manager lists it.
#[derive(Debug)]
pub struct ProfileListV3Element {
    pub active: bool,
    pub priority: u16,
    pub store_paths: Vec<String>,
    pub url: Option<String>,
    pub attr_path: Option<String>,
    pub original_url: Option<String>,
    pub outputs: Option<Vec<String>>,
}

/// Each name comes before all that follow it: none occurs twice.
pub open spec fn rising(names: Seq<Seq<char>>) -> bool {
    forall|i: int, j: int| 0 <= i < j < names.len() ==> text_less(names[i], names[j])
}

/// The names of a list of named elements.
pub open spec fn names_of(named: Seq<(String, ProfileListV3Element)>) -> Seq<Seq<char>> {
    Seq::new(named.len(), |i: int| named[i].0@)
}

/// The elements of a list of named elements.
pub open spec fn unnamed(named: Seq<(String, ProfileListV3Element)>) -> Seq<
    ProfileListV3Element,
> {
    Seq::new(named.len(), |i: int| named[i].1)
}

/// The elements of a profile by their names: each name once, in rising
/// order.
#[derive(Debug)]
pub struct NamedElements {
    entries: Vec<(String, ProfileListV3Element)>,
}

impl NamedElements {
    /// The names, in their order.
    pub closed spec fn names(self) -> Seq<Seq<char>> {
        names_of(self.entries@)
    }

    /// The elements, in the order of their names.
    pub closed spec fn elements(self) -> Seq<ProfileListV3Element> {
        unnamed(self.entries@)
    }

    /// Every value of the type holds its names in rising order.
    #[verifier::type_invariant]
    pub closed spec fn wf(self) -> bool {
        rising(names_of(self.entries@))
    }

    /// What the invariant says of the names.
    pub proof fn lemma_wf(self)
        requires
            self.wf(),
        ensures
            rising(self.names()),
            self.names().len() == self.elements().len(),
            self.names().no_duplicates(),
    {
        let names = self.names();
        assert forall|i: int, j: int|
            0 <= i < names.len() && 0 <= j < names.len() && i != j implies names[i]
            != names[j] by {
            lemma_char_order_strict();
            lemma_lex_irreflexive(names[i], char_order());
            if i < j {
                assert(text_less(names[i], names[j]));
            } else {
                assert(text_less(names[j], names[i]));
            }
        }
    }

    /// The elements with the given names, where the names rise: `None`
    /// where a name occurs twice or comes before an earlier one.
    pub fn new(entries: Vec<(String, ProfileListV3Element)>) -> (r: Option<NamedElements>)
        ensures
            r is Some <==> rising(names_of(entries@)),
            r matches Some(named) ==> named.names() == names_of(entries@) && named.elements()
                == unnamed(entries@) && named.wf(),
    {
        let ghost names = names_of(entries@);
        let mut i: usize = 1;
        while i < entries.len()
            invariant
                1 <= i,
                names == names_of(entries@),
                entries.len() > 0 ==> i <= entries.len(),
                forall|a: int, b: int| 0 <= a < b < i && b < names.len() ==> text_less(
                    names[a],
                    names[b],
                ),
            decreases entries.len() - i,
        {
            match text_compare(entries[i - 1].0.as_str(), entries[i].0.as_str()) {
                Order::Less => {
                    proof {
                        assert forall|a: int| 0 <= a < i implies text_less(
                            names[a],
                            names[i as int],
                        ) by {
                            if a < i - 1 {
                                assert(text_less(names[a], names[i - 1]));
                                lemma_char_order_strict();
                                lemma_lex_transitive(
                                    names[a],
                                    names[i - 1],
                                    names[i as int],
                                    char_order(),
                                );
                            }
                        }
                    }
                },
                _ => {
                    proof {
                        lemma_char_order_strict();
                        lemma_lex_irreflexive(names[i as int], char_order());
                        if text_less(names[i - 1], names[i as int]) && text_less(
                            names[i as int],
                            names[i - 1],
                        ) {
                            lemma_lex_transitive(
                                names[i - 1],
                                names[i as int],
                                names[i - 1],
                                char_order(),
                            );
                        }
                    }
                    return None;
                },
            }
            i = i + 1;
        }
        Some(NamedElements { entries })
    }

    /// The number of elements.
    pub fn len(&self) -> (r: usize)
        ensures
            r == self.names().len(),
            r == self.elements().len(),
    {
        self.entries.len()
    }

    /// The name and the element at a position.
    pub fn get(&self, i: usize) -> (r: Option<(&str, &ProfileListV3Element)>)
        ensures
            r is Some <==> i < self.names().len(),
            r matches Some(e) ==> e.0@ == self.names()[i as int] && *e.1
                == self.elements()[i as int],
    {
        if i < self.entries.len() {
            let e = &self.entries[i];
            Some((e.0.as_str(), &e.1))
        } else {
            None
        }
    }
}

/// What a profile holds. The first two versions of the listing give the
/// elements in a row, and an element goes by its position; the third gives
/// each its name, and the elements come in the order of the names.
#[derive(Debug)]
pub enum ProfileList {
    V2(Vec<ProfileListV3Element>),
    V3(NamedElements),
}

/// The elements of a profile, in their order.
pub open spec fn elements_of(list: ProfileList) -> Seq<ProfileListV3Element> {
    match list {
        ProfileList::V2(elements) => elements@,
        ProfileList::V3(named) => named.elements(),
    }
}

/// What the elements of a profile go by when they are removed: the position
/// in decimal digits, or the name.
pub open spec fn element_names(list: ProfileList) -> Seq<Seq<char>> {
    match list {
        ProfileList::V2(elements) => Seq::new(elements@.len(), |i: int| decimal_of(i as nat)),
        ProfileList::V3(named) => named.names(),
    }
}

/// The store paths of the first `n` elements, one element after the other.
pub open spec fn store_paths_upto(elements: Seq<ProfileListV3Element>, n: int) -> Seq<Seq<char>>
    decreases n,
{
    if n <= 0 {
        Seq::empty()
    } else {
        store_paths_upto(elements, n - 1) + texts(elements[n - 1].store_paths@)
    }
}

/// The element was installed from the given attribute of the given flake.
pub open spec fn installed_from(
    element: ProfileListV3Element,
    original_url: Seq<char>,
    attr_path: Seq<char>,
) -> bool {
    optional_text(element.attr_path) == Some(attr_path) && optional_text(element.original_url)
        == Some(original_url)
}

/// The names of those of the first `n` elements that were installed from
/// the given attribute of the given flake.
pub open spec fn old_names_upto(
    names: Seq<Seq<char>>,
    elements: Seq<ProfileListV3Element>,
    original_url: Seq<char>,
    attr_path: Seq<char>,
    n: int,
) -> Seq<Seq<char>>
    decreases n,
{
    if n <= 0 {
        Seq::empty()
    } else {
        let rest = old_names_upto(names, elements, original_url, attr_path, n - 1);
        if installed_from(elements[n - 1], original_url, attr_path) {
            rest.push(names[n - 1])
        } else {
            rest
        }
    }
}

/// The store paths of those of the first `n` elements that were installed
/// from the given attribute of the given flake.
pub open spec fn old_paths_upto(
    elements: Seq<ProfileListV3Element>,
    original_url: Seq<char>,
    attr_path: Seq<char>,
    n: int,
) -> Seq<Seq<char>>
    decreases n,
{
    if n <= 0 {
        Seq::empty()
    } else {
        let rest = old_paths_upto(elements, original_url, attr_path, n - 1);
        if installed_from(elements[n - 1], original_url, attr_path) {
            rest + texts(elements[n - 1].store_paths@)
        } else {
            rest
        }
    }
}

/// The model of an [`OldPackages`].
pub struct OldPackagesModel {
    pub elements: Seq<Seq<char>>,
    pub paths: Seq<Seq<char>>,
}

/// The elements of a profile that an earlier run installed: what they go
/// by, and their store paths, none twice.
#[derive(Debug)]
pub struct OldPackages {
    pub elements: Vec<String>,
    pub paths: Vec<String>,
}

impl View for OldPackages {
    type V = OldPackagesModel;

    open spec fn view(&self) -> OldPackagesModel {
        OldPackagesModel { elements: texts(self.elements@), paths: texts(self.paths@) }
    }
}

/// The elements that were installed from the given attribute of the given
/// flake.
pub open spec fn old_packages_of(
    list: ProfileList,
    original_url: Seq<char>,
    attr_path: Seq<char>,
) -> OldPackagesModel {
    let elements = elements_of(list);
    OldPackagesModel {
        elements: old_names_upto(
            element_names(list),
            elements,
            original_url,
            attr_path,
            elements.len() as int,
        ),
        paths: first_occurrences(
            old_paths_upto(elements, original_url, attr_path, elements.len() as int),
        ),
    }
}

/// The store paths that a profile lacks: those of `out_paths` that none of
/// its elements has, in their order.
pub open spec fn missing_paths_of(list: ProfileList, out_paths: Seq<Seq<char>>) -> Seq<Seq<char>> {
    without(
        out_paths,
        store_paths_upto(elements_of(list), elements_of(list).len() as int).to_set(),
    )
}

/// The layout of a listing.
#[derive(Clone, Copy, Debug, PartialEq, Eq, Structural)]
pub enum ProfileListFormat {
    V2,
    V3,
}

/// What is said of a listing in a version that is not known.
pub open spec fn unknown_version(version: u8) -> Seq<char> {
    "Unknown `nix profile list --json` output version "@ + decimal_of(version as nat)
        + "; I only know how to interpret output for versions 1 through 3"@
}

/// The layout of a listing in the given version: the first two versions
/// share one.
pub open spec fn format_of(version: u8) -> Result<ProfileListFormat, Seq<char>> {
    if 1 <= version <= 2 {
        Ok(ProfileListFormat::V2)
    } else if version == 3 {
        Ok(ProfileListFormat::V3)
    } else {
        Err(unknown_version(version))
    }
}

/// The view of a layout that may be unknown.
pub open spec fn format_model(r: Result<ProfileListFormat, String>) -> Result<
    ProfileListFormat,
    Seq<char>,
> {
    match r {
        Ok(format) => Ok(format),
        Err(message) => Err(message@),
    }
}

/// The layout of a listing in the given version.
pub fn profile_list_format(version: u8) -> (r: Result<ProfileListFormat, String>)
    ensures
        format_model(r) == format_of(version),
{
    if 1 <= version && version <= 2 {
        Ok(ProfileListFormat::V2)
    } else if version == 3 {
        Ok(ProfileListFormat::V3)
    } else {
        let mut message = String::from_str("Unknown `nix profile list --json` output version ");
        let digits = decimal(version as usize);
        message.append(digits.as_str());
        message.append("; I only know how to interpret output for versions 1 through 3");
        Err(message)
    }
}

impl ProfileList {
    /// The number of elements.
    pub fn len(&self) -> (r: usize)
        ensures
            r == elements_of(*self).len(),
            r == element_names(*self).len(),
    {
        match self {
            ProfileList::V2(elements) => elements.len(),
            ProfileList::V3(named) => named.len(),
        }
    }

    /// The element at a position.
    pub fn element(&self, i: usize) -> (r: Option<&ProfileListV3Element>)
        ensures
            r is Some <==> i < elements_of(*self).len(),
            r matches Some(e) ==> *e == elements_of(*self)[i as int],
    {
        match self {
            ProfileList::V2(elements) => if i < elements.len() {
                Some(&elements[i])
            } else {
                None
            },
            ProfileList::V3(named) => match named.get(i) {
                Some((_, element)) => Some(element),
                None => None,
            },
        }
    }

    /// What the element at a position goes by.
    pub fn element_name(&self, i: usize) -> (r: Option<String>)
        ensures
            r is Some <==> i < element_names(*self).len(),
            r matches Some(name) ==> name@ == element_names(*self)[i as int],
    {
        match self {
            ProfileList::V2(elements) => if i < elements.len() {
                Some(decimal(i))
            } else {
                None
            },
            ProfileList::V3(named) => match named.get(i) {
                Some((name, _)) => Some(name.to_owned()),
                None => None,
            },
        }
    }

    /// Every store path of the profile, one element after the other.
    pub fn store_paths(&self) -> (r: Vec<String>)
        ensures
            texts(r@) == store_paths_upto(elements_of(*self), elements_of(*self).len() as int),
    {
        let mut out: Vec<String> = Vec::new();
        let mut i: usize = 0;
        let n = self.len();
        assert(texts(out@) =~= Seq::<Seq<char>>::empty());
        while i < n
            invariant
                n == elements_of(*self).len(),
                0 <= i <= n,
                texts(out@) == store_paths_upto(elements_of(*self), i as int),
            decreases n - i,
        {
            match self.element(i) {
                Some(element) => {
                    push_texts(&mut out, &element.store_paths);
                },
                None => {},
            }
            i = i + 1;
        }
        out
    }

    /// Finds the store paths that are not installed in the profile.
    pub fn missing_paths(&self, out_paths: &Vec<String>) -> (r: Vec<String>)
        ensures
            texts(r@) == missing_paths_of(*self, texts(out_paths@)),
    {
        let installed = self.store_paths();
        remove_texts(out_paths, &installed)
    }

    /// Finds the elements that were installed from the given attribute of
    /// the given flake: they give way to what is installed anew.
    pub fn remove_old_packages(&self, original_url: &str, attr_path: &str) -> (r: OldPackages)
        ensures
            r@ == old_packages_of(*self, original_url@, attr_path@),
    {
        let mut elements: Vec<String> = Vec::new();
        let mut paths: Vec<String> = Vec::new();
        let mut i: usize = 0;
        let n = self.len();
        proof {
            assert(texts(elements@) =~= Seq::<Seq<char>>::empty());
            assert(texts(paths@) =~= Seq::<Seq<char>>::empty());
        }
        while i < n
            invariant
                n == elements_of(*self).len(),
                n == element_names(*self).len(),
                0 <= i <= n,
                texts(elements@) == old_names_upto(
                    element_names(*self),
                    elements_of(*self),
                    original_url@,
                    attr_path@,
                    i as int,
                ),
                texts(paths@) == old_paths_upto(
                    elements_of(*self),
                    original_url@,
                    attr_path@,
                    i as int,
                ),
            decreases n - i,
        {
            match (self.element(i), self.element_name(i)) {
                (Some(element), Some(name)) => {
                    if is_text(&element.attr_path, attr_path) && is_text(
                        &element.original_url,
                        original_url,
                    ) {
                        let ghost before = texts(elements@);
                        push_text(&mut elements, name.as_str());
                        push_texts(&mut paths, &element.store_paths);
                    }
                },
                _ => {},
            }
            i = i + 1;
        }
        OldPackages { elements, paths: first_texts(&paths) }
    }
}

} // verus!
