//! The differ: two trees, and for every relative path what became of it.

use vstd::prelude::*;
use vstd::string::StringExecFns;
use owo_colors::OwoColorize;
use owo_colors::Stream;
use crate::path::is_ancestor;
use crate::path::joined;
use crate::text::interleaved;
use crate::text::join_texts;
use crate::text::texts;
use crate::path::RelativePath;
use crate::path_map::PathMap;
use crate::state::content_of_state;
use crate::state::Identity;
use crate::state::PathInfo;
use crate::state::PathInfoModel;
use crate::state::PathState;
use crate::error::DiffError;
use crate::error::ErrorModel;
use crate::tree::tree_model;
use crate::tree::walk_model;
use crate::tree::walk_roots;
use crate::tree::walked;
use crate::tree::Walked;
use crate::tree::WalkedModel;
use crate::tree::Tree;

verus! {

/// For every relative path that a diff records, what became of it.
pub type Diff = PathMap<DiffEntry>;

/// What became of a path.
#[derive(Clone, Copy, Debug, PartialEq, Eq, Structural)]
pub enum DiffKind {
    Same,
    Removed,
    Changed,
    Added,
}

/// The model of a [`DiffEntry`].
pub enum EntryModel {
    Same,
    Added(PathInfoModel),
    Removed(PathInfoModel),
    Changed(PathInfoModel, PathInfoModel),
}

/// What became of a path, with what was there before and what is there
/// now, as far as there was or is anything.
#[derive(Debug)]
pub enum DiffEntry {
    Same,
    Added(PathInfo),
    Removed(PathInfo),
    Changed(PathInfo, PathInfo),
}

impl View for DiffEntry {
    type V = EntryModel;

    open spec fn view(&self) -> EntryModel {
        match self {
            DiffEntry::Same => EntryModel::Same,
            DiffEntry::Added(new) => EntryModel::Added(new@),
            DiffEntry::Removed(old) => EntryModel::Removed(old@),
            DiffEntry::Changed(old, new) => EntryModel::Changed(old@, new@),
        }
    }
}

impl Clone for DiffEntry {
    fn clone(&self) -> (r: Self)
        ensures
            r@ == self@,
    {
        match self {
            DiffEntry::Same => DiffEntry::Same,
            DiffEntry::Added(new) => DiffEntry::Added(new.clone()),
            DiffEntry::Removed(old) => DiffEntry::Removed(old.clone()),
            DiffEntry::Changed(old, new) => DiffEntry::Changed(old.clone(), new.clone()),
        }
    }
}

/// The kind of an entry.
pub open spec fn kind_of(e: EntryModel) -> DiffKind {
    match e {
        EntryModel::Same => DiffKind::Same,
        EntryModel::Added(_) => DiffKind::Added,
        EntryModel::Removed(_) => DiffKind::Removed,
        EntryModel::Changed(_, _) => DiffKind::Changed,
    }
}

impl DiffEntry {
    /// The kind of the entry.
    pub fn kind(&self) -> (r: DiffKind)
        ensures
            r == kind_of(self@),
    {
        match self {
            DiffEntry::Same => DiffKind::Same,
            DiffEntry::Added(_) => DiffKind::Added,
            DiffEntry::Removed(_) => DiffKind::Removed,
            DiffEntry::Changed(_, _) => DiffKind::Changed,
        }
    }
}

/// Both sides have an identity, and the same one: one object, which need
/// not be read.
pub open spec fn same_object(old: Option<Identity>, new: Option<Identity>) -> bool {
    old is Some && new is Some && old == new
}

/// What became of a path that both sides provide: `Same` or `Changed`.
/// One object is the same. Else a directory on either side is a change. Else
/// two contents are compared, by size and digest. Two links that lead to
/// no regular file are the same where their chains are; whatever else is
/// left is a change.
pub open spec fn verdict(old: PathInfoModel, new: PathInfoModel) -> DiffKind {
    if same_object(old.identity, new.identity) {
        DiffKind::Same
    } else if old.state is Directory || new.state is Directory {
        DiffKind::Changed
    } else if content_of_state(old.state) is Some && content_of_state(new.state) is Some {
        if content_of_state(old.state) == content_of_state(new.state) {
            DiffKind::Same
        } else {
            DiffKind::Changed
        }
    } else if old.state == new.state {
        DiffKind::Same
    } else {
        DiffKind::Changed
    }
}

/// Compares what two sides hold for one path.
pub fn compare(old: &PathInfo, new: &PathInfo) -> (r: DiffKind)
    ensures
        r == verdict(old@, new@),
{
    let one_object = match (old.identity, new.identity) {
        (Some(a), Some(b)) => a.dev == b.dev && a.ino == b.ino,
        _ => false,
    };
    if one_object {
        return DiffKind::Same;
    }
    if old.state.is_dir() || new.state.is_dir() {
        return DiffKind::Changed;
    }
    match (old.state.content(), new.state.content()) {
        (Some(a), Some(b)) => {
            if a.same(b) {
                DiffKind::Same
            } else {
                DiffKind::Changed
            }
        },
        (None, None) => {
            match (&old.state, &new.state) {
                (
                    PathState::Symlink { chain: a, hash: _ },
                    PathState::Symlink { chain: b, hash: _ },
                ) => {
                    if a.same(b) {
                        DiffKind::Same
                    } else {
                        DiffKind::Changed
                    }
                },
                _ => DiffKind::Changed,
            }
        },
        _ => DiffKind::Changed,
    }
}

/// What a tree holds for a path.
pub open spec fn lookup(tree: Map<Seq<Seq<char>>, PathInfoModel>, path: Seq<Seq<char>>) -> Option<
    PathInfoModel,
> {
    if tree.contains_key(path) {
        Some(tree[path])
    } else {
        None
    }
}

/// The entry of a path, from what the two sides hold for it.
pub open spec fn entry_of(old: Option<PathInfoModel>, new: Option<PathInfoModel>) -> EntryModel {
    match (old, new) {
        (Some(o), Some(n)) => if verdict(o, n) == DiffKind::Same {
            EntryModel::Same
        } else {
            EntryModel::Changed(o, n)
        },
        (Some(o), None) => EntryModel::Removed(o),
        (None, Some(n)) => EntryModel::Added(n),
        (None, None) => EntryModel::Same,
    }
}

/// A path that only one side has: removed or added with all that lies
/// below it, whether it is a directory, a link to one, or a path that an
/// earlier root provides as something else.
pub open spec fn one_sided(
    removed: Map<Seq<Seq<char>>, PathInfoModel>,
    added: Map<Seq<Seq<char>>, PathInfoModel>,
    path: Seq<Seq<char>>,
) -> bool {
    removed.contains_key(path) != added.contains_key(path)
}

/// The path lies below a path that was removed or added as a whole: what
/// became of it is implied, and it is not recorded.
pub open spec fn covered(
    removed: Map<Seq<Seq<char>>, PathInfoModel>,
    added: Map<Seq<Seq<char>>, PathInfoModel>,
    path: Seq<Seq<char>>,
) -> bool {
    exists|dir: Seq<Seq<char>>| is_ancestor(dir, path) && one_sided(removed, added, dir)
}

/// The diff records the path: a side provides it, and no path above it was
/// removed or added as a whole.
pub open spec fn recorded(
    removed: Map<Seq<Seq<char>>, PathInfoModel>,
    added: Map<Seq<Seq<char>>, PathInfoModel>,
    path: Seq<Seq<char>>,
) -> bool {
    (removed.contains_key(path) || added.contains_key(path)) && !covered(removed, added, path)
}

/// The diff of two trees.
pub open spec fn diff_of(
    removed: Map<Seq<Seq<char>>, PathInfoModel>,
    added: Map<Seq<Seq<char>>, PathInfoModel>,
) -> Map<Seq<Seq<char>>, EntryModel> {
    Map::new(
        |path: Seq<Seq<char>>| recorded(removed, added, path),
        |path: Seq<Seq<char>>| entry_of(lookup(removed, path), lookup(added, path)),
    )
}

/// The models of the entries of a diff.
pub open spec fn diff_model(diff: Map<Seq<Seq<char>>, DiffEntry>) -> Map<
    Seq<Seq<char>>,
    EntryModel,
> {
    Map::new(|path: Seq<Seq<char>>| diff.contains_key(path), |path: Seq<Seq<char>>| diff[path]@)
}

/// Tells whether only one side has the path.
pub fn is_one_sided(removed: &Tree, added: &Tree, path: &RelativePath) -> (r: bool)
    ensures
        r == one_sided(tree_model(removed@), tree_model(added@), path@),
{
    removed.contains(path) != added.contains(path)
}

/// Tells whether the path lies below a path that only one side has.
pub fn is_covered(removed: &Tree, added: &Tree, path: &RelativePath) -> (r: bool)
    ensures
        r == covered(tree_model(removed@), tree_model(added@), path@),
{
    let mut dir = path.parent();
    loop
        invariant
            dir matches Some(d) ==> is_ancestor(d@, path@) && d.wf(),
            forall|q: Seq<Seq<char>>|
                is_ancestor(q, path@) && (dir matches Some(d) ==> q.len() > d@.len())
                    ==> !one_sided(tree_model(removed@), tree_model(added@), q),
        decreases
            (match dir {
                Some(d) => d@.len(),
                None => 0,
            }),
    {
        match dir {
            None => {
                return false;
            },
            Some(d) => {
                if is_one_sided(removed, added, &d) {
                    return true;
                }
                let up = d.parent();
                proof {
                    d.lemma_wf();
                    assert forall|q: Seq<Seq<char>>|
                        is_ancestor(q, path@) && (up matches Some(u) ==> q.len() > u@.len())
                        implies !one_sided(tree_model(removed@), tree_model(added@), q) by {
                        if q.len() == d@.len() {
                            assert(q =~= d@);
                        } else if q.len() < d@.len() {
                            assert(up is Some);
                        }
                    }
                    if up is Some {
                        let u = up->0;
                        assert(is_ancestor(u@, path@));
                    }
                }
                dir = up;
            },
        }
    }
}

/// Compares two trees path by path. A path that only the removed side
/// provides is `Removed`, one that only the added side provides is `Added`;
/// one that both provide is `Same` or `Changed`, as [`verdict`] says. What
/// lies below a path that only one side has is left out: no recorded path
/// lies below one that is `Removed` or `Added`.
pub fn walk_trees(removed: &Tree, added: &Tree) -> (diff: Diff)
    ensures
        diff_model(diff@) == diff_of(tree_model(removed@), tree_model(added@)),
        diff.wf(),
{
    proof {
        use_type_invariant(removed);
        use_type_invariant(added);
        removed.lemma_entries();
        added.lemma_entries();
    }
    let mut diff: Diff = PathMap::new();
    let mut i: usize = 0;
    while i < removed.len()
        invariant
            0 <= i <= removed.keys().len(),
            removed.wf(),
            diff.wf(),
            forall|p: Seq<Seq<char>>|
                diff@.contains_key(p) <==> removed.keys().take(i as int).contains(p) && !covered(
                    tree_model(removed@),
                    tree_model(added@),
                    p,
                ),
            forall|p: Seq<Seq<char>>|
                diff@.contains_key(p) ==> diff@[p]@ == entry_of(
                    lookup(tree_model(removed@), p),
                    lookup(tree_model(added@), p),
                ),
        decreases removed.keys().len() - i,
    {
        let ghost keys = removed.keys();
        let ghost before = diff@;
        proof {
            removed.lemma_entries();
        }
        match removed.entry(i) {
            None => {},
            Some((path, old)) => {
                proof {
                    assert(keys.take(i + 1) =~= keys.take(i as int).push(path@));
                    assert(!keys.take(i as int).contains(path@)) by {
                        if keys.take(i as int).contains(path@) {
                            let k = keys.take(i as int).index_of(path@);
                            assert(keys[k] == keys[i as int]);
                        }
                    }
                }
                if !is_covered(removed, added, path) {
                    let entry = match added.get(path) {
                        None => DiffEntry::Removed(old.clone()),
                        Some(new) => match compare(old, new) {
                            DiffKind::Same => DiffEntry::Same,
                            _ => DiffEntry::Changed(old.clone(), new.clone()),
                        },
                    };
                    diff = diff.insert(path.clone(), entry);
                }
                proof {
                    assert forall|p: Seq<Seq<char>>|
                        diff@.contains_key(p) <==> keys.take(i + 1).contains(p) && !covered(
                            tree_model(removed@),
                            tree_model(added@),
                            p,
                        ) by {
                        assert(keys.take(i + 1)[i as int] == path@);
                        assert(before.contains_key(p) <==> keys.take(i as int).contains(p)
                            && !covered(tree_model(removed@), tree_model(added@), p));
                        if keys.take(i as int).contains(p) {
                            let k = keys.take(i as int).index_of(p);
                            assert(keys.take(i + 1)[k] == p);
                        }
                        if keys.take(i + 1).contains(p) && p != path@ {
                            let k = keys.take(i + 1).index_of(p);
                            assert(keys.take(i as int)[k] == p);
                        }
                    }
                }
            },
        }
        i = i + 1;
    }
    let mut j: usize = 0;
    proof {
        assert(removed.keys().take(i as int) =~= removed.keys());
    }
    while j < added.len()
        invariant
            0 <= j <= added.keys().len(),
            removed.wf(),
            added.wf(),
            diff.wf(),
            forall|p: Seq<Seq<char>>|
                diff@.contains_key(p) <==> (removed@.contains_key(p) || added.keys().take(
                    j as int,
                ).contains(p)) && !covered(tree_model(removed@), tree_model(added@), p),
            forall|p: Seq<Seq<char>>|
                diff@.contains_key(p) ==> diff@[p]@ == entry_of(
                    lookup(tree_model(removed@), p),
                    lookup(tree_model(added@), p),
                ),
        decreases added.keys().len() - j,
    {
        let ghost keys = added.keys();
        let ghost before = diff@;
        proof {
            added.lemma_entries();
            removed.lemma_entries();
        }
        match added.entry(j) {
            None => {},
            Some((path, new)) => {
                proof {
                    assert(keys.take(j + 1) =~= keys.take(j as int).push(path@));
                    assert(!keys.take(j as int).contains(path@)) by {
                        if keys.take(j as int).contains(path@) {
                            let k = keys.take(j as int).index_of(path@);
                            assert(keys[k] == keys[j as int]);
                        }
                    }
                }
                if !removed.contains(path) && !is_covered(removed, added, path) {
                    diff = diff.insert(path.clone(), DiffEntry::Added(new.clone()));
                }
                proof {
                    assert forall|p: Seq<Seq<char>>|
                        diff@.contains_key(p) <==> (removed@.contains_key(p) || keys.take(
                            j + 1,
                        ).contains(p)) && !covered(tree_model(removed@), tree_model(added@), p) by {
                        assert(keys.take(j + 1)[j as int] == path@);
                        assert(before.contains_key(p) <==> (removed@.contains_key(p)
                            || keys.take(j as int).contains(p)) && !covered(
                            tree_model(removed@),
                            tree_model(added@),
                            p,
                        ));
                        if keys.take(j as int).contains(p) {
                            let k = keys.take(j as int).index_of(p);
                            assert(keys.take(j + 1)[k] == p);
                        }
                        if keys.take(j + 1).contains(p) && p != path@ {
                            let k = keys.take(j + 1).index_of(p);
                            assert(keys.take(j as int)[k] == p);
                        }
                    }
                }
            },
        }
        j = j + 1;
    }
    proof {
        assert(added.keys().take(j as int) =~= added.keys());
        added.lemma_entries();
        assert(diff_model(diff@) =~= diff_of(tree_model(removed@), tree_model(added@)));
    }
    diff
}

/// The models of a list of entries.
pub open spec fn models(entries: Seq<DiffEntry>) -> Seq<EntryModel> {
    Seq::new(entries.len(), |i: int| entries[i]@)
}

/// The mark of an entry's line: `+` for what was added, `-` for what was
/// removed, `~` for what was changed. Nothing where no line is written: for
/// what stayed the same, and for a change that left a directory.
pub open spec fn marker_of(e: EntryModel) -> Option<char> {
    match e {
        EntryModel::Same => None,
        EntryModel::Added(_) => Some('+'),
        EntryModel::Removed(_) => Some('-'),
        EntryModel::Changed(_, new) => if new.state is Directory {
            None
        } else {
            Some('~')
        },
    }
}

/// What was added or removed as a whole: its line stands for all that
/// lies below it.
pub open spec fn covers(e: EntryModel) -> bool {
    e is Added || e is Removed
}

/// An entry before the one at `i` stands for it.
pub open spec fn suppressed(keys: Seq<Seq<Seq<char>>>, entries: Seq<EntryModel>, i: int) -> bool {
    exists|j: int| 0 <= j < i && covers(entries[j]) && is_ancestor(keys[j], keys[i])
}

/// A line without its end: the mark, a blank, the path.
pub open spec fn line_text(marker: char, path: Seq<Seq<char>>) -> Seq<char> {
    seq![marker, ' '] + joined(path)
}

/// The escape sequence that sets the colour of what follows.
pub open spec fn escape(code: char) -> Seq<char> {
    seq!['\x1b', '[', '3', code, 'm']
}

/// A text in a colour: the colour is set before it and set back after it.
pub open spec fn painted(code: char, text: Seq<char>) -> Seq<char> {
    escape(code) + text + escape('9')
}

/// The colour of a line: green for what was added, red for what was
/// removed, yellow for what was changed.
pub open spec fn color_of(marker: char) -> char {
    if marker == '+' {
        '2'
    } else if marker == '-' {
        '1'
    } else {
        '3'
    }
}

/// The line of the entry at `i`, without a line break: none where the
/// entry has no line or an entry before stands for it; in colour where
/// `styles` says so.
pub open spec fn line_of(
    keys: Seq<Seq<Seq<char>>>,
    entries: Seq<EntryModel>,
    styles: Seq<bool>,
    i: int,
) -> Option<Seq<char>> {
    if marker_of(entries[i]) is Some && !suppressed(keys, entries, i) {
        let marker = marker_of(entries[i])->0;
        let text = line_text(marker, keys[i]);
        Some(if styles[i] {
            painted(color_of(marker), text)
        } else {
            text
        })
    } else {
        None
    }
}

/// The lines of the first `n` entries, in the order of their paths.
pub open spec fn lines_upto(
    keys: Seq<Seq<Seq<char>>>,
    entries: Seq<EntryModel>,
    styles: Seq<bool>,
    n: int,
) -> Seq<Seq<char>>
    decreases n,
{
    if n <= 0 {
        Seq::empty()
    } else {
        let rest = lines_upto(keys, entries, styles, n - 1);
        match line_of(keys, entries, styles, n - 1) {
            Some(line) => rest.push(line),
            None => rest,
        }
    }
}

/// The report: the lines of all entries in the order of their paths, with a
/// line break between each two and none after the last. A diff without
/// lines has the empty report.
pub open spec fn report(
    keys: Seq<Seq<Seq<char>>>,
    entries: Seq<EntryModel>,
    styles: Seq<bool>,
) -> Seq<char> {
    interleaved(lines_upto(keys, entries, styles, keys.len() as int), seq!['\n'])
}

/// No line in colour.
pub open spec fn plain(n: nat) -> Seq<bool> {
    Seq::new(n, |i: int| false)
}

/// The lines of the first `n` entries depend on the styles of those alone.
pub proof fn lemma_lines_styles(
    keys: Seq<Seq<Seq<char>>>,
    entries: Seq<EntryModel>,
    a: Seq<bool>,
    b: Seq<bool>,
    n: int,
)
    requires
        forall|i: int| 0 <= i < n ==> a[i] == b[i],
    ensures
        lines_upto(keys, entries, a, n) == lines_upto(keys, entries, b, n),
    decreases n,
{
    if n > 0 {
        lemma_lines_styles(keys, entries, a, b, n - 1);
    }
}

/// `owo_colors::OwoColorize::if_supports_color` with `green`, for standard
/// output: the text as it is, or in green where the crate finds that
/// standard output takes colours.
#[verifier::external_body]
fn green_if_supported(text: &str) -> (r: String)
    ensures
        r@ == text@ || r@ == painted('2', text@),
{
    text.if_supports_color(Stream::Stdout, OwoColorize::green).to_string()
}

/// `owo_colors::OwoColorize::if_supports_color` with `red`, for standard
/// output: the text as it is, or in red where the crate finds that standard
/// output takes colours.
#[verifier::external_body]
fn red_if_supported(text: &str) -> (r: String)
    ensures
        r@ == text@ || r@ == painted('1', text@),
{
    text.if_supports_color(Stream::Stdout, OwoColorize::red).to_string()
}

/// `owo_colors::OwoColorize::if_supports_color` with `yellow`, for standard
/// output: the text as it is, or in yellow where the crate finds that
/// standard output takes colours.
#[verifier::external_body]
fn yellow_if_supported(text: &str) -> (r: String)
    ensures
        r@ == text@ || r@ == painted('3', text@),
{
    text.if_supports_color(Stream::Stdout, OwoColorize::yellow).to_string()
}

impl DiffEntry {
    /// The mark of the entry's line, where it has a line.
    pub fn marker(&self) -> (r: Option<char>)
        ensures
            r == marker_of(self@),
    {
        match self {
            DiffEntry::Same => None,
            DiffEntry::Added(_) => Some('+'),
            DiffEntry::Removed(_) => Some('-'),
            DiffEntry::Changed(_, new) => if new.state.is_dir() {
                None
            } else {
                Some('~')
            },
        }
    }

    /// Tells whether the entry was added or removed as a whole, so that its
    /// line stands for all that lies below it.
    pub fn covers_below(&self) -> (r: bool)
        ensures
            r == covers(self@),
    {
        match self {
            DiffEntry::Added(_) => true,
            DiffEntry::Removed(_) => true,
            _ => false,
        }
    }
}

/// The positions are those of the entries before `i` that stand for what
/// lies below them.
pub open spec fn lists_covering(entries: Seq<EntryModel>, covering: Seq<usize>, i: int) -> bool {
    &&& forall|k: int|
        0 <= k < covering.len() ==> 0 <= (#[trigger] covering[k]) < i && covers(
            entries[covering[k] as int],
        )
    &&& forall|j: int| 0 <= j < i && covers(#[trigger] entries[j]) ==> covering.contains(j as usize)
}

/// Tells whether one of the entries at the given positions, which all
/// stand before `i`, lies above the entry at `i`.
fn is_suppressed(diff: &Diff, covering: &Vec<usize>, i: usize) -> (r: bool)
    requires
        i < diff.keys().len(),
        diff.keys().len() == diff.values().len(),
        lists_covering(models(diff.values()), covering@, i as int),
    ensures
        r == suppressed(diff.keys(), models(diff.values()), i as int),
{
    let ghost keys = diff.keys();
    let ghost entries = models(diff.values());
    let path = match diff.entry(i) {
        Some((path, _)) => path,
        None => {
            return false;
        },
    };
    let mut k: usize = 0;
    while k < covering.len()
        invariant
            0 <= k <= covering@.len(),
            keys == diff.keys(),
            entries == models(diff.values()),
            keys.len() == entries.len(),
            i < keys.len(),
            path@ == keys[i as int],
            lists_covering(entries, covering@, i as int),
            forall|c: int| 0 <= c < k ==> !is_ancestor(keys[(#[trigger] covering@[c]) as int], keys[i as int]),
        decreases covering@.len() - k,
    {
        let j = covering[k];
        assert(0 <= covering@[k as int] < i);
        match diff.entry(j) {
            Some((above, _)) => {
                if above.is_ancestor_of(path) {
                    assert(covers(entries[j as int]));
                    return true;
                }
            },
            None => {},
        }
        k = k + 1;
    }
    proof {
        assert forall|j: int| 0 <= j < i && covers(entries[j]) implies !is_ancestor(
            keys[j],
            keys[i as int],
        ) by {
            assert(covering@.contains(j as usize));
            let c = covering@.index_of(j as usize);
            assert(covering@[c] == j);
        }
    }
    false
}

/// Writes the report; where `styled`, each line in its colour as far as
/// standard output takes colours.
fn render(diff: &Diff, styled: bool) -> (r: (String, Ghost<Seq<bool>>))
    ensures
        r.1@.len() == diff.keys().len(),
        r.0@ == report(diff.keys(), models(diff.values()), r.1@),
        !styled ==> r.1@ == plain(diff.keys().len()),
{
    let ghost keys = diff.keys();
    let ghost entries = models(diff.values());
    let mut lines: Vec<String> = Vec::new();
    let mut covering: Vec<usize> = Vec::new();
    let ghost mut styles: Seq<bool> = Seq::empty();
    assert(texts(lines@) =~= Seq::<Seq<char>>::empty());
    let mut i: usize = 0;
    let n = diff.len();
    while i < n
        invariant
            keys == diff.keys(),
            entries == models(diff.values()),
            n == keys.len(),
            0 <= i <= keys.len(),
            styles.len() == i,
            texts(lines@) == lines_upto(keys, entries, styles, i as int),
            !styled ==> styles == plain(i as nat),
            keys.len() == entries.len(),
            lists_covering(entries, covering@, i as int),
        decreases keys.len() - i,
    {
        let ghost before = styles;
        let ghost listed_lines = texts(lines@);
        let ghost mut style = false;
        match diff.entry(i) {
            None => {},
            Some((path, entry)) => {
                let hidden = is_suppressed(diff, &covering, i);
                match entry.marker() {
                    Some(marker) => {
                        if !hidden {
                            let mut text = if marker == '+' {
                                String::from_str("+ ")
                            } else if marker == '-' {
                                String::from_str("- ")
                            } else {
                                String::from_str("~ ")
                            };
                            let name = path.text();
                            text.append(name.as_str());
                            proof {
                                reveal_strlit("+ ");
                                reveal_strlit("- ");
                                reveal_strlit("~ ");
                                assert("+ "@ =~= seq!['+', ' ']);
                                assert("- "@ =~= seq!['-', ' ']);
                                assert("~ "@ =~= seq!['~', ' ']);
                                assert(text@ == line_text(marker, keys[i as int]));
                            }
                            if styled {
                                let shown = if marker == '+' {
                                    green_if_supported(text.as_str())
                                } else if marker == '-' {
                                    red_if_supported(text.as_str())
                                } else {
                                    yellow_if_supported(text.as_str())
                                };
                                proof {
                                    style = shown@ != text@;
                                }
                                lines.push(shown);
                            } else {
                                lines.push(text);
                            }
                        }
                    },
                    None => {},
                }
                if entry.covers_below() {
                    let ghost listed = covering@;
                    covering.push(i);
                    proof {
                        assert forall|k: int| 0 <= k < covering@.len() implies 0 <= (
                        #[trigger] covering@[k]) < i + 1 && covers(
                            entries[covering@[k] as int],
                        ) by {
                            if k < listed.len() {
                                assert(covering@[k] == listed[k]);
                            }
                        }
                        assert forall|j: int|
                            0 <= j < i + 1 && covers(#[trigger] entries[j]) implies covering@.contains(
                            j as usize,
                        ) by {
                            if j < i {
                                assert(listed.contains(j as usize));
                                let c = listed.index_of(j as usize);
                                assert(covering@[c] == j);
                            } else {
                                assert(covering@[listed.len() as int] == i);
                            }
                        }
                    }
                } else {
                    proof {
                        assert forall|k: int| 0 <= k < covering@.len() implies 0 <= (
                        #[trigger] covering@[k]) < i + 1 && covers(
                            entries[covering@[k] as int],
                        ) by {}
                    }
                }
            },
        }
        proof {
            styles = before.push(style);
            lemma_lines_styles(keys, entries, before, styles, i as int);
            match line_of(keys, entries, styles, i as int) {
                Some(line) => {
                    assert(texts(lines@) =~= listed_lines.push(line));
                },
                None => {
                    assert(texts(lines@) =~= listed_lines);
                },
            }
            if !styled {
                assert(styles =~= plain((i + 1) as nat));
            }
        }
        i = i + 1;
    }
    let out = join_texts(&lines, "\n");
    proof {
        reveal_strlit("\n");
        assert("\n"@ =~= seq!['\n']);
    }
    (out, Ghost(styles))
}

/// Writes the report of a diff for a terminal: a line for each entry that
/// was added, removed or changed, in the order of the paths, and none for
/// what lies below an entry that was added or removed as a whole. The lines
/// are joined by line breaks. Each line stands in its colour where standard
/// output takes colours, and plain where not.
pub fn display_diff(diff: &Diff) -> (r: String)
    ensures
        exists|styles: Seq<bool>|
            styles.len() == diff.keys().len() && r@ == report(
                diff.keys(),
                models(diff.values()),
                styles,
            ),
{
    let (out, styles) = render(diff, true);
    out
}

/// Writes the report of a diff without colours.
pub fn display_plain(diff: &Diff) -> (r: String)
    ensures
        r@ == report(diff.keys(), models(diff.values()), plain(diff.keys().len())),
{
    let (out, styles) = render(diff, false);
    out
}

/// The outcome of [`diff_trees`]: the report of the diff of the two trees,
/// its lines plain or in colour.
pub open spec fn is_report_of(
    removed: Map<Seq<Seq<char>>, PathInfoModel>,
    added: Map<Seq<Seq<char>>, PathInfoModel>,
    text: Seq<char>,
) -> bool {
    exists|diff: Diff, styles: Seq<bool>|
        diff.wf() && diff_model(diff@) == diff_of(removed, added) && styles.len()
            == diff.keys().len() && text == report(diff.keys(), models(diff.values()), styles)
}

/// Compares two trees and writes the report for a terminal.
pub fn diff_trees(removed: &Tree, added: &Tree) -> (r: String)
    ensures
        is_report_of(tree_model(removed@), tree_model(added@), r@),
{
    let diff = walk_trees(removed, added);
    let (out, styles) = render(&diff, true);
    assert(diff.wf() && diff_model(diff@) == diff_of(tree_model(removed@), tree_model(added@))
        && styles@.len()
        == diff.keys().len() && out@ == report(diff.keys(), models(diff.values()), styles@));
    out
}

/// The view of a report or of the error in its place.
pub open spec fn report_model(r: Result<String, DiffError>) -> Result<Seq<char>, ErrorModel> {
    match r {
        Ok(text) => Ok(text@),
        Err(e) => Err(e@),
    }
}

/// The outcome of [`diff`]: the error of the walk that failed, the walk
/// of the removed side going first; else the report of the diff of the two
/// trees. A diff is made in full or not at all.
pub open spec fn is_diff_of(
    removed: Seq<WalkedModel>,
    added: Seq<WalkedModel>,
    outcome: Result<Seq<char>, ErrorModel>,
) -> bool {
    match walked(removed) {
        Err(e) => outcome == Err::<Seq<char>, ErrorModel>(e),
        Ok(old) => match walked(added) {
            Err(e) => outcome == Err::<Seq<char>, ErrorModel>(e),
            Ok(new) => outcome is Ok && is_report_of(old, new, outcome->Ok_0),
        },
    }
}

/// Compares what the walks through the removed roots and through the added
/// roots met, and writes the report for a terminal. What cannot be
/// classified on either side, such as a link that leads into a loop, fails
/// the diff with its error.
pub fn diff(removed: Vec<Walked>, added: Vec<Walked>) -> (r: Result<String, DiffError>)
    ensures
        is_diff_of(walk_model(removed@), walk_model(added@), report_model(r)),
{
    let old = match walk_roots(removed) {
        Ok(tree) => tree,
        Err(e) => {
            return Err(e);
        },
    };
    let new = match walk_roots(added) {
        Ok(tree) => tree,
        Err(e) => {
            return Err(e);
        },
    };
    Ok(diff_trees(&old, &new))
}

/// The number of entries of a kind among the first `n`.
pub open spec fn count_upto(entries: Seq<EntryModel>, kind: DiffKind, n: int) -> nat
    decreases n,
{
    if n <= 0 {
        0
    } else {
        count_upto(entries, kind, n - 1) + if kind_of(entries[n - 1]) == kind {
            1nat
        } else {
            0nat
        }
    }
}

/// The paths among the first `n` whose entries are not `Same`, in their
/// order.
pub open spec fn changed_upto(keys: Seq<Seq<Seq<char>>>, entries: Seq<EntryModel>, n: int) -> Seq<
    Seq<Seq<char>>,
>
    decreases n,
{
    if n <= 0 {
        Seq::empty()
    } else {
        let rest = changed_upto(keys, entries, n - 1);
        if kind_of(entries[n - 1]) == DiffKind::Same {
            rest
        } else {
            rest.push(keys[n - 1])
        }
    }
}

/// The views of a list of paths.
pub open spec fn paths_of(paths: Seq<RelativePath>) -> Seq<Seq<Seq<char>>> {
    Seq::new(paths.len(), |i: int| paths[i]@)
}

/// No count of entries goes beyond their number.
proof fn lemma_count_bound(entries: Seq<EntryModel>, kind: DiffKind, n: int)
    requires
        0 <= n,
    ensures
        count_upto(entries, kind, n) <= n,
    decreases n,
{
    if n > 0 {
        lemma_count_bound(entries, kind, n - 1);
    }
}

/// Counts the entries of a kind.
pub fn count(diff: &Diff, kind: DiffKind) -> (r: usize)
    ensures
        r == count_upto(models(diff.values()), kind, diff.keys().len() as int),
{
    let ghost entries = models(diff.values());
    let mut total: usize = 0;
    let mut i: usize = 0;
    let n = diff.len();
    while i < n
        invariant
            entries == models(diff.values()),
            n == diff.keys().len(),
            n == diff.values().len(),
            0 <= i <= n,
            total == count_upto(entries, kind, i as int),
        decreases n - i,
    {
        proof {
            lemma_count_bound(entries, kind, i as int);
        }
        match diff.entry(i) {
            Some((_, entry)) => {
                if entry.kind() == kind {
                    total = total + 1;
                }
            },
            None => {},
        }
        i = i + 1;
    }
    total
}

/// The paths that came, went or changed: those whose entries are not
/// `Same`, in their order.
pub fn changed_paths(diff: &Diff) -> (r: Vec<RelativePath>)
    ensures
        paths_of(r@) == changed_upto(
            diff.keys(),
            models(diff.values()),
            diff.keys().len() as int,
        ),
{
    let ghost keys = diff.keys();
    let ghost entries = models(diff.values());
    let mut out: Vec<RelativePath> = Vec::new();
    let mut i: usize = 0;
    let n = diff.len();
    assert(paths_of(out@) =~= Seq::<Seq<Seq<char>>>::empty());
    while i < n
        invariant
            keys == diff.keys(),
            entries == models(diff.values()),
            n == diff.keys().len(),
            n == diff.values().len(),
            0 <= i <= n,
            paths_of(out@) == changed_upto(keys, entries, i as int),
        decreases n - i,
    {
        match diff.entry(i) {
            Some((path, entry)) => {
                if entry.kind() != DiffKind::Same {
                    let ghost before = paths_of(out@);
                    out.push(path.clone());
                    assert(paths_of(out@) =~= before.push(path@));
                }
            },
            None => {},
        }
        i = i + 1;
    }
    out
}

} // verus!
