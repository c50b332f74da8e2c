//! What holds of every diff: of the verdicts, of what is recorded, and of
//! the report.

use vstd::prelude::*;
use crate::content::content_of;
use crate::diff_trees::covered;
use crate::diff_trees::covers;
use crate::diff_trees::diff_model;
use crate::diff_trees::diff_of;
use crate::diff_trees::line_of;
use crate::diff_trees::line_text;
use crate::diff_trees::marker_of;
use crate::diff_trees::models;
use crate::diff_trees::lines_upto;
use crate::diff_trees::one_sided;
use crate::diff_trees::plain;
use crate::diff_trees::recorded;
use crate::diff_trees::report;
use crate::diff_trees::same_object;
use crate::diff_trees::suppressed;
use crate::diff_trees::verdict;
use crate::diff_trees::Diff;
use crate::diff_trees::DiffKind;
use crate::diff_trees::EntryModel;
use crate::diff_trees::is_diff_of;
use crate::error::ErrorModel;
use crate::path::is_ancestor;
use crate::state::classified;
use crate::state::FoundModel;
use crate::tree::law_first_failure_fails_the_walk;
use crate::tree::walked;
use crate::tree::WalkedModel;
use crate::text::interleaved;
use crate::path_map::law_keys_decided;
use crate::path::lemma_ancestor_is_less;
use crate::path::lemma_path_less_asymmetric;
use crate::state::PathInfoModel;
use crate::state::PathStateModel;
use crate::symlink::ChainModel;
use crate::content::ContentModel;

verus! {

/// Two files of one length are the same exactly when their bytes are,
/// unless both paths lead to one object, which is never read.
pub proof fn law_bytes_decide(
    old: PathInfoModel,
    new: PathInfoModel,
    old_bytes: Seq<u8>,
    new_bytes: Seq<u8>,
)
    requires
        old.state == (PathStateModel::File { hash: content_of(old_bytes) }),
        new.state == (PathStateModel::File { hash: content_of(new_bytes) }),
        old_bytes.len() == new_bytes.len(),
        !same_object(old.identity, new.identity),
    ensures
        old_bytes == new_bytes ==> verdict(old, new) == DiffKind::Same,
        old_bytes != new_bytes ==> verdict(old, new) == DiffKind::Changed,
{
}

/// Two files with the same bytes are the same, whatever their identities
/// are and whether they have any.
pub proof fn law_same_bytes(old: PathInfoModel, new: PathInfoModel, bytes: Seq<u8>)
    requires
        old.state == (PathStateModel::File { hash: content_of(bytes) }),
        new.state == (PathStateModel::File { hash: content_of(bytes) }),
    ensures
        verdict(old, new) == DiffKind::Same,
{
}

/// Two links that end at regular files with the same content are the same,
/// whatever way their chains go.
pub proof fn law_links_to_same_content(
    old: PathInfoModel,
    new: PathInfoModel,
    old_chain: ChainModel,
    new_chain: ChainModel,
    content: ContentModel,
)
    requires
        old.state == (PathStateModel::Symlink { chain: old_chain, hash: Some(content) }),
        new.state == (PathStateModel::Symlink { chain: new_chain, hash: Some(content) }),
    ensures
        verdict(old, new) == DiffKind::Same,
{
}

/// Entries without a mark have no lines.
pub proof fn lemma_lines_silent(
    keys: Seq<Seq<Seq<char>>>,
    entries: Seq<EntryModel>,
    styles: Seq<bool>,
    n: int,
)
    requires
        forall|i: int| 0 <= i < n ==> marker_of(#[trigger] entries[i]) is None,
    ensures
        lines_upto(keys, entries, styles, n) == Seq::<Seq<char>>::empty(),
    decreases n,
{
    if n > 0 {
        lemma_lines_silent(keys, entries, styles, n - 1);
        assert(marker_of(entries[n - 1]) is None);
    }
}

/// Where one entry alone has a mark, its line is the only one.
pub proof fn lemma_lines_single(
    keys: Seq<Seq<Seq<char>>>,
    entries: Seq<EntryModel>,
    styles: Seq<bool>,
    k: int,
    n: int,
)
    requires
        0 <= k,
        marker_of(entries[k]) is Some,
        !suppressed(keys, entries, k),
        forall|i: int| 0 <= i < n && i != k ==> marker_of(#[trigger] entries[i]) is None,
    ensures
        k < n ==> lines_upto(keys, entries, styles, n) == seq![
            line_of(keys, entries, styles, k)->0,
        ],
        k >= n ==> lines_upto(keys, entries, styles, n) == Seq::<Seq<char>>::empty(),
    decreases n,
{
    if n > 0 {
        lemma_lines_single(keys, entries, styles, k, n - 1);
        if k != n - 1 {
            assert(marker_of(entries[n - 1]) is None);
        } else {
            assert(lines_upto(keys, entries, styles, n) =~= seq![
                line_of(keys, entries, styles, k)->0,
            ]);
        }
    }
}

/// Each entry of a diff of two trees is what `diff_of` holds for its path.
pub proof fn lemma_entries_are_diff(
    removed: Map<Seq<Seq<char>>, PathInfoModel>,
    added: Map<Seq<Seq<char>>, PathInfoModel>,
    diff: Diff,
)
    requires
        diff.wf(),
        diff_model(diff@) == diff_of(removed, added),
    ensures
        diff.keys().len() == models(diff.values()).len(),
        forall|i: int|
            0 <= i < diff.keys().len() ==> diff_of(removed, added).contains_key(
                #[trigger] diff.keys()[i],
            ) && models(diff.values())[i] == diff_of(removed, added)[diff.keys()[i]],
        forall|p: Seq<Seq<char>>|
            diff_of(removed, added).contains_key(p) ==> diff.keys().contains(p),
{
    diff.lemma_entries();
    let keys = diff.keys();
    assert forall|i: int| 0 <= i < keys.len() implies diff_of(removed, added).contains_key(
        #[trigger] keys[i],
    ) && models(diff.values())[i] == diff_of(removed, added)[keys[i]] by {
        let p = keys[i];
        assert(diff@.contains_key(p));
        assert(diff_model(diff@).contains_key(p));
        assert(diff_model(diff@)[p] == models(diff.values())[i]);
    }
    assert forall|p: Seq<Seq<char>>| diff_of(removed, added).contains_key(p) implies keys.contains(
        p,
    ) by {
        assert(diff_model(diff@).contains_key(p));
        assert(diff@.contains_key(p));
    }
}

/// Nothing is left out of a diff whose sides provide the same paths.
proof fn lemma_nothing_covered(
    removed: Map<Seq<Seq<char>>, PathInfoModel>,
    added: Map<Seq<Seq<char>>, PathInfoModel>,
)
    requires
        forall|q: Seq<Seq<char>>| !one_sided(removed, added, q),
    ensures
        forall|p: Seq<Seq<char>>| !covered(removed, added, p),
{
}

/// Where both sides provide the same paths and every path is the same on
/// both, the diff reports nothing: every entry is `Same`, and the report
/// is empty. Two roots that each hold one file with the same bytes are the
/// plainest case.
pub proof fn law_identical_trees(
    removed: Map<Seq<Seq<char>>, PathInfoModel>,
    added: Map<Seq<Seq<char>>, PathInfoModel>,
    diff: Diff,
    styles: Seq<bool>,
)
    requires
        forall|p: Seq<Seq<char>>| removed.contains_key(p) <==> added.contains_key(p),
        forall|p: Seq<Seq<char>>|
            removed.contains_key(p) ==> verdict(removed[p], added[p]) == DiffKind::Same,
        diff.wf(),
        diff_model(diff@) == diff_of(removed, added),
    ensures
        forall|p: Seq<Seq<char>>|
            diff_of(removed, added).contains_key(p) <==> removed.contains_key(p),
        forall|p: Seq<Seq<char>>|
            removed.contains_key(p) ==> diff_of(removed, added)[p] == EntryModel::Same,
        report(diff.keys(), models(diff.values()), styles) == Seq::<char>::empty(),
{
    lemma_nothing_covered(removed, added);
    lemma_entries_are_diff(removed, added, diff);
    let keys = diff.keys();
    let entries = models(diff.values());
    assert forall|i: int| 0 <= i < keys.len() implies marker_of(#[trigger] entries[i]) is None by {
        assert(diff_of(removed, added).contains_key(keys[i]));
    }
    lemma_lines_silent(keys, entries, styles, keys.len() as int);
}

/// Where every entry of a diff but the one at `path` is `Same`, and that
/// one was added, removed or changed, the plain report is its one line,
/// without a line break.
proof fn lemma_one_line(
    removed: Map<Seq<Seq<char>>, PathInfoModel>,
    added: Map<Seq<Seq<char>>, PathInfoModel>,
    diff: Diff,
    path: Seq<Seq<char>>,
)
    requires
        diff.wf(),
        diff_model(diff@) == diff_of(removed, added),
        diff_of(removed, added).contains_key(path),
        marker_of(diff_of(removed, added)[path]) is Some,
        forall|p: Seq<Seq<char>>|
            p != path && #[trigger] diff_of(removed, added).contains_key(p) ==> diff_of(
                removed,
                added,
            )[p] == EntryModel::Same,
    ensures
        report(diff.keys(), models(diff.values()), plain(diff.keys().len())) == line_text(
            marker_of(diff_of(removed, added)[path])->0,
            path,
        ),
{
    lemma_entries_are_diff(removed, added, diff);
    diff.lemma_entries();
    let keys = diff.keys();
    let entries = models(diff.values());
    let styles = plain(keys.len());
    assert(keys.contains(path));
    let k = keys.index_of(path);
    assert(0 <= k < keys.len() && keys[k] == path);
    assert(entries[k] == diff_of(removed, added)[path]);
    assert forall|i: int| 0 <= i < keys.len() && i != k implies marker_of(
        #[trigger] entries[i],
    ) is None by {
        assert(diff_of(removed, added).contains_key(keys[i]));
        assert(keys[i] != path);
    }
    assert(!suppressed(keys, entries, k)) by {
        assert forall|j: int| 0 <= j < k implies !covers(#[trigger] entries[j]) by {
            assert(marker_of(entries[j]) is None);
        }
    }
    lemma_lines_single(keys, entries, styles, k, keys.len() as int);
    assert(interleaved(seq![line_text(marker_of(entries[k])->0, path)], seq!['\n'])
        == line_text(marker_of(entries[k])->0, path));
}

/// Where one side has one file more and all else is the same on both
/// sides, the diff records exactly that path as `Added`, or as `Removed`
/// where the removed side has it, and the report is that one line.
pub proof fn law_one_extra_file(
    removed: Map<Seq<Seq<char>>, PathInfoModel>,
    added: Map<Seq<Seq<char>>, PathInfoModel>,
    extra: Seq<Seq<char>>,
    diff: Diff,
)
    requires
        removed.contains_key(extra) != added.contains_key(extra),
        forall|p: Seq<Seq<char>>|
            p != extra ==> (removed.contains_key(p) <==> added.contains_key(p)),
        forall|p: Seq<Seq<char>>|
            p != extra && removed.contains_key(p) ==> verdict(removed[p], added[p])
                == DiffKind::Same,
        diff.wf(),
        diff_model(diff@) == diff_of(removed, added),
    ensures
        added.contains_key(extra) ==> diff_of(removed, added)[extra] == EntryModel::Added(
            added[extra],
        ),
        removed.contains_key(extra) ==> diff_of(removed, added)[extra] == EntryModel::Removed(
            removed[extra],
        ),
        forall|p: Seq<Seq<char>>|
            p != extra && #[trigger] diff_of(removed, added).contains_key(p) ==> diff_of(
                removed,
                added,
            )[p] == EntryModel::Same,
        report(diff.keys(), models(diff.values()), plain(diff.keys().len())) == line_text(
            if added.contains_key(extra) {
                '+'
            } else {
                '-'
            },
            extra,
        ),
{
    assert(!covered(removed, added, extra)) by {
        assert forall|q: Seq<Seq<char>>| is_ancestor(q, extra) implies !one_sided(
            removed,
            added,
            q,
        ) by {
            assert(q.len() < extra.len());
        }
    }
    assert(recorded(removed, added, extra));
    lemma_one_line(removed, added, diff, extra);
}

/// Where a directory is removed with all that lies below it and all else
/// is the same on both sides, the diff records the directory as `Removed`
/// and nothing below it, and the report is the one line of the directory,
/// however much lay below it. The same holds of whatever else has paths
/// below it, such as a link to a directory.
pub proof fn law_removed_directory(
    removed: Map<Seq<Seq<char>>, PathInfoModel>,
    added: Map<Seq<Seq<char>>, PathInfoModel>,
    dir: Seq<Seq<char>>,
    diff: Diff,
)
    requires
        removed.contains_key(dir),
        !added.contains_key(dir),
        forall|p: Seq<Seq<char>>|
            added.contains_key(p) ==> removed.contains_key(p) && verdict(removed[p], added[p])
                == DiffKind::Same,
        forall|p: Seq<Seq<char>>|
            removed.contains_key(p) && !added.contains_key(p) ==> p == dir || is_ancestor(dir, p),
        diff.wf(),
        diff_model(diff@) == diff_of(removed, added),
    ensures
        diff_of(removed, added).contains_key(dir),
        diff_of(removed, added)[dir] == EntryModel::Removed(removed[dir]),
        forall|p: Seq<Seq<char>>| is_ancestor(dir, p) ==> !diff_of(removed, added).contains_key(p),
        forall|p: Seq<Seq<char>>|
            p != dir && #[trigger] diff_of(removed, added).contains_key(p) ==> diff_of(
                removed,
                added,
            )[p] == EntryModel::Same,
        report(diff.keys(), models(diff.values()), plain(diff.keys().len())) == line_text(
            '-',
            dir,
        ),
{
    assert(!covered(removed, added, dir)) by {
        assert forall|q: Seq<Seq<char>>| is_ancestor(q, dir) implies !one_sided(
            removed,
            added,
            q,
        ) by {
            assert(q.len() < dir.len());
            if removed.contains_key(q) && !added.contains_key(q) {
                assert(q == dir || is_ancestor(dir, q));
            }
        }
    }
    assert(one_sided(removed, added, dir));
    assert(recorded(removed, added, dir));
    assert forall|p: Seq<Seq<char>>| is_ancestor(dir, p) implies !diff_of(
        removed,
        added,
    ).contains_key(p) by {
        assert(covered(removed, added, p));
    }
    assert forall|p: Seq<Seq<char>>|
        p != dir && #[trigger] diff_of(removed, added).contains_key(p) implies diff_of(
        removed,
        added,
    )[p] == EntryModel::Same by {
        if !added.contains_key(p) {
            assert(is_ancestor(dir, p));
        }
    }
    lemma_one_line(removed, added, diff, dir);
}

/// No recorded path lies below a path that the diff records as `Removed` or
/// as `Added`, and every recorded path is one that a side provides.
pub proof fn law_nothing_below_what_came_or_went(
    removed: Map<Seq<Seq<char>>, PathInfoModel>,
    added: Map<Seq<Seq<char>>, PathInfoModel>,
    above: Seq<Seq<char>>,
    below: Seq<Seq<char>>,
)
    requires
        diff_of(removed, added).contains_key(above),
        diff_of(removed, added).contains_key(below),
        is_ancestor(above, below),
    ensures
        !(diff_of(removed, added)[above] is Removed),
        !(diff_of(removed, added)[above] is Added),
        removed.contains_key(below) || added.contains_key(below),
{
    if one_sided(removed, added, above) {
        assert(covered(removed, added, below));
    }
}

/// Two roots that each hold one file, at the same path and with the same
/// bytes, differ in nothing: the diff records the path as `Same`, and the
/// report is empty.
pub proof fn law_identical_single_file_roots(
    removed: Map<Seq<Seq<char>>, PathInfoModel>,
    added: Map<Seq<Seq<char>>, PathInfoModel>,
    path: Seq<Seq<char>>,
    bytes: Seq<u8>,
    diff: Diff,
    styles: Seq<bool>,
)
    requires
        forall|p: Seq<Seq<char>>| removed.contains_key(p) <==> p == path,
        forall|p: Seq<Seq<char>>| added.contains_key(p) <==> p == path,
        removed[path].state == (PathStateModel::File { hash: content_of(bytes) }),
        added[path].state == (PathStateModel::File { hash: content_of(bytes) }),
        diff.wf(),
        diff_model(diff@) == diff_of(removed, added),
    ensures
        forall|p: Seq<Seq<char>>| diff_of(removed, added).contains_key(p) <==> p == path,
        diff_of(removed, added)[path] == EntryModel::Same,
        report(diff.keys(), models(diff.values()), styles) == Seq::<char>::empty(),
{
    law_same_bytes(removed[path], added[path], bytes);
    law_identical_trees(removed, added, diff, styles);
}

/// An entry is `Changed` only where the two sides differ: what it carries
/// has the verdict `Changed`.
pub proof fn law_changed_entries_differ(
    removed: Map<Seq<Seq<char>>, PathInfoModel>,
    added: Map<Seq<Seq<char>>, PathInfoModel>,
    path: Seq<Seq<char>>,
)
    requires
        diff_of(removed, added).contains_key(path),
    ensures
        match diff_of(removed, added)[path] {
            EntryModel::Same => removed.contains_key(path) && added.contains_key(path)
                && verdict(removed[path], added[path]) == DiffKind::Same,
            EntryModel::Changed(old, new) => old == removed[path] && new == added[path]
                && verdict(old, new) == DiffKind::Changed,
            EntryModel::Removed(old) => old == removed[path] && !added.contains_key(path),
            EntryModel::Added(new) => new == added[path] && !removed.contains_key(path),
        },
{
}

/// In a diff a path comes before all that lies below it: a line is
/// left out exactly where any entry of the diff stands for it, wherever
/// that entry is looked for.
pub proof fn law_covering_lines_come_first(diff: Diff, i: int)
    requires
        diff.wf(),
        0 <= i < diff.keys().len(),
    ensures
        suppressed(diff.keys(), models(diff.values()), i) <==> exists|j: int|
            0 <= j < diff.keys().len() && covers(models(diff.values())[j]) && is_ancestor(
                diff.keys()[j],
                diff.keys()[i],
            ),
{
    diff.lemma_entries();
    let keys = diff.keys();
    let entries = models(diff.values());
    if exists|j: int| 0 <= j < keys.len() && covers(entries[j]) && is_ancestor(keys[j], keys[i]) {
        let j = choose|j: int|
            0 <= j < keys.len() && covers(entries[j]) && is_ancestor(keys[j], keys[i]);
        lemma_ancestor_is_less(keys[j], keys[i]);
        if j > i {
            lemma_path_less_asymmetric(keys[i], keys[j]);
        }
        assert(0 <= j < i && covers(entries[j]) && is_ancestor(keys[j], keys[i]));
    }
}

/// The diff of two trees holds nothing that the report leaves out: what
/// lies below a path that was added or removed as a whole is not recorded
/// in the first place.
pub proof fn law_recorded_lines_are_shown(
    removed: Map<Seq<Seq<char>>, PathInfoModel>,
    added: Map<Seq<Seq<char>>, PathInfoModel>,
    diff: Diff,
    i: int,
)
    requires
        diff.wf(),
        diff_model(diff@) == diff_of(removed, added),
        0 <= i < diff.keys().len(),
    ensures
        !suppressed(diff.keys(), models(diff.values()), i),
{
    lemma_entries_are_diff(removed, added, diff);
    let keys = diff.keys();
    let entries = models(diff.values());
    assert forall|j: int| 0 <= j < i && covers(entries[j]) implies !is_ancestor(
        keys[j],
        keys[i],
    ) by {
        assert(diff_of(removed, added).contains_key(keys[j]));
        assert(one_sided(removed, added, keys[j]));
        assert(diff_of(removed, added).contains_key(keys[i]));
        if is_ancestor(keys[j], keys[i]) {
            assert(covered(removed, added, keys[i]));
        }
    }
}

/// The report is decided by what the diff records: two diffs that record
/// the same for the same paths have the same report, line for line.
pub proof fn law_report_decided(first: Diff, second: Diff, styles: Seq<bool>)
    requires
        first.wf(),
        second.wf(),
        diff_model(first@) == diff_model(second@),
    ensures
        first.keys() == second.keys(),
        models(first.values()) == models(second.values()),
        report(first.keys(), models(first.values()), styles) == report(
            second.keys(),
            models(second.values()),
            styles,
        ),
{
    first.lemma_entries();
    second.lemma_entries();
    assert forall|p: Seq<Seq<char>>| first@.contains_key(p) <==> second@.contains_key(p) by {
        assert(diff_model(first@).contains_key(p) <==> first@.contains_key(p));
        assert(diff_model(second@).contains_key(p) <==> second@.contains_key(p));
    }
    law_keys_decided(first, second);
    let keys = first.keys();
    assert forall|i: int| 0 <= i < keys.len() implies models(first.values())[i] == models(
        second.values(),
    )[i] by {
        assert(first@.contains_key(keys[i]));
        assert(diff_model(first@)[keys[i]] == first.values()[i]@);
        assert(diff_model(second@)[keys[i]] == second.values()[i]@);
    }
    assert(models(first.values()) =~= models(second.values()));
}

/// The verdict does not depend on which side is which.
pub proof fn law_verdict_symmetric(old: PathInfoModel, new: PathInfoModel)
    ensures
        verdict(old, new) == verdict(new, old),
{
}

/// A tree differs from itself in nothing that is reported: its report
/// against itself is empty, whether or not its paths have identities.
pub proof fn law_same_tree_reports_nothing(
    tree: Map<Seq<Seq<char>>, PathInfoModel>,
    diff: Diff,
    styles: Seq<bool>,
)
    requires
        diff.wf(),
        diff_model(diff@) == diff_of(tree, tree),
    ensures
        forall|p: Seq<Seq<char>>| diff_of(tree, tree).contains_key(p) <==> tree.contains_key(p),
        report(diff.keys(), models(diff.values()), styles) == Seq::<char>::empty(),
{
    lemma_nothing_covered(tree, tree);
    lemma_entries_are_diff(tree, tree, diff);
    let keys = diff.keys();
    let entries = models(diff.values());
    assert forall|i: int| 0 <= i < keys.len() implies marker_of(#[trigger] entries[i]) is None by {
        assert(diff_of(tree, tree).contains_key(keys[i]));
    }
    lemma_lines_silent(keys, entries, styles, keys.len() as int);
}

/// A link that leads into a loop fails the diff: where the walk of the
/// removed side meets such a link and could classify all that it met
/// before, the diff is the error with the paths of the loop, and no report.
pub proof fn law_loop_fails_the_diff(
    removed: Seq<WalkedModel>,
    added: Seq<WalkedModel>,
    k: int,
    paths: Seq<Seq<char>>,
    content: Option<Result<ContentModel, Seq<char>>>,
    outcome: Result<Seq<char>, ErrorModel>,
)
    requires
        0 <= k < removed.len(),
        forall|i: int| 0 <= i < k ==> classified(removed[i].location, removed[i].found) is Ok,
        removed[k].found == (FoundModel::Symlink {
            chain: Err(ErrorModel::SymlinkLoop { paths }),
            content,
        }),
        is_diff_of(removed, added, outcome),
    ensures
        outcome == Err::<Seq<char>, ErrorModel>(ErrorModel::SymlinkLoop { paths }),
{
    law_first_failure_fails_the_walk(removed, k, ErrorModel::SymlinkLoop { paths });
}

/// A loop on the added side fails the diff as well, where the removed side
/// was walked without failure: the walk of the removed side goes first.
pub proof fn law_loop_on_the_added_side_fails_the_diff(
    removed: Seq<WalkedModel>,
    added: Seq<WalkedModel>,
    k: int,
    paths: Seq<Seq<char>>,
    content: Option<Result<ContentModel, Seq<char>>>,
    outcome: Result<Seq<char>, ErrorModel>,
)
    requires
        walked(removed) is Ok,
        0 <= k < added.len(),
        forall|i: int| 0 <= i < k ==> classified(added[i].location, added[i].found) is Ok,
        added[k].found == (FoundModel::Symlink {
            chain: Err(ErrorModel::SymlinkLoop { paths }),
            content,
        }),
        is_diff_of(removed, added, outcome),
    ensures
        outcome == Err::<Seq<char>, ErrorModel>(ErrorModel::SymlinkLoop { paths }),
{
    law_first_failure_fails_the_walk(added, k, ErrorModel::SymlinkLoop { paths });
}

} // verus!
