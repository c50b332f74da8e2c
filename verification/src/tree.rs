//! A tree: the paths of one side of a diff, each with what lies there.

use vstd::prelude::*;
use crate::error::DiffError;
use crate::error::ErrorModel;
use crate::path::RelativePath;
use crate::path_map::PathMap;
use crate::state::classified;
use crate::state::classify;
use crate::state::Found;
use crate::state::Identity;
use crate::state::PathInfo;
use crate::state::PathInfoModel;

verus! {

/// The paths of one side of a diff, each with what lies there. Where
/// several roots make up a side, the first root that provides a path wins:
/// [`PathMap::insert`] keeps the entry that a path has.
pub type Tree = PathMap<PathInfo>;

/// The models of what a tree holds.
pub open spec fn tree_model(tree: Map<Seq<Seq<char>>, PathInfo>) -> Map<
    Seq<Seq<char>>,
    PathInfoModel,
> {
    Map::new(|path: Seq<Seq<char>>| tree.contains_key(path), |path: Seq<Seq<char>>| tree[path]@)
}

/// `tree` holds what `start` holds, and what `later` holds for the
/// first `n` of `keys` as far as `start` holds nothing for them.
spec fn merged_upto(
    tree: Map<Seq<Seq<char>>, PathInfo>,
    start: Map<Seq<Seq<char>>, PathInfo>,
    later: Map<Seq<Seq<char>>, PathInfo>,
    keys: Seq<Seq<Seq<char>>>,
    n: int,
) -> bool {
    &&& forall|p: Seq<Seq<char>>|
        tree.contains_key(p) <==> start.contains_key(p) || keys.take(n).contains(p)
    &&& forall|p: Seq<Seq<char>>| start.contains_key(p) ==> tree[p] == start[p]
    &&& forall|p: Seq<Seq<char>>|
        !start.contains_key(p) && keys.take(n).contains(p) ==> tree[p]@ == later[p]@
}

/// The tree of several roots from the tree of the roots that go first and
/// the tree of a root that comes later: every path that either provides,
/// with what the first provides where both do.
pub fn merge(first: Tree, later: &Tree) -> (r: Tree)
    ensures
        tree_model(r@) == tree_model(later@).union_prefer_right(tree_model(first@)),
        r.wf(),
{
    proof {
        use_type_invariant(&first);
        use_type_invariant(later);
        later.lemma_entries();
    }
    let ghost start = first@;
    let mut tree = first;
    let mut i: usize = 0;
    while i < later.len()
        invariant
            0 <= i <= later.keys().len(),
            later.wf(),
            tree.wf(),
            merged_upto(tree@, start, later@, later.keys(), i as int),
        decreases later.keys().len() - i,
    {
        let ghost keys = later.keys();
        let ghost before = tree@;
        proof {
            later.lemma_entries();
        }
        match later.entry(i) {
            None => {},
            Some((path, info)) => {
                tree = tree.insert(path.clone(), info.clone());
                proof {
                    assert(keys.take(i + 1)[i as int] == path@);
                    assert(!keys.take(i as int).contains(path@)) by {
                        if keys.take(i as int).contains(path@) {
                            let k = keys.take(i as int).index_of(path@);
                            assert(keys[k] == keys[i as int]);
                        }
                    }
                    assert forall|p: Seq<Seq<char>>|
                        tree@.contains_key(p) <==> start.contains_key(p) || keys.take(
                            i + 1,
                        ).contains(p) by {
                        assert(before.contains_key(p) <==> start.contains_key(p) || keys.take(
                            i as int,
                        ).contains(p));
                        if keys.take(i as int).contains(p) {
                            let k = keys.take(i as int).index_of(p);
                            assert(keys.take(i + 1)[k] == p);
                        }
                        if keys.take(i + 1).contains(p) && p != path@ {
                            let k = keys.take(i + 1).index_of(p);
                            assert(keys.take(i as int)[k] == p);
                        }
                    }
                    assert forall|p: Seq<Seq<char>>|
                        !start.contains_key(p) && keys.take(i + 1).contains(p) implies tree@[p]@
                        == later@[p]@ by {
                        if p != path@ {
                            let k = keys.take(i + 1).index_of(p);
                            assert(keys.take(i as int)[k] == p);
                            assert(keys.take(i as int).contains(p));
                        } else {
                            assert(!before.contains_key(path@));
                            assert(later@[path@] == *info);
                        }
                    }
                    assert(merged_upto(tree@, start, later@, keys, i + 1));
                }
            },
        }
        i = i + 1;
    }
    proof {
        assert(later.keys().take(i as int) =~= later.keys());
        later.lemma_entries();
        let merged = tree_model(later@).union_prefer_right(tree_model(start));
        assert forall|p: Seq<Seq<char>>| tree_model(tree@).contains_key(p) <==> merged.contains_key(
            p,
        ) by {
            assert(later@.contains_key(p) <==> later.keys().contains(p));
        }
        assert forall|p: Seq<Seq<char>>| tree_model(tree@).contains_key(p) implies tree_model(
            tree@,
        )[p] == merged[p] by {
            if !start.contains_key(p) {
                assert(later.keys().contains(p));
            }
        }
        assert(tree_model(tree@) =~= merged);
    }
    tree
}

/// What a tree holds after a root was found to provide a path: nothing new
/// where an earlier root provides the path, else the path with its state.
/// A path that cannot be classified fails the walk.
pub open spec fn recorded_in(
    tree: Map<Seq<Seq<char>>, PathInfoModel>,
    root: Seq<char>,
    path: Seq<Seq<char>>,
    location: Seq<char>,
    identity: Option<Identity>,
    found: crate::state::FoundModel,
) -> Result<Map<Seq<Seq<char>>, PathInfoModel>, ErrorModel> {
    match classified(location, found) {
        Err(e) => Err(e),
        Ok(state) => if tree.contains_key(path) {
            Ok(tree)
        } else {
            Ok(tree.insert(path, PathInfoModel { root, identity, state }))
        },
    }
}

/// The view of a tree or of the error in its place.
pub open spec fn walked_model(r: Result<Tree, DiffError>) -> Result<
    Map<Seq<Seq<char>>, PathInfoModel>,
    ErrorModel,
> {
    match r {
        Ok(tree) => Ok(tree_model(tree@)),
        Err(e) => Err(e@),
    }
}

/// Records in a tree what a root provides at a relative path: `location` is
/// where the path lies in the file system, and `found` what was found
/// there.
pub fn record(
    tree: Tree,
    root: &str,
    path: RelativePath,
    location: &str,
    identity: Option<Identity>,
    found: Found,
) -> (r: Result<Tree, DiffError>)
    ensures
        walked_model(r) == recorded_in(
            tree_model(tree@),
            root@,
            path@,
            location@,
            identity,
            found@,
        ),
        r matches Ok(t) ==> t.wf(),
{
    proof {
        use_type_invariant(&tree);
    }
    match classify(location, found) {
        Err(e) => Err(e),
        Ok(state) => {
            let ghost before = tree@;
            let info = PathInfo::new(root.to_owned(), identity, state);
            let after = tree.insert(path, info);
            proof {
                if before.contains_key(path@) {
                    assert(tree_model(after@) =~= tree_model(before));
                } else {
                    assert(tree_model(after@) =~= tree_model(before).insert(path@, info@));
                }
            }
            Ok(after)
        },
    }
}

/// The model of a [`Walked`].
pub struct WalkedModel {
    pub root: Seq<char>,
    pub path: Seq<Seq<char>>,
    pub location: Seq<char>,
    pub identity: Option<Identity>,
    pub found: crate::state::FoundModel,
}

/// What a walk met at one path: the root that was walked, the path below
/// it, where the path lies in the file system, and what was found there.
#[derive(Debug)]
pub struct Walked {
    pub root: String,
    pub path: RelativePath,
    pub location: String,
    pub identity: Option<Identity>,
    pub found: Found,
}

impl View for Walked {
    type V = WalkedModel;

    open spec fn view(&self) -> WalkedModel {
        WalkedModel {
            root: self.root@,
            path: self.path@,
            location: self.location@,
            identity: self.identity,
            found: self.found@,
        }
    }
}

/// The models of what a walk met.
pub open spec fn walk_model(entries: Seq<Walked>) -> Seq<WalkedModel> {
    Seq::new(entries.len(), |i: int| entries[i]@)
}

/// The tree of the first `n` paths that a walk met, in the order in which
/// it met them: the first root that provides a path wins, and the first
/// path that cannot be classified fails the walk as a whole.
pub open spec fn walked_upto(entries: Seq<WalkedModel>, n: int) -> Result<
    Map<Seq<Seq<char>>, PathInfoModel>,
    ErrorModel,
>
    decreases n,
{
    if n <= 0 {
        Ok(Map::empty())
    } else {
        match walked_upto(entries, n - 1) {
            Err(e) => Err(e),
            Ok(tree) => recorded_in(
                tree,
                entries[n - 1].root,
                entries[n - 1].path,
                entries[n - 1].location,
                entries[n - 1].identity,
                entries[n - 1].found,
            ),
        }
    }
}

/// The tree of all that a walk met.
pub open spec fn walked(entries: Seq<WalkedModel>) -> Result<
    Map<Seq<Seq<char>>, PathInfoModel>,
    ErrorModel,
> {
    walked_upto(entries, entries.len() as int)
}

/// Makes the tree of what a walk through the roots of one side met, in the
/// order in which it met it.
pub fn walk_roots(entries: Vec<Walked>) -> (r: Result<Tree, DiffError>)
    ensures
        walked_model(r) == walked(walk_model(entries@)),
        r matches Ok(t) ==> t.wf(),
{
    let ghost all = walk_model(entries@);
    let ghost given = entries@;
    let mut rest = entries;
    let mut stack: Vec<Walked> = Vec::new();
    while rest.len() > 0
        invariant
            given == entries@,
            rest@.len() + stack@.len() == given.len(),
            forall|j: int| 0 <= j < rest@.len() ==> rest@[j] == given[j],
            forall|j: int| 0 <= j < stack@.len() ==> stack@[j] == given[given.len() - 1 - j],
        decreases rest@.len(),
    {
        match rest.pop() {
            Some(entry) => {
                stack.push(entry);
            },
            None => {},
        }
    }
    let mut tree: Tree = PathMap::new();
    let mut done: usize = 0;
    let total = stack.len();
    proof {
        assert(tree_model(tree@) =~= Map::<Seq<Seq<char>>, PathInfoModel>::empty());
    }
    while stack.len() > 0
        invariant
            given == entries@,
            all == walk_model(given),
            total == given.len(),
            done + stack@.len() == given.len(),
            forall|j: int| 0 <= j < stack@.len() ==> stack@[j] == given[given.len() - 1 - j],
            walked_upto(all, done as int) == Ok::<Map<Seq<Seq<char>>, PathInfoModel>, ErrorModel>(
                tree_model(tree@),
            ),
            tree.wf(),
        decreases stack@.len(),
    {
        match stack.pop() {
            Some(entry) => {
                assert(entry == given[done as int]);
                assert(all[done as int] == entry@);
                let Walked { root, path, location, identity, found } = entry;
                match record(tree, root.as_str(), path, location.as_str(), identity, found) {
                    Ok(next) => {
                        tree = next;
                    },
                    Err(e) => {
                        proof {
                            assert(walked_upto(all, done + 1) == Err::<
                                Map<Seq<Seq<char>>, PathInfoModel>,
                                ErrorModel,
                            >(e@));
                            lemma_walk_stays_failed(all, done + 1, given.len() as int);
                        }
                        return Err(e);
                    },
                }
                done = done + 1;
            },
            None => {},
        }
    }
    Ok(tree)
}

/// A walk that has failed stays failed.
pub proof fn lemma_walk_stays_failed(entries: Seq<WalkedModel>, n: int, m: int)
    requires
        walked_upto(entries, n) is Err,
        n <= m,
    ensures
        walked_upto(entries, m) == walked_upto(entries, n),
    decreases m - n,
{
    if n < m {
        lemma_walk_stays_failed(entries, n, m - 1);
    }
}

/// The first path that cannot be classified fails the walk, with its own
/// error: a link that leads into a loop fails the walk with the loop.
pub proof fn law_first_failure_fails_the_walk(
    entries: Seq<WalkedModel>,
    k: int,
    e: ErrorModel,
)
    requires
        0 <= k < entries.len(),
        forall|i: int| 0 <= i < k ==> classified(entries[i].location, entries[i].found) is Ok,
        classified(entries[k].location, entries[k].found) == Err::<
            crate::state::PathStateModel,
            ErrorModel,
        >(e),
    ensures
        walked(entries) == Err::<Map<Seq<Seq<char>>, PathInfoModel>, ErrorModel>(e),
{
    lemma_walk_goes_on(entries, k);
    lemma_walk_stays_failed(entries, k + 1, entries.len() as int);
}

/// A walk goes on as long as every path can be classified.
proof fn lemma_walk_goes_on(entries: Seq<WalkedModel>, n: int)
    requires
        0 <= n <= entries.len(),
        forall|i: int| 0 <= i < n ==> classified(entries[i].location, entries[i].found) is Ok,
    ensures
        walked_upto(entries, n) is Ok,
    decreases n,
{
    if n > 0 {
        lemma_walk_goes_on(entries, n - 1);
    }
}

} // verus!
