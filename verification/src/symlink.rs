//! Chains of symbolic links: from a link over every hop to what is no link.
//!
//! Following a chain means asking the file system at each hop. The walk is
//! therefore written as a state with one step: the caller asks the file
//! system about the walk's current path and hands the answer in. Against a
//! table of links the whole walk is run here, and is proved to end.

use vstd::prelude::*;
use crate::absolute::absolutize_from;
use crate::absolute::absolutized;
use crate::absolute::parent_of;
use crate::absolute::path_parent;
use crate::error::DiffError;
use crate::error::ErrorModel;
use crate::text::copy_texts;
use crate::text::holds_text;
use crate::text::interleaved;
use crate::text::join_texts;
use crate::text::no_repeats;
use crate::text::same_texts;
use crate::text::texts;

verus! {

/// The model of a [`SymlinkChain`].
pub struct ChainModel {
    pub intermediate: Seq<Seq<char>>,
    pub to: Seq<char>,
}

/// Where a symbolic link leads: the links met on the way, in their order,
/// and the path at the end, which is no link. No path occurs twice in a
/// chain.
#[derive(Debug)]
pub struct SymlinkChain {
    intermediate: Vec<String>,
    to: String,
}

impl View for SymlinkChain {
    type V = ChainModel;

    closed spec fn view(&self) -> ChainModel {
        ChainModel { intermediate: texts(self.intermediate@), to: self.to@ }
    }
}

/// Every path of the chain: the hops, then the end.
pub open spec fn destinations_of(chain: ChainModel) -> Seq<Seq<char>> {
    chain.intermediate.push(chain.to)
}

/// No path occurs twice in the chain.
pub open spec fn chain_wf(chain: ChainModel) -> bool {
    destinations_of(chain).no_duplicates()
}

/// The view of a chain that may have been refused.
pub open spec fn optional_chain(r: Option<SymlinkChain>) -> Option<ChainModel> {
    match r {
        Some(chain) => Some(chain@),
        None => None,
    }
}

impl Clone for SymlinkChain {
    fn clone(&self) -> (r: Self)
        ensures
            r@ == self@,
    {
        proof {
            use_type_invariant(self);
        }
        let intermediate = copy_texts(&self.intermediate);
        let to = self.to.clone();
        SymlinkChain { intermediate, to }
    }
}

impl SymlinkChain {
    /// Every value of the type holds each of its paths once.
    #[verifier::type_invariant]
    pub closed spec fn wf(self) -> bool {
        chain_wf(self@)
    }

    /// What the invariant says of the view.
    pub proof fn lemma_wf(self)
        requires
            self.wf(),
        ensures
            chain_wf(self@),
    {
    }

    /// The chain with the given hops and end, where no path occurs twice
    /// among them.
    pub fn new(intermediate: Vec<String>, to: String) -> (r: Option<SymlinkChain>)
        ensures
            optional_chain(r) == (if chain_wf(
                ChainModel { intermediate: texts(intermediate@), to: to@ },
            ) {
                Some(ChainModel { intermediate: texts(intermediate@), to: to@ })
            } else {
                None
            }),
            r matches Some(chain) ==> chain.wf(),
    {
        let ghost model = ChainModel { intermediate: texts(intermediate@), to: to@ };
        if holds_text(&intermediate, to.as_str()) {
            proof {
                let i = texts(intermediate@).index_of(to@);
                let all = destinations_of(model);
                assert(all[i] == to@);
                assert(all[all.len() - 1] == to@);
            }
            return None;
        }
        if !no_repeats(&intermediate) {
            proof {
                let hops = texts(intermediate@);
                let all = destinations_of(model);
                if all.no_duplicates() {
                    assert forall|i: int, j: int|
                        0 <= i < hops.len() && 0 <= j < hops.len() && i != j implies hops[i]
                        != hops[j] by {
                        assert(all[i] == hops[i] && all[j] == hops[j]);
                    }
                }
            }
            return None;
        }
        proof {
            let hops = texts(intermediate@);
            let all = destinations_of(model);
            assert forall|i: int, j: int|
                0 <= i < all.len() && 0 <= j < all.len() && i != j implies all[i] != all[j] by {
                if i < hops.len() && j < hops.len() {
                    assert(all[i] == hops[i] && all[j] == hops[j]);
                } else if i < hops.len() {
                    assert(hops.contains(all[i]));
                } else {
                    assert(hops.contains(all[j]));
                }
            }
        }
        Some(SymlinkChain { intermediate, to })
    }

    /// The links met on the way, in their order.
    pub fn intermediate(&self) -> (r: &Vec<String>)
        ensures
            texts(r@) == self@.intermediate,
    {
        &self.intermediate
    }

    /// The path at the end, which is no link.
    pub fn to(&self) -> (r: &str)
        ensures
            r@ == self@.to,
    {
        self.to.as_str()
    }

    /// Every path of the chain: the hops, then the end. Never empty.
    pub fn destinations(&self) -> (r: Vec<String>)
        ensures
            texts(r@) == destinations_of(self@),
    {
        let mut out = copy_texts(&self.intermediate);
        let ghost before = out@;
        out.push(self.to.clone());
        assert(texts(out@) =~= texts(before).push(self.to@));
        out
    }

    /// The chain as text: its paths with an arrow between them.
    pub fn to_text(&self) -> (r: String)
        ensures
            r@ == interleaved(destinations_of(self@), " -> "@),
    {
        let all = self.destinations();
        assert(texts(all@).len() == all@.len());
        join_texts(&all, " -> ")
    }

    /// Tells whether two chains hold the same paths.
    pub fn same(&self, other: &SymlinkChain) -> (r: bool)
        ensures
            r == (self@ == other@),
    {
        same_texts(&self.intermediate, &other.intermediate) && self.to == other.to
    }
}

/// The model of a [`LinkProbe`].
pub enum ProbeModel {
    NotLink,
    Link { target: Seq<char> },
    Failed { cause: Seq<char> },
}

/// What the file system says of one path.
#[derive(Debug)]
pub enum LinkProbe {
    /// The path is no symbolic link; it need not exist.
    NotLink,
    /// The path is a symbolic link: the target as it is written in the
    /// link, relative to the link's directory or absolute.
    Link { target: String },
    /// The path is a symbolic link that could not be read.
    Failed { cause: String },
}

impl View for LinkProbe {
    type V = ProbeModel;

    open spec fn view(&self) -> ProbeModel {
        match self {
            LinkProbe::NotLink => ProbeModel::NotLink,
            LinkProbe::Link { target } => ProbeModel::Link { target: target@ },
            LinkProbe::Failed { cause } => ProbeModel::Failed { cause: cause@ },
        }
    }
}

/// The model of a [`SymlinkWalk`].
pub struct WalkModel {
    pub seen: Seq<Seq<char>>,
    pub path: Seq<char>,
}

/// A walk along a chain of links: the links passed so far, and the path
/// that the file system is asked about next.
#[derive(Debug)]
pub struct SymlinkWalk {
    seen: Vec<String>,
    path: String,
}

impl View for SymlinkWalk {
    type V = WalkModel;

    closed spec fn view(&self) -> WalkModel {
        WalkModel { seen: texts(self.seen@), path: self.path@ }
    }
}

/// No path occurs twice among the links passed and the current path.
pub open spec fn walk_wf(w: WalkModel) -> bool {
    w.seen.push(w.path).no_duplicates()
}

/// The model of a [`WalkStep`].
pub enum StepModel {
    Next(WalkModel),
    Done(ChainModel),
    Failed(ErrorModel),
}

/// Where a walk stands after an answer from the file system.
#[derive(Debug)]
pub enum WalkStep {
    /// The walk goes on: ask about its path.
    Next(SymlinkWalk),
    /// The walk has reached what is no link.
    Done(SymlinkChain),
    /// The walk has failed.
    Failed(DiffError),
}

impl View for WalkStep {
    type V = StepModel;

    open spec fn view(&self) -> StepModel {
        match self {
            WalkStep::Next(w) => StepModel::Next(w@),
            WalkStep::Done(c) => StepModel::Done(c@),
            WalkStep::Failed(e) => StepModel::Failed(e@),
        }
    }
}

/// The path that a link leads to: its target, read from the directory that
/// holds the link.
pub open spec fn resolve_target(link: Seq<char>, target: Seq<char>) -> Result<
    Seq<char>,
    Seq<char>,
> {
    match parent_of(link) {
        Some(dir) => absolutized(target, dir),
        None => Ok(target),
    }
}

/// The chain that a walk has found when its path turns out to be no link.
pub open spec fn chain_found(w: WalkModel) -> ChainModel {
    ChainModel {
        intermediate: if w.seen.len() == 0 {
            Seq::empty()
        } else {
            w.seen.drop_first()
        },
        to: w.path,
    }
}

/// The step that an answer leads to.
pub open spec fn advanced(w: WalkModel, probe: ProbeModel) -> StepModel {
    match probe {
        ProbeModel::NotLink => StepModel::Done(chain_found(w)),
        ProbeModel::Failed { cause } => StepModel::Failed(
            ErrorModel::IoError { path: w.path, cause },
        ),
        ProbeModel::Link { target } => match resolve_target(w.path, target) {
            Err(lossy) => StepModel::Failed(ErrorModel::PathEncodingError { path: lossy }),
            Ok(next) => if w.seen.push(w.path).contains(next) {
                StepModel::Failed(ErrorModel::SymlinkLoop { paths: w.seen.push(w.path) })
            } else {
                StepModel::Next(WalkModel { seen: w.seen.push(w.path), path: next })
            },
        },
    }
}

impl SymlinkWalk {
    #[verifier::type_invariant]
    pub closed spec fn wf(self) -> bool {
        walk_wf(self@)
    }

    /// The walk that starts at a path.
    pub fn new(path: String) -> (r: SymlinkWalk)
        ensures
            r@ == (WalkModel { seen: Seq::empty(), path: path@ }),
            walk_wf(r@),
    {
        let seen: Vec<String> = Vec::new();
        assert(texts(seen@) =~= Seq::<Seq<char>>::empty());
        SymlinkWalk { seen, path }
    }

    /// The path to ask the file system about.
    pub fn path(&self) -> (r: &str)
        ensures
            r@ == self@.path,
    {
        self.path.as_str()
    }

    /// Takes the file system's answer about the walk's path. A link is
    /// followed to its target, which is read from the link's directory; a
    /// target that the walk has passed before ends it as a loop.
    pub fn advance(self, probe: LinkProbe) -> (r: WalkStep)
        ensures
            r@ == advanced(self@, probe@),
            walk_wf(self@),
            r matches WalkStep::Next(w) ==> walk_wf(w@),
            r matches WalkStep::Done(c) ==> chain_wf(c@),
    {
        proof {
            use_type_invariant(&self);
        }
        let ghost before = self@;
        let SymlinkWalk { seen, path } = self;
        match probe {
            LinkProbe::NotLink => {
                let mut intermediate: Vec<String> = Vec::new();
                let mut i: usize = 1;
                while i < seen.len()
                    invariant
                        1 <= i,
                        seen.len() > 0 ==> i <= seen.len(),
                        seen.len() > 0 ==> intermediate@.len() == i - 1,
                        seen.len() == 0 ==> intermediate@.len() == 0,
                        forall|j: int| 0 <= j < intermediate@.len() ==> intermediate@[j]@ == seen@[j + 1]@,
                    decreases seen.len() - i,
                {
                    intermediate.push(seen[i].clone());
                    i = i + 1;
                }
                proof {
                    let hops = texts(intermediate@);
                    assert(hops =~= chain_found(before).intermediate);
                    let all = before.seen.push(before.path);
                    let found = hops.push(path@);
                    assert forall|i: int, j: int|
                        0 <= i < found.len() && 0 <= j < found.len() && i != j implies found[i]
                        != found[j] by {
                        if before.seen.len() > 0 {
                            assert(found[i] == all[i + 1]);
                            assert(found[j] == all[j + 1]);
                        }
                    }
                }
                let chain = SymlinkChain { intermediate, to: path };
                WalkStep::Done(chain)
            },
            LinkProbe::Failed { cause } => WalkStep::Failed(DiffError::IoError { path, cause }),
            LinkProbe::Link { target } => {
                let resolved = match path_parent(path.as_str()) {
                    Some(dir) => absolutize_from(target.as_str(), dir.as_str()),
                    None => Ok(target),
                };
                match resolved {
                    Err(lossy) => WalkStep::Failed(DiffError::PathEncodingError { path: lossy }),
                    Ok(next) => {
                        let mut seen = seen;
                        let ghost passed = texts(seen@);
                        seen.push(path);
                        assert(texts(seen@) =~= passed.push(before.path));
                        if holds_text(&seen, next.as_str()) {
                            WalkStep::Failed(DiffError::SymlinkLoop { paths: seen })
                        } else {
                            proof {
                                let all = texts(seen@).push(next@);
                                assert forall|i: int, j: int|
                                    0 <= i < all.len() && 0 <= j < all.len() && i != j implies all[i]
                                    != all[j] by {
                                    if i < texts(seen@).len() && j < texts(seen@).len() {
                                        assert(all[i] == texts(seen@)[i]);
                                        assert(all[j] == texts(seen@)[j]);
                                    } else if i < texts(seen@).len() {
                                        assert(texts(seen@).contains(all[i]));
                                    } else {
                                        assert(texts(seen@).contains(all[j]));
                                    }
                                }
                            }
                            WalkStep::Next(SymlinkWalk { seen, path: next })
                        }
                    },
                }
            },
        }
    }
}

/// The model of a [`Link`].
pub struct LinkModel {
    pub from: Seq<char>,
    pub target: Seq<char>,
}

/// A symbolic link: its own path, and the target as it is written in it.
#[derive(Debug)]
pub struct Link {
    pub from: String,
    pub target: String,
}

impl View for Link {
    type V = LinkModel;

    open spec fn view(&self) -> LinkModel {
        LinkModel { from: self.from@, target: self.target@ }
    }
}

/// The models of a table of links.
pub open spec fn links_of(links: Seq<Link>) -> Seq<LinkModel> {
    Seq::new(links.len(), |i: int| links[i]@)
}

/// The entry at `i` is the first one for the path.
pub open spec fn first_link(links: Seq<LinkModel>, path: Seq<char>, i: int) -> bool {
    &&& 0 <= i < links.len()
    &&& links[i].from == path
    &&& forall|j: int| 0 <= j < i ==> links[j].from != path
}

/// What a table of links says of a path: a link where it has an entry for
/// it, with the target of the first one.
pub open spec fn probe_of(links: Seq<LinkModel>, path: Seq<char>) -> ProbeModel {
    if exists|i: int| first_link(links, path, i) {
        ProbeModel::Link { target: links[choose|i: int| first_link(links, path, i)].target }
    } else {
        ProbeModel::NotLink
    }
}

/// Where the walk from a path stands after `n` answers from the table; a
/// walk that has ended stays where it ended.
pub open spec fn walk_after(links: Seq<LinkModel>, path: Seq<char>, n: nat) -> StepModel
    decreases n,
{
    if n == 0 {
        StepModel::Next(WalkModel { seen: Seq::empty(), path })
    } else {
        match walk_after(links, path, (n - 1) as nat) {
            StepModel::Next(w) => advanced(w, probe_of(links, w.path)),
            ended => ended,
        }
    }
}

/// The walk from a path ends with its `n`-th answer, in the given outcome.
pub open spec fn walk_ends(
    links: Seq<LinkModel>,
    path: Seq<char>,
    n: nat,
    outcome: Result<ChainModel, ErrorModel>,
) -> bool {
    &&& n > 0
    &&& walk_after(links, path, (n - 1) as nat) is Next
    &&& match walk_after(links, path, n) {
        StepModel::Next(_) => false,
        StepModel::Done(chain) => outcome == Ok::<ChainModel, ErrorModel>(chain),
        StepModel::Failed(e) => outcome == Err::<ChainModel, ErrorModel>(e),
    }
}

/// The outcome of following the links of a table from a path.
pub open spec fn resolution(
    links: Seq<LinkModel>,
    path: Seq<char>,
    outcome: Result<ChainModel, ErrorModel>,
) -> bool {
    exists|n: nat| walk_ends(links, path, n, outcome)
}

/// The view of an outcome.
pub open spec fn outcome_of(r: Result<SymlinkChain, DiffError>) -> Result<ChainModel, ErrorModel> {
    match r {
        Ok(chain) => Ok(chain@),
        Err(e) => Err(e@),
    }
}

/// What a table of links says of a path.
pub fn probe(links: &Vec<Link>, path: &str) -> (r: LinkProbe)
    ensures
        r@ == probe_of(links_of(links@), path@),
{
    let mut i: usize = 0;
    while i < links.len()
        invariant
            0 <= i <= links.len(),
            forall|j: int| 0 <= j < i ==> links_of(links@)[j].from != path@,
        decreases links.len() - i,
    {
        if crate::text::text_equal(links[i].from.as_str(), path) {
            assert(first_link(links_of(links@), path@, i as int));
            return LinkProbe::Link { target: links[i].target.clone() };
        }
        i = i + 1;
    }
    LinkProbe::NotLink
}

/// The paths for which a table holds a link.
pub open spec fn linked(links: Seq<LinkModel>) -> Set<Seq<char>> {
    Seq::new(links.len(), |i: int| links[i].from).to_set()
}

/// Follows a symbolic link through a table of links to what is no link. The
/// walk ends for every table: a path that comes up twice ends it as a loop,
/// and no more paths can come up than the table holds links.
pub fn read_symlink(path: String, links: &Vec<Link>) -> (r: Result<SymlinkChain, DiffError>)
    ensures
        resolution(links_of(links@), path@, outcome_of(r)),
        r matches Ok(chain) ==> chain_wf(chain@),
        r matches Err(e) ==> !(e@ is IoError),
{
    let ghost table = links_of(links@);
    let ghost start = path@;
    let mut walk = SymlinkWalk::new(path);
    let ghost mut n: nat = 0;
    proof {
        vstd::seq_lib::seq_to_set_is_finite(Seq::new(table.len(), |i: int| table[i].from));
    }
    loop
        invariant
            table == links_of(links@),
            start == path@,
            walk_after(table, start, n) == StepModel::Next(walk@),
            walk_wf(walk@),
            linked(table).finite(),
            forall|i: int| 0 <= i < walk@.seen.len() ==> linked(table).contains(walk@.seen[i]),
        decreases linked(table).len() - walk@.seen.len(),
    {
        let answer = probe(links, walk.path());
        let ghost before = walk@;
        proof {
            let seen = before.seen;
            assert(seen.no_duplicates()) by {
                let all = seen.push(before.path);
                assert forall|i: int, j: int|
                    0 <= i < seen.len() && 0 <= j < seen.len() && i != j implies seen[i]
                    != seen[j] by {
                    assert(all[i] == seen[i]);
                    assert(all[j] == seen[j]);
                }
            }
            seen.unique_seq_to_set();
            assert(seen.to_set().subset_of(linked(table)));
            vstd::set_lib::lemma_len_subset(seen.to_set(), linked(table));
        }
        match walk.advance(answer) {
            WalkStep::Next(next) => {
                proof {
                    let i = choose|i: int| first_link(table, before.path, i);
                    assert(Seq::new(table.len(), |i: int| table[i].from)[i] == before.path);
                    assert(linked(table).contains(before.path));
                    let seen = next@.seen;
                    assert(seen.no_duplicates()) by {
                        let all = seen.push(next@.path);
                        assert forall|i: int, j: int|
                            0 <= i < seen.len() && 0 <= j < seen.len() && i != j implies seen[i]
                            != seen[j] by {
                            assert(all[i] == seen[i]);
                            assert(all[j] == seen[j]);
                        }
                    }
                    seen.unique_seq_to_set();
                    assert(seen.to_set().subset_of(linked(table)));
                    vstd::set_lib::lemma_len_subset(seen.to_set(), linked(table));
                    n = n + 1;
                }
                walk = next;
            },
            WalkStep::Done(chain) => {
                proof {
                    assert(walk_ends(table, start, n + 1, Ok(chain@)));
                }
                return Ok(chain);
            },
            WalkStep::Failed(e) => {
                proof {
                    assert(walk_ends(table, start, n + 1, Err(e@)));
                }
                return Err(e);
            },
        }
    }
}

/// A walk that has ended stays where it ended.
pub proof fn lemma_walk_stays(links: Seq<LinkModel>, path: Seq<char>, n: nat, m: nat)
    requires
        !(walk_after(links, path, n) is Next),
        n <= m,
    ensures
        walk_after(links, path, m) == walk_after(links, path, n),
    decreases m,
{
    if n < m {
        lemma_walk_stays(links, path, n, (m - 1) as nat);
    }
}

/// A walk has one outcome: what [`read_symlink`] returns is decided by the
/// table and the path.
pub proof fn law_resolution_unique(
    links: Seq<LinkModel>,
    path: Seq<char>,
    first: Result<ChainModel, ErrorModel>,
    second: Result<ChainModel, ErrorModel>,
)
    requires
        resolution(links, path, first),
        resolution(links, path, second),
    ensures
        first == second,
{
    let n = choose|n: nat| walk_ends(links, path, n, first);
    let m = choose|m: nat| walk_ends(links, path, m, second);
    if n < m {
        lemma_walk_stays(links, path, n, (m - 1) as nat);
    } else if m < n {
        lemma_walk_stays(links, path, m, (n - 1) as nat);
    }
}

/// A link that leads to a second link that leads back to the first is a
/// loop: following it fails, and the error names both.
pub proof fn law_two_link_loop(
    links: Seq<LinkModel>,
    a: Seq<char>,
    b: Seq<char>,
    a_target: Seq<char>,
    b_target: Seq<char>,
    outcome: Result<ChainModel, ErrorModel>,
)
    requires
        a != b,
        probe_of(links, a) == (ProbeModel::Link { target: a_target }),
        probe_of(links, b) == (ProbeModel::Link { target: b_target }),
        resolve_target(a, a_target) == Ok::<Seq<char>, Seq<char>>(b),
        resolve_target(b, b_target) == Ok::<Seq<char>, Seq<char>>(a),
        resolution(links, a, outcome),
    ensures
        outcome == Err::<ChainModel, ErrorModel>(ErrorModel::SymlinkLoop { paths: seq![a, b] }),
{
    let start = WalkModel { seen: Seq::empty(), path: a };
    let second = WalkModel { seen: seq![a], path: b };
    assert(walk_after(links, a, 0) == StepModel::Next(start));
    assert(start.seen.push(a) =~= seq![a]);
    assert(!seq![a].contains(b));
    assert(walk_after(links, a, 1) == StepModel::Next(second)) by {
        reveal_with_fuel(walk_after, 2);
    }
    assert(second.seen.push(b) =~= seq![a, b]);
    assert(seq![a, b][0] == a);
    assert(seq![a, b].contains(a));
    let failed = StepModel::Failed(ErrorModel::SymlinkLoop { paths: seq![a, b] });
    assert(walk_after(links, a, 2) == failed) by {
        reveal_with_fuel(walk_after, 3);
    }
    let looped = Err::<ChainModel, ErrorModel>(ErrorModel::SymlinkLoop { paths: seq![a, b] });
    assert(walk_ends(links, a, 2, looped));
    law_resolution_unique(links, a, outcome, looped);
}

/// A walk that stands at its `n`-th answer, with every link that it has
/// passed in the table, comes to an end.
proof fn lemma_walk_ends_from(links: Seq<LinkModel>, path: Seq<char>, n: nat, walk: WalkModel)
    requires
        walk_after(links, path, n) == StepModel::Next(walk),
        walk_wf(walk),
        forall|i: int| 0 <= i < walk.seen.len() ==> linked(links).contains(walk.seen[i]),
    ensures
        exists|outcome: Result<ChainModel, ErrorModel>| resolution(links, path, outcome),
    decreases linked(links).len() - walk.seen.len(),
{
    vstd::seq_lib::seq_to_set_is_finite(Seq::new(links.len(), |i: int| links[i].from));
    match advanced(walk, probe_of(links, walk.path)) {
        StepModel::Done(chain) => {
            assert(walk_ends(links, path, n + 1, Ok(chain)));
            assert(resolution(links, path, Ok(chain)));
        },
        StepModel::Failed(e) => {
            assert(walk_ends(links, path, n + 1, Err(e)));
            assert(resolution(links, path, Err(e)));
        },
        StepModel::Next(next) => {
            let i = choose|i: int| first_link(links, walk.path, i);
            assert(Seq::new(links.len(), |i: int| links[i].from)[i] == walk.path);
            assert(linked(links).contains(walk.path));
            let seen = next.seen;
            assert(seen =~= walk.seen.push(walk.path));
            assert(seen.no_duplicates());
            seen.unique_seq_to_set();
            assert(seen.to_set().subset_of(linked(links)));
            vstd::set_lib::lemma_len_subset(seen.to_set(), linked(links));
            assert(walk_wf(next)) by {
                let all = seen.push(next.path);
                assert forall|i: int, j: int|
                    0 <= i < all.len() && 0 <= j < all.len() && i != j implies all[i]
                    != all[j] by {
                    if i < seen.len() && j < seen.len() {
                        assert(all[i] == seen[i] && all[j] == seen[j]);
                    } else if i < seen.len() {
                        assert(seen.contains(all[i]));
                    } else {
                        assert(seen.contains(all[j]));
                    }
                }
            }
            lemma_walk_ends_from(links, path, n + 1, next);
        },
    }
}

/// Every walk comes to an end: whatever the table of links holds, following
/// a path through it has an outcome, a chain or an error.
pub proof fn law_every_walk_ends(links: Seq<LinkModel>, path: Seq<char>)
    ensures
        exists|outcome: Result<ChainModel, ErrorModel>| resolution(links, path, outcome),
{
    let start = WalkModel { seen: Seq::empty(), path };
    assert(start.seen.push(path) =~= seq![path]);
    lemma_walk_ends_from(links, path, 0, start);
}

/// The table holds a link at `from` that leads to `to`.
pub open spec fn leads(links: Seq<LinkModel>, from: Seq<char>, to: Seq<char>) -> bool {
    match probe_of(links, from) {
        ProbeModel::Link { target } => resolve_target(from, target) == Ok::<Seq<char>, Seq<char>>(
            to,
        ),
        _ => false,
    }
}

/// Each path of the trail but the last is a link that leads to the next.
pub open spec fn is_trail(links: Seq<LinkModel>, trail: Seq<Seq<char>>) -> bool {
    &&& trail.len() > 0
    &&& trail.no_duplicates()
    &&& forall|i: int| 0 <= i < trail.len() - 1 ==> leads(links, #[trigger] trail[i], trail[i + 1])
}

/// A walk along a trail stands at the `i`-th path of the trail after `i`
/// answers, with the paths before it passed.
proof fn lemma_walk_along(links: Seq<LinkModel>, trail: Seq<Seq<char>>, i: int)
    requires
        is_trail(links, trail),
        0 <= i < trail.len(),
    ensures
        walk_after(links, trail[0], i as nat) == StepModel::Next(
            WalkModel { seen: trail.take(i), path: trail[i] },
        ),
    decreases i,
{
    if i == 0 {
        assert(trail.take(0) =~= Seq::<Seq<char>>::empty());
    } else {
        lemma_walk_along(links, trail, i - 1);
        let before = WalkModel { seen: trail.take(i - 1), path: trail[i - 1] };
        assert(leads(links, trail[i - 1], trail[i]));
        assert(before.seen.push(before.path) =~= trail.take(i));
        assert(!trail.take(i).contains(trail[i])) by {
            if trail.take(i).contains(trail[i]) {
                let k = trail.take(i).index_of(trail[i]);
                assert(trail[k] == trail[i]);
            }
        }
    }
}

/// A chain that runs into a cycle is a loop, however long the way into the
/// cycle and the cycle are: following it fails when the last link of the
/// trail is read, and the error names every link of the trail, each once, in
/// the order in which they were met.
pub proof fn law_cycle_is_a_loop(
    links: Seq<LinkModel>,
    trail: Seq<Seq<char>>,
    back: Seq<char>,
    outcome: Result<ChainModel, ErrorModel>,
)
    requires
        is_trail(links, trail),
        leads(links, trail.last(), back),
        trail.contains(back),
        resolution(links, trail[0], outcome),
    ensures
        outcome == Err::<ChainModel, ErrorModel>(ErrorModel::SymlinkLoop { paths: trail }),
        walk_ends(links, trail[0], trail.len(), outcome),
{
    let n = trail.len() as int;
    lemma_walk_along(links, trail, n - 1);
    let last = WalkModel { seen: trail.take(n - 1), path: trail[n - 1] };
    assert(last.seen.push(last.path) =~= trail);
    let looped = Err::<ChainModel, ErrorModel>(ErrorModel::SymlinkLoop { paths: trail });
    assert(walk_after(links, trail[0], n as nat) == StepModel::Failed(
        ErrorModel::SymlinkLoop { paths: trail },
    ));
    assert(walk_ends(links, trail[0], n as nat, looped));
    law_resolution_unique(links, trail[0], outcome, looped);
}

/// A chain that ends at what is no link is followed to its end: the hops
/// are the paths of the trail between the first and the last, and the walk
/// ends with the answer about the last.
pub proof fn law_chain_is_followed(
    links: Seq<LinkModel>,
    trail: Seq<Seq<char>>,
    outcome: Result<ChainModel, ErrorModel>,
)
    requires
        is_trail(links, trail),
        probe_of(links, trail.last()) == ProbeModel::NotLink,
        resolution(links, trail[0], outcome),
    ensures
        outcome == Ok::<ChainModel, ErrorModel>(
            ChainModel {
                intermediate: if trail.len() == 1 {
                    Seq::empty()
                } else {
                    trail.subrange(1, trail.len() - 1)
                },
                to: trail.last(),
            },
        ),
        walk_ends(links, trail[0], trail.len(), outcome),
{
    let n = trail.len() as int;
    lemma_walk_along(links, trail, n - 1);
    let last = WalkModel { seen: trail.take(n - 1), path: trail[n - 1] };
    let chain = ChainModel {
        intermediate: if trail.len() == 1 {
            Seq::empty()
        } else {
            trail.subrange(1, trail.len() - 1)
        },
        to: trail.last(),
    };
    if n > 1 {
        assert(last.seen.drop_first() =~= trail.subrange(1, n - 1));
    }
    assert(chain_found(last) == chain);
    assert(walk_after(links, trail[0], n as nat) == StepModel::Done(chain));
    let followed = Ok::<ChainModel, ErrorModel>(chain);
    assert(walk_ends(links, trail[0], n as nat, followed));
    law_resolution_unique(links, trail[0], outcome, followed);
}

} // verus!
