//! Relative paths: the key space of a tree and of a diff.
//!
//! A relative path is a non-empty list of components. Paths are ordered
//! component by component, each component by its characters, so that a
//! directory comes directly before everything that lies below it.

use vstd::prelude::*;
use vstd::std_specs::iter::IteratorSpec;
use vstd::string::StringExecFns;
use crate::order::lemma_lex_irreflexive;
use crate::order::lemma_lex_total;
use crate::order::lemma_lex_transitive;
use crate::order::lemma_prefix_is_less;
use crate::order::lex_less;
use crate::order::lex_less_at;
use crate::order::proper_prefix;
use crate::order::Order;
use crate::text::interleaved;
use crate::text::last_index;
use crate::text::lemma_last_index_found;
use crate::text::lemma_last_index_of_joined;
use crate::text::lemma_text_order_strict;
use crate::text::split_at;
use crate::text::split_text;
use crate::text::text_compare;
use crate::text::text_order;
use crate::text::texts;

verus! {

/// `p` comes before `q`, component by component.
pub open spec fn path_less(p: Seq<Seq<char>>, q: Seq<Seq<char>>) -> bool {
    lex_less(p, q, text_order())
}

/// `p` lies above `q`: it is a path, and a proper prefix of `q`.
pub open spec fn is_ancestor(p: Seq<Seq<char>>, q: Seq<Seq<char>>) -> bool {
    p.len() > 0 && proper_prefix(p, q)
}

/// What a component may be: not empty, and without a separator.
pub open spec fn valid_component(c: Seq<char>) -> bool {
    c.len() > 0 && !c.contains('/')
}

/// What the components of a relative path may be: at least one, each valid.
pub open spec fn valid_components(p: Seq<Seq<char>>) -> bool {
    &&& p.len() > 0
    &&& forall|i: int| 0 <= i < p.len() ==> valid_component(#[trigger] p[i])
}

/// The components written one after the other with `/` between them.
pub open spec fn joined(p: Seq<Seq<char>>) -> Seq<char> {
    interleaved(p, seq!['/'])
}

/// The pieces of `t` between its `/`.
pub open spec fn split(t: Seq<char>) -> Seq<Seq<char>> {
    split_at(t, '/')
}

/// No path comes before itself.
pub proof fn lemma_path_less_irreflexive(p: Seq<Seq<char>>)
    ensures
        !path_less(p, p),
{
    lemma_text_order_strict();
    lemma_lex_irreflexive(p, text_order());
}

/// The order of paths is transitive.
pub proof fn lemma_path_less_transitive(p: Seq<Seq<char>>, q: Seq<Seq<char>>, r: Seq<Seq<char>>)
    requires
        path_less(p, q),
        path_less(q, r),
    ensures
        path_less(p, r),
{
    lemma_text_order_strict();
    lemma_lex_transitive(p, q, r, text_order());
}

/// Of two different paths one comes before the other.
pub proof fn law_path_order_is_total(p: Seq<Seq<char>>, q: Seq<Seq<char>>)
    ensures
        path_less(p, q) || p == q || path_less(q, p),
{
    lemma_text_order_strict();
    lemma_lex_total(p, q, text_order());
}

/// No two paths come before each other.
pub proof fn lemma_path_less_asymmetric(p: Seq<Seq<char>>, q: Seq<Seq<char>>)
    requires
        path_less(p, q),
    ensures
        !path_less(q, p),
        p != q,
{
    lemma_path_less_irreflexive(p);
    if path_less(q, p) {
        lemma_path_less_transitive(p, q, p);
    }
}

/// A directory comes before everything below it.
pub proof fn lemma_ancestor_is_less(p: Seq<Seq<char>>, q: Seq<Seq<char>>)
    requires
        is_ancestor(p, q),
    ensures
        path_less(p, q),
{
    lemma_prefix_is_less(p, q, text_order());
}

/// Tells whether a text may serve as a component.
pub fn component_ok(text: &str) -> (r: bool)
    ensures
        r == valid_component(text@),
{
    let mut it = text.chars();
    let ghost mut k: int = 0;
    loop
        invariant
            0 <= k <= text@.len(),
            it.remaining() == text@.skip(k),
            it.obeys_prophetic_iter_laws(),
            forall|i: int| 0 <= i < k ==> text@[i] != '/',
        decreases text@.len() - k,
    {
        match it.next() {
            Some(c) => {
                if c == '/' {
                    assert(text@[k] == '/');
                    return false;
                }
                proof {
                    assert(text@.skip(k).drop_first() =~= text@.skip(k + 1));
                    k = k + 1;
                }
            },
            None => {
                return !text.is_empty();
            },
        }
    }
}

/// A path relative to a root: its components, the outermost first.
#[derive(Debug)]
pub struct RelativePath {
    components: Vec<String>,
}

impl View for RelativePath {
    type V = Seq<Seq<char>>;

    closed spec fn view(&self) -> Seq<Seq<char>> {
        texts(self.components@)
    }
}

impl Clone for RelativePath {
    fn clone(&self) -> (r: Self)
        ensures
            r@ == self@,
    {
        proof {
            use_type_invariant(self);
        }
        let mut components: Vec<String> = Vec::new();
        let mut i: usize = 0;
        while i < self.components.len()
            invariant
                0 <= i <= self.components.len(),
                components@.len() == i,
                forall|j: int| 0 <= j < i ==> components@[j]@ == self.components@[j]@,
            decreases self.components.len() - i,
        {
            components.push(self.components[i].clone());
            i = i + 1;
        }
        assert(texts(components@) =~= texts(self.components@));
        RelativePath { components }
    }
}

impl RelativePath {
    /// Every value of the type holds at least one component, and none that
    /// is empty or holds a separator.
    #[verifier::type_invariant]
    pub closed spec fn wf(self) -> bool {
        valid_components(texts(self.components@))
    }

    /// What the invariant says of the view.
    pub proof fn lemma_wf(self)
        requires
            self.wf(),
        ensures
            valid_components(self@),
    {
    }

    /// The path with the given components, where they are valid.
    pub fn from_components(components: Vec<String>) -> (r: Option<RelativePath>)
        ensures
            r is Some <==> valid_components(texts(components@)),
            r matches Some(p) ==> p@ == texts(components@) && p.wf(),
    {
        if components.len() == 0 {
            return None;
        }
        let mut i: usize = 0;
        while i < components.len()
            invariant
                0 <= i <= components.len(),
                forall|j: int| 0 <= j < i ==> valid_component(#[trigger] texts(components@)[j]),
            decreases components.len() - i,
        {
            if !component_ok(components[i].as_str()) {
                assert(!valid_component(texts(components@)[i as int]));
                return None;
            }
            i = i + 1;
        }
        Some(RelativePath { components })
    }

    /// The path that a text with `/` between the components stands for.
    pub fn parse(text: &str) -> (r: Option<RelativePath>)
        ensures
            r is Some <==> valid_components(split(text@)),
            r matches Some(p) ==> p@ == split(text@) && p.wf(),
    {
        let components = split_text(text, '/');
        RelativePath::from_components(components)
    }

    /// The number of components.
    pub fn depth(&self) -> (r: usize)
        ensures
            r == self@.len(),
            r > 0,
    {
        proof {
            use_type_invariant(self);
        }
        self.components.len()
    }

    /// The last component: the entry's own name.
    pub fn file_name(&self) -> (r: &str)
        ensures
            r@ == self@.last(),
    {
        proof {
            use_type_invariant(self);
        }
        self.components[self.components.len() - 1].as_str()
    }

    /// The path of the directory that holds this one, where it is not the
    /// root itself.
    pub fn parent(&self) -> (r: Option<RelativePath>)
        ensures
            r is Some <==> self@.len() > 1,
            r matches Some(p) ==> p@ == self@.drop_last() && p.wf(),
    {
        proof {
            use_type_invariant(self);
        }
        let n = self.components.len();
        if n <= 1 {
            return None;
        }
        let mut components: Vec<String> = Vec::new();
        let mut i: usize = 0;
        while i < n - 1
            invariant
                n == self.components.len(),
                n > 1,
                0 <= i <= n - 1,
                components@.len() == i,
                forall|j: int| 0 <= j < i ==> components@[j]@ == self.components@[j]@,
            decreases n - i,
        {
            components.push(self.components[i].clone());
            i = i + 1;
        }
        proof {
            assert(texts(components@) =~= texts(self.components@).drop_last());
            assert forall|j: int| 0 <= j < components@.len() implies valid_component(
                #[trigger] texts(components@)[j],
            ) by {
                assert(texts(components@)[j] == texts(self.components@)[j]);
            }
        }
        Some(RelativePath { components })
    }

    /// The path of an entry of this directory.
    pub fn child(&self, name: &str) -> (r: Option<RelativePath>)
        ensures
            r is Some <==> valid_component(name@),
            r matches Some(p) ==> p@ == self@.push(name@) && p.wf(),
    {
        proof {
            use_type_invariant(self);
        }
        if !component_ok(name) {
            return None;
        }
        let path = self.clone();
        proof {
            use_type_invariant(&path);
        }
        let mut components = path.components;
        let ghost before = components@;
        components.push(name.to_owned());
        proof {
            assert(texts(components@) =~= texts(before).push(name@));
        }
        Some(RelativePath { components })
    }

    /// The components with `/` between them.
    pub fn text(&self) -> (r: String)
        ensures
            r@ == joined(self@),
    {
        proof {
            use_type_invariant(self);
        }
        let mut out = self.components[0].clone();
        let mut i: usize = 1;
        assert(self@.take(1) =~= seq![self@[0]]);
        while i < self.components.len()
            invariant
                1 <= i <= self.components.len(),
                out@ == joined(self@.take(i as int)),
            decreases self.components.len() - i,
        {
            out.append("/");
            out.append(self.components[i].as_str());
            proof {
                reveal_strlit("/");
                assert("/"@ =~= seq!['/']);
                assert(self@.take(i + 1).drop_last() =~= self@.take(i as int));
                assert(self@.take(i + 1).last() == self.components@[i as int]@);
            }
            i = i + 1;
        }
        assert(self@.take(i as int) =~= self@);
        out
    }

    /// Compares two paths component by component.
    pub fn compare(&self, other: &RelativePath) -> (r: Order)
        ensures
            r == Order::Less <==> path_less(self@, other@),
            r == Order::Equal <==> self@ == other@,
            r == Order::Greater <==> path_less(other@, self@),
    {
        let mut i: usize = 0;
        let mut r = Order::Equal;
        let mut done = false;
        while !done
            invariant
                0 <= i <= self.components.len(),
                i <= other.components.len(),
                forall|j: int| 0 <= j < i ==> self@[j] == other@[j],
                done ==> (r == Order::Less && lex_less_at(self@, other@, i as int, text_order()))
                    || (r == Order::Equal && self@ == other@) || (r == Order::Greater
                    && lex_less_at(other@, self@, i as int, text_order())),
            decreases self.components.len() - i, (if done { 0int } else { 1int }),
        {
            if i == self.components.len() {
                if i == other.components.len() {
                    assert(self@ =~= other@);
                    r = Order::Equal;
                } else {
                    r = Order::Less;
                }
                done = true;
            } else if i == other.components.len() {
                r = Order::Greater;
                done = true;
            } else {
                match text_compare(self.components[i].as_str(), other.components[i].as_str()) {
                    Order::Less => {
                        r = Order::Less;
                        done = true;
                    },
                    Order::Greater => {
                        r = Order::Greater;
                        done = true;
                    },
                    Order::Equal => {
                        i = i + 1;
                    },
                }
            }
        }
        proof {
            lemma_path_less_irreflexive(self@);
            if path_less(self@, other@) {
                lemma_path_less_asymmetric(self@, other@);
            }
            if path_less(other@, self@) {
                lemma_path_less_asymmetric(other@, self@);
            }
        }
        r
    }

    /// Tells whether this path lies above the other: whether the other
    /// begins with all of its components and goes on.
    pub fn is_ancestor_of(&self, other: &RelativePath) -> (r: bool)
        ensures
            r == is_ancestor(self@, other@),
    {
        proof {
            use_type_invariant(self);
        }
        if self.components.len() >= other.components.len() {
            return false;
        }
        let mut i: usize = 0;
        while i < self.components.len()
            invariant
                0 <= i <= self.components.len(),
                self.components.len() < other.components.len(),
                forall|j: int| 0 <= j < i ==> self@[j] == other@[j],
            decreases self.components.len() - i,
        {
            if self.components[i] != other.components[i] {
                assert(self@[i as int] != other@[i as int]);
                return false;
            }
            i = i + 1;
        }
        true
    }
}

/// A text cut at its separators and written with the separators again is
/// the text.
pub proof fn law_joined_split(text: Seq<char>)
    ensures
        split(text).len() > 0,
        joined(split(text)) == text,
    decreases text.len(),
{
    lemma_last_index_found(text, '/');
    let j = last_index(text, '/');
    if 0 <= j < text.len() {
        law_joined_split(text.take(j));
        let head = split(text.take(j));
        let all = head.push(text.skip(j + 1));
        assert(all.drop_last() =~= head);
        assert(joined(all) =~= text.take(j) + seq!['/'] + text.skip(j + 1));
        assert(text =~= text.take(j) + seq!['/'] + text.skip(j + 1));
    }
}

/// The text of a path stands for the path and for no other: cut at its
/// separators, it gives the components back.
pub proof fn law_split_joined(path: Seq<Seq<char>>)
    requires
        valid_components(path),
    ensures
        split(joined(path)) == path,
    decreases path.len(),
{
    if path.len() == 1 {
        let only = path[0];
        assert(valid_component(only));
        lemma_last_index_found(only, '/');
        if last_index(only, '/') >= 0 {
            assert(only.contains(only[last_index(only, '/')]));
        }
        assert(path =~= seq![only]);
    } else {
        let head = path.drop_last();
        let piece = path.last();
        assert(valid_component(piece));
        assert forall|i: int| 0 <= i < head.len() implies valid_component(#[trigger] head[i]) by {
            assert(head[i] == path[i]);
        }
        law_split_joined(head);
        let text = joined(head) + seq!['/'] + piece;
        lemma_last_index_of_joined(joined(head), '/', piece);
        assert(text.take(joined(head).len() as int) =~= joined(head));
        assert(text.skip(joined(head).len() as int + 1) =~= piece);
        assert(head.push(piece) =~= path);
    }
}

} // verus!
