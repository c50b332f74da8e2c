//! Lists of texts, and texts made of them.

use vstd::prelude::*;
use vstd::string::StringExecFns;
use vstd::string::StrSliceExecFns;
use vstd::std_specs::iter::IteratorSpec;
use crate::order::lemma_lex_irreflexive;
use crate::order::lemma_lex_total;
use crate::order::lemma_lex_transitive;
use crate::order::lex_less;
use crate::order::lex_less_at;
use crate::order::strict_order;
use crate::order::Order;

verus! {

/// The views of a list of strings.
pub open spec fn texts(v: Seq<String>) -> Seq<Seq<char>> {
    Seq::new(v.len(), |i: int| v[i]@)
}

/// The items written one after the other with `sep` between them.
pub open spec fn interleaved(items: Seq<Seq<char>>, sep: Seq<char>) -> Seq<char>
    decreases items.len(),
{
    if items.len() == 0 {
        Seq::empty()
    } else if items.len() == 1 {
        items[0]
    } else {
        interleaved(items.drop_last(), sep) + sep + items.last()
    }
}

/// The order of characters: by code point.
pub open spec fn char_order() -> spec_fn(char, char) -> bool {
    |x: char, y: char| (x as u32) < (y as u32)
}

/// `a` comes before `b`, character by character.
pub open spec fn text_less(a: Seq<char>, b: Seq<char>) -> bool {
    lex_less(a, b, char_order())
}

/// The order of components.
pub open spec fn text_order() -> spec_fn(Seq<char>, Seq<char>) -> bool {
    |a: Seq<char>, b: Seq<char>| text_less(a, b)
}

/// The order of characters is a strict total order.
pub proof fn lemma_char_order_strict()
    ensures
        strict_order(char_order()),
{
    let lt = char_order();
    assert forall|x: char, y: char| #[trigger] lt(x, y) || x == y || lt(y, x) by {
        if (x as u32) == (y as u32) {
            vstd::utf8::char_u32_cast(x, x as u32);
            vstd::utf8::char_u32_cast(y, y as u32);
        }
    }
}

/// The order of texts is a strict total order.
pub proof fn lemma_text_order_strict()
    ensures
        strict_order(text_order()),
{
    lemma_char_order_strict();
    let lt = text_order();
    assert forall|x: Seq<char>| !#[trigger] lt(x, x) by {
        lemma_lex_irreflexive(x, char_order());
    }
    assert forall|x: Seq<char>, y: Seq<char>, z: Seq<char>| #[trigger] lt(x, y) && #[trigger] lt(
        y,
        z,
    ) implies lt(x, z) by {
        lemma_lex_transitive(x, y, z, char_order());
    }
    assert forall|x: Seq<char>, y: Seq<char>| #[trigger] lt(x, y) || x == y || lt(y, x) by {
        lemma_lex_total(x, y, char_order());
    }
}

/// Compares two texts character by character.
pub fn text_compare(a: &str, b: &str) -> (r: Order)
    ensures
        r == Order::Less <==> text_less(a@, b@),
        r == Order::Equal <==> a@ == b@,
        r == Order::Greater <==> text_less(b@, a@),
{
    let mut ia = a.chars();
    let mut ib = b.chars();
    let ghost mut k: int = 0;
    let mut r = Order::Equal;
    let mut done = false;
    while !done
        invariant
            0 <= k <= a@.len(),
            k <= b@.len(),
            !done ==> ia.remaining() == a@.skip(k),
            !done ==> ib.remaining() == b@.skip(k),
            forall|i: int| 0 <= i < k ==> a@[i] == b@[i],
            ia.obeys_prophetic_iter_laws(),
            ib.obeys_prophetic_iter_laws(),
            done ==> (r == Order::Less && lex_less_at(a@, b@, k, char_order())) || (r
                == Order::Equal && a@ == b@) || (r == Order::Greater && lex_less_at(
                b@,
                a@,
                k,
                char_order(),
            )),
        decreases a@.len() - k, (if done { 0int } else { 1int }),
    {
        let ca = ia.next();
        let cb = ib.next();
        match (ca, cb) {
            (Some(x), Some(y)) => {
                if (x as u32) < (y as u32) {
                    r = Order::Less;
                    done = true;
                } else if (y as u32) < (x as u32) {
                    r = Order::Greater;
                    done = true;
                } else {
                    proof {
                        vstd::utf8::char_u32_cast(x, x as u32);
                        vstd::utf8::char_u32_cast(y, y as u32);
                        assert(a@.skip(k).drop_first() =~= a@.skip(k + 1));
                        assert(b@.skip(k).drop_first() =~= b@.skip(k + 1));
                        k = k + 1;
                    }
                }
            },
            (None, None) => {
                assert(a@ =~= b@);
                r = Order::Equal;
                done = true;
            },
            (None, Some(_)) => {
                r = Order::Less;
                done = true;
            },
            (Some(_), None) => {
                r = Order::Greater;
                done = true;
            },
        }
    }
    proof {
        lemma_char_order_strict();
        lemma_lex_irreflexive(a@, char_order());
        if text_less(a@, b@) && text_less(b@, a@) {
            lemma_lex_transitive(a@, b@, a@, char_order());
        }
    }
    r
}

/// A copy of a list of strings.
pub fn copy_texts(items: &Vec<String>) -> (r: Vec<String>)
    ensures
        texts(r@) == texts(items@),
{
    let mut out: Vec<String> = Vec::new();
    let mut i: usize = 0;
    while i < items.len()
        invariant
            0 <= i <= items.len(),
            out@.len() == i,
            forall|j: int| 0 <= j < i ==> out@[j]@ == items@[j]@,
        decreases items.len() - i,
    {
        out.push(items[i].clone());
        i = i + 1;
    }
    assert(texts(out@) =~= texts(items@));
    out
}

/// Tells whether two lists hold the same texts in the same order.
pub fn same_texts(a: &Vec<String>, b: &Vec<String>) -> (r: bool)
    ensures
        r == (texts(a@) == texts(b@)),
{
    if a.len() != b.len() {
        assert(texts(a@).len() != texts(b@).len());
        return false;
    }
    let mut i: usize = 0;
    while i < a.len()
        invariant
            a.len() == b.len(),
            0 <= i <= a.len(),
            forall|j: int| 0 <= j < i ==> a@[j]@ == b@[j]@,
        decreases a.len() - i,
    {
        if a[i] != b[i] {
            assert(texts(a@)[i as int] != texts(b@)[i as int]);
            return false;
        }
        i = i + 1;
    }
    assert(texts(a@) =~= texts(b@));
    true
}

/// Tells whether a list holds a text.
pub fn holds_text(items: &Vec<String>, text: &str) -> (r: bool)
    ensures
        r == texts(items@).contains(text@),
{
    let mut i: usize = 0;
    while i < items.len()
        invariant
            0 <= i <= items.len(),
            forall|j: int| 0 <= j < i ==> items@[j]@ != text@,
        decreases items.len() - i,
    {
        if text_equal(items[i].as_str(), text) {
            assert(texts(items@)[i as int] == text@);
            return true;
        }
        i = i + 1;
    }
    assert forall|j: int| 0 <= j < texts(items@).len() implies texts(items@)[j] != text@ by {
        assert(texts(items@)[j] == items@[j]@);
    }
    false
}

/// Tells whether a list holds no text twice.
pub fn no_repeats(items: &Vec<String>) -> (r: bool)
    ensures
        r == texts(items@).no_duplicates(),
{
    let mut i: usize = 0;
    while i < items.len()
        invariant
            0 <= i <= items.len(),
            forall|a: int, b: int| 0 <= a < b < i ==> items@[a]@ != items@[b]@,
        decreases items.len() - i,
    {
        let mut j: usize = 0;
        while j < i
            invariant
                0 <= j <= i < items.len(),
                forall|a: int| 0 <= a < j ==> items@[a]@ != items@[i as int]@,
            decreases i - j,
        {
            if text_equal(items[j].as_str(), items[i].as_str()) {
                assert(texts(items@)[j as int] == texts(items@)[i as int]);
                return false;
            }
            j = j + 1;
        }
        i = i + 1;
    }
    assert forall|a: int, b: int|
        0 <= a < texts(items@).len() && 0 <= b < texts(items@).len() && a != b implies texts(
        items@,
    )[a] != texts(items@)[b] by {
        if a < b {
            assert(items@[a]@ != items@[b]@);
        } else {
            assert(items@[b]@ != items@[a]@);
        }
    }
    true
}

/// Tells whether two texts are the same.
pub fn text_equal(a: &str, b: &str) -> (r: bool)
    ensures
        r == (a@ == b@),
{
    text_compare(a, b) == Order::Equal
}

/// The view of a text that may be missing.
pub open spec fn optional_text(text: Option<String>) -> Option<Seq<char>> {
    match text {
        Some(text) => Some(text@),
        None => None,
    }
}

/// Tells whether a text that may be missing is there and is the given one.
pub fn is_text(text: &Option<String>, wanted: &str) -> (r: bool)
    ensures
        r == (optional_text(*text) == Some(wanted@)),
{
    match text {
        Some(text) => text_equal(text.as_str(), wanted),
        None => false,
    }
}

/// A copy of a text that may be missing.
pub fn copy_optional(text: &Option<String>) -> (r: Option<String>)
    ensures
        optional_text(r) == optional_text(*text),
{
    match text {
        Some(text) => Some(text.clone()),
        None => None,
    }
}

/// Writes the items one after the other with `sep` between them.
pub fn join_texts(items: &Vec<String>, sep: &str) -> (r: String)
    ensures
        r@ == interleaved(texts(items@), sep@),
{
    if items.len() == 0 {
        return String::new();
    }
    let mut out = items[0].clone();
    let mut i: usize = 1;
    assert(texts(items@).take(1) =~= seq![texts(items@)[0]]);
    while i < items.len()
        invariant
            1 <= i <= items.len(),
            out@ == interleaved(texts(items@).take(i as int), sep@),
        decreases items.len() - i,
    {
        out.append(sep);
        out.append(items[i].as_str());
        proof {
            assert(texts(items@).take(i + 1).drop_last() =~= texts(items@).take(i as int));
            assert(texts(items@).take(i + 1).last() == items@[i as int]@);
        }
        i = i + 1;
    }
    assert(texts(items@).take(i as int) =~= texts(items@));
    out
}

/// The items that are not among `taken`, in their order.
pub open spec fn without(items: Seq<Seq<char>>, taken: Set<Seq<char>>) -> Seq<Seq<char>>
    decreases items.len(),
{
    if items.len() == 0 {
        Seq::empty()
    } else {
        let rest = without(items.drop_last(), taken);
        if taken.contains(items.last()) {
            rest
        } else {
            rest.push(items.last())
        }
    }
}

/// The items without those that a list holds.
pub fn remove_texts(items: &Vec<String>, taken: &Vec<String>) -> (r: Vec<String>)
    ensures
        texts(r@) == without(texts(items@), texts(taken@).to_set()),
{
    let mut out: Vec<String> = Vec::new();
    let mut i: usize = 0;
    assert(texts(out@) =~= Seq::<Seq<char>>::empty());
    while i < items.len()
        invariant
            0 <= i <= items.len(),
            texts(out@) == without(texts(items@).take(i as int), texts(taken@).to_set()),
        decreases items.len() - i,
    {
        let ghost before = out@;
        proof {
            assert(texts(items@).take(i + 1).drop_last() =~= texts(items@).take(i as int));
            assert(texts(items@).take(i + 1).last() == items@[i as int]@);
        }
        if !holds_text(taken, items[i].as_str()) {
            out.push(items[i].clone());
            assert(texts(out@) =~= texts(before).push(items@[i as int]@));
        }
        i = i + 1;
    }
    assert(texts(items@).take(i as int) =~= texts(items@));
    out
}

/// The items in their order, each where it first occurs: a list in the
/// place of a set, which holds nothing twice and keeps what came first
/// first.
pub open spec fn first_occurrences(items: Seq<Seq<char>>) -> Seq<Seq<char>>
    decreases items.len(),
{
    if items.len() == 0 {
        Seq::empty()
    } else {
        let rest = first_occurrences(items.drop_last());
        if items.drop_last().contains(items.last()) {
            rest
        } else {
            rest.push(items.last())
        }
    }
}

/// What `first_occurrences` keeps: every item, none twice.
pub proof fn lemma_first_occurrences(items: Seq<Seq<char>>)
    ensures
        first_occurrences(items).no_duplicates(),
        forall|x: Seq<char>| first_occurrences(items).contains(x) <==> items.contains(x),
    decreases items.len(),
{
    if items.len() > 0 {
        let head = items.drop_last();
        let rest = first_occurrences(head);
        lemma_first_occurrences(head);
        let all = first_occurrences(items);
        assert forall|x: Seq<char>| all.contains(x) <==> items.contains(x) by {
            if all.contains(x) {
                let k = all.index_of(x);
                if k < rest.len() {
                    assert(rest[k] == x);
                    assert(first_occurrences(head).contains(x));
                    assert(head.contains(x));
                    let j = head.index_of(x);
                    assert(head[j] == x);
                    assert(items[j] == x);
                } else {
                    assert(items[items.len() - 1] == x);
                }
            }
            if items.contains(x) {
                let j = items.index_of(x);
                if j < head.len() {
                    assert(head[j] == x);
                    assert(head.contains(x));
                    assert(first_occurrences(head).contains(x));
                    let k = rest.index_of(x);
                    assert(rest[k] == x);
                    assert(all[k] == x);
                } else if head.contains(x) {
                    assert(first_occurrences(head).contains(x));
                    let k = rest.index_of(x);
                    assert(rest[k] == x);
                    assert(all[k] == x);
                } else {
                    assert(all[rest.len() as int] == x);
                }
            }
        }
        assert forall|i: int, j: int|
            0 <= i < all.len() && 0 <= j < all.len() && i != j implies all[i] != all[j] by {
            if i < rest.len() && j < rest.len() {
                assert(all[i] == rest[i] && all[j] == rest[j]);
            } else if i < rest.len() {
                assert(rest[i] == all[i]);
                assert(first_occurrences(head).contains(all[i]));
                assert(head.contains(all[i]));
            } else if j < rest.len() {
                assert(rest[j] == all[j]);
                assert(first_occurrences(head).contains(all[j]));
                assert(head.contains(all[j]));
            }
        }
    }
}

/// The items in their order, each where it first occurs.
pub fn first_texts(items: &Vec<String>) -> (r: Vec<String>)
    ensures
        texts(r@) == first_occurrences(texts(items@)),
{
    let mut out: Vec<String> = Vec::new();
    let mut i: usize = 0;
    assert(texts(out@) =~= Seq::<Seq<char>>::empty());
    while i < items.len()
        invariant
            0 <= i <= items.len(),
            texts(out@) == first_occurrences(texts(items@).take(i as int)),
        decreases items.len() - i,
    {
        let ghost before = out@;
        let ghost so_far = texts(items@).take(i as int);
        proof {
            let next = texts(items@).take(i + 1);
            assert(next.drop_last() =~= so_far);
            assert(next.last() == items@[i as int]@);
            lemma_first_occurrences(so_far);
        }
        if !holds_text(&out, items[i].as_str()) {
            out.push(items[i].clone());
            assert(texts(out@) =~= texts(before).push(items@[i as int]@));
        }
        i = i + 1;
    }
    assert(texts(items@).take(i as int) =~= texts(items@));
    out
}

/// Adds a text to a list.
pub fn push_text(list: &mut Vec<String>, text: &str)
    ensures
        texts(final(list)@) == texts(old(list)@).push(text@),
{
    let ghost before = list@;
    list.push(text.to_owned());
    assert(texts(list@) =~= texts(before).push(text@));
}

/// Adds the texts of a list to another.
pub fn push_texts(list: &mut Vec<String>, items: &Vec<String>)
    ensures
        texts(final(list)@) == texts(old(list)@) + texts(items@),
{
    let ghost before = texts(list@);
    let mut i: usize = 0;
    assert(texts(list@) =~= before + texts(items@).take(0));
    while i < items.len()
        invariant
            0 <= i <= items.len(),
            texts(list@) == before + texts(items@).take(i as int),
        decreases items.len() - i,
    {
        push_text(list, items[i].as_str());
        assert(texts(list@) =~= before + texts(items@).take(i + 1));
        i = i + 1;
    }
    assert(texts(items@).take(i as int) =~= texts(items@));
}

/// The character of a digit.
pub open spec fn digit_char(d: int) -> char {
    if d == 0 {
        '0'
    } else if d == 1 {
        '1'
    } else if d == 2 {
        '2'
    } else if d == 3 {
        '3'
    } else if d == 4 {
        '4'
    } else if d == 5 {
        '5'
    } else if d == 6 {
        '6'
    } else if d == 7 {
        '7'
    } else if d == 8 {
        '8'
    } else {
        '9'
    }
}

/// A number in decimal digits, without leading zeros.
pub open spec fn decimal_of(n: nat) -> Seq<char>
    decreases n,
{
    if n < 10 {
        seq![digit_char(n as int)]
    } else {
        decimal_of(n / 10).push(digit_char((n % 10) as int))
    }
}

/// The text of a digit.
fn digit_text(d: usize) -> (r: &'static str)
    requires
        d < 10,
    ensures
        r@ == seq![digit_char(d as int)],
{
    proof {
        reveal_strlit("0");
        reveal_strlit("1");
        reveal_strlit("2");
        reveal_strlit("3");
        reveal_strlit("4");
        reveal_strlit("5");
        reveal_strlit("6");
        reveal_strlit("7");
        reveal_strlit("8");
        reveal_strlit("9");
    }
    let r = if d == 0 {
        "0"
    } else if d == 1 {
        "1"
    } else if d == 2 {
        "2"
    } else if d == 3 {
        "3"
    } else if d == 4 {
        "4"
    } else if d == 5 {
        "5"
    } else if d == 6 {
        "6"
    } else if d == 7 {
        "7"
    } else if d == 8 {
        "8"
    } else {
        "9"
    };
    assert(r@ =~= seq![digit_char(d as int)]);
    r
}

/// Writes a number in decimal digits.
pub fn decimal(n: usize) -> (r: String)
    ensures
        r@ == decimal_of(n as nat),
    decreases n,
{
    if n < 10 {
        String::from_str(digit_text(n))
    } else {
        let mut out = decimal(n / 10);
        out.append(digit_text(n % 10));
        assert(out@ =~= decimal_of((n / 10) as nat).push(digit_char((n % 10) as int)));
        out
    }
}

/// The index of the last `sep` in `t`, or -1 where it holds none.
pub open spec fn last_index(t: Seq<char>, sep: char) -> int
    decreases t.len(),
{
    if t.len() == 0 {
        -1
    } else if t.last() == sep {
        t.len() - 1
    } else {
        last_index(t.drop_last(), sep)
    }
}

/// The pieces of `t` between its separators; an empty piece where two
/// separators meet or one stands at an end.
pub open spec fn split_at(t: Seq<char>, sep: char) -> Seq<Seq<char>>
    decreases t.len(),
{
    let j = last_index(t, sep);
    if 0 <= j < t.len() {
        split_at(t.take(j), sep).push(t.skip(j + 1))
    } else {
        seq![t]
    }
}

/// Cuts a text at each separator.
pub fn split_text(text: &str, sep: char) -> (r: Vec<String>)
    ensures
        texts(r@) == split_at(text@, sep),
{
    let n = text.unicode_len();
    let mut out: Vec<String> = Vec::new();
    let mut it = text.chars();
    let mut start: usize = 0;
    let mut i: usize = 0;
    loop
        invariant
            n == text@.len(),
            0 <= start <= i <= n,
            it.remaining() == text@.skip(i as int),
            it.obeys_prophetic_iter_laws(),
            forall|j: int| start <= j < i ==> text@[j] != sep,
            start > 0 ==> text@[start - 1] == sep,
            start > 0 ==> texts(out@) == split_at(text@.take(start - 1), sep),
            start == 0 ==> out@.len() == 0,
        decreases n - i,
    {
        match it.next() {
            Some(c) => {
                proof {
                    assert(text@.skip(i as int).drop_first() =~= text@.skip(i + 1));
                }
                if c == sep {
                    let piece = text.substring_char(start, i);
                    let ghost before = out@;
                    out.push(piece.to_owned());
                    proof {
                        lemma_split_step(text@, sep, start as int, i as int);
                        assert(texts(out@) =~= texts(before).push(piece@));
                        if start == 0 {
                            assert(texts(before) =~= Seq::<Seq<char>>::empty());
                        }
                    }
                    start = i + 1;
                }
                i = i + 1;
            },
            None => {
                let piece = text.substring_char(start, i);
                let ghost before = out@;
                out.push(piece.to_owned());
                proof {
                    assert(text@.take(n as int) =~= text@);
                    lemma_split_step(text@, sep, start as int, n as int);
                    assert(texts(out@) =~= texts(before).push(piece@));
                    if start == 0 {
                        assert(texts(before) =~= Seq::<Seq<char>>::empty());
                    }
                }
                return out;
            },
        }
    }
}

/// Where `t` holds no separator from `start` up to `end`, the last
/// separator below `end` stands just before `start`, or there is none.
proof fn lemma_last_index(t: Seq<char>, sep: char, start: int, end: int)
    requires
        0 <= start <= end <= t.len(),
        forall|j: int| start <= j < end ==> t[j] != sep,
        start > 0 ==> t[start - 1] == sep,
    ensures
        start > 0 ==> last_index(t.take(end), sep) == start - 1,
        start == 0 ==> last_index(t.take(end), sep) == -1,
    decreases end - start,
{
    if end == start {
        if start > 0 {
            assert(t.take(end).last() == sep);
        } else {
            assert(t.take(end).len() == 0);
        }
    } else {
        assert(t.take(end).last() == t[end - 1]);
        assert(t.take(end).drop_last() =~= t.take(end - 1));
        lemma_last_index(t, sep, start, end - 1);
    }
}

/// The pieces of `t` below `end` are those below the separator before
/// `start`, and then the piece from `start` to `end`.
proof fn lemma_split_step(t: Seq<char>, sep: char, start: int, end: int)
    requires
        0 <= start <= end <= t.len(),
        forall|j: int| start <= j < end ==> t[j] != sep,
        start > 0 ==> t[start - 1] == sep,
    ensures
        start > 0 ==> split_at(t.take(end), sep) == split_at(t.take(start - 1), sep).push(
            t.subrange(start, end),
        ),
        start == 0 ==> split_at(t.take(end), sep) == seq![t.subrange(start, end)],
{
    lemma_last_index(t, sep, start, end);
    if start > 0 {
        assert(t.take(end).take(start - 1) =~= t.take(start - 1));
        assert(t.take(end).skip(start) =~= t.subrange(start, end));
    } else {
        assert(t.take(end) =~= t.subrange(start, end));
    }
}

/// Where a text holds a separator, the last one stands at `last_index`.
pub proof fn lemma_last_index_found(t: Seq<char>, sep: char)
    ensures
        -1 <= last_index(t, sep) < t.len(),
        last_index(t, sep) >= 0 ==> t[last_index(t, sep)] == sep,
        forall|i: int| last_index(t, sep) < i < t.len() ==> t[i] != sep,
    decreases t.len(),
{
    if t.len() > 0 && t.last() != sep {
        lemma_last_index_found(t.drop_last(), sep);
        assert forall|i: int| last_index(t, sep) < i < t.len() implies t[i] != sep by {
            if i < t.len() - 1 {
                assert(t.drop_last()[i] == t[i]);
            }
        }
    }
}

/// Behind a text and a separator, a piece without separator is the last
/// piece.
pub proof fn lemma_last_index_of_joined(head: Seq<char>, sep: char, piece: Seq<char>)
    requires
        !piece.contains(sep),
    ensures
        last_index(head + seq![sep] + piece, sep) == head.len(),
    decreases piece.len(),
{
    let all = head + seq![sep] + piece;
    if piece.len() == 0 {
        assert(all.last() == sep);
    } else {
        assert(all.last() == piece.last());
        assert(piece.contains(piece.last()));
        assert(all.drop_last() =~= head + seq![sep] + piece.drop_last());
        assert forall|i: int| 0 <= i < piece.drop_last().len() implies piece.drop_last()[i]
            != sep by {
            assert(piece.contains(piece[i]));
        }
        lemma_last_index_of_joined(head, sep, piece.drop_last());
    }
}

/// A text has at least one piece.
pub proof fn lemma_split_not_empty(text: Seq<char>, sep: char)
    ensures
        split_at(text, sep).len() > 0,
    decreases text.len(),
{
    let j = last_index(text, sep);
    if 0 <= j < text.len() {
        lemma_split_not_empty(text.take(j), sep);
    }
}

} // verus!
