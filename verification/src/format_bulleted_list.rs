//! A list of items as text, one bulleted item per line.

use vstd::prelude::*;
use vstd::string::StringExecFns;
use crate::text::interleaved;
use crate::text::join_texts;
use crate::text::texts;

verus! {

/// The mark that opens each line, with the blank after it.
pub open spec fn bullet() -> Seq<char> {
    seq!['\u{2022}', ' ']
}

/// Each item behind its mark.
pub open spec fn bulleted_lines(items: Seq<Seq<char>>) -> Seq<Seq<char>> {
    Seq::new(items.len(), |i: int| bullet() + items[i])
}

/// The list as text: the bulleted lines with a line break between them.
pub open spec fn bulleted_list(items: Seq<Seq<char>>) -> Seq<char> {
    interleaved(bulleted_lines(items), seq!['\n'])
}

/// Formats the items as a bulleted list: a line for each, none after the
/// last.
pub fn format_bulleted_list(items: &[String]) -> (r: String)
    ensures
        r@ == bulleted_list(texts(items@)),
{
    let mut lines: Vec<String> = Vec::new();
    let mut i: usize = 0;
    while i < items.len()
        invariant
            0 <= i <= items@.len(),
            lines@.len() == i,
            forall|j: int| 0 <= j < i ==> lines@[j]@ == bullet() + items@[j]@,
        decreases items@.len() - i,
    {
        let mut line = String::from_str("\u{2022} ");
        line.append(items[i].as_str());
        proof {
            reveal_strlit("\u{2022} ");
            assert("\u{2022} "@ =~= bullet());
        }
        lines.push(line);
        i = i + 1;
    }
    proof {
        reveal_strlit("\n");
        assert("\n"@ =~= seq!['\n']);
        assert(texts(lines@) =~= bulleted_lines(texts(items@)));
    }
    join_texts(&lines, "\n")
}

} // verus!
