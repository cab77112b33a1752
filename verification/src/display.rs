//! The input text as it is displayed: a prompt before each explicit line,
//! and blanks of the same width before the rows that continue a line.

use vstd::prelude::*;
use vstd::string::StringExecFns;
use crate::cursor::{cell_at, lemma_cell_is_line_col, row_at, trailing};
use crate::lines::{column, lemma_line_col_by_counting, line_index};
use crate::text::push_char;
use crate::utf8::{
    byte_len, count_of, lemma_byte_len_concat, lemma_byte_len_push, lemma_count_push, scalars,
};
use crate::wrap::VisualLine;

verus! {

/// Number of bytes, and of columns, of the prompt before a row.
pub const PROMPT_LEN: usize = 2;

/// The prompt before the first row of an explicit line.
pub open spec fn marker() -> Seq<char> {
    seq!['>', ' ']
}

/// The blanks before a row that continues an explicit line.
pub open spec fn indent() -> Seq<char> {
    seq![' ', ' ']
}

/// The two columns before row `i`: the prompt on the first row of an
/// explicit line, blanks on the rows that continue it.
pub open spec fn prompt_at(ws: Seq<VisualLine>, i: int) -> Seq<char> {
    if i == 0 || ws[i - 1].source != ws[i].source {
        marker()
    } else {
        indent()
    }
}

/// Row `i` as it is displayed: prompt, then text.
pub open spec fn display_row(ws: Seq<VisualLine>, i: int) -> Seq<char> {
    prompt_at(ws, i) + ws[i].text
}

/// The displayed rows `from..to`.
pub open spec fn display_rows(ws: Seq<VisualLine>, from: int, to: int) -> Seq<Seq<char>> {
    Seq::new((to - from) as nat, |j: int| display_row(ws, from + j))
}

/// A text with the prompt before each of its explicit lines: one at the
/// start, and one after every line break.
pub open spec fn prompted(s: Seq<char>) -> Seq<char>
    decreases s.len(),
{
    if s.len() == 0 {
        marker()
    } else if s.last() == '\n' {
        prompted(s.drop_last()).push('\n') + marker()
    } else {
        prompted(s.drop_last()).push(s.last())
    }
}

/// Byte offset in `prompted(s)` of what stands at scalar index `k` of `s`:
/// the offset in `s`, and one prompt for the first line and for each line
/// break before `k`.
pub open spec fn display_index(s: Seq<char>, k: int) -> int {
    PROMPT_LEN + byte_len(s.take(k)) + PROMPT_LEN * count_of(s.take(k), '\n')
}

/// The prompt takes two bytes, holds no line break, and ends a line of two
/// columns.
proof fn lemma_marker()
    ensures
        marker().len() == 2,
        byte_len(marker()) == 2,
        count_of(marker(), '\n') == 0,
        trailing(marker()) == 2,
{
    let m = marker();
    assert(m.drop_last() =~= seq!['>']);
    assert(seq!['>'].drop_last() =~= Seq::<char>::empty());
    reveal_with_fuel(byte_len, 3);
    reveal_with_fuel(count_of, 3);
    reveal_with_fuel(trailing, 3);
}

/// Length, encoded length, line breaks and last column of a prompted text.
pub proof fn lemma_prompted_shape(s: Seq<char>)
    ensures
        prompted(s).len() == 2 + s.len() + 2 * count_of(s, '\n'),
        byte_len(prompted(s)) == 2 + byte_len(s) + 2 * count_of(s, '\n'),
        count_of(prompted(s), '\n') == count_of(s, '\n'),
        trailing(prompted(s)) == 2 + trailing(s),
    decreases s.len(),
{
    lemma_marker();
    if s.len() > 0 {
        let q = prompted(s.drop_last());
        lemma_prompted_shape(s.drop_last());
        if s.last() == '\n' {
            let m = marker();
            let a = q.push('\n');
            lemma_byte_len_push(q, '\n');
            lemma_byte_len_concat(a, m);
            lemma_count_push(q, '\n', '\n');
            assert(a + m =~= a.push('>').push(' '));
            lemma_count_push(a, '>', '\n');
            lemma_count_push(a.push('>'), ' ', '\n');
            assert(a.push('>').push(' ').drop_last() =~= a.push('>'));
            assert(a.push('>').drop_last() =~= a);
            reveal_with_fuel(trailing, 3);
        } else {
            lemma_byte_len_push(q, s.last());
            lemma_count_push(q, s.last(), '\n');
            assert(q.push(s.last()).drop_last() =~= q);
        }
    }
}

/// The prompted form of a prefix of a text is a prefix of its prompted
/// form.
pub proof fn lemma_prompted_prefix(s: Seq<char>, k: int)
    requires
        0 <= k <= s.len(),
    ensures
        prompted(s.take(k)).len() <= prompted(s).len(),
        prompted(s).take(prompted(s.take(k)).len() as int) == prompted(s.take(k)),
    decreases s.len(),
{
    let p = prompted(s.take(k));
    if k == s.len() {
        assert(s.take(k) =~= s);
        assert(prompted(s).take(prompted(s).len() as int) =~= prompted(s));
    } else {
        let q = s.drop_last();
        assert(s.take(k) =~= q.take(k));
        lemma_prompted_prefix(q, k);
        assert(prompted(s).take(p.len() as int) =~= prompted(q).take(p.len() as int));
    }
}

/// Projecting the display index of scalar index `k` in the prompted text
/// gives the explicit line of `k` as the row and, two columns to the right
/// for the prompt, its column there.
pub proof fn lemma_display_cursor(s: Seq<char>, k: int)
    requires
        0 <= k <= s.len(),
    ensures
        row_at(prompted(s), display_index(s, k)) == line_index(s, k),
        line_index(s, k) <= u16::MAX && column(s, k) + PROMPT_LEN <= u16::MAX ==> cell_at(
            prompted(s),
            display_index(s, k),
        ) == Some((line_index(s, k) as u16, (column(s, k) + PROMPT_LEN) as u16)),
{
    let whole = prompted(s);
    let part = prompted(s.take(k));
    let n = part.len() as int;
    lemma_prompted_prefix(s, k);
    lemma_prompted_shape(s.take(k));
    lemma_cell_is_line_col(whole, n);
    lemma_line_col_by_counting(whole, n);
    lemma_line_col_by_counting(s, k);
}

/// Puts the prompt before each explicit line of a text.
pub fn prompted_text(text: &str) -> (shown: String)
    ensures
        shown@ == prompted(text@),
{
    let chars = scalars(text);
    let mut shown = String::from_str("> ");
    let mut i: usize = 0;
    proof {
        reveal_strlit("> ");
        assert(shown@ =~= marker());
        assert(chars@.take(0) =~= Seq::<char>::empty());
    }
    while i < chars.len()
        invariant
            i <= chars.len(),
            chars@ == text@,
            shown@ == prompted(chars@.take(i as int)),
        decreases chars.len() - i,
    {
        proof {
            assert(chars@.take(i + 1).drop_last() =~= chars@.take(i as int));
        }
        push_char(&mut shown, chars[i]);
        if chars[i] == '\n' {
            let ghost before = shown@;
            shown.append("> ");
            proof {
                reveal_strlit("> ");
                assert(shown@ =~= before + marker());
            }
        }
        i = i + 1;
    }
    proof {
        assert(chars@.take(chars.len() as int) =~= chars@);
    }
    shown
}

} // verus!
