//! Projection of a byte offset in display text to a screen cell: rows are
//! counted by the line breaks before the offset, columns by the scalar
//! values since the last of them.

use vstd::prelude::*;
use crate::lines::{column, lemma_line_col_by_counting, lemma_line_index, line_index};
use crate::text::byte_length;
use crate::utf8::{
    byte_len, count_of, index_at, is_boundary, lemma_boundary_index, lemma_byte_len_monotone,
    lemma_byte_len_step, lemma_index_at, scalars, width_of,
};

verus! {

/// Number of scalar values at the end of `p` that follow its last line
/// break, or all of them if it has none.
pub open spec fn trailing(p: Seq<char>) -> nat
    decreases p.len(),
{
    if p.len() == 0 {
        0
    } else if p.last() == '\n' {
        0
    } else {
        trailing(p.drop_last()) + 1
    }
}

/// Number of scalar values of `d` that start before byte offset `b`.
pub open spec fn scalars_before(d: Seq<char>, b: int) -> nat
    decreases d.len(),
{
    if d.len() == 0 {
        0
    } else {
        scalars_before(d.drop_last(), b) + if byte_len(d.drop_last()) < b {
            1nat
        } else {
            0nat
        }
    }
}

/// Row of byte offset `b` in display text `d`: the line breaks among the
/// scalar values that start before it.
pub open spec fn row_at(d: Seq<char>, b: int) -> nat {
    count_of(d.take(scalars_before(d, b) as int), '\n')
}

/// Cell of byte offset `b` in display text `d`: its row and column if it is
/// a boundary of `d` and both fit a screen coordinate, and nothing otherwise.
pub open spec fn cell_at(d: Seq<char>, b: int) -> Option<(u16, u16)> {
    if is_boundary(d, b) {
        let p = d.take(index_at(d, b));
        if count_of(p, '\n') <= u16::MAX && trailing(p) <= u16::MAX {
            Some((count_of(p, '\n') as u16, trailing(p) as u16))
        } else {
            None
        }
    } else {
        None
    }
}

/// The scalar values that start before `b` are the first ones, up to the
/// first that starts at or after `b`.
pub proof fn lemma_scalars_before(d: Seq<char>, b: int, j: int)
    requires
        0 <= j <= d.len(),
        j > 0 ==> byte_len(d.take(j - 1)) < b,
        j < d.len() ==> byte_len(d.take(j)) >= b,
    ensures
        scalars_before(d, b) == j,
    decreases d.len(),
{
    if d.len() > 0 {
        let p = d.drop_last();
        let n = d.len() as int;
        assert(d.take(n - 1) =~= p);
        if j == n {
            if j > 1 {
                lemma_byte_len_monotone(d, j - 2, j - 1);
                assert(p.take(j - 2) =~= d.take(j - 2));
            }
            assert(p.take(n - 1) =~= p);
            lemma_scalars_before(p, b, j - 1);
        } else {
            lemma_byte_len_monotone(d, j, n - 1);
            if j > 0 {
                assert(p.take(j - 1) =~= d.take(j - 1));
            }
            if j < p.len() {
                assert(p.take(j) =~= d.take(j));
            }
            lemma_scalars_before(p, b, j);
        }
    }
}

/// The cell of the byte offset of scalar index `j` of a display text is the
/// explicit line that `j` is on and its column there; so is the row alone.
pub proof fn lemma_cell_is_line_col(d: Seq<char>, j: int)
    requires
        0 <= j <= d.len(),
    ensures
        row_at(d, byte_len(d.take(j)) as int) == line_index(d, j),
        line_index(d, j) <= u16::MAX && column(d, j) <= u16::MAX ==> cell_at(
            d,
            byte_len(d.take(j)) as int,
        ) == Some((line_index(d, j) as u16, column(d, j) as u16)),
        !(line_index(d, j) <= u16::MAX && column(d, j) <= u16::MAX) ==> cell_at(
            d,
            byte_len(d.take(j)) as int,
        ) is None,
{
    let b = byte_len(d.take(j)) as int;
    lemma_index_at(d, j);
    lemma_line_col_by_counting(d, j);
    lemma_line_index(d, j);
    if j > 0 {
        lemma_byte_len_monotone(d, j - 1, j);
    }
    lemma_scalars_before(d, b, j);
}

/// Walks `display` one scalar value at a time, counting rows at each line
/// break and columns since the last one, until the running byte offset
/// equals `display_index`. An offset inside a scalar value or past the end
/// has no cell, nor has one whose row or column exceeds a screen coordinate.
pub fn calculate_cursor_pos(display: &str, display_index: usize) -> (cell: Option<(u16, u16)>)
    ensures
        cell == cell_at(display@, display_index as int),
{
    let chars = scalars(display);
    let total = byte_length(display);
    let ghost d = display@;
    let mut current_line: usize = 0;
    let mut current_col: usize = 0;
    let mut byte_index: usize = 0;
    let mut j: usize = 0;
    proof {
        assert(d.take(0) =~= Seq::<char>::empty());
    }
    while j < chars.len() && byte_index < display_index
        invariant
            j <= chars.len(),
            chars@ == d,
            byte_index == byte_len(d.take(j as int)),
            current_line == count_of(d.take(j as int), '\n'),
            current_col == trailing(d.take(j as int)),
            current_line <= j,
            current_col <= j,
            j > 0 ==> byte_len(d.take(j - 1)) < display_index,
            byte_len(d) == total,
        decreases chars.len() - j,
    {
        let ch = chars[j];
        proof {
            lemma_byte_len_step(d, j as int);
            lemma_byte_len_monotone(d, j + 1, d.len() as int);
            assert(d.take(d.len() as int) =~= d);
            assert(d.take(j + 1).drop_last() =~= d.take(j as int));
        }
        if ch == '\n' {
            current_line = current_line + 1;
            current_col = 0;
        } else {
            current_col = current_col + 1;
        }
        byte_index = byte_index + width_of(ch);
        j = j + 1;
    }
    if byte_index == display_index {
        proof {
            lemma_index_at(d, j as int);
        }
        if current_line <= 0xffff && current_col <= 0xffff {
            Some((current_line as u16, current_col as u16))
        } else {
            None
        }
    } else {
        proof {
            if byte_index > display_index {
                lemma_no_boundary_between(d, j - 1, display_index as int);
            } else if is_boundary(d, display_index as int) {
                assert(d.take(d.len() as int) =~= d);
                lemma_boundary_index(d, display_index as int);
            }
        }
        None
    }
}

/// A byte offset strictly between two neighbouring boundaries is none.
pub proof fn lemma_no_boundary_between(d: Seq<char>, j: int, b: int)
    requires
        0 <= j < d.len(),
        byte_len(d.take(j)) < b < byte_len(d.take(j + 1)),
    ensures
        !is_boundary(d, b),
{
    if is_boundary(d, b) {
        let k = index_at(d, b);
        lemma_boundary_index(d, b);
        if k <= j {
            lemma_byte_len_monotone(d, k, j);
        } else {
            lemma_byte_len_monotone(d, j + 1, k);
        }
    }
}

/// Row of `display_index` in `display`: the line breaks among the scalar
/// values that start before that byte offset.
pub fn calculate_cursor_line(display: &str, display_index: usize) -> (row: usize)
    ensures
        row == row_at(display@, display_index as int),
{
    let chars = scalars(display);
    let total = byte_length(display);
    let ghost d = display@;
    let mut current_line: usize = 0;
    let mut byte_index: usize = 0;
    let mut j: usize = 0;
    proof {
        assert(d.take(0) =~= Seq::<char>::empty());
    }
    while j < chars.len() && byte_index < display_index
        invariant
            j <= chars.len(),
            chars@ == d,
            byte_index == byte_len(d.take(j as int)),
            current_line == count_of(d.take(j as int), '\n'),
            current_line <= j,
            j > 0 ==> byte_len(d.take(j - 1)) < display_index,
            byte_len(d) == total,
        decreases chars.len() - j,
    {
        let ch = chars[j];
        proof {
            lemma_byte_len_step(d, j as int);
            lemma_byte_len_monotone(d, j + 1, d.len() as int);
            assert(d.take(d.len() as int) =~= d);
            assert(d.take(j + 1).drop_last() =~= d.take(j as int));
        }
        if ch == '\n' {
            current_line = current_line + 1;
        }
        byte_index = byte_index + width_of(ch);
        j = j + 1;
    }
    proof {
        lemma_scalars_before(d, display_index as int, j as int);
    }
    current_line
}

} // verus!
