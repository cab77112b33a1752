//! Positions inside a text with explicit line breaks: where each segment
//! starts, and which segment and column a scalar index falls on.

use vstd::prelude::*;
use crate::cursor::trailing;
use crate::utf8::count_of;
use crate::wrap::{
    lemma_lines_nonempty, lemma_row_len, lemma_rows_at_most_len, lemma_rows_bounds,
    lemma_rows_positive, lemma_rows_total_monotone, lemma_wrap_row, lines_of, row_count, row_of,
    rows_for, rows_needed, rows_total, segment_views, wrap_text,
};

verus! {

/// Scalar index at which segment `n` starts: every earlier segment takes its
/// length and one line break.
pub open spec fn line_start(ls: Seq<Seq<char>>, n: int) -> int
    decreases n,
{
    if n <= 0 {
        0
    } else {
        line_start(ls, n - 1) + ls[n - 1].len() + 1
    }
}

/// True when scalar index `k` lies on segment `l`, between its start and its
/// end inclusive.
pub open spec fn on_line(ls: Seq<Seq<char>>, k: int, l: int) -> bool {
    0 <= l < ls.len() && line_start(ls, l) <= k <= line_start(ls, l) + ls[l].len()
}

/// The segment on which scalar index `k` of `s` lies.
pub open spec fn line_index(s: Seq<char>, k: int) -> int {
    choose|l: int| on_line(lines_of(s), k, l)
}

/// The column of scalar index `k` of `s` within its segment.
pub open spec fn column(s: Seq<char>, k: int) -> int {
    k - line_start(lines_of(s), line_index(s, k))
}

/// Where the cursor at scalar index `k` goes when it moves one segment up:
/// the same column of the segment above, or that segment's end if it is
/// shorter. On the first segment it stays.
pub open spec fn up_target(s: Seq<char>, k: int) -> int {
    let ls = lines_of(s);
    let l = line_index(s, k);
    let col = column(s, k);
    if l == 0 {
        k
    } else if col <= ls[l - 1].len() {
        line_start(ls, l - 1) + col
    } else {
        line_start(ls, l - 1) + ls[l - 1].len()
    }
}

/// Where the cursor at scalar index `k` goes when it moves one segment down:
/// the same column of the segment below, or that segment's end if it is
/// shorter. On the last segment it stays.
pub open spec fn down_target(s: Seq<char>, k: int) -> int {
    let ls = lines_of(s);
    let l = line_index(s, k);
    let col = column(s, k);
    if l + 1 >= ls.len() {
        k
    } else if col <= ls[l + 1].len() {
        line_start(ls, l + 1) + col
    } else {
        line_start(ls, l + 1) + ls[l + 1].len()
    }
}

/// Row, within its segment, of column `col` of a segment of `len` scalar
/// values at `width` columns. The column after the last scalar value of a
/// full row stays on that row.
pub open spec fn local_row(col: int, len: nat, width: nat) -> int {
    if col / (width as int) < rows_for(len, width) {
        col / (width as int)
    } else {
        rows_for(len, width) - 1
    }
}

/// Visual line on which scalar index `k` of `s` lies at `width` columns.
pub open spec fn cursor_row(s: Seq<char>, k: int, width: nat) -> int {
    let ls = lines_of(s);
    let l = line_index(s, k);
    rows_total(ls, width, l as nat) + local_row(column(s, k), ls[l].len(), width)
}

/// Column of scalar index `k` of `s` on its visual line at `width` columns.
pub open spec fn cursor_col(s: Seq<char>, k: int, width: nat) -> int {
    let ls = lines_of(s);
    let l = line_index(s, k);
    column(s, k) - local_row(column(s, k), ls[l].len(), width) * width
}

/// The rows of the segments before `n` are no more than the scalar values
/// and line breaks before it.
pub proof fn lemma_rows_before_start(ls: Seq<Seq<char>>, width: nat, n: nat)
    requires
        width > 0,
    ensures
        rows_total(ls, width, n) <= line_start(ls, n as int),
    decreases n,
{
    if n > 0 {
        lemma_rows_before_start(ls, width, (n - 1) as nat);
        lemma_rows_at_most_len(ls[n - 1].len(), width);
    }
}

/// The row of a column within its segment is one of the segment's rows, and
/// the column on that row is at most `width`.
pub proof fn lemma_local_row(col: int, len: nat, width: nat)
    requires
        width > 0,
        0 <= col <= len,
    ensures
        0 <= local_row(col, len, width) < rows_for(len, width),
        0 <= col - local_row(col, len, width) * width <= width,
        local_row(col, len, width) * width <= col,
        local_row(col, len, width) <= col,
{
    let w = width as int;
    let l = len as int;
    lemma_rows_positive(len, width);
    let q = col / w;
    assert(q * w <= col < q * w + w && q >= 0 && q <= col) by (nonlinear_arith)
        requires
            q == col / w,
            w > 0,
            col >= 0,
    ;
    if q >= rows_for(len, width) {
        let r = rows_for(len, width) as int;
        if len > 0 {
            assert(l <= r * w) by (nonlinear_arith)
                requires
                    r == (l + w - 1) / w,
                    w > 0,
                    l > 0,
            ;
            assert(r * w <= q * w) by (nonlinear_arith)
                requires
                    r <= q,
                    w > 0,
            ;
            assert((r - 1) * w == r * w - w) by (nonlinear_arith);
            assert(0 <= (r - 1) * w && r - 1 <= (r - 1) * w) by (nonlinear_arith)
                requires
                    r >= 1,
                    w > 0,
            ;
        } else {
            assert((r - 1) * w == 0) by (nonlinear_arith)
                requires
                    r == 1,
            ;
        }
    }
}

/// The cursor's visual line is one of the text's visual lines.
pub proof fn lemma_cursor_row(s: Seq<char>, k: int, width: nat)
    requires
        width > 0,
        0 <= k <= s.len(),
    ensures
        0 <= cursor_row(s, k, width) < row_count(s, width),
        0 <= cursor_col(s, k, width) <= width,
        cursor_row(s, k, width) <= k,
{
    let ls = lines_of(s);
    let l = line_index(s, k);
    lemma_line_index(s, k);
    lemma_local_row(column(s, k), ls[l].len(), width);
    lemma_rows_total_monotone(ls, width, l as nat, ls.len());
    lemma_rows_before_start(ls, width, l as nat);
}

/// The cursor's cell agrees with the wrap: its visual line is a row of the
/// explicit line that the cursor is on, and the scalar values on that row
/// before the cursor's column are those of the explicit line between the
/// row's start and the cursor.
pub proof fn lemma_cursor_cell_in_wrap(s: Seq<char>, k: int, width: nat)
    requires
        width > 0,
        0 <= k <= s.len(),
    ensures
        0 <= cursor_row(s, k, width) < wrap_text(s, width).len(),
        wrap_text(s, width)[cursor_row(s, k, width)].source == line_index(s, k),
        0 <= cursor_col(s, k, width) <= wrap_text(s, width)[cursor_row(s, k, width)].text.len(),
        wrap_text(s, width)[cursor_row(s, k, width)].text.take(cursor_col(s, k, width))
            == lines_of(s)[line_index(s, k)].subrange(
            column(s, k) - cursor_col(s, k, width),
            column(s, k),
        ),
{
    let ls = lines_of(s);
    let l = line_index(s, k);
    let col = column(s, k);
    let local = local_row(col, ls[l].len(), width);
    lemma_line_index(s, k);
    lemma_local_row(col, ls[l].len(), width);
    lemma_wrap_row(ls, width, ls.len(), l, local);
    lemma_rows_bounds(ls[l].len(), width, local);
    lemma_row_len(ls[l], width, local);
    let row = row_of(ls[l], width, local);
    assert(row.take(col - local * width) =~= ls[l].subrange(local * width, col));
}

/// Later segments start after the end of earlier ones.
pub proof fn lemma_line_start_monotone(ls: Seq<Seq<char>>, a: int, b: int)
    requires
        0 <= a <= b,
    ensures
        line_start(ls, a) <= line_start(ls, b),
        a < b ==> line_start(ls, a) + ls[a].len() < line_start(ls, b),
        line_start(ls, a) >= 0,
    decreases b,
{
    if a < b {
        lemma_line_start_monotone(ls, a, b - 1);
    } else if a > 0 {
        lemma_line_start_monotone(ls, a - 1, a - 1);
    }
}

/// Segment starts depend only on the segments before.
proof fn lemma_line_start_prefix(a: Seq<Seq<char>>, b: Seq<Seq<char>>, n: int)
    requires
        0 <= n <= a.len(),
        n <= b.len(),
        forall|i: int| 0 <= i < n ==> a[i].len() == b[i].len(),
    ensures
        line_start(a, n) == line_start(b, n),
    decreases n,
{
    if n > 0 {
        lemma_line_start_prefix(a, b, n - 1);
    }
}

/// The segments and their line breaks account for every scalar value: the
/// last segment ends where the text ends.
pub proof fn lemma_lines_total(s: Seq<char>)
    ensures
        lines_of(s).len() >= 1,
        line_start(lines_of(s), lines_of(s).len() as int) == s.len() + 1,
    decreases s.len(),
{
    let ls = lines_of(s);
    lemma_lines_nonempty(s);
    if s.len() == 0 {
        reveal_with_fuel(line_start, 2);
    } else {
        let before = lines_of(s.drop_last());
        lemma_lines_total(s.drop_last());
        let n = before.len() as int;
        if s.last() == '\n' {
            lemma_line_start_prefix(ls, before, n);
        } else {
            lemma_line_start_prefix(ls, before, n - 1);
        }
    }
}

/// A scalar index lies on one segment only.
pub proof fn lemma_on_line_unique(ls: Seq<Seq<char>>, k: int, a: int, b: int)
    requires
        on_line(ls, k, a),
        on_line(ls, k, b),
    ensures
        a == b,
{
    if a < b {
        lemma_line_start_monotone(ls, a, b);
    } else if b < a {
        lemma_line_start_monotone(ls, b, a);
    }
}

/// Every scalar index before segment `n` starts lies on an earlier segment.
proof fn lemma_line_before(ls: Seq<Seq<char>>, k: int, n: int)
    requires
        0 <= k < line_start(ls, n),
        0 <= n <= ls.len(),
    ensures
        exists|l: int| 0 <= l < n && on_line(ls, k, l),
    decreases n,
{
    if n > 0 {
        if k >= line_start(ls, n - 1) {
            assert(on_line(ls, k, n - 1));
        } else {
            lemma_line_before(ls, k, n - 1);
        }
    }
}

/// Every scalar index of a text, its end included, lies on exactly one
/// segment, at a column within that segment.
pub proof fn lemma_line_index(s: Seq<char>, k: int)
    requires
        0 <= k <= s.len(),
    ensures
        on_line(lines_of(s), k, line_index(s, k)),
        0 <= line_index(s, k) < lines_of(s).len(),
        0 <= column(s, k) <= lines_of(s)[line_index(s, k)].len(),
{
    lemma_lines_total(s);
    lemma_line_before(lines_of(s), k, lines_of(s).len() as int);
}

/// The segment of a scalar index is what any search finds.
pub proof fn lemma_line_index_is(s: Seq<char>, k: int, l: int)
    requires
        on_line(lines_of(s), k, l),
    ensures
        line_index(s, k) == l,
        column(s, k) == k - line_start(lines_of(s), l),
{
    lemma_on_line_unique(lines_of(s), k, l, line_index(s, k));
}

/// A text has one segment more than it has line breaks, and its last
/// segment holds the scalar values after the last line break.
pub proof fn lemma_lines_shape(p: Seq<char>)
    ensures
        lines_of(p).len() == count_of(p, '\n') + 1,
        lines_of(p).last().len() == trailing(p),
    decreases p.len(),
{
    if p.len() > 0 {
        lemma_lines_shape(p.drop_last());
    }
}

/// The segments of a prefix of a text are those of the text, but that the
/// last one may be cut short and later ones are missing.
pub proof fn lemma_lines_prefix(s: Seq<char>, j: int)
    requires
        0 <= j <= s.len(),
    ensures
        1 <= lines_of(s.take(j)).len() <= lines_of(s).len(),
        forall|i: int|
            0 <= i < lines_of(s.take(j)).len() - 1 ==> #[trigger] lines_of(s.take(j))[i].len()
                == lines_of(s)[i].len(),
        lines_of(s.take(j)).last().len() <= lines_of(s)[lines_of(s.take(j)).len() - 1].len(),
    decreases s.len(),
{
    if j == s.len() {
        assert(s.take(j) =~= s);
        lemma_lines_nonempty(s);
    } else {
        let q = s.drop_last();
        assert(s.take(j) =~= q.take(j));
        lemma_lines_prefix(q, j);
        lemma_lines_nonempty(q);
    }
}

/// The segment of a scalar index is the number of line breaks before it,
/// and its column the number of scalar values since the last of them.
pub proof fn lemma_line_col_by_counting(s: Seq<char>, j: int)
    requires
        0 <= j <= s.len(),
    ensures
        line_index(s, j) == count_of(s.take(j), '\n'),
        column(s, j) == trailing(s.take(j)),
{
    let p = s.take(j);
    let lp = lines_of(p);
    let ls = lines_of(s);
    let l = lp.len() - 1;
    lemma_lines_shape(p);
    lemma_lines_prefix(s, j);
    lemma_lines_total(p);
    lemma_line_start_prefix(lp, ls, l);
    assert(line_start(lp, l + 1) == line_start(lp, l) + lp[l].len() + 1);
    assert(on_line(ls, j, l));
    lemma_line_index_is(s, j, l);
}

/// Both targets of a vertical move are scalar indices of the text.
pub proof fn lemma_targets_in_range(s: Seq<char>, k: int)
    requires
        0 <= k <= s.len(),
    ensures
        0 <= up_target(s, k) <= s.len(),
        0 <= down_target(s, k) <= s.len(),
{
    let ls = lines_of(s);
    let l = line_index(s, k);
    lemma_line_index(s, k);
    lemma_lines_total(s);
    if l > 0 {
        lemma_line_start_monotone(ls, l - 1, ls.len() as int);
    }
    if l + 1 < ls.len() {
        lemma_line_start_monotone(ls, l + 1, ls.len() as int);
        lemma_line_start_monotone(ls, l + 1, l + 1);
        if l + 2 < ls.len() {
            lemma_line_start_monotone(ls, l + 2, ls.len() as int);
        }
    }
}

/// Scalar index at which segment `n` starts.
pub fn start_of_line(lines: &Vec<Vec<char>>, n: usize) -> (start: usize)
    requires
        n < lines.len(),
        line_start(segment_views(lines@), lines.len() as int) <= usize::MAX + 1,
    ensures
        start == line_start(segment_views(lines@), n as int),
{
    let ghost ls = segment_views(lines@);
    let mut start: usize = 0;
    let mut i: usize = 0;
    while i < n
        invariant
            i <= n < lines.len(),
            ls == segment_views(lines@),
            start == line_start(ls, i as int),
            line_start(ls, lines.len() as int) <= usize::MAX + 1,
        decreases n - i,
    {
        proof {
            lemma_line_start_monotone(ls, i + 1, n as int);
            lemma_line_start_monotone(ls, n as int, lines.len() as int);
        }
        start = start + lines[i].len() + 1;
        i = i + 1;
    }
    start
}

/// Segment and column of scalar index `k`, found by scanning the segments
/// from the first: the first one whose span reaches `k`.
pub fn locate_line(lines: &Vec<Vec<char>>, k: usize) -> (at: (usize, usize))
    requires
        exists|l: int| on_line(segment_views(lines@), k as int, l),
    ensures
        on_line(segment_views(lines@), k as int, at.0 as int),
        at.1 == k - line_start(segment_views(lines@), at.0 as int),
        at.0 < lines.len(),
        at.1 <= lines@[at.0 as int].len(),
{
    let ghost ls = segment_views(lines@);
    let ghost goal = choose|l: int| on_line(ls, k as int, l);
    let mut pos: usize = 0;
    let mut i: usize = 0;
    while i < lines.len()
        invariant
            i <= goal < lines.len(),
            ls == segment_views(lines@),
            on_line(ls, k as int, goal),
            pos == line_start(ls, i as int),
        decreases lines.len() - i,
    {
        let n = lines[i].len();
        proof {
            lemma_line_start_monotone(ls, i as int, goal);
        }
        if k - pos <= n {
            return (i, k - pos);
        }
        pos = pos + n + 1;
        i = i + 1;
    }
    (0, k)
}

/// Visual row and column of scalar index `k`, which lies on segment `line`
/// at column `col`, at `width` columns.
pub fn cell_of(lines: &Vec<Vec<char>>, line: usize, col: usize, width: usize) -> (cell: (
    usize,
    usize,
))
    requires
        width > 0,
        line < lines.len(),
        col <= segment_views(lines@)[line as int].len(),
        line_start(segment_views(lines@), line as int) + col <= usize::MAX,
    ensures
        cell.0 == rows_total(segment_views(lines@), width as nat, line as nat) + local_row(
            col as int,
            segment_views(lines@)[line as int].len(),
            width as nat,
        ),
        cell.1 == col - local_row(
            col as int,
            segment_views(lines@)[line as int].len(),
            width as nat,
        ) * width,
{
    let ghost ls = segment_views(lines@);
    let mut before: usize = 0;
    let mut i: usize = 0;
    while i < line
        invariant
            i <= line < lines.len(),
            width > 0,
            ls == segment_views(lines@),
            before == rows_total(ls, width as nat, i as nat),
            line_start(ls, line as int) <= usize::MAX,
        decreases line - i,
    {
        proof {
            lemma_rows_before_start(ls, width as nat, (i + 1) as nat);
            lemma_line_start_monotone(ls, i + 1, line as int);
        }
        before = before + rows_needed(lines[i].len(), width);
        i = i + 1;
    }
    let rows = rows_needed(lines[line].len(), width);
    let q = col / width;
    let local = if q < rows {
        q
    } else {
        rows - 1
    };
    proof {
        lemma_local_row(col as int, segment_views(lines@)[line as int].len(), width as nat);
        lemma_rows_before_start(ls, width as nat, line as nat);
    }
    (before + local, col - local * width)
}

} // verus!
