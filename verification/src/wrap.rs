//! Line wrapping by column count: explicit line breaks first, then greedy
//! packing of scalar values into rows of a fixed width.

use vstd::prelude::*;
use crate::text::push_char;
use crate::utf8::scalars;

verus! {

/// The segments of `s` between explicit line breaks. There is always at least
/// one segment, and a trailing break opens an empty one.
pub open spec fn lines_of(s: Seq<char>) -> Seq<Seq<char>>
    decreases s.len(),
{
    if s.len() == 0 {
        seq![Seq::<char>::empty()]
    } else {
        let before = lines_of(s.drop_last());
        if s.last() == '\n' {
            before.push(Seq::<char>::empty())
        } else {
            before.drop_last().push(before.last().push(s.last()))
        }
    }
}

/// Segments joined again by line breaks.
pub open spec fn join_lines(ls: Seq<Seq<char>>) -> Seq<char>
    decreases ls.len(),
{
    if ls.len() == 0 {
        Seq::<char>::empty()
    } else if ls.len() == 1 {
        ls[0]
    } else {
        join_lines(ls.drop_last()).push('\n') + ls.last()
    }
}

/// Number of rows that a segment of `len` scalar values takes at `width`
/// columns: the quotient rounded up, and one row for an empty segment.
pub open spec fn rows_for(len: nat, width: nat) -> nat
    recommends
        width > 0,
{
    if len == 0 {
        1
    } else {
        ((len + width - 1) / (width as int)) as nat
    }
}

/// Row `i` of a segment at `width` columns: the scalar values from column
/// `i * width` up to the next multiple of `width` or the segment's end.
pub open spec fn row_of(line: Seq<char>, width: nat, i: int) -> Seq<char> {
    let end = if (i + 1) * width <= line.len() {
        (i + 1) * width
    } else {
        line.len() as int
    };
    line.subrange(i * width, end)
}

/// One segment cut greedily into rows of at most `width` scalar values.
pub open spec fn chunks(line: Seq<char>, width: nat) -> Seq<Seq<char>>
    recommends
        width > 0,
{
    Seq::new(rows_for(line.len(), width), |i: int| row_of(line, width, i))
}

/// Rows concatenated in order.
pub open spec fn concat_rows(rows: Seq<Seq<char>>) -> Seq<char>
    decreases rows.len(),
{
    if rows.len() == 0 {
        Seq::<char>::empty()
    } else {
        concat_rows(rows.drop_last()) + rows.last()
    }
}

/// A row of wrapped text as a mathematical value.
pub struct VisualLine {
    /// Index of the explicit line that the row was cut from.
    pub source: nat,
    /// The scalar values on the row.
    pub text: Seq<char>,
}

/// Rows of one segment, each tagged with the segment's index.
pub open spec fn tagged(rows: Seq<Seq<char>>, source: nat) -> Seq<VisualLine> {
    Seq::new(rows.len(), |i: int| VisualLine { source, text: rows[i] })
}

/// The rows of the first `n` segments of `ls`, in order.
pub open spec fn wrap_lines(ls: Seq<Seq<char>>, width: nat, n: nat) -> Seq<VisualLine>
    decreases n,
{
    if n == 0 {
        Seq::<VisualLine>::empty()
    } else {
        wrap_lines(ls, width, (n - 1) as nat) + tagged(chunks(ls[n - 1], width), (n - 1) as nat)
    }
}

/// The visual lines of `s` at `width` columns.
pub open spec fn wrap_text(s: Seq<char>, width: nat) -> Seq<VisualLine> {
    wrap_lines(lines_of(s), width, lines_of(s).len())
}

/// Total number of rows of the first `n` segments of `ls`.
pub open spec fn rows_total(ls: Seq<Seq<char>>, width: nat, n: nat) -> nat
    decreases n,
{
    if n == 0 {
        0
    } else {
        rows_total(ls, width, (n - 1) as nat) + rows_for(ls[n - 1].len(), width)
    }
}

/// Number of visual lines of `s` at `width` columns.
pub open spec fn row_count(s: Seq<char>, width: nat) -> nat {
    rows_total(lines_of(s), width, lines_of(s).len())
}

/// The text that a sequence of visual lines stands for: rows of one segment
/// run together, and a line break separates rows of different segments.
pub open spec fn rebuild(ws: Seq<VisualLine>) -> Seq<char>
    decreases ws.len(),
{
    if ws.len() == 0 {
        Seq::<char>::empty()
    } else if ws.len() == 1 {
        ws[0].text
    } else if ws[ws.len() - 2].source == ws.last().source {
        rebuild(ws.drop_last()) + ws.last().text
    } else {
        rebuild(ws.drop_last()).push('\n') + ws.last().text
    }
}

/// One row of wrapped text.
#[derive(Debug)]
pub struct WrappedLine {
    /// Index of the explicit line that the row was cut from.
    pub source_line: usize,
    /// The row's text, without a line break.
    pub text: String,
}

impl View for WrappedLine {
    type V = VisualLine;

    open spec fn view(&self) -> VisualLine {
        VisualLine { source: self.source_line as nat, text: self.text@ }
    }
}

/// The mathematical values of a sequence of rows.
pub open spec fn line_views(v: Seq<WrappedLine>) -> Seq<VisualLine> {
    Seq::new(v.len(), |i: int| v[i]@)
}

/// The contents of a sequence of strings.
pub open spec fn texts(rows: Seq<String>) -> Seq<Seq<char>> {
    Seq::new(rows.len(), |i: int| rows[i]@)
}

/// The contents of a sequence of segments.
pub open spec fn segment_views(v: Seq<Vec<char>>) -> Seq<Seq<char>> {
    Seq::new(v.len(), |i: int| v[i]@)
}

/// A text has at least one segment, and no segment holds a line break.
pub proof fn lemma_lines_nonempty(s: Seq<char>)
    ensures
        lines_of(s).len() >= 1,
        forall|i: int, j: int|
            0 <= i < lines_of(s).len() && 0 <= j < lines_of(s)[i].len() ==> lines_of(s)[i][j]
                != '\n',
    decreases s.len(),
{
    if s.len() > 0 {
        lemma_lines_nonempty(s.drop_last());
    }
}

/// Joining the segments of a text by line breaks gives the text back.
pub proof fn lemma_join_lines(s: Seq<char>)
    ensures
        join_lines(lines_of(s)) == s,
    decreases s.len(),
{
    if s.len() == 0 {
    } else {
        let p = s.drop_last();
        let before = lines_of(p);
        lemma_join_lines(p);
        lemma_lines_nonempty(p);
        if s.last() == '\n' {
            let ls = before.push(Seq::<char>::empty());
            assert(ls.drop_last() =~= before);
            assert(join_lines(ls) =~= p.push('\n'));
            assert(p.push('\n') =~= s);
        } else {
            let ls = before.drop_last().push(before.last().push(s.last()));
            assert(ls.drop_last() =~= before.drop_last());
            if before.len() == 1 {
                assert(join_lines(ls) =~= before[0].push(s.last()));
                assert(p.push(s.last()) =~= s);
            } else {
                assert(join_lines(before) == join_lines(before.drop_last()).push('\n')
                    + before.last());
                assert(join_lines(ls) =~= join_lines(before).push(s.last()));
                assert(p.push(s.last()) =~= s);
            }
        }
    }
}

/// Every segment takes at least one row.
pub proof fn lemma_rows_positive(len: nat, width: nat)
    requires
        width > 0,
    ensures
        rows_for(len, width) >= 1,
        len <= width ==> rows_for(len, width) == 1,
        len > width ==> rows_for(len, width) >= 2,
{
    let w = width as int;
    let l = len as int;
    if len > 0 {
        assert((l + w - 1) / w >= 1 && (l <= w ==> (l + w - 1) / w == 1) && (l > w ==> (l + w - 1)
            / w >= 2)) by (nonlinear_arith)
            requires
                w > 0,
                l > 0,
        ;
    }
}

/// Bounds on the rows of a segment: row `i` starts inside the segment, and
/// the last row ends at the segment's end.
pub proof fn lemma_rows_bounds(len: nat, width: nat, i: int)
    requires
        width > 0,
        0 <= i < rows_for(len, width),
    ensures
        0 <= i * width <= len,
        len > 0 ==> i * width < len,
        i + 1 == rows_for(len, width) <==> (i + 1) * width >= len,
        rows_for(len, width) >= 1,
        len > 0 ==> (rows_for(len, width) - 1) * width < len <= rows_for(len, width) * width,
{
    let w = width as int;
    let l = len as int;
    if len > 0 {
        let r = (l + w - 1) / w;
        assert(r * w <= l + w - 1 && l + w - 1 < r * w + w) by (nonlinear_arith)
            requires
                r == (l + w - 1) / w,
                w > 0,
                l > 0,
        ;
        assert(i * w <= (r - 1) * w && (r - 1) * w == r * w - w && (i + 1) * w == i * w + w
            && 0 <= i * w) by (nonlinear_arith)
            requires
                0 <= i <= r - 1,
                w > 0,
        ;
        if i + 1 < r {
            assert((i + 1) * w <= (r - 1) * w) by (nonlinear_arith)
                requires
                    i + 1 <= r - 1,
                    w > 0,
            ;
        }
    } else {
        assert(i * w == 0 && (i + 1) * w == w) by (nonlinear_arith)
            requires
                i == 0,
        ;
    }
}

/// No row of a segment is wider than `width`, and only an empty segment has
/// an empty row.
pub proof fn lemma_row_len(line: Seq<char>, width: nat, i: int)
    requires
        width > 0,
        0 <= i < rows_for(line.len(), width),
    ensures
        row_of(line, width, i).len() <= width,
        line.len() > 0 ==> row_of(line, width, i).len() >= 1,
        i + 1 < rows_for(line.len(), width) ==> row_of(line, width, i).len() == width,
        forall|j: int|
            0 <= j < row_of(line, width, i).len() ==> row_of(line, width, i)[j] == line[i * width
                + j],
{
    lemma_rows_bounds(line.len(), width, i);
    let w = width as int;
    assert((i + 1) * w == i * w + w) by (nonlinear_arith);
}

/// The rows of a segment, run together, are the segment.
pub proof fn lemma_concat_chunks(line: Seq<char>, width: nat, n: int)
    requires
        width > 0,
        0 <= n <= rows_for(line.len(), width),
    ensures
        n < rows_for(line.len(), width) ==> concat_rows(chunks(line, width).take(n))
            == line.take(n * width),
        n == rows_for(line.len(), width) ==> concat_rows(chunks(line, width).take(n)) == line,
    decreases n,
{
    let rows = chunks(line, width);
    let w = width as int;
    assert(rows.len() == rows_for(line.len(), width));
    lemma_rows_positive(line.len(), width);
    if n == 0 {
        assert(0 * w == 0) by (nonlinear_arith);
        assert(line.take(0) =~= Seq::<char>::empty());
        assert(rows.take(0) =~= Seq::<Seq<char>>::empty());
    } else {
        lemma_concat_chunks(line, width, n - 1);
        lemma_rows_bounds(line.len(), width, n - 1);
        lemma_row_len(line, width, n - 1);
        assert(rows.take(n).drop_last() =~= rows.take(n - 1));
        assert(rows.take(n).last() == row_of(line, width, n - 1));
        assert((n - 1) * w + w == n * w) by (nonlinear_arith);
        if n < rows_for(line.len(), width) {
            lemma_rows_bounds(line.len(), width, n);
            assert(line.take((n - 1) * w) + row_of(line, width, n - 1) =~= line.take(n * w));
        } else {
            assert(line.take((n - 1) * w) + row_of(line, width, n - 1) =~= line);
        }
    }
}

/// Appending the first `m` rows of a new segment to visual lines of earlier
/// segments appends a line break and those rows to the text they stand for.
proof fn lemma_rebuild_append(a: Seq<VisualLine>, rows: Seq<Seq<char>>, source: nat, m: int)
    requires
        a.len() > 0 ==> a.last().source != source,
        1 <= m <= rows.len(),
    ensures
        rebuild(a + tagged(rows, source).take(m)) == if a.len() == 0 {
            concat_rows(rows.take(m))
        } else {
            rebuild(a).push('\n') + concat_rows(rows.take(m))
        },
    decreases m,
{
    let t = tagged(rows, source);
    let ws = a + t.take(m);
    assert(ws.drop_last() =~= a + t.take(m - 1));
    assert(rows.take(m).drop_last() =~= rows.take(m - 1));
    assert(ws.last().text == rows[m - 1]);
    if m == 1 {
        assert(a + t.take(0) =~= a);
        assert(rows.take(0) =~= Seq::<Seq<char>>::empty());
        assert(concat_rows(rows.take(1)) =~= rows[0]) by {
            reveal_with_fuel(concat_rows, 2);
        }
        if a.len() > 0 {
            assert(ws[ws.len() - 2] == a.last());
        }
    } else {
        lemma_rebuild_append(a, rows, source, m - 1);
        assert(ws[ws.len() - 2].source == source);
        if a.len() == 0 {
            assert(rebuild(ws) =~= concat_rows(rows.take(m)));
        } else {
            assert(rebuild(ws) =~= rebuild(a).push('\n') + concat_rows(rows.take(m)));
        }
    }
}

/// Shape of the visual lines of the first `n` segments: their number, their
/// widths, their sources, and the text they stand for.
pub proof fn lemma_wrap_lines(ls: Seq<Seq<char>>, width: nat, n: nat)
    requires
        width > 0,
        n <= ls.len(),
    ensures
        wrap_lines(ls, width, n).len() == rows_total(ls, width, n),
        n > 0 ==> wrap_lines(ls, width, n).len() > 0 && wrap_lines(ls, width, n).last().source
            == n - 1,
        forall|i: int|
            0 <= i < wrap_lines(ls, width, n).len() ==> (#[trigger] wrap_lines(
                ls,
                width,
                n,
            )[i]).text.len() <= width && wrap_lines(ls, width, n)[i].source < n,
        rebuild(wrap_lines(ls, width, n)) == join_lines(ls.take(n as int)),
    decreases n,
{
    if n == 0 {
        assert(ls.take(0) =~= Seq::<Seq<char>>::empty());
    } else {
        let m = (n - 1) as nat;
        let a = wrap_lines(ls, width, m);
        let rows = chunks(ls[n - 1], width);
        let t = tagged(rows, m);
        lemma_wrap_lines(ls, width, m);
        lemma_rows_positive(ls[n - 1].len(), width);
        assert(rows.len() == rows_for(ls[n - 1].len(), width));
        assert forall|i: int| 0 <= i < (a + t).len() implies (#[trigger] (a + t)[i]).text.len()
            <= width && (a + t)[i].source < n by {
            if i >= a.len() {
                lemma_row_len(ls[n - 1], width, i - a.len());
            }
        }
        assert(t.take(rows.len() as int) =~= t);
        assert(rows.take(rows.len() as int) =~= rows);
        lemma_rebuild_append(a, rows, m, rows.len() as int);
        lemma_concat_chunks(ls[n - 1], width, rows.len() as int);
        assert(ls.take(n as int).drop_last() =~= ls.take(m as int));
        assert(ls.take(n as int).last() == ls[n - 1]);
        if m == 0 {
            assert(a.len() == 0);
        } else {
            assert(a.len() > 0);
        }
    }
}

/// Row `i` of segment `l` stands among the visual lines behind all rows of
/// the segments before `l`.
pub proof fn lemma_wrap_row(ls: Seq<Seq<char>>, width: nat, n: nat, l: int, i: int)
    requires
        width > 0,
        0 <= l < n <= ls.len(),
        0 <= i < rows_for(ls[l].len(), width),
    ensures
        rows_total(ls, width, l as nat) + i < wrap_lines(ls, width, n).len(),
        wrap_lines(ls, width, n)[rows_total(ls, width, l as nat) + i] == (VisualLine {
            source: l as nat,
            text: row_of(ls[l], width, i),
        }),
    decreases n,
{
    let m = (n - 1) as nat;
    let a = wrap_lines(ls, width, m);
    let rows = chunks(ls[n - 1], width);
    assert(rows.len() == rows_for(ls[n - 1].len(), width));
    if l < n - 1 {
        lemma_wrap_row(ls, width, m, l, i);
    } else {
        lemma_wrap_lines(ls, width, m);
        assert(tagged(rows, m)[i] == (VisualLine { source: m, text: rows[i] }));
    }
}

/// Rows are filled greedily: a row that another row of the same segment
/// follows holds exactly `width` scalar values.
pub proof fn lemma_wrap_greedy(s: Seq<char>, width: nat, l: int, i: int)
    requires
        width > 0,
        0 <= l < lines_of(s).len(),
        0 <= i,
        i + 1 < rows_for(lines_of(s)[l].len(), width),
    ensures
        rows_total(lines_of(s), width, l as nat) + i + 1 < wrap_text(s, width).len(),
        wrap_text(s, width)[rows_total(lines_of(s), width, l as nat) + i].source == l,
        wrap_text(s, width)[rows_total(lines_of(s), width, l as nat) + i + 1].source == l,
        wrap_text(s, width)[rows_total(lines_of(s), width, l as nat) + i].text.len() == width,
{
    let ls = lines_of(s);
    lemma_wrap_row(ls, width, ls.len(), l, i);
    lemma_wrap_row(ls, width, ls.len(), l, i + 1);
    lemma_row_len(ls[l], width, i);
}

/// Reading the visual lines of a text back, with a line break wherever the
/// source segment changes, gives the text.
pub proof fn lemma_wrap_reconstructs(s: Seq<char>, width: nat)
    requires
        width > 0,
    ensures
        rebuild(wrap_text(s, width)) == s,
{
    let ls = lines_of(s);
    lemma_wrap_lines(ls, width, ls.len());
    lemma_join_lines(s);
    assert(ls.take(ls.len() as int) =~= ls);
}

/// No visual line holds more than `width` scalar values, and their number is
/// the sum of the rows of the segments.
pub proof fn lemma_wrap_widths(s: Seq<char>, width: nat)
    requires
        width > 0,
    ensures
        wrap_text(s, width).len() == row_count(s, width),
        wrap_text(s, width).len() >= 1,
        forall|i: int|
            0 <= i < wrap_text(s, width).len() ==> (#[trigger] wrap_text(s, width)[i]).text.len()
                <= width,
{
    let ls = lines_of(s);
    lemma_lines_nonempty(s);
    lemma_wrap_lines(ls, width, ls.len());
}

/// A text without line breaks is one segment.
pub proof fn lemma_single_segment(s: Seq<char>)
    requires
        forall|i: int| 0 <= i < s.len() ==> s[i] != '\n',
    ensures
        lines_of(s) == seq![s],
    decreases s.len(),
{
    if s.len() > 0 {
        lemma_single_segment(s.drop_last());
        assert(s.drop_last().push(s.last()) =~= s);
        assert(seq![s.drop_last()].drop_last().push(s) =~= seq![s]);
    } else {
        assert(s =~= Seq::<char>::empty());
    }
}

/// A text of `L` scalar values without line breaks wraps into the quotient of
/// `L` by `width`, rounded up, and into one row when it is empty.
pub proof fn lemma_wrap_single_segment(s: Seq<char>, width: nat)
    requires
        width > 0,
        forall|i: int| 0 <= i < s.len() ==> s[i] != '\n',
    ensures
        wrap_text(s, width).len() == rows_for(s.len(), width),
        s.len() == 0 ==> wrap_text(s, width).len() == 1,
        s.len() > 0 ==> (wrap_text(s, width).len() - 1) * width < s.len() <= wrap_text(
            s,
            width,
        ).len() * width,
{
    lemma_single_segment(s);
    lemma_wrap_widths(s, width);
    reveal_with_fuel(rows_total, 2);
    lemma_rows_positive(s.len(), width);
    if s.len() > 0 {
        lemma_rows_bounds(s.len(), width, 0);
    }
}

/// Number of rows that a segment of `len` scalar values takes at `width`
/// columns.
pub fn rows_needed(len: usize, width: usize) -> (rows: usize)
    requires
        width > 0,
    ensures
        rows == rows_for(len as nat, width as nat),
        rows >= 1,
{
    if len == 0 {
        1
    } else {
        proof {
            let w = width as int;
            let l = len as int;
            assert((l + w - 1) / w == (l - 1) / w + 1 && (l - 1) / w <= l - 1)
                by (nonlinear_arith)
                requires
                    w > 0,
                    l > 0,
            ;
        }
        (len - 1) / width + 1
    }
}

/// The rows of the segments add up.
pub proof fn lemma_rows_total_monotone(ls: Seq<Seq<char>>, width: nat, a: nat, b: nat)
    requires
        width > 0,
        a <= b,
    ensures
        rows_total(ls, width, a) + (b - a) <= rows_total(ls, width, b),
        a < b ==> rows_total(ls, width, a) + rows_for(ls[a as int].len(), width) <= rows_total(
            ls,
            width,
            b,
        ),
    decreases b,
{
    if a < b {
        lemma_rows_positive(ls[b - 1].len(), width);
        lemma_rows_total_monotone(ls, width, a, (b - 1) as nat);
    }
}

/// A segment takes no more rows than it has scalar values, but for the one
/// row of an empty segment.
pub proof fn lemma_rows_at_most_len(len: nat, width: nat)
    requires
        width > 0,
    ensures
        rows_for(len, width) <= if len == 0 {
            1
        } else {
            len
        },
{
    let w = width as int;
    let l = len as int;
    if len > 0 {
        assert((l + w - 1) / w <= l) by (nonlinear_arith)
            requires
                w > 0,
                l > 0,
        ;
    }
}

/// Splits scalar values into the segments between explicit line breaks.
pub fn split_lines(chars: &Vec<char>) -> (lines: Vec<Vec<char>>)
    ensures
        segment_views(lines@) == lines_of(chars@),
        lines.len() >= 1,
{
    let mut lines: Vec<Vec<char>> = Vec::new();
    let mut cur: Vec<char> = Vec::new();
    let mut i: usize = 0;
    assert(chars@.take(0) =~= Seq::<char>::empty());
    assert(segment_views(lines@).push(cur@) =~= lines_of(chars@.take(0)));
    while i < chars.len()
        invariant
            i <= chars.len(),
            segment_views(lines@).push(cur@) == lines_of(chars@.take(i as int)),
        decreases chars.len() - i,
    {
        let c = chars[i];
        let ghost before = lines_of(chars@.take(i as int));
        let ghost old_lines = segment_views(lines@);
        let ghost old_cur = cur@;
        proof {
            assert(chars@.take(i + 1).drop_last() =~= chars@.take(i as int));
            assert(chars@.take(i + 1).last() == c);
        }
        if c == '\n' {
            lines.push(cur);
            cur = Vec::new();
            assert(segment_views(lines@) =~= old_lines.push(old_cur));
            assert(segment_views(lines@).push(cur@) =~= before.push(Seq::<char>::empty()));
        } else {
            cur.push(c);
            assert(before.drop_last() =~= old_lines);
            assert(before.last() == old_cur);
        }
        i += 1;
    }
    let ghost done = segment_views(lines@);
    let ghost last = cur@;
    lines.push(cur);
    proof {
        assert(chars@.take(chars.len() as int) =~= chars@);
        assert(segment_views(lines@) =~= done.push(last));
    }
    lines
}

/// Copies the scalar values `line[start..end]` into a string.
pub fn row_text(line: &Vec<char>, start: usize, end: usize) -> (text: String)
    requires
        start <= end <= line.len(),
    ensures
        text@ == line@.subrange(start as int, end as int),
{
    let mut text = String::new();
    let mut j: usize = start;
    while j < end
        invariant
            start <= j <= end <= line.len(),
            text@ == line@.subrange(start as int, j as int),
        decreases end - j,
    {
        push_char(&mut text, line[j]);
        assert(line@.subrange(start as int, j as int).push(line@[j as int]) =~= line@.subrange(
            start as int,
            j + 1,
        ));
        j += 1;
    }
    text
}

/// Wraps `text` into visual lines of at most `width` scalar values each.
/// Explicit line breaks always start a new visual line; within a segment the
/// rows are filled greedily, and an empty segment gives one empty row.
pub fn wrap(text: &str, width: usize) -> (rows: Vec<WrappedLine>)
    requires
        width > 0,
    ensures
        line_views(rows@) == wrap_text(text@, width as nat),
        rows.len() == row_count(text@, width as nat),
        rows.len() >= 1,
{
    let chars = scalars(text);
    let lines = split_lines(&chars);
    let ghost ls = lines_of(text@);
    let ghost w = width as nat;
    let mut rows: Vec<WrappedLine> = Vec::new();
    let mut li: usize = 0;
    assert(line_views(rows@) =~= wrap_lines(ls, w, 0));
    while li < lines.len()
        invariant
            width > 0,
            w == width,
            li <= lines.len(),
            ls == segment_views(lines@),
            line_views(rows@) == wrap_lines(ls, w, li as nat),
        decreases lines.len() - li,
    {
        let line = &lines[li];
        let len = line.len();
        let ghost done = line_views(rows@);
        let ghost all = tagged(chunks(line@, w), li as nat);
        let ghost k: int = 0;
        let mut start: usize = 0;
        proof {
            lemma_rows_positive(line@.len(), w);
            assert(0 * w == 0) by (nonlinear_arith);
            assert(done + all.take(0) =~= done);
        }
        loop
            invariant_except_break
                start <= len,
                0 <= k < rows_for(line@.len(), w),
                start == k * w,
                line_views(rows@) == done + all.take(k),
            invariant
                width > 0,
                w == width,
                len == line@.len(),
                all == tagged(chunks(line@, w), li as nat),
                all.len() == rows_for(line@.len(), w),
            ensures
                line_views(rows@) == done + all,
            decreases len - start,
        {
            let end = if len - start <= width {
                len
            } else {
                start + width
            };
            proof {
                lemma_rows_bounds(line@.len(), w, k);
                assert((k + 1) * w == k * w + w) by (nonlinear_arith);
            }
            let text = row_text(line, start, end);
            let ghost before = line_views(rows@);
            rows.push(WrappedLine { source_line: li, text });
            proof {
                assert(text@ == row_of(line@, w, k));
                assert(line_views(rows@) =~= before.push(all[k]));
                assert(all.take(k).push(all[k]) =~= all.take(k + 1));
                assert(line_views(rows@) =~= done + all.take(k + 1));
                k = k + 1;
            }
            start = end;
            if start >= len {
                proof {
                    assert(all.take(k) =~= all);
                }
                break;
            }
        }
        li += 1;
    }
    proof {
        lemma_wrap_widths(text@, w);
    }
    rows
}

} // verus!
