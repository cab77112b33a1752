//! The editable input buffer: text, a byte cursor that always sits on a
//! scalar-value boundary, and the scroll offset of its viewport.

use vstd::prelude::*;
use vstd::string::StringExecFns;
use vstd::utf8::{encode_utf8, is_char_boundary};
use crate::display::{
    display_index, display_row, display_rows, prompt_at, prompted, prompted_text, PROMPT_LEN,
};
use crate::lines::{
    cell_of, column, cursor_col, cursor_row, down_target, lemma_cursor_row, lemma_line_index,
    lemma_line_index_is, lemma_lines_total, lemma_targets_in_range, line_index, locate_line,
    start_of_line, up_target,
};
use crate::text::{byte_length, insert_at, lemma_char_boundary, lemma_encoded_len, remove_at};
use crate::utf8::{
    byte_len, char_width, count_of, index_at, is_boundary, lemma_boundary_index,
    lemma_byte_len_monotone, lemma_byte_len_push, lemma_byte_len_step, lemma_index_at, locate,
    offset_of, scalars, width_of,
};
use crate::wrap::{
    line_views, lines_of, row_count, rows_needed, rows_total, segment_views, split_lines, texts,
    wrap, wrap_text,
};

verus! {

/// Number of visual lines that the input viewport shows at most.
pub const MAX_DISPLAY_LINES: usize = 10;

/// What a render pass of the input panel hands to the screen.
#[derive(Debug)]
pub struct InputView {
    /// The visible rows, each with its two-column prompt.
    pub lines: Vec<String>,
    /// Index of the first visible row among the text's visual lines.
    pub offset: usize,
}

/// End of the window that starts at `offset` among `total` rows.
pub open spec fn window_end(offset: int, total: int) -> int {
    if offset + MAX_DISPLAY_LINES <= total {
        offset + MAX_DISPLAY_LINES
    } else {
        total
    }
}

/// The scroll offset after a render pass: pulled up to the cursor's row if
/// that row is above the window, pushed down so that the row is the last
/// visible one if it is below, then held within
/// `[0, max(0, total - MAX_DISPLAY_LINES)]`.
pub open spec fn follow_cursor(offset: int, row: int, total: int) -> int {
    let moved = if row < offset {
        row
    } else if row >= offset + MAX_DISPLAY_LINES {
        row - (MAX_DISPLAY_LINES - 1)
    } else {
        offset
    };
    let max = if total > MAX_DISPLAY_LINES {
        total - MAX_DISPLAY_LINES
    } else {
        0
    };
    if moved > max {
        max
    } else {
        moved
    }
}

/// Cell of the cursor inside the window of a text panel `width` columns wide
/// that shows `MAX_DISPLAY_LINES` rows from row `offset` on: the row counted
/// from the window's first, the column counted from the prompt's first.
/// There is none when the panel has no column for text or the cursor's row
/// is outside the window.
pub open spec fn projected(text: Seq<char>, k: int, offset: int, width: int) -> Option<
    (u16, u16),
> {
    if width <= 4 {
        None
    } else {
        let row = cursor_row(text, k, (width - 4) as nat);
        let col = cursor_col(text, k, (width - 4) as nat);
        if offset <= row < offset + MAX_DISPLAY_LINES {
            Some(((row - offset) as u16, (col + 2) as u16))
        } else {
            None
        }
    }
}

/// A multi-line text input with cursor navigation.
pub struct InputArea {
    buffer: String,
    cursor: usize,
    offset: usize,
}

impl InputArea {
    /// The scalar values of the text.
    pub closed spec fn text(&self) -> Seq<char> {
        self.buffer@
    }

    /// The cursor as a byte offset into the UTF-8 text.
    pub closed spec fn cursor_bytes(&self) -> int {
        self.cursor as int
    }

    /// The first visual line shown by the viewport.
    pub closed spec fn scroll(&self) -> int {
        self.offset as int
    }

    /// The cursor sits on a boundary between scalar values, so it is at
    /// least 0 and at most the text's length in bytes.
    pub open spec fn wf(&self) -> bool {
        is_boundary(self.text(), self.cursor_bytes())
    }

    /// Number of scalar values before the cursor.
    pub open spec fn position(&self) -> int {
        index_at(self.text(), self.cursor_bytes())
    }

    /// `post` has the text and scroll offset of `pre`, and its cursor before
    /// scalar index `k`.
    pub open spec fn moved_to(pre: &InputArea, post: &InputArea, k: int) -> bool {
        &&& post.wf()
        &&& post.text() == pre.text()
        &&& post.scroll() == pre.scroll()
        &&& post.position() == k
        &&& post.cursor_bytes() == byte_len(pre.text().take(k))
    }

    /// `post` is `pre` after `ch` was inserted before the cursor.
    pub open spec fn inserted(pre: &InputArea, post: &InputArea, ch: char) -> bool {
        &&& post.wf()
        &&& post.text() == pre.text().insert(pre.position(), ch)
        &&& post.position() == pre.position() + 1
        &&& post.cursor_bytes() == pre.cursor_bytes() + char_width(ch)
        &&& post.scroll() == pre.scroll()
    }

    /// `post` is `pre` after the whole of `block` was inserted before the
    /// cursor, which then stands behind it.
    pub open spec fn pasted(pre: &InputArea, post: &InputArea, block: Seq<char>) -> bool {
        &&& post.wf()
        &&& post.text() == pre.text().take(pre.position()) + block + pre.text().skip(
            pre.position(),
        )
        &&& post.position() == pre.position() + block.len()
        &&& post.cursor_bytes() == pre.cursor_bytes() + byte_len(block)
        &&& post.scroll() == pre.scroll()
    }

    /// `post` is `pre` after the scalar value before the cursor was removed;
    /// with the cursor at the start, nothing changes.
    pub open spec fn erased(pre: &InputArea, post: &InputArea) -> bool {
        &&& post.wf()
        &&& post.scroll() == pre.scroll()
        &&& pre.position() == 0 ==> {
            &&& post.text() == pre.text()
            &&& post.cursor_bytes() == pre.cursor_bytes()
            &&& post.position() == 0
        }
        &&& pre.position() > 0 ==> {
            &&& post.text() == pre.text().remove(pre.position() - 1)
            &&& post.position() == pre.position() - 1
            &&& post.cursor_bytes() == pre.cursor_bytes() - char_width(
                pre.text()[pre.position() - 1],
            )
        }
    }

    /// `post` and `view` are what a render pass at `width` columns makes of
    /// `pre`: text and cursor stay; with room for text, the scroll offset
    /// follows the cursor's row, which is then inside the window, no window
    /// reaches past the last row unless it starts at the first, and the view
    /// holds the displayed rows of the window.
    pub open spec fn rendered(
        pre: &InputArea,
        post: &InputArea,
        view: &InputView,
        width: int,
    ) -> bool {
        &&& post.wf()
        &&& post.text() == pre.text()
        &&& post.cursor_bytes() == pre.cursor_bytes()
        &&& post.position() == pre.position()
        &&& view.offset == post.scroll()
        &&& width <= 4 ==> post.scroll() == pre.scroll() && view.lines@.len() == 0
        &&& width > 4 ==> ({
            let w = (width - 4) as nat;
            let ws = wrap_text(pre.text(), w);
            let row = cursor_row(pre.text(), pre.position(), w);
            &&& post.scroll() == follow_cursor(pre.scroll(), row, ws.len() as int)
            &&& post.scroll() <= row < post.scroll() + MAX_DISPLAY_LINES
            &&& post.scroll() + MAX_DISPLAY_LINES <= ws.len() || post.scroll() == 0
            &&& texts(view.lines@) == display_rows(
                ws,
                post.scroll(),
                window_end(post.scroll(), ws.len() as int),
            )
        })
    }

    /// `post` is an empty buffer with cursor and scroll offset at 0.
    pub open spec fn cleared(post: &InputArea) -> bool {
        &&& post.wf()
        &&& post.text() == Seq::<char>::empty()
        &&& post.cursor_bytes() == 0
        &&& post.position() == 0
        &&& post.scroll() == 0
    }

    /// A well-formed buffer has its cursor in range: it is at most the
    /// length of the encoded text, it is the encoded length of the text
    /// before it, and it is a character boundary of the encoded text.
    pub proof fn lemma_cursor_in_range(&self)
        requires
            self.wf(),
        ensures
            0 <= self.position() <= self.text().len(),
            0 <= self.cursor_bytes() <= byte_len(self.text()),
            self.cursor_bytes() == byte_len(self.text().take(self.position())),
            byte_len(self.text()) == encode_utf8(self.text()).len(),
            is_char_boundary(encode_utf8(self.text()), self.cursor_bytes()),
    {
        lemma_boundary_index(self.text(), self.cursor_bytes());
        lemma_encoded_len(self.text());
        lemma_char_boundary(self.text(), self.position());
    }

    /// An empty buffer with the cursor at the start.
    pub fn new() -> (area: InputArea)
        ensures
            InputArea::cleared(&area),
    {
        let area = InputArea { buffer: String::new(), cursor: 0, offset: 0 };
        proof {
            assert(area.buffer@.take(0) =~= area.buffer@);
            lemma_index_at(area.buffer@, 0);
        }
        area
    }

    /// The text as a string.
    pub fn content(&self) -> (s: String)
        ensures
            s@ == self.text(),
    {
        self.buffer.clone()
    }

    /// The cursor's byte offset.
    pub fn cursor(&self) -> (at: usize)
        ensures
            at == self.cursor_bytes(),
    {
        self.cursor
    }

    /// Inserts `ch` before the cursor and moves the cursor past it.
    pub fn insert_char(&mut self, ch: char)
        requires
            old(self).wf(),
        ensures
            InputArea::inserted(old(self), final(self), ch),
    {
        let ghost before = self.buffer@;
        let ghost k = index_at(before, self.cursor as int);
        proof {
            lemma_boundary_index(before, self.cursor as int);
        }
        let len = byte_length(self.buffer.as_str());
        if self.cursor > len {
            self.cursor = len;
        }
        insert_at(&mut self.buffer, self.cursor, ch);
        let w = width_of(ch);
        proof {
            let after = self.buffer@;
            assert(after.take(k + 1) =~= before.take(k).push(ch));
            lemma_byte_len_push(before.take(k), ch);
            lemma_index_at(after, k + 1);
            lemma_byte_len_monotone(after, k + 1, after.len() as int);
            assert(after.take(after.len() as int) =~= after);
        }
        self.cursor = match self.cursor.checked_add(w) {
            Some(next) => next,
            None => byte_length(self.buffer.as_str()),
        };
    }

    /// Inserts a block of text before the cursor, line breaks included, and
    /// moves the cursor past it.
    pub fn insert_str(&mut self, block: &str)
        requires
            old(self).wf(),
        ensures
            InputArea::pasted(old(self), final(self), block@),
    {
        let chars = scalars(block);
        let ghost before = self.buffer@;
        let ghost k = self.position();
        let ghost start = self.cursor as int;
        let mut i: usize = 0;
        proof {
            self.lemma_cursor_in_range();
            assert(chars@.take(0) =~= Seq::<char>::empty());
            assert(before.take(k) + chars@.take(0) + before.skip(k) =~= before);
        }
        while i < chars.len()
            invariant
                i <= chars.len(),
                0 <= k <= before.len(),
                self.wf(),
                self.offset == old(self).offset,
                self.text() == before.take(k) + chars@.take(i as int) + before.skip(k),
                self.position() == k + i,
                self.cursor_bytes() == start + byte_len(chars@.take(i as int)),
            decreases chars.len() - i,
        {
            let ghost current = self.buffer@;
            self.insert_char(chars[i]);
            proof {
                lemma_byte_len_step(chars@, i as int);
                assert(chars@.take(i + 1) =~= chars@.take(i as int).push(chars@[i as int]));
                assert(current.insert(k + i, chars@[i as int]) =~= before.take(k) + chars@.take(
                    i + 1,
                ) + before.skip(k));
            }
            i = i + 1;
        }
        proof {
            assert(chars@.take(chars.len() as int) =~= chars@);
        }
    }

    /// Removes the scalar value before the cursor, if there is one, and moves
    /// the cursor back over it.
    pub fn backspace(&mut self)
        requires
            old(self).wf(),
        ensures
            InputArea::erased(old(self), final(self)),
    {
        let ghost before = self.buffer@;
        let ghost k = index_at(before, self.cursor as int);
        proof {
            lemma_boundary_index(before, self.cursor as int);
            if k == 0 {
                assert(before.take(0) =~= Seq::<char>::empty());
            }
        }
        if self.cursor > 0 {
            let prev = self.boundary_before();
            proof {
                lemma_index_at(before, k - 1);
                lemma_byte_len_monotone(before, k - 1, before.len() as int);
                assert(before.take(before.len() as int) =~= before);
            }
            remove_at(&mut self.buffer, prev);
            self.cursor = prev;
            proof {
                let after = self.buffer@;
                assert(after.take(k - 1) =~= before.take(k - 1));
                lemma_index_at(after, k - 1);
            }
        }
    }

    /// Byte offset of the boundary just before the cursor, found by scanning
    /// the boundaries from the start of the text.
    fn boundary_before(&self) -> (prev: usize)
        requires
            self.wf(),
            self.cursor_bytes() > 0,
        ensures
            self.position() > 0,
            prev == byte_len(self.text().take(self.position() - 1)),
            prev == self.cursor_bytes() - char_width(self.text()[self.position() - 1]),
    {
        let chars = scalars(self.buffer.as_str());
        let k = locate(&chars, self.cursor);
        proof {
            if k == 0 {
                assert(chars@.take(0) =~= Seq::<char>::empty());
            }
            lemma_byte_len_step(chars@, k - 1);
        }
        self.cursor - width_of(chars[k - 1])
    }

    /// Moves the cursor one scalar value to the left; at the start of the
    /// text it stays.
    pub fn cursor_left(&mut self)
        requires
            old(self).wf(),
        ensures
            InputArea::moved_to(
                old(self),
                final(self),
                if old(self).position() > 0 {
                    old(self).position() - 1
                } else {
                    0
                },
            ),
    {
        let ghost k = self.position();
        proof {
            lemma_boundary_index(self.buffer@, self.cursor as int);
            if k == 0 {
                assert(self.buffer@.take(0) =~= Seq::<char>::empty());
            }
        }
        if self.cursor > 0 {
            let prev = self.boundary_before();
            self.cursor = prev;
            proof {
                lemma_index_at(self.buffer@, k - 1);
            }
        }
    }

    /// Moves the cursor one scalar value to the right; at the end of the
    /// text it stays.
    pub fn cursor_right(&mut self)
        requires
            old(self).wf(),
        ensures
            InputArea::moved_to(
                old(self),
                final(self),
                if old(self).position() < old(self).text().len() {
                    old(self).position() + 1
                } else {
                    old(self).position()
                },
            ),
    {
        let ghost k = self.position();
        let len = byte_length(self.buffer.as_str());
        proof {
            lemma_boundary_index(self.buffer@, self.cursor as int);
            assert(self.buffer@.take(self.buffer@.len() as int) =~= self.buffer@);
            if k < self.buffer@.len() {
                lemma_byte_len_monotone(self.buffer@, k, self.buffer@.len() as int);
            }
        }
        if self.cursor < len {
            let chars = scalars(self.buffer.as_str());
            let at = locate(&chars, self.cursor);
            proof {
                lemma_byte_len_step(chars@, k);
                lemma_byte_len_monotone(chars@, k + 1, chars@.len() as int);
                lemma_index_at(chars@, k + 1);
            }
            self.cursor = self.cursor + width_of(chars[at]);
        }
    }

    /// The explicit line that the cursor is on and its column there, both
    /// counted in scalar values from 0.
    pub fn find_current_line_col(&self) -> (at: (usize, usize))
        requires
            self.wf(),
        ensures
            at.0 == line_index(self.text(), self.position()),
            at.1 == column(self.text(), self.position()),
    {
        let chars = scalars(self.buffer.as_str());
        let k = locate(&chars, self.cursor);
        let lines = split_lines(&chars);
        proof {
            lemma_line_index(chars@, k as int);
        }
        let at = locate_line(&lines, k);
        proof {
            lemma_line_index_is(chars@, k as int, at.0 as int);
        }
        at
    }

    /// Moves the cursor to the same column of the explicit line above, or to
    /// that line's end if it is shorter; on the first line it stays.
    pub fn cursor_up(&mut self)
        requires
            old(self).wf(),
        ensures
            InputArea::moved_to(
                old(self),
                final(self),
                up_target(old(self).text(), old(self).position()),
            ),
    {
        let chars = scalars(self.buffer.as_str());
        let total = byte_length(self.buffer.as_str());
        let k = locate(&chars, self.cursor);
        let lines = split_lines(&chars);
        proof {
            lemma_line_index(chars@, k as int);
            lemma_lines_total(chars@);
            lemma_targets_in_range(chars@, k as int);
        }
        let (line, col) = locate_line(&lines, k);
        proof {
            lemma_line_index_is(chars@, k as int, line as int);
        }
        if line > 0 {
            let above = lines[line - 1].len();
            let new_col = if col <= above {
                col
            } else {
                above
            };
            let start = start_of_line(&lines, line - 1);
            let target = start + new_col;
            self.cursor = offset_of(&chars, target);
            proof {
                lemma_index_at(chars@, target as int);
            }
        }
    }

    /// Moves the cursor to the same column of the explicit line below, or to
    /// that line's end if it is shorter; on the last line it stays.
    pub fn cursor_down(&mut self)
        requires
            old(self).wf(),
        ensures
            InputArea::moved_to(
                old(self),
                final(self),
                down_target(old(self).text(), old(self).position()),
            ),
    {
        let chars = scalars(self.buffer.as_str());
        let total = byte_length(self.buffer.as_str());
        let k = locate(&chars, self.cursor);
        let lines = split_lines(&chars);
        proof {
            lemma_line_index(chars@, k as int);
            lemma_lines_total(chars@);
            lemma_targets_in_range(chars@, k as int);
        }
        let (line, col) = locate_line(&lines, k);
        proof {
            lemma_line_index_is(chars@, k as int, line as int);
        }
        if line < lines.len() - 1 {
            let below = lines[line + 1].len();
            let new_col = if col <= below {
                col
            } else {
                below
            };
            let start = start_of_line(&lines, line + 1);
            let target = start + new_col;
            self.cursor = offset_of(&chars, target);
            proof {
                lemma_index_at(chars@, target as int);
            }
        }
    }

    /// The text with the prompt before each explicit line, as a host shows
    /// it that wraps by itself.
    pub fn display_text(&self) -> (shown: String)
        ensures
            shown@ == prompted(self.text()),
    {
        prompted_text(self.buffer.as_str())
    }

    /// Byte offset of the cursor in the text of `display_text`: the cursor's
    /// own offset, and one prompt for the first line and for each line break
    /// before the cursor.
    pub fn calculate_display_index(&self) -> (at: usize)
        requires
            self.wf(),
            display_index(self.text(), self.position()) <= usize::MAX,
        ensures
            at == display_index(self.text(), self.position()),
    {
        let chars = scalars(self.buffer.as_str());
        let k = locate(&chars, self.cursor);
        proof {
            lemma_boundary_index(self.buffer@, self.cursor as int);
        }
        let mut count_nl: usize = 0;
        let mut i: usize = 0;
        proof {
            assert(chars@.take(0) =~= Seq::<char>::empty());
        }
        while i < k
            invariant
                i <= k <= chars.len(),
                count_nl == count_of(chars@.take(i as int), '\n'),
                count_nl <= i,
            decreases k - i,
        {
            proof {
                assert(chars@.take(i + 1).drop_last() =~= chars@.take(i as int));
            }
            if chars[i] == '\n' {
                count_nl = count_nl + 1;
            }
            i = i + 1;
        }
        PROMPT_LEN + self.cursor + count_nl * PROMPT_LEN
    }

    /// Visual row and column of the cursor when the text is wrapped at
    /// `width` columns.
    pub fn cursor_cell(&self, width: usize) -> (cell: (usize, usize))
        requires
            self.wf(),
            width > 0,
        ensures
            cell.0 == cursor_row(self.text(), self.position(), width as nat),
            cell.1 == cursor_col(self.text(), self.position(), width as nat),
            cell.0 < row_count(self.text(), width as nat),
            cell.1 <= width,
    {
        let chars = scalars(self.buffer.as_str());
        let k = locate(&chars, self.cursor);
        let lines = split_lines(&chars);
        proof {
            lemma_line_index(chars@, k as int);
            lemma_cursor_row(chars@, k as int, width as nat);
        }
        let (line, col) = locate_line(&lines, k);
        proof {
            lemma_line_index_is(chars@, k as int, line as int);
        }
        cell_of(&lines, line, col, width)
    }

    /// Cell of the cursor inside the window that starts at row
    /// `scroll_offset` of a panel `width` columns wide, if it is in there.
    pub fn project(&self, scroll_offset: usize, width: u16) -> (cell: Option<(u16, u16)>)
        requires
            self.wf(),
        ensures
            cell == projected(self.text(), self.position(), scroll_offset as int, width as int),
            cell matches Some((row, col)) ==> row < MAX_DISPLAY_LINES && 2 <= col <= width - 2,
    {
        let effective_width = width.saturating_sub(4);
        if effective_width == 0 {
            return None;
        }
        let (row, col) = self.cursor_cell(effective_width as usize);
        if row < scroll_offset || row - scroll_offset >= MAX_DISPLAY_LINES {
            return None;
        }
        Some(((row - scroll_offset) as u16, (col + 2) as u16))
    }

    /// One render pass at `width` columns, of which two go to the border and
    /// two to the prompt: wraps the text, scrolls so that the cursor's row is
    /// visible, and hands out at most `MAX_DISPLAY_LINES` rows from the
    /// scroll offset on. A width that leaves no column for text shows
    /// nothing and leaves the offset alone.
    pub fn render(&mut self, width: u16) -> (view: InputView)
        requires
            old(self).wf(),
        ensures
            InputArea::rendered(old(self), final(self), &view, width as int),
    {
        let effective_width = width.saturating_sub(4);
        if effective_width == 0 {
            return InputView { lines: Vec::new(), offset: self.offset };
        }
        let w = effective_width as usize;
        let rows = wrap(self.buffer.as_str(), w);
        let total = rows.len();
        let (cursor_line, _) = self.cursor_cell(w);
        let max_offset = total.saturating_sub(MAX_DISPLAY_LINES);
        if cursor_line < self.offset {
            self.offset = cursor_line;
        } else if cursor_line - self.offset >= MAX_DISPLAY_LINES {
            self.offset = cursor_line - (MAX_DISPLAY_LINES - 1);
        }
        if self.offset > max_offset {
            self.offset = max_offset;
        }
        let end = if MAX_DISPLAY_LINES <= total - self.offset {
            self.offset + MAX_DISPLAY_LINES
        } else {
            total
        };
        let ghost ws = line_views(rows@);
        let ghost shown = display_rows(ws, self.offset as int, end as int);
        let mut lines: Vec<String> = Vec::new();
        let mut i: usize = self.offset;
        while i < end
            invariant
                self.offset <= i <= end <= rows.len(),
                ws == line_views(rows@),
                shown == display_rows(ws, self.offset as int, end as int),
                texts(lines@) == shown.take(i - self.offset),
            decreases end - i,
        {
            let first = i == 0 || rows[i - 1].source_line != rows[i].source_line;
            let mut row = if first {
                String::from_str("> ")
            } else {
                String::from_str("  ")
            };
            proof {
                reveal_strlit("> ");
                reveal_strlit("  ");
                assert(row@ =~= prompt_at(ws, i as int));
            }
            row.append(rows[i].text.as_str());
            let ghost prev = texts(lines@);
            lines.push(row);
            proof {
                assert(row@ == display_row(ws, i as int));
                assert(texts(lines@) =~= prev.push(shown[i - self.offset]));
                assert(shown.take(i - self.offset).push(shown[i - self.offset]) =~= shown.take(
                    i + 1 - self.offset,
                ));
            }
            i = i + 1;
        }
        assert(shown.take(end - self.offset) =~= shown);
        InputView { lines, offset: self.offset }
    }

    /// Inserts a line break before the cursor.
    pub fn newline(&mut self)
        requires
            old(self).wf(),
        ensures
            InputArea::inserted(old(self), final(self), '\n'),
    {
        self.insert_char('\n');
    }

    /// Hands out the text and resets the buffer: empty text, cursor and
    /// scroll offset at 0.
    pub fn submit(&mut self) -> (input: String)
        ensures
            input@ == old(self).text(),
            InputArea::cleared(final(self)),
    {
        let input = self.buffer.clone();
        self.buffer = String::new();
        self.cursor = 0;
        self.offset = 0;
        proof {
            assert(self.buffer@.take(0) =~= self.buffer@);
            lemma_index_at(self.buffer@, 0);
        }
        input
    }

    /// Scrolls the viewport up by `lines`, stopping at the first line.
    pub fn scroll_up(&mut self, lines: usize)
        ensures
            final(self).text() == old(self).text(),
            final(self).cursor_bytes() == old(self).cursor_bytes(),
            final(self).scroll() == if old(self).scroll() >= lines {
                old(self).scroll() - lines
            } else {
                0
            },
    {
        self.offset = self.offset.saturating_sub(lines);
    }

    /// Scrolls the viewport down by `lines`. The next `render` brings the
    /// offset back into the range of the text's visual lines.
    pub fn scroll_down(&mut self, lines: usize)
        ensures
            final(self).text() == old(self).text(),
            final(self).cursor_bytes() == old(self).cursor_bytes(),
            final(self).scroll() == if old(self).scroll() + lines <= usize::MAX {
                old(self).scroll() + lines
            } else {
                usize::MAX as int
            },
    {
        self.offset = self.offset.saturating_add(lines);
    }

    /// Height in rows that the input panel needs at `width` columns: the
    /// text's visual lines, at most `MAX_DISPLAY_LINES` of them, and two
    /// border rows. Two columns go to the border and two to the prompt; a
    /// width that leaves no column for text gives the borders alone.
    pub fn calculate_display_lines(&self, width: u16) -> (height: u16)
        ensures
            width <= 4 ==> height == 2,
            width > 4 ==> height == 2 + if row_count(self.text(), (width - 4) as nat)
                <= MAX_DISPLAY_LINES {
                row_count(self.text(), (width - 4) as nat)
            } else {
                MAX_DISPLAY_LINES as nat
            },
    {
        let effective_width = width.saturating_sub(4);
        if effective_width == 0 {
            return 2;
        }
        let w = effective_width as usize;
        let chars = scalars(self.buffer.as_str());
        let lines = split_lines(&chars);
        let ghost ls = lines_of(self.buffer@);
        let mut visible: usize = 0;
        let mut i: usize = 0;
        while i < lines.len()
            invariant
                i <= lines.len(),
                w > 0,
                ls == segment_views(lines@),
                visible <= MAX_DISPLAY_LINES,
                visible == if rows_total(ls, w as nat, i as nat) <= MAX_DISPLAY_LINES {
                    rows_total(ls, w as nat, i as nat)
                } else {
                    MAX_DISPLAY_LINES as nat
                },
            decreases lines.len() - i,
        {
            let rows = rows_needed(lines[i].len(), w);
            if rows >= MAX_DISPLAY_LINES - visible {
                visible = MAX_DISPLAY_LINES;
            } else {
                visible = visible + rows;
            }
            i = i + 1;
        }
        (visible as u16) + 2
    }

    /// The scroll offset of the viewport.
    pub fn get_offset(&self) -> (offset: usize)
        ensures
            offset == self.scroll(),
    {
        self.offset
    }
}

/// After a render pass at a width that leaves room for text, the cursor has
/// a cell inside the window.
pub proof fn lemma_cursor_visible(pre: &InputArea, post: &InputArea, view: &InputView, width: int)
    requires
        pre.wf(),
        4 < width <= u16::MAX,
        InputArea::rendered(pre, post, view, width),
    ensures
        projected(post.text(), post.position(), post.scroll(), width) is Some,
{
}

/// Inserting a scalar value and then erasing before the cursor gives back
/// the text and the cursor, whatever the encoded length of the value.
pub proof fn lemma_insert_then_backspace(
    pre: &InputArea,
    mid: &InputArea,
    post: &InputArea,
    ch: char,
)
    requires
        pre.wf(),
        InputArea::inserted(pre, mid, ch),
        InputArea::erased(mid, post),
    ensures
        post.text() == pre.text(),
        post.cursor_bytes() == pre.cursor_bytes(),
        post.position() == pre.position(),
{
    pre.lemma_cursor_in_range();
    assert(pre.text().insert(pre.position(), ch).remove(pre.position()) =~= pre.text());
}

} // verus!
