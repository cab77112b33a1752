//! The scrollback: an ordered list of messages, wrapped against the current
//! width, seen through a window that follows the newest line until the user
//! scrolls away from it.

use vstd::prelude::*;
use vstd::string::StringExecFns;
use crate::wrap::{line_views, texts, wrap, wrap_text, VisualLine};

verus! {

/// A single chat message.
#[derive(Clone, Debug)]
pub struct ChatMessage {
    /// The sender of the message (e.g., "User", "AI")
    pub sender: String,
    /// The content of the message
    pub content: String,
}

/// What a render pass of the scrollback hands to the screen.
#[derive(Debug)]
pub struct ChatView {
    /// The visible lines, oldest first.
    pub lines: Vec<String>,
    /// Position of the scrollbar: the index of the first visible line.
    pub position: usize,
    /// Length of the scrollbar's track: the largest scroll offset.
    pub content_length: usize,
}

/// The text shown for a message: sender, a colon and a space, content.
pub open spec fn entry_text(m: ChatMessage) -> Seq<char> {
    m.sender@ + ": "@ + m.content@
}

/// The texts of a sequence of visual lines.
pub open spec fn visual_texts(ws: Seq<VisualLine>) -> Seq<Seq<char>> {
    Seq::new(ws.len(), |i: int| ws[i].text)
}

/// The rows that one message takes at `width` columns.
pub open spec fn entry_rows(m: ChatMessage, width: nat) -> Seq<Seq<char>> {
    visual_texts(wrap_text(entry_text(m), width))
}

/// The rows of the first `n` messages, in order.
pub open spec fn flat_rows(ms: Seq<ChatMessage>, width: nat, n: nat) -> Seq<Seq<char>>
    decreases n,
{
    if n == 0 {
        Seq::<Seq<char>>::empty()
    } else {
        flat_rows(ms, width, (n - 1) as nat) + entry_rows(ms[n - 1], width)
    }
}

/// The largest scroll offset for `total` lines in a window of `capacity`.
pub open spec fn max_scroll_of(total: int, capacity: int) -> int {
    if total > capacity {
        total - capacity
    } else {
        0
    }
}

/// The part of `lines` that a window of `capacity` lines shows from `offset`.
pub open spec fn visible_window(lines: Seq<Seq<char>>, offset: int, capacity: int) -> Seq<
    Seq<char>,
> {
    let end = if offset + capacity <= lines.len() {
        offset + capacity
    } else {
        lines.len() as int
    };
    lines.subrange(offset, end)
}

/// A scrolling list of chat messages.
pub struct ChatArea {
    messages: Vec<ChatMessage>,
    rows: Vec<String>,
    width: usize,
    capacity: usize,
    offset: usize,
    auto_scroll: bool,
}

/// Rows of earlier messages do not change when a message is appended.
proof fn lemma_flat_rows_push(ms: Seq<ChatMessage>, m: ChatMessage, width: nat, n: nat)
    requires
        n <= ms.len(),
    ensures
        flat_rows(ms.push(m), width, n) == flat_rows(ms, width, n),
    decreases n,
{
    if n > 0 {
        lemma_flat_rows_push(ms, m, width, (n - 1) as nat);
    }
}

impl ChatArea {
    /// The messages, in the order in which they were appended.
    pub closed spec fn entries(&self) -> Seq<ChatMessage> {
        self.messages@
    }

    /// The wrapped lines of all messages at the current width.
    pub closed spec fn lines(&self) -> Seq<Seq<char>> {
        texts(self.rows@)
    }

    /// The width that the messages were last wrapped at; 0 before the first
    /// render.
    pub closed spec fn wrap_width(&self) -> nat {
        self.width as nat
    }

    /// The number of lines that the window shows.
    pub closed spec fn visible_capacity(&self) -> nat {
        self.capacity as nat
    }

    /// Index of the first visible line.
    pub closed spec fn scroll_offset(&self) -> int {
        self.offset as int
    }

    /// True while the window follows the newest line.
    pub closed spec fn auto_follow(&self) -> bool {
        self.auto_scroll
    }

    /// The largest scroll offset: the number of lines beyond one window.
    pub open spec fn max_scroll(&self) -> int {
        max_scroll_of(self.lines().len() as int, self.visible_capacity() as int)
    }

    /// The lines are the messages wrapped at the current width, the offset
    /// lies in `[0, max_scroll]`, and a following window is at the bottom.
    pub open spec fn wf(&self) -> bool {
        &&& self.wrap_width() > 0 ==> self.lines() == flat_rows(
            self.entries(),
            self.wrap_width(),
            self.entries().len(),
        )
        &&& self.wrap_width() == 0 ==> self.lines().len() == 0
        &&& 0 <= self.scroll_offset() <= self.max_scroll()
        &&& self.auto_follow() ==> self.scroll_offset() == self.max_scroll()
    }

    /// `post` is `pre` after `msg` was appended: a following window moves
    /// to the new bottom, another one stays where it is.
    pub open spec fn appended(pre: &ChatArea, post: &ChatArea, msg: ChatMessage) -> bool {
        &&& post.entries() == pre.entries().push(msg)
        &&& post.wrap_width() == pre.wrap_width()
        &&& post.visible_capacity() == pre.visible_capacity()
        &&& post.lines() == if pre.wrap_width() > 0 {
            pre.lines() + entry_rows(msg, pre.wrap_width())
        } else {
            pre.lines()
        }
        &&& post.auto_follow() == pre.auto_follow()
        &&& post.scroll_offset() == if pre.auto_follow() {
            post.max_scroll()
        } else {
            pre.scroll_offset()
        }
    }

    /// `post` is `pre` after scrolling up by `n` lines.
    pub open spec fn scrolled_up(pre: &ChatArea, post: &ChatArea, n: int) -> bool {
        &&& post.entries() == pre.entries()
        &&& post.lines() == pre.lines()
        &&& post.wrap_width() == pre.wrap_width()
        &&& post.visible_capacity() == pre.visible_capacity()
        &&& !post.auto_follow()
        &&& post.scroll_offset() == if pre.scroll_offset() >= n {
            pre.scroll_offset() - n
        } else {
            0
        }
    }

    /// `post` is `pre` after scrolling down by `n` lines.
    pub open spec fn scrolled_down(pre: &ChatArea, post: &ChatArea, n: int) -> bool {
        &&& post.entries() == pre.entries()
        &&& post.lines() == pre.lines()
        &&& post.wrap_width() == pre.wrap_width()
        &&& post.visible_capacity() == pre.visible_capacity()
        &&& post.auto_follow() == (post.scroll_offset() == pre.max_scroll())
        &&& post.scroll_offset() == if pre.scroll_offset() + n <= pre.max_scroll() {
            pre.scroll_offset() + n
        } else {
            pre.max_scroll()
        }
    }

    /// `post` is `pre` after a render pass at `width` columns and
    /// `capacity` lines: the messages are wrapped anew, the offset is brought
    /// back into range, and a following window is put at the bottom. A width
    /// of 0 changes nothing.
    pub open spec fn rendered(pre: &ChatArea, post: &ChatArea, width: nat, capacity: nat) -> bool {
        &&& post.entries() == pre.entries()
        &&& post.auto_follow() == pre.auto_follow()
        &&& width == 0 ==> {
            &&& post.lines() == pre.lines()
            &&& post.wrap_width() == pre.wrap_width()
            &&& post.visible_capacity() == pre.visible_capacity()
            &&& post.scroll_offset() == pre.scroll_offset()
        }
        &&& width > 0 ==> {
            &&& post.lines() == flat_rows(pre.entries(), width, pre.entries().len())
            &&& post.wrap_width() == width
            &&& post.visible_capacity() == capacity
            &&& post.scroll_offset() == if pre.auto_follow() || pre.scroll_offset()
                > post.max_scroll() {
                post.max_scroll()
            } else {
                pre.scroll_offset()
            }
        }
    }

    /// `view` is what a render pass at `width` columns and `capacity` lines
    /// hands out in state `post`: the lines of the window, none at width 0,
    /// and the scrollbar's position and length.
    pub open spec fn shown(post: &ChatArea, view: &ChatView, width: nat, capacity: nat) -> bool {
        &&& view.position == post.scroll_offset()
        &&& view.content_length == post.max_scroll()
        &&& texts(view.lines@) == if width == 0 {
            Seq::<Seq<char>>::empty()
        } else {
            visible_window(post.lines(), post.scroll_offset(), capacity as int)
        }
    }

    /// An empty scrollback that follows the bottom.
    pub fn new() -> (area: ChatArea)
        ensures
            area.wf(),
            area.entries().len() == 0,
            area.lines().len() == 0,
            area.wrap_width() == 0,
            area.visible_capacity() == 0,
            area.scroll_offset() == 0,
            area.auto_follow(),
    {
        ChatArea {
            messages: Vec::new(),
            rows: Vec::new(),
            width: 0,
            capacity: 0,
            offset: 0,
            auto_scroll: true,
        }
    }

    /// Index of the first visible line.
    pub fn offset(&self) -> (offset: usize)
        ensures
            offset == self.scroll_offset(),
    {
        self.offset
    }

    /// True while the window follows the newest line.
    pub fn is_following(&self) -> (following: bool)
        ensures
            following == self.auto_follow(),
    {
        self.auto_scroll
    }

    /// Number of messages.
    pub fn len(&self) -> (n: usize)
        ensures
            n == self.entries().len(),
    {
        self.messages.len()
    }

    /// Number of wrapped lines at the current width.
    pub fn line_count(&self) -> (n: usize)
        ensures
            n == self.lines().len(),
    {
        self.rows.len()
    }

    /// The largest scroll offset.
    pub fn max_offset(&self) -> (max: usize)
        ensures
            max == self.max_scroll(),
    {
        if self.rows.len() > self.capacity {
            self.rows.len() - self.capacity
        } else {
            0
        }
    }

    /// Appends a message. A window that follows the bottom moves to the new
    /// bottom; one that was scrolled away stays where it is.
    pub fn add_message(&mut self, msg: ChatMessage)
        requires
            old(self).wf(),
        ensures
            final(self).wf(),
            ChatArea::appended(old(self), final(self), msg),
    {
        let ghost ms = self.messages@;
        let ghost w = self.width as nat;
        if self.width > 0 {
            append_rows(&mut self.rows, &msg, self.width);
        }
        self.messages.push(msg);
        proof {
            lemma_flat_rows_push(ms, msg, w, ms.len());
        }
        if self.auto_scroll {
            self.offset = self.max_offset();
        }
    }

    /// Scrolls up by `lines`, stopping at the first line, and stops
    /// following the bottom.
    pub fn scroll_up(&mut self, lines: usize)
        requires
            old(self).wf(),
        ensures
            final(self).wf(),
            ChatArea::scrolled_up(old(self), final(self), lines as int),
    {
        self.offset = self.offset.saturating_sub(lines);
        self.auto_scroll = false;
    }

    /// Scrolls down by `lines`, stopping at the bottom; the window follows
    /// the bottom again exactly when it lands there.
    pub fn scroll_down(&mut self, lines: usize)
        requires
            old(self).wf(),
        ensures
            final(self).wf(),
            ChatArea::scrolled_down(old(self), final(self), lines as int),
    {
        let max_scroll = self.max_offset();
        if lines >= max_scroll - self.offset {
            self.offset = max_scroll;
        } else {
            self.offset = self.offset + lines;
        }
        self.auto_scroll = self.offset == max_scroll;
    }
}

impl ChatArea {
    /// One render pass: wraps every message at `width` columns, brings the
    /// scroll offset back into `[0, max_scroll]` for a window of
    /// `visible_capacity` lines, puts a following window at the bottom, and
    /// hands out the visible lines with the scrollbar's position and length.
    /// At width 0 nothing can be wrapped: the state stays and no line is
    /// shown.
    pub fn render(&mut self, width: usize, visible_capacity: usize) -> (view: ChatView)
        requires
            old(self).wf(),
        ensures
            final(self).wf(),
            ChatArea::rendered(old(self), final(self), width as nat, visible_capacity as nat),
            ChatArea::shown(final(self), &view, width as nat, visible_capacity as nat),
    {
        if width == 0 {
            let view = ChatView {
                lines: Vec::new(),
                position: self.offset,
                content_length: self.max_offset(),
            };
            assert(texts(view.lines@) =~= Seq::<Seq<char>>::empty());
            return view;
        }
        let mut rows: Vec<String> = Vec::new();
        let mut i: usize = 0;
        while i < self.messages.len()
            invariant
                i <= self.messages.len(),
                width > 0,
                self.messages@ == old(self).messages@,
                self.offset == old(self).offset,
                self.auto_scroll == old(self).auto_scroll,
                texts(rows@) == flat_rows(self.messages@, width as nat, i as nat),
            decreases self.messages.len() - i,
        {
            append_rows(&mut rows, &self.messages[i], width);
            i = i + 1;
        }
        self.rows = rows;
        self.width = width;
        self.capacity = visible_capacity;
        let max_offset = self.max_offset();
        if self.auto_scroll || self.offset > max_offset {
            self.offset = max_offset;
        }
        let total = self.rows.len();
        let end = if visible_capacity <= total - self.offset {
            self.offset + visible_capacity
        } else {
            total
        };
        let ghost window = visible_window(
            texts(self.rows@),
            self.offset as int,
            visible_capacity as int,
        );
        let mut lines: Vec<String> = Vec::new();
        let mut j: usize = self.offset;
        while j < end
            invariant
                self.offset <= j <= end <= self.rows.len(),
                window == texts(self.rows@).subrange(self.offset as int, end as int),
                texts(lines@) == window.take(j - self.offset),
            decreases end - j,
        {
            let ghost prev = texts(lines@);
            lines.push(self.rows[j].clone());
            assert(texts(lines@) =~= prev.push(window[j - self.offset]));
            assert(window.take(j - self.offset).push(window[j - self.offset]) =~= window.take(
                j + 1 - self.offset,
            ));
            j = j + 1;
        }
        assert(window.take(end - self.offset) =~= window);
        ChatView { lines, position: self.offset, content_length: max_offset }
    }
}

/// After an append, a scroll up, a scroll down or a render pass, the scroll
/// offset lies in `[0, max_scroll]`, whatever the number of lines asked for.
pub proof fn lemma_offset_in_range(
    pre: &ChatArea,
    post: &ChatArea,
    msg: ChatMessage,
    n: int,
    width: nat,
    capacity: nat,
)
    requires
        pre.wf(),
        n >= 0,
        ChatArea::appended(pre, post, msg) || ChatArea::scrolled_up(pre, post, n)
            || ChatArea::scrolled_down(pre, post, n) || ChatArea::rendered(
            pre,
            post,
            width,
            capacity,
        ),
    ensures
        0 <= post.scroll_offset() <= post.max_scroll(),
{
}

/// Appending while the window follows the bottom keeps it following, at the
/// new bottom.
pub proof fn lemma_append_follows(pre: &ChatArea, post: &ChatArea, msg: ChatMessage)
    requires
        pre.wf(),
        pre.auto_follow(),
        ChatArea::appended(pre, post, msg),
    ensures
        post.auto_follow(),
        post.scroll_offset() == post.max_scroll(),
{
}

/// Scrolling up and then appending leaves the window where the scroll put
/// it, and it does not follow the bottom.
pub proof fn lemma_scroll_up_then_append(
    start: &ChatArea,
    scrolled: &ChatArea,
    post: &ChatArea,
    n: int,
    msg: ChatMessage,
)
    requires
        start.wf(),
        ChatArea::scrolled_up(start, scrolled, n),
        ChatArea::appended(scrolled, post, msg),
    ensures
        !post.auto_follow(),
        post.scroll_offset() == scrolled.scroll_offset(),
{
}

/// The text shown for a message.
pub fn entry_string(msg: &ChatMessage) -> (text: String)
    ensures
        text@ == entry_text(*msg),
{
    let mut text = msg.sender.clone();
    text.append(": ");
    text.append(msg.content.as_str());
    text
}

/// Wraps one message at `width` columns and appends its rows.
fn append_rows(rows: &mut Vec<String>, msg: &ChatMessage, width: usize)
    requires
        width > 0,
    ensures
        texts(final(rows)@) == texts(old(rows)@) + entry_rows(*msg, width as nat),
{
    let text = entry_string(msg);
    let wrapped = wrap(text.as_str(), width);
    let ghost before = texts(rows@);
    let ghost added = entry_rows(*msg, width as nat);
    let mut i: usize = 0;
    assert(before + added.take(0) =~= before);
    while i < wrapped.len()
        invariant
            i <= wrapped.len(),
            added == visual_texts(line_views(wrapped@)),
            texts(rows@) == before + added.take(i as int),
        decreases wrapped.len() - i,
    {
        let ghost prev = texts(rows@);
        rows.push(wrapped[i].text.clone());
        assert(texts(rows@) =~= prev.push(added[i as int]));
        assert(added.take(i as int).push(added[i as int]) =~= added.take(i + 1));
        i = i + 1;
    }
    assert(added.take(wrapped.len() as int) =~= added);
}

} // verus!
