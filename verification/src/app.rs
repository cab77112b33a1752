//! The coordinator of the two panels: it turns key presses into edits and
//! scrolls, and a render pass into what the screen is to show.

use vstd::prelude::*;
use vstd::string::StringExecFns;
use crate::chat::{ChatArea, ChatMessage, ChatView};
use crate::input::{projected, InputArea, InputView};
use crate::layout::{split_rows, Rect};
use crate::lines::{down_target, up_target};
use crate::utf8::{blank, is_blank};

verus! {

/// Number of lines that `PageUp` and `PageDown` scroll the scrollback by.
pub const PAGE_LINES: usize = 5;

/// The keys that the panel reacts to.
#[derive(Clone, Copy, Debug)]
pub enum KeyCode {
    Enter,
    PageUp,
    PageDown,
    Esc,
    Char(char),
    Backspace,
    Left,
    Right,
    Up,
    Down,
    /// Any other key.
    Other,
}

/// One key event.
#[derive(Clone, Copy, Debug)]
pub struct KeyPress {
    /// The key.
    pub code: KeyCode,
    /// True when shift was held.
    pub shift: bool,
    /// True when control was held.
    pub control: bool,
    /// True for a press, false for a release or a repeat.
    pub pressed: bool,
}

/// What one render pass puts on the screen.
#[derive(Debug)]
pub struct Screen {
    /// Rectangle of the scrollback panel, border included.
    pub chat_area: Rect,
    /// Lines and scrollbar of the scrollback panel.
    pub chat: ChatView,
    /// Rectangle of the input panel, border included.
    pub input_area: Rect,
    /// Rows of the input panel.
    pub input: InputView,
    /// Absolute cell of the text cursor as column and row, or nothing when
    /// the cursor is to be hidden.
    pub cursor: Option<(u16, u16)>,
}

/// Absolute screen cell, as column and row, of a cell inside the border of
/// `area`. A cell beyond the last screen coordinate has no place.
pub open spec fn placed(area: Rect, cell: Option<(u16, u16)>) -> Option<(u16, u16)> {
    match cell {
        Some((row, col)) => if area.x + 1 + col <= u16::MAX && area.y + 1 + row <= u16::MAX {
            Some(((area.x + 1 + col) as u16, (area.y + 1 + row) as u16))
        } else {
            None
        },
        None => None,
    }
}

/// A panel's side without its two border cells.
pub open spec fn inner(side: u16) -> int {
    if side >= 2 {
        side - 2
    } else {
        0
    }
}

/// A complete chat panel: scrollback above, input below.
pub struct ChatApp {
    chat_area: ChatArea,
    input_area: InputArea,
    should_quit: bool,
    cursor_pos: Option<(u16, u16)>,
}

impl ChatApp {
    /// The scrollback.
    pub closed spec fn chat(&self) -> &ChatArea {
        &self.chat_area
    }

    /// The input buffer.
    pub closed spec fn input(&self) -> &InputArea {
        &self.input_area
    }

    /// True once quitting was asked for.
    pub closed spec fn quit(&self) -> bool {
        self.should_quit
    }

    /// The absolute cell of the text cursor after the last render pass.
    pub closed spec fn cursor(&self) -> Option<(u16, u16)> {
        self.cursor_pos
    }

    /// Both panels are well-formed.
    pub open spec fn wf(&self) -> bool {
        self.chat().wf() && self.input().wf()
    }

    /// `post` differs from `pre` in the input buffer at most.
    pub open spec fn only_input_changed(pre: &ChatApp, post: &ChatApp) -> bool {
        post.chat() == pre.chat() && post.quit() == pre.quit() && post.cursor() == pre.cursor()
    }

    /// `post` differs from `pre` in the scrollback at most.
    pub open spec fn only_chat_changed(pre: &ChatApp, post: &ChatApp) -> bool {
        post.input() == pre.input() && post.quit() == pre.quit() && post.cursor() == pre.cursor()
    }

    /// What a key event does to the panel, and what it hands to the host:
    /// the text of a message that was submitted, if one was.
    pub open spec fn keyed(
        pre: &ChatApp,
        post: &ChatApp,
        key: KeyPress,
        sent: Option<String>,
    ) -> bool {
        let same = post.chat() == pre.chat() && post.input() == pre.input() && post.quit()
            == pre.quit() && post.cursor() == pre.cursor();
        if !key.pressed {
            same && sent is None
        } else {
            match key.code {
                KeyCode::Enter => if key.shift {
                    &&& ChatApp::only_input_changed(pre, post)
                    &&& InputArea::inserted(pre.input(), post.input(), '\n')
                    &&& sent is None
                } else {
                    &&& InputArea::cleared(post.input())
                    &&& post.quit() == pre.quit()
                    &&& post.cursor() == pre.cursor()
                    &&& if is_blank(pre.input().text()) {
                        post.chat() == pre.chat() && sent is None
                    } else {
                        &&& sent matches Some(text)
                        &&& text@ == pre.input().text()
                        &&& post.chat().entries().len() == pre.chat().entries().len() + 1
                        &&& post.chat().entries().last().sender@ == "User"@
                        &&& post.chat().entries().last().content@ == pre.input().text()
                        &&& ChatArea::appended(
                            pre.chat(),
                            post.chat(),
                            post.chat().entries().last(),
                        )
                    }
                },
                KeyCode::PageUp => {
                    &&& ChatApp::only_chat_changed(pre, post)
                    &&& ChatArea::scrolled_up(pre.chat(), post.chat(), PAGE_LINES as int)
                    &&& sent is None
                },
                KeyCode::PageDown => {
                    &&& ChatApp::only_chat_changed(pre, post)
                    &&& ChatArea::scrolled_down(pre.chat(), post.chat(), PAGE_LINES as int)
                    &&& sent is None
                },
                KeyCode::Esc => {
                    &&& post.chat() == pre.chat()
                    &&& post.input() == pre.input()
                    &&& post.cursor() == pre.cursor()
                    &&& post.quit() == (pre.quit() || key.control)
                    &&& sent is None
                },
                KeyCode::Char(c) => if c == 'c' && key.control {
                    &&& post.chat() == pre.chat()
                    &&& post.input() == pre.input()
                    &&& post.cursor() == pre.cursor()
                    &&& post.quit()
                    &&& sent is None
                } else {
                    &&& ChatApp::only_input_changed(pre, post)
                    &&& InputArea::inserted(pre.input(), post.input(), c)
                    &&& sent is None
                },
                KeyCode::Backspace => {
                    &&& ChatApp::only_input_changed(pre, post)
                    &&& InputArea::erased(pre.input(), post.input())
                    &&& sent is None
                },
                KeyCode::Left => {
                    &&& ChatApp::only_input_changed(pre, post)
                    &&& InputArea::moved_to(
                        pre.input(),
                        post.input(),
                        if pre.input().position() > 0 {
                            pre.input().position() - 1
                        } else {
                            0
                        },
                    )
                    &&& sent is None
                },
                KeyCode::Right => {
                    &&& ChatApp::only_input_changed(pre, post)
                    &&& InputArea::moved_to(
                        pre.input(),
                        post.input(),
                        if pre.input().position() < pre.input().text().len() {
                            pre.input().position() + 1
                        } else {
                            pre.input().position()
                        },
                    )
                    &&& sent is None
                },
                KeyCode::Up => {
                    &&& ChatApp::only_input_changed(pre, post)
                    &&& InputArea::moved_to(
                        pre.input(),
                        post.input(),
                        up_target(pre.input().text(), pre.input().position()),
                    )
                    &&& sent is None
                },
                KeyCode::Down => {
                    &&& ChatApp::only_input_changed(pre, post)
                    &&& InputArea::moved_to(
                        pre.input(),
                        post.input(),
                        down_target(pre.input().text(), pre.input().position()),
                    )
                    &&& sent is None
                },
                KeyCode::Other => same && sent is None,
            }
        }
    }

    /// `screen` and `post` are what a render pass makes of `pre` when the
    /// scrollback panel gets `chat_area` and the input panel `input_area`.
    /// Each panel loses a border of one cell on every side; the cursor is
    /// placed where the input panel's window shows it.
    pub open spec fn rendered(
        pre: &ChatApp,
        post: &ChatApp,
        chat_area: Rect,
        input_area: Rect,
        screen: &Screen,
    ) -> bool {
        let width = inner(chat_area.width) as nat;
        let capacity = inner(chat_area.height) as nat;
        &&& post.quit() == pre.quit()
        &&& screen.chat_area == chat_area
        &&& screen.input_area == input_area
        &&& ChatArea::rendered(pre.chat(), post.chat(), width, capacity)
        &&& ChatArea::shown(post.chat(), &screen.chat, width, capacity)
        &&& InputArea::rendered(pre.input(), post.input(), &screen.input, input_area.width as int)
        &&& post.cursor() == screen.cursor
        &&& screen.cursor == placed(
            input_area,
            projected(
                post.input().text(),
                post.input().position(),
                post.input().scroll(),
                input_area.width as int,
            ),
        )
    }

    /// An empty panel: no message and no wrapped line in the scrollback,
    /// which has not been rendered yet and follows the bottom; an empty
    /// input buffer; no wish to quit; no cursor to show.
    pub fn new() -> (app: ChatApp)
        ensures
            app.wf(),
            app.chat().entries().len() == 0,
            app.chat().lines().len() == 0,
            app.chat().wrap_width() == 0,
            app.chat().visible_capacity() == 0,
            app.chat().scroll_offset() == 0,
            app.chat().auto_follow(),
            InputArea::cleared(app.input()),
            !app.quit(),
            app.cursor() is None,
    {
        ChatApp {
            chat_area: ChatArea::new(),
            input_area: InputArea::new(),
            should_quit: false,
            cursor_pos: None,
        }
    }

    /// Handles one key event. Enter submits the input: text that is not
    /// blank becomes a message of "User" in the scrollback and is handed
    /// back, so that the host can answer it. Shift and Enter breaks the line.
    /// Control with Esc or `c` asks to quit. Releases and repeats are
    /// ignored.
    pub fn on_key(&mut self, key: KeyPress) -> (sent: Option<String>)
        requires
            old(self).wf(),
        ensures
            final(self).wf(),
            ChatApp::keyed(old(self), final(self), key, sent),
    {
        if !key.pressed {
            return None;
        }
        match key.code {
            KeyCode::Enter => {
                if key.shift {
                    self.input_area.newline();
                } else {
                    let input = self.input_area.submit();
                    if !blank(input.as_str()) {
                        let content = input.clone();
                        self.chat_area.add_message(
                            ChatMessage { sender: String::from_str("User"), content },
                        );
                        return Some(input);
                    }
                }
            },
            KeyCode::PageUp => self.chat_area.scroll_up(PAGE_LINES),
            KeyCode::PageDown => self.chat_area.scroll_down(PAGE_LINES),
            KeyCode::Esc => {
                if key.control {
                    self.should_quit = true;
                }
            },
            KeyCode::Char(c) => {
                if c == 'c' && key.control {
                    self.should_quit = true;
                } else {
                    self.input_area.insert_char(c);
                }
            },
            KeyCode::Backspace => self.input_area.backspace(),
            KeyCode::Left => self.input_area.cursor_left(),
            KeyCode::Right => self.input_area.cursor_right(),
            KeyCode::Up => self.input_area.cursor_up(),
            KeyCode::Down => self.input_area.cursor_down(),
            KeyCode::Other => {},
        }
        None
    }

    /// Handles a pasted block of text: the whole block goes into the input
    /// buffer before the cursor.
    pub fn on_paste(&mut self, block: &str)
        requires
            old(self).wf(),
        ensures
            final(self).wf(),
            ChatApp::only_input_changed(old(self), final(self)),
            InputArea::pasted(old(self).input(), final(self).input(), block@),
    {
        self.input_area.insert_str(block);
    }

    /// Appends a message to the scrollback.
    pub fn add_message(&mut self, msg: ChatMessage)
        requires
            old(self).wf(),
        ensures
            final(self).wf(),
            ChatApp::only_chat_changed(old(self), final(self)),
            ChatArea::appended(old(self).chat(), final(self).chat(), msg),
    {
        self.chat_area.add_message(msg);
    }

    /// One render pass on a screen of rectangle `size`. The input panel
    /// takes the rows at the bottom that its text needs, the scrollback the
    /// rest; both are as wide as the screen.
    pub fn render(&mut self, size: Rect) -> (screen: Screen)
        requires
            old(self).wf(),
        ensures
            final(self).wf(),
            ChatApp::rendered(old(self), final(self), screen.chat_area, screen.input_area, &screen),
            screen.chat_area.x == size.x,
            screen.chat_area.width == size.width,
            screen.input_area.x == size.x,
            screen.input_area.width == size.width,
    {
        let input_height = self.input_area.calculate_display_lines(size.width);
        let (chat_area, input_area) = split_rows(size, 1, input_height);
        self.render_areas(chat_area, input_area)
    }

    /// One render pass with the panels' rectangles given.
    pub fn render_areas(&mut self, chat_area: Rect, input_area: Rect) -> (screen: Screen)
        requires
            old(self).wf(),
        ensures
            final(self).wf(),
            ChatApp::rendered(old(self), final(self), chat_area, input_area, &screen),
    {
        let visible_width = chat_area.width.saturating_sub(2) as usize;
        let visible_height = chat_area.height.saturating_sub(2) as usize;
        let chat = self.chat_area.render(visible_width, visible_height);
        let input = self.input_area.render(input_area.width);
        let cell = self.input_area.project(input.offset, input_area.width);
        self.cursor_pos = match cell {
            Some((line, col)) => {
                if col < u16::MAX - input_area.x && line < u16::MAX - input_area.y {
                    Some((input_area.x + 1 + col, input_area.y + 1 + line))
                } else {
                    None
                }
            },
            None => None,
        };
        Screen { chat_area, chat, input_area, input, cursor: self.cursor_pos }
    }

    /// True once quitting was asked for.
    pub fn should_quit(&self) -> (quit: bool)
        ensures
            quit == self.quit(),
    {
        self.should_quit
    }

    /// The absolute cell of the text cursor after the last render pass, or
    /// nothing when the cursor is to be hidden.
    pub fn get_cursor_pos(&self) -> (cell: Option<(u16, u16)>)
        ensures
            cell == self.cursor(),
    {
        self.cursor_pos
    }
}

} // verus!
