//! Text-state core of a terminal chat panel: an editable, cursor-addressable
//! input buffer and a scrollback of wrapped messages.

pub mod app;
pub mod chat;
pub mod cursor;
pub mod display;
pub mod input;
pub mod layout;
pub mod lines;
pub mod text;
pub mod utf8;
pub mod wrap;

pub use app::{ChatApp, KeyCode, KeyPress, Screen};
pub use chat::{ChatArea, ChatMessage, ChatView};
pub use input::{InputArea, InputView};
pub use layout::Rect;
pub use wrap::{wrap, WrappedLine};
