use tui_chat::{ChatArea, ChatMessage};

fn message(sender: &str, content: &str) -> ChatMessage {
    ChatMessage { sender: sender.to_string(), content: content.to_string() }
}

fn check_invariant(chat: &ChatArea) {
    assert!(chat.offset() <= chat.max_offset());
    if chat.is_following() {
        assert_eq!(chat.offset(), chat.max_offset());
    }
}

#[test]
fn new_scrollback_follows_the_bottom() {
    let chat = ChatArea::new();
    assert_eq!(chat.len(), 0);
    assert_eq!(chat.line_count(), 0);
    assert_eq!(chat.offset(), 0);
    assert_eq!(chat.max_offset(), 0);
    assert!(chat.is_following());
}

#[test]
fn append_before_first_render_keeps_messages() {
    let mut chat = ChatArea::new();
    chat.add_message(message("a", "one"));
    chat.add_message(message("b", "two"));
    assert_eq!(chat.len(), 2);
    assert_eq!(chat.line_count(), 0);
    let view = chat.render(20, 5);
    assert_eq!(view.lines, vec!["a: one", "b: two"]);
    assert_eq!(chat.line_count(), 2);
}

#[test]
fn render_wraps_sender_and_content() {
    let mut chat = ChatArea::new();
    chat.add_message(message("User", "hello world"));
    let view = chat.render(10, 5);
    assert_eq!(view.lines, vec!["User: hell", "o world"]);
    assert_eq!(view.position, 0);
    assert_eq!(view.content_length, 0);
}

#[test]
fn render_keeps_embedded_line_breaks() {
    let mut chat = ChatArea::new();
    chat.add_message(message("AI", "one\n\nthree"));
    let view = chat.render(40, 5);
    assert_eq!(view.lines, vec!["AI: one", "", "three"]);
}

#[test]
fn render_shows_the_bottom_while_following() {
    let mut chat = ChatArea::new();
    for i in 0..6 {
        chat.add_message(message("n", &i.to_string()));
    }
    let view = chat.render(20, 4);
    assert_eq!(view.lines, vec!["n: 2", "n: 3", "n: 4", "n: 5"]);
    assert_eq!(view.position, 2);
    assert_eq!(view.content_length, 2);
    assert_eq!(chat.offset(), 2);
    assert_eq!(chat.max_offset(), 2);
}

#[test]
fn render_at_width_zero_shows_nothing_and_keeps_state() {
    let mut chat = ChatArea::new();
    chat.render(20, 2);
    for i in 0..5 {
        chat.add_message(message("n", &i.to_string()));
    }
    chat.scroll_up(1);
    let view = chat.render(0, 9);
    assert!(view.lines.is_empty());
    assert_eq!(view.position, 2);
    assert_eq!(view.content_length, 3);
    assert_eq!(chat.offset(), 2);
    assert_eq!(chat.line_count(), 5);
    assert_eq!(chat.max_offset(), 3);
}

#[test]
fn render_with_a_larger_window_clamps_the_offset() {
    let mut chat = ChatArea::new();
    chat.render(20, 2);
    for i in 0..6 {
        chat.add_message(message("n", &i.to_string()));
    }
    chat.scroll_up(1);
    assert_eq!(chat.offset(), 3);
    let view = chat.render(20, 5);
    assert_eq!(view.position, 1);
    assert_eq!(view.content_length, 1);
    assert_eq!(view.lines, vec!["n: 1", "n: 2", "n: 3", "n: 4", "n: 5"]);
    assert!(!chat.is_following());
}

#[test]
fn render_rewraps_at_a_new_width() {
    let mut chat = ChatArea::new();
    chat.add_message(message("n", "abcdefgh"));
    chat.render(20, 3);
    assert_eq!(chat.line_count(), 1);
    let view = chat.render(4, 2);
    assert_eq!(chat.line_count(), 3);
    assert_eq!(view.lines, vec!["bcde", "fgh"]);
    assert_eq!(view.position, 1);
}

#[test]
fn scroll_offset_stays_in_range() {
    let mut chat = ChatArea::new();
    chat.render(20, 3);
    check_invariant(&chat);
    for i in 0..10 {
        chat.add_message(message("n", &i.to_string()));
        check_invariant(&chat);
    }
    for delta in [1usize, 3, 100, usize::MAX] {
        chat.scroll_up(delta);
        check_invariant(&chat);
        chat.add_message(message("n", "more"));
        check_invariant(&chat);
        chat.scroll_down(delta);
        check_invariant(&chat);
        chat.scroll_down(delta);
        check_invariant(&chat);
        chat.scroll_up(delta);
        check_invariant(&chat);
    }
    chat.scroll_up(usize::MAX);
    assert_eq!(chat.offset(), 0);
    chat.scroll_down(usize::MAX);
    assert_eq!(chat.offset(), chat.max_offset());
}

#[test]
fn scroll_up_stops_following() {
    let mut chat = ChatArea::new();
    chat.render(20, 2);
    for i in 0..5 {
        chat.add_message(message("n", &i.to_string()));
    }
    assert_eq!(chat.offset(), 3);
    chat.scroll_up(2);
    assert_eq!(chat.offset(), 1);
    assert!(!chat.is_following());
    chat.scroll_up(0);
    assert!(!chat.is_following());
}

#[test]
fn scroll_down_follows_again_only_at_the_bottom() {
    let mut chat = ChatArea::new();
    chat.render(20, 2);
    for i in 0..5 {
        chat.add_message(message("n", &i.to_string()));
    }
    chat.scroll_up(3);
    assert_eq!(chat.offset(), 0);
    chat.scroll_down(1);
    assert_eq!(chat.offset(), 1);
    assert!(!chat.is_following());
    chat.scroll_down(2);
    assert_eq!(chat.offset(), 3);
    assert!(chat.is_following());
}

#[test]
fn append_at_the_bottom_keeps_following() {
    let mut chat = ChatArea::new();
    chat.render(20, 2);
    for i in 0..4 {
        chat.add_message(message("n", &i.to_string()));
        assert!(chat.is_following());
        assert_eq!(chat.offset(), chat.max_offset());
    }
    assert_eq!(chat.offset(), 2);
    chat.add_message(message("n", "a message of three rows, wrapped at twenty"));
    assert_eq!(chat.line_count(), 7);
    assert_eq!(chat.offset(), 5);
    assert!(chat.is_following());
}

#[test]
fn append_after_scrolling_up_does_not_move_the_view() {
    let mut chat = ChatArea::new();
    chat.render(20, 2);
    for i in 0..4 {
        chat.add_message(message("n", &i.to_string()));
    }
    chat.scroll_up(1);
    assert_eq!(chat.offset(), 1);
    chat.add_message(message("n", "new"));
    assert_eq!(chat.offset(), 1);
    assert_eq!(chat.max_offset(), 3);
    assert!(!chat.is_following());
}

#[test]
fn three_entries_scroll_up_fourth_entry_scroll_down() {
    let mut chat = ChatArea::new();
    chat.render(20, 3);
    chat.add_message(message("User", "one"));
    chat.add_message(message("AI", "two"));
    chat.add_message(message("User", "three"));
    chat.scroll_up(1);
    chat.add_message(message("AI", "four"));
    assert!(!chat.is_following());
    assert_eq!(chat.max_offset(), 1);
    assert_ne!(chat.offset(), chat.max_offset());
    chat.scroll_down(1);
    assert_eq!(chat.offset(), chat.max_offset());
    assert!(chat.is_following());
    let view = chat.render(20, 3);
    assert_eq!(view.lines, vec!["AI: two", "User: three", "AI: four"]);
    assert_eq!(view.position, 1);
    assert_eq!(view.content_length, 1);
}
