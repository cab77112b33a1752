use tui_chat::utf8::{blank, is_whitespace, scalars, width_of};
use tui_chat::{ChatApp, ChatMessage, KeyCode, KeyPress, Rect};

fn press(code: KeyCode) -> KeyPress {
    KeyPress { code, shift: false, control: false, pressed: true }
}

fn type_text(app: &mut ChatApp, text: &str) {
    for ch in text.chars() {
        assert_eq!(app.on_key(press(KeyCode::Char(ch))), None);
    }
}

const SCREEN: Rect = Rect { x: 0, y: 0, width: 14, height: 12 };

#[test]
fn width_agrees_with_the_encoding() {
    for v in 0..=0x10ffffu32 {
        if let Some(c) = char::from_u32(v) {
            assert_eq!(width_of(c), c.len_utf8());
        }
    }
}

#[test]
fn white_space_agrees_with_unicode() {
    for v in 0..=0x10ffffu32 {
        if let Some(c) = char::from_u32(v) {
            assert_eq!(is_whitespace(c), c.is_whitespace());
        }
    }
}

#[test]
fn blank_text() {
    assert!(blank(""));
    assert!(blank(" \t\n\u{3000}"));
    assert!(!blank("  x "));
}

#[test]
fn scalars_of_a_string() {
    assert_eq!(scalars("a€"), vec!['a', '€']);
    assert!(scalars("").is_empty());
}

#[test]
fn end_to_end_height_and_submit() {
    let mut app = ChatApp::new();
    let screen = app.render(SCREEN);
    assert_eq!(screen.input_area.height, 3);
    type_text(&mut app, "hello world");
    let screen = app.render(SCREEN);
    assert_eq!(screen.input_area.height, 4);
    assert_eq!(screen.input.lines, vec!["> hello worl", "  d"]);
    let shift_enter = KeyPress { shift: true, ..press(KeyCode::Enter) };
    assert_eq!(app.on_key(shift_enter), None);
    type_text(&mut app, "hi");
    assert_eq!(app.on_key(press(KeyCode::Enter)), Some("hello world\nhi".to_string()));
    let screen = app.render(SCREEN);
    assert_eq!(screen.input.lines, vec!["> "]);
    assert_eq!(screen.input_area.height, 3);
    assert_eq!(screen.chat.lines, vec!["User: hello ", "world", "hi"]);
}

#[test]
fn render_splits_the_screen() {
    let mut app = ChatApp::new();
    let size = Rect { x: 2, y: 1, width: 80, height: 24 };
    let screen = app.render(size);
    assert_eq!(screen.chat_area, Rect { x: 2, y: 1, width: 80, height: 21 });
    assert_eq!(screen.input_area, Rect { x: 2, y: 22, width: 80, height: 3 });
    assert_eq!(screen.cursor, Some((5, 23)));
    assert_eq!(app.get_cursor_pos(), Some((5, 23)));
}

#[test]
fn render_places_the_cursor_after_the_text() {
    let mut app = ChatApp::new();
    assert_eq!(app.get_cursor_pos(), None);
    type_text(&mut app, "hello world");
    let screen = app.render(SCREEN);
    assert_eq!(screen.input_area, Rect { x: 0, y: 8, width: 14, height: 4 });
    assert_eq!(screen.cursor, Some((4, 10)));
    app.on_key(press(KeyCode::Left));
    app.on_key(press(KeyCode::Left));
    let screen = app.render(SCREEN);
    assert_eq!(screen.cursor, Some((12, 9)));
}

#[test]
fn render_areas_hides_a_cursor_beyond_the_last_coordinate() {
    let mut app = ChatApp::new();
    let chat = Rect { x: 0, y: 0, width: 20, height: 5 };
    let far = Rect { x: u16::MAX - 2, y: 0, width: 20, height: 3 };
    assert_eq!(app.render_areas(chat, far).cursor, None);
    let near = Rect { x: u16::MAX - 3, y: 7, width: 20, height: 3 };
    assert_eq!(app.render_areas(chat, near).cursor, Some((u16::MAX, 8)));
    let narrow = Rect { x: 0, y: 0, width: 4, height: 3 };
    assert_eq!(app.render_areas(chat, narrow).cursor, None);
}

#[test]
fn blank_input_is_not_sent() {
    let mut app = ChatApp::new();
    type_text(&mut app, "  ");
    assert_eq!(app.on_key(press(KeyCode::Enter)), None);
    let screen = app.render(SCREEN);
    assert!(screen.chat.lines.is_empty());
    assert_eq!(screen.input.lines, vec!["> "]);
}

#[test]
fn releases_are_ignored() {
    let mut app = ChatApp::new();
    let release = KeyPress { pressed: false, ..press(KeyCode::Char('x')) };
    assert_eq!(app.on_key(release), None);
    let quit = KeyPress { pressed: false, control: true, ..press(KeyCode::Esc) };
    app.on_key(quit);
    assert!(!app.should_quit());
    assert_eq!(app.render(SCREEN).input.lines, vec!["> "]);
}

#[test]
fn control_c_and_control_esc_quit() {
    let mut app = ChatApp::new();
    assert!(!app.should_quit());
    app.on_key(press(KeyCode::Esc));
    assert!(!app.should_quit());
    app.on_key(press(KeyCode::Char('c')));
    assert!(!app.should_quit());
    app.on_key(KeyPress { control: true, ..press(KeyCode::Char('c')) });
    assert!(app.should_quit());
    let mut other = ChatApp::new();
    other.on_key(KeyPress { control: true, ..press(KeyCode::Esc) });
    assert!(other.should_quit());
    assert_eq!(app.render(SCREEN).input.lines, vec!["> c"]);
}

#[test]
fn editing_keys_reach_the_buffer() {
    let mut app = ChatApp::new();
    type_text(&mut app, "ab");
    app.on_key(press(KeyCode::Left));
    app.on_key(press(KeyCode::Backspace));
    app.on_key(press(KeyCode::Right));
    type_text(&mut app, "c");
    app.on_key(KeyPress { shift: true, ..press(KeyCode::Enter) });
    type_text(&mut app, "xyz");
    app.on_key(press(KeyCode::Up));
    app.on_key(press(KeyCode::Other));
    type_text(&mut app, "!");
    app.on_key(press(KeyCode::Down));
    type_text(&mut app, "?");
    assert_eq!(app.on_key(press(KeyCode::Enter)), Some("bc!\nxyz?".to_string()));
}

#[test]
fn page_keys_scroll_the_scrollback() {
    let mut app = ChatApp::new();
    let screen = Rect { x: 0, y: 0, width: 30, height: 8 };
    app.render(screen);
    for i in 0..12 {
        app.add_message(ChatMessage { sender: "n".to_string(), content: i.to_string() });
    }
    let view = app.render(screen).chat;
    assert_eq!(view.lines, vec!["n: 9", "n: 10", "n: 11"]);
    assert_eq!((view.position, view.content_length), (9, 9));
    app.on_key(press(KeyCode::PageUp));
    let view = app.render(screen).chat;
    assert_eq!(view.lines, vec!["n: 4", "n: 5", "n: 6"]);
    assert_eq!((view.position, view.content_length), (4, 9));
    app.add_message(ChatMessage { sender: "n".to_string(), content: "new".to_string() });
    assert_eq!(app.render(screen).chat.position, 4);
    app.on_key(press(KeyCode::PageDown));
    assert_eq!(app.render(screen).chat.position, 9);
    app.on_key(press(KeyCode::PageDown));
    assert_eq!(app.render(screen).chat.position, 10);
    app.add_message(ChatMessage { sender: "n".to_string(), content: "last".to_string() });
    let view = app.render(screen).chat;
    assert_eq!(view.lines, vec!["n: 11", "n: new", "n: last"]);
}

#[test]
fn pasted_text_goes_into_the_buffer() {
    let mut app = ChatApp::new();
    type_text(&mut app, "ab");
    app.on_key(press(KeyCode::Left));
    app.on_paste("x\ny");
    assert_eq!(app.on_key(press(KeyCode::Enter)), Some("ax\nyb".to_string()));
}
