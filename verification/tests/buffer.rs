use tui_chat::InputArea;

fn typed(text: &str) -> InputArea {
    let mut area = InputArea::new();
    for ch in text.chars() {
        area.insert_char(ch);
    }
    area
}

#[test]
fn new_buffer_is_empty() {
    let area = InputArea::new();
    assert_eq!(area.content(), "");
    assert_eq!(area.cursor(), 0);
    assert_eq!(area.get_offset(), 0);
}

#[test]
fn insert_advances_cursor_by_encoded_length() {
    let mut area = InputArea::new();
    area.insert_char('a');
    assert_eq!(area.cursor(), 1);
    area.insert_char('é');
    assert_eq!(area.cursor(), 3);
    area.insert_char('€');
    assert_eq!(area.cursor(), 6);
    area.insert_char('😀');
    assert_eq!(area.cursor(), 10);
    assert_eq!(area.content(), "aé€😀");
}

#[test]
fn insert_in_the_middle() {
    let mut area = typed("ac");
    area.cursor_left();
    area.insert_char('b');
    assert_eq!(area.content(), "abc");
    assert_eq!(area.cursor(), 2);
}

#[test]
fn insert_then_backspace_restores_state() {
    for ch in ['x', 'é', '€', '😀', '\n'] {
        let mut area = typed("héllo wörld");
        area.cursor_left();
        area.cursor_left();
        let content = area.content();
        let cursor = area.cursor();
        area.insert_char(ch);
        assert_ne!(area.content(), content);
        area.backspace();
        assert_eq!(area.content(), content);
        assert_eq!(area.cursor(), cursor);
    }
}

#[test]
fn backspace_removes_whole_scalar_value() {
    let mut area = typed("aé");
    area.backspace();
    assert_eq!(area.content(), "a");
    assert_eq!(area.cursor(), 1);
    area.backspace();
    assert_eq!(area.content(), "");
    assert_eq!(area.cursor(), 0);
}

#[test]
fn backspace_at_start_does_nothing() {
    let mut area = typed("ab");
    area.cursor_left();
    area.cursor_left();
    area.backspace();
    assert_eq!(area.content(), "ab");
    assert_eq!(area.cursor(), 0);
    let mut empty = InputArea::new();
    empty.backspace();
    assert_eq!(empty.content(), "");
    assert_eq!(empty.cursor(), 0);
}

#[test]
fn cursor_left_and_right_step_over_scalar_values() {
    let mut area = typed("a€b");
    assert_eq!(area.cursor(), 5);
    area.cursor_left();
    assert_eq!(area.cursor(), 4);
    area.cursor_left();
    assert_eq!(area.cursor(), 1);
    area.cursor_left();
    assert_eq!(area.cursor(), 0);
    area.cursor_left();
    assert_eq!(area.cursor(), 0);
    area.cursor_right();
    assert_eq!(area.cursor(), 1);
    area.cursor_right();
    assert_eq!(area.cursor(), 4);
    area.cursor_right();
    assert_eq!(area.cursor(), 5);
    area.cursor_right();
    assert_eq!(area.cursor(), 5);
}

#[test]
fn cursor_stays_on_a_boundary() {
    let mut area = typed("añ\n€😀\nz");
    let check = |area: &InputArea| {
        let content = area.content();
        assert!(area.cursor() <= content.len());
        assert!(content.is_char_boundary(area.cursor()));
    };
    check(&area);
    for _ in 0..4 {
        area.cursor_left();
        check(&area);
    }
    area.cursor_up();
    check(&area);
    area.backspace();
    check(&area);
    area.cursor_down();
    check(&area);
    area.insert_char('ß');
    check(&area);
    area.cursor_down();
    check(&area);
    for _ in 0..12 {
        area.cursor_right();
        check(&area);
    }
    area.newline();
    check(&area);
    area.submit();
    check(&area);
}

#[test]
fn find_line_and_column() {
    let mut area = typed("ab\ncdé\n");
    assert_eq!(area.find_current_line_col(), (2, 0));
    area.cursor_left();
    assert_eq!(area.find_current_line_col(), (1, 3));
    area.cursor_left();
    assert_eq!(area.find_current_line_col(), (1, 2));
    for _ in 0..3 {
        area.cursor_left();
    }
    assert_eq!(area.find_current_line_col(), (0, 2));
    area.cursor_left();
    area.cursor_left();
    assert_eq!(area.find_current_line_col(), (0, 0));
}

#[test]
fn cursor_up_keeps_the_column() {
    let mut area = typed("héllo\nwörld");
    area.cursor_left();
    area.cursor_left();
    // on line 1, column 3
    area.cursor_up();
    assert_eq!(area.find_current_line_col(), (0, 3));
    assert_eq!(area.cursor(), 4);
    area.cursor_up();
    assert_eq!(area.find_current_line_col(), (0, 3));
    assert_eq!(area.cursor(), 4);
}

#[test]
fn cursor_up_clamps_to_a_shorter_line() {
    let mut area = typed("ab\nlonger line");
    area.cursor_up();
    assert_eq!(area.find_current_line_col(), (0, 2));
    assert_eq!(area.cursor(), 2);
}

#[test]
fn cursor_down_keeps_the_column_and_clamps() {
    let mut area = typed("a long line\nxy\n€€€€");
    for _ in 0..30 {
        area.cursor_left();
    }
    for _ in 0..5 {
        area.cursor_right();
    }
    assert_eq!(area.find_current_line_col(), (0, 5));
    area.cursor_down();
    assert_eq!(area.find_current_line_col(), (1, 2));
    assert_eq!(area.cursor(), 14);
    area.cursor_down();
    assert_eq!(area.find_current_line_col(), (2, 2));
    assert_eq!(area.cursor(), 21);
    area.cursor_down();
    assert_eq!(area.find_current_line_col(), (2, 2));
    assert_eq!(area.cursor(), 21);
}

#[test]
fn vertical_moves_on_a_single_line_do_nothing() {
    let mut area = typed("single");
    area.cursor_left();
    area.cursor_up();
    assert_eq!(area.cursor(), 5);
    area.cursor_down();
    assert_eq!(area.cursor(), 5);
    let mut empty = InputArea::new();
    empty.cursor_up();
    empty.cursor_down();
    assert_eq!(empty.cursor(), 0);
}

#[test]
fn newline_inserts_a_line_break() {
    let mut area = typed("ab");
    area.cursor_left();
    area.newline();
    assert_eq!(area.content(), "a\nb");
    assert_eq!(area.cursor(), 2);
}

#[test]
fn submit_returns_text_and_resets() {
    let mut area = typed("hello world");
    area.newline();
    area.insert_char('h');
    area.insert_char('i');
    area.scroll_down(3);
    assert_eq!(area.submit(), "hello world\nhi");
    assert_eq!(area.content(), "");
    assert_eq!(area.cursor(), 0);
    assert_eq!(area.get_offset(), 0);
    assert_eq!(area.submit(), "");
}

#[test]
fn input_scroll_saturates() {
    let mut area = InputArea::new();
    area.scroll_up(4);
    assert_eq!(area.get_offset(), 0);
    area.scroll_down(7);
    assert_eq!(area.get_offset(), 7);
    area.scroll_up(2);
    assert_eq!(area.get_offset(), 5);
    area.scroll_down(usize::MAX);
    assert_eq!(area.get_offset(), usize::MAX);
    area.scroll_up(usize::MAX);
    assert_eq!(area.get_offset(), 0);
}

#[test]
fn height_of_empty_buffer() {
    let area = InputArea::new();
    assert_eq!(area.calculate_display_lines(14), 3);
}

#[test]
fn height_grows_with_wrapped_lines() {
    let area = typed("hello world");
    assert_eq!(area.calculate_display_lines(14), 4);
    assert_eq!(area.calculate_display_lines(15), 3);
    assert_eq!(area.calculate_display_lines(5), 13 - 1);
    assert_eq!(area.calculate_display_lines(6), 8);
}

#[test]
fn height_without_room_for_text() {
    let area = typed("hello world");
    for width in 0..=4 {
        assert_eq!(area.calculate_display_lines(width), 2);
    }
}

#[test]
fn height_counts_scalar_values_not_bytes() {
    let area = typed("€€€€€€€€€€");
    assert_eq!(area.calculate_display_lines(14), 3);
}

#[test]
fn height_is_capped() {
    let area = typed("1\n2\n3\n4\n5\n6\n7\n8\n9\n10\n11\n12");
    assert_eq!(area.calculate_display_lines(80), 12);
    let nine = typed("1\n2\n3\n4\n5\n6\n7\n8\n9");
    assert_eq!(nine.calculate_display_lines(80), 11);
}

#[test]
fn height_counts_empty_lines() {
    let area = typed("a\n\n\nb");
    assert_eq!(area.calculate_display_lines(80), 6);
}

#[test]
fn insert_str_puts_the_block_before_the_cursor() {
    let mut area = typed("ad");
    area.cursor_left();
    area.insert_str("b€\nc");
    assert_eq!(area.content(), "ab€\ncd");
    assert_eq!(area.cursor(), 7);
    assert_eq!(area.find_current_line_col(), (1, 1));
    area.insert_str("");
    assert_eq!(area.content(), "ab€\ncd");
    assert_eq!(area.cursor(), 7);
}

#[test]
fn display_index_adds_one_prompt_per_line() {
    let mut area = InputArea::new();
    assert_eq!(area.calculate_display_index(), 2);
    area.insert_str("a€\nb\n");
    assert_eq!(area.calculate_display_index(), 2 + 7 + 4);
    area.cursor_left();
    assert_eq!(area.calculate_display_index(), 2 + 6 + 2);
    area.cursor_up();
    assert_eq!(area.calculate_display_index(), 2 + 1);
}
