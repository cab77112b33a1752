use tui_chat::cursor::{calculate_cursor_line, calculate_cursor_pos};
use tui_chat::InputArea;

fn typed(text: &str) -> InputArea {
    let mut area = InputArea::new();
    for ch in text.chars() {
        area.insert_char(ch);
    }
    area
}

#[test]
fn cursor_pos_counts_rows_and_columns() {
    let display = "> ab\n> c€d";
    assert_eq!(calculate_cursor_pos(display, 0), Some((0, 0)));
    assert_eq!(calculate_cursor_pos(display, 4), Some((0, 4)));
    assert_eq!(calculate_cursor_pos(display, 5), Some((1, 0)));
    assert_eq!(calculate_cursor_pos(display, 8), Some((1, 3)));
    assert_eq!(calculate_cursor_pos(display, 11), Some((1, 4)));
    assert_eq!(calculate_cursor_pos(display, 12), Some((1, 5)));
}

#[test]
fn cursor_pos_outside_the_display_is_none() {
    let display = "> ab\n> c€d";
    assert_eq!(calculate_cursor_pos(display, 13), None);
    assert_eq!(calculate_cursor_pos(display, usize::MAX), None);
    assert_eq!(calculate_cursor_pos("", 1), None);
    assert_eq!(calculate_cursor_pos("", 0), Some((0, 0)));
}

#[test]
fn cursor_pos_inside_a_scalar_value_is_none() {
    let display = "> ab\n> c€d";
    assert_eq!(calculate_cursor_pos(display, 9), None);
    assert_eq!(calculate_cursor_pos(display, 10), None);
}

#[test]
fn cursor_line_counts_breaks_before_the_index() {
    let display = "> ab\n> c€d\n> ";
    assert_eq!(calculate_cursor_line(display, 0), 0);
    assert_eq!(calculate_cursor_line(display, 4), 0);
    assert_eq!(calculate_cursor_line(display, 5), 1);
    assert_eq!(calculate_cursor_line(display, 9), 1);
    assert_eq!(calculate_cursor_line(display, 12), 1);
    assert_eq!(calculate_cursor_line(display, 13), 2);
    assert_eq!(calculate_cursor_line(display, 500), 2);
}

#[test]
fn cursor_cell_follows_the_wrap() {
    let mut area = typed("hello world");
    assert_eq!(area.cursor_cell(10), (1, 1));
    area.cursor_left();
    assert_eq!(area.cursor_cell(10), (1, 0));
    area.cursor_left();
    assert_eq!(area.cursor_cell(10), (0, 9));
}

#[test]
fn cursor_cell_at_the_end_of_a_full_row_stays_on_it() {
    let area = typed("abcdefghij");
    assert_eq!(area.cursor_cell(10), (0, 10));
    assert_eq!(area.cursor_cell(5), (1, 5));
    let lines = typed("abcde\nxy");
    assert_eq!(lines.cursor_cell(5), (1, 2));
}

#[test]
fn cursor_cell_counts_rows_of_earlier_lines() {
    let mut area = typed("abcdefg\n\nxyz");
    assert_eq!(area.cursor_cell(3), (4, 3));
    area.cursor_up();
    assert_eq!(area.cursor_cell(3), (3, 0));
    area.cursor_up();
    assert_eq!(area.cursor_cell(3), (0, 0));
}

#[test]
fn render_prefixes_rows_with_the_prompt() {
    let mut area = typed("hello world\nhi");
    let view = area.render(14);
    assert_eq!(view.lines, vec!["> hello worl", "  d", "> hi"]);
    assert_eq!(view.offset, 0);
}

#[test]
fn render_of_empty_buffer_shows_the_prompt() {
    let mut area = InputArea::new();
    let view = area.render(14);
    assert_eq!(view.lines, vec!["> "]);
    assert_eq!(view.offset, 0);
}

#[test]
fn render_without_room_for_text_shows_nothing() {
    let mut area = typed("hello");
    area.scroll_down(3);
    for width in 0..=4 {
        let view = area.render(width);
        assert!(view.lines.is_empty());
        assert_eq!(view.offset, 3);
        assert_eq!(area.get_offset(), 3);
    }
}

#[test]
fn render_scrolls_to_keep_the_cursor_visible() {
    let mut area = typed("0\n1\n2\n3\n4\n5\n6\n7\n8\n9\n10\n11\n12");
    let view = area.render(20);
    assert_eq!(view.offset, 3);
    assert_eq!(view.lines.len(), 10);
    assert_eq!(view.lines[0], "> 3");
    assert_eq!(view.lines[9], "> 12");
    for _ in 0..11 {
        area.cursor_up();
    }
    let view = area.render(20);
    assert_eq!(view.offset, 1);
    assert_eq!(view.lines[0], "> 1");
    assert_eq!(view.lines[9], "> 10");
    for _ in 0..4 {
        area.cursor_down();
    }
    let view = area.render(20);
    assert_eq!(view.offset, 1);
}

#[test]
fn render_clamps_a_scroll_offset_beyond_the_text() {
    let mut area = typed("a\nb");
    area.scroll_down(50);
    let view = area.render(20);
    assert_eq!(view.offset, 0);
    assert_eq!(view.lines, vec!["> a", "> b"]);
}

#[test]
fn project_gives_the_cell_inside_the_window() {
    let mut area = typed("hello world");
    assert_eq!(area.project(0, 14), Some((1, 3)));
    assert_eq!(area.project(1, 14), Some((0, 3)));
    area.cursor_left();
    area.cursor_left();
    assert_eq!(area.project(0, 14), Some((0, 11)));
}

#[test]
fn project_outside_the_window_is_none() {
    let area = typed("0\n1\n2\n3\n4\n5\n6\n7\n8\n9\n10\n11");
    assert_eq!(area.project(0, 20), None);
    assert_eq!(area.project(1, 20), None);
    assert_eq!(area.project(2, 20), Some((9, 4)));
    assert_eq!(area.project(11, 20), Some((0, 4)));
    assert_eq!(area.project(12, 20), None);
    assert_eq!(area.project(11, 4), None);
}

#[test]
fn display_text_has_a_prompt_before_each_line() {
    assert_eq!(InputArea::new().display_text(), "> ");
    assert_eq!(typed("ab").display_text(), "> ab");
    assert_eq!(typed("a\n\nb\n").display_text(), "> a\n> \n> b\n> ");
}

#[test]
fn display_index_projects_to_line_and_column() {
    let mut area = typed("héllo\nwörld");
    area.cursor_left();
    area.cursor_left();
    let display = area.display_text();
    let index = area.calculate_display_index();
    assert_eq!(index, 2 + 11 + 2);
    assert_eq!(calculate_cursor_pos(&display, index), Some((1, 5)));
    assert_eq!(calculate_cursor_line(&display, index), 1);
    assert_eq!(area.find_current_line_col(), (1, 3));
    area.cursor_up();
    let index = area.calculate_display_index();
    assert_eq!(calculate_cursor_pos(&display, index), Some((0, 5)));
    assert_eq!(calculate_cursor_line(&display, index), 0);
}
