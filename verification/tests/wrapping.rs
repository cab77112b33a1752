use tui_chat::wrap;

fn texts(text: &str, width: usize) -> Vec<String> {
    wrap(text, width).into_iter().map(|line| line.text).collect()
}

fn sources(text: &str, width: usize) -> Vec<usize> {
    wrap(text, width).into_iter().map(|line| line.source_line).collect()
}

fn rebuild(text: &str, width: usize) -> String {
    let mut out = String::new();
    let mut last = None;
    for line in wrap(text, width) {
        if let Some(source) = last {
            if source != line.source_line {
                out.push('\n');
            }
        }
        out.push_str(&line.text);
        last = Some(line.source_line);
    }
    out
}

#[test]
fn wrap_breaks_by_column_count() {
    assert_eq!(texts("hello world", 10), vec!["hello worl", "d"]);
    assert_eq!(sources("hello world", 10), vec![0, 0]);
}

#[test]
fn wrap_of_empty_text_is_one_empty_line() {
    assert_eq!(texts("", 5), vec![""]);
    assert_eq!(sources("", 5), vec![0]);
}

#[test]
fn wrap_exact_multiple_has_no_empty_row() {
    assert_eq!(texts("abcdef", 3), vec!["abc", "def"]);
    assert_eq!(texts("abc", 3), vec!["abc"]);
}

#[test]
fn wrap_keeps_explicit_breaks() {
    assert_eq!(texts("ab\ncdefg\n\nh\n", 3), vec!["ab", "cde", "fg", "", "h", ""]);
    assert_eq!(sources("ab\ncdefg\n\nh\n", 3), vec![0, 1, 1, 2, 3, 4]);
}

#[test]
fn wrap_counts_scalar_values() {
    assert_eq!(texts("a€é😀b", 2), vec!["a€", "é😀", "b"]);
}

#[test]
fn wrap_at_width_one() {
    assert_eq!(texts("abc", 1), vec!["a", "b", "c"]);
}

#[test]
fn wrap_reconstructs_the_text() {
    let samples =
        ["", "\n", "hello world", "a\n\nb", "héllo wörld\n€€€€€\n", "  spaced   out  "];
    for text in samples {
        for width in 1..8 {
            assert_eq!(rebuild(text, width), text);
        }
    }
}

#[test]
fn wrap_rows_are_no_wider_than_the_width() {
    let text = "the quick brown fox\njumps over\n\nthe lazy dog";
    for width in 1..12 {
        for line in wrap(text, width) {
            assert!(line.text.chars().count() <= width);
        }
    }
}

#[test]
fn wrap_row_count_is_the_rounded_up_quotient() {
    for len in 0..40usize {
        let text = "x".repeat(len);
        for width in 1..9usize {
            let expected = if len == 0 { 1 } else { (len + width - 1) / width };
            assert_eq!(wrap(&text, width).len(), expected);
        }
    }
}
