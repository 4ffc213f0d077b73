use fastgit::app::DiffLineKind;
use fastgit::helper::helpers::{Color, FileStatus, INDEX_NEW, WT_DELETED};
use fastgit::ui::{
    counter, diff_color, diff_prefix, diff_title, file_mark, input_line_with_cursor, panel_name,
    row_label,
};

#[test]
fn row_label_of_a_directory() {
    assert_eq!(row_label("./src", 0, true, ""), "src/");
    assert_eq!(row_label("./src/ui", 1, true, "S"), "  ui/");
}

#[test]
fn row_label_of_a_file() {
    assert_eq!(row_label("./readme.txt", 0, false, "M"), "M readme.txt");
    assert_eq!(row_label("./a/b/c.rs", 2, false, "??"), "    ?? c.rs");
    assert_eq!(row_label("plain", 3, false, "N"), "      N plain");
}

#[test]
fn input_window_shows_all_of_a_short_text() {
    let mut scroll = 0;
    let view = input_line_with_cursor("hello", 2, &mut scroll, 10);
    assert_eq!(scroll, 0);
    assert_eq!(view.before, "he");
    assert_eq!(view.cursor, "l");
    assert_eq!(view.after, "lo");
    assert_eq!(view.full, "hello");
}

#[test]
fn input_window_shows_a_blank_under_a_cursor_at_the_end() {
    let mut scroll = 0;
    let view = input_line_with_cursor("hi", 2, &mut scroll, 10);
    assert_eq!(view.before, "hi");
    assert_eq!(view.cursor, " ");
    assert_eq!(view.after, "");
    let far = input_line_with_cursor("hi", 40, &mut scroll, 10);
    assert_eq!(far.before, "hi");
    assert_eq!(far.cursor, " ");
}

#[test]
fn input_window_scrolls_to_keep_the_cursor_in_view() {
    let mut scroll = 0;
    let view = input_line_with_cursor("abcdefghij", 7, &mut scroll, 4);
    assert_eq!(scroll, 4);
    assert_eq!(view.before, "efg");
    assert_eq!(view.cursor, "h");
    assert_eq!(view.after, "");
    assert_eq!(view.full, "efgh");
    let back = input_line_with_cursor("abcdefghij", 2, &mut scroll, 4);
    assert_eq!(scroll, 2);
    assert_eq!(back.before, "");
    assert_eq!(back.cursor, "c");
    assert_eq!(back.after, "def");
    let stay = input_line_with_cursor("abcdefghij", 4, &mut scroll, 4);
    assert_eq!(scroll, 2);
    assert_eq!(stay.before, "cd");
    assert_eq!(stay.cursor, "e");
    assert_eq!(stay.after, "f");
}

#[test]
fn input_window_without_width_shows_nothing() {
    let mut scroll = 3;
    let view = input_line_with_cursor("abcdef", 1, &mut scroll, 0);
    assert_eq!(scroll, 3);
    assert_eq!(view.full, "");
    assert_eq!(view.before, "");
    assert_eq!(view.cursor, " ");
    assert_eq!(view.after, "");
}

#[test]
fn input_window_counts_characters() {
    let mut scroll = 0;
    let view = input_line_with_cursor("héllo", 2, &mut scroll, 10);
    assert_eq!(view.before, "hé");
    assert_eq!(view.cursor, "l");
    assert_eq!(view.after, "lo");
}

#[test]
fn panel_names() {
    assert_eq!(panel_name(true, 0), "Focused");
    assert_eq!(panel_name(true, 3), "Focused");
    assert_eq!(panel_name(false, 0), "Tree");
    assert_eq!(panel_name(false, 1), "Commit Graph");
    assert_eq!(panel_name(false, 2), "Branches");
    assert_eq!(panel_name(false, 3), "Diff");
    assert_eq!(panel_name(false, 4), "Tree");
}

#[test]
fn diff_lines_have_their_sign_and_colour() {
    assert_eq!(diff_prefix(DiffLineKind::Add), "+ ");
    assert_eq!(diff_prefix(DiffLineKind::Delete), "- ");
    assert_eq!(diff_prefix(DiffLineKind::Header), "");
    assert_eq!(diff_prefix(DiffLineKind::Context), "  ");
    assert_eq!(diff_color(DiffLineKind::Add), Color::Green);
    assert_eq!(diff_color(DiffLineKind::Delete), Color::Red);
    assert_eq!(diff_color(DiffLineKind::Header), Color::Yellow);
    assert_eq!(diff_color(DiffLineKind::Context), Color::White);
}

#[test]
fn file_mark_of_a_known_and_of_an_unknown_status() {
    assert_eq!(file_mark(Some(FileStatus::from_bits(INDEX_NEW))), ("S", Color::Green));
    assert_eq!(file_mark(Some(FileStatus::from_bits(WT_DELETED))), ("D", Color::Red));
    assert_eq!(file_mark(Some(FileStatus::from_bits(0))), ("??", Color::Magenta));
    assert_eq!(file_mark(None), ("??", Color::White));
}

#[test]
fn diff_title_names_the_selected_file() {
    assert_eq!(diff_title(&Some("src/a.rs".to_string())), "Diff \u{2014} src/a.rs");
    assert_eq!(diff_title(&None), "Diff \u{2014} No file selected");
}

#[test]
fn counter_counts_from_one() {
    assert_eq!(counter(0, 0), 0);
    assert_eq!(counter(4, 0), 0);
    assert_eq!(counter(0, 3), 1);
    assert_eq!(counter(2, 3), 3);
    assert_eq!(counter(usize::MAX, 3), usize::MAX);
}
