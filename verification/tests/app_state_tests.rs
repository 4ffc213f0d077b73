use fastgit::app::{
    graph_line, scan_entries, strip_dot, whole_file_is_new, App, DiffLine, DiffLineKind,
};
use fastgit::helper::helpers::{FileStatus, IGNORED, INDEX_NEW, WT_MODIFIED, WT_NEW};

fn entry(path: &str, bits: u32) -> (String, FileStatus) {
    (path.to_string(), FileStatus::from_bits(bits))
}

#[test]
fn new_state_is_empty() {
    let app = App::new();
    assert_eq!(app.current_branch, "-");
    assert!(!app.has_git);
    assert!(app.cur_dir.is_empty());
    assert!(app.tree.items.is_empty());
    assert_eq!(app.tree.root.path, ".");
    assert!(app.tree.root.expanded);
    assert_eq!(app.tree.state.selected(), None);
    assert_eq!(app.window_index, 0);
    assert_eq!(app.staged_count, 0);
    assert_eq!(app.selected_file, None);
    assert!(!app.show_commit_dialog);
    assert!(!app.show_add_remote_dialog);
}

#[test]
fn select_file_takes_the_path_without_the_dot() {
    let mut app = App::new();
    app.tree.populate_from_paths(vec!["src/a.rs".to_string(), "b.rs".to_string()]);
    app.diff_scroll = 7;
    assert!(!app.select_file());
    assert_eq!(app.selected_file, None);
    assert_eq!(app.diff_scroll, 7);
    app.tree.state.select(Some(1));
    assert!(app.select_file());
    assert_eq!(app.selected_file, Some("b.rs".to_string()));
    assert_eq!(app.diff_scroll, 0);
    app.tree.state.select(Some(5));
    assert!(!app.select_file());
    app.tree.state.select(None);
    assert!(!app.select_file());
    assert_eq!(app.selected_file, Some("b.rs".to_string()));
}

#[test]
fn strip_dot_removes_one_leading_dot_and_slash() {
    assert_eq!(strip_dot("./src/a.rs"), "src/a.rs");
    assert_eq!(strip_dot("src/a.rs"), "src/a.rs");
    assert_eq!(strip_dot("."), ".");
    assert_eq!(strip_dot("./"), "");
    assert_eq!(strip_dot(".git"), ".git");
    assert_eq!(strip_dot(""), "");
}

#[test]
fn scan_git_with_a_repository_keeps_branch_and_graph() {
    let mut app = App::new();
    app.current_branch = "main".to_string();
    app.commit_graph = vec!["* 1 a".to_string()];
    app.scan_git(true);
    assert!(app.has_git);
    assert_eq!(app.current_branch, "main");
    assert_eq!(app.commit_graph.len(), 1);
    app.scan_git(false);
    assert!(!app.has_git);
    assert_eq!(app.current_branch, "-");
    assert!(app.commit_graph.is_empty());
}

#[test]
fn refresh_current_branch_names_the_branch() {
    let mut app = App::new();
    app.refresh_current_branch(Some("main".to_string()));
    assert_eq!(app.current_branch, "-");
    app.has_git = true;
    app.refresh_current_branch(Some("main".to_string()));
    assert_eq!(app.current_branch, "main");
    app.refresh_current_branch(None);
    assert_eq!(app.current_branch, "detached");
}

#[test]
fn refresh_commit_graph_takes_the_lines_and_scrolls_to_the_top() {
    let mut app = App::new();
    app.commit_graph_scroll = 3;
    app.refresh_commit_graph(vec!["* 1 a".to_string()]);
    assert!(app.commit_graph.is_empty());
    assert_eq!(app.commit_graph_scroll, 0);
    app.has_git = true;
    app.commit_graph_scroll = 3;
    app.refresh_commit_graph(vec!["* 1 a".to_string(), "* 2 b".to_string()]);
    assert_eq!(app.commit_graph, vec!["* 1 a".to_string(), "* 2 b".to_string()]);
    assert_eq!(app.commit_graph_scroll, 0);
}

#[test]
fn graph_line_shows_seven_characters_of_the_identifier() {
    assert_eq!(
        graph_line("0123456789abcdef0123456789abcdef01234567", Some("Add tree")),
        "* 0123456 Add tree"
    );
    assert_eq!(graph_line("0123456", None), "* 0123456 (no message)");
    assert_eq!(graph_line("012", Some("")), "* 012 ");
}

#[test]
fn commit_graph_scrolls_within_its_lines() {
    let mut app = App::new();
    app.commit_graph = vec!["a".to_string(), "b".to_string()];
    app.commit_graph_scroll_down();
    assert_eq!(app.commit_graph_scroll, 1);
    app.commit_graph_scroll_down();
    assert_eq!(app.commit_graph_scroll, 1);
    app.commit_graph_scroll_up();
    assert_eq!(app.commit_graph_scroll, 0);
    app.commit_graph_scroll_up();
    assert_eq!(app.commit_graph_scroll, 0);
}

#[test]
fn commit_cursor_moves_within_the_text() {
    let mut app = App::new();
    app.commit_summary = "héllo".to_string();
    app.commit_cursor_end();
    assert_eq!(app.commit_summary_cursor, 5);
    app.commit_cursor_right();
    assert_eq!(app.commit_summary_cursor, 5);
    app.commit_cursor_left();
    assert_eq!(app.commit_summary_cursor, 4);
    app.commit_cursor_home();
    assert_eq!(app.commit_summary_cursor, 0);
    app.commit_cursor_left();
    assert_eq!(app.commit_summary_cursor, 0);
    app.commit_cursor_right();
    app.commit_cursor_right();
    assert_eq!(app.commit_summary_cursor, 2);
    app.commit_message_backspace();
    assert_eq!(app.commit_summary, "hllo");
    assert_eq!(app.commit_summary_cursor, 1);
    app.commit_message_insert('é');
    assert_eq!(app.commit_summary, "héllo");
    assert_eq!(app.commit_summary_cursor, 2);
}

#[test]
fn commit_cursor_behind_the_text_is_taken_as_its_end() {
    let mut app = App::new();
    app.commit_summary = "ab".to_string();
    app.commit_summary_cursor = 9;
    app.commit_message_insert('c');
    assert_eq!(app.commit_summary, "abc");
    assert_eq!(app.commit_summary_cursor, 3);
    app.commit_summary_cursor = 9;
    app.commit_message_backspace();
    assert_eq!(app.commit_summary, "ab");
    assert_eq!(app.commit_summary_cursor, 2);
    app.commit_summary_cursor = 9;
    app.commit_cursor_left();
    assert_eq!(app.commit_summary_cursor, 1);
}

#[test]
fn commit_edits_go_to_the_text_in_focus() {
    let mut app = App::new();
    app.commit_summary = "sum".to_string();
    app.commit_description = "desc".to_string();
    app.toggle_commit_focus();
    app.commit_cursor_end();
    assert_eq!(app.commit_description_cursor, 4);
    assert_eq!(app.commit_summary_cursor, 0);
    app.commit_message_backspace();
    assert_eq!(app.commit_description, "des");
    assert_eq!(app.commit_summary, "sum");
    app.commit_cursor_home();
    app.commit_message_delete();
    assert_eq!(app.commit_description, "es");
}

#[test]
fn commit_message_joins_summary_and_description() {
    let mut app = App::new();
    app.commit_summary = "Fix the tree".to_string();
    assert_eq!(app.commit_message(), "Fix the tree");
    app.commit_description = "It lost a row.".to_string();
    assert_eq!(app.commit_message(), "Fix the tree\n\nIt lost a row.");
}

#[test]
fn staged_files_are_counted_and_forgotten_on_commit() {
    let mut app = App::new();
    app.file_staged();
    app.file_staged();
    assert_eq!(app.staged_count, 2);
    app.commit_done();
    assert_eq!(app.staged_count, 0);
    app.staged_count = u32::MAX;
    app.file_staged();
    assert_eq!(app.staged_count, u32::MAX);
}

#[test]
fn commit_done_empties_the_tree_and_shows_the_note() {
    let mut app = App::new();
    app.tree.populate_from_paths(vec!["src/a.rs".to_string(), "b.rs".to_string()]);
    app.tree.state.select(Some(1));
    app.select_file();
    app.diff_content = vec![DiffLine::added("x")];
    app.window_index = 2;
    app.commit_done();
    assert!(app.tree.items.is_empty());
    assert!(app.tree.root.children.is_empty());
    assert_eq!(app.tree.root.path, ".");
    assert!(app.tree.root.expanded);
    assert_eq!(app.tree.state.selected(), None);
    assert_eq!(app.selected_file, None);
    assert!(app.diff_content.is_empty());
    assert!(app.commit_success_open);
    assert_eq!(app.window_index, 2);
}

#[test]
fn push_is_started_once_and_its_outcome_is_shown() {
    let mut app = App::new();
    assert!(app.start_push());
    assert!(app.push_in_progress);
    assert!(!app.start_push());
    app.check_push_result(None);
    assert!(app.push_in_progress);
    app.check_push_result(Some(Ok(())));
    assert!(!app.push_in_progress);
    assert!(app.push_success_open);
    assert_eq!(app.push_error, None);
    assert!(app.start_push());
    app.check_push_result(Some(Err("denied".to_string())));
    assert!(!app.push_in_progress);
    assert_eq!(app.push_error, Some("denied".to_string()));
}

#[test]
fn load_remotes_takes_the_remotes_and_selects_the_first() {
    let mut app = App::new();
    let found = vec![("origin".to_string(), "https://a.com".to_string())];
    app.load_remotes(found.clone());
    assert!(app.remotes.is_empty());
    assert_eq!(app.remote_state.selected(), None);
    app.has_git = true;
    app.load_remotes(found.clone());
    assert_eq!(app.remotes, found);
    assert_eq!(app.remote_state.selected(), Some(0));
    app.remote_state.select(Some(3));
    app.load_remotes(found);
    assert_eq!(app.remote_state.selected(), Some(3));
    app.load_remotes(Vec::new());
    assert!(app.remotes.is_empty());
}

#[test]
fn remote_steps_from_no_selection() {
    let mut app = App::new();
    app.remotes = vec![
        ("origin".to_string(), "a".to_string()),
        ("upstream".to_string(), "b".to_string()),
        ("fork".to_string(), "c".to_string()),
    ];
    app.remote_next();
    assert_eq!(app.remote_state.selected(), Some(0));
    app.remote_state.select(None);
    app.remote_previous();
    assert_eq!(app.remote_state.selected(), Some(2));
    app.remote_previous();
    assert_eq!(app.remote_state.selected(), Some(1));
}

#[test]
fn confirm_add_remote_wants_name_and_address() {
    let mut app = App::new();
    assert!(!app.confirm_add_remote());
    app.add_remote_name = "origin".to_string();
    assert!(!app.confirm_add_remote());
    app.add_remote_url = "https://a.com".to_string();
    assert!(app.confirm_add_remote());
    app.add_remote_name.clear();
    assert!(!app.confirm_add_remote());
}

#[test]
fn selected_remote_is_the_one_under_the_selection() {
    let mut app = App::new();
    assert_eq!(app.selected_remote(), None);
    app.remotes =
        vec![("origin".to_string(), "a".to_string()), ("up".to_string(), "b".to_string())];
    app.remote_state.select(Some(1));
    assert_eq!(app.selected_remote(), Some((1, "up".to_string())));
    app.remote_state.select(Some(2));
    assert_eq!(app.selected_remote(), None);
}

#[test]
fn remove_selected_remote_puts_the_selection_right() {
    let mut app = App::new();
    app.remotes =
        vec![("origin".to_string(), "a".to_string()), ("up".to_string(), "b".to_string())];
    app.remove_selected_remote(1);
    assert_eq!(app.remote_state.selected(), Some(1));
    app.remove_selected_remote(2);
    assert_eq!(app.remote_state.selected(), Some(1));
    app.remove_selected_remote(0);
    assert_eq!(app.remote_state.selected(), Some(0));
    app.remotes.clear();
    app.remove_selected_remote(0);
    assert_eq!(app.remote_state.selected(), None);
}

#[test]
fn add_remote_input_pop_on_empty_field_does_nothing() {
    let mut app = App::new();
    app.add_remote_input_pop();
    assert_eq!(app.add_remote_name, "");
    app.add_remote_focus_url = true;
    app.add_remote_input_pop();
    assert_eq!(app.add_remote_url, "");
}

#[test]
fn sync_focus_follows_the_window() {
    let mut app = App::new();
    app.sync_focus();
    assert!(!app.branch_focused);
    app.window_index = 2;
    app.sync_focus();
    assert!(app.branch_focused);
    app.window_index = 3;
    app.sync_focus();
    assert!(!app.branch_focused);
}

#[test]
fn patch_lines_are_classified_by_their_origin() {
    assert_eq!(DiffLine::from_patch('+', "new\n").kind, DiffLineKind::Add);
    assert_eq!(DiffLine::from_patch('-', "old\n").kind, DiffLineKind::Delete);
    assert_eq!(DiffLine::from_patch('H', "x").kind, DiffLineKind::Header);
    assert_eq!(DiffLine::from_patch('F', "diff --git a b\n").kind, DiffLineKind::Header);
    assert_eq!(DiffLine::from_patch(' ', "same\n").kind, DiffLineKind::Context);
    assert_eq!(DiffLine::from_patch('=', "same\n").kind, DiffLineKind::Context);
}

#[test]
fn patch_lines_that_begin_with_at_signs_are_headers() {
    assert_eq!(DiffLine::from_patch('+', "@@ -1 +1 @@\n").kind, DiffLineKind::Header);
    assert_eq!(DiffLine::from_patch(' ', "@@").kind, DiffLineKind::Header);
    assert_eq!(DiffLine::from_patch('+', "@ x").kind, DiffLineKind::Add);
}

#[test]
fn patch_lines_lose_the_line_feeds_at_their_end() {
    assert_eq!(DiffLine::from_patch('+', "new\n").content, "new");
    assert_eq!(DiffLine::from_patch('+', "new\n\n").content, "new");
    assert_eq!(DiffLine::from_patch('+', "a\nb").content, "a\nb");
    assert_eq!(DiffLine::from_patch('+', "\n").content, "");
    assert_eq!(DiffLine::from_patch('+', "").content, "");
}

#[test]
fn added_lines_are_additions() {
    let line = DiffLine::added("fn main() {}");
    assert_eq!(line.kind, DiffLineKind::Add);
    assert_eq!(line.content, "fn main() {}");
}

#[test]
fn scan_entries_leave_out_ignored_files() {
    let first = vec![
        entry("a.rs", WT_MODIFIED),
        entry("target/x", IGNORED),
        entry("b.rs", INDEX_NEW),
    ];
    let found = scan_entries(first, Vec::new());
    assert_eq!(found, vec![entry("a.rs", WT_MODIFIED), entry("b.rs", INDEX_NEW)]);
}

#[test]
fn scan_entries_add_new_files_once() {
    let first = vec![entry("a.rs", WT_MODIFIED), entry("n.rs", WT_NEW)];
    let second = vec![
        entry("n.rs", WT_NEW),
        entry("m.rs", WT_NEW),
        entry("a.rs", WT_MODIFIED),
        entry("c.rs", WT_MODIFIED),
        entry("m.rs", WT_NEW | WT_MODIFIED),
        entry("k.rs", WT_NEW | IGNORED),
    ];
    let found = scan_entries(first, second);
    assert_eq!(
        found,
        vec![
            entry("a.rs", WT_MODIFIED),
            entry("n.rs", WT_NEW),
            entry("m.rs", WT_NEW),
            entry("k.rs", WT_NEW | IGNORED),
        ]
    );
}

#[test]
fn load_diff_empties_the_diff_and_names_the_file() {
    let mut app = App::new();
    app.diff_content = vec![DiffLine::added("x")];
    app.selected_file = Some("a.rs".to_string());
    assert_eq!(app.load_diff(), None);
    assert!(app.diff_content.is_empty());
    app.has_git = true;
    app.diff_content = vec![DiffLine::added("x")];
    assert_eq!(app.load_diff(), Some("a.rs".to_string()));
    assert!(app.diff_content.is_empty());
    assert_eq!(app.selected_file, Some("a.rs".to_string()));
    app.selected_file = None;
    assert_eq!(app.load_diff(), None);
}

#[test]
fn get_path_takes_the_directory_that_was_read() {
    let mut app = App::new();
    app.get_path(Some("/home/me/repo".to_string()));
    assert_eq!(app.cur_dir, "/home/me/repo");
    app.get_path(None);
    assert_eq!(app.cur_dir, "/home/me/repo");
}

#[test]
fn whole_file_is_new_when_untracked_and_not_staged() {
    assert!(whole_file_is_new(Some(FileStatus::from_bits(WT_NEW))));
    assert!(whole_file_is_new(Some(FileStatus::from_bits(WT_NEW | WT_MODIFIED))));
    assert!(!whole_file_is_new(Some(FileStatus::from_bits(WT_NEW | INDEX_NEW))));
    assert!(!whole_file_is_new(Some(FileStatus::from_bits(WT_MODIFIED))));
    assert!(!whole_file_is_new(None));
}
