use fastgit::app::{App, BranchTab, DiffLine, DiffLineKind};
use fastgit::keys::{apply, handle_key, step_for, Action, Key, Step};

fn with_tree(paths: &[&str]) -> App {
    let mut app = App::new();
    app.tree.populate_from_paths(paths.iter().map(|p| p.to_string()).collect());
    app
}

#[test]
fn keys_of_the_main_view() {
    let app = App::new();
    assert_eq!(step_for(&app, Key::Tab), Step::NextWindow);
    assert_eq!(step_for(&app, Key::Char('s')), Step::Rescan);
    assert_eq!(step_for(&app, Key::Char('c')), Step::OpenCommit);
    assert_eq!(step_for(&app, Key::Char('P')), Step::Push);
    assert_eq!(step_for(&app, Key::Enter), Step::OpenFile);
    assert_eq!(step_for(&app, Key::Up), Step::Up);
    assert_eq!(step_for(&app, Key::Down), Step::Down);
    assert_eq!(step_for(&app, Key::Esc), Step::Unfocus);
    assert_eq!(step_for(&app, Key::Char(' ')), Step::ToggleStage);
    assert_eq!(step_for(&app, Key::Left), Step::CollapseOrParent);
    assert_eq!(step_for(&app, Key::Right), Step::ExpandOrOpen);
    assert_eq!(step_for(&app, Key::Char('u')), Step::SkipWindow);
    assert_eq!(step_for(&app, Key::Char('q')), Step::Quit);
    assert_eq!(step_for(&app, Key::Char('x')), Step::Nothing);
    assert_eq!(step_for(&app, Key::Home), Step::Nothing);
    assert_eq!(step_for(&app, Key::Other), Step::Nothing);
}

#[test]
fn keys_of_the_commit_dialog_come_first() {
    let mut app = App::new();
    app.show_commit_dialog = true;
    app.commit_success_open = true;
    app.branch_focused = true;
    assert_eq!(step_for(&app, Key::Esc), Step::CloseCommitDialog);
    assert_eq!(step_for(&app, Key::Tab), Step::ToggleCommitFocus);
    assert_eq!(step_for(&app, Key::Enter), Step::SubmitCommit);
    assert_eq!(step_for(&app, Key::Char('q')), Step::CommitInsert('q'));
    assert_eq!(step_for(&app, Key::Backspace), Step::CommitBackspace);
    assert_eq!(step_for(&app, Key::Delete), Step::CommitDelete);
    assert_eq!(step_for(&app, Key::Left), Step::CommitLeft);
    assert_eq!(step_for(&app, Key::Right), Step::CommitRight);
    assert_eq!(step_for(&app, Key::Home), Step::CommitHome);
    assert_eq!(step_for(&app, Key::End), Step::CommitEnd);
    assert_eq!(step_for(&app, Key::Up), Step::Nothing);
}

#[test]
fn notes_are_dismissed_in_their_order() {
    let mut app = App::new();
    app.commit_success_open = true;
    app.push_success_open = true;
    app.push_error = Some("no".to_string());
    app.commit_warning_open = true;
    assert_eq!(step_for(&app, Key::Char('x')), Step::DismissCommitSuccess);
    app.commit_success_open = false;
    assert_eq!(step_for(&app, Key::Up), Step::DismissPushSuccess);
    app.push_success_open = false;
    assert_eq!(step_for(&app, Key::Char('q')), Step::DismissPushError);
    app.push_error = None;
    assert_eq!(step_for(&app, Key::Char('x')), Step::Nothing);
    assert_eq!(step_for(&app, Key::Enter), Step::Nothing);
    assert_eq!(step_for(&app, Key::Char('q')), Step::DismissCommitWarning);
}

#[test]
fn keys_of_the_remote_dialog() {
    let mut app = App::new();
    app.show_add_remote_dialog = true;
    app.branch_focused = true;
    assert_eq!(step_for(&app, Key::Esc), Step::CloseAddRemote);
    assert_eq!(step_for(&app, Key::Tab), Step::ToggleRemoteFocus);
    assert_eq!(step_for(&app, Key::Enter), Step::SubmitRemote);
    assert_eq!(step_for(&app, Key::Char('d')), Step::RemoteInsert('d'));
    assert_eq!(step_for(&app, Key::Backspace), Step::RemoteBackspace);
    assert_eq!(step_for(&app, Key::Left), Step::Nothing);
}

#[test]
fn keys_of_the_branch_panel() {
    let mut app = App::new();
    app.branch_focused = true;
    assert_eq!(step_for(&app, Key::Up), Step::BranchUp);
    assert_eq!(step_for(&app, Key::Down), Step::BranchDown);
    assert_eq!(step_for(&app, Key::Left), Step::BranchTabToggle);
    assert_eq!(step_for(&app, Key::Right), Step::BranchTabToggle);
    assert_eq!(step_for(&app, Key::Tab), Step::LeaveBranches);
    assert_eq!(step_for(&app, Key::Char('q')), Step::Quit);
    assert_eq!(step_for(&app, Key::Char('a')), Step::Nothing);
    assert_eq!(step_for(&app, Key::Char('d')), Step::Nothing);
    assert_eq!(step_for(&app, Key::Enter), Step::Nothing);
    app.branch_tab = BranchTab::Remote;
    assert_eq!(step_for(&app, Key::Char('a')), Step::OpenAddRemote);
    assert_eq!(step_for(&app, Key::Char('d')), Step::RemoveRemote);
}

#[test]
fn submit_commit_hands_out_the_message_and_closes_the_dialog() {
    let mut app = App::new();
    app.open_commit_dialog();
    app.commit_summary = "Fix".to_string();
    app.commit_description = "why".to_string();
    assert_eq!(handle_key(&mut app, Key::Enter), Action::Commit("Fix\n\nwhy".to_string()));
    assert!(!app.show_commit_dialog);
    assert!(app.commit_summary.is_empty());
    assert!(app.commit_description.is_empty());
}

#[test]
fn submit_commit_without_summary_only_closes() {
    let mut app = App::new();
    app.open_commit_dialog();
    app.commit_description = "why".to_string();
    assert_eq!(handle_key(&mut app, Key::Enter), Action::Nothing);
    assert!(!app.show_commit_dialog);
}

#[test]
fn typing_in_the_commit_dialog() {
    let mut app = App::new();
    app.open_commit_dialog();
    for c in "ab".chars() {
        assert_eq!(handle_key(&mut app, Key::Char(c)), Action::Nothing);
    }
    handle_key(&mut app, Key::Left);
    handle_key(&mut app, Key::Char('x'));
    assert_eq!(app.commit_summary, "axb");
    assert_eq!(app.commit_summary_cursor, 2);
    handle_key(&mut app, Key::Home);
    assert_eq!(app.commit_summary_cursor, 0);
    handle_key(&mut app, Key::Delete);
    assert_eq!(app.commit_summary, "xb");
    handle_key(&mut app, Key::End);
    assert_eq!(app.commit_summary_cursor, 2);
    handle_key(&mut app, Key::Backspace);
    assert_eq!(app.commit_summary, "x");
    handle_key(&mut app, Key::Tab);
    handle_key(&mut app, Key::Char('d'));
    assert_eq!(app.commit_description, "d");
    handle_key(&mut app, Key::Esc);
    assert!(!app.show_commit_dialog);
}

#[test]
fn open_commit_warns_without_staged_files() {
    let mut app = App::new();
    assert_eq!(handle_key(&mut app, Key::Char('c')), Action::Nothing);
    assert!(app.commit_warning_open);
    assert!(!app.show_commit_dialog);
    handle_key(&mut app, Key::Char('x'));
    assert!(app.commit_warning_open);
    handle_key(&mut app, Key::Char('q'));
    assert!(!app.commit_warning_open);
    app.staged_count = 2;
    handle_key(&mut app, Key::Char('c'));
    assert!(app.show_commit_dialog);
    assert!(!app.commit_warning_open);
}

#[test]
fn push_starts_once() {
    let mut app = App::new();
    assert_eq!(handle_key(&mut app, Key::Char('P')), Action::Push);
    assert!(app.push_in_progress);
    assert_eq!(handle_key(&mut app, Key::Char('P')), Action::Nothing);
    assert!(app.push_in_progress);
}

#[test]
fn plain_actions() {
    let mut app = App::new();
    assert_eq!(handle_key(&mut app, Key::Char('s')), Action::Rescan);
    assert_eq!(handle_key(&mut app, Key::Char('q')), Action::Quit);
    assert_eq!(handle_key(&mut app, Key::Char(' ')), Action::Nothing);
    app.selected_file = Some("src/a.rs".to_string());
    assert_eq!(handle_key(&mut app, Key::Char(' ')), Action::ToggleStage("src/a.rs".to_string()));
}

#[test]
fn down_and_up_move_the_selection_and_open_files() {
    let mut app = with_tree(&["src/a.rs", "b.rs", "c.rs"]);
    assert_eq!(app.tree.state.selected(), Some(0));
    assert_eq!(handle_key(&mut app, Key::Down), Action::LoadDiff);
    assert_eq!(app.tree.state.selected(), Some(1));
    assert_eq!(app.selected_file, Some("b.rs".to_string()));
    assert_eq!(handle_key(&mut app, Key::Down), Action::LoadDiff);
    assert_eq!(app.selected_file, Some("c.rs".to_string()));
    assert_eq!(handle_key(&mut app, Key::Down), Action::Nothing);
    assert_eq!(app.tree.state.selected(), Some(0));
    assert_eq!(app.selected_file, Some("c.rs".to_string()));
    assert_eq!(handle_key(&mut app, Key::Up), Action::LoadDiff);
    assert_eq!(app.tree.state.selected(), Some(2));
}

#[test]
fn down_and_up_scroll_the_window_in_focus() {
    let mut app = with_tree(&["a", "b"]);
    app.diff_content = vec![
        DiffLine { kind: DiffLineKind::Add, content: "a".to_string() },
        DiffLine { kind: DiffLineKind::Add, content: "b".to_string() },
    ];
    app.commit_graph = vec!["x".to_string(), "y".to_string(), "z".to_string()];
    app.focused = true;
    assert_eq!(handle_key(&mut app, Key::Down), Action::Nothing);
    assert_eq!(app.diff_scroll, 1);
    assert_eq!(app.tree.state.selected(), Some(0));
    handle_key(&mut app, Key::Up);
    assert_eq!(app.diff_scroll, 0);
    app.window_index = 1;
    handle_key(&mut app, Key::Down);
    handle_key(&mut app, Key::Down);
    handle_key(&mut app, Key::Down);
    assert_eq!(app.commit_graph_scroll, 2);
    assert_eq!(app.diff_scroll, 0);
    handle_key(&mut app, Key::Up);
    assert_eq!(app.commit_graph_scroll, 1);
    handle_key(&mut app, Key::Esc);
    assert!(!app.focused);
}

#[test]
fn enter_opens_the_selected_file_and_gives_the_diff_the_focus() {
    let mut app = with_tree(&["src/a.rs", "b.rs"]);
    assert_eq!(handle_key(&mut app, Key::Enter), Action::Nothing);
    assert!(app.focused);
    assert_eq!(app.selected_file, None);
    app.focused = false;
    app.tree.state.select(Some(1));
    app.diff_scroll = 4;
    assert_eq!(handle_key(&mut app, Key::Enter), Action::LoadDiff);
    assert!(app.focused);
    assert_eq!(app.selected_file, Some("b.rs".to_string()));
    assert_eq!(app.diff_scroll, 0);
}

#[test]
fn right_expands_a_directory_and_opens_a_file() {
    let mut app = with_tree(&["src/a.rs", "b.rs"]);
    assert_eq!(handle_key(&mut app, Key::Right), Action::Nothing);
    assert_eq!(app.tree.items.len(), 3);
    assert!(!app.focused);
    app.tree.state.select(Some(1));
    assert_eq!(handle_key(&mut app, Key::Right), Action::LoadDiff);
    assert!(app.focused);
    assert_eq!(app.selected_file, Some("src/a.rs".to_string()));
    assert_eq!(app.tree.items.len(), 3);
}

#[test]
fn left_collapses_or_moves_to_the_parent() {
    let mut app = with_tree(&["src/a.rs", "b.rs"]);
    handle_key(&mut app, Key::Right);
    app.tree.state.select(Some(1));
    assert_eq!(handle_key(&mut app, Key::Left), Action::Nothing);
    assert_eq!(app.tree.state.selected(), Some(0));
    handle_key(&mut app, Key::Left);
    assert_eq!(app.tree.items.len(), 2);
    assert_eq!(app.tree.state.selected(), Some(0));
}

#[test]
fn windows_follow_one_another() {
    let mut app = App::new();
    handle_key(&mut app, Key::Tab);
    assert_eq!(app.window_index, 1);
    handle_key(&mut app, Key::Char('u'));
    handle_key(&mut app, Key::Char('u'));
    handle_key(&mut app, Key::Char('u'));
    assert_eq!(app.window_index, 4);
    handle_key(&mut app, Key::Tab);
    assert_eq!(app.window_index, 5);
    app.window_index = 3;
    handle_key(&mut app, Key::Tab);
    assert_eq!(app.window_index, 0);
    app.window_index = u32::MAX;
    handle_key(&mut app, Key::Char('u'));
    assert_eq!(app.window_index, 0);
    app.window_index = u32::MAX;
    handle_key(&mut app, Key::Tab);
    assert_eq!(app.window_index, 0);
}

#[test]
fn branch_panel_steps() {
    let mut app = App::new();
    app.branches = vec!["main".to_string(), "dev".to_string()];
    app.remotes = vec![
        ("origin".to_string(), "https://a.com".to_string()),
        ("upstream".to_string(), "https://b.com".to_string()),
    ];
    app.window_index = 2;
    app.sync_focus();
    assert!(app.branch_focused);
    handle_key(&mut app, Key::Down);
    assert_eq!(app.branch_state.selected(), Some(0));
    handle_key(&mut app, Key::Down);
    assert_eq!(app.branch_state.selected(), Some(1));
    handle_key(&mut app, Key::Up);
    assert_eq!(app.branch_state.selected(), Some(0));
    handle_key(&mut app, Key::Right);
    assert_eq!(app.branch_tab, BranchTab::Remote);
    handle_key(&mut app, Key::Up);
    assert_eq!(app.remote_state.selected(), Some(1));
    assert_eq!(app.branch_state.selected(), Some(0));
    assert_eq!(
        handle_key(&mut app, Key::Char('d')),
        Action::RemoveRemote(1, "upstream".to_string())
    );
    handle_key(&mut app, Key::Char('a'));
    assert!(app.show_add_remote_dialog);
    handle_key(&mut app, Key::Esc);
    handle_key(&mut app, Key::Tab);
    assert!(!app.branch_focused);
    assert_eq!(app.window_index, 3);
}

#[test]
fn remove_remote_without_a_selected_remote_does_nothing() {
    let mut app = App::new();
    app.branch_focused = true;
    app.branch_tab = BranchTab::Remote;
    assert_eq!(handle_key(&mut app, Key::Char('d')), Action::Nothing);
    app.remotes = vec![("origin".to_string(), "u".to_string())];
    app.remote_state.select(Some(4));
    assert_eq!(handle_key(&mut app, Key::Char('d')), Action::Nothing);
}

#[test]
fn remote_dialog_steps() {
    let mut app = App::new();
    app.open_add_remote_dialog();
    assert_eq!(handle_key(&mut app, Key::Enter), Action::Nothing);
    handle_key(&mut app, Key::Char('o'));
    handle_key(&mut app, Key::Char('x'));
    handle_key(&mut app, Key::Backspace);
    assert_eq!(app.add_remote_name, "o");
    assert_eq!(handle_key(&mut app, Key::Enter), Action::Nothing);
    handle_key(&mut app, Key::Tab);
    assert!(app.add_remote_focus_url);
    handle_key(&mut app, Key::Char('u'));
    assert_eq!(app.add_remote_url, "u");
    assert_eq!(
        handle_key(&mut app, Key::Enter),
        Action::AddRemote("o".to_string(), "u".to_string())
    );
    assert!(app.show_add_remote_dialog);
    handle_key(&mut app, Key::Esc);
    assert!(!app.show_add_remote_dialog);
    assert!(app.add_remote_name.is_empty());
}

#[test]
fn notes_close_on_any_key() {
    let mut app = App::new();
    app.commit_success_open = true;
    assert_eq!(apply(&mut app, Step::DismissCommitSuccess), Action::Nothing);
    assert!(!app.commit_success_open);
    app.push_success_open = true;
    handle_key(&mut app, Key::Char('q'));
    assert!(!app.push_success_open);
    app.push_error = Some("denied".to_string());
    handle_key(&mut app, Key::Enter);
    assert_eq!(app.push_error, None);
}
