//! What a key means in a state, and what the step that it means does to the
//! state. The work outside that a step calls for is named by an action.

use crate::app::{
    list_next, list_previous, message_of, next_window, scrolled_down, scrolled_up, App,
    BranchTab, CommitView, RemoteDialogView,
};
use crate::file_tree::{FileTree, Selection};
use crate::model::{next_index, previous_index};
use crate::text::{clamped, with_char, without_char};
use vstd::prelude::*;

verus! {

/// A key, as far as the application tells keys apart.
#[derive(Debug, Clone, Copy, PartialEq, Eq, Structural)]
pub enum Key {
    Esc,
    Tab,
    Enter,
    Char(char),
    Backspace,
    Delete,
    Left,
    Right,
    Up,
    Down,
    Home,
    End,
    Other,
}

/// One step of the application.
#[derive(Debug, Clone, Copy, PartialEq, Eq, Structural)]
pub enum Step {
    Nothing,
    Quit,
    CloseCommitDialog,
    ToggleCommitFocus,
    SubmitCommit,
    CommitInsert(char),
    CommitBackspace,
    CommitDelete,
    CommitLeft,
    CommitRight,
    CommitHome,
    CommitEnd,
    DismissCommitSuccess,
    DismissPushSuccess,
    DismissPushError,
    DismissCommitWarning,
    CloseAddRemote,
    ToggleRemoteFocus,
    SubmitRemote,
    RemoteInsert(char),
    RemoteBackspace,
    BranchUp,
    BranchDown,
    BranchTabToggle,
    OpenAddRemote,
    RemoveRemote,
    LeaveBranches,
    NextWindow,
    Rescan,
    OpenCommit,
    Push,
    OpenFile,
    Up,
    Down,
    Unfocus,
    ToggleStage,
    CollapseOrParent,
    ExpandOrOpen,
    SkipWindow,
}

/// The work outside the state that a step calls for.
#[derive(Debug, Clone, PartialEq, Eq)]
pub enum Action {
    /// Nothing is to be done.
    Nothing,
    /// The application ends.
    Quit,
    /// The staged files are to be committed with this message.
    Commit(String),
    /// The branch is to be pushed.
    Push,
    /// The repository is to be scanned anew.
    Rescan,
    /// The diff of the selected file is to be loaded.
    LoadDiff,
    /// The file at this path is to be staged, or unstaged if it is staged.
    ToggleStage(String),
    /// A remote of this name and address is to be added.
    AddRemote(String, String),
    /// The remote at this index, of this name, is to be removed.
    RemoveRemote(usize, String),
}

/// What a key means in a state. The layers are asked in this order: the
/// commit dialog, the notes of success and failure, the dialog that adds a
/// remote, the branch panel, the main view.
pub open spec fn step_of(app: &App, key: Key) -> Step {
    if app.show_commit_dialog {
        match key {
            Key::Esc => Step::CloseCommitDialog,
            Key::Tab => Step::ToggleCommitFocus,
            Key::Enter => Step::SubmitCommit,
            Key::Char(c) => Step::CommitInsert(c),
            Key::Backspace => Step::CommitBackspace,
            Key::Delete => Step::CommitDelete,
            Key::Left => Step::CommitLeft,
            Key::Right => Step::CommitRight,
            Key::Home => Step::CommitHome,
            Key::End => Step::CommitEnd,
            _ => Step::Nothing,
        }
    } else if app.commit_success_open {
        Step::DismissCommitSuccess
    } else if app.push_success_open {
        Step::DismissPushSuccess
    } else if app.push_error is Some {
        Step::DismissPushError
    } else if app.commit_warning_open {
        if key == Key::Char('q') {
            Step::DismissCommitWarning
        } else {
            Step::Nothing
        }
    } else if app.show_add_remote_dialog {
        match key {
            Key::Esc => Step::CloseAddRemote,
            Key::Tab => Step::ToggleRemoteFocus,
            Key::Enter => Step::SubmitRemote,
            Key::Char(c) => Step::RemoteInsert(c),
            Key::Backspace => Step::RemoteBackspace,
            _ => Step::Nothing,
        }
    } else if app.branch_focused {
        match key {
            Key::Up => Step::BranchUp,
            Key::Down => Step::BranchDown,
            Key::Left => Step::BranchTabToggle,
            Key::Right => Step::BranchTabToggle,
            Key::Tab => Step::LeaveBranches,
            Key::Char(c) => if c == 'q' {
                Step::Quit
            } else if c == 'a' && app.branch_tab == BranchTab::Remote {
                Step::OpenAddRemote
            } else if c == 'd' && app.branch_tab == BranchTab::Remote {
                Step::RemoveRemote
            } else {
                Step::Nothing
            },
            _ => Step::Nothing,
        }
    } else {
        match key {
            Key::Tab => Step::NextWindow,
            Key::Enter => Step::OpenFile,
            Key::Up => Step::Up,
            Key::Down => Step::Down,
            Key::Esc => Step::Unfocus,
            Key::Left => Step::CollapseOrParent,
            Key::Right => Step::ExpandOrOpen,
            Key::Char(c) => if c == 's' {
                Step::Rescan
            } else if c == 'c' {
                Step::OpenCommit
            } else if c == 'P' {
                Step::Push
            } else if c == ' ' {
                Step::ToggleStage
            } else if c == 'u' {
                Step::SkipWindow
            } else if c == 'q' {
                Step::Quit
            } else {
                Step::Nothing
            },
            _ => Step::Nothing,
        }
    }
}

/// The commit dialog, closed and empty.
pub open spec fn closed_commit() -> CommitView {
    CommitView {
        open: false,
        summary: Seq::empty(),
        description: Seq::empty(),
        focus_description: false,
        summary_cursor: 0,
        description_cursor: 0,
        summary_scroll: 0,
        description_scroll: 0,
    }
}

/// The state with the selection of the tree moved to `index`.
pub open spec fn with_tree_selection(app: &App, index: Option<usize>) -> App {
    App { tree: FileTree { state: Selection { index }, ..app.tree }, ..*app }
}

/// What a step makes of the state, and the action that it calls for.
pub open spec fn applied(before: &App, step: Step, after: &App, action: Action) -> bool {
    match step {
        Step::Nothing => *after == *before && action == Action::Nothing,
        Step::Quit => *after == *before && action == Action::Quit,
        Step::Rescan => *after == *before && action == Action::Rescan,
        Step::CloseCommitDialog => {
            &&& after.commit_view() == closed_commit()
            &&& after.same_but_commit(before)
            &&& action == Action::Nothing
        },
        Step::SubmitCommit => {
            &&& after.commit_view() == closed_commit()
            &&& after.same_but_commit(before)
            &&& if before.commit_summary@.len() > 0 {
                match action {
                    Action::Commit(message) => message@ == message_of(
                        before.commit_summary@,
                        before.commit_description@,
                    ),
                    _ => false,
                }
            } else {
                action == Action::Nothing
            }
        },
        Step::ToggleCommitFocus => {
            &&& *after == (App {
                commit_focus_description: !before.commit_focus_description,
                ..*before
            })
            &&& action == Action::Nothing
        },
        Step::CommitInsert(c) => {
            let at = clamped(before.active_cursor(), before.active_text().len());
            &&& after.commit_view() == before.commit_with(
                with_char(before.active_text(), at as int, c),
                (at + 1) as usize,
            )
            &&& after.same_but_commit(before)
            &&& action == Action::Nothing
        },
        Step::CommitBackspace => {
            let at = clamped(before.active_cursor(), before.active_text().len());
            &&& if at == 0 {
                *after == *before
            } else {
                after.commit_view() == before.commit_with(
                    without_char(before.active_text(), at - 1),
                    (at - 1) as usize,
                )
            }
            &&& after.same_but_commit(before)
            &&& action == Action::Nothing
        },
        Step::CommitDelete => {
            let at = before.active_cursor();
            &&& if at >= before.active_text().len() {
                *after == *before
            } else {
                after.commit_view() == before.commit_with(
                    without_char(before.active_text(), at as int),
                    at,
                )
            }
            &&& after.same_but_commit(before)
            &&& action == Action::Nothing
        },
        Step::CommitLeft => {
            let at = clamped(before.active_cursor(), before.active_text().len());
            &&& after.commit_view() == if at == 0 {
                before.commit_view()
            } else {
                before.commit_with(before.active_text(), (at - 1) as usize)
            }
            &&& after.same_but_commit(before)
            &&& action == Action::Nothing
        },
        Step::CommitRight => {
            let at = before.active_cursor();
            &&& after.commit_view() == if at >= before.active_text().len() {
                before.commit_view()
            } else {
                before.commit_with(before.active_text(), (at + 1) as usize)
            }
            &&& after.same_but_commit(before)
            &&& action == Action::Nothing
        },
        Step::CommitHome => {
            &&& after.commit_view() == before.commit_with(before.active_text(), 0)
            &&& after.same_but_commit(before)
            &&& action == Action::Nothing
        },
        Step::CommitEnd => {
            &&& after.commit_view() == before.commit_with(
                before.active_text(),
                before.active_text().len() as usize,
            )
            &&& after.same_but_commit(before)
            &&& action == Action::Nothing
        },
        Step::DismissCommitSuccess => {
            &&& *after == (App { commit_success_open: false, ..*before })
            &&& action == Action::Nothing
        },
        Step::DismissPushSuccess => {
            &&& *after == (App { push_success_open: false, ..*before })
            &&& action == Action::Nothing
        },
        Step::DismissPushError => {
            &&& *after == (App { push_error: None, ..*before })
            &&& action == Action::Nothing
        },
        Step::DismissCommitWarning => {
            &&& *after == (App { commit_warning_open: false, ..*before })
            &&& action == Action::Nothing
        },
        Step::CloseAddRemote => {
            &&& after.remote_dialog() == (RemoteDialogView {
                open: false,
                name: Seq::empty(),
                url: Seq::empty(),
                focus_url: false,
            })
            &&& after.same_but_remote_dialog(before)
            &&& action == Action::Nothing
        },
        Step::ToggleRemoteFocus => {
            &&& *after == (App { add_remote_focus_url: !before.add_remote_focus_url, ..*before })
            &&& action == Action::Nothing
        },
        Step::SubmitRemote => {
            &&& *after == *before
            &&& if before.add_remote_name@.len() > 0 && before.add_remote_url@.len() > 0 {
                match action {
                    Action::AddRemote(name, url) => name@ == before.add_remote_name@ && url@
                        == before.add_remote_url@,
                    _ => false,
                }
            } else {
                action == Action::Nothing
            }
        },
        Step::RemoteInsert(c) => {
            &&& after.remote_dialog() == if before.add_remote_focus_url {
                RemoteDialogView { url: before.add_remote_url@.push(c), ..before.remote_dialog() }
            } else {
                RemoteDialogView { name: before.add_remote_name@.push(c), ..before.remote_dialog() }
            }
            &&& after.same_but_remote_dialog(before)
            &&& action == Action::Nothing
        },
        Step::RemoteBackspace => {
            let text = if before.add_remote_focus_url {
                before.add_remote_url@
            } else {
                before.add_remote_name@
            };
            let shorter = if text.len() > 0 {
                text.drop_last()
            } else {
                text
            };
            &&& after.remote_dialog() == if before.add_remote_focus_url {
                RemoteDialogView { url: shorter, ..before.remote_dialog() }
            } else {
                RemoteDialogView { name: shorter, ..before.remote_dialog() }
            }
            &&& after.same_but_remote_dialog(before)
            &&& action == Action::Nothing
        },
        Step::BranchUp => {
            &&& *after == if before.branch_tab == BranchTab::Local {
                App {
                    branch_state: Selection {
                        index: list_previous(before.branch_state.index, before.branches@.len()),
                    },
                    ..*before
                }
            } else {
                App {
                    remote_state: Selection {
                        index: list_previous(before.remote_state.index, before.remotes@.len()),
                    },
                    ..*before
                }
            }
            &&& action == Action::Nothing
        },
        Step::BranchDown => {
            &&& *after == if before.branch_tab == BranchTab::Local {
                App {
                    branch_state: Selection {
                        index: list_next(before.branch_state.index, before.branches@.len()),
                    },
                    ..*before
                }
            } else {
                App {
                    remote_state: Selection {
                        index: list_next(before.remote_state.index, before.remotes@.len()),
                    },
                    ..*before
                }
            }
            &&& action == Action::Nothing
        },
        Step::BranchTabToggle => {
            &&& *after == (App {
                branch_tab: match before.branch_tab {
                    BranchTab::Local => BranchTab::Remote,
                    BranchTab::Remote => BranchTab::Local,
                },
                ..*before
            })
            &&& action == Action::Nothing
        },
        Step::OpenAddRemote => {
            &&& after.remote_dialog() == (RemoteDialogView {
                open: true,
                name: Seq::empty(),
                url: Seq::empty(),
                focus_url: false,
            })
            &&& after.same_but_remote_dialog(before)
            &&& action == Action::Nothing
        },
        Step::RemoveRemote => {
            &&& *after == *before
            &&& match before.remote_state.index {
                Some(i) if i < before.remotes@.len() => match action {
                    Action::RemoveRemote(index, name) => index == i && name@
                        == before.remotes@[i as int].0@,
                    _ => false,
                },
                _ => action == Action::Nothing,
            }
        },
        Step::LeaveBranches => {
            &&& *after == (App {
                branch_focused: false,
                window_index: next_window(before.window_index),
                ..*before
            })
            &&& action == Action::Nothing
        },
        Step::NextWindow => {
            &&& *after == (App {
                window_index: next_window(before.window_index),
                ..*before
            })
            &&& action == Action::Nothing
        },
        Step::SkipWindow => {
            &&& *after == (App {
                window_index: if before.window_index == u32::MAX {
                    0
                } else {
                    (before.window_index + 1) as u32
                },
                ..*before
            })
            &&& action == Action::Nothing
        },
        Step::OpenCommit => {
            &&& if before.staged_count == 0 {
                *after == (App { commit_warning_open: true, ..*before })
            } else {
                after.commit_view() == (CommitView { open: true, ..closed_commit() })
                    && after.same_but_commit(before)
            }
            &&& action == Action::Nothing
        },
        Step::Push => {
            &&& *after == (App { push_in_progress: true, ..*before })
            &&& action == if before.push_in_progress {
                Action::Nothing
            } else {
                Action::Push
            }
        },
        Step::OpenFile => {
            let taken = App { focused: before.focused, ..*after };
            &&& before.takes_file(&taken)
            &&& after.focused
            &&& action == if before.selection_is_file() {
                Action::LoadDiff
            } else {
                Action::Nothing
            }
        },
        Step::Up => if before.window_index == 1 {
            &&& *after == (App {
                commit_graph_scroll: scrolled_up(before.commit_graph_scroll),
                ..*before
            })
            &&& action == Action::Nothing
        } else if before.focused {
            &&& *after == (App { diff_scroll: scrolled_up(before.diff_scroll), ..*before })
            &&& action == Action::Nothing
        } else {
            let moved = with_tree_selection(
                before,
                previous_index(before.tree.state.index, before.tree.items@.len()),
            );
            &&& moved.takes_file(after)
            &&& action == if moved.selection_is_file() {
                Action::LoadDiff
            } else {
                Action::Nothing
            }
        },
        Step::Down => if before.window_index == 1 {
            &&& *after == (App {
                commit_graph_scroll: scrolled_down(
                    before.commit_graph_scroll,
                    before.commit_graph@.len(),
                ),
                ..*before
            })
            &&& action == Action::Nothing
        } else if before.focused {
            &&& *after == (App {
                diff_scroll: scrolled_down(before.diff_scroll, before.diff_content@.len()),
                ..*before
            })
            &&& action == Action::Nothing
        } else {
            let moved = with_tree_selection(
                before,
                next_index(before.tree.state.index, before.tree.items@.len()),
            );
            &&& moved.takes_file(after)
            &&& action == if moved.selection_is_file() {
                Action::LoadDiff
            } else {
                Action::Nothing
            }
        },
        Step::Unfocus => {
            &&& *after == (App { focused: false, ..*before })
            &&& action == Action::Nothing
        },
        Step::ToggleStage => {
            &&& *after == *before
            &&& match before.selected_file {
                Some(file) => match action {
                    Action::ToggleStage(path) => path@ == file@,
                    _ => false,
                },
                None => action == Action::Nothing,
            }
        },
        Step::CollapseOrParent => {
            &&& before.tree.collapses_to(&after.tree)
            &&& *after == (App { tree: after.tree, ..*before })
            &&& action == Action::Nothing
        },
        Step::ExpandOrOpen => if before.selection_is_file() {
            let taken = App { focused: before.focused, ..*after };
            &&& before.takes_file(&taken)
            &&& after.focused
            &&& action == Action::LoadDiff
        } else {
            &&& before.tree.toggles_to(&after.tree)
            &&& *after == (App { tree: after.tree, ..*before })
            &&& action == Action::Nothing
        },
    }
}

/// What a key means in the state.
pub fn step_for(app: &App, key: Key) -> (step: Step)
    ensures
        step == step_of(app, key),
{
    if app.show_commit_dialog {
        match key {
            Key::Esc => Step::CloseCommitDialog,
            Key::Tab => Step::ToggleCommitFocus,
            Key::Enter => Step::SubmitCommit,
            Key::Char(c) => Step::CommitInsert(c),
            Key::Backspace => Step::CommitBackspace,
            Key::Delete => Step::CommitDelete,
            Key::Left => Step::CommitLeft,
            Key::Right => Step::CommitRight,
            Key::Home => Step::CommitHome,
            Key::End => Step::CommitEnd,
            _ => Step::Nothing,
        }
    } else if app.commit_success_open {
        Step::DismissCommitSuccess
    } else if app.push_success_open {
        Step::DismissPushSuccess
    } else if app.push_error.is_some() {
        Step::DismissPushError
    } else if app.commit_warning_open {
        match key {
            Key::Char(c) => if c == 'q' {
                Step::DismissCommitWarning
            } else {
                Step::Nothing
            },
            _ => Step::Nothing,
        }
    } else if app.show_add_remote_dialog {
        match key {
            Key::Esc => Step::CloseAddRemote,
            Key::Tab => Step::ToggleRemoteFocus,
            Key::Enter => Step::SubmitRemote,
            Key::Char(c) => Step::RemoteInsert(c),
            Key::Backspace => Step::RemoteBackspace,
            _ => Step::Nothing,
        }
    } else if app.branch_focused {
        let remote = match app.branch_tab {
            BranchTab::Local => false,
            BranchTab::Remote => true,
        };
        match key {
            Key::Up => Step::BranchUp,
            Key::Down => Step::BranchDown,
            Key::Left => Step::BranchTabToggle,
            Key::Right => Step::BranchTabToggle,
            Key::Tab => Step::LeaveBranches,
            Key::Char(c) => if c == 'q' {
                Step::Quit
            } else if c == 'a' && remote {
                Step::OpenAddRemote
            } else if c == 'd' && remote {
                Step::RemoveRemote
            } else {
                Step::Nothing
            },
            _ => Step::Nothing,
        }
    } else {
        match key {
            Key::Tab => Step::NextWindow,
            Key::Enter => Step::OpenFile,
            Key::Up => Step::Up,
            Key::Down => Step::Down,
            Key::Esc => Step::Unfocus,
            Key::Left => Step::CollapseOrParent,
            Key::Right => Step::ExpandOrOpen,
            Key::Char(c) => if c == 's' {
                Step::Rescan
            } else if c == 'c' {
                Step::OpenCommit
            } else if c == 'P' {
                Step::Push
            } else if c == ' ' {
                Step::ToggleStage
            } else if c == 'u' {
                Step::SkipWindow
            } else if c == 'q' {
                Step::Quit
            } else {
                Step::Nothing
            },
            _ => Step::Nothing,
        }
    }
}

/// A step that changes nothing, or a flag.
fn apply_plain(app: &mut App, step: Step) -> (action: Action)
    requires
        step is Nothing
            || step is Quit
            || step is Rescan
            || step is DismissCommitSuccess
            || step is DismissPushSuccess
            || step is DismissPushError
            || step is DismissCommitWarning
            || step is Unfocus
            || step is ToggleStage
            || step is Push,
    ensures
        applied(old(app), step, final(app), action),
{
    match step {
        Step::Nothing => Action::Nothing,
        Step::Quit => Action::Quit,
        Step::Rescan => Action::Rescan,
        Step::DismissCommitSuccess => {
            app.commit_success_open = false;
            Action::Nothing
        },
        Step::DismissPushSuccess => {
            app.push_success_open = false;
            Action::Nothing
        },
        Step::DismissPushError => {
            app.push_error = None;
            Action::Nothing
        },
        Step::DismissCommitWarning => {
            app.commit_warning_open = false;
            Action::Nothing
        },
        Step::Unfocus => {
            app.focused = false;
            Action::Nothing
        },
        Step::ToggleStage => {
            match &app.selected_file {
                Some(file) => Action::ToggleStage(file.clone()),
                None => Action::Nothing,
            }
        },
        Step::Push => {
            if app.start_push() {
                Action::Push
            } else {
                Action::Nothing
            }
        },
        _ => Action::Nothing,
    }
}

/// A step of the commit dialog that edits its text.
fn apply_commit_edit(app: &mut App, step: Step) -> (action: Action)
    requires
        step is CommitInsert || step is CommitBackspace || step is CommitDelete,
    ensures
        applied(old(app), step, final(app), action),
{
    match step {
        Step::CommitInsert(c) => {
            app.commit_message_insert(c);
            Action::Nothing
        },
        Step::CommitBackspace => {
            app.commit_message_backspace();
            Action::Nothing
        },
        Step::CommitDelete => {
            app.commit_message_delete();
            Action::Nothing
        },
        _ => Action::Nothing,
    }
}

/// A step of the commit dialog that moves its cursor or its focus.
fn apply_commit_move(app: &mut App, step: Step) -> (action: Action)
    requires
        step is CommitLeft
            || step is CommitRight
            || step is CommitHome
            || step is CommitEnd
            || step is ToggleCommitFocus,
    ensures
        applied(old(app), step, final(app), action),
{
    match step {
        Step::CommitLeft => {
            app.commit_cursor_left();
            Action::Nothing
        },
        Step::CommitRight => {
            app.commit_cursor_right();
            Action::Nothing
        },
        Step::CommitHome => {
            app.commit_cursor_home();
            Action::Nothing
        },
        Step::CommitEnd => {
            app.commit_cursor_end();
            Action::Nothing
        },
        Step::ToggleCommitFocus => {
            app.toggle_commit_focus();
            Action::Nothing
        },
        _ => Action::Nothing,
    }
}

/// A step that opens, closes or submits the commit dialog.
fn apply_commit_close(app: &mut App, step: Step) -> (action: Action)
    requires
        step is CloseCommitDialog || step is SubmitCommit || step is OpenCommit,
    ensures
        applied(old(app), step, final(app), action),
{
    match step {
        Step::CloseCommitDialog => {
            app.close_commit_dialog();
            Action::Nothing
        },
        Step::SubmitCommit => {
            let action = if app.commit_summary.as_str().is_empty() {
                Action::Nothing
            } else {
                Action::Commit(app.commit_message())
            };
            app.close_commit_dialog();
            action
        },
        Step::OpenCommit => {
            if app.staged_count == 0 {
                app.commit_warning_open = true;
            } else {
                app.open_commit_dialog();
            }
            Action::Nothing
        },
        _ => Action::Nothing,
    }
}

/// A step of the dialog that adds a remote.
fn apply_remote_dialog(app: &mut App, step: Step) -> (action: Action)
    requires
        step is CloseAddRemote
            || step is ToggleRemoteFocus
            || step is SubmitRemote
            || step is RemoteInsert
            || step is RemoteBackspace
            || step is OpenAddRemote,
    ensures
        applied(old(app), step, final(app), action),
{
    match step {
        Step::CloseAddRemote => {
            app.close_add_remote_dialog();
            Action::Nothing
        },
        Step::ToggleRemoteFocus => {
            app.add_remote_focus_url = !app.add_remote_focus_url;
            Action::Nothing
        },
        Step::SubmitRemote => {
            if app.confirm_add_remote() {
                Action::AddRemote(app.add_remote_name.clone(), app.add_remote_url.clone())
            } else {
                Action::Nothing
            }
        },
        Step::RemoteInsert(c) => {
            app.add_remote_input_push(c);
            Action::Nothing
        },
        Step::RemoteBackspace => {
            app.add_remote_input_pop();
            Action::Nothing
        },
        Step::OpenAddRemote => {
            app.open_add_remote_dialog();
            Action::Nothing
        },
        _ => Action::Nothing,
    }
}

/// A step of the branch panel.
fn apply_branches(app: &mut App, step: Step) -> (action: Action)
    requires
        step is BranchUp
            || step is BranchDown
            || step is BranchTabToggle
            || step is RemoveRemote
            || step is LeaveBranches,
    ensures
        applied(old(app), step, final(app), action),
{
    match step {
        Step::BranchUp => {
            match app.branch_tab {
                BranchTab::Local => app.branch_previous(),
                BranchTab::Remote => app.remote_previous(),
            }
            Action::Nothing
        },
        Step::BranchDown => {
            match app.branch_tab {
                BranchTab::Local => app.branch_next(),
                BranchTab::Remote => app.remote_next(),
            }
            Action::Nothing
        },
        Step::BranchTabToggle => {
            app.branch_tab_toggle();
            Action::Nothing
        },
        Step::RemoveRemote => {
            match app.selected_remote() {
                Some((index, name)) => Action::RemoveRemote(index, name),
                None => Action::Nothing,
            }
        },
        Step::LeaveBranches => {
            app.branch_focused = false;
            app.increase_window();
            Action::Nothing
        },
        _ => Action::Nothing,
    }
}

/// A step from window to window.
fn apply_windows(app: &mut App, step: Step) -> (action: Action)
    requires
        step is NextWindow || step is SkipWindow,
    ensures
        applied(old(app), step, final(app), action),
{
    match step {
        Step::NextWindow => {
            app.increase_window();
            Action::Nothing
        },
        Step::SkipWindow => {
            app.skip_window();
            Action::Nothing
        },
        _ => Action::Nothing,
    }
}

/// A step up or down in the window that has the focus.
fn apply_up_down(app: &mut App, step: Step) -> (action: Action)
    requires
        step is Up || step is Down,
    ensures
        applied(old(app), step, final(app), action),
{
    match step {
        Step::Up => {
            if app.window_index == 1 {
                app.commit_graph_scroll_up();
                Action::Nothing
            } else if app.focused {
                app.diff_scroll_up();
                Action::Nothing
            } else {
                app.tree.previous();
                if app.select_file() {
                    Action::LoadDiff
                } else {
                    Action::Nothing
                }
            }
        },
        Step::Down => {
            if app.window_index == 1 {
                app.commit_graph_scroll_down();
                Action::Nothing
            } else if app.focused {
                app.diff_scroll_down();
                Action::Nothing
            } else {
                app.tree.next();
                if app.select_file() {
                    Action::LoadDiff
                } else {
                    Action::Nothing
                }
            }
        },
        _ => Action::Nothing,
    }
}

/// Takes the selected row as the file to show and gives the diff the focus.
fn apply_open_file(app: &mut App) -> (action: Action)
    ensures
        applied(old(app), Step::OpenFile, final(app), action),
{
    let taken = app.select_file();
    let ghost between = *app;
    app.focused = true;
    assert(between == (App { focused: old(app).focused, ..*app }));
    if taken {
        Action::LoadDiff
    } else {
        Action::Nothing
    }
}

/// Collapses the selected directory or moves to the row of its parent.
fn apply_collapse(app: &mut App) -> (action: Action)
    ensures
        applied(old(app), Step::CollapseOrParent, final(app), action),
{
    app.tree.collapse_or_parent();
    Action::Nothing
}

/// Opens the selected file, or toggles the selected directory.
fn apply_expand(app: &mut App) -> (action: Action)
    ensures
        applied(old(app), Step::ExpandOrOpen, final(app), action),
{
    let is_file = match app.tree.selected_row() {
        Some(row) => !row.2,
        None => false,
    };
    if is_file {
        apply_open_file(app)
    } else {
        app.tree.toggle_expand();
        Action::Nothing
    }
}

/// A step in the tree.
fn apply_tree(app: &mut App, step: Step) -> (action: Action)
    requires
        step is OpenFile || step is CollapseOrParent || step is ExpandOrOpen,
    ensures
        applied(old(app), step, final(app), action),
{
    match step {
        Step::OpenFile => apply_open_file(app),
        Step::CollapseOrParent => apply_collapse(app),
        _ => apply_expand(app),
    }
}

/// Takes one step, and names the work outside that it calls for.
pub fn apply(app: &mut App, step: Step) -> (action: Action)
    ensures
        applied(old(app), step, final(app), action),
{
    match step {
        Step::Nothing
        | Step::Quit
        | Step::Rescan
        | Step::DismissCommitSuccess
        | Step::DismissPushSuccess
        | Step::DismissPushError
        | Step::DismissCommitWarning
        | Step::Unfocus
        | Step::ToggleStage
        | Step::Push => apply_plain(app, step),
        Step::CommitInsert(_) | Step::CommitBackspace | Step::CommitDelete => {
            apply_commit_edit(app, step)
        },
        Step::CommitLeft
        | Step::CommitRight
        | Step::CommitHome
        | Step::CommitEnd
        | Step::ToggleCommitFocus => apply_commit_move(app, step),
        Step::CloseCommitDialog | Step::SubmitCommit | Step::OpenCommit => {
            apply_commit_close(app, step)
        },
        Step::CloseAddRemote
        | Step::ToggleRemoteFocus
        | Step::SubmitRemote
        | Step::RemoteInsert(_)
        | Step::RemoteBackspace
        | Step::OpenAddRemote => apply_remote_dialog(app, step),
        Step::BranchUp
        | Step::BranchDown
        | Step::BranchTabToggle
        | Step::RemoveRemote
        | Step::LeaveBranches => apply_branches(app, step),
        Step::NextWindow | Step::SkipWindow => apply_windows(app, step),
        Step::Up | Step::Down => apply_up_down(app, step),
        Step::OpenFile | Step::CollapseOrParent | Step::ExpandOrOpen => apply_tree(app, step),
    }
}

/// Takes the step that a key means in the state.
pub fn handle_key(app: &mut App, key: Key) -> (action: Action)
    ensures
        applied(old(app), step_of(old(app), key), final(app), action),
{
    let step = step_for(app, key);
    apply(app, step)
}

} // verus!
