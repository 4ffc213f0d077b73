//! The state of the application and the steps that change it. Reading the
//! repository and drawing stay outside; what they find is handed in.

use crate::file_tree::{FileTree, Selection};
use crate::helper::helpers::{FileStatus, IGNORED, INDEX_NEW, WT_NEW};
use crate::model::{fresh, NodeView};
use crate::path::to_chars;
use crate::text::{
    clamped, insert_char, remove_char, with_char, with_last, without_char, without_last,
};
use vstd::prelude::*;
use vstd::string::{StrSliceExecFns, StringExecFns};

verus! {

/// The tabs of the main view.
#[derive(Debug, Clone, Copy, PartialEq, Eq, Structural)]
pub enum Tab {
    Tree,
}

/// The tabs of the branch panel.
#[derive(Debug, Clone, Copy, PartialEq, Eq, Structural)]
pub enum BranchTab {
    Local,
    Remote,
}

/// The kind of a line of a diff.
#[derive(Debug, Clone, Copy, PartialEq, Eq, Structural)]
pub enum DiffLineKind {
    Add,
    Delete,
    Context,
    Header,
}

/// One line of a diff.
#[derive(Debug, Clone)]
pub struct DiffLine {
    pub kind: DiffLineKind,
    pub content: String,
}

/// The kind of a line of a patch: by the sign of its origin an addition
/// (`+`), a deletion (`-`) or a header (`H`, `F`), else context; a line that
/// begins with `@@` is a header whatever its origin.
pub open spec fn patch_kind(origin: char, content: Seq<char>) -> DiffLineKind {
    if content.len() >= 2 && content[0] == '@' && content[1] == '@' {
        DiffLineKind::Header
    } else if origin == '+' {
        DiffLineKind::Add
    } else if origin == '-' {
        DiffLineKind::Delete
    } else if origin == 'H' || origin == 'F' {
        DiffLineKind::Header
    } else {
        DiffLineKind::Context
    }
}

/// The text without the line feeds at its end.
pub open spec fn without_line_end(text: Seq<char>) -> Seq<char>
    decreases text.len(),
{
    if text.len() > 0 && text.last() == '\n' {
        without_line_end(text.drop_last())
    } else {
        text
    }
}

/// The line of the commit graph for a commit: a star, the first seven
/// characters of its identifier, and its summary, or `(no message)`.
pub open spec fn graph_line_of(id: Seq<char>, summary: Option<Seq<char>>) -> Seq<char> {
    let short = if id.len() > 7 {
        id.take(7)
    } else {
        id
    };
    let message = match summary {
        Some(text) => text,
        None => seq!['(', 'n', 'o', ' ', 'm', 'e', 's', 's', 'a', 'g', 'e', ')'],
    };
    seq!['*', ' '] + short + seq![' '] + message
}

/// One of `entries` bears `path`.
pub open spec fn has_path(entries: Seq<(String, FileStatus)>, path: Seq<char>) -> bool {
    exists|i: int| 0 <= i < entries.len() && (#[trigger] entries[i]).0@ == path
}

/// The entries of a scan that are shown: those that are not ignored.
pub open spec fn shown_entries(scan: Seq<(String, FileStatus)>) -> Seq<(String, FileStatus)>
    decreases scan.len(),
{
    if scan.len() == 0 {
        scan
    } else if scan.last().1.has(IGNORED) {
        shown_entries(scan.drop_last())
    } else {
        shown_entries(scan.drop_last()).push(scan.last())
    }
}

/// The entries `known` with the new files of a second scan behind them, each
/// path once: an entry of the scan is added if it is new in the working tree
/// and its path is not among the entries so far.
pub open spec fn with_new_files(
    known: Seq<(String, FileStatus)>,
    scan: Seq<(String, FileStatus)>,
) -> Seq<(String, FileStatus)>
    decreases scan.len(),
{
    if scan.len() == 0 {
        known
    } else {
        let so_far = with_new_files(known, scan.drop_last());
        if scan.last().1.has(WT_NEW) && !has_path(so_far, scan.last().0@) {
            so_far.push(scan.last())
        } else {
            so_far
        }
    }
}

/// A file that is new as a whole: new in the working tree and not in the
/// index. Its diff is its content, every line an addition.
pub open spec fn is_new_file(status: Option<FileStatus>) -> bool {
    match status {
        Some(st) => st.has(WT_NEW) && !st.has(INDEX_NEW),
        None => false,
    }
}

/// Whether a file of this status is new as a whole.
pub fn whole_file_is_new(status: Option<FileStatus>) -> (new: bool)
    ensures
        new == is_new_file(status),
{
    match status {
        Some(st) => st.contains(WT_NEW) && !st.contains(INDEX_NEW),
        None => false,
    }
}

/// The line of the commit graph for a commit.
pub fn graph_line(id: &str, summary: Option<&str>) -> (line: String)
    ensures
        line@ == graph_line_of(
            id@,
            match summary {
                Some(text) => Some(text@),
                None => None,
            },
        ),
{
    proof {
        reveal_strlit("* ");
        reveal_strlit(" ");
        reveal_strlit("(no message)");
    }
    let len = id.unicode_len();
    let mut line = String::from_str("* ");
    if len > 7 {
        line.append(id.substring_char(0, 7));
    } else {
        line.append(id);
    }
    line.append(" ");
    match summary {
        Some(text) => {
            line.append(text);
        },
        None => {
            line.append("(no message)");
        },
    }
    assert(line@ =~= graph_line_of(
        id@,
        match summary {
            Some(text) => Some(text@),
            None => None,
        },
    ));
    line
}

/// The entries of a scan that are shown, with the new files of a second scan
/// behind them.
pub fn scan_entries(first: Vec<(String, FileStatus)>, second: Vec<(String, FileStatus)>) -> (found:
    Vec<(String, FileStatus)>)
    ensures
        found@ == with_new_files(shown_entries(first@), second@),
{
    let mut found: Vec<(String, FileStatus)> = Vec::new();
    let mut first = first;
    let mut second = second;
    let ghost all_first = first@;
    let ghost all_second = second@;
    let n = first.len();
    let mut i: usize = 0;
    assert(all_first.take(0) =~= Seq::empty());
    while i < n
        invariant
            i <= n,
            n == all_first.len(),
            first@.len() == n,
            forall|j: int| i <= j < n ==> first@[j] == all_first[j],
            found@ == shown_entries(all_first.take(i as int)),
        decreases n - i,
    {
        let status = first[i].1;
        proof {
            let next = all_first.take(i + 1);
            assert(next.drop_last() =~= all_first.take(i as int));
            assert(next.last() == all_first[i as int]);
        }
        if !status.contains(IGNORED) {
            let path = take_text(&mut first[i].0);
            found.push((path, status));
        }
        i += 1;
    }
    assert(all_first.take(n as int) =~= all_first);
    let m = second.len();
    let mut k: usize = 0;
    assert(all_second.take(0) =~= Seq::empty());
    while k < m
        invariant
            k <= m,
            m == all_second.len(),
            second@.len() == m,
            forall|j: int| k <= j < m ==> second@[j] == all_second[j],
            found@ == with_new_files(shown_entries(all_first), all_second.take(k as int)),
        decreases m - k,
    {
        let status = second[k].1;
        proof {
            let next = all_second.take(k + 1);
            assert(next.drop_last() =~= all_second.take(k as int));
            assert(next.last() == all_second[k as int]);
        }
        if status.contains(WT_NEW) && !holds_path(&found, &second[k].0) {
            let path = take_text(&mut second[k].0);
            found.push((path, status));
        }
        k += 1;
    }
    assert(all_second.take(m as int) =~= all_second);
    found
}

/// Takes the string out of its place and leaves an empty one there.
fn take_text(place: &mut String) -> (text: String)
    ensures
        text == *old(place),
{
    let mut text = String::new();
    core::mem::swap(&mut text, place);
    text
}

/// Whether one of `entries` bears `path`.
fn holds_path(entries: &Vec<(String, FileStatus)>, path: &String) -> (held: bool)
    ensures
        held == has_path(entries@, path@),
{
    let mut i: usize = 0;
    while i < entries.len()
        invariant
            i <= entries@.len(),
            forall|j: int| 0 <= j < i ==> (#[trigger] entries@[j]).0@ != path@,
        decreases entries@.len() - i,
    {
        if entries[i].0 == *path {
            return true;
        }
        i += 1;
    }
    false
}

impl DiffLine {
    /// The line of a patch with the given sign of origin, without the line
    /// feeds at its end.
    pub fn from_patch(origin: char, content: &str) -> (line: Self)
        ensures
            line.kind == patch_kind(origin, content@),
            line.content@ == without_line_end(content@),
    {
        let chars = to_chars(content);
        let len = chars.len();
        let kind = if len >= 2 && chars[0] == '@' && chars[1] == '@' {
            DiffLineKind::Header
        } else if origin == '+' {
            DiffLineKind::Add
        } else if origin == '-' {
            DiffLineKind::Delete
        } else if origin == 'H' || origin == 'F' {
            DiffLineKind::Header
        } else {
            DiffLineKind::Context
        };
        let mut end: usize = len;
        assert(content@.take(len as int) =~= content@);
        while end > 0 && chars[end - 1] == '\n'
            invariant
                end <= len,
                chars@ == content@,
                len == chars@.len(),
                without_line_end(content@) == without_line_end(content@.take(end as int)),
            decreases end,
        {
            proof {
                assert(content@.take(end as int).drop_last() =~= content@.take(end - 1));
            }
            end -= 1;
        }
        let text = String::from_str(content.substring_char(0, end));
        assert(content@.take(end as int) =~= content@.subrange(0, end as int));
        DiffLine { kind, content: text }
    }

    /// A line of a file that is new as a whole: an addition.
    pub fn added(content: &str) -> (line: Self)
        ensures
            line.kind == DiffLineKind::Add,
            line.content@ == content@,
    {
        DiffLine { kind: DiffLineKind::Add, content: String::from_str(content) }
    }
}

/// The state of the application.
pub struct App {
    pub current_tab: Tab,
    pub cur_dir: String,
    pub has_git: bool,
    pub current_branch: String,
    pub commit_graph: Vec<String>,
    pub commit_graph_scroll: usize,
    pub tree: FileTree,
    pub branches: Vec<String>,
    pub branch_state: Selection,
    pub selected_file: Option<String>,
    pub diff_content: Vec<DiffLine>,
    pub diff_scroll: usize,
    pub focused: bool,
    pub window_index: u32,
    pub show_commit_dialog: bool,
    pub commit_summary: String,
    pub commit_description: String,
    pub commit_focus_description: bool,
    pub commit_summary_cursor: usize,
    pub commit_description_cursor: usize,
    pub commit_summary_scroll: usize,
    pub commit_description_scroll: usize,
    pub commit_warning_open: bool,
    pub commit_success_open: bool,
    pub staged_count: u32,
    pub push_error: Option<String>,
    pub push_success_open: bool,
    pub push_in_progress: bool,
    pub branch_focused: bool,
    pub branch_tab: BranchTab,
    pub remotes: Vec<(String, String)>,
    pub remote_state: Selection,
    pub show_add_remote_dialog: bool,
    pub add_remote_name: String,
    pub add_remote_url: String,
    pub add_remote_focus_url: bool,
}

/// The state of the commit dialog as a value.
pub struct CommitView {
    pub open: bool,
    pub summary: Seq<char>,
    pub description: Seq<char>,
    pub focus_description: bool,
    pub summary_cursor: usize,
    pub description_cursor: usize,
    pub summary_scroll: usize,
    pub description_scroll: usize,
}

/// The state of the dialog that adds a remote, as a value.
pub struct RemoteDialogView {
    pub open: bool,
    pub name: Seq<char>,
    pub url: Seq<char>,
    pub focus_url: bool,
}

/// The selection after a step forward through a list of `len` entries: the
/// next entry, the first behind the last or where none was selected, none
/// where the list is empty.
pub open spec fn list_next(selected: Option<usize>, len: nat) -> Option<usize> {
    if len == 0 {
        None
    } else {
        match selected {
            Some(i) => if i + 1 < len {
                Some((i + 1) as usize)
            } else {
                Some(0)
            },
            None => Some(0),
        }
    }
}

/// The selection after a step back through a list of `len` entries: the
/// entry before, the last before the first or where none was selected, none
/// where the list is empty.
pub open spec fn list_previous(selected: Option<usize>, len: nat) -> Option<usize> {
    if len == 0 {
        None
    } else {
        match selected {
            Some(i) => if i == 0 {
                Some((len - 1) as usize)
            } else {
                Some((i - 1) as usize)
            },
            None => Some((len - 1) as usize),
        }
    }
}

/// A scroll position one line further down a list of `len` lines, as far as
/// its last line.
pub open spec fn scrolled_down(scroll: usize, len: nat) -> usize {
    if scroll + 1 < len {
        (scroll + 1) as usize
    } else {
        scroll
    }
}

/// A scroll position one line further up, as far as the first line.
pub open spec fn scrolled_up(scroll: usize) -> usize {
    if scroll > 0 {
        (scroll - 1) as usize
    } else {
        0
    }
}

/// The window after the current one: from the fourth back to the first.
pub open spec fn next_window(index: u32) -> u32 {
    if index == 3 || index == u32::MAX {
        0
    } else {
        (index + 1) as u32
    }
}

/// A path without a leading `./`.
pub open spec fn without_dot(path: Seq<char>) -> Seq<char> {
    if path.len() >= 2 && path[0] == '.' && path[1] == '/' {
        path.skip(2)
    } else {
        path
    }
}

/// The message of a commit: the summary alone, or the summary, an empty line
/// and the description.
pub open spec fn message_of(summary: Seq<char>, description: Seq<char>) -> Seq<char> {
    if description.len() == 0 {
        summary
    } else {
        summary + seq!['\n', '\n'] + description
    }
}

/// Moves a list selection one entry forward.
fn step_forward(state: &mut Selection, len: usize)
    ensures
        final(state).index == list_next(old(state).index, len as nat),
{
    if len == 0 {
        state.select(None);
    } else {
        let next: usize = match state.selected() {
            Some(i) => if i < len - 1 {
                i + 1
            } else {
                0
            },
            None => 0,
        };
        state.select(Some(next));
    }
}

/// Moves a list selection one entry back.
fn step_back(state: &mut Selection, len: usize)
    ensures
        final(state).index == list_previous(old(state).index, len as nat),
{
    if len == 0 {
        state.select(None);
    } else {
        let previous: usize = match state.selected() {
            Some(i) => if i == 0 {
                len - 1
            } else {
                i - 1
            },
            None => len - 1,
        };
        state.select(Some(previous));
    }
}

/// A path without a leading `./`.
pub fn strip_dot(path: &str) -> (stripped: String)
    ensures
        stripped@ == without_dot(path@),
{
    let len = path.unicode_len();
    if len >= 2 && path.get_char(0) == '.' && path.get_char(1) == '/' {
        String::from_str(path.substring_char(2, len))
    } else {
        String::from_str(path)
    }
}

impl App {
    /// The state at the start: no repository, no selection, all dialogs closed.
    pub fn new() -> (app: Self)
        ensures
            app.cur_dir@.len() == 0,
            !app.has_git,
            app.current_branch@ == seq!['-'],
            app.commit_graph@.len() == 0,
            app.commit_graph_scroll == 0,
            app.tree.consistent(),
            app.tree.items@.len() == 0,
            app.branches@.len() == 0,
            app.branch_state.index is None,
            app.selected_file is None,
            app.diff_content@.len() == 0,
            app.diff_scroll == 0,
            !app.focused,
            app.window_index == 0,
            app.commit_view() == (CommitView {
                open: false,
                summary: Seq::empty(),
                description: Seq::empty(),
                focus_description: false,
                summary_cursor: 0,
                description_cursor: 0,
                summary_scroll: 0,
                description_scroll: 0,
            }),
            !app.commit_warning_open,
            !app.commit_success_open,
            app.staged_count == 0,
            app.push_error is None,
            !app.push_success_open,
            !app.push_in_progress,
            !app.branch_focused,
            app.branch_tab == BranchTab::Local,
            app.remotes@.len() == 0,
            app.remote_state.index is None,
            app.remote_dialog() == (RemoteDialogView {
                open: false,
                name: Seq::empty(),
                url: Seq::empty(),
                focus_url: false,
            }),
    {
        proof {
            reveal_strlit("-");
            reveal_strlit(".");
        }
        let app = App {
            current_tab: Tab::Tree,
            cur_dir: String::new(),
            has_git: false,
            current_branch: String::from_str("-"),
            commit_graph: Vec::new(),
            commit_graph_scroll: 0,
            tree: FileTree::new(String::from_str(".")),
            branches: Vec::new(),
            branch_state: Selection::new(),
            selected_file: None,
            diff_content: Vec::new(),
            diff_scroll: 0,
            focused: false,
            window_index: 0,
            show_commit_dialog: false,
            commit_summary: String::new(),
            commit_description: String::new(),
            commit_focus_description: false,
            commit_summary_cursor: 0,
            commit_description_cursor: 0,
            commit_summary_scroll: 0,
            commit_description_scroll: 0,
            commit_warning_open: false,
            commit_success_open: false,
            staged_count: 0,
            push_error: None,
            push_success_open: false,
            push_in_progress: false,
            branch_focused: false,
            branch_tab: BranchTab::Local,
            remotes: Vec::new(),
            remote_state: Selection::new(),
            show_add_remote_dialog: false,
            add_remote_name: String::new(),
            add_remote_url: String::new(),
            add_remote_focus_url: false,
        };
        assert(app.current_branch@ =~= seq!['-']);
        app
    }

    /// Takes the selected row as the file to show, if it is a file: its path
    /// without a leading `./` becomes the selected file and the diff is
    /// scrolled to its top. Tells whether it did; the diff is then to be
    /// loaded.
    pub fn select_file(&mut self) -> (taken: bool)
        ensures
            taken == old(self).selection_is_file(),
            old(self).takes_file(final(self)),
    {
        let file = match self.tree.selected_row() {
            Some(row) => if row.2 {
                None
            } else {
                Some(strip_dot(row.0.as_str()))
            },
            None => None,
        };
        match file {
            Some(path) => {
                self.selected_file = Some(path);
                self.diff_scroll = 0;
                true
            },
            None => false,
        }
    }

    /// Empties the diff and names the file whose diff is to be loaded: the
    /// selected file, if there is a repository.
    pub fn load_diff(&mut self) -> (file: Option<String>)
        ensures
            final(self).diff_content@.len() == 0,
            final(self).same_but_diff(old(self)),
            match file {
                Some(path) => old(self).has_git && old(self).selected_file == Some(path),
                None => !old(self).has_git || old(self).selected_file is None,
            },
    {
        self.diff_content = Vec::new();
        if !self.has_git {
            return None;
        }
        match &self.selected_file {
            Some(path) => {
                let file = path.clone();
                Some(file)
            },
            None => None,
        }
    }

    /// All of the state but the diff is the same in both.
    pub open spec fn same_but_diff(&self, other: &App) -> bool {
        &&& self.current_tab == other.current_tab
        &&& self.cur_dir == other.cur_dir
        &&& self.has_git == other.has_git
        &&& self.current_branch == other.current_branch
        &&& self.commit_graph == other.commit_graph
        &&& self.commit_graph_scroll == other.commit_graph_scroll
        &&& self.tree == other.tree
        &&& self.branches == other.branches
        &&& self.branch_state == other.branch_state
        &&& self.selected_file == other.selected_file
        &&& self.diff_scroll == other.diff_scroll
        &&& self.focused == other.focused
        &&& self.window_index == other.window_index
        &&& self.commit_view() == other.commit_view()
        &&& self.commit_warning_open == other.commit_warning_open
        &&& self.commit_success_open == other.commit_success_open
        &&& self.staged_count == other.staged_count
        &&& self.push_error == other.push_error
        &&& self.push_success_open == other.push_success_open
        &&& self.push_in_progress == other.push_in_progress
        &&& self.branch_focused == other.branch_focused
        &&& self.branch_tab == other.branch_tab
        &&& self.remotes == other.remotes
        &&& self.remote_state == other.remote_state
        &&& self.remote_dialog() == other.remote_dialog()
    }

    /// Takes the current directory, if it could be read.
    pub fn get_path(&mut self, current: Option<String>)
        ensures
            match current {
                Some(dir) => *final(self) == (App { cur_dir: dir, ..*old(self) }),
                None => *final(self) == *old(self),
            },
    {
        match current {
            Some(dir) => {
                self.cur_dir = dir;
            },
            None => {},
        }
    }

    /// The selected row shows a file.
    pub open spec fn selection_is_file(&self) -> bool {
        match self.tree.state.index {
            Some(i) => i < self.tree.items@.len() && !self.tree.items@[i as int].2,
            None => false,
        }
    }

    /// What taking the selected row as the file to show makes of the state:
    /// where the row shows a file, its path without a leading `./` is the
    /// selected file and the diff is scrolled to its top; otherwise nothing
    /// changes.
    pub open spec fn takes_file(&self, after: &App) -> bool {
        if self.selection_is_file() {
            &&& match after.selected_file {
                Some(file) => file@ == without_dot(
                    self.tree.items@[self.tree.state.index->0 as int].0@,
                ),
                None => false,
            }
            &&& after.diff_scroll == 0
            &&& after.same_but_file(self)
        } else {
            *after == *self
        }
    }

    /// All of the state but the selected file and the scroll position of the
    /// diff is the same in both.
    pub open spec fn same_but_file(&self, other: &App) -> bool {
        &&& self.current_tab == other.current_tab
        &&& self.cur_dir == other.cur_dir
        &&& self.has_git == other.has_git
        &&& self.current_branch == other.current_branch
        &&& self.commit_graph == other.commit_graph
        &&& self.commit_graph_scroll == other.commit_graph_scroll
        &&& self.tree == other.tree
        &&& self.branches == other.branches
        &&& self.branch_state == other.branch_state
        &&& self.diff_content == other.diff_content
        &&& self.focused == other.focused
        &&& self.window_index == other.window_index
        &&& self.commit_view() == other.commit_view()
        &&& self.commit_warning_open == other.commit_warning_open
        &&& self.commit_success_open == other.commit_success_open
        &&& self.staged_count == other.staged_count
        &&& self.push_error == other.push_error
        &&& self.push_success_open == other.push_success_open
        &&& self.push_in_progress == other.push_in_progress
        &&& self.branch_focused == other.branch_focused
        &&& self.branch_tab == other.branch_tab
        &&& self.remotes == other.remotes
        &&& self.remote_state == other.remote_state
        &&& self.remote_dialog() == other.remote_dialog()
    }

    /// Scrolls the diff one line down, as far as its last line.
    pub fn diff_scroll_down(&mut self)
        ensures
            *final(self) == (App {
                diff_scroll: scrolled_down(old(self).diff_scroll, old(self).diff_content@.len()),
                ..*old(self)
            }),
    {
        let len = self.diff_content.len();
        if len > 0 && self.diff_scroll < len - 1 {
            self.diff_scroll += 1;
        }
    }

    /// Scrolls the diff one line up, as far as its first line.
    pub fn diff_scroll_up(&mut self)
        ensures
            *final(self) == (App { diff_scroll: scrolled_up(old(self).diff_scroll), ..*old(self) }),
    {
        if self.diff_scroll > 0 {
            self.diff_scroll -= 1;
        }
    }

    /// Selects the next branch, the first behind the last.
    pub fn branch_next(&mut self)
        ensures
            *final(self) == (App {
                branch_state: Selection {
                    index: list_next(old(self).branch_state.index, old(self).branches@.len()),
                },
                ..*old(self)
            }),
    {
        step_forward(&mut self.branch_state, self.branches.len());
    }

    /// Selects the branch before, the last before the first.
    pub fn branch_previous(&mut self)
        ensures
            *final(self) == (App {
                branch_state: Selection {
                    index: list_previous(old(self).branch_state.index, old(self).branches@.len()),
                },
                ..*old(self)
            }),
    {
        step_back(&mut self.branch_state, self.branches.len());
    }

    /// Scrolls the commit graph one line down, as far as its last line.
    pub fn commit_graph_scroll_down(&mut self)
        ensures
            *final(self) == (App {
                commit_graph_scroll: scrolled_down(
                    old(self).commit_graph_scroll,
                    old(self).commit_graph@.len(),
                ),
                ..*old(self)
            }),
    {
        let len = self.commit_graph.len();
        if len > 0 && self.commit_graph_scroll < len - 1 {
            self.commit_graph_scroll += 1;
        }
    }

    /// Scrolls the commit graph one line up, as far as its first line.
    pub fn commit_graph_scroll_up(&mut self)
        ensures
            *final(self) == (App {
                commit_graph_scroll: scrolled_up(old(self).commit_graph_scroll),
                ..*old(self)
            }),
    {
        if self.commit_graph_scroll > 0 {
            self.commit_graph_scroll -= 1;
        }
    }

    /// Brings the focus of the branch panel in line with the window: the
    /// panel has the focus exactly if the third window is the current one.
    pub fn sync_focus(&mut self)
        ensures
            *final(self) == (App { branch_focused: old(self).window_index == 2, ..*old(self) }),
    {
        self.branch_focused = self.window_index == 2;
    }

    /// Moves on by one window without turning back behind the fourth.
    pub fn skip_window(&mut self)
        ensures
            *final(self) == (App {
                window_index: if old(self).window_index == u32::MAX {
                    0
                } else {
                    (old(self).window_index + 1) as u32
                },
                ..*old(self)
            }),
    {
        if self.window_index == u32::MAX {
            self.window_index = 0;
        } else {
            self.window_index += 1;
        }
    }

    /// Moves on to the next window, from the fourth back to the first.
    pub fn increase_window(&mut self)
        ensures
            *final(self) == (App {
                window_index: next_window(old(self).window_index),
                ..*old(self)
            }),
    {
        if self.window_index == 3 || self.window_index == u32::MAX {
            self.window_index = 0;
        } else {
            self.window_index += 1;
        }
    }

    /// Notes whether the current directory holds a repository. Where it holds
    /// none, the branch is shown as `-` and the commit graph is emptied.
    pub fn scan_git(&mut self, found: bool)
        ensures
            final(self).has_git == found,
            found ==> *final(self) == (App { has_git: true, ..*old(self) }),
            !found ==> {
                &&& final(self).current_branch@ == seq!['-']
                &&& final(self).commit_graph@.len() == 0
                &&& final(self).commit_graph_scroll == old(self).commit_graph_scroll
                &&& final(self).same_but_repository(old(self))
            },
    {
        if found {
            self.has_git = true;
        } else {
            proof {
                reveal_strlit("-");
            }
            self.has_git = false;
            self.current_branch = String::from_str("-");
            self.commit_graph.clear();
            assert(self.current_branch@ =~= seq!['-']);
        }
    }

    /// All of the state but what is known of the repository (whether there is
    /// one, its branch, its commit graph) is the same in both.
    pub open spec fn same_but_repository(&self, other: &App) -> bool {
        &&& self.current_tab == other.current_tab
        &&& self.cur_dir == other.cur_dir
        &&& self.tree == other.tree
        &&& self.branches == other.branches
        &&& self.branch_state == other.branch_state
        &&& self.selected_file == other.selected_file
        &&& self.diff_content == other.diff_content
        &&& self.diff_scroll == other.diff_scroll
        &&& self.focused == other.focused
        &&& self.window_index == other.window_index
        &&& self.commit_view() == other.commit_view()
        &&& self.commit_warning_open == other.commit_warning_open
        &&& self.commit_success_open == other.commit_success_open
        &&& self.staged_count == other.staged_count
        &&& self.push_error == other.push_error
        &&& self.push_success_open == other.push_success_open
        &&& self.push_in_progress == other.push_in_progress
        &&& self.branch_focused == other.branch_focused
        &&& self.branch_tab == other.branch_tab
        &&& self.remotes == other.remotes
        &&& self.remote_state == other.remote_state
        &&& self.remote_dialog() == other.remote_dialog()
    }

    /// Takes the name of the branch that is checked out: `-` without a
    /// repository, else the name that was read, or `detached` where none was.
    pub fn refresh_current_branch(&mut self, head: Option<String>)
        ensures
            final(self).current_branch@ == if !old(self).has_git {
                seq!['-']
            } else {
                match head {
                    Some(name) => name@,
                    None => seq!['d', 'e', 't', 'a', 'c', 'h', 'e', 'd'],
                }
            },
            final(self).has_git == old(self).has_git,
            final(self).commit_graph == old(self).commit_graph,
            final(self).commit_graph_scroll == old(self).commit_graph_scroll,
            final(self).same_but_repository(old(self)),
    {
        proof {
            reveal_strlit("-");
            reveal_strlit("detached");
        }
        if !self.has_git {
            self.current_branch = String::from_str("-");
            assert(self.current_branch@ =~= seq!['-']);
        } else {
            match head {
                Some(name) => {
                    self.current_branch = name;
                },
                None => {
                    self.current_branch = String::from_str("detached");
                    assert(self.current_branch@ =~= seq!['d', 'e', 't', 'a', 'c', 'h', 'e', 'd']);
                },
            }
        }
    }

    /// Takes the lines of the commit graph that were read, none without a
    /// repository, and scrolls to the top.
    pub fn refresh_commit_graph(&mut self, lines: Vec<String>)
        ensures
            final(self).commit_graph@ == if old(self).has_git {
                lines@
            } else {
                Seq::<String>::empty()
            },
            final(self).commit_graph_scroll == 0,
            final(self).has_git == old(self).has_git,
            final(self).current_branch == old(self).current_branch,
            final(self).same_but_repository(old(self)),
    {
        if self.has_git {
            self.commit_graph = lines;
        } else {
            self.commit_graph.clear();
        }
        self.commit_graph_scroll = 0;
    }

    /// Opens the commit dialog, empty, with the summary in focus.
    pub fn open_commit_dialog(&mut self)
        ensures
            final(self).commit_view() == (CommitView {
                open: true,
                summary: Seq::empty(),
                description: Seq::empty(),
                focus_description: false,
                summary_cursor: 0,
                description_cursor: 0,
                summary_scroll: 0,
                description_scroll: 0,
            }),
            final(self).same_but_commit(old(self)),
    {
        self.show_commit_dialog = true;
        self.reset_commit_dialog();
    }

    /// Closes the commit dialog and empties it.
    pub fn close_commit_dialog(&mut self)
        ensures
            final(self).commit_view() == (CommitView {
                open: false,
                summary: Seq::empty(),
                description: Seq::empty(),
                focus_description: false,
                summary_cursor: 0,
                description_cursor: 0,
                summary_scroll: 0,
                description_scroll: 0,
            }),
            final(self).same_but_commit(old(self)),
    {
        self.show_commit_dialog = false;
        self.reset_commit_dialog();
    }

    /// Empties the commit dialog.
    fn reset_commit_dialog(&mut self)
        ensures
            final(self).commit_view() == (CommitView {
                open: old(self).show_commit_dialog,
                summary: Seq::empty(),
                description: Seq::empty(),
                focus_description: false,
                summary_cursor: 0,
                description_cursor: 0,
                summary_scroll: 0,
                description_scroll: 0,
            }),
            final(self).same_but_commit(old(self)),
    {
        self.commit_summary = String::new();
        self.commit_description = String::new();
        self.commit_focus_description = false;
        self.commit_summary_cursor = 0;
        self.commit_description_cursor = 0;
        self.commit_summary_scroll = 0;
        self.commit_description_scroll = 0;
    }

    /// The text of the commit dialog that has the focus.
    pub open spec fn active_text(&self) -> Seq<char> {
        if self.commit_focus_description {
            self.commit_description@
        } else {
            self.commit_summary@
        }
    }

    /// The cursor in the text that has the focus, counted in characters.
    pub open spec fn active_cursor(&self) -> usize {
        if self.commit_focus_description {
            self.commit_description_cursor
        } else {
            self.commit_summary_cursor
        }
    }

    /// The commit dialog with the text in focus and its cursor replaced.
    pub open spec fn commit_with(&self, text: Seq<char>, cursor: usize) -> CommitView {
        if self.commit_focus_description {
            CommitView { description: text, description_cursor: cursor, ..self.commit_view() }
        } else {
            CommitView { summary: text, summary_cursor: cursor, ..self.commit_view() }
        }
    }

    /// Puts the text in focus and its cursor in place.
    fn set_active(&mut self, text: String, cursor: usize)
        ensures
            final(self).commit_view() == old(self).commit_with(text@, cursor),
            final(self).same_but_commit(old(self)),
    {
        if self.commit_focus_description {
            self.commit_description = text;
            self.commit_description_cursor = cursor;
        } else {
            self.commit_summary = text;
            self.commit_summary_cursor = cursor;
        }
    }

    /// Moves the cursor of the text in focus.
    fn set_active_cursor(&mut self, cursor: usize)
        ensures
            *final(self) == if old(self).commit_focus_description {
                App { commit_description_cursor: cursor, ..*old(self) }
            } else {
                App { commit_summary_cursor: cursor, ..*old(self) }
            },
    {
        if self.commit_focus_description {
            self.commit_description_cursor = cursor;
        } else {
            self.commit_summary_cursor = cursor;
        }
    }

    /// The length of the text in focus and its cursor, brought back into the text.
    fn active_place(&self) -> (place: (usize, usize))
        ensures
            place.0 == self.active_text().len(),
            place.1 == clamped(self.active_cursor(), self.active_text().len()),
    {
        let (len, cursor) = if self.commit_focus_description {
            (self.commit_description.as_str().unicode_len(), self.commit_description_cursor)
        } else {
            (self.commit_summary.as_str().unicode_len(), self.commit_summary_cursor)
        };
        if cursor <= len {
            (len, cursor)
        } else {
            (len, len)
        }
    }

    /// Types `c` at the cursor of the text in focus; the cursor moves behind it.
    pub fn commit_message_insert(&mut self, c: char)
        ensures
            ({
                let text = old(self).active_text();
                let at = clamped(old(self).active_cursor(), text.len());
                final(self).commit_view() == old(self).commit_with(
                    with_char(text, at as int, c),
                    (at + 1) as usize,
                )
            }),
            final(self).same_but_commit(old(self)),
    {
        let (len, at) = self.active_place();
        let edited = if self.commit_focus_description {
            insert_char(self.commit_description.as_str(), at, c)
        } else {
            insert_char(self.commit_summary.as_str(), at, c)
        };
        let grown = edited.as_str().unicode_len();
        assert(grown == len + 1);
        self.set_active(edited, at + 1);
    }

    /// Removes the character before the cursor of the text in focus; the
    /// cursor moves back by one. At the start of the text nothing changes.
    pub fn commit_message_backspace(&mut self)
        ensures
            ({
                let text = old(self).active_text();
                let at = clamped(old(self).active_cursor(), text.len());
                if at == 0 {
                    *final(self) == *old(self)
                } else {
                    final(self).commit_view() == old(self).commit_with(
                        without_char(text, at - 1),
                        (at - 1) as usize,
                    )
                }
            }),
            final(self).same_but_commit(old(self)),
    {
        let (len, at) = self.active_place();
        if at == 0 {
            return;
        }
        let edited = if self.commit_focus_description {
            remove_char(self.commit_description.as_str(), at - 1)
        } else {
            remove_char(self.commit_summary.as_str(), at - 1)
        };
        self.set_active(edited, at - 1);
    }

    /// Removes the character at the cursor of the text in focus. At the end
    /// of the text nothing changes.
    pub fn commit_message_delete(&mut self)
        ensures
            ({
                let text = old(self).active_text();
                let at = old(self).active_cursor();
                if at >= text.len() {
                    *final(self) == *old(self)
                } else {
                    final(self).commit_view() == old(self).commit_with(
                        without_char(text, at as int),
                        at,
                    )
                }
            }),
            final(self).same_but_commit(old(self)),
    {
        let (len, at) = self.active_place();
        if at >= len {
            return;
        }
        let edited = if self.commit_focus_description {
            remove_char(self.commit_description.as_str(), at)
        } else {
            remove_char(self.commit_summary.as_str(), at)
        };
        self.set_active(edited, at);
    }

    /// Moves the cursor of the text in focus one character to the left, as
    /// far as the start.
    pub fn commit_cursor_left(&mut self)
        ensures
            ({
                let at = clamped(old(self).active_cursor(), old(self).active_text().len());
                if at == 0 {
                    *final(self) == *old(self)
                } else if old(self).commit_focus_description {
                    *final(self) == (App {
                        commit_description_cursor: (at - 1) as usize,
                        ..*old(self)
                    })
                } else {
                    *final(self) == (App { commit_summary_cursor: (at - 1) as usize, ..*old(self) })
                }
            }),
    {
        let (len, at) = self.active_place();
        if at == 0 {
            return;
        }
        self.set_active_cursor(at - 1);
    }

    /// Moves the cursor of the text in focus one character to the right, as
    /// far as the end.
    pub fn commit_cursor_right(&mut self)
        ensures
            ({
                let at = old(self).active_cursor();
                if at >= old(self).active_text().len() {
                    *final(self) == *old(self)
                } else if old(self).commit_focus_description {
                    *final(self) == (App {
                        commit_description_cursor: (at + 1) as usize,
                        ..*old(self)
                    })
                } else {
                    *final(self) == (App { commit_summary_cursor: (at + 1) as usize, ..*old(self) })
                }
            }),
    {
        let (len, at) = self.active_place();
        if at >= len {
            return;
        }
        self.set_active_cursor(at + 1);
    }

    /// Moves the cursor of the text in focus to the start.
    pub fn commit_cursor_home(&mut self)
        ensures
            *final(self) == if old(self).commit_focus_description {
                App { commit_description_cursor: 0, ..*old(self) }
            } else {
                App { commit_summary_cursor: 0, ..*old(self) }
            },
    {
        self.set_active_cursor(0);
    }

    /// Moves the cursor of the text in focus to the end.
    pub fn commit_cursor_end(&mut self)
        ensures
            *final(self) == if old(self).commit_focus_description {
                App {
                    commit_description_cursor: old(self).commit_description@.len() as usize,
                    ..*old(self)
                }
            } else {
                App {
                    commit_summary_cursor: old(self).commit_summary@.len() as usize,
                    ..*old(self)
                }
            },
    {
        let len = if self.commit_focus_description {
            self.commit_description.as_str().unicode_len()
        } else {
            self.commit_summary.as_str().unicode_len()
        };
        self.set_active_cursor(len);
    }

    /// Moves the focus from the summary to the description, or back.
    pub fn toggle_commit_focus(&mut self)
        ensures
            *final(self) == (App {
                commit_focus_description: !old(self).commit_focus_description,
                ..*old(self)
            }),
    {
        self.commit_focus_description = !self.commit_focus_description;
    }

    /// The message of the commit that the dialog describes.
    pub fn commit_message(&self) -> (message: String)
        ensures
            message@ == message_of(self.commit_summary@, self.commit_description@),
    {
        if self.commit_description.as_str().is_empty() {
            self.commit_summary.clone()
        } else {
            proof {
                reveal_strlit("\n\n");
            }
            let mut message = self.commit_summary.clone();
            message.append("\n\n");
            message.append(self.commit_description.as_str());
            assert(message@ =~= message_of(self.commit_summary@, self.commit_description@));
            message
        }
    }

    /// Notes that a file was staged.
    pub fn file_staged(&mut self)
        ensures
            *final(self) == (App {
                staged_count: if old(self).staged_count < u32::MAX {
                    (old(self).staged_count + 1) as u32
                } else {
                    u32::MAX
                },
                ..*old(self)
            }),
    {
        if self.staged_count < u32::MAX {
            self.staged_count += 1;
        }
    }

    /// Notes that the staged files were committed: none is staged any more,
    /// the tree is empty under its root `.`, no file is selected, there is no
    /// diff, and the note of success is shown.
    pub fn commit_done(&mut self)
        ensures
            final(self).staged_count == 0,
            final(self).tree.consistent(),
            final(self).tree.items@.len() == 0,
            final(self).tree.root@ == (NodeView { expanded: true, ..fresh(seq!['.'], true) }),
            final(self).selected_file is None,
            final(self).diff_content@.len() == 0,
            final(self).commit_success_open,
            final(self).same_but_committed(old(self)),
    {
        proof {
            reveal_strlit(".");
        }
        let root = String::from_str(".");
        assert(root@ =~= seq!['.']);
        self.staged_count = 0;
        self.tree = FileTree::new(root);
        self.selected_file = None;
        self.diff_content = Vec::new();
        self.commit_success_open = true;
    }

    /// All of the state but what a commit changes (the count of staged files,
    /// the tree, the selected file, the diff, the note of success) is the
    /// same in both.
    pub open spec fn same_but_committed(&self, other: &App) -> bool {
        &&& self.current_tab == other.current_tab
        &&& self.cur_dir == other.cur_dir
        &&& self.has_git == other.has_git
        &&& self.current_branch == other.current_branch
        &&& self.commit_graph == other.commit_graph
        &&& self.commit_graph_scroll == other.commit_graph_scroll
        &&& self.branches == other.branches
        &&& self.branch_state == other.branch_state
        &&& self.diff_scroll == other.diff_scroll
        &&& self.focused == other.focused
        &&& self.window_index == other.window_index
        &&& self.commit_view() == other.commit_view()
        &&& self.commit_warning_open == other.commit_warning_open
        &&& self.push_error == other.push_error
        &&& self.push_success_open == other.push_success_open
        &&& self.push_in_progress == other.push_in_progress
        &&& self.branch_focused == other.branch_focused
        &&& self.branch_tab == other.branch_tab
        &&& self.remotes == other.remotes
        &&& self.remote_state == other.remote_state
        &&& self.remote_dialog() == other.remote_dialog()
    }

    /// Notes that a push begins, unless one is under way. Tells whether one
    /// is to be started.
    pub fn start_push(&mut self) -> (start: bool)
        ensures
            start == !old(self).push_in_progress,
            *final(self) == (App { push_in_progress: true, ..*old(self) }),
    {
        if self.push_in_progress {
            return false;
        }
        self.push_in_progress = true;
        true
    }

    /// Takes the outcome of the push, if it has arrived: the push is over,
    /// and its success or its error is shown.
    pub fn check_push_result(&mut self, outcome: Option<Result<(), String>>)
        ensures
            match outcome {
                None => *final(self) == *old(self),
                Some(Ok(_)) => *final(self) == (App {
                    push_in_progress: false,
                    push_success_open: true,
                    ..*old(self)
                }),
                Some(Err(error)) => *final(self) == (App {
                    push_in_progress: false,
                    push_error: Some(error),
                    ..*old(self)
                }),
            },
    {
        match outcome {
            None => {},
            Some(result) => {
                self.push_in_progress = false;
                match result {
                    Ok(_) => {
                        self.push_success_open = true;
                    },
                    Err(error) => {
                        self.push_error = Some(error);
                    },
                }
            },
        }
    }

    /// Moves from the local branches to the remotes, or back.
    pub fn branch_tab_toggle(&mut self)
        ensures
            *final(self) == (App {
                branch_tab: match old(self).branch_tab {
                    BranchTab::Local => BranchTab::Remote,
                    BranchTab::Remote => BranchTab::Local,
                },
                ..*old(self)
            }),
    {
        self.branch_tab = match self.branch_tab {
            BranchTab::Local => BranchTab::Remote,
            BranchTab::Remote => BranchTab::Local,
        };
    }

    /// Takes the remotes that were read, none without a repository. Where
    /// there are remotes and none is selected, the first is selected.
    pub fn load_remotes(&mut self, found: Vec<(String, String)>)
        ensures
            final(self).remotes@ == if old(self).has_git {
                found@
            } else {
                Seq::<(String, String)>::empty()
            },
            final(self).remote_state.index == if final(self).remotes@.len() > 0 && old(
                self,
            ).remote_state.index is None {
                Some(0usize)
            } else {
                old(self).remote_state.index
            },
            final(self).same_but_remotes(old(self)),
    {
        if self.has_git {
            self.remotes = found;
        } else {
            self.remotes = Vec::new();
        }
        if self.remotes.len() > 0 && self.remote_state.selected().is_none() {
            self.remote_state.select(Some(0));
        }
    }

    /// All of the state but the remotes and their selection is the same in both.
    pub open spec fn same_but_remotes(&self, other: &App) -> bool {
        &&& self.current_tab == other.current_tab
        &&& self.cur_dir == other.cur_dir
        &&& self.has_git == other.has_git
        &&& self.current_branch == other.current_branch
        &&& self.commit_graph == other.commit_graph
        &&& self.commit_graph_scroll == other.commit_graph_scroll
        &&& self.tree == other.tree
        &&& self.branches == other.branches
        &&& self.branch_state == other.branch_state
        &&& self.selected_file == other.selected_file
        &&& self.diff_content == other.diff_content
        &&& self.diff_scroll == other.diff_scroll
        &&& self.focused == other.focused
        &&& self.window_index == other.window_index
        &&& self.commit_view() == other.commit_view()
        &&& self.commit_warning_open == other.commit_warning_open
        &&& self.commit_success_open == other.commit_success_open
        &&& self.staged_count == other.staged_count
        &&& self.push_error == other.push_error
        &&& self.push_success_open == other.push_success_open
        &&& self.push_in_progress == other.push_in_progress
        &&& self.branch_focused == other.branch_focused
        &&& self.branch_tab == other.branch_tab
        &&& self.remote_dialog() == other.remote_dialog()
    }

    /// Selects the next remote, the first behind the last.
    pub fn remote_next(&mut self)
        ensures
            *final(self) == (App {
                remote_state: Selection {
                    index: list_next(old(self).remote_state.index, old(self).remotes@.len()),
                },
                ..*old(self)
            }),
    {
        step_forward(&mut self.remote_state, self.remotes.len());
    }

    /// Selects the remote before, the last before the first.
    pub fn remote_previous(&mut self)
        ensures
            *final(self) == (App {
                remote_state: Selection {
                    index: list_previous(old(self).remote_state.index, old(self).remotes@.len()),
                },
                ..*old(self)
            }),
    {
        step_back(&mut self.remote_state, self.remotes.len());
    }

    /// Opens the dialog that adds a remote, empty, with the name in focus.
    pub fn open_add_remote_dialog(&mut self)
        ensures
            final(self).remote_dialog() == (RemoteDialogView {
                open: true,
                name: Seq::empty(),
                url: Seq::empty(),
                focus_url: false,
            }),
            final(self).same_but_remote_dialog(old(self)),
    {
        self.show_add_remote_dialog = true;
        self.add_remote_name = String::new();
        self.add_remote_url = String::new();
        self.add_remote_focus_url = false;
    }

    /// Closes the dialog that adds a remote and empties it.
    pub fn close_add_remote_dialog(&mut self)
        ensures
            final(self).remote_dialog() == (RemoteDialogView {
                open: false,
                name: Seq::empty(),
                url: Seq::empty(),
                focus_url: false,
            }),
            final(self).same_but_remote_dialog(old(self)),
    {
        self.show_add_remote_dialog = false;
        self.add_remote_name = String::new();
        self.add_remote_url = String::new();
        self.add_remote_focus_url = false;
    }

    /// Types `c` at the end of the field in focus: the name or the address.
    pub fn add_remote_input_push(&mut self, c: char)
        ensures
            final(self).remote_dialog() == if old(self).add_remote_focus_url {
                RemoteDialogView {
                    url: old(self).add_remote_url@.push(c),
                    ..old(self).remote_dialog()
                }
            } else {
                RemoteDialogView {
                    name: old(self).add_remote_name@.push(c),
                    ..old(self).remote_dialog()
                }
            },
            final(self).same_but_remote_dialog(old(self)),
    {
        if self.add_remote_focus_url {
            self.add_remote_url = with_last(self.add_remote_url.as_str(), c);
        } else {
            self.add_remote_name = with_last(self.add_remote_name.as_str(), c);
        }
    }

    /// Removes the last character of the field in focus, if it has one.
    pub fn add_remote_input_pop(&mut self)
        ensures
            final(self).remote_dialog() == if old(self).add_remote_focus_url {
                RemoteDialogView {
                    url: if old(self).add_remote_url@.len() > 0 {
                        old(self).add_remote_url@.drop_last()
                    } else {
                        old(self).add_remote_url@
                    },
                    ..old(self).remote_dialog()
                }
            } else {
                RemoteDialogView {
                    name: if old(self).add_remote_name@.len() > 0 {
                        old(self).add_remote_name@.drop_last()
                    } else {
                        old(self).add_remote_name@
                    },
                    ..old(self).remote_dialog()
                }
            },
            final(self).same_but_remote_dialog(old(self)),
    {
        if self.add_remote_focus_url {
            self.add_remote_url = without_last(self.add_remote_url.as_str());
        } else {
            self.add_remote_name = without_last(self.add_remote_name.as_str());
        }
    }

    /// Whether the dialog names a remote that can be added: both the name
    /// and the address are filled in.
    pub fn confirm_add_remote(&self) -> (ready: bool)
        ensures
            ready == (self.add_remote_name@.len() > 0 && self.add_remote_url@.len() > 0),
    {
        !self.add_remote_name.as_str().is_empty() && !self.add_remote_url.as_str().is_empty()
    }

    /// The index and the name of the selected remote, if one of the remotes
    /// is selected.
    pub fn selected_remote(&self) -> (found: Option<(usize, String)>)
        ensures
            match found {
                Some((i, name)) => self.remote_state.index == Some(i) && i < self.remotes@.len()
                    && name@ == self.remotes@[i as int].0@,
                None => match self.remote_state.index {
                    Some(i) => i >= self.remotes@.len(),
                    None => true,
                },
            },
    {
        match self.remote_state.selected() {
            Some(i) => if i < self.remotes.len() {
                Some((i, self.remotes[i].0.clone()))
            } else {
                None
            },
            None => None,
        }
    }

    /// Puts the selection of the remotes right once the remote at `index` was
    /// removed and the remotes were read anew: on the same index, on the last
    /// remote where that lies behind them, on nothing where none is left.
    pub fn remove_selected_remote(&mut self, index: usize)
        ensures
            *final(self) == (App {
                remote_state: Selection {
                    index: if old(self).remotes@.len() == 0 {
                        None
                    } else if index < old(self).remotes@.len() {
                        Some(index)
                    } else {
                        Some((old(self).remotes@.len() - 1) as usize)
                    },
                },
                ..*old(self)
            }),
    {
        let len = self.remotes.len();
        if len == 0 {
            self.remote_state.select(None);
        } else if index < len {
            self.remote_state.select(Some(index));
        } else {
            self.remote_state.select(Some(len - 1));
        }
    }

    /// The state of the commit dialog.
    pub open spec fn commit_view(&self) -> CommitView {
        CommitView {
            open: self.show_commit_dialog,
            summary: self.commit_summary@,
            description: self.commit_description@,
            focus_description: self.commit_focus_description,
            summary_cursor: self.commit_summary_cursor,
            description_cursor: self.commit_description_cursor,
            summary_scroll: self.commit_summary_scroll,
            description_scroll: self.commit_description_scroll,
        }
    }

    /// The state of the dialog that adds a remote.
    pub open spec fn remote_dialog(&self) -> RemoteDialogView {
        RemoteDialogView {
            open: self.show_add_remote_dialog,
            name: self.add_remote_name@,
            url: self.add_remote_url@,
            focus_url: self.add_remote_focus_url,
        }
    }

    /// All of the state but the commit dialog is the same in both.
    pub open spec fn same_but_commit(&self, other: &App) -> bool {
        &&& self.current_tab == other.current_tab
        &&& self.cur_dir == other.cur_dir
        &&& self.has_git == other.has_git
        &&& self.current_branch == other.current_branch
        &&& self.commit_graph == other.commit_graph
        &&& self.commit_graph_scroll == other.commit_graph_scroll
        &&& self.tree == other.tree
        &&& self.branches == other.branches
        &&& self.branch_state == other.branch_state
        &&& self.selected_file == other.selected_file
        &&& self.diff_content == other.diff_content
        &&& self.diff_scroll == other.diff_scroll
        &&& self.focused == other.focused
        &&& self.window_index == other.window_index
        &&& self.commit_warning_open == other.commit_warning_open
        &&& self.commit_success_open == other.commit_success_open
        &&& self.staged_count == other.staged_count
        &&& self.push_error == other.push_error
        &&& self.push_success_open == other.push_success_open
        &&& self.push_in_progress == other.push_in_progress
        &&& self.branch_focused == other.branch_focused
        &&& self.branch_tab == other.branch_tab
        &&& self.remotes == other.remotes
        &&& self.remote_state == other.remote_state
        &&& self.show_add_remote_dialog == other.show_add_remote_dialog
        &&& self.add_remote_name == other.add_remote_name
        &&& self.add_remote_url == other.add_remote_url
        &&& self.add_remote_focus_url == other.add_remote_focus_url
    }

    /// All of the state but the dialog that adds a remote is the same in both.
    pub open spec fn same_but_remote_dialog(&self, other: &App) -> bool {
        &&& self.current_tab == other.current_tab
        &&& self.cur_dir == other.cur_dir
        &&& self.has_git == other.has_git
        &&& self.current_branch == other.current_branch
        &&& self.commit_graph == other.commit_graph
        &&& self.commit_graph_scroll == other.commit_graph_scroll
        &&& self.tree == other.tree
        &&& self.branches == other.branches
        &&& self.branch_state == other.branch_state
        &&& self.selected_file == other.selected_file
        &&& self.diff_content == other.diff_content
        &&& self.diff_scroll == other.diff_scroll
        &&& self.focused == other.focused
        &&& self.window_index == other.window_index
        &&& self.show_commit_dialog == other.show_commit_dialog
        &&& self.commit_summary == other.commit_summary
        &&& self.commit_description == other.commit_description
        &&& self.commit_focus_description == other.commit_focus_description
        &&& self.commit_summary_cursor == other.commit_summary_cursor
        &&& self.commit_description_cursor == other.commit_description_cursor
        &&& self.commit_summary_scroll == other.commit_summary_scroll
        &&& self.commit_description_scroll == other.commit_description_scroll
        &&& self.commit_warning_open == other.commit_warning_open
        &&& self.commit_success_open == other.commit_success_open
        &&& self.staged_count == other.staged_count
        &&& self.push_error == other.push_error
        &&& self.push_success_open == other.push_success_open
        &&& self.push_in_progress == other.push_in_progress
        &&& self.branch_focused == other.branch_focused
        &&& self.branch_tab == other.branch_tab
        &&& self.remotes == other.remotes
        &&& self.remote_state == other.remote_state
    }
}

} // verus!
