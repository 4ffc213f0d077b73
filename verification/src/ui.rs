//! What the screen shows, as text: the label of a row, the visible part of
//! an input line, the name of the panel in focus, the sign and colour of a
//! line of a diff.

use crate::app::DiffLineKind;
use crate::helper::helpers::{color_of, icon_of, Color, FileStatus, Helper};
use crate::path::{name_of, name_start_of, to_chars};
use crate::text::clamped;
use vstd::prelude::*;
use vstd::string::{StrSliceExecFns, StringExecFns};

verus! {

/// The visible part of a line of input, cut at the cursor.
#[derive(Debug, Clone)]
pub struct InputView {
    /// What is visible before the cursor.
    pub before: String,
    /// The character under the cursor, or a blank where the cursor stands
    /// outside of what is visible.
    pub cursor: String,
    /// What is visible behind the cursor.
    pub after: String,
    /// All that is visible.
    pub full: String,
}

/// Two blanks for each level of depth.
pub open spec fn indent_of(depth: nat) -> Seq<char> {
    Seq::new(2 * depth, |i: int| ' ')
}

/// The label of a row: the indent and, for a directory, its name and a
/// slash; for a file, its icon, a blank, and its name.
pub open spec fn label_of(path: Seq<char>, depth: nat, is_dir: bool, icon: Seq<char>) -> Seq<char> {
    if is_dir {
        indent_of(depth) + name_of(path) + seq!['/']
    } else {
        indent_of(depth) + icon + seq![' '] + name_of(path)
    }
}

/// The scroll position that keeps the cursor inside a window of `width`
/// characters: the cursor where it stood before the window, the position
/// that shows it in the last place where it stood behind, else the position
/// as it is. A window without width leaves the position alone.
pub open spec fn scroll_for(cursor: nat, scroll: usize, width: usize) -> usize {
    if width == 0 {
        scroll
    } else if cursor < scroll {
        cursor as usize
    } else if cursor - scroll >= width {
        (cursor + 1 - width) as usize
    } else {
        scroll
    }
}

/// The smaller of two numbers.
pub open spec fn least(a: int, b: int) -> int {
    if a <= b {
        a
    } else {
        b
    }
}

/// Where the window that begins at `scroll` ends in a text of `len` characters.
pub open spec fn window_end(scroll: usize, width: usize, len: nat) -> int {
    least(scroll + width, len as int)
}

/// The name of the panel in focus.
pub open spec fn panel_name_of(focused: bool, window_index: u32) -> Seq<char> {
    if focused {
        seq!['F', 'o', 'c', 'u', 's', 'e', 'd']
    } else if window_index == 1 {
        seq!['C', 'o', 'm', 'm', 'i', 't', ' ', 'G', 'r', 'a', 'p', 'h']
    } else if window_index == 2 {
        seq!['B', 'r', 'a', 'n', 'c', 'h', 'e', 's']
    } else if window_index == 3 {
        seq!['D', 'i', 'f', 'f']
    } else {
        seq!['T', 'r', 'e', 'e']
    }
}

/// The sign that stands before a line of a diff.
pub open spec fn diff_prefix_of(kind: DiffLineKind) -> Seq<char> {
    match kind {
        DiffLineKind::Add => seq!['+', ' '],
        DiffLineKind::Delete => seq!['-', ' '],
        DiffLineKind::Header => Seq::empty(),
        DiffLineKind::Context => seq![' ', ' '],
    }
}

/// The colour of a line of a diff.
pub open spec fn diff_color_of(kind: DiffLineKind) -> Color {
    match kind {
        DiffLineKind::Add => Color::Green,
        DiffLineKind::Delete => Color::Red,
        DiffLineKind::Header => Color::Yellow,
        DiffLineKind::Context => Color::White,
    }
}

/// The title of the diff panel: the selected file behind a dash, or a note
/// that none is selected.
pub open spec fn diff_title_of(selected: Option<Seq<char>>) -> Seq<char> {
    seq!['D', 'i', 'f', 'f', ' ', '\u{2014}', ' '] + match selected {
        Some(file) => file,
        None => seq![
            'N', 'o', ' ', 'f', 'i', 'l', 'e', ' ', 's', 'e', 'l', 'e', 'c', 't', 'e', 'd',
        ],
    }
}

/// The number that the counter of a scrolled list shows: the line at the
/// top, counted from 1, or 0 for an empty list.
pub open spec fn counter_of(scroll: usize, len: nat) -> usize {
    if len == 0 {
        0
    } else if scroll < usize::MAX {
        (scroll + 1) as usize
    } else {
        scroll
    }
}

/// The icon and the colour of a file row: those of its status, or `??` in
/// white where no status is known.
pub fn file_mark(status: Option<FileStatus>) -> (mark: (&'static str, Color))
    ensures
        mark.0@ == match status {
            Some(st) => icon_of(st),
            None => seq!['?', '?'],
        },
        mark.1 == match status {
            Some(st) => color_of(st),
            None => Color::White,
        },
{
    match status {
        Some(st) => {
            let h = Helper;
            (h.get_txt_icon(st), h.get_status_color(st))
        },
        None => {
            proof {
                reveal_strlit("??");
            }
            let icon = "??";
            assert(icon@ =~= seq!['?', '?']);
            (icon, Color::White)
        },
    }
}

/// The title of the diff panel.
pub fn diff_title(selected: &Option<String>) -> (title: String)
    ensures
        title@ == diff_title_of(
            match selected {
                Some(file) => Some(file@),
                None => None,
            },
        ),
{
    proof {
        reveal_strlit("Diff \u{2014} ");
        reveal_strlit("No file selected");
    }
    let mut title = String::from_str("Diff \u{2014} ");
    match selected {
        Some(file) => {
            title.append(file.as_str());
        },
        None => {
            title.append("No file selected");
        },
    }
    assert(title@ =~= diff_title_of(
        match selected {
            Some(file) => Some(file@),
            None => None,
        },
    ));
    title
}

/// The number that the counter of a scrolled list shows.
pub fn counter(scroll: usize, len: usize) -> (shown: usize)
    ensures
        shown == counter_of(scroll, len as nat),
{
    if len == 0 {
        0
    } else if scroll < usize::MAX {
        scroll + 1
    } else {
        scroll
    }
}

/// The label of a row.
pub fn row_label(path: &str, depth: usize, is_dir: bool, icon: &str) -> (label: String)
    ensures
        label@ == label_of(path@, depth as nat, is_dir, icon@),
{
    proof {
        reveal_strlit("  ");
        reveal_strlit(" ");
        reveal_strlit("/");
    }
    let mut label = String::new();
    let mut i: usize = 0;
    assert(label@ =~= indent_of(0));
    while i < depth
        invariant
            i <= depth,
            label@ == indent_of(i as nat),
        decreases depth - i,
    {
        let ghost before = label@;
        label.append("  ");
        proof {
            reveal_strlit("  ");
            let two = "  "@;
            assert(two.len() == 2 && two[0] == ' ' && two[1] == ' ');
            assert(label@ == before + two);
            assert(label@.len() == 2 * (i + 1));
            assert forall|k: int| 0 <= k < label@.len() implies label@[k] == ' ' by {
                if k < before.len() {
                    assert(label@[k] == before[k]);
                } else {
                    assert(label@[k] == two[k - before.len()]);
                }
            }
            assert(label@ =~= indent_of((i + 1) as nat));
        }
        i += 1;
    }
    let chars = to_chars(path);
    let start = name_start_of(&chars);
    let name = path.substring_char(start, chars.len());
    assert(name@ =~= name_of(path@));
    if is_dir {
        label.append(name);
        label.append("/");
    } else {
        label.append(icon);
        label.append(" ");
        label.append(name);
    }
    assert(label@ =~= label_of(path@, depth as nat, is_dir, icon@));
    label
}

/// The visible part of a line of input in a window of `visible_width`
/// characters. The cursor counts characters and is taken as the end of the
/// text where it lies behind it. The scroll position is moved so that the
/// cursor is inside the window.
pub fn input_line_with_cursor(
    text: &str,
    cursor: usize,
    scroll: &mut usize,
    visible_width: usize,
) -> (view: InputView)
    ensures
        ({
            let len = text@.len();
            let at = clamped(cursor, len) as int;
            let start = least(*final(scroll) as int, len as int);
            let end = window_end(*final(scroll), visible_width, len);
            let cut = least(at, end);
            &&& *final(scroll) == scroll_for(at as nat, *old(scroll), visible_width)
            &&& start <= end
            &&& view.full@ == text@.subrange(start, end)
            &&& start <= cut ==> view.before@ == text@.subrange(start, cut)
            &&& start > cut ==> view.before@.len() == 0
            &&& start <= at < end ==> view.cursor@ == seq![text@[at]] && view.after@
                == text@.subrange(at + 1, end)
            &&& !(start <= at < end) ==> view.cursor@ == seq![' '] && view.after@.len() == 0
        }),
{
    proof {
        reveal_strlit(" ");
    }
    let len = text.unicode_len();
    let at: usize = if cursor <= len {
        cursor
    } else {
        len
    };
    if visible_width > 0 {
        if at < *scroll {
            *scroll = at;
        } else if at - *scroll >= visible_width {
            *scroll = at - visible_width + 1;
        }
    }
    let start: usize = if *scroll <= len {
        *scroll
    } else {
        len
    };
    let end: usize = if len - start <= visible_width {
        if *scroll <= len {
            len
        } else {
            start
        }
    } else {
        start + visible_width
    };
    let full = String::from_str(text.substring_char(start, end));
    let cut: usize = if at <= end {
        at
    } else {
        end
    };
    let before = if start <= cut {
        String::from_str(text.substring_char(start, cut))
    } else {
        String::new()
    };
    if start <= at && at < end {
        let under = String::from_str(text.substring_char(at, at + 1));
        let after = String::from_str(text.substring_char(at + 1, end));
        assert(under@ =~= seq![text@[at as int]]);
        InputView { before, cursor: under, after, full }
    } else {
        let blank = String::from_str(" ");
        assert(blank@ =~= seq![' ']);
        InputView { before, cursor: blank, after: String::new(), full }
    }
}

/// The name of the panel in focus.
pub fn panel_name(focused: bool, window_index: u32) -> (name: &'static str)
    ensures
        name@ == panel_name_of(focused, window_index),
{
    proof {
        reveal_strlit("Focused");
        reveal_strlit("Commit Graph");
        reveal_strlit("Branches");
        reveal_strlit("Diff");
        reveal_strlit("Tree");
    }
    let name = if focused {
        "Focused"
    } else if window_index == 1 {
        "Commit Graph"
    } else if window_index == 2 {
        "Branches"
    } else if window_index == 3 {
        "Diff"
    } else {
        "Tree"
    };
    assert(name@ =~= panel_name_of(focused, window_index));
    name
}

/// The sign that stands before a line of a diff.
pub fn diff_prefix(kind: DiffLineKind) -> (prefix: &'static str)
    ensures
        prefix@ == diff_prefix_of(kind),
{
    proof {
        reveal_strlit("+ ");
        reveal_strlit("- ");
        reveal_strlit("");
        reveal_strlit("  ");
    }
    let prefix = match kind {
        DiffLineKind::Add => "+ ",
        DiffLineKind::Delete => "- ",
        DiffLineKind::Header => "",
        DiffLineKind::Context => "  ",
    };
    assert(prefix@ =~= diff_prefix_of(kind));
    prefix
}

/// The colour of a line of a diff.
pub fn diff_color(kind: DiffLineKind) -> (color: Color)
    ensures
        color == diff_color_of(kind),
{
    match kind {
        DiffLineKind::Add => Color::Green,
        DiffLineKind::Delete => Color::Red,
        DiffLineKind::Header => Color::Yellow,
        DiffLineKind::Context => Color::White,
    }
}

} // verus!
