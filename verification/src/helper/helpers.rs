//! The icon and colour of a file status, and the frame of a dialog.

use vstd::prelude::*;
use vstd::string::StringExecFns;

verus! {

/// The kind of a dialog.
#[derive(Debug, Clone, Copy, PartialEq, Eq, Structural)]
pub enum DialogType {
    Warning,
    Error,
    Info,
    Success,
}

/// The colours in which statuses and dialogs are shown.
#[derive(Debug, Clone, Copy, PartialEq, Eq, Structural)]
pub enum Color {
    Green,
    Yellow,
    Red,
    Cyan,
    Magenta,
    White,
}

/// A dialog: its kind, its title, the lines it shows, and its size in cells.
#[derive(Debug, Clone)]
pub struct Dialog {
    pub dialog_type: DialogType,
    pub title: String,
    pub content: Vec<String>,
    pub width: u16,
    pub height: u16,
}

/// A rectangle of cells on the screen.
#[derive(Debug, Clone, Copy, PartialEq, Eq, Structural)]
pub struct Area {
    pub x: u16,
    pub y: u16,
    pub width: u16,
    pub height: u16,
}

/// The status of a file in the index and in the working tree, as a set of
/// flags held in the bits of a number.
#[derive(Debug, Clone, Copy, PartialEq, Eq, Structural)]
pub struct FileStatus {
    pub bits: u32,
}

/// The file is new in the index.
pub const INDEX_NEW: u32 = 0x1;

/// The file is modified in the index.
pub const INDEX_MODIFIED: u32 = 0x2;

/// The file is deleted in the index.
pub const INDEX_DELETED: u32 = 0x4;

/// The file is renamed in the index.
pub const INDEX_RENAMED: u32 = 0x8;

/// The file has another type in the index.
pub const INDEX_TYPECHANGE: u32 = 0x10;

/// The file is new in the working tree.
pub const WT_NEW: u32 = 0x80;

/// The file is modified in the working tree.
pub const WT_MODIFIED: u32 = 0x100;

/// The file is deleted in the working tree.
pub const WT_DELETED: u32 = 0x200;

/// The file has another type in the working tree.
pub const WT_TYPECHANGE: u32 = 0x400;

/// The file is renamed in the working tree.
pub const WT_RENAMED: u32 = 0x800;

/// The file is ignored.
pub const IGNORED: u32 = 0x4000;

/// All the flags of the index.
pub const STAGED: u32 = 0x1f;

impl FileStatus {
    /// The status with exactly the flags in `bits`.
    pub fn from_bits(bits: u32) -> (status: Self)
        ensures
            status.bits == bits,
    {
        FileStatus { bits }
    }

    /// All the flags in `flags` are set.
    pub open spec fn has(self, flags: u32) -> bool {
        self.bits & flags == flags
    }

    /// One of the flags in `flags` is set.
    pub open spec fn has_any(self, flags: u32) -> bool {
        self.bits & flags != 0
    }

    /// Whether all the flags in `flags` are set.
    pub fn contains(&self, flags: u32) -> (all: bool)
        ensures
            all == self.has(flags),
    {
        self.bits & flags == flags
    }

    /// Whether one of the flags in `flags` is set.
    pub fn intersects(&self, flags: u32) -> (any: bool)
        ensures
            any == self.has_any(flags),
    {
        self.bits & flags != 0
    }

    /// Whether the file is staged: one of the flags of the index is set.
    pub fn is_staged(&self) -> (staged: bool)
        ensures
            staged == self.has_any(STAGED),
            staged == (self.has(INDEX_NEW) || self.has(INDEX_MODIFIED) || self.has(INDEX_DELETED)
                || self.has(INDEX_RENAMED) || self.has(INDEX_TYPECHANGE)),
    {
        let bits = self.bits;
        assert((bits & 0x1f != 0) == (bits & 0x1 == 0x1 || bits & 0x2 == 0x2 || bits & 0x4 == 0x4
            || bits & 0x8 == 0x8 || bits & 0x10 == 0x10)) by (bit_vector);
        self.intersects(STAGED)
    }
}

/// The icon of a status, by the first that holds: staged `S`, modified `M`,
/// new `N`, deleted `D`, renamed `R`, of another type `T`; else `??`.
pub open spec fn icon_of(status: FileStatus) -> Seq<char> {
    if status.has_any(STAGED) {
        seq!['S']
    } else if status.has(WT_MODIFIED) {
        seq!['M']
    } else if status.has(WT_NEW) {
        seq!['N']
    } else if status.has(WT_DELETED) {
        seq!['D']
    } else if status.has(WT_RENAMED) {
        seq!['R']
    } else if status.has(WT_TYPECHANGE) {
        seq!['T']
    } else {
        seq!['?', '?']
    }
}

/// The colour of a status, by the first that holds: staged or new green,
/// modified yellow, deleted red, renamed cyan; else magenta.
pub open spec fn color_of(status: FileStatus) -> Color {
    if status.has_any(STAGED) || status.has(WT_NEW) {
        Color::Green
    } else if status.has(WT_MODIFIED) {
        Color::Yellow
    } else if status.has(WT_DELETED) {
        Color::Red
    } else if status.has(WT_RENAMED) {
        Color::Cyan
    } else {
        Color::Magenta
    }
}

/// The colour in which a dialog of a kind is drawn.
pub open spec fn dialog_color_of(kind: DialogType) -> Color {
    match kind {
        DialogType::Warning => Color::Yellow,
        DialogType::Error => Color::Red,
        DialogType::Info => Color::Cyan,
        DialogType::Success => Color::Green,
    }
}

/// The sign that opens the title of a dialog of a kind, with the blank behind it.
pub open spec fn dialog_icon_of(kind: DialogType) -> Seq<char> {
    match kind {
        DialogType::Warning => seq!['\u{26a0}', ' '],
        DialogType::Error => seq!['\u{2716}', ' '],
        DialogType::Info => seq!['\u{2139}', ' '],
        DialogType::Success => seq!['\u{2713}', ' '],
    }
}

/// The title line of a dialog: a blank, the sign of its kind, a blank, the
/// title, a blank.
pub open spec fn dialog_title_of(kind: DialogType, title: Seq<char>) -> Seq<char> {
    seq![' '] + dialog_icon_of(kind) + seq![' '] + title + seq![' ']
}

/// Where a dialog of `width` by `height` stands on a screen of `screen_width`
/// by `screen_height`: centred, and at the left or top edge where it is
/// larger than the screen.
pub open spec fn centered(screen_width: u16, screen_height: u16, width: u16, height: u16) -> Area {
    Area {
        x: (if screen_width >= width {
            (screen_width - width) / 2
        } else {
            0
        }) as u16,
        y: (if screen_height >= height {
            (screen_height - height) / 2
        } else {
            0
        }) as u16,
        width,
        height,
    }
}

/// The helper functions of the user interface.
#[derive(Debug, Clone, Copy)]
pub struct Helper;

impl Default for Helper {
    /// The helper; there is only one.
    fn default() -> (helper: Self)
        ensures
            helper == Helper,
    {
        Helper
    }
}

impl Helper {
    /// The icon that stands for a status.
    pub fn get_txt_icon(&self, st: FileStatus) -> (icon: &'static str)
        ensures
            icon@ == icon_of(st),
    {
        proof {
            reveal_strlit("S");
            reveal_strlit("M");
            reveal_strlit("N");
            reveal_strlit("D");
            reveal_strlit("R");
            reveal_strlit("T");
            reveal_strlit("??");
        }
        let icon = if st.is_staged() {
            "S"
        } else if st.contains(WT_MODIFIED) {
            "M"
        } else if st.contains(WT_NEW) {
            "N"
        } else if st.contains(WT_DELETED) {
            "D"
        } else if st.contains(WT_RENAMED) {
            "R"
        } else if st.contains(WT_TYPECHANGE) {
            "T"
        } else {
            "??"
        };
        assert(icon@ =~= icon_of(st));
        icon
    }

    /// The colour in which a status is shown.
    pub fn get_status_color(&self, st: FileStatus) -> (color: Color)
        ensures
            color == color_of(st),
    {
        if st.is_staged() {
            Color::Green
        } else if st.contains(WT_NEW) {
            Color::Green
        } else if st.contains(WT_MODIFIED) {
            Color::Yellow
        } else if st.contains(WT_DELETED) {
            Color::Red
        } else if st.contains(WT_RENAMED) {
            Color::Cyan
        } else {
            Color::Magenta
        }
    }

    /// The colour in which a dialog of a kind is drawn.
    pub fn dialog_color(&self, kind: DialogType) -> (color: Color)
        ensures
            color == dialog_color_of(kind),
    {
        match kind {
            DialogType::Warning => Color::Yellow,
            DialogType::Error => Color::Red,
            DialogType::Info => Color::Cyan,
            DialogType::Success => Color::Green,
        }
    }

    /// The sign that opens the title of a dialog of a kind.
    pub fn dialog_icon(&self, kind: DialogType) -> (icon: &'static str)
        ensures
            icon@ == dialog_icon_of(kind),
    {
        proof {
            reveal_strlit("\u{26a0} ");
            reveal_strlit("\u{2716} ");
            reveal_strlit("\u{2139} ");
            reveal_strlit("\u{2713} ");
        }
        let icon = match kind {
            DialogType::Warning => "\u{26a0} ",
            DialogType::Error => "\u{2716} ",
            DialogType::Info => "\u{2139} ",
            DialogType::Success => "\u{2713} ",
        };
        assert(icon@ =~= dialog_icon_of(kind));
        icon
    }

    /// The title line of a dialog.
    pub fn dialog_title(&self, d: &Dialog) -> (line: String)
        ensures
            line@ == dialog_title_of(d.dialog_type, d.title@),
    {
        proof {
            reveal_strlit(" ");
        }
        let mut line = String::from_str(" ");
        line.append(self.dialog_icon(d.dialog_type));
        line.append(" ");
        line.append(d.title.as_str());
        line.append(" ");
        assert(line@ =~= dialog_title_of(d.dialog_type, d.title@));
        line
    }

    /// Where a dialog stands on a screen of the given size.
    pub fn dialog_area(&self, screen_width: u16, screen_height: u16, d: &Dialog) -> (area: Area)
        ensures
            area == centered(screen_width, screen_height, d.width, d.height),
    {
        let x: u16 = if screen_width >= d.width {
            (screen_width - d.width) / 2
        } else {
            0
        };
        let y: u16 = if screen_height >= d.height {
            (screen_height - d.height) / 2
        } else {
            0
        };
        Area { x, y, width: d.width, height: d.height }
    }
}

} // verus!
