use fastgit::helper::helpers as flags;
use fastgit::helper::helpers::{Area, Color, Dialog, DialogType, FileStatus, Helper};
use git2::Status;

fn status(st: Status) -> FileStatus {
    FileStatus::from_bits(st.bits())
}

#[test]
fn get_txt_icon_index_new_is_staged() {
    let h = Helper;
    assert_eq!(h.get_txt_icon(status(Status::INDEX_NEW)), "S");
}

#[test]
fn get_txt_icon_index_modified_is_staged() {
    let h = Helper;
    assert_eq!(h.get_txt_icon(status(Status::INDEX_MODIFIED)), "S");
}

#[test]
fn get_txt_icon_index_deleted_is_staged() {
    let h = Helper;
    assert_eq!(h.get_txt_icon(status(Status::INDEX_DELETED)), "S");
}

#[test]
fn get_txt_icon_index_renamed_is_staged() {
    let h = Helper;
    assert_eq!(h.get_txt_icon(status(Status::INDEX_RENAMED)), "S");
}

#[test]
fn get_txt_icon_index_typechange_is_staged() {
    let h = Helper;
    assert_eq!(h.get_txt_icon(status(Status::INDEX_TYPECHANGE)), "S");
}

#[test]
fn get_txt_icon_wt_modified() {
    let h = Helper;
    assert_eq!(h.get_txt_icon(status(Status::WT_MODIFIED)), "M");
}

#[test]
fn get_txt_icon_wt_new() {
    let h = Helper;
    assert_eq!(h.get_txt_icon(status(Status::WT_NEW)), "N");
}

#[test]
fn get_txt_icon_wt_deleted() {
    let h = Helper;
    assert_eq!(h.get_txt_icon(status(Status::WT_DELETED)), "D");
}

#[test]
fn get_txt_icon_wt_renamed() {
    let h = Helper;
    assert_eq!(h.get_txt_icon(status(Status::WT_RENAMED)), "R");
}

#[test]
fn get_txt_icon_wt_typechange() {
    let h = Helper;
    assert_eq!(h.get_txt_icon(status(Status::WT_TYPECHANGE)), "T");
}

#[test]
fn get_txt_icon_unknown_returns_question_marks() {
    let h = Helper;
    assert_eq!(h.get_txt_icon(status(Status::CURRENT)), "??");
}

#[test]
fn get_status_color_index_new_is_green() {
    let h = Helper;
    assert_eq!(h.get_status_color(status(Status::INDEX_NEW)), Color::Green);
}

#[test]
fn get_status_color_index_modified_is_green() {
    let h = Helper;
    assert_eq!(h.get_status_color(status(Status::INDEX_MODIFIED)), Color::Green);
}

#[test]
fn get_status_color_wt_new_is_green() {
    let h = Helper;
    assert_eq!(h.get_status_color(status(Status::WT_NEW)), Color::Green);
}

#[test]
fn get_status_color_wt_modified_is_yellow() {
    let h = Helper;
    assert_eq!(h.get_status_color(status(Status::WT_MODIFIED)), Color::Yellow);
}

#[test]
fn get_status_color_wt_deleted_is_red() {
    let h = Helper;
    assert_eq!(h.get_status_color(status(Status::WT_DELETED)), Color::Red);
}

#[test]
fn get_status_color_wt_renamed_is_cyan() {
    let h = Helper;
    assert_eq!(h.get_status_color(status(Status::WT_RENAMED)), Color::Cyan);
}

#[test]
fn get_status_color_unknown_is_magenta() {
    let h = Helper;
    assert_eq!(h.get_status_color(status(Status::CURRENT)), Color::Magenta);
}

#[test]
fn dialog_type_partial_eq() {
    assert_eq!(DialogType::Warning, DialogType::Warning);
    assert_eq!(DialogType::Error, DialogType::Error);
    assert_eq!(DialogType::Info, DialogType::Info);
    assert_eq!(DialogType::Success, DialogType::Success);
    assert_ne!(DialogType::Warning, DialogType::Error);
    assert_ne!(DialogType::Info, DialogType::Success);
}

#[test]
fn status_flags_are_those_of_git() {
    assert_eq!(flags::INDEX_NEW, Status::INDEX_NEW.bits());
    assert_eq!(flags::INDEX_MODIFIED, Status::INDEX_MODIFIED.bits());
    assert_eq!(flags::INDEX_DELETED, Status::INDEX_DELETED.bits());
    assert_eq!(flags::INDEX_RENAMED, Status::INDEX_RENAMED.bits());
    assert_eq!(flags::INDEX_TYPECHANGE, Status::INDEX_TYPECHANGE.bits());
    assert_eq!(flags::WT_NEW, Status::WT_NEW.bits());
    assert_eq!(flags::WT_MODIFIED, Status::WT_MODIFIED.bits());
    assert_eq!(flags::WT_DELETED, Status::WT_DELETED.bits());
    assert_eq!(flags::WT_TYPECHANGE, Status::WT_TYPECHANGE.bits());
    assert_eq!(flags::WT_RENAMED, Status::WT_RENAMED.bits());
    assert_eq!(flags::IGNORED, Status::IGNORED.bits());
    let staged = Status::INDEX_NEW
        | Status::INDEX_MODIFIED
        | Status::INDEX_DELETED
        | Status::INDEX_RENAMED
        | Status::INDEX_TYPECHANGE;
    assert_eq!(flags::STAGED, staged.bits());
}

#[test]
fn status_contains_and_intersects_agree_with_git() {
    let both = Status::WT_MODIFIED | Status::INDEX_NEW;
    let st = status(both);
    assert_eq!(st.contains(Status::WT_MODIFIED.bits()), both.contains(Status::WT_MODIFIED));
    assert_eq!(st.contains(Status::WT_DELETED.bits()), both.contains(Status::WT_DELETED));
    let pair = Status::WT_MODIFIED | Status::WT_DELETED;
    assert_eq!(st.contains(pair.bits()), both.contains(pair));
    assert_eq!(st.intersects(pair.bits()), both.intersects(pair));
    assert!(st.is_staged());
    assert!(!status(Status::WT_NEW).is_staged());
}

#[test]
fn staged_icon_wins_over_working_tree_flags() {
    let h = Helper;
    let st = status(Status::WT_MODIFIED | Status::INDEX_MODIFIED);
    assert_eq!(h.get_txt_icon(st), "S");
    assert_eq!(h.get_status_color(st), Color::Green);
}

#[test]
fn modified_icon_wins_over_new_but_new_colour_wins_over_modified() {
    let h = Helper;
    let st = status(Status::WT_MODIFIED | Status::WT_NEW);
    assert_eq!(h.get_txt_icon(st), "M");
    assert_eq!(h.get_status_color(st), Color::Green);
}

#[test]
fn typechange_in_working_tree_is_magenta() {
    let h = Helper;
    assert_eq!(h.get_status_color(status(Status::WT_TYPECHANGE)), Color::Magenta);
}

fn dialog(kind: DialogType, width: u16, height: u16) -> Dialog {
    Dialog {
        dialog_type: kind,
        title: "Commit Failed".to_string(),
        content: vec!["No staged files found".to_string()],
        width,
        height,
    }
}

#[test]
fn dialog_area_is_centered() {
    let h = Helper;
    let area = h.dialog_area(100, 40, &dialog(DialogType::Warning, 60, 10));
    assert_eq!(area, Area { x: 20, y: 15, width: 60, height: 10 });
}

#[test]
fn dialog_area_larger_than_screen_starts_at_the_edge() {
    let h = Helper;
    let area = h.dialog_area(50, 8, &dialog(DialogType::Warning, 60, 10));
    assert_eq!(area, Area { x: 0, y: 0, width: 60, height: 10 });
}

#[test]
fn dialog_area_rounds_down() {
    let h = Helper;
    let area = h.dialog_area(81, 25, &dialog(DialogType::Info, 60, 10));
    assert_eq!(area.x, 10);
    assert_eq!(area.y, 7);
}

#[test]
fn dialog_colors_by_kind() {
    let h = Helper;
    assert_eq!(h.dialog_color(DialogType::Warning), Color::Yellow);
    assert_eq!(h.dialog_color(DialogType::Error), Color::Red);
    assert_eq!(h.dialog_color(DialogType::Info), Color::Cyan);
    assert_eq!(h.dialog_color(DialogType::Success), Color::Green);
}

#[test]
fn dialog_title_holds_icon_and_title() {
    let h = Helper;
    assert_eq!(h.dialog_title(&dialog(DialogType::Warning, 60, 10)), " \u{26a0}  Commit Failed ");
    assert_eq!(h.dialog_title(&dialog(DialogType::Error, 60, 10)), " \u{2716}  Commit Failed ");
    assert_eq!(h.dialog_title(&dialog(DialogType::Info, 60, 10)), " \u{2139}  Commit Failed ");
    assert_eq!(h.dialog_title(&dialog(DialogType::Success, 60, 10)), " \u{2713}  Commit Failed ");
}

#[test]
fn helper_default_is_the_helper() {
    let h = Helper::default();
    assert_eq!(h.get_txt_icon(FileStatus::from_bits(0)), "??");
}
