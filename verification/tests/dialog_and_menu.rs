use sideterm_sidebar::sidebar::SidebarEntry;
use sideterm_sidebar::sidebar_menu::menu_target_listed;
use sideterm_sidebar::command_injection::{injection_step, InjectStep};
use sideterm_sidebar::sidebar_dialog::{
    wrap_description, CardButton, DialogAction, DialogButton, DialogHit, DialogKey, DialogMods, DialogMouse,
    DialogOutcome, SidebarDialog, WRAP_COLS,
};
use sideterm_sidebar::sidebar_menu::{menu_action_at, menu_index, menu_label, SidebarMenuAction, MENU_LEN};

fn prompt(initial: Option<&str>) -> SidebarDialog {
    SidebarDialog::prompt(
        "Rename workspace".to_string(),
        "New name".to_string(),
        initial.map(|s| s.to_string()),
        "Save".to_string(),
    )
}

#[test]
fn prompt_starts_with_initial_value_and_cursor_at_end() {
    let d = prompt(Some("api"));
    let input = d.input().unwrap();
    assert_eq!(input.text(), "api");
    assert_eq!(input.after(), "");
    assert_eq!(d.title(), "Rename workspace");
    assert_eq!(d.confirm_label(), "Save");
    assert_eq!(d.description(), &["New name".to_string()][..]);
    let d = prompt(None);
    assert_eq!(d.input().unwrap().text(), "");
}

#[test]
fn prompt_keys_edit_and_finish() {
    let mut d = prompt(Some("ab"));
    assert_eq!(d.key_down(DialogKey::Char('c'), DialogMods::NoMods), DialogAction::Redraw);
    assert_eq!(d.key_down(DialogKey::Char('D'), DialogMods::Shift), DialogAction::Redraw);
    assert_eq!(d.input().unwrap().text(), "abcD");
    assert_eq!(d.key_down(DialogKey::Backspace, DialogMods::NoMods), DialogAction::Redraw);
    assert_eq!(d.key_down(DialogKey::Home, DialogMods::NoMods), DialogAction::Redraw);
    assert_eq!(d.key_down(DialogKey::Delete, DialogMods::NoMods), DialogAction::Redraw);
    assert_eq!(d.input().unwrap().text(), "bc");
    assert_eq!(d.key_down(DialogKey::Char('v'), DialogMods::Ctrl), DialogAction::Paste);
    assert_eq!(d.key_down(DialogKey::Char('x'), DialogMods::Ctrl), DialogAction::Nothing);
    assert_eq!(d.key_down(DialogKey::Other, DialogMods::NoMods), DialogAction::Nothing);
    assert_eq!(d.key_down(DialogKey::Enter, DialogMods::NoMods), DialogAction::Submit);
    assert_eq!(d.key_down(DialogKey::Escape, DialogMods::NoMods), DialogAction::Cancel);
    assert_eq!(d.input().unwrap().text(), "bc");
}

#[test]
fn finish_hands_out_the_outcome_once() {
    let mut d = prompt(Some("new"));
    assert_eq!(d.finish(true), Some(DialogOutcome::Prompt(Some("new".to_string()))));
    assert_eq!(d.finish(true), None);
    assert_eq!(d.finish(false), None);
    let mut d = prompt(Some("new"));
    assert_eq!(d.finish(false), Some(DialogOutcome::Prompt(None)));
    let mut c = SidebarDialog::confirm("Remove".into(), "Sure?".into(), "Remove".into());
    assert_eq!(c.finish(true), Some(DialogOutcome::Confirm(true)));
    assert_eq!(c.finish(false), None);
}

#[test]
fn confirm_keys() {
    let mut c = SidebarDialog::confirm("Remove".into(), "Sure?".into(), "Remove".into());
    assert!(c.input().is_none());
    for k in ['y', 'Y'] {
        assert_eq!(c.key_down(DialogKey::Char(k), DialogMods::NoMods), DialogAction::Submit);
    }
    for k in ['n', 'N'] {
        assert_eq!(c.key_down(DialogKey::Char(k), DialogMods::NoMods), DialogAction::Cancel);
    }
    assert_eq!(c.key_down(DialogKey::Enter, DialogMods::NoMods), DialogAction::Submit);
    assert_eq!(c.key_down(DialogKey::Escape, DialogMods::NoMods), DialogAction::Cancel);
    assert_eq!(c.key_down(DialogKey::Char('y'), DialogMods::Shift), DialogAction::Nothing);
    assert_eq!(c.key_down(DialogKey::Backspace, DialogMods::NoMods), DialogAction::Nothing);
}

#[test]
fn mouse_presses_and_hover() {
    let mut d = prompt(None);
    assert_eq!(
        d.mouse_event(DialogMouse::PressLeft, Some(DialogHit::Button(DialogButton::Confirm))),
        DialogAction::Submit
    );
    assert_eq!(
        d.mouse_event(DialogMouse::PressLeft, Some(DialogHit::Button(DialogButton::Cancel))),
        DialogAction::Cancel
    );
    assert_eq!(d.mouse_event(DialogMouse::PressLeft, Some(DialogHit::Card)), DialogAction::Nothing);
    assert_eq!(d.mouse_event(DialogMouse::PressLeft, None), DialogAction::Cancel);
    assert_eq!(d.mouse_event(DialogMouse::PressLeft, Some(DialogHit::Other(3))), DialogAction::Cancel);
    assert_eq!(d.mouse_event(DialogMouse::Move, Some(DialogHit::Card)), DialogAction::Redraw);
    assert_eq!(d.mouse_event(DialogMouse::Move, Some(DialogHit::Card)), DialogAction::Nothing);
    assert_eq!(d.mouse_event(DialogMouse::Move, None), DialogAction::Redraw);
    assert_eq!(d.mouse_event(DialogMouse::Other, Some(DialogHit::Card)), DialogAction::Nothing);
}

#[test]
fn paste_flattens_line_breaks() {
    let mut d = prompt(Some("ab"));
    d.key_down(DialogKey::LeftArrow, DialogMods::NoMods);
    d.insert_pasted("x\r\ny\nz");
    assert_eq!(d.input().unwrap().text(), "ax  y zb");
    assert_eq!(d.input().unwrap().before(), "ax  y z");
}

#[test]
fn descriptions_wrap_and_keep_line_breaks() {
    assert_eq!(wrap_description("one\ntwo"), vec!["one".to_string(), "two".to_string()]);
    assert_eq!(wrap_description("trailing   "), vec!["trailing".to_string()]);
    assert_eq!(wrap_description(""), vec!["".to_string()]);
    let long = "Set the directory that new tabs in this workspace start in";
    let lines = wrap_description(long);
    assert!(lines.len() > 1);
    assert!(lines.iter().all(|l| l.chars().count() <= WRAP_COLS));
    assert_eq!(lines.join(" "), long);
}

#[test]
fn menu_table_is_in_display_order() {
    assert_eq!(MENU_LEN, 7);
    assert_eq!(menu_action_at(0), Some(SidebarMenuAction::Rename));
    assert_eq!(menu_action_at(3), Some(SidebarMenuAction::SetDefaultProfile));
    assert_eq!(menu_action_at(6), Some(SidebarMenuAction::Remove));
    assert_eq!(menu_action_at(7), None);
    for i in 0..MENU_LEN {
        let a = menu_action_at(i).unwrap();
        assert_eq!(menu_index(a), i);
    }
    assert_eq!(menu_label(SidebarMenuAction::Rename), "Rename workspace");
    assert_eq!(menu_label(SidebarMenuAction::Remove), "Remove from list");
    assert_eq!(menu_label(SidebarMenuAction::MoveDown), "Move down");
}

#[test]
fn injection_waits_for_first_output() {
    assert_eq!(injection_step(5, false, 5, 10, 100), InjectStep::Wait);
    assert_eq!(injection_step(5, false, 6, 10, 100), InjectStep::Inject);
    assert_eq!(injection_step(5, false, 5, 100, 100), InjectStep::GiveUpTimeout);
    assert_eq!(injection_step(5, true, 6, 0, 100), InjectStep::GiveUpDead);
    // output seen just as the timeout expires still injects
    assert_eq!(injection_step(5, false, 9, 500, 100), InjectStep::Inject);
}

#[test]
fn menu_target_must_still_be_listed() {
    let entries = vec![SidebarEntry { name: "api".into(), tab_count: None, subtitle_lines: vec![] }];
    assert!(menu_target_listed(&entries, "api"));
    assert!(!menu_target_listed(&entries, "ap"));
    assert!(!menu_target_listed(&[], "api"));
}

#[test]
fn prompt_card_splits_the_field_at_the_caret() {
    let mut d = prompt(Some("abc"));
    d.key_down(DialogKey::LeftArrow, DialogMods::NoMods);
    let card = d.card();
    assert_eq!(card.title, "Rename workspace");
    assert_eq!(card.description, vec!["New name".to_string()]);
    assert_eq!(card.field, Some(("ab".to_string(), "c".to_string())));
    assert_eq!(
        card.buttons,
        vec![
            CardButton { which: DialogButton::Cancel, label: "Cancel".to_string(), primary: false },
            CardButton { which: DialogButton::Confirm, label: "Save".to_string(), primary: true },
        ]
    );
}

#[test]
fn confirm_card_has_no_field() {
    let d = SidebarDialog::confirm(
        "Close workspace".to_string(),
        "Close all tabs?".to_string(),
        "Close".to_string(),
    );
    let card = d.card();
    assert_eq!(card.field, None);
    assert_eq!(card.buttons.len(), 2);
    assert_eq!(card.buttons[1].label, "Close");
    assert!(card.buttons[1].primary);
}
