use sideterm_sidebar::sidebar_dialog::{boundary_at_or_after, step_back, step_forward, LineInput};

#[test]
fn insert_advances_cursor() {
    let mut input = LineInput::default();
    input.insert("he");
    input.insert("llo");
    assert_eq!(input.text(), "hello");
    assert_eq!(input.before(), "hello");
    assert_eq!(input.after(), "");
}

#[test]
fn backspace_removes_grapheme_before_cursor() {
    let mut input = LineInput::new("héllo".to_string());
    // Land the cursor between é and l, then remove é.
    input.move_left();
    input.move_left();
    input.move_left();
    input.backspace();
    assert_eq!(input.text(), "hllo");
    assert_eq!(input.before(), "h");
}

#[test]
fn backspace_at_start_is_noop() {
    let mut input = LineInput::new("ab".to_string());
    input.move_home();
    input.backspace();
    assert_eq!(input.text(), "ab");
    assert_eq!(input.before(), "");
}

#[test]
fn delete_removes_grapheme_after_cursor() {
    let mut input = LineInput::new("héllo".to_string());
    input.move_home();
    input.move_right();
    input.delete();
    assert_eq!(input.text(), "hllo");
    assert_eq!(input.after(), "llo");
}

#[test]
fn cursor_moves_are_grapheme_aware() {
    // Multi-byte + combining sequence: each move crosses a whole
    // grapheme, never a byte inside one.
    let mut input = LineInput::new("aé👍b".to_string());
    input.move_left();
    assert_eq!(input.before(), "aé👍");
    input.move_left();
    assert_eq!(input.before(), "aé");
    input.move_left();
    assert_eq!(input.before(), "a");
    input.move_left();
    assert_eq!(input.before(), "");
    // Clamp at the start
    input.move_left();
    assert_eq!(input.before(), "");
    input.move_end();
    assert_eq!(input.after(), "");
}

#[test]
fn insert_in_the_middle() {
    let mut input = LineInput::new("ac".to_string());
    input.move_left();
    input.insert("b");
    assert_eq!(input.text(), "abc");
    assert_eq!(input.before(), "ab");
}

#[test]
fn combining_sequence_is_one_grapheme() {
    // e followed by a combining acute accent
    let mut input = LineInput::new("xe\u{301}".to_string());
    input.backspace();
    assert_eq!(input.text(), "x");
    let mut input = LineInput::new("e\u{301}y".to_string());
    input.move_home();
    input.move_right();
    assert_eq!(input.before(), "e\u{301}");
    input.delete();
    assert_eq!(input.text(), "e\u{301}");
}

#[test]
fn delete_at_end_is_noop() {
    let mut input = LineInput::new("ab".to_string());
    input.delete();
    assert_eq!(input.text(), "ab");
    input.move_right();
    assert_eq!(input.before(), "ab");
}

#[test]
fn emoji_flag_moves_as_one() {
    let mut input = LineInput::new("\u{1f1e6}\u{1f1f9}!".to_string());
    input.move_home();
    input.move_right();
    assert_eq!(input.before(), "\u{1f1e6}\u{1f1f9}");
}

#[test]
fn insert_before_a_combining_mark_lands_after_the_cluster() {
    let mut input = LineInput::new("\u{301}x".to_string());
    input.move_home();
    input.insert("e");
    assert_eq!(input.text(), "e\u{301}x");
    assert_eq!(input.before(), "e\u{301}");
    assert_eq!(input.after(), "x");
}

#[test]
fn backspace_and_delete_remove_whole_clusters() {
    let mut input = LineInput::new("ae\u{301}b".to_string());
    input.move_left();
    input.backspace();
    assert_eq!(input.text(), "ab");
    assert_eq!(input.before(), "a");
    let mut input = LineInput::new("ae\u{301}b".to_string());
    input.move_home();
    input.move_right();
    input.delete();
    assert_eq!(input.text(), "ab");
    assert_eq!(input.after(), "b");
}

fn parts(v: &[&str]) -> Vec<String> {
    v.iter().map(|s| s.to_string()).collect()
}

#[test]
fn boundary_at_or_after_snaps_to_the_end_of_the_holding_cluster() {
    let p = parts(&["e\u{301}", "x"]);
    assert_eq!(boundary_at_or_after(&p, 0), 0);
    assert_eq!(boundary_at_or_after(&p, 1), 2);
    assert_eq!(boundary_at_or_after(&p, 2), 2);
    assert_eq!(boundary_at_or_after(&p, 3), 3);
    assert_eq!(boundary_at_or_after(&p, 9), 3);
}

#[test]
fn steps_cross_one_cluster() {
    assert_eq!(step_back(&parts(&["a", "e\u{301}"]), 3), 1);
    assert_eq!(step_back(&parts(&[]), 0), 0);
    assert_eq!(step_forward(&parts(&["e\u{301}", "x"]), 4), 6);
    assert_eq!(step_forward(&parts(&[]), 4), 4);
}
