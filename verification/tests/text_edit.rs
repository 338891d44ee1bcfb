use expression_visualizer::text_edit::TextEdit;

#[test]
fn typing_and_backspacing_a_wide_character() {
    let mut edit = TextEdit::new();
    edit.insert_str("a\u{e9}");
    assert_eq!(edit.cursor, 3);
    assert!(edit.backspace());
    assert_eq!(edit.text, "a");
    assert_eq!(edit.cursor, 1);
}

#[test]
fn typing_happens_at_the_cursor() {
    let mut edit = TextEdit::new();
    edit.set_text("ac".to_string());
    assert_eq!(edit.cursor, 2);
    edit.move_left();
    edit.insert_str("b");
    assert_eq!(edit.text, "abc");
    assert_eq!(edit.parts(), ("ab", "c"));
    assert!(edit.delete());
    assert_eq!(edit.text, "ab");
    assert!(!edit.delete());
    edit.move_home();
    assert!(!edit.backspace());
    assert_eq!(edit.prev_boundary(), None);
    assert_eq!(edit.next_boundary(), Some(1));
    edit.move_right();
    assert_eq!(edit.cursor, 1);
    edit.move_to_end();
    assert_eq!(edit.next_boundary(), None);
    edit.clear();
    assert_eq!((edit.text.as_str(), edit.cursor), ("", 0));
}

#[test]
fn the_cursor_steps_over_wide_characters() {
    let mut edit = TextEdit::new();
    edit.set_text("\u{1F600}\u{e9}x".to_string());
    assert_eq!(edit.prev_boundary(), Some(6));
    edit.move_left();
    edit.move_left();
    assert_eq!(edit.cursor, 4);
    edit.move_left();
    assert_eq!(edit.cursor, 0);
    edit.move_left();
    assert_eq!(edit.cursor, 0);
    assert_eq!(edit.next_boundary(), Some(4));
}
