use luma::input::InputState;

#[test]
fn ignores_control_characters() {
    let mut input = InputState::new(8);

    input.push_text("a\nb\tc");

    assert_eq!(input.character_count(), 3);
}

#[test]
fn backspace_removes_a_whole_unicode_scalar() {
    let mut input = InputState::new(8);
    input.push_text("aé");

    input.backspace();

    assert_eq!(input.character_count(), 1);
    let attempt = input.submit().expect("input should contain one character");
    assert_eq!(attempt.as_bytes(), b"a");
}

#[test]
fn enforces_the_character_limit() {
    let mut input = InputState::new(2);

    input.push_text("abc");

    assert_eq!(input.character_count(), 2);
}

#[test]
fn submitting_moves_the_secret_and_resets_input() {
    let mut input = InputState::new(8);
    input.push_text("secret");

    let attempt = input.submit().expect("input should submit");

    assert_eq!(attempt.as_bytes(), b"secret");
    assert!(input.is_empty());
    assert_eq!(input.character_count(), 0);
}

#[test]
fn empty_input_does_not_submit() {
    assert!(InputState::new(8).submit().is_none());
}

#[test]
fn clear_removes_visible_input_state() {
    let mut input = InputState::new(8);
    input.push_text("secret");

    input.clear();

    assert!(input.is_empty());
}

#[test]
fn multi_byte_characters_count_once_and_encode_as_utf8() {
    let mut input = InputState::new(8);
    input.push_text("ö€😀");
    assert_eq!(input.character_count(), 3);
    input.backspace();
    input.backspace();
    assert_eq!(input.character_count(), 1);
    let attempt = input.submit().expect("one character left");
    assert_eq!(attempt.as_bytes(), "ö".as_bytes());
}

#[test]
fn backspace_on_empty_input_keeps_it_empty() {
    let mut input = InputState::new(8);
    input.backspace();
    assert!(input.is_empty());
    assert!(input.submit().is_none());
}

#[test]
fn later_text_is_ignored_once_the_limit_is_reached() {
    let mut input = InputState::new(3);
    input.push_text("ab");
    input.push_text("\u{7f}cd");
    assert_eq!(input.character_count(), 3);
    let attempt = input.submit().expect("three characters");
    assert_eq!(attempt.as_bytes(), b"abc");
}
