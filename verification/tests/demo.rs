use luma::demo::{DemoInput, MAX_INPUT_LENGTH};

#[test]
fn input_length_is_bounded() {
    let mut app = DemoInput::new();

    app.push_text("a very long demo input");

    assert_eq!(app.input_length, MAX_INPUT_LENGTH);
}

#[test]
fn control_characters_are_ignored() {
    let mut app = DemoInput::new();

    app.push_text("a\nb\tc");

    assert_eq!(app.input_length, 3);
}

#[test]
fn enter_clears_and_shows_feedback_for_two_seconds() {
    let mut app = DemoInput::new();
    app.push_text("abc");
    app.backspace();
    assert_eq!(app.input_length, 2);
    app.submit(5_000_000_000);
    assert_eq!(app.input_length, 0);
    assert!(app.is_showing_feedback(5_000_000_000));
    assert!(app.is_showing_feedback(6_999_999_999));
    assert!(!app.is_showing_feedback(7_000_000_000));
    assert_eq!(app.repaint_interval(6_000_000_000), 50_000_000);
    assert_eq!(app.repaint_interval(8_000_000_000), 1_000_000_000);
    app.backspace();
    assert_eq!(app.input_length, 0);
}
