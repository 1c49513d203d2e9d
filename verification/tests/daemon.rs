use luma::daemon::{is_ready_line_text, ready_message};

#[test]
fn accepts_only_the_complete_ready_message() {
    assert!(is_ready_line_text("LUMA_LOCK_READY\n"));
    assert!(!is_ready_line_text("LUMA_LOCK\n"));
}

#[test]
fn rejects_eof_before_readiness() {
    assert!(!is_ready_line_text(""));
}

#[test]
fn ready_line_ignores_only_trailing_white_space() {
    assert_eq!(ready_message(), "LUMA_LOCK_READY");
    assert!(is_ready_line_text("LUMA_LOCK_READY"));
    assert!(is_ready_line_text("LUMA_LOCK_READY \r\n"));
    assert!(!is_ready_line_text(" LUMA_LOCK_READY"));
    assert!(!is_ready_line_text("LUMA_LOCK_READY!"));
    assert!(!is_ready_line_text(""));
}
