use luma::config::model::{
    validate_blur_radius, validate_feedback_duration, validate_font_path, validate_input_limits,
    validate_text, validate_usize,
};
use luma::config::{BackgroundConfig, Color, ValidationError};

#[test]
fn rejects_excessive_blur_radius() {
    let error = validate_blur_radius(65).expect_err("blur radius must remain bounded");

    assert_eq!(error.field(), "background.blur_radius");
    assert!(validate_blur_radius(64).is_ok());
    assert!(validate_blur_radius(0).is_ok());
}

#[test]
fn rejects_invalid_input_limits() {
    let error = validate_input_limits(4, 6).expect_err("minimum dots must fit the limit");

    assert_eq!(error.field(), "input.min_dots");
    assert!(validate_input_limits(12, 6).is_ok());
    assert_eq!(
        validate_input_limits(0, 0).expect_err("at least one character").field(),
        "input.max_characters"
    );
    assert_eq!(
        validate_input_limits(65, 6).expect_err("at most 64 characters").field(),
        "input.max_characters"
    );
    assert_eq!(
        validate_input_limits(64, 65).expect_err("at most 64 dots").field(),
        "input.min_dots"
    );
}

#[test]
fn rejects_relative_font_paths() {
    let error = validate_font_path(Some("fonts/clock.ttf"), "clock.hour_font_path")
        .expect_err("relative font paths are ambiguous");

    assert_eq!(error.field(), "clock.hour_font_path");
    assert_eq!(error.to_string(), "clock.hour_font_path must be an absolute path");
    assert!(validate_font_path(None, "clock.hour_font_path").is_ok());
    assert!(validate_font_path(Some("/usr/share/fonts/clock.ttf"), "clock.hour_font_path").is_ok());
    assert_eq!(
        validate_font_path(Some(""), "date.font_path")
            .expect_err("empty path")
            .to_string(),
        "date.font_path must not be empty"
    );
}

#[test]
fn text_fields_must_be_present_and_short() {
    assert!(validate_text("%H", "clock.hour_format", 128).is_ok());
    assert_eq!(
        validate_text("", "clock.hour_format", 128).expect_err("empty").to_string(),
        "clock.hour_format must not be empty"
    );
    assert_eq!(
        validate_text("ééé", "date.format", 2).expect_err("too long").to_string(),
        "date.format is too long"
    );
    assert!(validate_text("ééé", "date.format", 3).is_ok());
}

#[test]
fn integer_ranges_are_inclusive() {
    assert!(validate_usize(1, 1, 64, "input.max_characters").is_ok());
    assert!(validate_usize(64, 1, 64, "input.max_characters").is_ok());
    assert_eq!(
        validate_usize(0, 1, 64, "input.max_characters")
            .expect_err("below range")
            .to_string(),
        "input.max_characters is outside the allowed range"
    );
    assert!(validate_feedback_duration(60_000).is_ok());
    assert_eq!(
        validate_feedback_duration(60_001).expect_err("too long").field(),
        "input.feedback_duration_ms"
    );
}

#[test]
fn validation_errors_carry_field_and_requirement() {
    let error = ValidationError::new("input.width", "is outside the allowed range");
    assert_eq!(error.field(), "input.width");
    assert_eq!(error.requirement(), "is outside the allowed range");
    assert_eq!(error.to_string(), "input.width is outside the allowed range");
}

#[test]
fn background_defaults_are_conservative() {
    let background = BackgroundConfig::default();
    assert!(!background.capture_enabled);
    assert_eq!(background.blur_radius, 24);
    assert_eq!(background.dim_color, Color::rgba(0, 0, 0, 82));
}
