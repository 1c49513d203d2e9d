use luma::config::Color;

#[test]
fn parses_opaque_color() {
    assert_eq!(Color::from_str("#93e6be"), Ok(Color::rgb(147, 230, 190)));
}

#[test]
fn parses_color_with_alpha() {
    assert_eq!(Color::from_str("#00000052"), Ok(Color::rgba(0, 0, 0, 82)));
}

#[test]
fn rejects_invalid_color() {
    assert!(Color::from_str("93e6be").is_err());
    assert!(Color::from_str("#xyzxyz").is_err());
}

#[test]
fn rejects_wrong_lengths_and_accepts_upper_case() {
    assert!(Color::from_str("#12345").is_err());
    assert!(Color::from_str("#1234567").is_err());
    assert!(Color::from_str("#123456789").is_err());
    assert!(Color::from_str("").is_err());
    assert_eq!(Color::from_str("#FFA0B0"), Ok(Color::rgb(255, 160, 176)));
}

#[test]
fn channels_keep_the_constructed_values() {
    assert_eq!(Color::rgba(1, 2, 3, 4).channels(), [1, 2, 3, 4]);
    assert_eq!(Color::rgb(5, 6, 7).channels(), [5, 6, 7, 255]);
}

#[test]
fn parse_error_describes_the_expected_format() {
    let error = Color::from_str("red").expect_err("not a color");
    assert_eq!(error.to_string(), "expected #RRGGBB or #RRGGBBAA");
}

#[test]
fn rejects_sign_characters_in_channels() {
    assert!(Color::from_str("#+f+f+f").is_err());
    assert!(Color::from_str("#00+f00").is_err());
    assert!(Color::from_str("#000000+f").is_err());
}

#[test]
fn rejects_characters_outside_ascii() {
    assert!(Color::from_str("#aé345").is_err());
    assert!(Color::from_str("#é1234").is_err());
    assert!(Color::from_str("#123456é").is_err());
}

#[test]
fn colors_are_equal_exactly_when_their_channels_are() {
    assert_eq!(Color::rgba(1, 2, 3, 4), Color::rgba(1, 2, 3, 4));
    assert_ne!(Color::rgba(1, 2, 3, 4), Color::rgba(1, 2, 3, 5));
    assert_eq!(Color::rgb(9, 8, 7), Color::rgba(9, 8, 7, 255));
}
