//! The integer, text and path parts of configuration validation.
//!
//! Values that the configuration holds as floating-point numbers are checked by
//! the application; everything else that `Config::validate` decides is here.

use vstd::prelude::*;
use vstd::string::*;

use super::color::Color;

verus! {

/// The first configuration field that failed validation, with the requirement it broke.
#[derive(Debug, PartialEq, Eq)]
pub struct ValidationError {
    field: String,
    requirement: &'static str,
}

impl ValidationError {
    pub closed spec fn spec_field(&self) -> Seq<char> {
        self.field@
    }

    pub closed spec fn spec_requirement(&self) -> Seq<char> {
        self.requirement@
    }

    pub fn new(field: &str, requirement: &'static str) -> (error: Self)
        ensures
            error.spec_field() == field@,
            error.spec_requirement() == requirement@,
    {
        ValidationError { field: String::from_str(field), requirement }
    }

    /// The name of the field, such as `input.min_dots`.
    pub fn field(&self) -> (field: &str)
        ensures
            field@ == self.spec_field(),
    {
        self.field.as_str()
    }

    /// The requirement that the field broke.
    pub fn requirement(&self) -> (requirement: &'static str)
        ensures
            requirement@ == self.spec_requirement(),
    {
        self.requirement
    }

    /// The message shown to the user: the field, a space, and the requirement.
    pub fn to_string(&self) -> (message: String)
        ensures
            message@ == self.spec_field() + " "@ + self.spec_requirement(),
    {
        let mut message = String::from_str(self.field.as_str());
        message.append(" ");
        message.append(self.requirement);
        message
    }
}

/// The background section of the configuration.
#[derive(Clone, Debug)]
pub struct BackgroundConfig {
    pub capture_enabled: bool,
    pub blur_radius: u32,
    pub dim_color: Color,
}

impl Default for BackgroundConfig {
    /// Capture disabled, a blur radius of 24, and a dim color of `#00000052`.
    fn default() -> (config: Self)
        ensures
            !config.capture_enabled,
            config.blur_radius == 24,
            config.dim_color.spec_channels() == seq![0u8, 0u8, 0u8, 82u8],
    {
        BackgroundConfig {
            capture_enabled: false,
            blur_radius: 24,
            dim_color: Color::rgba(0, 0, 0, 82),
        }
    }
}

/// Whether `result` is the error for `field` with `requirement`.
pub open spec fn is_error_for(
    result: Result<(), ValidationError>,
    field: Seq<char>,
    requirement: Seq<char>,
) -> bool {
    result matches Err(error) && error.spec_field() == field && error.spec_requirement()
        == requirement
}

/// The blur radius accepts 0 through 64.
pub fn validate_blur_radius(blur_radius: u32) -> (result: Result<(), ValidationError>)
    ensures
        blur_radius <= 64 ==> result is Ok,
        blur_radius > 64 ==> is_error_for(
            result,
            "background.blur_radius"@,
            "must not exceed 64"@,
        ),
{
    if blur_radius > 64 {
        return Err(ValidationError::new("background.blur_radius", "must not exceed 64"));
    }
    Ok(())
}

/// An integer must lie in `minimum..=maximum`.
pub fn validate_usize(value: usize, minimum: usize, maximum: usize, field: &str) -> (result: Result<
    (),
    ValidationError,
>)
    ensures
        minimum <= value <= maximum ==> result is Ok,
        !(minimum <= value <= maximum) ==> is_error_for(
            result,
            field@,
            "is outside the allowed range"@,
        ),
{
    if minimum <= value && value <= maximum {
        Ok(())
    } else {
        Err(ValidationError::new(field, "is outside the allowed range"))
    }
}

/// A text must be non-empty and hold at most `max` characters.
pub fn validate_text(value: &str, field: &str, max: usize) -> (result: Result<(), ValidationError>)
    ensures
        value@.len() == 0 ==> is_error_for(result, field@, "must not be empty"@),
        value@.len() > max ==> is_error_for(result, field@, "is too long"@),
        0 < value@.len() <= max ==> result is Ok,
{
    let length = value.unicode_len();
    if length == 0 {
        Err(ValidationError::new(field, "must not be empty"))
    } else if length > max {
        Err(ValidationError::new(field, "is too long"))
    } else {
        Ok(())
    }
}

/// An optional font path, when given, must be non-empty and absolute (start with `/`).
pub fn validate_font_path(path: Option<&str>, field: &str) -> (result: Result<
    (),
    ValidationError,
>)
    ensures
        path is None ==> result is Ok,
        path matches Some(p) && p@.len() == 0 ==> is_error_for(
            result,
            field@,
            "must not be empty"@,
        ),
        path matches Some(p) && p@.len() > 0 && p@[0] != '/' ==> is_error_for(
            result,
            field@,
            "must be an absolute path"@,
        ),
        path matches Some(p) && p@.len() > 0 && p@[0] == '/' ==> result is Ok,
{
    match path {
        None => Ok(()),
        Some(path) => {
            if path.unicode_len() == 0 {
                Err(ValidationError::new(field, "must not be empty"))
            } else if path.get_char(0) != '/' {
                Err(ValidationError::new(field, "must be an absolute path"))
            } else {
                Ok(())
            }
        },
    }
}

/// The character limit accepts 1 through 64, the minimum number of dots 0 through
/// 64, and the minimum may not exceed the limit; the first broken rule is reported.
pub fn validate_input_limits(max_characters: usize, min_dots: usize) -> (result: Result<
    (),
    ValidationError,
>)
    ensures
        !(1 <= max_characters <= 64) ==> is_error_for(
            result,
            "input.max_characters"@,
            "is outside the allowed range"@,
        ),
        1 <= max_characters <= 64 && min_dots > 64 ==> is_error_for(
            result,
            "input.min_dots"@,
            "is outside the allowed range"@,
        ),
        1 <= max_characters <= 64 && min_dots <= 64 && min_dots > max_characters ==> is_error_for(
            result,
            "input.min_dots"@,
            "must not exceed input.max_characters"@,
        ),
        1 <= max_characters <= 64 && min_dots <= max_characters ==> result is Ok,
{
    validate_usize(max_characters, 1, 64, "input.max_characters")?;
    validate_usize(min_dots, 0, 64, "input.min_dots")?;
    if min_dots > max_characters {
        return Err(ValidationError::new("input.min_dots", "must not exceed input.max_characters"));
    }
    Ok(())
}

/// The feedback duration accepts at most 60000 milliseconds.
pub fn validate_feedback_duration(feedback_duration_ms: u64) -> (result: Result<
    (),
    ValidationError,
>)
    ensures
        feedback_duration_ms <= 60_000 ==> result is Ok,
        feedback_duration_ms > 60_000 ==> is_error_for(
            result,
            "input.feedback_duration_ms"@,
            "must not exceed 60000"@,
        ),
{
    if feedback_duration_ms > 60_000 {
        return Err(ValidationError::new("input.feedback_duration_ms", "must not exceed 60000"));
    }
    Ok(())
}

} // verus!
