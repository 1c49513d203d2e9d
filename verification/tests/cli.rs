use luma::cli::{help, parse, Command};

fn arguments(values: &[&str]) -> Vec<String> {
    values.iter().map(|value| value.to_string()).collect()
}

#[test]
fn defaults_to_help_without_arguments() {
    assert_eq!(parse(Vec::new()), Ok(Command::Help));
}

#[test]
fn recognizes_demo_mode() {
    assert_eq!(parse(arguments(&["--demo"])), Ok(Command::Demo));
}

#[test]
fn rejects_unknown_arguments() {
    let error = parse(arguments(&["--lock"])).expect_err("--lock must not be available yet");

    assert!(error.to_string().contains("unknown argument `--lock`"));
}

#[test]
fn rejects_trailing_arguments() {
    let error = parse(arguments(&["--demo", "extra"]))
        .expect_err("demo mode accepts no trailing arguments");

    assert!(error.to_string().contains("unknown argument `extra`"));
}

#[test]
fn recognizes_help_and_version_flags() {
    assert_eq!(parse(arguments(&["-h"])), Ok(Command::Help));
    assert_eq!(parse(arguments(&["--help"])), Ok(Command::Help));
    assert_eq!(parse(arguments(&["-V"])), Ok(Command::Version));
    assert_eq!(parse(arguments(&["--version"])), Ok(Command::Version));
}

#[test]
fn error_message_names_the_argument_and_points_to_help() {
    let error = parse(arguments(&["--lock"])).expect_err("unknown argument");
    assert_eq!(
        error.to_string(),
        "unknown argument `--lock`; run `luma --help` for usage"
    );
}

#[test]
fn help_lists_the_demo_option() {
    assert!(help().contains("--demo"));
    assert!(help().starts_with("Luma"));
}
