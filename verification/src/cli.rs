//! Command-line parsing.

use vstd::prelude::*;
use vstd::string::*;

use crate::text::str_equal;

verus! {

/// The text printed by `--help`.
pub const HELP: &'static str = "Luma — a secure Wayland session locker\n\nUsage: luma [OPTIONS]\n\nOptions:\n  --demo     Start the harmless visual demo\n  -h, --help Show this help\n  -V, --version Show version information";

#[derive(Debug, PartialEq, Eq, Structural)]
pub enum Command {
    Demo,
    Help,
    Version,
}

/// An argument that the command line does not accept.
#[derive(Debug, PartialEq, Eq)]
pub struct ParseError {
    argument: String,
}

impl ParseError {
    /// The rejected argument.
    pub closed spec fn argument(&self) -> Seq<char> {
        self.argument@
    }

    /// The message shown to the user.
    pub fn to_string(&self) -> (message: String)
        ensures
            message@ == "unknown argument `"@ + self.argument() + "`; run `luma --help` for usage"@,
    {
        let mut message = String::from_str("unknown argument `");
        message.append(self.argument.as_str());
        message.append("`; run `luma --help` for usage");
        message
    }
}

/// The command that a single argument selects, if any.
pub open spec fn command_for(argument: Seq<char>) -> Option<Command> {
    if argument == "--demo"@ {
        Some(Command::Demo)
    } else if argument == "-h"@ || argument == "--help"@ {
        Some(Command::Help)
    } else if argument == "-V"@ || argument == "--version"@ {
        Some(Command::Version)
    } else {
        None
    }
}

/// Parses the arguments that follow the program name.
///
/// No argument selects help. One recognized argument selects its command. The
/// first unrecognized argument, or any argument after a recognized one, is an error.
pub fn parse(arguments: Vec<String>) -> (result: Result<Command, ParseError>)
    ensures
        arguments@.len() == 0 ==> result == Ok::<Command, ParseError>(Command::Help),
        arguments@.len() > 0 && command_for(arguments@[0]@) is None ==> (result matches Err(
            error,
        ) && error.argument() == arguments@[0]@),
        arguments@.len() > 1 && command_for(arguments@[0]@) is Some ==> (result matches Err(
            error,
        ) && error.argument() == arguments@[1]@),
        arguments@.len() == 1 && command_for(arguments@[0]@) is Some ==> result == Ok::<
            Command,
            ParseError,
        >(command_for(arguments@[0]@).unwrap()),
{
    if arguments.len() == 0 {
        return Ok(Command::Help);
    }
    let argument = arguments[0].as_str();
    let command = if str_equal(argument, "--demo") {
        Command::Demo
    } else if str_equal(argument, "-h") || str_equal(argument, "--help") {
        Command::Help
    } else if str_equal(argument, "-V") || str_equal(argument, "--version") {
        Command::Version
    } else {
        return Err(ParseError { argument: arguments[0].clone() });
    };
    if arguments.len() > 1 {
        return Err(ParseError { argument: arguments[1].clone() });
    }
    Ok(command)
}

/// The help text.
pub fn help() -> (text: &'static str)
    ensures
        text@ == HELP@,
{
    HELP
}

} // verus!
