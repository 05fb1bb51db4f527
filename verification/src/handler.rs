//! What the bot answers when a command's arguments do not parse.
use vstd::prelude::*;

use crate::text::{chars_of, contains, has_infix, push_str, string_of};

verus! {

/// The usage shown after an argument error: the command's help, or a pointer
/// to the help menu.
pub open spec fn usage(help: Option<Seq<char>>) -> Seq<char> {
    match help {
        Some(h) => h,
        None => "Please check the help menu for usage information"@,
    }
}

/// The answer to an argument error: what could not be parsed and why, then
/// the usage.
pub open spec fn argument_error_text(input: Option<Seq<char>>, error: Seq<char>, help: Option<Seq<char>>) -> Seq<char> {
    match input {
        Some(i) => "**Cannot parse `"@ + i + "` as argument: "@ + error + "**\n"@ + usage(help),
        None => "**"@ + error + "**\n"@ + usage(help),
    }
}

/// How the bot answers an argument error.
#[derive(Debug, PartialEq, Eq)]
pub enum ArgumentErrorReply {
    /// Too many or too few arguments: the help of the named command is shown.
    ShowHelp(String),
    /// The answer is said as it is.
    Say(String),
}

/// The command whose help is shown: the parent command and the command, or
/// the command alone.
pub open spec fn help_target(parent: Option<Seq<char>>, command: Seq<char>) -> Seq<char> {
    match parent {
        Some(p) => p + " "@ + command,
        None => command,
    }
}

/// The answer mentions a wrong number of arguments.
pub open spec fn wrong_count(text: Seq<char>) -> bool {
    has_infix(text, "Too many arguments were passed"@) || has_infix(
        text,
        "Too few arguments were passed"@,
    )
}

/// Decides how to answer an argument error of `command` (under `parent`, if
/// it is a subcommand): when the answer would speak of too many or too few
/// arguments, the command's help is shown instead.
pub fn argument_error_reply(
    input: Option<&str>,
    error: &str,
    help: Option<&str>,
    command: &str,
    parent: Option<&str>,
) -> (r: ArgumentErrorReply)
    ensures
        ({
            let text = argument_error_text(
                match input {
                    Some(i) => Some(i@),
                    None => None,
                },
                error@,
                match help {
                    Some(h) => Some(h@),
                    None => None,
                },
            );
            if wrong_count(text) {
                r matches ArgumentErrorReply::ShowHelp(name) && name@ == help_target(
                    match parent {
                        Some(p) => Some(p@),
                        None => None,
                    },
                    command@,
                )
            } else {
                r matches ArgumentErrorReply::Say(t) && t@ == text
            }
        }),
{
    let mut text: Vec<char> = Vec::new();
    match input {
        Some(i) => {
            push_str(&mut text, "**Cannot parse `");
            push_str(&mut text, i);
            push_str(&mut text, "` as argument: ");
        },
        None => {
            push_str(&mut text, "**");
        },
    }
    push_str(&mut text, error);
    push_str(&mut text, "**\n");
    match help {
        Some(h) => push_str(&mut text, h),
        None => push_str(&mut text, "Please check the help menu for usage information"),
    }
    let many = chars_of("Too many arguments were passed");
    let few = chars_of("Too few arguments were passed");
    if contains(&text, &many) || contains(&text, &few) {
        let mut name: Vec<char> = Vec::new();
        match parent {
            Some(p) => {
                push_str(&mut name, p);
                push_str(&mut name, " ");
                push_str(&mut name, command);
            },
            None => push_str(&mut name, command),
        }
        ArgumentErrorReply::ShowHelp(string_of(&name))
    } else {
        ArgumentErrorReply::Say(string_of(&text))
    }
}

} // verus!
