//! The texts that the program shows about itself.

use crate::env::PROGRAM_NAME;
use crate::error::Style;
use crate::text::push_text;
use vstd::prelude::*;

verus! {

/// Where the reference of the commands is found.
pub const REFERENCE_URL: &'static str = "https://jpikl.github.io/rew/reference";

/// What is shown as the version: the version and, in brackets, the commit
/// it was built from, where that is known.
pub open spec fn version_text(version: Seq<char>, commit: Option<Seq<char>>) -> Seq<char> {
    version + " ("@ + (match commit {
        Some(commit) => commit,
        None => "unknown Git commit"@,
    }) + ")"@
}

/// Words the version.
pub fn get_version(version: &str, commit: Option<&str>) -> (text: String)
    ensures
        text@ == version_text(
            version@,
            match commit {
                Some(commit) => Some(commit@),
                None => None,
            },
        ),
{
    let mut text = String::new();
    push_text(&mut text, version);
    push_text(&mut text, " (");
    match commit {
        Some(commit) => push_text(&mut text, commit),
        None => push_text(&mut text, "unknown Git commit"),
    }
    push_text(&mut text, ")");
    assert(text@ =~= version_text(
        version@,
        match commit {
            Some(commit) => Some(commit@),
            None => None,
        },
    ));
    text
}

/// The page of the reference that tells of a command, or of the program
/// where no command is given.
pub open spec fn reference_page(command: Option<Seq<char>>) -> Seq<char> {
    match command {
        Some(command) => PROGRAM_NAME@ + "-"@ + command + ".html"@,
        None => PROGRAM_NAME@ + ".html"@,
    }
}

/// What follows the help: where the reference is found, in the given
/// style.
pub open spec fn after_help(command: Option<Seq<char>>, on: Seq<char>, off: Seq<char>) -> Seq<
    char,
> {
    "Visit "@ + on + REFERENCE_URL@ + "/"@ + reference_page(command) + ".html"@ + off
        + " for a complete reference and examples."@
}

/// Words what follows the help.
pub fn get_after_help(command: Option<&str>, bold: &Style) -> (text: String)
    ensures
        text@ == after_help(
            match command {
                Some(command) => Some(command@),
                None => None,
            },
            bold.on@,
            bold.off@,
        ),
{
    let mut text = String::new();
    push_text(&mut text, "Visit ");
    push_text(&mut text, bold.on);
    push_text(&mut text, REFERENCE_URL);
    push_text(&mut text, "/");
    push_text(&mut text, PROGRAM_NAME);
    if let Some(command) = command {
        push_text(&mut text, "-");
        push_text(&mut text, command);
    }
    push_text(&mut text, ".html");
    push_text(&mut text, ".html");
    push_text(&mut text, bold.off);
    push_text(&mut text, " for a complete reference and examples.");
    assert(text@ =~= after_help(
        match command {
            Some(command) => Some(command@),
            None => None,
        },
        bold.on@,
        bold.off@,
    ));
    text
}

} // verus!
