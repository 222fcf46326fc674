//! Checks of single option values.

use crate::commands::same_text;
use crate::pattern::lexer::is_meta;
use crate::text::{chars_of, utf8_width};
use regex::Regex;
use vstd::prelude::*;

verus! {

/// What `parse_single_byte_char` makes of a value: the byte of its only
/// character, where that character takes one byte.
pub open spec fn single_byte_char(value: Seq<char>) -> Result<u8, Seq<char>> {
    if value.len() != 1 {
        Err("value must be a single character"@)
    } else if utf8_width(value[0]) != 1 {
        Err("multi-byte characters are not supported"@)
    } else {
        Ok((value[0] as u32) as u8)
    }
}

/// Reads a delimiter given on the command line: one character of one byte.
pub fn parse_single_byte_char(string: &str) -> (result: Result<u8, &'static str>)
    ensures
        match single_byte_char(string@) {
            Ok(byte) => result == Ok::<u8, &'static str>(byte),
            Err(message) => result is Err && result->Err_0@ == message,
        },
{
    let chars = chars_of(string);
    if chars.len() != 1 {
        Err("value must be a single character")
    } else {
        let value = chars[0] as u32;
        if value > 0x7F {
            Err("multi-byte characters are not supported")
        } else {
            Ok(value as u8)
        }
    }
}

/// What `validate_escape` says of a value: an escape character is a single
/// character that does not structure a pattern.
pub open spec fn escape_refusal(value: Seq<char>) -> Option<Seq<char>> {
    if value.len() != 1 {
        Some("Value must be a single character"@)
    } else if is_meta(value[0]) {
        Some("Cannot use one of meta characters '{', '|', '}'"@)
    } else {
        None
    }
}

/// Checks an escape character given on the command line.
pub fn validate_escape(value: &str) -> (result: Result<(), &'static str>)
    ensures
        match escape_refusal(value@) {
            None => result is Ok,
            Some(message) => result is Err && result->Err_0@ == message,
        },
{
    let chars = chars_of(value);
    if chars.len() != 1 {
        Err("Value must be a single character")
    } else if chars[0] == '{' || chars[0] == '|' || chars[0] == '}' {
        Err("Cannot use one of meta characters '{', '|', '}'")
    } else {
        Ok(())
    }
}

/// What `Regex::new` of the regex crate has against an expression:
/// nothing where it is a regular expression whose compiled form stays
/// under the size limit, else the message of its error.
pub uninterp spec fn regex_refusal(expression: Seq<char>) -> Option<Seq<char>>;

/// Calls `Regex::new` of the regex crate and gives the message of its
/// error, if it returns one. The outcome depends on the expression alone.
#[verifier::external_body]
fn compile_refusal(expression: &str) -> (refusal: Option<String>)
    ensures
        match regex_refusal(expression@) {
            Some(message) => refusal is Some && refusal->0@ == message,
            None => refusal is None,
        },
{
    match Regex::new(expression) {
        Ok(_) => None,
        Err(error) => Some(error.to_string()),
    }
}

/// Checks a regular expression given on the command line.
pub fn validate_regex(value: &str) -> (result: Result<(), String>)
    ensures
        match regex_refusal(value@) {
            Some(message) => result is Err && result->Err_0@ == message,
            None => result is Ok,
        },
{
    match compile_refusal(value) {
        Some(message) => Err(message),
        None => Ok(()),
    }
}

/// When the output is coloured.
#[derive(Clone, Copy, Debug, PartialEq, Eq, Structural)]
pub enum ColorWhen {
    /// Where the output is a terminal that takes colours.
    Auto,
    /// Always, by what the terminal takes.
    Always,
    /// Always, by ANSI escape sequences.
    Ansi,
    /// Never.
    Never,
}

/// The choice that a word of the colour option stands for.
pub open spec fn color_choice(value: Seq<char>) -> Option<ColorWhen> {
    if value == "auto"@ {
        Some(ColorWhen::Auto)
    } else if value == "always"@ {
        Some(ColorWhen::Always)
    } else if value == "ansi"@ {
        Some(ColorWhen::Ansi)
    } else if value == "never"@ {
        Some(ColorWhen::Never)
    } else {
        None
    }
}

/// Reads the colour option.
pub fn parse_color(value: &str) -> (choice: Option<ColorWhen>)
    ensures
        choice == color_choice(value@),
{
    if same_text(value, "auto") {
        Some(ColorWhen::Auto)
    } else if same_text(value, "always") {
        Some(ColorWhen::Always)
    } else if same_text(value, "ansi") {
        Some(ColorWhen::Ansi)
    } else if same_text(value, "never") {
        Some(ColorWhen::Never)
    } else {
        None
    }
}

/// Checks a pattern given on the command line: it must not be empty.
pub fn validate_pattern(value: &str) -> (result: Result<(), &'static str>)
    ensures
        value@.len() > 0 ==> result is Ok,
        value@.len() == 0 ==> result is Err && result->Err_0@ == "Empty string"@,
{
    if value.is_empty() {
        Err("Empty string")
    } else {
        Ok(())
    }
}

} // verus!
