//! What is reported when a pattern cannot be evaluated for a value.

use crate::filter::{Filter, FilterView};
use crate::pattern::variable::Variable;
use crate::text::{decimal_text, push_decimal, push_text};
use std::ops::Range;
use vstd::prelude::*;

verus! {

/// Why an evaluation failed.
#[derive(Debug, PartialEq)]
pub enum ErrorKind {
    /// The value is no valid UTF-8.
    InputNotUtf8,
    /// The path could not be made canonical, for the reason given.
    CanonicalizationFailed(String),
}

/// The part of an expression that failed.
#[derive(Debug, PartialEq)]
pub enum ErrorCause<'a> {
    Variable(&'a Variable),
    Filter(&'a Filter),
}

/// A failed evaluation: what failed, why, for which value, and the byte
/// range of the pattern that holds the failing part.
#[derive(Debug, PartialEq)]
pub struct Error<'a> {
    pub kind: ErrorKind,
    pub cause: ErrorCause<'a>,
    pub value: String,
    pub range: &'a Range<usize>,
}

/// How a variable is named to the user.
pub open spec fn variable_text(variable: Variable) -> Seq<char> {
    match variable {
        Variable::Filename => "File name"@,
        Variable::Basename => "Base name"@,
        Variable::Extension => "Extension"@,
        Variable::ExtensionWithDot => "Extension with dot"@,
        Variable::LocalCounter => "Local counter"@,
        Variable::GlobalCounter => "Global counter"@,
        Variable::CaptureGroup(number) => "Capture group #"@ + decimal_text(number as nat),
        Variable::Uuid => "Random UUID"@,
    }
}

/// How a filter is named to the user.
pub open spec fn filter_text(filter: FilterView) -> Seq<char> {
    match filter {
        FilterView::FileName => "File name"@,
        FilterView::BaseName => "Base name"@,
        FilterView::Extension => "Extension"@,
        FilterView::ExtensionWithDot => "Extension with dot"@,
        FilterView::Substring(_) => "Substring"@,
        FilterView::Field(_) => "Field"@,
        FilterView::ReplaceFirst(_) => "Replace first"@,
        FilterView::ReplaceAll(_) => "Replace all"@,
        FilterView::Trim => "Trim"@,
        FilterView::ToLowercase => "To lowercase"@,
        FilterView::ToUppercase => "To uppercase"@,
        FilterView::LeftPad(_) => "Left pad"@,
        FilterView::RightPad(_) => "Right pad"@,
        FilterView::LocalCounter => "Local counter"@,
        FilterView::GlobalCounter => "Global counter"@,
    }
}

/// Appends the name of a variable.
pub fn push_variable(text: &mut String, variable: &Variable)
    ensures
        final(text)@ == old(text)@ + variable_text(*variable),
{
    match variable {
        Variable::Filename => push_text(text, "File name"),
        Variable::Basename => push_text(text, "Base name"),
        Variable::Extension => push_text(text, "Extension"),
        Variable::ExtensionWithDot => push_text(text, "Extension with dot"),
        Variable::LocalCounter => push_text(text, "Local counter"),
        Variable::GlobalCounter => push_text(text, "Global counter"),
        Variable::CaptureGroup(number) => {
            push_text(text, "Capture group #");
            push_decimal(text, *number);
        },
        Variable::Uuid => push_text(text, "Random UUID"),
    }
    assert(text@ =~= old(text)@ + variable_text(*variable));
}

/// Appends the name of a filter.
pub fn push_filter(text: &mut String, filter: &Filter)
    ensures
        final(text)@ == old(text)@ + filter_text(filter@),
{
    match filter {
        Filter::FileName => push_text(text, "File name"),
        Filter::BaseName => push_text(text, "Base name"),
        Filter::Extension => push_text(text, "Extension"),
        Filter::ExtensionWithDot => push_text(text, "Extension with dot"),
        Filter::Substring(_) => push_text(text, "Substring"),
        Filter::Field(_) => push_text(text, "Field"),
        Filter::ReplaceFirst(_) => push_text(text, "Replace first"),
        Filter::ReplaceAll(_) => push_text(text, "Replace all"),
        Filter::Trim => push_text(text, "Trim"),
        Filter::ToLowercase => push_text(text, "To lowercase"),
        Filter::ToUppercase => push_text(text, "To uppercase"),
        Filter::LeftPad(_) => push_text(text, "Left pad"),
        Filter::RightPad(_) => push_text(text, "Right pad"),
        Filter::LocalCounter => push_text(text, "Local counter"),
        Filter::GlobalCounter => push_text(text, "Global counter"),
    }
}

/// How the failing part is named to the user.
pub open spec fn cause_text(cause: ErrorCause) -> Seq<char> {
    match cause {
        ErrorCause::Variable(variable) => "`"@ + variable_text(*variable) + "` variable"@,
        ErrorCause::Filter(filter) => "`"@ + filter_text(filter@) + "` filter"@,
    }
}

/// How the reason of a failure is worded.
pub open spec fn kind_text(kind: ErrorKind) -> Seq<char> {
    match kind {
        ErrorKind::InputNotUtf8 => "Input does not have UTF-8 encoding"@,
        ErrorKind::CanonicalizationFailed(reason) => "Path canonicalization failed: "@ + reason@,
    }
}

/// How a failed evaluation is worded.
pub open spec fn error_text(error: Error) -> Seq<char> {
    cause_text(error.cause) + " evaluation failed for value '"@ + error.value@ + "': "@
        + kind_text(error.kind)
}

impl ErrorKind {
    /// Words the reason of a failure.
    pub fn to_string(&self) -> (text: String)
        ensures
            text@ == kind_text(*self),
    {
        let mut text = String::new();
        match self {
            ErrorKind::InputNotUtf8 => push_text(&mut text, "Input does not have UTF-8 encoding"),
            ErrorKind::CanonicalizationFailed(reason) => {
                push_text(&mut text, "Path canonicalization failed: ");
                push_text(&mut text, reason.as_str());
            },
        }
        assert(text@ =~= kind_text(*self));
        text
    }
}

impl<'a> ErrorCause<'a> {
    /// Names the failing part.
    pub fn to_string(&self) -> (text: String)
        ensures
            text@ == cause_text(*self),
    {
        let mut text = String::new();
        push_text(&mut text, "`");
        match self {
            ErrorCause::Variable(variable) => {
                push_variable(&mut text, variable);
                push_text(&mut text, "` variable");
            },
            ErrorCause::Filter(filter) => {
                push_filter(&mut text, filter);
                push_text(&mut text, "` filter");
            },
        }
        assert(text@ =~= cause_text(*self));
        text
    }
}

impl<'a> Error<'a> {
    /// The byte range of the pattern that holds the failing part.
    pub fn range(&self) -> (range: &Range<usize>)
        ensures
            range == self.range,
    {
        self.range
    }

    /// Words the failure.
    pub fn to_string(&self) -> (text: String)
        ensures
            text@ == error_text(*self),
    {
        let mut text = self.cause.to_string();
        push_text(&mut text, " evaluation failed for value '");
        push_text(&mut text, self.value.as_str());
        push_text(&mut text, "': ");
        let kind = self.kind.to_string();
        push_text(&mut text, kind.as_str());
        assert(text@ =~= error_text(*self));
        text
    }
}

} // verus!
