//! How failures are worded for the user.

use crate::spawn::Failure;
use crate::text::{push_text, text_of, texts};
use vstd::prelude::*;

verus! {

/// What was being done when something failed, from the innermost step to
/// the outermost.
#[derive(Debug, PartialEq)]
pub struct Context(pub Vec<String>);

/// The steps, the outermost first.
pub open spec fn reversed(steps: Seq<Seq<char>>) -> Seq<Seq<char>>
    decreases steps.len(),
{
    if steps.len() == 0 {
        Seq::empty()
    } else {
        seq![steps.last()] + reversed(steps.drop_last())
    }
}

impl View for Context {
    type V = Seq<Seq<char>>;

    open spec fn view(&self) -> Seq<Seq<char>> {
        texts(self.0@)
    }
}

impl Context {
    /// A context of one step.
    pub fn new(value: &str) -> (context: Context)
        ensures
            context@ == seq![value@],
    {
        let mut steps: Vec<String> = Vec::new();
        steps.push(text_of(value));
        assert(texts(steps@) =~= seq![value@]);
        Context(steps)
    }

    /// Adds a step around those that are known.
    pub fn add(&mut self, value: &str)
        ensures
            final(self)@ == old(self)@.push(value@),
    {
        self.0.push(text_of(value));
        assert(texts(self.0@) =~= texts(old(self).0@).push(value@));
    }

    /// Puts every step around a failure, the outermost step outermost.
    pub fn apply(&self, error: Failure) -> (failure: Failure)
        ensures
            failure@ == reversed(self@) + error@,
    {
        let mut failure = error;
        let mut i: usize = 0;
        let ghost steps = texts(self.0@);
        assert(steps.take(0) =~= Seq::empty());
        assert(reversed(steps.take(0)) + error@ =~= error@);
        while i < self.0.len()
            invariant
                i <= self.0.len(),
                steps == texts(self.0@),
                failure@ == reversed(steps.take(i as int)) + error@,
            decreases self.0.len() - i,
        {
            failure = failure.context(self.0[i].clone());
            i += 1;
            proof {
                let prefix = steps.take(i as int);
                assert(prefix.drop_last() =~= steps.take(i as int - 1));
                assert(prefix.last() == self.0@[i as int - 1]@);
                assert(failure@ =~= reversed(prefix) + error@);
            }
        }
        assert(steps.take(self.0.len() as int) =~= steps);
        failure
    }
}

/// The characters that switch a style on and off.
pub struct Style<'a> {
    pub on: &'a str,
    pub off: &'a str,
}

/// The name of the running command: the name of the program, and the
/// name of the command after a space where one is known.
pub open spec fn command_name(bin_name: Seq<char>, command: Option<Seq<char>>) -> Seq<char> {
    match command {
        Some(command) => bin_name + " "@ + command,
        None => bin_name,
    }
}

/// What stands before every message: the name of the running command in
/// the given style, and the ancestry where the program was started by
/// another run of itself.
pub open spec fn prefix(
    bin_name: Seq<char>,
    command: Option<Seq<char>>,
    spawned_by: Option<Seq<char>>,
    on: Seq<char>,
    off: Seq<char>,
) -> Seq<char> {
    let name = on + command_name(bin_name, command) + off;
    match spawned_by {
        Some(ancestry) => name + " (spawned by '"@ + on + ancestry + off + "')"@,
        None => name,
    }
}

/// Words what stands before every message.
pub fn build_prefix(
    bin_name: &str,
    command: Option<&str>,
    spawned_by: Option<&str>,
    bold: &Style,
) -> (text: String)
    ensures
        text@ == prefix(
            bin_name@,
            match command {
                Some(command) => Some(command@),
                None => None,
            },
            match spawned_by {
                Some(ancestry) => Some(ancestry@),
                None => None,
            },
            bold.on@,
            bold.off@,
        ),
{
    let mut text = String::new();
    push_text(&mut text, bold.on);
    push_text(&mut text, bin_name);
    if let Some(command) = command {
        push_text(&mut text, " ");
        push_text(&mut text, command);
    }
    push_text(&mut text, bold.off);
    if let Some(ancestry) = spawned_by {
        push_text(&mut text, " (spawned by '");
        push_text(&mut text, bold.on);
        push_text(&mut text, ancestry);
        push_text(&mut text, bold.off);
        push_text(&mut text, "')");
    }
    assert(text@ =~= prefix(
        bin_name@,
        match command {
            Some(command) => Some(command@),
            None => None,
        },
        match spawned_by {
            Some(ancestry) => Some(ancestry@),
            None => None,
        },
        bold.on@,
        bold.off@,
    ));
    text
}

/// The line that reports the message with index `i` of a failure: the
/// outermost message after the word `error` in the given style, every
/// other one after an arrow.
pub open spec fn report_line(
    prefix: Seq<char>,
    messages: Seq<Seq<char>>,
    i: int,
    on: Seq<char>,
    off: Seq<char>,
) -> Seq<char> {
    if i == 0 {
        prefix + ": "@ + on + "error:"@ + off + " "@ + messages[i]
    } else {
        prefix + ": └─> "@ + messages[i]
    }
}

/// Words a failure: one line for each of its messages, the outermost
/// first.
pub fn report(prefix: &str, failure: &Failure, alert: &Style) -> (lines: Vec<String>)
    ensures
        lines.len() == failure@.len(),
        forall|i: int|
            0 <= i < lines.len() ==> (#[trigger] lines[i])@ == report_line(
                prefix@,
                failure@,
                i,
                alert.on@,
                alert.off@,
            ),
{
    let mut lines: Vec<String> = Vec::new();
    let mut i: usize = 0;
    while i < failure.messages.len()
        invariant
            i <= failure.messages.len(),
            lines.len() == i,
            forall|k: int|
                0 <= k < i ==> (#[trigger] lines[k])@ == report_line(
                    prefix@,
                    failure@,
                    k,
                    alert.on@,
                    alert.off@,
                ),
        decreases failure.messages.len() - i,
    {
        let mut line = String::new();
        push_text(&mut line, prefix);
        if i == 0 {
            push_text(&mut line, ": ");
            push_text(&mut line, alert.on);
            push_text(&mut line, "error:");
            push_text(&mut line, alert.off);
            push_text(&mut line, " ");
        } else {
            push_text(&mut line, ": └─> ");
        }
        push_text(&mut line, failure.messages[i].as_str());
        assert(failure@[i as int] == failure.messages@[i as int]@);
        assert(line@ =~= report_line(prefix@, failure@, i as int, alert.on@, alert.off@));
        lines.push(line);
        i += 1;
    }
    lines
}

} // verus!
