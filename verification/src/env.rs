//! The settings shared by all commands and the environment that carries
//! them to child processes.

use crate::text::{chars_of, decimal_text, pairs, push_decimal, push_text, string_of, text_of};
use vstd::prelude::*;

verus! {

/// Size of the buffers used for input and output unless another is chosen.
pub const DEFAULT_BUF_SIZE: usize = 32 * 1024;

/// Carries the choice of NUL as the record separator.
pub const ENV_NULL: &'static str = "REW_NULL";

/// Carries the output buffering mode.
pub const ENV_BUF_MODE: &'static str = "REW_BUF_MODE";

/// Carries the size of the buffers.
pub const ENV_BUF_SIZE: &'static str = "REW_BUF_SIZE";

/// Tells a child process the name under which its parent runs.
pub const ENV_SPAWNED_BY: &'static str = "_REW_SPAWNED_BY";

/// The name of the program where nothing else tells it.
pub const PROGRAM_NAME: &'static str = "rew";

/// When the output is written out.
#[derive(Clone, Copy, Debug, PartialEq, Eq, Structural)]
pub enum BufMode {
    /// After each record, and when the buffer is full.
    Line,
    /// Only when the buffer is full.
    Full,
}

impl BufMode {
    /// The mode used unless one is chosen: by lines where the output goes
    /// to a terminal, in full buffers elsewhere.
    pub fn for_terminal(terminal: bool) -> (mode: BufMode)
        ensures
            mode == (if terminal {
                BufMode::Line
            } else {
                BufMode::Full
            }),
    {
        if terminal {
            BufMode::Line
        } else {
            BufMode::Full
        }
    }

    /// True for the mode that writes after each record.
    pub fn is_line(&self) -> (b: bool)
        ensures
            b == (*self == BufMode::Line),
    {
        match self {
            BufMode::Line => true,
            BufMode::Full => false,
        }
    }

    /// True for the mode that writes full buffers only.
    pub fn is_full(&self) -> (b: bool)
        ensures
            b == (*self == BufMode::Full),
    {
        match self {
            BufMode::Line => false,
            BufMode::Full => true,
        }
    }

    /// The word that names the mode on the command line.
    pub open spec fn spec_name(self) -> Seq<char> {
        match self {
            BufMode::Line => "line"@,
            BufMode::Full => "full"@,
        }
    }

    /// The word that names the mode on the command line.
    pub fn name(&self) -> (name: &'static str)
        ensures
            name@ == self.spec_name(),
    {
        match self {
            BufMode::Line => "line",
            BufMode::Full => "full",
        }
    }
}

/// The settings that every command takes.
#[derive(Clone, Copy, Debug, PartialEq, Eq)]
pub struct Args {
    /// Records end with NUL, not with a line feed.
    pub null: bool,
    /// When the output is written out.
    pub buf_mode: BufMode,
    /// Size of the buffers; no record may be longer.
    pub buf_size: usize,
}

/// What is known of the library that makes other programs write by lines.
#[derive(Debug, PartialEq, Eq)]
pub struct StdBuf {
    /// Path of the library to preload, where one was found.
    pub library: Option<String>,
}

impl StdBuf {
    /// Nothing known: no library to preload.
    pub fn new() -> (stdbuf: StdBuf)
        ensures
            stdbuf.library is None,
    {
        StdBuf { library: None }
    }

    /// The variables that make a program linked to the C library write by
    /// lines: none where no library is known.
    pub open spec fn spec_line_buf_env(&self) -> Seq<(Seq<char>, Seq<char>)> {
        match self.library {
            Some(path) => seq![("LD_PRELOAD"@, path@), ("_STDBUF_O"@, "L"@)],
            None => Seq::empty(),
        }
    }

    /// The variables that make a program linked to the C library write by
    /// lines.
    pub fn line_buf_env(&self) -> (variables: Vec<(String, String)>)
        ensures
            pairs(variables@) == self.spec_line_buf_env(),
    {
        let mut variables: Vec<(String, String)> = Vec::new();
        match &self.library {
            Some(path) => {
                variables.push((text_of("LD_PRELOAD"), path.clone()));
                variables.push((text_of("_STDBUF_O"), text_of("L")));
            },
            None => {},
        }
        assert(pairs(variables@) =~= self.spec_line_buf_env());
        variables
    }
}

/// How a truth value is written in a variable.
pub open spec fn bool_text(value: bool) -> Seq<char> {
    if value {
        "true"@
    } else {
        "false"@
    }
}

/// The environment of one running command.
pub struct Env {
    /// Name of the command.
    pub command: &'static str,
    /// The settings it runs with.
    pub args: Args,
    /// How other programs are made to write by lines.
    pub stdbuf: StdBuf,
}

/// The ancestry that a child is told: the name of the program and the name
/// of the command, with one space between them.
pub open spec fn spawned_by(bin_name: Seq<char>, cmd_name: Seq<char>) -> Seq<char> {
    bin_name + " "@ + cmd_name
}

impl Env {
    /// The environment of a command with nothing known of the preload
    /// library.
    pub fn new(command: &'static str, args: Args) -> (env: Env)
        ensures
            env.command == command,
            env.args == args,
            env.stdbuf.library is None,
    {
        Env { command, args, stdbuf: StdBuf::new() }
    }

    /// The variables given to a built-in command run as a child: the three
    /// shared settings and the ancestry.
    pub open spec fn spec_internal(&self, bin_name: Seq<char>) -> Seq<(Seq<char>, Seq<char>)> {
        seq![
            (ENV_NULL@, bool_text(self.args.null)),
            (ENV_BUF_MODE@, self.args.buf_mode.spec_name()),
            (ENV_BUF_SIZE@, decimal_text(self.args.buf_size as nat)),
            (ENV_SPAWNED_BY@, spawned_by(bin_name, self.command@)),
        ]
    }

    /// The variables given to another program run as a child: where
    /// output goes out by lines, those that ask the same of the C library
    /// and of Python; none otherwise.
    pub open spec fn spec_external(&self) -> Seq<(Seq<char>, Seq<char>)> {
        if self.args.buf_mode == BufMode::Line {
            self.stdbuf.spec_line_buf_env().push(("PYTHONUNBUFFERED"@, "1"@))
        } else {
            Seq::empty()
        }
    }

    /// The variables given to a built-in command run as a child, where
    /// `bin_name` is the name under which this program runs.
    pub fn internal(&self, bin_name: &str) -> (variables: Vec<(String, String)>)
        ensures
            pairs(variables@) == self.spec_internal(bin_name@),
    {
        let mut variables: Vec<(String, String)> = Vec::new();
        let null = if self.args.null {
            text_of("true")
        } else {
            text_of("false")
        };
        let mut size = String::new();
        push_decimal(&mut size, self.args.buf_size);
        assert(Seq::<char>::empty() + decimal_text(self.args.buf_size as nat) =~= decimal_text(
            self.args.buf_size as nat,
        ));
        variables.push((text_of(ENV_NULL), null));
        variables.push((text_of(ENV_BUF_MODE), text_of(self.args.buf_mode.name())));
        variables.push((text_of(ENV_BUF_SIZE), size));
        variables.push((text_of(ENV_SPAWNED_BY), get_spawned_by(bin_name, self.command)));
        assert(pairs(variables@) =~= self.spec_internal(bin_name@));
        variables
    }

    /// The variables given to another program run as a child.
    pub fn external(&self) -> (variables: Vec<(String, String)>)
        ensures
            pairs(variables@) == self.spec_external(),
    {
        if self.args.buf_mode.is_line() {
            let mut variables = self.stdbuf.line_buf_env();
            let ghost before = variables@;
            variables.push((text_of("PYTHONUNBUFFERED"), text_of("1")));
            assert(pairs(variables@) =~= pairs(before).push(("PYTHONUNBUFFERED"@, "1"@)));
            variables
        } else {
            let variables: Vec<(String, String)> = Vec::new();
            assert(pairs(variables@) =~= Seq::empty());
            variables
        }
    }
}

/// The ancestry that the command `cmd_name` tells its children, where
/// `bin_name` is the name under which this program runs.
pub fn get_spawned_by(bin_name: &str, cmd_name: &str) -> (text: String)
    ensures
        text@ == spawned_by(bin_name@, cmd_name@),
{
    let mut text = String::new();
    push_text(&mut text, bin_name);
    push_text(&mut text, " ");
    push_text(&mut text, cmd_name);
    assert(text@ =~= spawned_by(bin_name@, cmd_name@));
    text
}

/// Index of the last space of a text, or -1 where it holds none.
pub open spec fn last_space(text: Seq<char>) -> int
    decreases text.len(),
{
    if text.len() == 0 {
        -1
    } else if text.last() == ' ' {
        text.len() - 1
    } else {
        last_space(text.drop_last())
    }
}

/// The name under which this program runs. Where an ancestry was handed
/// down, it is the ancestry without its last word, the parent's command;
/// else the name the program was started by; else the name of the program.
pub open spec fn bin_name(spawned_by: Option<Seq<char>>, started_as: Option<Seq<char>>) -> Seq<
    char,
> {
    match spawned_by {
        Some(ancestry) => if last_space(ancestry) >= 0 {
            ancestry.take(last_space(ancestry))
        } else {
            ancestry
        },
        None => match started_as {
            Some(name) => name,
            None => PROGRAM_NAME@,
        },
    }
}

/// The name under which this program runs, from the ancestry that was
/// handed down, if any, and the name the program was started by, if any.
pub fn get_bin_name(spawned_by: Option<&str>, started_as: Option<&str>) -> (name: String)
    ensures
        name@ == bin_name(
            match spawned_by {
                Some(text) => Some(text@),
                None => None,
            },
            match started_as {
                Some(text) => Some(text@),
                None => None,
            },
        ),
{
    if let Some(ancestry) = spawned_by {
        let mut chars = chars_of(ancestry);
        let mut end = chars.len();
        proof {
            assert(chars@.take(chars.len() as int) == chars@);
        }
        while end > 0 && chars[end - 1] != ' '
            invariant
                end <= chars.len(),
                chars@ == ancestry@,
                last_space(chars@) == last_space(chars@.take(end as int)),
            decreases end,
        {
            proof {
                assert(chars@.take(end as int).drop_last() == chars@.take(end as int - 1));
            }
            end = end - 1;
        }
        if end > 0 {
            chars.truncate(end - 1);
        }
        return string_of(&chars);
    }
    if let Some(name) = started_as {
        return text_of(name);
    }
    text_of(PROGRAM_NAME)
}

} // verus!
