//! The shell that runs the command lines of a pattern.

use crate::process::{Invocation, InvocationView, Program, ProgramView};
use crate::text::text_of;
use vstd::prelude::*;

verus! {

/// A shell, known by the name of its program.
#[derive(Debug, PartialEq, Eq)]
pub struct Shell {
    pub name: String,
}

/// The name of the shell used unless one is chosen.
pub open spec fn default_shell(windows: bool) -> Seq<char> {
    if windows {
        "cmd"@
    } else {
        "sh"@
    }
}

/// The option before a command line handed to the shell.
pub open spec fn command_flag(windows: bool) -> Seq<char> {
    if windows {
        "/C"@
    } else {
        "-c"@
    }
}

/// The invocation of a shell for a command line: the option and the
/// command line are its arguments, and it gets no variables of its own.
pub open spec fn shell_invocation(shell: Seq<char>, command: Seq<char>, windows: bool) -> InvocationView {
    InvocationView {
        program: ProgramView::Named(shell),
        args: seq![command_flag(windows), command],
        envs: Seq::empty(),
    }
}

impl Shell {
    /// The shell of the given name.
    pub fn new(name: String) -> (shell: Shell)
        ensures
            shell.name == name,
    {
        Shell { name }
    }

    /// The shell used unless one is chosen.
    pub fn default_for(windows: bool) -> (shell: Shell)
        ensures
            shell.name@ == default_shell(windows),
    {
        if windows {
            Shell { name: text_of("cmd") }
        } else {
            Shell { name: text_of("sh") }
        }
    }

    /// The shell that is chosen on the command line or by the environment,
    /// else the shell used unless one is chosen.
    pub fn chosen_or_default(chosen: Option<String>, windows: bool) -> (shell: Shell)
        ensures
            shell.name@ == (match chosen {
                Some(name) => name@,
                None => default_shell(windows),
            }),
    {
        match chosen {
            Some(name) => Shell { name },
            None => Shell::default_for(windows),
        }
    }

    /// What it takes to make the shell run a command line.
    pub fn build_command(&self, command: &str, windows: bool) -> (invocation: Invocation)
        ensures
            invocation@ == shell_invocation(self.name@, command@, windows),
    {
        let mut args: Vec<String> = Vec::new();
        if windows {
            args.push(text_of("/C"));
        } else {
            args.push(text_of("-c"));
        }
        args.push(text_of(command));
        let envs: Vec<(String, String)> = Vec::new();
        let invocation = Invocation { program: Program::Named(self.name.clone()), args, envs };
        assert(invocation@.args =~= seq![command_flag(windows), command@]);
        assert(invocation@.envs =~= Seq::empty());
        invocation
    }
}

} // verus!
