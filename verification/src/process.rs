//! How a command takes part in a pipeline: which program it runs, with
//! which arguments and variables, and where its input comes from.

use crate::command::{Group, Meta};
use crate::commands::{builtin, get_meta, same_text};
use crate::env::{Env, PROGRAM_NAME};
use crate::text::{pairs, text_of, texts};
use vstd::prelude::*;

verus! {

/// Whether a command reads the standard input that the pipeline is fed with.
#[derive(Clone, Copy, Debug, PartialEq, Eq, Structural)]
pub enum StdinMode {
    /// The command consumes the forwarded input.
    Connected,
    /// The command ignores its input, which is therefore closed.
    Disconnected,
}

/// A command as it was resolved from its name.
#[derive(Debug, PartialEq)]
pub enum Command {
    /// A built-in command, run by this program itself.
    Internal { meta: Meta, args: Vec<String> },
    /// This program itself, called by its own name with arguments that
    /// name no built-in command.
    UnknownInternal { args: Vec<String> },
    /// Another program.
    External { name: String, args: Vec<String> },
}

/// What a resolved command holds.
pub enum CommandView {
    Internal { meta: Meta, args: Seq<Seq<char>> },
    UnknownInternal { args: Seq<Seq<char>> },
    External { name: Seq<char>, args: Seq<Seq<char>> },
}

impl View for Command {
    type V = CommandView;

    open spec fn view(&self) -> CommandView {
        match self {
            Command::Internal { meta, args } => CommandView::Internal {
                meta: *meta,
                args: texts(args@),
            },
            Command::UnknownInternal { args } => CommandView::UnknownInternal {
                args: texts(args@),
            },
            Command::External { name, args } => CommandView::External {
                name: name@,
                args: texts(args@),
            },
        }
    }
}

/// The program that a command runs.
#[derive(Debug, PartialEq)]
pub enum Program {
    /// The executable of this program.
    Current,
    /// The program of the given name.
    Named(String),
}

/// What a program holds.
pub enum ProgramView {
    Current,
    Named(Seq<char>),
}

impl View for Program {
    type V = ProgramView;

    open spec fn view(&self) -> ProgramView {
        match self {
            Program::Current => ProgramView::Current,
            Program::Named(name) => ProgramView::Named(name@),
        }
    }
}

/// All that is needed to start a child process.
#[derive(Debug, PartialEq)]
pub struct Invocation {
    pub program: Program,
    pub args: Vec<String>,
    /// The variables added to the environment of the child.
    pub envs: Vec<(String, String)>,
}

/// What an invocation holds.
pub struct InvocationView {
    pub program: ProgramView,
    pub args: Seq<Seq<char>>,
    pub envs: Seq<(Seq<char>, Seq<char>)>,
}

impl View for Invocation {
    type V = InvocationView;

    open spec fn view(&self) -> InvocationView {
        InvocationView { program: self.program@, args: texts(self.args@), envs: pairs(self.envs@) }
    }
}

/// What a name and its arguments resolve to. A command marked external is
/// a program, whatever its name. The name of this program stands for the
/// built-in command that its first argument names, and for this program
/// with all the arguments where that names none. Any other name is a
/// built-in command where there is one of that name, else a program.
pub open spec fn resolve(name: Seq<char>, args: Seq<Seq<char>>, external: bool) -> CommandView {
    if external {
        CommandView::External { name, args }
    } else if name == PROGRAM_NAME@ {
        if args.len() > 0 && builtin(args[0]) is Some {
            CommandView::Internal { meta: builtin(args[0])->0, args: args.drop_first() }
        } else {
            CommandView::UnknownInternal { args }
        }
    } else if builtin(name) is Some {
        CommandView::Internal { meta: builtin(name)->0, args }
    } else {
        CommandView::External { name, args }
    }
}

/// A command marked external is resolved as a program, whatever built-in
/// command has the same name.
pub proof fn lemma_external_is_a_program(name: Seq<char>, args: Seq<Seq<char>>)
    ensures
        resolve(name, args, true) == (CommandView::External { name, args }),
{
}

/// Whether a resolved command reads its input: a built-in command of the
/// generators does not, every other command does.
pub open spec fn reads_input(command: CommandView) -> StdinMode {
    match command {
        CommandView::Internal { meta, .. } => meta.group.spec_stdin_mode(),
        CommandView::UnknownInternal { .. } => StdinMode::Connected,
        CommandView::External { .. } => StdinMode::Connected,
    }
}

/// The invocation of a resolved command. A built-in command runs this
/// program with its name before its arguments and the variables of
/// built-in commands; another program runs with the variables of other
/// programs.
pub open spec fn invocation(command: CommandView, env: Env, bin_name: Seq<char>) -> InvocationView {
    match command {
        CommandView::Internal { meta, args } => InvocationView {
            program: ProgramView::Current,
            args: seq![meta.name@] + args,
            envs: env.spec_internal(bin_name),
        },
        CommandView::UnknownInternal { args } => InvocationView {
            program: ProgramView::Current,
            args,
            envs: env.spec_internal(bin_name),
        },
        CommandView::External { name, args } => InvocationView {
            program: ProgramView::Named(name),
            args,
            envs: env.spec_external(),
        },
    }
}

/// Copies of the texts from index `from` on.
fn copy_texts(values: &[String], from: usize) -> (copy: Vec<String>)
    requires
        from <= values.len(),
    ensures
        texts(copy@) == texts(values@).skip(from as int),
{
    let mut copy: Vec<String> = Vec::new();
    let mut i = from;
    assert(texts(copy@) =~= texts(values@).subrange(from as int, from as int));
    while i < values.len()
        invariant
            from <= i <= values.len(),
            texts(copy@) == texts(values@).subrange(from as int, i as int),
        decreases values.len() - i,
    {
        let ghost before = copy@;
        copy.push(values[i].clone());
        i += 1;
        assert(texts(copy@) =~= texts(before).push(values@[i as int - 1]@));
        assert(texts(values@).subrange(from as int, i as int) =~= texts(values@).subrange(
            from as int,
            i as int - 1,
        ).push(values@[i as int - 1]@));
    }
    assert(texts(values@).subrange(from as int, values.len() as int) =~= texts(values@).skip(
        from as int,
    ));
    copy
}

impl Command {
    /// The built-in command known by `meta`, without arguments.
    pub fn internal(meta: Meta) -> (command: Self)
        ensures
            command@ == (CommandView::Internal { meta, args: Seq::empty() }),
    {
        let args: Vec<String> = Vec::new();
        assert(texts(args@) =~= Seq::empty());
        Self::Internal { meta, args }
    }

    /// Resolves a name and its arguments.
    pub fn detect(name: &str, args: &[String], external: bool) -> (command: Self)
        ensures
            command@ == resolve(name@, texts(args@), external),
    {
        if external {
            assert(texts(args@).skip(0) =~= texts(args@));
            return Self::External { name: text_of(name), args: copy_texts(args, 0) };
        }
        if same_text(name, PROGRAM_NAME) {
            if args.len() > 0 {
                assert(texts(args@)[0] == args@[0]@);
                if let Some(meta) = get_meta(args[0].as_str()) {
                    assert(texts(args@).skip(1) =~= texts(args@).drop_first());
                    return Self::Internal { meta, args: copy_texts(args, 1) };
                }
            }
            assert(texts(args@).skip(0) =~= texts(args@));
            return Self::UnknownInternal { args: copy_texts(args, 0) };
        }
        assert(texts(args@).skip(0) =~= texts(args@));
        if let Some(meta) = get_meta(name) {
            return Self::Internal { meta, args: copy_texts(args, 0) };
        }
        Self::External { name: text_of(name), args: copy_texts(args, 0) }
    }

    /// Whether the command reads its input.
    pub fn stdin_mode(&self) -> (mode: StdinMode)
        ensures
            mode == reads_input(self@),
    {
        match self {
            Self::Internal { meta, .. } => match meta.group {
                Group::Generators => StdinMode::Disconnected,
                _ => StdinMode::Connected,
            },
            Self::UnknownInternal { .. } => StdinMode::Connected,
            Self::External { .. } => StdinMode::Connected,
        }
    }

    /// What it takes to start the command, where `bin_name` is the name
    /// under which this program runs.
    pub fn build(&self, env: &Env, bin_name: &str) -> (invocation: Invocation)
        ensures
            invocation@ == crate::process::invocation(self@, *env, bin_name@),
    {
        match self {
            Command::Internal { meta, args } => {
                let mut all: Vec<String> = Vec::new();
                all.push(text_of(meta.name));
                let mut rest = copy_texts(args.as_slice(), 0);
                all.append(&mut rest);
                assert(texts(args@).skip(0) =~= texts(args@));
                assert(texts(all@) =~= seq![meta.name@] + texts(args@));
                Invocation { program: Program::Current, args: all, envs: env.internal(bin_name) }
            },
            Command::UnknownInternal { args } => {
                assert(texts(args@).skip(0) =~= texts(args@));
                Invocation {
                    program: Program::Current,
                    args: copy_texts(args.as_slice(), 0),
                    envs: env.internal(bin_name),
                }
            },
            Command::External { name, args } => {
                assert(texts(args@).skip(0) =~= texts(args@));
                Invocation {
                    program: Program::Named(name.clone()),
                    args: copy_texts(args.as_slice(), 0),
                    envs: env.external(),
                }
            },
        }
    }
}

/// Where the input of a command comes from.
#[derive(Clone, Copy, Debug, PartialEq, Eq, Structural)]
pub enum StdinSource {
    /// From nowhere: the input is closed.
    Null,
    /// From the output of the command before it.
    Previous,
    /// From a pipe that the parent writes to.
    Piped,
}

/// A pipeline while it is built, as far as its input is concerned.
#[derive(Clone, Copy, Debug, PartialEq, Eq)]
pub struct Pipeline {
    stdin_mode: StdinMode,
    commands: usize,
}

/// Where the input of the next command comes from, in a pipeline of the
/// given mode that holds `commands` commands. A command that does not
/// read gets no input. The first command of a pipeline that reads gets a
/// pipe from the parent; in a pipeline that does not read it gets no
/// input. Every later command reads the output of the one before it.
pub open spec fn stdin_source(pipeline: StdinMode, commands: nat, command: StdinMode) -> StdinSource {
    if command == StdinMode::Disconnected {
        StdinSource::Null
    } else if commands > 0 {
        StdinSource::Previous
    } else if pipeline == StdinMode::Disconnected {
        StdinSource::Null
    } else {
        StdinSource::Piped
    }
}

impl Pipeline {
    /// The mode of the pipeline: disconnected as soon as the expression or
    /// one of the commands does not read.
    pub closed spec fn mode(&self) -> StdinMode {
        self.stdin_mode
    }

    /// Number of commands.
    pub closed spec fn len(&self) -> nat {
        self.commands as nat
    }

    /// True where the parent feeds the pipeline: it reads and has a first
    /// command.
    pub open spec fn feeds(&self) -> bool {
        self.mode() == StdinMode::Connected && self.len() > 0
    }

    /// An empty pipeline of the given mode.
    pub fn new(stdin_mode: StdinMode) -> (pipeline: Self)
        ensures
            pipeline.mode() == stdin_mode,
            pipeline.len() == 0,
    {
        Self { stdin_mode, commands: 0 }
    }

    /// Tells whether the pipeline holds no command.
    pub fn is_empty(&self) -> (empty: bool)
        ensures
            empty == (self.len() == 0),
    {
        self.commands == 0
    }

    /// Tells whether the parent feeds the pipeline.
    pub fn has_stdin(&self) -> (fed: bool)
        ensures
            fed == self.feeds(),
    {
        self.commands > 0 && match self.stdin_mode {
            StdinMode::Connected => true,
            StdinMode::Disconnected => false,
        }
    }

    /// Adds a command and tells where its input comes from. A command
    /// that does not read disconnects the whole pipeline.
    pub fn add_command(&mut self, stdin_mode: StdinMode) -> (source: StdinSource)
        requires
            old(self).len() < usize::MAX,
        ensures
            source == stdin_source(old(self).mode(), old(self).len(), stdin_mode),
            final(self).len() == old(self).len() + 1,
            final(self).mode() == (if stdin_mode == StdinMode::Disconnected {
                StdinMode::Disconnected
            } else {
                old(self).mode()
            }),
    {
        let source = match stdin_mode {
            StdinMode::Disconnected => StdinSource::Null,
            StdinMode::Connected => if self.commands > 0 {
                StdinSource::Previous
            } else {
                match self.stdin_mode {
                    StdinMode::Disconnected => StdinSource::Null,
                    StdinMode::Connected => StdinSource::Piped,
                }
            },
        };
        match stdin_mode {
            StdinMode::Disconnected => {
                self.stdin_mode = StdinMode::Disconnected;
            },
            StdinMode::Connected => {},
        }
        self.commands = self.commands + 1;
        source
    }
}

} // verus!
