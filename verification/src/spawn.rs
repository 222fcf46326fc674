//! What is known of a child process when something goes wrong with it.

use crate::text::{decimal_text, pairs, push_decimal, push_text, text_of, texts};
use vstd::prelude::*;

verus! {

/// One fact about a child process, such as the command it runs.
#[derive(Debug, PartialEq)]
pub struct ContextItem {
    pub name: &'static str,
    pub value: String,
}

impl ContextItem {
    /// A copy of the fact.
    pub fn duplicate(&self) -> (copy: ContextItem)
        ensures
            copy.name == self.name,
            copy.value@ == self.value@,
    {
        ContextItem { name: self.name, value: self.value.clone() }
    }

    /// How the fact is worded: its name, a colon and its value.
    pub open spec fn spec_message(&self) -> Seq<char> {
        self.name@ + ": "@ + self.value@
    }

    /// Words the fact.
    pub fn message(&self) -> (text: String)
        ensures
            text@ == self.spec_message(),
    {
        let mut text = String::new();
        push_text(&mut text, self.name);
        push_text(&mut text, ": ");
        push_text(&mut text, self.value.as_str());
        assert(text@ =~= self.spec_message());
        text
    }
}

/// A failure as the chain of its messages, the outermost first.
#[derive(Debug, PartialEq)]
pub struct Failure {
    pub messages: Vec<String>,
}

impl View for Failure {
    type V = Seq<Seq<char>>;

    open spec fn view(&self) -> Seq<Seq<char>> {
        texts(self.messages@)
    }
}

impl Failure {
    /// A failure with one message.
    pub fn new(message: &str) -> (failure: Failure)
        ensures
            failure@ == seq![message@],
    {
        let mut messages: Vec<String> = Vec::new();
        messages.push(text_of(message));
        assert(texts(messages@) =~= seq![message@]);
        Failure { messages }
    }

    /// The failure with one more message around it.
    pub fn context(self, message: String) -> (failure: Failure)
        ensures
            failure@ == seq![message@] + self@,
    {
        let mut messages = self.messages;
        messages.insert(0, message);
        assert(texts(messages@) =~= seq![message@] + texts(self.messages@));
        Failure { messages }
    }
}

/// The facts known of a child process, in the order in which they were
/// learned.
#[derive(Debug, PartialEq)]
pub struct Context {
    items: Vec<ContextItem>,
}

/// The messages of the facts, in the order in which the facts were
/// learned.
pub open spec fn fact_messages(items: Seq<ContextItem>) -> Seq<Seq<char>> {
    items.map_values(|item: ContextItem| item.spec_message())
}

impl Default for Context {
    fn default() -> (context: Self)
        ensures
            context.items().len() == 0,
    {
        Context::new()
    }
}

impl Context {
    /// The facts, in the order in which they were learned.
    pub closed spec fn items(&self) -> Seq<ContextItem> {
        self.items@
    }

    /// No facts.
    pub fn new() -> (context: Context)
        ensures
            context.items().len() == 0,
    {
        Context { items: Vec::new() }
    }

    /// Adds a fact after those that are known.
    pub fn add_item(&mut self, item: ContextItem)
        ensures
            final(self).items() == old(self).items().push(item),
    {
        self.items.push(item);
    }

    /// A copy of the facts, for a handle derived from the one they belong
    /// to.
    pub fn duplicate(&self) -> (copy: Context)
        ensures
            copy.items().len() == self.items().len(),
            forall|i: int|
                0 <= i < self.items().len() ==> (#[trigger] copy.items()[i]).name
                    == self.items()[i].name && copy.items()[i].value@ == self.items()[i].value@,
            fact_messages(copy.items()) == fact_messages(self.items()),
    {
        let mut items: Vec<ContextItem> = Vec::new();
        let mut i: usize = 0;
        while i < self.items.len()
            invariant
                i <= self.items.len(),
                items.len() == i,
                forall|k: int|
                    0 <= k < i ==> (#[trigger] items[k]).name == self.items[k].name
                        && items[k].value@ == self.items[k].value@,
            decreases self.items.len() - i,
        {
            items.push(self.items[i].duplicate());
            i += 1;
        }
        assert(fact_messages(items@) =~= fact_messages(self.items@));
        Context { items }
    }

    /// Puts the facts between a failure and what is said of it later: the
    /// messages of the facts, in the order in which they were learned,
    /// come before the messages of the failure.
    pub fn apply_to_err(&self, error: Failure) -> (failure: Failure)
        ensures
            failure@ == fact_messages(self.items()) + error@,
    {
        let mut messages: Vec<String> = Vec::new();
        let mut i: usize = 0;
        assert(texts(messages@) =~= fact_messages(self.items@.take(0)));
        while i < self.items.len()
            invariant
                i <= self.items.len(),
                texts(messages@) == fact_messages(self.items@.take(i as int)),
            decreases self.items.len() - i,
        {
            let ghost before = messages@;
            let message = self.items[i].message();
            messages.push(message);
            i += 1;
            assert(texts(messages@) =~= texts(before).push(message@));
            assert(fact_messages(self.items@.take(i as int)) =~= fact_messages(
                self.items@.take(i as int - 1),
            ).push(message@));
        }
        assert(self.items@.take(self.items.len() as int) =~= self.items@);
        let ghost facts = messages@;
        let mut rest = error.messages;
        messages.append(&mut rest);
        assert(texts(messages@) =~= texts(facts) + texts(error.messages@));
        Failure { messages }
    }
}

/// What the `Debug` formatting of the standard library writes for a text:
/// the text between double quotes, with the characters that cannot stand
/// there as they are written as escape sequences.
pub uninterp spec fn debug_text(text: Seq<char>) -> Seq<char>;

/// Formats a text with the `Debug` formatting of the standard library,
/// whose result depends on the text alone.
#[verifier::external_body]
fn debug_format(text: &str) -> (quoted: String)
    ensures
        quoted@ == debug_text(text@),
{
    format!("{text:?}")
}

/// How a command is shown: the program and each argument in their debug
/// form, with one space between them.
pub open spec fn command_line(program: Seq<char>, args: Seq<Seq<char>>) -> Seq<char>
    decreases args.len(),
{
    if args.len() == 0 {
        debug_text(program)
    } else {
        command_line(program, args.drop_last()) + " "@ + debug_text(args.last())
    }
}

/// How variables are shown: for each of them its name, an equals sign,
/// its value in its debug form and a space.
pub open spec fn env_line(envs: Seq<(Seq<char>, Seq<char>)>) -> Seq<char>
    decreases envs.len(),
{
    if envs.len() == 0 {
        Seq::empty()
    } else {
        env_line(envs.drop_last()) + envs.last().0 + "="@ + debug_text(envs.last().1) + " "@
    }
}

/// Shows a command.
pub fn command_context(program: &str, args: &[String]) -> (item: ContextItem)
    ensures
        item.name@ == "command"@,
        item.value@ == command_line(program@, texts(args@)),
{
    let mut value = debug_format(program);
    let mut i: usize = 0;
    let ghost all = texts(args@);
    assert(all.take(0) =~= Seq::empty());
    while i < args.len()
        invariant
            i <= args.len(),
            all == texts(args@),
            value@ == command_line(program@, all.take(i as int)),
        decreases args.len() - i,
    {
        push_text(&mut value, " ");
        let quoted = debug_format(args[i].as_str());
        push_text(&mut value, quoted.as_str());
        i += 1;
        proof {
            let prefix = all.take(i as int);
            assert(prefix.drop_last() =~= all.take(i as int - 1));
            assert(prefix.last() == args@[i as int - 1]@);
        }
    }
    assert(all.take(args.len() as int) =~= all);
    ContextItem { name: "command", value }
}

/// Shows the variables added to the environment of a command.
pub fn env_context(envs: &[(String, String)]) -> (item: ContextItem)
    ensures
        item.name@ == "environment"@,
        item.value@ == env_line(pairs(envs@)),
{
    let mut value = String::new();
    let mut i: usize = 0;
    let ghost all = pairs(envs@);
    assert(all.take(0) =~= Seq::empty());
    while i < envs.len()
        invariant
            i <= envs.len(),
            all == pairs(envs@),
            value@ == env_line(all.take(i as int)),
        decreases envs.len() - i,
    {
        push_text(&mut value, envs[i].0.as_str());
        push_text(&mut value, "=");
        let quoted = debug_format(envs[i].1.as_str());
        push_text(&mut value, quoted.as_str());
        push_text(&mut value, " ");
        i += 1;
        proof {
            let prefix = all.take(i as int);
            assert(prefix.drop_last() =~= all.take(i as int - 1));
            assert(prefix.last() == (envs@[i as int - 1].0@, envs@[i as int - 1].1@));
            assert(value@ =~= env_line(prefix));
        }
    }
    assert(all.take(envs.len() as int) =~= all);
    ContextItem { name: "environment", value }
}

impl Context {
    /// The facts known of a command when it is started: the command, and
    /// the variables added to its environment where there are any.
    pub fn of_command(program: &str, args: &[String], envs: &[(String, String)]) -> (context:
        Context)
        ensures
            context.items().len() == (if envs@.len() > 0 {
                2nat
            } else {
                1nat
            }),
            context.items()[0].name@ == "command"@,
            context.items()[0].value@ == command_line(program@, texts(args@)),
            envs@.len() > 0 ==> context.items()[1].name@ == "environment"@
                && context.items()[1].value@ == env_line(pairs(envs@)),
    {
        let mut context = Context::new();
        context.add_item(command_context(program, args));
        if envs.len() > 0 {
            context.add_item(env_context(envs));
        }
        context
    }
}

/// A handle of a child process with the facts known of that process.
pub struct Spawned<T> {
    pub inner: T,
    pub context: Context,
}

impl<T> Spawned<T> {
    /// Joins a handle and the facts known of its process.
    pub fn new(inner: T, context: Context) -> (spawned: Self)
        ensures
            spawned.inner == inner,
            spawned.context == context,
    {
        Self { inner, context }
    }

    /// The handle that `mapper` makes of this one, with the same facts.
    pub fn map<V, F: Fn(T) -> V>(self, mapper: F) -> (spawned: Spawned<V>)
        requires
            mapper.requires((self.inner,)),
        ensures
            mapper.ensures((self.inner,), spawned.inner),
            spawned.context == self.context,
    {
        Spawned::new(mapper(self.inner), self.context)
    }

    /// Another handle of the same process, with a copy of the facts.
    pub fn split<V>(&self, inner: V) -> (spawned: Spawned<V>)
        ensures
            spawned.inner == inner,
            spawned.context.items().len() == self.context.items().len(),
            forall|i: int|
                0 <= i < self.context.items().len() ==> (#[trigger] spawned.context.items()[i]).name
                    == self.context.items()[i].name && spawned.context.items()[i].value@
                    == self.context.items()[i].value@,
            fact_messages(spawned.context.items()) == fact_messages(self.context.items()),
    {
        Spawned::new(inner, self.context.duplicate())
    }
}

/// How a child process ended.
#[derive(Clone, Copy, Debug, PartialEq, Eq)]
pub enum Exit {
    /// It gave the code 0.
    Success,
    /// It gave another code.
    Code(i32),
    /// It gave no code: a signal ended it.
    Signal,
}

/// The decimal form of an exit code.
pub open spec fn code_text(code: i32) -> Seq<char> {
    if code < 0 {
        seq!['-'] + decimal_text((-(code as int)) as nat)
    } else {
        decimal_text(code as nat)
    }
}

/// What is said of a child that did not end well.
pub open spec fn exit_text(exit: Exit) -> Seq<char> {
    match exit {
        Exit::Code(code) => "child process exited with code "@ + code_text(code),
        _ => "child process was terminated by a signal"@,
    }
}

/// Words the end of a child that did not end well.
pub fn exit_error(exit: Exit) -> (text: String)
    ensures
        text@ == exit_text(exit),
{
    let mut text = String::new();
    match exit {
        Exit::Code(code) => {
            push_text(&mut text, "child process exited with code ");
            if code < 0 {
                text.push('-');
                let magnitude: i64 = -(code as i64);
                push_decimal(&mut text, magnitude as usize);
            } else {
                push_decimal(&mut text, code as usize);
            }
        },
        _ => {
            push_text(&mut text, "child process was terminated by a signal");
        },
    }
    assert(text@ =~= exit_text(exit));
    text
}

/// What waiting for a child gave.
#[derive(Debug, PartialEq)]
pub enum Waited {
    /// The child still runs.
    Running,
    /// The child ended.
    Exited(Exit),
    /// The system refused to tell, with its message.
    Failed(String),
}

/// What was learned of a child that was waited for: whether it ended well,
/// or a failure that says that the execution failed, then what is known
/// of the child, then how it ended.
pub open spec fn wait_outcome(facts: Seq<ContextItem>, waited: Waited) -> Result<
    bool,
    Seq<Seq<char>>,
> {
    match waited {
        Waited::Running => Ok(false),
        Waited::Exited(Exit::Success) => Ok(true),
        Waited::Exited(exit) => Err(
            seq!["child process execution failed"@] + fact_messages(facts) + seq![exit_text(exit)],
        ),
        Waited::Failed(message) => Err(
            seq!["child process execution failed"@] + fact_messages(facts) + seq![message@],
        ),
    }
}

/// What writing to the input of a child gave.
#[derive(Debug, PartialEq)]
pub enum Written {
    /// All bytes were taken.
    Done,
    /// The child has closed its input.
    BrokenPipe,
    /// The system refused, with its message.
    Failed(String),
}

/// What was learned of a write to the input of a child: whether the child
/// still reads, or a failure. A closed input is no failure.
pub open spec fn write_outcome(facts: Seq<ContextItem>, written: Written) -> Result<
    bool,
    Seq<Seq<char>>,
> {
    match written {
        Written::Done => Ok(true),
        Written::BrokenPipe => Ok(false),
        Written::Failed(message) => Err(
            seq!["failed to write to child process stdin"@] + fact_messages(facts) + seq![
                message@,
            ],
        ),
    }
}

impl Context {
    /// A failure of the system, with every fact around it and `summary`
    /// outermost.
    pub fn failure(&self, summary: &str, message: String) -> (failure: Failure)
        ensures
            failure@ == seq![summary@] + fact_messages(self.items()) + seq![message@],
    {
        let mut messages: Vec<String> = Vec::new();
        messages.push(message);
        assert(texts(messages@) =~= seq![message@]);
        let inner = Failure { messages };
        let wrapped = self.apply_to_err(inner);
        let failure = wrapped.context(text_of(summary));
        assert(failure@ =~= seq![summary@] + fact_messages(self.items()) + seq![message@]);
        failure
    }

    /// Judges what waiting for the child gave.
    pub fn judge_wait(&self, waited: Waited) -> (result: Result<bool, Failure>)
        ensures
            match wait_outcome(self.items(), waited) {
                Ok(ended) => result == Ok::<bool, Failure>(ended),
                Err(messages) => result is Err && result->Err_0@ == messages,
            },
    {
        match waited {
            Waited::Running => Ok(false),
            Waited::Exited(exit) => match exit {
                Exit::Success => Ok(true),
                _ => Err(self.failure("child process execution failed", exit_error(exit))),
            },
            Waited::Failed(message) => Err(self.failure("child process execution failed", message)),
        }
    }

    /// Judges what writing to the input of the child gave.
    pub fn judge_write(&self, written: Written) -> (result: Result<bool, Failure>)
        ensures
            match write_outcome(self.items(), written) {
                Ok(open) => result == Ok::<bool, Failure>(open),
                Err(messages) => result is Err && result->Err_0@ == messages,
            },
    {
        match written {
            Written::Done => Ok(true),
            Written::BrokenPipe => Ok(false),
            Written::Failed(message) => Err(
                self.failure("failed to write to child process stdin", message),
            ),
        }
    }
}

} // verus!
