//! What a run of the composing command comes to, decided before any
//! process is started.

use crate::commands::spec_cat;
use crate::commands::x::compose::{quoted, simplified, Pattern, SimplePattern};
use crate::commands::x::parser::parse_pattern;
use crate::commands::x::pattern::{
    Command, CommandView, Error, Expression, ExpressionValue, ExpressionValueView, ExpressionView,
    ItemView,
};
use crate::env::Env;
use crate::pattern::lexer::{views, Spanned};
use crate::process::{
    invocation, reads_input, resolve, stdin_source, Invocation, InvocationView, Pipeline, StdinMode,
    StdinSource,
};
use crate::shell::{shell_invocation, Shell};
use crate::text::{push_text, texts};
use vstd::prelude::*;

verus! {

/// The quote asked for by giving the quoting option `count` times: none,
/// the single quote, or the double quote.
pub open spec fn spec_quote(count: u8) -> Option<char> {
    if count == 0 {
        None
    } else if count == 1 {
        Some('\'')
    } else {
        Some('"')
    }
}

/// The quote asked for by giving the quoting option `count` times.
pub fn quote_char(count: u8) -> (quote: Option<char>)
    ensures
        quote == spec_quote(count),
{
    if count == 0 {
        None
    } else if count == 1 {
        Some('\'')
    } else {
        Some('"')
    }
}

/// The way a pattern is executed.
#[derive(Debug, PartialEq)]
pub enum Plan {
    /// Without any child process.
    Simple(SimplePattern),
    /// With one pipeline of child processes for each expression.
    General(Pattern),
}

/// The items that are executed: those of the pattern, in quotes where a
/// quote is asked for.
pub open spec fn executed(items: Seq<Spanned<ItemView>>, quote: Option<char>) -> Seq<
    Spanned<ItemView>,
> {
    match quote {
        Some(quote) => quoted(items, quote),
        None => items,
    }
}

/// Decides how a pattern is executed: in its simple form where it has
/// one, with pipelines otherwise.
pub fn plan(pattern: Pattern, quote: u8) -> (plan: Plan)
    ensures
        match simplified(executed(pattern@, spec_quote(quote))) {
            Some(items) => plan matches Plan::Simple(simple) && simple@ == items,
            None => plan matches Plan::General(general) && general@ == executed(
                pattern@,
                spec_quote(quote),
            ),
        },
{
    let pattern = match quote_char(quote) {
        Some(quote) => pattern.quote_expressions(quote),
        None => pattern,
    };
    match pattern.try_simplify() {
        Some(simple) => Plan::Simple(simple),
        None => Plan::General(pattern),
    }
}

/// The pattern that the given parts make: the parts with one space
/// between each two of them.
pub open spec fn joined_parts(parts: Seq<Seq<char>>) -> Seq<char>
    decreases parts.len(),
{
    if parts.len() == 0 {
        Seq::empty()
    } else if parts.len() == 1 {
        parts[0]
    } else {
        joined_parts(parts.drop_last()) + " "@ + parts.last()
    }
}

/// Joins the parts of a pattern given on the command line.
pub fn join_parts(parts: &[String]) -> (pattern: String)
    ensures
        pattern@ == joined_parts(texts(parts@)),
{
    let mut pattern = String::new();
    let mut i: usize = 0;
    let ghost all = texts(parts@);
    assert(all.take(0) =~= Seq::empty());
    while i < parts.len()
        invariant
            i <= parts.len(),
            all == texts(parts@),
            pattern@ == joined_parts(all.take(i as int)),
        decreases parts.len() - i,
    {
        if i > 0 {
            push_text(&mut pattern, " ");
        }
        push_text(&mut pattern, parts[i].as_str());
        i += 1;
        proof {
            let prefix = all.take(i as int);
            assert(prefix.drop_last() =~= all.take(i as int - 1));
            assert(prefix.last() == parts@[i as int - 1]@);
            assert(pattern@ =~= joined_parts(prefix));
        }
    }
    assert(all.take(parts.len() as int) =~= all);
    pattern
}

/// Reads the pattern given on the command line and decides how it is
/// executed. A pattern that is refused starts nothing.
pub fn prepare(parts: &[String], escape: char, quote: u8) -> (result: Result<Plan, Error>)
    ensures
        match parse_pattern(joined_parts(texts(parts@)), escape) {
            Err(flaw) => result is Err && result->Err_0@ == flaw,
            Ok(items) => result is Ok && match simplified(executed(items, spec_quote(quote))) {
                Some(simple) => result->Ok_0 matches Plan::Simple(pattern) && pattern@ == simple,
                None => result->Ok_0 matches Plan::General(pattern) && pattern@ == executed(
                    items,
                    spec_quote(quote),
                ),
            },
        },
{
    let source = join_parts(parts);
    match Pattern::parse(source.as_str(), escape) {
        Ok(pattern) => Ok(plan(pattern, quote)),
        Err(error) => Err(error),
    }
}

/// One process of a pipeline: how it is started and where its input comes
/// from. Its output always goes to a pipe.
#[derive(Debug, PartialEq)]
pub struct Stage {
    pub invocation: Invocation,
    pub stdin: StdinSource,
}

/// What a stage holds.
pub struct StageView {
    pub invocation: InvocationView,
    pub stdin: StdinSource,
}

impl View for Stage {
    type V = StageView;

    open spec fn view(&self) -> StageView {
        StageView { invocation: self.invocation@, stdin: self.stdin }
    }
}

/// What the environment of a run holds beside the settings.
pub struct Setup {
    /// The shell of the command lines.
    pub shell: Seq<char>,
    /// The name under which this program runs.
    pub bin_name: Seq<char>,
    /// True on Windows.
    pub windows: bool,
}

/// The mode of a pipeline after one more command: disconnected as soon as
/// a command does not read.
pub open spec fn after(mode: StdinMode, command: StdinMode) -> StdinMode {
    if command == StdinMode::Disconnected {
        StdinMode::Disconnected
    } else {
        mode
    }
}

/// The stages of the commands from index `i` on, in a pipeline that was
/// in the given mode before them.
pub open spec fn command_stages(
    commands: Seq<CommandView>,
    i: int,
    mode: StdinMode,
    env: Env,
    setup: Setup,
) -> Seq<StageView>
    decreases commands.len() - i,
{
    if i < 0 || i >= commands.len() {
        Seq::empty()
    } else {
        let resolved = resolve(commands[i].name, commands[i].args, commands[i].external);
        seq![
            StageView {
                invocation: invocation(resolved, env, setup.bin_name),
                stdin: stdin_source(mode, i as nat, reads_input(resolved)),
            },
        ] + command_stages(commands, i + 1, after(mode, reads_input(resolved)), env, setup)
    }
}

/// The mode of a pipeline after the commands from index `i` on.
pub open spec fn mode_after(commands: Seq<CommandView>, i: int, mode: StdinMode) -> StdinMode
    decreases commands.len() - i,
{
    if i < 0 || i >= commands.len() {
        mode
    } else {
        mode_after(
            commands,
            i + 1,
            after(
                mode,
                reads_input(resolve(commands[i].name, commands[i].args, commands[i].external)),
            ),
        )
    }
}

/// The mode in which the pipeline of an expression starts.
pub open spec fn initial_mode(expression: ExpressionView) -> StdinMode {
    if expression.no_stdin {
        StdinMode::Disconnected
    } else {
        StdinMode::Connected
    }
}

/// The stage that copies its input, which stands for an empty pipeline.
pub open spec fn echo_stage(mode: StdinMode, env: Env, setup: Setup) -> StageView {
    let resolved = crate::process::CommandView::Internal { meta: spec_cat(), args: Seq::empty() };
    StageView {
        invocation: invocation(resolved, env, setup.bin_name),
        stdin: stdin_source(mode, 0, reads_input(resolved)),
    }
}

/// The stages of the pipeline of an expression. A shell command is one
/// stage, run by the shell with the variables of other programs. An empty
/// pipeline is the one stage that copies its input.
pub open spec fn stages(expression: ExpressionView, env: Env, setup: Setup) -> Seq<StageView> {
    let mode = initial_mode(expression);
    match expression.value {
        ExpressionValueView::RawShell(command) => seq![
            StageView {
                invocation: InvocationView {
                    envs: env.spec_external(),
                    ..shell_invocation(setup.shell, command, setup.windows)
                },
                stdin: stdin_source(mode, 0, mode),
            },
        ],
        ExpressionValueView::Pipeline(commands) => if commands.len() == 0 {
            seq![echo_stage(mode, env, setup)]
        } else {
            command_stages(commands, 0, mode, env, setup)
        },
    }
}

/// True where the parent feeds the pipeline of an expression: the
/// expression reads the input and so does every command.
pub open spec fn fed(expression: ExpressionView) -> bool {
    match expression.value {
        ExpressionValueView::RawShell(_) => !expression.no_stdin,
        ExpressionValueView::Pipeline(commands) => mode_after(
            commands,
            0,
            initial_mode(expression),
        ) == StdinMode::Connected,
    }
}

/// True where every command from index `i` on reads its input.
pub open spec fn all_read(commands: Seq<CommandView>, i: int) -> bool {
    forall|k: int|
        i <= k < commands.len() ==> reads_input(
            resolve((#[trigger] commands[k]).name, commands[k].args, commands[k].external),
        ) == StdinMode::Connected
}

/// A pipeline stays connected exactly where it was connected and every
/// one of its commands reads its input.
pub proof fn lemma_connected_iff_all_read(commands: Seq<CommandView>, i: int, mode: StdinMode)
    requires
        0 <= i,
    ensures
        mode_after(commands, i, mode) == StdinMode::Connected <==> mode == StdinMode::Connected
            && all_read(commands, i),
    decreases commands.len() - i,
{
    if i < commands.len() {
        let command = reads_input(resolve(commands[i].name, commands[i].args, commands[i].external));
        lemma_connected_iff_all_read(commands, i + 1, after(mode, command));
        if all_read(commands, i) {
            assert(all_read(commands, i + 1));
        }
        if mode == StdinMode::Connected && command == StdinMode::Connected && all_read(
            commands,
            i + 1,
        ) {
            assert forall|k: int| i <= k < commands.len() implies reads_input(
                resolve((#[trigger] commands[k]).name, commands[k].args, commands[k].external),
            ) == StdinMode::Connected by {
                if k > i {
                    assert(all_read(commands, i + 1));
                }
            }
        }
        if !(command == StdinMode::Connected) {
            assert(!all_read(commands, i)) by {
                if all_read(commands, i) {
                    assert(reads_input(
                        resolve(commands[i].name, commands[i].args, commands[i].external),
                    ) == StdinMode::Connected);
                }
            }
        }
    }
}

/// The parent feeds the pipeline of an expression exactly where the
/// expression is not marked as not reading the input and every one of its
/// commands reads its input.
pub proof fn lemma_fed_iff_all_read(expression: ExpressionView)
    ensures
        fed(expression) <==> !expression.no_stdin && (
        expression.value matches ExpressionValueView::Pipeline(commands) ==> all_read(commands, 0)),
{
    if let ExpressionValueView::Pipeline(commands) = expression.value {
        lemma_connected_iff_all_read(commands, 0, initial_mode(expression));
    }
}

/// An expression marked as not reading the input is never fed.
pub proof fn lemma_no_stdin_is_not_fed(expression: ExpressionView)
    requires
        expression.no_stdin,
    ensures
        !fed(expression),
{
    if let ExpressionValueView::Pipeline(commands) = expression.value {
        lemma_disconnected_stays(commands, 0);
    }
}

/// A disconnected pipeline stays disconnected.
pub proof fn lemma_disconnected_stays(commands: Seq<CommandView>, i: int)
    ensures
        mode_after(commands, i, StdinMode::Disconnected) == StdinMode::Disconnected,
    decreases commands.len() - i,
{
    if 0 <= i < commands.len() {
        lemma_disconnected_stays(commands, i + 1);
    }
}

/// The pipeline of an expression as it is to be started.
#[derive(Debug, PartialEq)]
pub struct PipelinePlan {
    pub stages: Vec<Stage>,
    /// True where the parent feeds the first stage.
    pub has_stdin: bool,
}

/// Plans the pipeline of an expression, where `bin_name` is the name
/// under which this program runs and `windows` tells the platform.
pub fn build_pipeline(
    env: &Env,
    shell: &Shell,
    expression: &Expression,
    bin_name: &str,
    windows: bool,
) -> (plan: PipelinePlan)
    ensures
        views(plan.stages@) == stages(
            expression@,
            *env,
            Setup { shell: shell.name@, bin_name: bin_name@, windows },
        ),
        plan.has_stdin == fed(expression@),
{
    let ghost setup = Setup { shell: shell.name@, bin_name: bin_name@, windows };
    let stdin_mode = if expression.no_stdin {
        StdinMode::Disconnected
    } else {
        StdinMode::Connected
    };
    let mut pipeline = Pipeline::new(stdin_mode);
    let mut stages: Vec<Stage> = Vec::new();
    match &expression.value {
        ExpressionValue::RawShell(command) => {
            let mut invocation = shell.build_command(command.as_str(), windows);
            invocation.envs = env.external();
            let stdin = pipeline.add_command(stdin_mode);
            stages.push(Stage { invocation, stdin });
            assert(views(stages@) =~= crate::commands::x::plan::stages(expression@, *env, setup));
        },
        ExpressionValue::Pipeline(commands) => {
            let mut i: usize = 0;
            let ghost all = views(commands@);
            assert(views(stages@) =~= Seq::empty());
            while i < commands.len()
                invariant
                    i <= commands.len(),
                    all == views(commands@),
                    pipeline.len() == i,
                    setup == (Setup { shell: shell.name@, bin_name: bin_name@, windows }),
                    command_stages(all, 0, stdin_mode, *env, setup) == views(stages@)
                        + command_stages(all, i as int, pipeline.mode(), *env, setup),
                    mode_after(all, 0, stdin_mode) == mode_after(all, i as int, pipeline.mode()),
                decreases commands.len() - i,
            {
                let ghost before = stages@;
                let ghost rest = command_stages(all, i as int + 1, after(
                    pipeline.mode(),
                    reads_input(resolve(all[i as int].name, all[i as int].args, all[i as int].external)),
                ), *env, setup);
                assert(all[i as int] == commands@[i as int]@);
                let command = &commands[i];
                let resolved = crate::process::Command::detect(
                    command.name.as_str(),
                    command.args.as_slice(),
                    command.external,
                );
                let invocation = resolved.build(env, bin_name);
                let stdin = pipeline.add_command(resolved.stdin_mode());
                let stage = Stage { invocation, stdin };
                proof {
                    assert(views(before.push(stage)) =~= views(before).push(stage@));
                    assert(views(before) + (seq![stage@] + rest) =~= views(before).push(stage@)
                        + rest);
                }
                stages.push(stage);
                i += 1;
            }
            if pipeline.is_empty() {
                let resolved = crate::process::Command::internal(crate::commands::cat());
                let invocation = resolved.build(env, bin_name);
                let stdin = pipeline.add_command(resolved.stdin_mode());
                stages.push(Stage { invocation, stdin });
                assert(views(stages@) =~= seq![echo_stage(stdin_mode, *env, setup)]);
            } else {
                assert(views(stages@) + Seq::<StageView>::empty() =~= views(stages@));
            }
        },
    }
    PipelinePlan { stages, has_stdin: pipeline.has_stdin() }
}

} // verus!
