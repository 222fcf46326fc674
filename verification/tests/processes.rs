use rew::command::{Group, Meta};
use rew::env::{Args, BufMode, Env};
use rew::process::{Command, Invocation, Pipeline, Program, StdinMode, StdinSource};
use rew::shell::Shell;
use rew::spawn::{
    command_context, env_context, exit_error, Context, ContextItem, Exit, Failure, Spawned, Waited,
    Written,
};

fn texts(values: &[&str]) -> Vec<String> {
    values.iter().map(|value| value.to_string()).collect()
}

fn pairs(variables: &[(&str, &str)]) -> Vec<(String, String)> {
    variables
        .iter()
        .map(|(name, value)| (name.to_string(), value.to_string()))
        .collect()
}

fn env() -> Env {
    Env::new(
        "x",
        Args {
            null: false,
            buf_mode: BufMode::Line,
            buf_size: 1024,
        },
    )
}

const UPPER: Meta = Meta {
    name: "upper",
    group: Group::Mappers,
};

const SEQ: Meta = Meta {
    name: "seq",
    group: Group::Generators,
};

#[test]
fn external_mark_wins_over_a_built_in_name() {
    assert_eq!(
        Command::detect("seq", &texts(&["1", "3"]), true),
        Command::External {
            name: "seq".to_string(),
            args: texts(&["1", "3"]),
        }
    );
    assert_eq!(
        Command::detect("rew", &texts(&["upper"]), true),
        Command::External {
            name: "rew".to_string(),
            args: texts(&["upper"]),
        }
    );
}

#[test]
fn built_in_name_is_an_internal_command() {
    assert_eq!(
        Command::detect("upper", &[], false),
        Command::Internal {
            meta: UPPER,
            args: vec![],
        }
    );
    assert_eq!(
        Command::detect("seq", &texts(&["1..3"]), false),
        Command::Internal {
            meta: SEQ,
            args: texts(&["1..3"]),
        }
    );
    assert_eq!(Command::internal(UPPER), Command::detect("upper", &[], false));
}

#[test]
fn unknown_name_is_an_external_command() {
    assert_eq!(
        Command::detect("tr", &texts(&["-d", "aeiou"]), false),
        Command::External {
            name: "tr".to_string(),
            args: texts(&["-d", "aeiou"]),
        }
    );
}

#[test]
fn own_name_is_unwrapped() {
    assert_eq!(
        Command::detect("rew", &texts(&["seq", "1", "3"]), false),
        Command::Internal {
            meta: SEQ,
            args: texts(&["1", "3"]),
        }
    );
    assert_eq!(
        Command::detect("rew", &texts(&["--help"]), false),
        Command::UnknownInternal {
            args: texts(&["--help"]),
        }
    );
    assert_eq!(
        Command::detect("rew", &[], false),
        Command::UnknownInternal { args: vec![] }
    );
}

#[test]
fn input_is_read_unless_the_command_generates() {
    assert_eq!(
        Command::detect("upper", &[], false).stdin_mode(),
        StdinMode::Connected
    );
    assert_eq!(
        Command::detect("seq", &[], false).stdin_mode(),
        StdinMode::Disconnected
    );
    assert_eq!(
        Command::detect("seq", &[], true).stdin_mode(),
        StdinMode::Connected
    );
    assert_eq!(
        Command::detect("rew", &[], false).stdin_mode(),
        StdinMode::Connected
    );
    assert_eq!(
        Command::detect("rew", &texts(&["--help"]), false).stdin_mode(),
        StdinMode::Connected
    );
    assert_eq!(
        Command::detect("rew", &texts(&["seq"]), false).stdin_mode(),
        StdinMode::Disconnected
    );
}

#[test]
fn internal_command_runs_this_program() {
    assert_eq!(
        Command::detect("seq", &texts(&["1", "3"]), false).build(&env(), "rew"),
        Invocation {
            program: Program::Current,
            args: texts(&["seq", "1", "3"]),
            envs: pairs(&[
                ("REW_NULL", "false"),
                ("REW_BUF_MODE", "line"),
                ("REW_BUF_SIZE", "1024"),
                ("_REW_SPAWNED_BY", "rew x"),
            ]),
        }
    );
    assert_eq!(
        Command::detect("rew", &texts(&["-x"]), false).build(&env(), "rew"),
        Invocation {
            program: Program::Current,
            args: texts(&["-x"]),
            envs: env().internal("rew"),
        }
    );
}

#[test]
fn external_command_runs_the_named_program() {
    assert_eq!(
        Command::detect("tr", &texts(&["a", "b"]), false).build(&env(), "rew"),
        Invocation {
            program: Program::Named("tr".to_string()),
            args: texts(&["a", "b"]),
            envs: pairs(&[("PYTHONUNBUFFERED", "1")]),
        }
    );
}

#[test]
fn shell_runs_a_command_line() {
    assert_eq!(Shell::default_for(false).name, "sh");
    assert_eq!(Shell::default_for(true).name, "cmd");
    assert_eq!(
        Shell::new("bash".to_string()).build_command("echo $0", false),
        Invocation {
            program: Program::Named("bash".to_string()),
            args: texts(&["-c", "echo $0"]),
            envs: vec![],
        }
    );
    assert_eq!(
        Shell::default_for(true).build_command("dir", true),
        Invocation {
            program: Program::Named("cmd".to_string()),
            args: texts(&["/C", "dir"]),
            envs: vec![],
        }
    );
}

#[test]
fn first_command_is_fed_by_the_parent() {
    let mut pipeline = Pipeline::new(StdinMode::Connected);
    assert!(pipeline.is_empty());
    assert!(!pipeline.has_stdin());
    assert_eq!(pipeline.add_command(StdinMode::Connected), StdinSource::Piped);
    assert_eq!(
        pipeline.add_command(StdinMode::Connected),
        StdinSource::Previous
    );
    assert!(!pipeline.is_empty());
    assert!(pipeline.has_stdin());
}

#[test]
fn command_that_does_not_read_disconnects_the_pipeline() {
    let mut pipeline = Pipeline::new(StdinMode::Connected);
    assert_eq!(pipeline.add_command(StdinMode::Disconnected), StdinSource::Null);
    assert!(!pipeline.has_stdin());
    assert_eq!(
        pipeline.add_command(StdinMode::Connected),
        StdinSource::Previous
    );
    assert!(!pipeline.has_stdin());

    let mut pipeline = Pipeline::new(StdinMode::Connected);
    assert_eq!(pipeline.add_command(StdinMode::Connected), StdinSource::Piped);
    assert!(pipeline.has_stdin());
    assert_eq!(pipeline.add_command(StdinMode::Disconnected), StdinSource::Null);
    assert!(!pipeline.has_stdin());
}

#[test]
fn expression_that_does_not_read_is_never_fed() {
    let mut pipeline = Pipeline::new(StdinMode::Disconnected);
    assert_eq!(pipeline.add_command(StdinMode::Connected), StdinSource::Null);
    assert_eq!(
        pipeline.add_command(StdinMode::Connected),
        StdinSource::Previous
    );
    assert!(!pipeline.has_stdin());
}

fn context(items: &[(&'static str, &str)]) -> Context {
    let mut context = Context::new();
    for (name, value) in items {
        context.add_item(ContextItem {
            name,
            value: value.to_string(),
        });
    }
    context
}

fn failure(messages: &[&str]) -> Failure {
    Failure {
        messages: texts(messages),
    }
}

#[test]
fn facts_are_put_around_a_failure() {
    let context = context(&[
        ("command", "\"tr\" \"-x\""),
        ("environment", "A=\"1\" "),
        ("expression", "{tr -x}"),
    ]);
    assert_eq!(
        context.apply_to_err(Failure::new("No such file")),
        failure(&[
            "command: \"tr\" \"-x\"",
            "environment: A=\"1\" ",
            "expression: {tr -x}",
            "No such file",
        ])
    );
    assert_eq!(
        Context::new().apply_to_err(failure(&["a", "b"])),
        failure(&["a", "b"])
    );
    assert_eq!(
        Failure::new("inner").context("outer".to_string()),
        failure(&["outer", "inner"])
    );
    assert_eq!(
        ContextItem {
            name: "command",
            value: "x".to_string()
        }
        .message(),
        "command: x"
    );
}

#[test]
fn derived_handle_gets_a_copy_of_the_facts() {
    let child = Spawned::new(1u8, context(&[("command", "cat")]));
    let mut stdin = child.split("stdin");
    assert_eq!(stdin.inner, "stdin");
    assert_eq!(stdin.context, child.context);
    stdin.context.add_item(ContextItem {
        name: "expression",
        value: "{}".to_string(),
    });
    assert_eq!(child.context, context(&[("command", "cat")]));
    assert_eq!(
        stdin.context,
        context(&[("command", "cat"), ("expression", "{}")])
    );
    assert_eq!(child.context.duplicate(), child.context);
    let mapped = child.map(|inner| inner + 1);
    assert_eq!(mapped.inner, 2);
    assert_eq!(mapped.context, context(&[("command", "cat")]));
}

#[test]
fn end_of_a_child_is_worded() {
    assert_eq!(
        exit_error(Exit::Code(2)),
        "child process exited with code 2"
    );
    assert_eq!(
        exit_error(Exit::Code(-1)),
        "child process exited with code -1"
    );
    assert_eq!(
        exit_error(Exit::Code(i32::MIN)),
        "child process exited with code -2147483648"
    );
    assert_eq!(
        exit_error(Exit::Code(i32::MAX)),
        "child process exited with code 2147483647"
    );
    assert_eq!(
        exit_error(Exit::Signal),
        "child process was terminated by a signal"
    );
}

#[test]
fn waiting_tells_whether_the_child_ended_well() {
    let context = context(&[("command", "cat")]);
    assert_eq!(context.judge_wait(Waited::Running), Ok(false));
    assert_eq!(context.judge_wait(Waited::Exited(Exit::Success)), Ok(true));
    assert_eq!(
        context.judge_wait(Waited::Exited(Exit::Code(1))),
        Err(failure(&[
            "child process execution failed",
            "command: cat",
            "child process exited with code 1",
        ]))
    );
    assert_eq!(
        context.judge_wait(Waited::Exited(Exit::Signal)),
        Err(failure(&[
            "child process execution failed",
            "command: cat",
            "child process was terminated by a signal",
        ]))
    );
    assert_eq!(
        context.judge_wait(Waited::Failed("no child".to_string())),
        Err(failure(&[
            "child process execution failed",
            "command: cat",
            "no child",
        ]))
    );
}

#[test]
fn closed_input_is_no_failure() {
    let context = context(&[("command", "head")]);
    assert_eq!(context.judge_write(Written::Done), Ok(true));
    assert_eq!(context.judge_write(Written::BrokenPipe), Ok(false));
    assert_eq!(
        context.judge_write(Written::Failed("disk full".to_string())),
        Err(failure(&[
            "failed to write to child process stdin",
            "command: head",
            "disk full",
        ]))
    );
}

#[test]
fn command_is_shown_with_quoted_words() {
    assert_eq!(
        command_context("tr", &texts(&["-d", "a \"b\"\n"])),
        ContextItem {
            name: "command",
            value: "\"tr\" \"-d\" \"a \\\"b\\\"\\n\"".to_string(),
        }
    );
    assert_eq!(command_context("cat", &[]).value, "\"cat\"");
}

#[test]
fn variables_are_shown_with_quoted_values() {
    assert_eq!(
        env_context(&pairs(&[("A", "1"), ("B", "x y")])),
        ContextItem {
            name: "environment",
            value: "A=\"1\" B=\"x y\" ".to_string(),
        }
    );
    assert_eq!(env_context(&[]).value, "");
}

#[test]
fn started_command_is_known_by_command_and_environment() {
    assert_eq!(
        Context::of_command("rew", &texts(&["cat"]), &pairs(&[("REW_NULL", "false")])),
        context(&[
            ("command", "\"rew\" \"cat\""),
            ("environment", "REW_NULL=\"false\" "),
        ])
    );
    assert_eq!(
        Context::of_command("tr", &[], &[]),
        context(&[("command", "\"tr\"")])
    );
}
