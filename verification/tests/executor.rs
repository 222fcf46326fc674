use rew::commands::upper::uppercase_block;
use rew::commands::x::compose::Pattern;
use rew::commands::x::compose::simple_records;
use rew::commands::x::executor::{
    compose_records, joins_forwarder, Composer, Demand, Forwarder,
};
use rew::commands::x::shutdown::{must_kill, Shutdown, ShutdownStep, GRACE_MILLIS};
use rew::commands::x::pattern::{Expression, Item};
use rew::commands::x::plan::{
    build_pipeline, join_parts, plan, prepare, quote_char, Plan, Stage,
};
use rew::env::{Args, BufMode, Env};
use rew::io::{LineBuffer, Separator, WriteBuffer};
use rew::process::{Invocation, Program, StdinSource};
use rew::shell::Shell;

fn texts(values: &[&str]) -> Vec<String> {
    values.iter().map(|value| value.to_string()).collect()
}

fn env(buf_mode: BufMode) -> Env {
    Env::new(
        "x",
        Args {
            null: false,
            buf_mode,
            buf_size: 64,
        },
    )
}

fn parse(pattern: &str) -> Pattern {
    Pattern::parse(pattern, '\\').unwrap()
}

fn expression(pattern: &str) -> Expression {
    let mut items = rew::commands::x::parser::parse_items(pattern, '\\').unwrap();
    match items.remove(0).value {
        Item::Expression(expression) => expression,
        Item::Constant(value) => panic!("constant {value}"),
    }
}

fn records(input: &[u8], separator: Separator) -> Vec<Vec<u8>> {
    let mut buffer = LineBuffer::new(separator, 64);
    buffer.feed(input);
    let mut records = Vec::new();
    while let Some(record) = buffer.finish().unwrap() {
        records.push(record);
    }
    records
}

/// Runs a pattern on input records; `child` stands for the pipeline of the
/// expression with the given number and gives its next record, if any.
fn run(
    args: &[&str],
    quote: u8,
    input: &[u8],
    separator: Separator,
    mut child: impl FnMut(usize, usize, &[Vec<u8>]) -> Option<Vec<u8>>,
) -> Vec<u8> {
    let pattern = parse(&args.join(" "));
    let input = records(input, separator);
    let mut writer = WriteBuffer::new(separator, true, 16);
    let mut out = Vec::new();
    match plan(pattern, quote) {
        Plan::Simple(simple) => {
            for record in &input {
                let mut composed = Vec::new();
                simple.compose(record, &mut composed);
                out.extend(writer.write_record(&composed).unwrap_or_default());
            }
        }
        Plan::General(general) => {
            let mut composer = Composer::new(&general);
            let mut round = 0;
            loop {
                match composer.poll() {
                    Demand::Record(number) => {
                        let record = child(number, round, &input);
                        if composer.supply_or_end(record.as_deref()) {
                            break;
                        }
                    }
                    Demand::Flush => {
                        out.extend(writer.write_record(&composer.take()).unwrap_or_default());
                        round += 1;
                    }
                }
            }
        }
    }
    out.extend(writer.finish());
    out
}

fn no_child(_: usize, _: usize, _: &[Vec<u8>]) -> Option<Vec<u8>> {
    panic!("a simple pattern starts no pipeline")
}

fn upper(record: &[u8]) -> Vec<u8> {
    let mut out = Vec::new();
    uppercase_block(record, &mut out);
    out
}

#[test]
fn empty_expression_is_replaced_by_the_input_record() {
    assert_eq!(
        run(
            &["Hello {}"],
            0,
            b"first\nsecond\nthird\n",
            Separator::Newline,
            no_child
        ),
        b"Hello first\nHello second\nHello third\n"
    );
}

#[test]
fn expression_is_replaced_by_the_output_of_its_pipeline() {
    assert_eq!(
        run(
            &["Hello {upper}"],
            0,
            b"first\nsecond\n",
            Separator::Newline,
            |number, round, input| {
                assert_eq!(number, 0);
                input.get(round).map(|record| upper(record))
            }
        ),
        b"Hello FIRST\nHello SECOND\n"
    );
}

#[test]
fn composition_stops_when_one_expression_ends() {
    assert_eq!(
        run(
            &["{seq}. {upper}"],
            0,
            b"a\nb\nc\n",
            Separator::Newline,
            |number, round, input| match number {
                0 => Some((round + 1).to_string().into_bytes()),
                1 => input.get(round).map(|record| upper(record)),
                _ => panic!("no pipeline {number}"),
            }
        ),
        b"1. A\n2. B\n3. C\n"
    );
}

#[test]
fn shell_expression_and_input_are_combined() {
    let printed = [b"a", b"b", b"c"];
    assert_eq!(
        run(
            &["{# printf '%s\\n' a b c}. {}"],
            0,
            b"first\nsecond\nthird\n",
            Separator::Newline,
            |number, round, input| match number {
                0 => printed.get(round).map(|record| record.to_vec()),
                1 => input.get(round).cloned(),
                _ => panic!("no pipeline {number}"),
            }
        ),
        b"a. first\nb. second\nc. third\n"
    );
}

#[test]
fn quoting_wraps_every_expression() {
    let lower = |number: usize, round: usize, input: &[Vec<u8>]| match number {
        0 => input.get(round).cloned(),
        1 => input.get(round).map(|record| record.to_ascii_lowercase()),
        _ => panic!("no pipeline {number}"),
    };
    assert_eq!(
        run(
            &["mv {} {lower}"],
            1,
            b"IMG 1.jpg\nIMG 2.jpg\n",
            Separator::Newline,
            lower
        ),
        b"mv 'IMG 1.jpg' 'img 1.jpg'\nmv 'IMG 2.jpg' 'img 2.jpg'\n"
    );
    assert_eq!(
        run(
            &["mv", "{}", "{lower}"],
            2,
            b"IMG 1.jpg\n",
            Separator::Newline,
            lower
        ),
        b"mv \"IMG 1.jpg\" \"img 1.jpg\"\n"
    );
    assert_eq!(
        run(&["<{}>"], 1, b"a\n", Separator::Newline, no_child),
        b"<'a'>\n"
    );
}

#[test]
fn records_are_delimited_by_nul_on_both_sides() {
    let child = |_: usize, round: usize, input: &[Vec<u8>]| input.get(round).map(|record| upper(record));
    let nulls = run(&["{upper}"], 0, b"aa\0bb\0cc\0", Separator::Null, child);
    let lines = run(&["{upper}"], 0, b"aa\nbb\ncc\n", Separator::Newline, child);
    assert_eq!(nulls, b"AA\0BB\0CC\0");
    assert_eq!(lines, b"AA\nBB\nCC\n");
    assert_eq!(
        nulls,
        lines
            .iter()
            .map(|byte| if *byte == b'\n' { 0 } else { *byte })
            .collect::<Vec<u8>>()
    );
}

#[test]
fn simple_pattern_composes_what_echoing_pipelines_compose() {
    for pattern in ["{}", "a{}b{}c", "Hello {}", "{}{}", "x"] {
        for quote in [0, 1, 2] {
            let simple = run(&[pattern], quote, b"r1\nr2\n", Separator::Newline, no_child);
            let general = match plan(parse(pattern), quote) {
                Plan::Simple(_) => {
                    let quoted = match quote_char(quote) {
                        Some(quote) => parse(pattern).quote_expressions(quote),
                        None => parse(pattern),
                    };
                    let mut composer = Composer::new(&quoted);
                    let mut out = Vec::new();
                    for record in [b"r1", b"r2"] {
                        loop {
                            match composer.poll() {
                                Demand::Record(_) => composer.supply(record),
                                Demand::Flush => break,
                            }
                        }
                        out.extend(composer.take());
                        out.push(b'\n');
                    }
                    out
                }
                Plan::General(_) => panic!("{pattern} is simple"),
            };
            assert_eq!(simple, general, "{pattern}");
        }
    }
}

#[test]
fn parts_of_a_pattern_are_joined_by_spaces() {
    assert_eq!(join_parts(&texts(&[])), "");
    assert_eq!(join_parts(&texts(&["a"])), "a");
    assert_eq!(join_parts(&texts(&["mv", "{}", "", "{lower}"])), "mv {}  {lower}");
    assert!(matches!(
        prepare(&texts(&["Hello", "{}"]), '\\', 0),
        Ok(Plan::Simple(_))
    ));
    match prepare(&texts(&["%{", "{a", "b}"]), '%', 2) {
        Ok(Plan::General(pattern)) => assert_eq!(
            pattern,
            Pattern::parse("%{ {a b}", '%').unwrap().quote_expressions('"')
        ),
        other => panic!("{other:?}"),
    }
    assert_eq!(
        prepare(&texts(&["a", "|"]), '\\', 1).unwrap_err().range,
        2..3
    );
}

#[test]
fn shell_is_the_chosen_one_or_the_usual_one() {
    assert_eq!(Shell::chosen_or_default(Some("zsh".to_string()), false).name, "zsh");
    assert_eq!(Shell::chosen_or_default(None, false).name, "sh");
    assert_eq!(Shell::chosen_or_default(None, true).name, "cmd");
}

#[test]
fn quote_is_chosen_by_the_number_of_options() {
    assert_eq!(quote_char(0), None);
    assert_eq!(quote_char(1), Some('\''));
    assert_eq!(quote_char(2), Some('"'));
    assert_eq!(quote_char(255), Some('"'));
}

#[test]
fn plan_is_simple_where_no_pipeline_is_needed() {
    assert!(matches!(plan(parse("Hello {}"), 0), Plan::Simple(_)));
    assert!(matches!(plan(parse("Hello {}"), 2), Plan::Simple(_)));
    assert!(matches!(plan(parse("plain"), 1), Plan::Simple(_)));
    assert!(matches!(plan(parse("Hello {upper}"), 0), Plan::General(_)));
    assert!(matches!(plan(parse("{} {:}"), 0), Plan::General(_)));
    match plan(parse("a{upper}"), 1) {
        Plan::General(pattern) => assert_eq!(pattern, parse("a{upper}").quote_expressions('\'')),
        Plan::Simple(_) => panic!("not simple"),
    }
}

fn stage(program: Program, args: &[&str], envs: Vec<(String, String)>, stdin: StdinSource) -> Stage {
    Stage {
        invocation: Invocation {
            program,
            args: texts(args),
            envs,
        },
        stdin,
    }
}

fn named(name: &str) -> Program {
    Program::Named(name.to_string())
}

#[test]
fn commands_are_chained() {
    let env = env(BufMode::Full);
    let shell = Shell::default_for(false);
    let plan = build_pipeline(&env, &shell, &expression("{tr -d aeiou | upper | !cat}"), "rew", false);
    assert_eq!(
        plan.stages,
        vec![
            stage(named("tr"), &["-d", "aeiou"], vec![], StdinSource::Piped),
            stage(
                Program::Current,
                &["upper"],
                env.internal("rew"),
                StdinSource::Previous
            ),
            stage(named("cat"), &[], vec![], StdinSource::Previous),
        ]
    );
    assert!(plan.has_stdin);
}

#[test]
fn empty_pipeline_copies_its_input() {
    let env = env(BufMode::Full);
    let shell = Shell::default_for(false);
    let plan = build_pipeline(&env, &shell, &expression("{}"), "rew", false);
    assert_eq!(
        plan.stages,
        vec![stage(
            Program::Current,
            &["cat"],
            env.internal("rew"),
            StdinSource::Piped
        )]
    );
    assert!(plan.has_stdin);
    let plan = build_pipeline(&env, &shell, &expression("{:}"), "rew", false);
    assert_eq!(plan.stages[0].stdin, StdinSource::Null);
    assert!(!plan.has_stdin);
}

#[test]
fn generator_gets_no_input() {
    let env = env(BufMode::Full);
    let shell = Shell::default_for(false);
    let plan = build_pipeline(&env, &shell, &expression("{seq 1..3 | upper}"), "rew", false);
    assert_eq!(
        plan.stages,
        vec![
            stage(
                Program::Current,
                &["seq", "1..3"],
                env.internal("rew"),
                StdinSource::Null
            ),
            stage(
                Program::Current,
                &["upper"],
                env.internal("rew"),
                StdinSource::Previous
            ),
        ]
    );
    assert!(!plan.has_stdin);
    let plan = build_pipeline(&env, &shell, &expression("{upper | seq}"), "rew", false);
    assert_eq!(plan.stages[0].stdin, StdinSource::Piped);
    assert_eq!(plan.stages[1].stdin, StdinSource::Null);
    assert!(!plan.has_stdin);
    let plan = build_pipeline(&env, &shell, &expression("{: !seq 1 3}"), "rew", false);
    assert_eq!(
        plan.stages,
        vec![stage(named("seq"), &["1", "3"], vec![], StdinSource::Null)]
    );
    assert!(!plan.has_stdin);
}

#[test]
fn shell_command_is_run_by_the_shell() {
    let env = env(BufMode::Line);
    let plan = build_pipeline(
        &env,
        &Shell::new("bash".to_string()),
        &expression("{# echo $0}"),
        "rew",
        false,
    );
    assert_eq!(
        plan.stages,
        vec![stage(
            named("bash"),
            &["-c", " echo $0"],
            env.external(),
            StdinSource::Piped
        )]
    );
    assert!(plan.has_stdin);
    let plan = build_pipeline(
        &env,
        &Shell::default_for(true),
        &expression("{:# dir}"),
        "rew",
        true,
    );
    assert_eq!(
        plan.stages,
        vec![stage(
            named("cmd"),
            &["/C", " dir"],
            env.external(),
            StdinSource::Null
        )]
    );
    assert!(!plan.has_stdin);
}

#[test]
fn closed_input_leaves_the_other_pipelines_fed() {
    let mut forwarder = Forwarder::new(3);
    assert_eq!(forwarder.len(), 3);
    assert!(!forwarder.is_done());
    forwarder.record(1, false);
    assert!(forwarder.is_open(0) && !forwarder.is_open(1) && forwarder.is_open(2));
    assert!(!forwarder.is_done());
    forwarder.record(0, true);
    forwarder.record(1, true);
    assert!(forwarder.is_open(0) && !forwarder.is_open(1));
    forwarder.record(0, false);
    assert!(!forwarder.is_done());
    forwarder.record(2, false);
    assert!(forwarder.is_done());
    assert!(!forwarder.is_open(3));
}

#[test]
fn nothing_is_forwarded_without_a_fed_pipeline() {
    assert!(Forwarder::new(0).is_done());
}

fn walk(count: usize, answers: &[Result<bool, ()>]) -> Vec<ShutdownStep> {
    let mut shutdown = Shutdown::new(count);
    let mut answers = answers.iter().copied();
    let mut polled = None;
    let mut steps = Vec::new();
    loop {
        let step = shutdown.step(polled.take());
        steps.push(step);
        match step {
            ShutdownStep::Poll(_) => polled = Some(answers.next().unwrap()),
            ShutdownStep::Done => return steps,
            _ => {}
        }
    }
}

#[test]
fn children_that_have_ended_are_asked_once() {
    assert_eq!(GRACE_MILLIS, 100);
    assert_eq!(walk(0, &[]), [ShutdownStep::Done]);
    assert_eq!(
        walk(3, &[Ok(true), Ok(true), Ok(true)]),
        [
            ShutdownStep::Poll(0),
            ShutdownStep::Poll(1),
            ShutdownStep::Poll(2),
            ShutdownStep::Done,
        ]
    );
}

#[test]
fn running_children_get_time_and_are_then_killed() {
    assert_eq!(
        walk(
            3,
            &[Ok(false), Ok(true), Ok(false), Ok(true), Ok(false)]
        ),
        [
            ShutdownStep::Poll(0),
            ShutdownStep::Poll(1),
            ShutdownStep::Poll(2),
            ShutdownStep::Sleep(100),
            ShutdownStep::Poll(0),
            ShutdownStep::Poll(2),
            ShutdownStep::Kill(2),
            ShutdownStep::Done,
        ]
    );
    assert!(must_kill(false));
    assert!(!must_kill(true));
    assert!(joins_forwarder(true));
    assert!(!joins_forwarder(false));
}

#[test]
fn failed_poll_does_not_end_the_walk() {
    assert_eq!(
        walk(3, &[Err(()), Ok(false), Ok(true), Err(())]),
        [
            ShutdownStep::Poll(0),
            ShutdownStep::Poll(1),
            ShutdownStep::Poll(2),
            ShutdownStep::Sleep(100),
            ShutdownStep::Poll(1),
            ShutdownStep::Done,
        ]
    );
    let mut shutdown = Shutdown::new(1);
    assert_eq!(shutdown.step(Some(Ok(false))), ShutdownStep::Poll(0));
    assert_eq!(shutdown.step(None), ShutdownStep::Done);
    assert_eq!(shutdown.step(None), ShutdownStep::Done);
    assert_eq!(shutdown.step(Some(Ok(false))), ShutdownStep::Done);
}

fn streams(pipelines: &[&[&str]]) -> Vec<Vec<Vec<u8>>> {
    pipelines
        .iter()
        .map(|pipeline| pipeline.iter().map(|record| record.as_bytes().to_vec()).collect())
        .collect()
}

#[test]
fn composition_is_as_long_as_the_shortest_pipeline() {
    let pattern = parse("{seq}. {upper}!");
    assert_eq!(
        compose_records(&pattern, &streams(&[&["1", "2", "3", "4"], &["A", "B", "C"]])),
        [b"1. A!".to_vec(), b"2. B!".to_vec(), b"3. C!".to_vec()]
    );
    assert_eq!(
        compose_records(&pattern, &streams(&[&["1"], &[]])),
        Vec::<Vec<u8>>::new()
    );
    assert_eq!(
        compose_records(&pattern, &streams(&[&["1", "2"]])),
        Vec::<Vec<u8>>::new()
    );
    assert_eq!(
        compose_records(&pattern, &streams(&[&["1"], &["A", "B"], &["x"]])),
        [b"1. A!".to_vec()]
    );
    assert_eq!(
        compose_records(&parse("no expression"), &streams(&[&["1"]])),
        Vec::<Vec<u8>>::new()
    );
}

#[test]
fn pipeline_that_ends_drops_the_record_in_the_making() {
    let pattern = parse("a{x}b{y}c");
    let mut composer = Composer::new(&pattern);
    assert_eq!(composer.poll(), Demand::Record(0));
    assert!(!composer.supply_or_end(Some(b"1")));
    assert_eq!(composer.poll(), Demand::Record(1));
    assert!(composer.supply_or_end(None));
    assert!(!composer.is_complete());
    assert_eq!(composer.poll(), Demand::Record(0));
    assert!(!composer.supply_or_end(Some(b"2")));
    assert_eq!(composer.poll(), Demand::Record(1));
    assert!(composer.wants_record());
    composer.supply(b"3");
    assert_eq!(composer.poll(), Demand::Flush);
    assert!(composer.is_complete());
    assert_eq!(composer.take(), b"a2b3c");
}

#[test]
fn whole_input_is_composed_by_a_simple_pattern() {
    let simple = parse("Hello {}").try_simplify().unwrap();
    assert_eq!(
        simple_records(&simple, b"first\nsecond\nthird\n", Separator::Newline),
        b"Hello first\nHello second\nHello third\n"
    );
    assert_eq!(
        simple_records(&simple, b"a\0\0b", Separator::Null),
        b"Hello a\0Hello \0Hello b\0"
    );
    assert_eq!(simple_records(&simple, b"", Separator::Newline), b"");
    let quoted = parse("{}").quote_expressions('"').try_simplify().unwrap();
    assert_eq!(
        simple_records(&quoted, b"x y\n", Separator::Newline),
        b"\"x y\"\n"
    );
}
