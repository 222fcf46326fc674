use rew::commands::x::compose::{Pattern, SimpleItem, SimplePattern};
use rew::commands::x::parser::parse_items;
use rew::commands::x::pattern::{Command, Error, Expression, ExpressionValue, Item};
use rew::commands::x::scan::ErrorKind;
use rew::pattern::lexer::Parsed;

fn items(pattern: &str) -> Vec<Item> {
    parse_items(pattern, '\\')
        .unwrap()
        .into_iter()
        .map(|item| item.value)
        .collect()
}

fn refusal(pattern: &str) -> Error {
    parse_items(pattern, '\\').unwrap_err()
}

fn command(name: &str, args: &[&str], external: bool) -> Command {
    Command {
        name: name.to_string(),
        args: args.iter().map(|arg| arg.to_string()).collect(),
        external,
    }
}

fn pipeline(raw: &str, no_stdin: bool, commands: Vec<Command>) -> Item {
    Item::Expression(Expression {
        raw_value: raw.to_string(),
        no_stdin,
        value: ExpressionValue::Pipeline(commands),
    })
}

fn shell(raw: &str, no_stdin: bool, command: &str) -> Item {
    Item::Expression(Expression {
        raw_value: raw.to_string(),
        no_stdin,
        value: ExpressionValue::RawShell(command.to_string()),
    })
}

fn constant(value: &str) -> Item {
    Item::Constant(value.to_string())
}

#[test]
fn empty_pattern_has_no_items() {
    assert_eq!(parse_items("", '\\'), Ok(Vec::new()));
}

#[test]
fn empty_expression_is_an_empty_pipeline() {
    assert_eq!(
        parse_items("Hello {}", '\\'),
        Ok(vec![
            Parsed {
                value: constant("Hello "),
                start: 0,
                end: 6,
            },
            Parsed {
                value: pipeline("{}", false, vec![]),
                start: 6,
                end: 8,
            },
        ])
    );
    assert_eq!(items("{  }"), vec![pipeline("{  }", false, vec![])]);
}

#[test]
fn expression_names_a_command() {
    assert_eq!(
        items("Hello {upper}"),
        vec![
            constant("Hello "),
            pipeline("{upper}", false, vec![command("upper", &[], false)]),
        ]
    );
}

#[test]
fn commands_are_separated_by_pipes() {
    assert_eq!(
        items("Hello {tr -d aeiou | upper}"),
        vec![
            constant("Hello "),
            pipeline(
                "{tr -d aeiou | upper}",
                false,
                vec![
                    command("tr", &["-d", "aeiou"], false),
                    command("upper", &[], false),
                ]
            ),
        ]
    );
}

#[test]
fn quotes_keep_white_space_and_pipes() {
    assert_eq!(
        items("{tr aeiou ' ' | upper}"),
        vec![pipeline(
            "{tr aeiou ' ' | upper}",
            false,
            vec![
                command("tr", &["aeiou", " "], false),
                command("upper", &[], false),
            ]
        )]
    );
    assert_eq!(
        items("{echo \"|\"} {echo \\|}"),
        vec![
            pipeline("{echo \"|\"}", false, vec![command("echo", &["|"], false)]),
            constant(" "),
            pipeline("{echo \\|}", false, vec![command("echo", &["|"], false)]),
        ]
    );
    assert_eq!(
        items("{echo 'a}b' \"c{d\"}"),
        vec![pipeline(
            "{echo 'a}b' \"c{d\"}",
            false,
            vec![command("echo", &["a}b", "c{d"], false)]
        )]
    );
}

#[test]
fn markers_are_read_in_any_order() {
    assert_eq!(
        items("{!seq 1 3}. {}"),
        vec![
            pipeline("{!seq 1 3}", false, vec![command("seq", &["1", "3"], true)]),
            constant(". "),
            pipeline("{}", false, vec![]),
        ]
    );
    assert_eq!(
        items("{seq 1..3} {: !seq 1 3} {:# echo 1; echo 2; echo 3}"),
        vec![
            pipeline("{seq 1..3}", false, vec![command("seq", &["1..3"], false)]),
            constant(" "),
            pipeline(
                "{: !seq 1 3}",
                true,
                vec![command("seq", &["1", "3"], true)]
            ),
            constant(" "),
            shell(
                "{:# echo 1; echo 2; echo 3}",
                true,
                " echo 1; echo 2; echo 3"
            ),
        ]
    );
    assert_eq!(
        items("{!:a | !b | c}"),
        vec![pipeline(
            "{!:a | !b | c}",
            true,
            vec![
                command("a", &[], true),
                command("b", &[], true),
                command("c", &[], false),
            ]
        )]
    );
}

#[test]
fn shell_command_is_taken_as_it_stands() {
    assert_eq!(
        items("{# printf '%s\\n' a b c}. {}"),
        vec![
            shell("{# printf '%s\\n' a b c}", false, " printf '%s\\n' a b c"),
            constant(". "),
            pipeline("{}", false, vec![]),
        ]
    );
    assert_eq!(
        items("{#a | b {c \\} d}"),
        vec![shell("{#a | b {c \\} d}", false, "a | b {c } d")]
    );
}

#[test]
fn escape_character_makes_the_next_one_ordinary() {
    assert_eq!(
        items("\\{ \"{}\": {seq} \\}"),
        vec![
            constant("{ \""),
            pipeline("{}", false, vec![]),
            constant("\": "),
            pipeline("{seq}", false, vec![command("seq", &[], false)]),
            constant(" }"),
        ]
    );
    assert_eq!(
        items("{seq}:\\n\\t{}\\r\\x\\"),
        vec![
            pipeline("{seq}", false, vec![command("seq", &[], false)]),
            constant(":\n\t"),
            pipeline("{}", false, vec![]),
            constant("\rx\\"),
        ]
    );
    assert_eq!(
        parse_items("%{ {a%nb 'c%'d'} %}", '%')
            .unwrap()
            .into_iter()
            .map(|item| item.value)
            .collect::<Vec<_>>(),
        vec![
            constant("{ "),
            pipeline("{a%nb 'c%'d'}", false, vec![command("a\nb", &["c'd"], false)]),
            constant(" }"),
        ]
    );
}

#[test]
fn ranges_are_given_in_bytes() {
    assert_eq!(
        parse_items("á{é}ő", '\\')
            .unwrap()
            .iter()
            .map(|item| (item.start, item.end))
            .collect::<Vec<_>>(),
        vec![(0, 2), (2, 6), (6, 8)]
    );
    assert_eq!(
        refusal("áé|"),
        Error {
            kind: ErrorKind::PipeOutsideExpr,
            range: 4..5,
        }
    );
}

#[test]
fn pipe_outside_expression_is_refused() {
    assert_eq!(
        refusal("|"),
        Error {
            kind: ErrorKind::PipeOutsideExpr,
            range: 0..1,
        }
    );
}

#[test]
fn unmatched_braces_are_refused() {
    assert_eq!(
        refusal("{"),
        Error {
            kind: ErrorKind::UnmatchedExprStart,
            range: 0..1,
        }
    );
    assert_eq!(
        refusal("a }"),
        Error {
            kind: ErrorKind::UnmatchedExprEnd,
            range: 2..3,
        }
    );
    for pattern in ["x{upper", "x{upper 'a", "x{# echo", "x{!", "x{a | b"] {
        assert_eq!(
            refusal(pattern),
            Error {
                kind: ErrorKind::UnmatchedExprStart,
                range: 1..2,
            },
            "{pattern}"
        );
    }
}

#[test]
fn nested_expression_is_refused() {
    assert_eq!(
        refusal("{a {b}}"),
        Error {
            kind: ErrorKind::ExprStartInsideExpr,
            range: 3..4,
        }
    );
    assert_eq!(
        refusal("{a{"),
        Error {
            kind: ErrorKind::ExprStartInsideExpr,
            range: 2..3,
        }
    );
}

#[test]
fn missing_command_is_refused() {
    assert_eq!(
        refusal("{a|"),
        Error {
            kind: ErrorKind::ExpectedFilter,
            range: 3..3,
        }
    );
    assert_eq!(
        refusal("{a|  "),
        Error {
            kind: ErrorKind::ExpectedFilter,
            range: 5..5,
        }
    );
    assert_eq!(
        refusal("{a||b}"),
        Error {
            kind: ErrorKind::EmptyCommandName,
            range: 3..4,
        }
    );
    assert_eq!(
        refusal("{a| }"),
        Error {
            kind: ErrorKind::EmptyCommandName,
            range: 4..5,
        }
    );
    assert_eq!(
        refusal("{|a}"),
        Error {
            kind: ErrorKind::EmptyCommandName,
            range: 1..2,
        }
    );
    assert_eq!(
        refusal("{'' a}"),
        Error {
            kind: ErrorKind::EmptyCommandName,
            range: 1..3,
        }
    );
}

#[test]
fn word_must_end_before_the_next_one_starts() {
    assert_eq!(
        refusal("{echo 'a'b}"),
        Error {
            kind: ErrorKind::ExpectedPipeOrExprEnd,
            range: 9..10,
        }
    );
    assert_eq!(
        refusal("{echo a'b'}"),
        Error {
            kind: ErrorKind::ExpectedPipeOrExprEnd,
            range: 7..8,
        }
    );
}

#[test]
fn quoting_puts_a_constant_on_both_sides_of_each_expression() {
    let pattern = Pattern::parse("mv {} {lower}", '\\')
        .unwrap()
        .quote_expressions('\'');
    assert_eq!(
        pattern.items(),
        &vec![
            Parsed {
                value: constant("mv "),
                start: 0,
                end: 3,
            },
            Parsed {
                value: constant("'"),
                start: 3,
                end: 3,
            },
            Parsed {
                value: pipeline("{}", false, vec![]),
                start: 3,
                end: 5,
            },
            Parsed {
                value: constant("'"),
                start: 5,
                end: 5,
            },
            Parsed {
                value: constant(" "),
                start: 5,
                end: 6,
            },
            Parsed {
                value: constant("'"),
                start: 6,
                end: 6,
            },
            Parsed {
                value: pipeline("{lower}", false, vec![command("lower", &[], false)]),
                start: 6,
                end: 13,
            },
            Parsed {
                value: constant("'"),
                start: 13,
                end: 13,
            },
        ]
    );
}

fn simple(pattern: &str) -> Option<SimplePattern> {
    Pattern::parse(pattern, '\\').unwrap().try_simplify()
}

#[test]
fn pattern_of_constants_and_echoes_is_simple() {
    let pattern = simple("Hello {}!").unwrap();
    assert_eq!(
        pattern.items(),
        &vec![
            SimpleItem::Constant("Hello ".to_string()),
            SimpleItem::Expression,
            SimpleItem::Constant("!".to_string()),
        ]
    );
    assert!(simple("").is_some());
    assert!(simple("abc").is_some());
    assert!(simple("{}{}").is_some());
}

#[test]
fn pattern_with_a_command_is_not_simple() {
    assert_eq!(simple("Hello {upper}"), None);
    assert_eq!(simple("{} {cat}"), None);
    assert_eq!(simple("{#}"), None);
    assert_eq!(simple("{:}"), None);
}

#[test]
fn simple_pattern_composes_constants_and_the_record() {
    let pattern = simple("Hello {}").unwrap();
    let mut out = Vec::new();
    for record in ["first", "second", "third"] {
        pattern.compose(record.as_bytes(), &mut out);
        out.push(b'\n');
    }
    assert_eq!(out, b"Hello first\nHello second\nHello third\n");
}

#[test]
fn item_ranges_take_the_pattern_apart() {
    for pattern in [
        "",
        "abc",
        "{}",
        "Hello {tr -d aeiou | upper}",
        "á{# é}ő{: !a 'b c'}\\{\\}",
    ] {
        let items = parse_items(pattern, '\\').unwrap();
        let mut joined = String::new();
        let mut end = 0;
        for item in &items {
            assert_eq!(item.start, end);
            assert!(item.start < item.end);
            joined.push_str(&pattern[item.start..item.end]);
            end = item.end;
        }
        assert_eq!(end, pattern.len());
        assert_eq!(joined, pattern);
    }
}
