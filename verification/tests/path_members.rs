use rew::pattern::error::ParseErrorKind;
use rew::pattern::lexer::{Lexer, Parsed, Token};
use rew::pattern::parser::{Parser, PatternItem};
use rew::pattern::range::Range;
use rew::pattern::substitution::Substitution;
use rew::pattern::symbol::Char;
use rew::pattern::transform::Transform;
use rew::pattern::variable::Variable;

fn expression(value: &str) -> (Variable, Vec<Transform>) {
    let mut items = Parser::from(&format!("{{{value}}}")).parse_items().unwrap();
    match items.remove(0).value {
        PatternItem::Expression {
            variable,
            transforms,
        } => (
            variable.value,
            transforms.into_iter().map(|item| item.value).collect(),
        ),
        PatternItem::Constant(value) => panic!("constant {value}"),
    }
}

fn transform(value: &str) -> Transform {
    expression(&format!("f|{value}")).1.remove(0)
}

fn refusal(value: &str) -> (ParseErrorKind, usize, usize) {
    let error = Parser::from(value).parse_items().unwrap_err();
    (error.kind, error.start, error.end)
}

#[test]
fn every_variable_has_its_letter() {
    assert_eq!(expression("f").0, Variable::Filename);
    assert_eq!(expression("b").0, Variable::Basename);
    assert_eq!(expression("e").0, Variable::Extension);
    assert_eq!(expression("E").0, Variable::ExtensionWithDot);
    assert_eq!(expression("c").0, Variable::LocalCounter);
    assert_eq!(expression("C").0, Variable::GlobalCounter);
    assert_eq!(expression("u").0, Variable::Uuid);
    assert_eq!(expression("0").0, Variable::CaptureGroup(0));
    assert_eq!(expression("12").0, Variable::CaptureGroup(12));
    assert_eq!(expression("007|t").0, Variable::CaptureGroup(7));
}

#[test]
fn wrong_variables_are_refused() {
    assert_eq!(
        refusal("{é}"),
        (ParseErrorKind::UnknownVariable(Char::Raw('é')), 1, 3)
    );
    assert_eq!(
        refusal("{\\f}"),
        (
            ParseErrorKind::UnknownVariable(Char::Escaped('f', ['\\', 'f'])),
            1,
            3
        )
    );
    assert_eq!(
        refusal("{99999999999999999999999}"),
        (ParseErrorKind::IntegerOverflow, 1, 24)
    );
    assert_eq!(refusal("{1f}"), (ParseErrorKind::ExpectedPipeOrExprEnd, 2, 3));
}

#[test]
fn every_transform_has_its_letter() {
    assert_eq!(transform("t"), Transform::Trim);
    assert_eq!(transform("l"), Transform::Lowercase);
    assert_eq!(transform("u"), Transform::Uppercase);
    assert_eq!(transform("<000"), Transform::LeftPad("000".to_string()));
    assert_eq!(transform(">ab c"), Transform::RightPad("ab c".to_string()));
    assert_eq!(transform("<"), Transform::LeftPad(String::new()));
    assert_eq!(
        transform("r'e"),
        Transform::ReplaceFirst(Substitution {
            value: "e".to_string(),
            replacement: String::new(),
        })
    );
    assert_eq!(
        transform("R/a b/c/d"),
        Transform::ReplaceAll(Substitution {
            value: "a b".to_string(),
            replacement: "c/d".to_string(),
        })
    );
    assert_eq!(
        expression("b|t|l|u").1,
        [Transform::Trim, Transform::Lowercase, Transform::Uppercase]
    );
}

#[test]
fn substring_ranges_are_counted_from_one() {
    let range = |offset, length| Transform::Substring(Range { offset, length });
    assert_eq!(transform("n1-3"), range(0, 3));
    assert_eq!(transform("n2-2"), range(1, 1));
    assert_eq!(transform("n5"), range(4, 1));
    assert_eq!(transform("n3-"), range(2, 0));
    assert_eq!(transform("n-4"), range(0, 4));
    let max = usize::MAX;
    assert_eq!(transform(&format!("n1-{max}")), range(0, max));
    assert_eq!(transform(&format!("n{max}-{max}")), range(max - 1, 1));
}

#[test]
fn wrong_transforms_are_refused() {
    assert_eq!(
        refusal("{f|x}"),
        (ParseErrorKind::UnknownTransform(Char::Raw('x')), 3, 4)
    );
    assert_eq!(
        refusal("{f|\\t}"),
        (
            ParseErrorKind::UnknownTransform(Char::Escaped('\t', ['\\', 't'])),
            3,
            5
        )
    );
    assert_eq!(refusal("{f|n}"), (ParseErrorKind::ExpectedRange, 4, 4));
    assert_eq!(refusal("{f|nx}"), (ParseErrorKind::ExpectedRange, 4, 5));
    assert_eq!(refusal("{f|n-}"), (ParseErrorKind::ExpectedNumber, 5, 5));
    assert_eq!(refusal("{f|n-x}"), (ParseErrorKind::ExpectedNumber, 5, 6));
    assert_eq!(refusal("{f|n0-1}"), (ParseErrorKind::RangeIndexZero, 4, 5));
    assert_eq!(refusal("{f|n-0}"), (ParseErrorKind::RangeIndexZero, 4, 6));
    assert_eq!(
        refusal("{f|n10-2}"),
        (ParseErrorKind::RangeEndBeforeStart(2, 10), 4, 8)
    );
    assert_eq!(
        refusal("{f|n1-0}"),
        (ParseErrorKind::RangeEndBeforeStart(0, 1), 4, 7)
    );
    assert_eq!(
        refusal("{f|n99999999999999999999999-}"),
        (ParseErrorKind::IntegerOverflow, 4, 27)
    );
    assert_eq!(refusal("{f|r}"), (ParseErrorKind::ExpectedSubstitution, 4, 4));
    assert_eq!(
        refusal("{f|r/}"),
        (ParseErrorKind::SubstituteWithoutValue(Char::Raw('/')), 4, 5)
    );
    assert_eq!(
        refusal("{f|n1-2x}"),
        (ParseErrorKind::ExpectedPipeOrExprEnd, 7, 8)
    );
}

#[test]
fn lexer_gives_tokens_with_byte_ranges() {
    let mut lexer = Lexer::new("á\\{{b|\\n}%", '\\');
    let mut tokens = Vec::new();
    while let Some(token) = lexer.read_token() {
        tokens.push(token);
    }
    let token = |value, start, end| Parsed { value, start, end };
    assert_eq!(
        tokens,
        vec![
            token(
                Token::Raw(vec![Char::Raw('á'), Char::Escaped('{', ['\\', '{'])]),
                0,
                4
            ),
            token(Token::ExprStart, 4, 5),
            token(Token::Raw(vec![Char::Raw('b')]), 5, 6),
            token(Token::Pipe, 6, 7),
            token(Token::Raw(vec![Char::Escaped('\n', ['\\', 'n'])]), 7, 9),
            token(Token::ExprEnd, 9, 10),
            token(Token::Raw(vec![Char::Raw('%')]), 10, 11),
        ]
    );
    assert_eq!(lexer.read_token(), None);
    assert_eq!(lexer.position(), 11);
    assert_eq!(lexer.cursor(), 10);
    lexer.seek(1);
    assert_eq!(lexer.position(), 2);
    assert_eq!(lexer.offset(3), 4);
    assert_eq!(lexer.escape_char(), '\\');
    assert_eq!(lexer.chars().len(), 10);
}

#[test]
fn parser_takes_the_lexer_it_is_given() {
    let mut parser = Parser::new(Lexer::new("%{{f}", '%'));
    assert_eq!(
        parser.parse_items(),
        Ok(vec![
            Parsed {
                value: PatternItem::Constant("{".to_string()),
                start: 0,
                end: 2,
            },
            Parsed {
                value: PatternItem::Expression {
                    variable: Parsed {
                        value: Variable::Filename,
                        start: 3,
                        end: 4,
                    },
                    transforms: vec![],
                },
                start: 2,
                end: 5,
            },
        ])
    );
    assert_eq!(parser.parse_items(), Ok(vec![]));
}

#[test]
fn ranges_of_path_items_take_the_pattern_apart() {
    for pattern in ["", "a", "{f}", "{f|t}é{b|n1-2}", "\\{x\\}{e|<\\|}ž"] {
        let items = Parser::from(pattern).parse_items().unwrap();
        let mut end = 0;
        let mut joined = String::new();
        for item in &items {
            assert_eq!(item.start, end);
            assert!(item.start < item.end);
            joined.push_str(&pattern[item.start..item.end]);
            end = item.end;
        }
        assert_eq!(end, pattern.len());
        assert_eq!(joined, pattern);
    }
}

#[test]
fn symbols_spell_their_values() {
    let symbols = vec![Char::Raw('a'), Char::Escaped('\t', ['\\', 't'])];
    assert_eq!(Char::join(&symbols), "a\t");
    assert_eq!(symbols[1].as_char(), '\t');
    assert_eq!(symbols[1].len_utf8(), 2);
    assert_eq!(Char::Raw('€').len_utf8(), 3);
    assert_eq!(Char::Escaped('😀', ['á', '😀']).len_utf8(), 6);
    assert!(symbols[0].is('a'));
    assert!(!symbols[1].is('\t'));
}
