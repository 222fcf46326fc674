use rew::pattern::error::{ParseError, ParseErrorKind};
use rew::pattern::lexer::Parsed;
use rew::pattern::parser::{Parser, PatternItem};
use rew::pattern::range::Range;
use rew::pattern::substitution::Substitution;
use rew::pattern::symbol::Char;
use rew::pattern::transform::Transform;
use rew::pattern::variable::Variable;

#[test]
fn parser_empty() {
    assert_eq!(Parser::from("").parse_items(), Ok(Vec::new()));
}

#[test]
fn expected_variable_but_end_error() {
    assert_eq!(
        Parser::from("{").parse_items(),
        Err(ParseError {
            kind: ParseErrorKind::ExpectedVariable,
            start: 1,
            end: 1,
        })
    );
}

#[test]
fn expected_variable_but_pipe_error() {
    assert_eq!(
        Parser::from("{|").parse_items(),
        Err(ParseError {
            kind: ParseErrorKind::ExpectedVariable,
            start: 1,
            end: 2,
        })
    );
}

#[test]
fn pipe_outside_expr_error() {
    assert_eq!(
        Parser::from("|").parse_items(),
        Err(ParseError {
            kind: ParseErrorKind::PipeOutsideExpr,
            start: 0,
            end: 1,
        })
    );
}

#[test]
fn expected_variable_but_expr_end_error() {
    assert_eq!(
        Parser::from("{}").parse_items(),
        Err(ParseError {
            kind: ParseErrorKind::ExpectedVariable,
            start: 1,
            end: 2,
        })
    );
}

#[test]
fn unmatched_expr_end_error() {
    assert_eq!(
        Parser::from("}").parse_items(),
        Err(ParseError {
            kind: ParseErrorKind::UnmatchedExprEnd,
            start: 0,
            end: 1,
        })
    );
}

#[test]
fn unterminated_expr_start_after_variable_error() {
    assert_eq!(
        Parser::from("{f").parse_items(),
        Err(ParseError {
            kind: ParseErrorKind::UnterminatedExprStart,
            start: 0,
            end: 1,
        })
    );
}

#[test]
fn variable() {
    assert_eq!(
        Parser::from("{f}").parse_items(),
        Ok(vec![Parsed {
            value: PatternItem::Expression {
                variable: Parsed {
                    value: Variable::Filename,
                    start: 1,
                    end: 2,
                },
                transforms: Vec::new(),
            },
            start: 0,
            end: 3,
        }])
    );
}

#[test]
fn unknown_variable_error() {
    assert_eq!(
        Parser::from("{x}").parse_items(),
        Err(ParseError {
            kind: ParseErrorKind::UnknownVariable(Char::Raw('x')),
            start: 1,
            end: 2,
        })
    );
}

#[test]
fn expr_start_inside_expr_error() {
    assert_eq!(
        Parser::from("{f{").parse_items(),
        Err(ParseError {
            kind: ParseErrorKind::ExprStartInsideExpr,
            start: 2,
            end: 3,
        })
    );
}

#[test]
fn expected_pipe_or_expr_end_after_variable_error() {
    assert_eq!(
        Parser::from("{fg").parse_items(),
        Err(ParseError {
            kind: ParseErrorKind::ExpectedPipeOrExprEnd,
            start: 2,
            end: 3,
        })
    );
}

#[test]
fn expected_transform_but_end_error() {
    assert_eq!(
        Parser::from("{f|").parse_items(),
        Err(ParseError {
            kind: ParseErrorKind::ExpectedTransform,
            start: 3,
            end: 3,
        })
    );
}

#[test]
fn expected_transform_but_pipe_error() {
    assert_eq!(
        Parser::from("{f||").parse_items(),
        Err(ParseError {
            kind: ParseErrorKind::ExpectedTransform,
            start: 3,
            end: 4,
        })
    );
}

#[test]
fn expected_transform_but_expr_end_error() {
    assert_eq!(
        Parser::from("{f|}").parse_items(),
        Err(ParseError {
            kind: ParseErrorKind::ExpectedTransform,
            start: 3,
            end: 4,
        })
    );
}

#[test]
fn unternimeted_expr_start_after_transform_error() {
    assert_eq!(
        Parser::from("{f|l").parse_items(),
        Err(ParseError {
            kind: ParseErrorKind::UnterminatedExprStart,
            start: 0,
            end: 1,
        })
    );
}

#[test]
fn expected_pipe_or_expr_end_after_transform_error() {
    assert_eq!(
        Parser::from("{f|ll").parse_items(),
        Err(ParseError {
            kind: ParseErrorKind::ExpectedPipeOrExprEnd,
            start: 4,
            end: 5,
        })
    );
}

#[test]
fn variable_single_transform() {
    assert_eq!(
        Parser::from("{b|l}").parse_items(),
        Ok(vec![Parsed {
            value: PatternItem::Expression {
                variable: Parsed {
                    value: Variable::Basename,
                    start: 1,
                    end: 2,
                },
                transforms: vec![Parsed {
                    value: Transform::Lowercase,
                    start: 3,
                    end: 4,
                }],
            },
            start: 0,
            end: 5,
        }])
    );
}

#[test]
fn variable_multiple_transforms() {
    assert_eq!(
        Parser::from("{e|t|n1-3}").parse_items(),
        Ok(vec![Parsed {
            value: PatternItem::Expression {
                variable: Parsed {
                    value: Variable::Extension,
                    start: 1,
                    end: 2,
                },
                transforms: vec![
                    Parsed {
                        value: Transform::Trim,
                        start: 3,
                        end: 4,
                    },
                    Parsed {
                        value: Transform::Substring(Range {
                            offset: 0,
                            length: 3,
                        }),
                        start: 5,
                        end: 9,
                    },
                ],
            },
            start: 0,
            end: 10,
        }])
    );
}

#[test]
fn invalid_transform_error() {
    assert_eq!(
        Parser::from("{f|n2-1}").parse_items(),
        Err(ParseError {
            kind: ParseErrorKind::RangeEndBeforeStart(1, 2),
            start: 4,
            end: 7,
        })
    );
}

#[test]
fn complex_input() {
    assert_eq!(
        Parser::from("image_{c|<000}.{e|l|r'e}2").parse_items(),
        Ok(vec![
            Parsed {
                value: PatternItem::Constant("image_".to_string()),
                start: 0,
                end: 6,
            },
            Parsed {
                value: PatternItem::Expression {
                    variable: Parsed {
                        value: Variable::LocalCounter,
                        start: 7,
                        end: 8,
                    },
                    transforms: vec![Parsed {
                        value: Transform::LeftPad("000".to_string()),
                        start: 9,
                        end: 13,
                    }],
                },
                start: 6,
                end: 14,
            },
            Parsed {
                value: PatternItem::Constant(".".to_string()),
                start: 14,
                end: 15,
            },
            Parsed {
                value: PatternItem::Expression {
                    variable: Parsed {
                        value: Variable::Extension,
                        start: 16,
                        end: 17,
                    },
                    transforms: vec![
                        Parsed {
                            value: Transform::Lowercase,
                            start: 18,
                            end: 19,
                        },
                        Parsed {
                            value: Transform::ReplaceFirst(Substitution {
                                value: 'e'.to_string(),
                                replacement: String::new(),
                            }),
                            start: 20,
                            end: 23,
                        },
                    ],
                },
                start: 15,
                end: 24,
            },
            Parsed {
                value: PatternItem::Constant("2".to_string()),
                start: 24,
                end: 25,
            },
        ])
    );
}
