use rew::filter::field::Field;
use rew::filter::padding::{Padding, Repetition};
use rew::filter::parse::{Config, Error, ErrorKind, Parsed, Separator};
use rew::filter::parser::{Item, Parser};
use rew::filter::range::Range;
use rew::filter::substitution::Substitution;
use rew::filter::Filter;
use rew::pattern::symbol::Char;

fn config() -> Config {
    Config {
        escape: '%',
        separator: Separator::Regex("\\s+".to_string()),
    }
}

fn parse(value: &str) -> Result<Vec<Parsed<Item>>, Error> {
    Parser::new(value, &config()).parse_items()
}

fn filter(value: &str) -> Filter {
    let mut items = parse(&format!("{{{value}}}")).unwrap();
    match items.remove(0).value {
        Item::Expression(mut filters) => filters.remove(0).value,
        Item::Constant(value) => panic!("constant {value}"),
    }
}

fn refusal(value: &str) -> (ErrorKind, usize, usize) {
    let error = parse(value).unwrap_err();
    (error.kind, error.range.start, error.range.end)
}

#[test]
fn every_plain_filter_has_its_letter() {
    assert_eq!(filter("f"), Filter::FileName);
    assert_eq!(filter("b"), Filter::BaseName);
    assert_eq!(filter("e"), Filter::Extension);
    assert_eq!(filter("E"), Filter::ExtensionWithDot);
    assert_eq!(filter("t"), Filter::Trim);
    assert_eq!(filter("v"), Filter::ToLowercase);
    assert_eq!(filter("^"), Filter::ToUppercase);
    assert_eq!(filter("c"), Filter::LocalCounter);
    assert_eq!(filter("C"), Filter::GlobalCounter);
}

#[test]
fn ranges_are_counted_from_one() {
    assert_eq!(filter("#1-3"), Filter::Substring(Range(0, Some(3))));
    assert_eq!(filter("#2-2"), Filter::Substring(Range(1, Some(2))));
    assert_eq!(filter("#5"), Filter::Substring(Range(4, Some(5))));
    assert_eq!(filter("#12-"), Filter::Substring(Range(11, None)));
    let max = usize::MAX;
    assert_eq!(
        filter(&format!("#{max}-{max}")),
        Filter::Substring(Range(max - 1, Some(max)))
    );
}

#[test]
fn wrong_ranges_are_refused() {
    assert_eq!(refusal("{#}"), (ErrorKind::ExpectedRange, 2, 2));
    assert_eq!(refusal("{#"), (ErrorKind::ExpectedRange, 2, 2));
    assert_eq!(refusal("{#1"), (ErrorKind::UnmatchedExprStart, 0, 1));
    assert_eq!(refusal("{#x}"), (ErrorKind::ExpectedRange, 2, 3));
    assert_eq!(refusal("{#-1}"), (ErrorKind::ExpectedRange, 2, 3));
    assert_eq!(refusal("{#0-1}"), (ErrorKind::IndexZero, 2, 3));
    assert_eq!(refusal("{f|#000}"), (ErrorKind::IndexZero, 4, 7));
    assert_eq!(
        refusal("{#10-9}"),
        (
            ErrorKind::RangeStartOverEnd("10".to_string(), "9".to_string()),
            2,
            6
        )
    );
    assert_eq!(
        refusal("{#1-0}"),
        (
            ErrorKind::RangeStartOverEnd("1".to_string(), "0".to_string()),
            2,
            5
        )
    );
    let huge = "99999999999999999999999";
    assert_eq!(
        refusal(&format!("{{#{huge}}}")),
        (ErrorKind::IntegerOverflow(huge.to_string()), 2, 25)
    );
    assert_eq!(
        refusal(&format!("{{#1-{huge}}}")),
        (ErrorKind::IntegerOverflow(huge.to_string()), 4, 27)
    );
    assert_eq!(refusal("{#1-2x}"), (ErrorKind::ExpectedPipeOrExprEnd, 5, 6));
    assert_eq!(refusal("{#1x}"), (ErrorKind::ExpectedPipeOrExprEnd, 3, 4));
}

#[test]
fn substitution_has_a_target_and_a_replacement() {
    let substitution = |target: &str, replacement: &str| Substitution {
        target: target.to_string(),
        replacement: replacement.to_string(),
    };
    assert_eq!(filter("r:a:b"), Filter::ReplaceFirst(substitution("a", "b")));
    assert_eq!(filter("R/ab/"), Filter::ReplaceAll(substitution("ab", "")));
    assert_eq!(filter("R_x"), Filter::ReplaceAll(substitution("x", "")));
    assert_eq!(filter("r:a:b:c"), Filter::ReplaceFirst(substitution("a", "b:c")));
    assert_eq!(
        filter("r:a%|b:%}"),
        Filter::ReplaceFirst(substitution("a|b", "}"))
    );
    assert_eq!(refusal("{r}"), (ErrorKind::ExpectedSubstitution, 2, 2));
    assert_eq!(
        refusal("{r:}"),
        (ErrorKind::SubstitutionWithoutTarget(Char::Raw(':')), 2, 3)
    );
    assert_eq!(
        refusal("{R::x}"),
        (ErrorKind::SubstitutionWithoutTarget(Char::Raw(':')), 2, 3)
    );
    assert_eq!(
        filter("R%nx"),
        Filter::ReplaceAll(substitution("x", ""))
    );
    assert_eq!(
        refusal("{R%n%nx}"),
        (
            ErrorKind::SubstitutionWithoutTarget(Char::Escaped('\n', ['%', 'n'])),
            2,
            4
        )
    );
}

#[test]
fn padding_is_fixed_or_repeated() {
    let repeated = |count: usize, value: &str| {
        Padding::Repeated(Repetition {
            count,
            value: value.to_string(),
        })
    };
    assert_eq!(filter("<3:0"), Filter::LeftPad(repeated(3, "0")));
    assert_eq!(filter(">10 ab"), Filter::RightPad(repeated(10, "ab")));
    assert_eq!(filter("<0:"), Filter::LeftPad(repeated(0, "")));
    assert_eq!(filter("<<abc"), Filter::LeftPad(Padding::Fixed("abc".to_string())));
    assert_eq!(filter(">>"), Filter::RightPad(Padding::Fixed(String::new())));
    assert_eq!(
        refusal("{<}"),
        (ErrorKind::PaddingPrefixInvalid('<', None), 2, 2)
    );
    assert_eq!(
        refusal("{<>x}"),
        (ErrorKind::PaddingPrefixInvalid('<', Some(Char::Raw('>'))), 2, 3)
    );
    assert_eq!(
        refusal("{>á}"),
        (ErrorKind::PaddingPrefixInvalid('>', Some(Char::Raw('á'))), 2, 4)
    );
    assert_eq!(refusal("{<3}"), (ErrorKind::RepetitionWithoutDelimiter, 3, 3));
    let huge = "99999999999999999999999";
    assert_eq!(
        refusal(&format!("{{<{huge}:x}}")),
        (ErrorKind::IntegerOverflow(huge.to_string()), 2, 25)
    );
}

#[test]
fn field_is_split_by_the_configured_separator_unless_it_names_one() {
    assert_eq!(
        filter("&2"),
        Filter::Field(Field {
            index: 1,
            separator: Separator::Regex("\\s+".to_string()),
        })
    );
    assert_eq!(
        filter("&1:, "),
        Filter::Field(Field {
            index: 0,
            separator: Separator::String(", ".to_string()),
        })
    );
    assert_eq!(
        filter("&3/"),
        Filter::Field(Field {
            index: 2,
            separator: Separator::String(String::new()),
        })
    );
    assert_eq!(refusal("{&}"), (ErrorKind::ExpectedNumber, 2, 2));
    assert_eq!(refusal("{&x}"), (ErrorKind::ExpectedNumber, 2, 3));
    assert_eq!(refusal("{&0}"), (ErrorKind::IndexZero, 2, 3));
    assert_eq!(
        Separator::Regex("a".to_string()).duplicate(),
        Separator::Regex("a".to_string())
    );
}

#[test]
fn unknown_filter_is_refused() {
    assert_eq!(
        refusal("{x}"),
        (ErrorKind::UnknownFilter(Char::Raw('x')), 1, 2)
    );
    assert_eq!(
        refusal("a{f|ž}"),
        (ErrorKind::UnknownFilter(Char::Raw('ž')), 4, 6)
    );
    assert_eq!(
        refusal("{%f}"),
        (ErrorKind::UnknownFilter(Char::Escaped('f', ['%', 'f'])), 1, 3)
    );
}

#[test]
fn escape_character_resolves_in_constants() {
    assert_eq!(
        parse("a%{b%|%}%%%n%r%t%x%"),
        Ok(vec![Parsed {
            value: Item::Constant("a{b|}%\n\r\tx%".to_string()),
            range: 0..19,
        }])
    );
    assert_eq!(
        Parser::new(
            "\\{{f}",
            &Config {
                escape: '\\',
                separator: Separator::String(String::new()),
            }
        )
        .parse_items(),
        Ok(vec![
            Parsed {
                value: Item::Constant("{".to_string()),
                range: 0..2,
            },
            Parsed {
                value: Item::Expression(vec![Parsed {
                    value: Filter::FileName,
                    range: 3..4,
                }]),
                range: 2..5,
            },
        ])
    );
}

#[test]
fn ranges_of_filter_items_take_the_pattern_apart() {
    for pattern in ["", "a", "{}", "{f|t}é{#1-2}", "%{x%}{e|<<%|}ž"] {
        let items = parse(pattern).unwrap();
        let mut end = 0;
        let mut joined = String::new();
        for item in &items {
            assert_eq!(item.range.start, end);
            assert!(item.range.start < item.range.end);
            joined.push_str(&pattern[item.range.clone()]);
            end = item.range.end;
        }
        assert_eq!(end, pattern.len());
        assert_eq!(joined, pattern);
    }
}

#[test]
fn parser_goes_on_where_it_stopped() {
    let config = config();
    let mut parser = Parser::new("a{f}", &config);
    assert_eq!(parser.parse_items().map(|items| items.len()), Ok(2));
    assert_eq!(parser.parse_items(), Ok(Vec::new()));
}

#[test]
fn items_are_described() {
    assert_eq!(
        Item::Constant("a\nb\t".to_string()).to_string(),
        "Constant 'a\\nb\\t'"
    );
    let filters = |count: usize| {
        (0..count)
            .map(|_| Parsed {
                value: Filter::Trim,
                range: 0..0,
            })
            .collect::<Vec<_>>()
    };
    assert_eq!(
        Item::Expression(filters(10)).to_string(),
        "Expression with 10 filters"
    );
    assert_eq!(
        Item::Expression(filters(123)).to_string(),
        "Expression with 123 filters"
    );
}
