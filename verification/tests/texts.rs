use rew::app::{get_after_help, get_version};
use rew::error::{build_prefix, report, Context, Style};
use rew::filter::explain::{explain, Part, PartKind};
use rew::filter::parse::{Config, Separator};
use rew::filter::parser::Parser;
use rew::filter::Filter;
use rew::pager::detect;
use rew::pattern::escape::escape_str;
use rew::pattern::eval::{Error, ErrorCause, ErrorKind};
use rew::pattern::variable::Variable;
use rew::process::{Invocation, Program};
use rew::spawn::Failure;
use rew::pattern::reader::Reader;
use rew::pattern::symbol::Char;
use rew::text::{chars_of, parse_decimal, push_decimal, string_of};
use rew::transfer::{plan, FileType, Refusal, Transfer, TransferMode};

const PLAIN: Style = Style { on: "", off: "" };
const BOLD: Style = Style {
    on: "\x1b[1m",
    off: "\x1b[0m",
};

#[test]
fn version_names_the_commit() {
    assert_eq!(get_version("0.4.0", Some("abc 2024-01-01")), "0.4.0 (abc 2024-01-01)");
    assert_eq!(get_version("0.4.0", None), "0.4.0 (unknown Git commit)");
}

#[test]
fn help_points_to_the_reference() {
    assert_eq!(
        get_after_help(None, &PLAIN),
        "Visit https://jpikl.github.io/rew/reference/rew.html.html for a complete reference and examples."
    );
    assert_eq!(
        get_after_help(Some("x"), &BOLD),
        "Visit \x1b[1mhttps://jpikl.github.io/rew/reference/rew-x.html.html\x1b[0m for a complete reference and examples."
    );
}

#[test]
fn prefix_names_the_command_and_the_ancestry() {
    assert_eq!(build_prefix("rew", None, None, &PLAIN), "rew");
    assert_eq!(build_prefix("rew", Some("x"), None, &PLAIN), "rew x");
    assert_eq!(
        build_prefix("rew", Some("cat"), Some("rew x"), &BOLD),
        "\x1b[1mrew cat\x1b[0m (spawned by '\x1b[1mrew x\x1b[0m')"
    );
}

#[test]
fn failure_is_reported_line_by_line() {
    let failure = Failure {
        messages: vec![
            "failed to spawn child process".to_string(),
            "command: tr".to_string(),
            "No such file".to_string(),
        ],
    };
    assert_eq!(
        report("rew x", &failure, &PLAIN),
        [
            "rew x: error: failed to spawn child process",
            "rew x: └─> command: tr",
            "rew x: └─> No such file",
        ]
    );
    assert_eq!(
        report(
            "p",
            &Failure::new("m"),
            &Style {
                on: "<",
                off: ">"
            }
        ),
        ["p: <error:> m"]
    );
    assert!(report("p", &Failure { messages: vec![] }, &PLAIN).is_empty());
}

#[test]
fn steps_are_put_around_a_failure() {
    let mut context = Context::new("reading");
    context.add("running");
    assert_eq!(context, Context(vec!["reading".to_string(), "running".to_string()]));
    assert_eq!(
        context.apply(Failure::new("broken")).messages,
        ["running", "reading", "broken"]
    );
}

fn named(path: &str, args: &[&str]) -> Invocation {
    Invocation {
        program: Program::Named(path.to_string()),
        args: args.iter().map(|arg| arg.to_string()).collect(),
        envs: vec![],
    }
}

#[test]
fn pager_is_less_before_more_on_a_terminal() {
    let less = || Some("/usr/bin/less".to_string());
    let more = || Some("/bin/more".to_string());
    assert_eq!(detect(false, less(), more()), None);
    assert_eq!(detect(true, None, None), None);
    assert_eq!(
        detect(true, less(), more()),
        Some(named("/usr/bin/less", &["-FIrX"]))
    );
    assert_eq!(detect(true, None, more()), Some(named("/bin/more", &[])));
}

#[test]
fn transfer_is_planned_from_what_lies_at_both_ends() {
    let modes = [TransferMode::Copy, TransferMode::Move];
    for target in [FileType::File, FileType::Dir, FileType::Unknown] {
        for mode in modes {
            assert_eq!(plan(FileType::Unknown, target, mode), Err(Refusal::NotFound));
        }
    }
    for mode in modes {
        assert_eq!(
            plan(FileType::File, FileType::Dir, mode),
            Err(Refusal::FileOverDir)
        );
        assert_eq!(
            plan(FileType::Dir, FileType::File, mode),
            Err(Refusal::DirOverFile)
        );
    }
    for target in [FileType::File, FileType::Unknown] {
        assert_eq!(
            plan(FileType::File, target, TransferMode::Copy),
            Ok(Transfer::CopyFile)
        );
        assert_eq!(
            plan(FileType::File, target, TransferMode::Move),
            Ok(Transfer::MoveFile)
        );
    }
    for target in [FileType::Dir, FileType::Unknown] {
        assert_eq!(
            plan(FileType::Dir, target, TransferMode::Copy),
            Ok(Transfer::CopyDir)
        );
        assert_eq!(
            plan(FileType::Dir, target, TransferMode::Move),
            Ok(Transfer::MoveDir)
        );
    }
}

#[test]
fn refused_transfer_is_worded() {
    assert_eq!(
        Refusal::NotFound.message("a1", "b1"),
        "Path 'a1' not found or user lacks permission"
    );
    assert_eq!(
        Refusal::FileOverDir.message("a", "d"),
        "Cannot to overwrite directory 'd' with file 'a'"
    );
    assert_eq!(
        Refusal::DirOverFile.message("d", "a"),
        "Cannot to overwrite file 'a' with directory 'd'"
    );
}

#[test]
fn failed_evaluation_is_worded() {
    let range = 1..2;
    let variable = Variable::CaptureGroup(12);
    assert_eq!(
        Error {
            kind: ErrorKind::InputNotUtf8,
            cause: ErrorCause::Variable(&variable),
            value: "abc".to_string(),
            range: &range,
        }
        .to_string(),
        "`Capture group #12` variable evaluation failed for value 'abc': Input does not have UTF-8 encoding"
    );
    let filter = Filter::FileName;
    let error = Error {
        kind: ErrorKind::CanonicalizationFailed("not found".to_string()),
        cause: ErrorCause::Filter(&filter),
        value: "a/b".to_string(),
        range: &range,
    };
    assert_eq!(
        error.to_string(),
        "`File name` filter evaluation failed for value 'a/b': Path canonicalization failed: not found"
    );
    assert_eq!(error.range(), &(1..2));
    assert_eq!(error.kind.to_string(), "Path canonicalization failed: not found");
    assert_eq!(error.cause.to_string(), "`File name` filter");
    assert_eq!(
        ErrorCause::Variable(&Variable::Uuid).to_string(),
        "`Random UUID` variable"
    );
}

#[test]
fn explain_empty() {
    assert_eq!(explain(&Vec::new()), vec![]);
}

#[test]
fn parts_of_a_pattern_are_explained() {
    let config = Config {
        escape: '%',
        separator: Separator::String("\t".to_string()),
    };
    let items = Parser::new("_{f|t|^}", &config).parse_items().unwrap();
    let part = |kind, start, end, text: &str| Part {
        kind,
        start,
        end,
        text: text.to_string(),
    };
    assert_eq!(
        explain(&items),
        vec![
            part(PartKind::Constant, 0, 1, "Constant '_'"),
            part(PartKind::Expression, 1, 8, "Expression with 3 filters"),
            part(PartKind::Filter, 2, 3, "File name"),
            part(PartKind::Filter, 4, 5, "Trim"),
            part(PartKind::Filter, 6, 7, "To uppercase"),
        ]
    );
}

#[test]
fn control_characters_are_shown_escaped() {
    assert_eq!(escape_str("a\nb\tc\rd\0e\\"), "a\\nb\\tc\\rd\\0e\\");
    assert_eq!(escape_str(""), "");
}

#[test]
fn numbers_are_read_and_written_in_decimal() {
    let digits = |text: &str| text.chars().collect::<Vec<char>>();
    assert_eq!(parse_decimal(&digits("0")), Some(0));
    assert_eq!(parse_decimal(&digits("007")), Some(7));
    assert_eq!(parse_decimal(&digits("")), Some(0));
    assert_eq!(parse_decimal(&digits(&usize::MAX.to_string())), Some(usize::MAX));
    assert_eq!(parse_decimal(&digits(&format!("{}0", usize::MAX))), None);
    assert_eq!(parse_decimal(&digits("99999999999999999999999999")), None);
    assert_eq!(parse_decimal(&digits("12a")), None);
    assert_eq!(parse_decimal(&digits("-1")), None);
    for number in [0, 9, 10, 99, 100, 12345, usize::MAX] {
        let mut text = String::from("#");
        push_decimal(&mut text, number);
        assert_eq!(text, format!("#{number}"));
    }
}

#[test]
fn characters_of_a_text_are_kept_in_order() {
    let chars = chars_of("aá€😀");
    assert_eq!(chars, ['a', 'á', '€', '😀']);
    assert_eq!(string_of(&chars), "aá€😀");
    assert_eq!(string_of(&chars_of("")), "");
}

#[test]
fn reader_goes_through_the_symbols() {
    let symbols = vec![Char::Raw('á'), Char::Escaped('\n', ['%', 'n']), Char::Raw('1'), Char::Raw('2')];
    let mut reader = Reader::checked(symbols).unwrap();
    assert_eq!(reader.position(), 0);
    assert_eq!(reader.end(), 6);
    assert_eq!(reader.peek(), Some(Char::Raw('á')));
    assert_eq!(reader.read(), Some(Char::Raw('á')));
    assert_eq!(reader.position(), 2);
    assert_eq!(reader.span(), (2, 4));
    assert_eq!(reader.read().map(|symbol| symbol.as_char()), Some('\n'));
    assert_eq!(reader.fork().read_digits(), ['1', '2']);
    assert_eq!(reader.read_to_end(), "12");
    assert_eq!(reader.span(), (6, 6));
    assert_eq!(reader.read(), None);
    let mut reader = Reader::checked(vec![Char::Raw('a'), Char::Raw(':'), Char::Raw('b')]).unwrap();
    assert_eq!(reader.read_until(':'), ("a".to_string(), true));
    assert_eq!(reader.read_until(':'), ("b".to_string(), false));
}
