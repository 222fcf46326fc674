use rew::command::{Group, Meta};
use rew::commands::trim::trim_line;
use rew::commands::upper::uppercase_block;
use rew::commands::{cat, get_meta, metas, same_text};
use rew::process::StdinMode;

#[test]
fn group_names() {
    assert_eq!(Group::General.name(), "Commands");
    assert_eq!(Group::Transformers.name(), "Transform commands");
    assert_eq!(Group::Mappers.name(), "Mapper commands");
    assert_eq!(Group::Paths.name(), "Path commands");
    assert_eq!(Group::Filters.name(), "Filter commands");
    assert_eq!(Group::Generators.name(), "Generator commands");
}

#[test]
fn group_descriptions() {
    assert_eq!(Group::General.description(), None);
    assert_eq!(
        Group::Transformers.description(),
        Some("Transform input text to output. May output a different number of lines than was on input.")
    );
    assert_eq!(
        Group::Mappers.description(),
        Some("Transform each input line to output. Should output the same number of lines as was on input.")
    );
    assert_eq!(
        Group::Paths.description(),
        Some("Just like mapper commands but expect input lines to be filesystem paths.")
    );
    assert_eq!(
        Group::Filters.description(),
        Some("Output only certain input lines based on some criteria.")
    );
    assert_eq!(
        Group::Generators.description(),
        Some("Generate lines, ignore standard input.")
    );
}

#[test]
fn only_generators_ignore_their_input() {
    for group in Group::values() {
        let expected = if group == Group::Generators {
            StdinMode::Disconnected
        } else {
            StdinMode::Connected
        };
        assert_eq!(group.stdin_mode(), expected);
    }
}

#[test]
fn groups_are_listed_in_the_order_of_the_help() {
    assert_eq!(
        Group::values(),
        vec![
            Group::General,
            Group::Transformers,
            Group::Mappers,
            Group::Paths,
            Group::Filters,
            Group::Generators,
        ]
    );
    assert_eq!(Group::default(), Group::General);
}

#[test]
fn built_in_commands_are_found_by_name() {
    assert_eq!(
        get_meta("upper"),
        Some(Meta {
            name: "upper",
            group: Group::Mappers
        })
    );
    assert_eq!(
        get_meta("seq"),
        Some(Meta {
            name: "seq",
            group: Group::Generators
        })
    );
    assert_eq!(get_meta("cat"), Some(cat()));
    assert_eq!(get_meta("tr"), None);
    assert_eq!(get_meta(""), None);
    assert_eq!(get_meta("uppe"), None);
    assert_eq!(get_meta("upperr"), None);
    let names: Vec<&str> = metas().iter().map(|meta| meta.name).collect();
    assert_eq!(
        names,
        ["ascii", "cat", "first", "loop", "lower", "seq", "skip", "stream", "trim", "upper", "x"]
    );
    for meta in metas() {
        assert_eq!(get_meta(meta.name), Some(meta));
    }
}

#[test]
fn texts_are_compared_character_by_character() {
    assert!(same_text("", ""));
    assert!(same_text("čau", "čau"));
    assert!(!same_text("a", "b"));
    assert!(!same_text("a", "ab"));
}

fn upper(block: &str) -> String {
    let mut out = Vec::new();
    uppercase_block(block.as_bytes(), &mut out);
    String::from_utf8(out).unwrap()
}

#[test]
fn ascii_block_is_converted_byte_by_byte() {
    assert_eq!(upper("abCD"), "ABCD");
    assert_eq!(upper("a-z {|} 09 `~"), "A-Z {|} 09 `~");
    assert_eq!(upper(""), "");
}

#[test]
fn other_block_is_converted_by_unicode() {
    assert_eq!(upper("ábČD"), "ÁBČD");
    assert_eq!(upper("aáaáaáaá"), "AÁAÁAÁAÁ");
    assert_eq!(upper("hello β"), "HELLO Β");
}

#[test]
fn upper_case_is_appended_to_the_buffer() {
    let mut out = b"x:".to_vec();
    uppercase_block(b"ab", &mut out);
    uppercase_block("č".as_bytes(), &mut out);
    assert_eq!(out, "x:ABČ".as_bytes());
    let mut invalid = Vec::new();
    uppercase_block(b"foo\xFFbar", &mut invalid);
    assert_eq!(invalid, b"FOO\xFFBAR");
}

#[test]
fn lines_are_trimmed_at_the_ends_asked_for() {
    let lines = ["  spaces around  ", "  spaces before", "spaces after   "];
    let trimmed = |start: bool, end: bool| -> Vec<&str> {
        lines
            .iter()
            .map(|line| std::str::from_utf8(trim_line(line.as_bytes(), start, end)).unwrap())
            .collect()
    };
    assert_eq!(
        trimmed(false, false),
        ["spaces around", "spaces before", "spaces after"]
    );
    assert_eq!(
        trimmed(true, true),
        ["spaces around", "spaces before", "spaces after"]
    );
    assert_eq!(
        trimmed(true, false),
        ["spaces around  ", "spaces before", "spaces after   "]
    );
    assert_eq!(
        trimmed(false, true),
        ["  spaces around", "  spaces before", "spaces after"]
    );
    assert_eq!(
        trim_line("\u{2003}a\tb\n".as_bytes(), false, false),
        b"a\tb"
    );
    assert_eq!(trim_line(b"   ", true, false), b"");
    assert_eq!(trim_line(b"", false, true), b"");
}
