use rew::cli::{
    parse_color, parse_single_byte_char, validate_escape, validate_pattern, validate_regex,
    ColorWhen,
};

#[test]
fn single_byte() {
    assert_eq!(parse_single_byte_char("a"), Ok(b'a'));
}

#[test]
fn multi_byte() {
    assert_eq!(
        parse_single_byte_char("á"),
        Err("multi-byte characters are not supported",)
    );
}

#[test]
fn multi_char() {
    assert_eq!(
        parse_single_byte_char("aa"),
        Err("value must be a single character")
    );
}

#[test]
fn no_char() {
    assert_eq!(
        parse_single_byte_char(""),
        Err("value must be a single character")
    );
}

#[test]
fn escape_must_be_one_ordinary_character() {
    assert_eq!(validate_escape("%"), Ok(()));
    assert_eq!(validate_escape("\\"), Ok(()));
    assert_eq!(validate_escape(""), Err("Value must be a single character"));
    assert_eq!(validate_escape("ab"), Err("Value must be a single character"));
    for meta in ["{", "|", "}"] {
        assert_eq!(
            validate_escape(meta),
            Err("Cannot use one of meta characters '{', '|', '}'")
        );
    }
}

#[test]
fn pattern_must_not_be_empty() {
    assert_eq!(validate_pattern("x"), Ok(()));
    assert_eq!(validate_pattern(""), Err("Empty string"));
}

#[test]
fn regular_expression_must_compile() {
    assert_eq!(validate_regex("^a+(b|c)$"), Ok(()));
    assert_eq!(validate_regex(""), Ok(()));
    let message = validate_regex("foo(bar").unwrap_err();
    assert_ne!(message, "foo(bar");
    assert!(message.contains("unclosed group"), "{message}");
    assert!(validate_regex("\\w{1000}{1000}")
        .unwrap_err()
        .contains("size limit"));
}

#[test]
fn colour_option_has_four_words() {
    assert_eq!(parse_color("auto"), Some(ColorWhen::Auto));
    assert_eq!(parse_color("always"), Some(ColorWhen::Always));
    assert_eq!(parse_color("ansi"), Some(ColorWhen::Ansi));
    assert_eq!(parse_color("never"), Some(ColorWhen::Never));
    assert_eq!(parse_color("Auto"), None);
    assert_eq!(parse_color(""), None);
}
