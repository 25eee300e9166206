use rustyrts::rustdoc::{
    code_text, map_line, tag_tokens, tokens, Edition, ErrorCodes, Ignore, LangString,
    LangStringToken, Line,
};

fn parse(s: &str) -> LangString {
    LangString::parse_without_check(s, ErrorCodes::Yes, true, false)
}

#[test]
fn plain_rust_blocks() {
    let l = parse("");
    assert!(l.rust);
    assert_eq!(l.ignore, Ignore::Never);
    let l = parse("rust,should_panic");
    assert!(l.rust && l.should_panic);
}

#[test]
fn other_languages_are_not_rust() {
    let l = parse("text");
    assert!(!l.rust);
    assert_eq!(l.unknown, vec!["text".to_string()]);
    let l = parse("text,rust");
    assert!(l.rust);
}

#[test]
fn attributes_of_doctests() {
    let l = parse("{.no_run, compile_fail, E0123, edition2018}");
    assert!(l.no_run && l.compile_fail);
    assert_eq!(l.error_codes, vec!["E0123".to_string()]);
    assert_eq!(l.edition, Some(Edition::Edition2018));
    assert!(l.rust);
    let l = parse("ignore-x86_64 ignore-ignore-wasm");
    assert_eq!(l.ignore, Ignore::Targets(vec!["x86_64".to_string(), "wasm".to_string()]));
    let l = parse("ignore");
    assert_eq!(l.ignore, Ignore::All);
    let l = LangString::parse_without_check("E0123", ErrorCodes::No, false, false);
    assert_eq!(l.unknown, vec!["E0123".to_string()]);
    let l = parse("Exxxx");
    assert!(l.error_codes.is_empty() && l.unknown.is_empty() && !l.rust);
    let l = parse("rust2018");
    assert!(l.unknown.is_empty() && l.rust);
}

#[test]
fn tokens_of_attributes() {
    assert_eq!(
        tokens(" {.a, b\tc} "),
        vec![
            LangStringToken::LangToken("a".to_string()),
            LangStringToken::LangToken("b".to_string()),
            LangStringToken::LangToken("c".to_string()),
        ]
    );
    assert!(tokens(",, ,").is_empty());
}

#[test]
fn error_code_flags() {
    assert_eq!(ErrorCodes::from(true), ErrorCodes::Yes);
    assert!(!ErrorCodes::No.as_bool());
}

#[test]
fn tokens_with_attribute_blocks() {
    assert_eq!(
        tag_tokens("rust {class=x .y} should_panic"),
        vec![
            LangStringToken::LangToken("rust".to_string()),
            LangStringToken::KeyValueAttribute("class".to_string(), "x".to_string()),
            LangStringToken::ClassAttribute("y".to_string()),
            LangStringToken::LangToken("should_panic".to_string()),
        ]
    );
    assert_eq!(
        tag_tokens("\"a b\" (a comment) c"),
        vec![LangStringToken::LangToken("a b".to_string()), LangStringToken::LangToken("c".to_string())]
    );
    assert_eq!(tag_tokens("a {b} c"), vec![LangStringToken::LangToken("a".to_string())]);
    assert!(tag_tokens("  ").is_empty());
}

#[test]
fn parse_with_custom_classes() {
    let l = LangString::parse("rust {class=x} should_panic {.y}", ErrorCodes::Yes, false, true);
    assert_eq!(l.added_classes, vec!["x".to_string(), "y".to_string()]);
    assert!(l.should_panic && l.rust);
    let l = LangString::parse("custom", ErrorCodes::Yes, false, true);
    assert!(!l.rust);
    let l = LangString::parse("custom", ErrorCodes::Yes, false, false);
    assert!(!l.rust && l.unknown.is_empty());
    let l = LangString::parse("{key=v}", ErrorCodes::Yes, false, false);
    assert_eq!(l.unknown, vec!["key=v".to_string()]);
    assert_eq!(l.original, "{key=v}".to_string());
}

#[test]
fn lines_of_doctests() {
    assert_eq!(map_line("  ## foo"), Line::Shown("  # foo".to_string()));
    assert_eq!(map_line("# hidden"), Line::Hidden("hidden".to_string()));
    assert_eq!(map_line("  # a "), Line::Hidden("a".to_string()));
    assert_eq!(map_line("   #   "), Line::Hidden(String::new()));
    assert_eq!(map_line("#[derive(Debug)]"), Line::Shown("#[derive(Debug)]".to_string()));
    assert_eq!(map_line("# x").for_html(), None);
    assert_eq!(map_line("let x = 1;").for_html(), Some("let x = 1;".to_string()));
    assert_eq!(map_line("# x").for_code(), "x".to_string());
}

#[test]
fn code_of_doctests() {
    assert_eq!(code_text("# use x;\nlet y = 1;\r\n## z\n"), "use x;\nlet y = 1;\n# z".to_string());
    assert_eq!(code_text(""), String::new());
    assert_eq!(code_text("a\n\nb"), "a\n\nb".to_string());
}
