use rustyrts::collector::{doctest_base_name, find_codes, find_testable_code, Collector, GlobalTestOptions};
use rustyrts::rustdoc::{ErrorCodes, Ignore};

const DOC: &str = "Intro.\n\n```rust\nlet x = 1;\n# let y = 2;\n```\n\n```text\nnot rust\n```\n\n    indented();\n\n```ignore\nfail();\n```\n";

fn collector(use_headers: bool) -> Collector {
    Collector::new("demo".to_string(), use_headers, GlobalTestOptions::default(), "lib.rs".to_string(), false)
}

#[test]
fn rust_blocks_become_doctests() {
    let mut c = collector(false);
    assert!(find_testable_code(DOC, &mut c, ErrorCodes::Yes, false, false));
    let names: Vec<&str> = c.tests.iter().map(|t| t.0.as_str()).collect();
    assert_eq!(names, vec!["lib.rs - (line 3)", "lib.rs - (line 12)", "lib.rs - (line 14)"]);
    assert_eq!(c.tests[0].1 .0, "let x = 1;\nlet y = 2;");
    assert_eq!(c.tests[1].1 .0, "indented();");
    assert_eq!(c.tests[2].1 .0, "fail();");
    assert_eq!(c.tests[2].1 .2.ignore, Ignore::All);
    assert_eq!(c.tests[0].1 .2.original, "rust");
}

#[test]
fn other_blocks_on_request() {
    let mut c = collector(false);
    assert!(find_codes(DOC, &mut c, ErrorCodes::Yes, false, true, false));
    assert_eq!(c.tests.len(), 4);
    assert_eq!(c.tests[1].0, "lib.rs - (line 8)");
    assert_eq!(c.tests[1].1 .0, "not rust");
    assert!(!c.tests[1].1 .2.rust);
}

#[test]
fn headings_name_doctests() {
    let doc = "# Title\n\n## Sub Title\n\n```\nassert!(true);\n```\n";
    let mut c = collector(true);
    assert!(find_testable_code(doc, &mut c, ErrorCodes::Yes, false, false));
    assert_eq!(c.tests.len(), 1);
    assert_eq!(c.tests[0].0, "lib.rs - Title::Sub_Title (line 5)");
    let mut c = collector(false);
    assert!(find_testable_code(doc, &mut c, ErrorCodes::Yes, false, false));
    assert_eq!(c.tests[0].0, "lib.rs - (line 5)");
}

#[test]
fn position_shifts_lines() {
    let mut c = collector(false);
    c.set_position(10);
    assert_eq!(c.get_line(), 9);
    assert!(find_testable_code("```\nx();\n```\n", &mut c, ErrorCodes::Yes, false, false));
    assert_eq!(c.tests[0].0, "lib.rs - (line 10)");
    assert_eq!(c.get_filename(), "lib.rs");
}

#[test]
fn headers_and_names() {
    let mut c = collector(true);
    c.register_header("a b", 2);
    c.register_header("1x", 1);
    c.add_test("code".to_string(), Default::default(), 7);
    assert_eq!(c.tests[0].0, "lib.rs - _x (line 7)");
    assert_eq!(c.generate_name(3, "f.md"), "f.md - _x (line 3)");
}

#[test]
fn doctest_names_lose_their_line() {
    assert_eq!(doctest_base_name("src/lib.rs - (line 12)"), "src/lib.rs");
    assert_eq!(doctest_base_name("src/lib.rs - foo::Bar (line 3)"), "src/lib.rs - foo::Bar");
    assert_eq!(doctest_base_name("a (line 1) (line 2)"), "a (line 1)");
}
