use rustyrts::callbacks_shared::{calculate_changes, export_changes, no_instrumentation, CompileMode};
use rustyrts::fs_utils::CacheKind;
use rustyrts::checksums::{insert_hashmap, Checksums};

fn with(entries: &[(&str, (u64, u64))]) -> Checksums {
    let mut c = Checksums::new();
    for (n, v) in entries {
        insert_hashmap(&mut c, &n.to_string(), *v);
    }
    c
}

fn sorted(mut v: Vec<String>) -> Vec<String> {
    v.sort();
    v
}

#[test]
fn nothing_changes_without_differences() {
    let a = with(&[("f", (1, 1)), ("g", (2, 2))]);
    let v = with(&[("h", (3, 3))]);
    let k = with(&[]);
    assert!(calculate_changes(true, &a, &v, &k, &a, &v, &k).is_empty());
    assert!(calculate_changes(false, &a, &v, &k, &a, &v, &k).is_empty());
}

#[test]
fn new_and_altered_nodes_change() {
    let new = with(&[("same", (1, 1)), ("altered", (2, 2)), ("added", (3, 3)), ("grown", (4, 4)), ("grown", (5, 5))]);
    let old = with(&[("same", (1, 1)), ("altered", (9, 9)), ("removed", (7, 7)), ("grown", (4, 4))]);
    let empty = with(&[]);
    let changed = sorted(calculate_changes(true, &new, &empty, &empty, &old, &empty, &empty));
    assert_eq!(changed, vec!["added".to_string(), "altered".to_string(), "grown".to_string()]);
}

#[test]
fn vtable_entries_count_from_the_primary_revision() {
    let empty = with(&[]);
    let new_v = with(&[("f", (1, 1)), ("f", (2, 2))]);
    let old_v = with(&[("f", (1, 1)), ("g", (3, 3))]);
    assert_eq!(calculate_changes(true, &empty, &new_v, &empty, &empty, &old_v, &empty), vec!["f".to_string()]);
    assert_eq!(calculate_changes(false, &empty, &new_v, &empty, &empty, &old_v, &empty), vec!["g".to_string()]);
}

#[test]
fn const_checksums_count_too() {
    let empty = with(&[]);
    let new_c = with(&[("C", (1, 2))]);
    let old_c = with(&[("C", (1, 3))]);
    assert_eq!(calculate_changes(true, &empty, &empty, &new_c, &empty, &empty, &old_c), vec!["C".to_string()]);
}

#[test]
fn compile_modes_by_name() {
    assert_eq!(CompileMode::try_from_str("Doctest"), Ok(CompileMode::Doctest));
    assert_eq!(CompileMode::try_from_str("doctest"), Err(()));
    assert_eq!(CompileMode::Build.as_str(), "Build");
    for m in [CompileMode::Build, CompileMode::Test, CompileMode::Doctest] {
        assert_eq!(CompileMode::try_from_str(m.as_str()), Ok(m));
    }
}

#[test]
fn build_scripts_and_trybuild_are_not_instrumented() {
    assert!(no_instrumentation("build_script_build", None));
    assert!(no_instrumentation("build_script_main", Some("target")));
    assert!(no_instrumentation("krate", Some("/x/target/tests/trybuild")));
    assert!(!no_instrumentation("krate", Some("/x/target")));
    assert!(!no_instrumentation("krate", None));
}

#[test]
fn first_revision_changes_everything() {
    let new = with(&[("f", (1, 1)), ("g", (2, 2))]);
    let vtbl = with(&[("v", (3, 3))]);
    let consts = with(&[("c", (4, 4))]);
    let empty = with(&[]);
    let changed = sorted(calculate_changes(true, &new, &vtbl, &consts, &empty, &empty, &empty));
    assert_eq!(changed, vec!["c".to_string(), "f".to_string(), "g".to_string(), "v".to_string()]);
}

#[test]
fn changes_are_written_one_per_line() {
    let empty = with(&[]);
    let new = with(&[("f", (1, 1)), ("g", (2, 2))]);
    let old = with(&[("f", (1, 1))]);
    assert_eq!(export_changes(CacheKind::Static, &new, &empty, &empty, &old, &empty, &empty), Some("g".to_string()));
    assert_eq!(export_changes(CacheKind::Dynamic, &old, &empty, &empty, &old, &empty, &empty), None);
    let text = export_changes(CacheKind::Static, &new, &empty, &empty, &empty, &empty, &empty).unwrap();
    let mut lines: Vec<&str> = text.split('\n').collect();
    lines.sort();
    assert_eq!(lines, vec!["f", "g"]);
    let new_v = with(&[("v", (1, 1))]);
    let old_v = with(&[("v", (1, 1)), ("w", (2, 2))]);
    assert_eq!(export_changes(CacheKind::Static, &empty, &new_v, &empty, &empty, &old_v, &empty), None);
    assert_eq!(export_changes(CacheKind::Dynamic, &empty, &new_v, &empty, &empty, &old_v, &empty), Some("w".to_string()));
}
