use rustyrts::cli::LazyConfig;
use rustyrts::fs_utils::CacheFileKind;
use rustyrts::traces::{post_test, pre_test, traces_output, TraceList};

#[test]
fn traces_are_handed_over_once() {
    let mut list = TraceList::new();
    list.trace("a");
    list.trace("b");
    list.trace("a");
    let (mut traces, descr) = post_test(&mut list, "my_test");
    traces.sort();
    assert_eq!(traces, vec!["a".to_string(), "b".to_string()]);
    assert_eq!(descr.crate_name, "my_test");
    assert_eq!(descr.kind, CacheFileKind::Traces);
    let (again, _) = post_test(&mut list, "my_test");
    assert!(again.is_empty());
    list.trace("c");
    pre_test(&mut list);
    assert!(list.reset_list().is_empty());
}

#[test]
fn traces_text_has_one_line_each() {
    let text = traces_output(&vec!["a".to_string()], &vec!["b".to_string(), "a".to_string()]);
    let mut lines: Vec<&str> = text.lines().collect();
    lines.sort();
    assert_eq!(lines, vec!["a", "b"]);
    assert!(text.ends_with('\n'));
}

#[test]
fn configuration_loads_once() {
    let mut lazy: LazyConfig<u32> = LazyConfig::new();
    assert!(!lazy.is_init());
    assert_eq!(*lazy.get(|| 7), 7);
    assert!(lazy.is_init());
    assert_eq!(*lazy.get(|| 8), 7);
    *lazy.get_mut(|| 9) += 1;
    assert_eq!(*lazy.get(|| 0), 8);
}
