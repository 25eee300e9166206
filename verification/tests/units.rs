use rustyrts::graph::{DependencyGraph, EdgeType};
use rustyrts::units::{dynamic_unit_changes, static_unit_nodes, ChangedUnit, GraphUnit, UnitDep};

fn names(v: &[&str]) -> Vec<String> {
    v.iter().map(|s| s.to_string()).collect()
}

fn sorted(mut v: Vec<String>) -> Vec<String> {
    v.sort();
    v
}

fn dep(unit: usize, build: bool, proc_macro: bool) -> UnitDep {
    UnitDep { unit, build, proc_macro }
}

#[test]
fn libraries_pass_their_changes_on() {
    let units = vec![
        ChangedUnit { changes: names(&["a"]), deps: vec![] },
        ChangedUnit { changes: names(&["m"]), deps: vec![] },
        ChangedUnit { changes: names(&["b", "a"]), deps: vec![dep(0, true, false)] },
        ChangedUnit { changes: names(&["c"]), deps: vec![dep(2, true, false), dep(1, true, true), dep(0, false, false)] },
    ];
    let r = dynamic_unit_changes(&units);
    assert_eq!(sorted(r[0].clone()), names(&["a"]));
    assert_eq!(sorted(r[2].clone()), names(&["a", "b"]));
    assert_eq!(sorted(r[3].clone()), names(&["a", "b", "c"]));
}

#[test]
fn reached_nodes_cross_units() {
    let mut lib = DependencyGraph::new();
    lib.add_edge("x".to_string(), "a".to_string(), EdgeType::Call);
    lib.add_edge("y".to_string(), "z".to_string(), EdgeType::Call);
    let mut test = DependencyGraph::new();
    test.add_edge("t".to_string(), "x".to_string(), EdgeType::Call);
    test.add_edge("u".to_string(), "w".to_string(), EdgeType::Call);
    let units = vec![
        GraphUnit { changes: names(&["a"]), graph: lib, deps: vec![] },
        GraphUnit { changes: vec![], graph: test, deps: vec![dep(0, true, false)] },
    ];
    let r = static_unit_nodes(&units);
    assert_eq!(sorted(r[0].0.clone()), names(&["a"]));
    assert_eq!(sorted(r[0].1.clone()), names(&["a", "x"]));
    assert_eq!(sorted(r[1].0.clone()), names(&["a"]));
    assert_eq!(sorted(r[1].1.clone()), names(&["a", "t", "x"]));
}
