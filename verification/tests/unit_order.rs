use rustyrts::unit_order::{in_unit_order, units_in_order};
use rustyrts::units::{dynamic_unit_changes, ChangedUnit, UnitDep};

fn dep(unit: usize) -> UnitDep {
    UnitDep { unit, build: true, proc_macro: false }
}

fn names(v: &[&str]) -> Vec<String> {
    v.iter().map(|s| s.to_string()).collect()
}

#[test]
fn units_are_ordered_after_their_dependencies() {
    let deps = vec![vec![dep(2)], vec![dep(0), dep(2)], vec![]];
    let order = units_in_order(&deps).unwrap();
    assert_eq!(order, vec![2, 0, 1]);
}

#[test]
fn cycles_and_missing_units_have_no_order() {
    assert_eq!(units_in_order(&vec![vec![dep(1)], vec![dep(0)]]), None);
    assert_eq!(units_in_order(&vec![vec![dep(5)]]), None);
    assert_eq!(units_in_order(&vec![vec![dep(0)]]), None);
    assert_eq!(units_in_order(&Vec::new()), Some(Vec::new()));
}

#[test]
fn reordered_units_gather_changes() {
    let units = vec![
        ChangedUnit { changes: names(&["c"]), deps: vec![dep(1)] },
        ChangedUnit { changes: names(&["a"]), deps: vec![] },
    ];
    let deps: Vec<Vec<UnitDep>> = units.iter().map(|u| u.deps.clone()).collect();
    let order = units_in_order(&deps).unwrap();
    assert_eq!(order, vec![1, 0]);
    let ordered = in_unit_order(&units, &order);
    assert_eq!(ordered[1].deps, vec![dep(0)]);
    assert_eq!(ordered[1].changes, names(&["c"]));
    let mut seen = dynamic_unit_changes(&ordered)[1].clone();
    seen.sort();
    assert_eq!(seen, names(&["a", "c"]));
}
