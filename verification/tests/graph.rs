use rustyrts::graph::{DependencyGraph, EdgeType};

#[test]
fn test_graph_deserialization() {
    let mut graph: DependencyGraph = DependencyGraph::new();

    graph.add_edge("start1".to_string(), "end1".to_string(), EdgeType::Closure);
    graph.add_edge("start1".to_string(), "end2".to_string(), EdgeType::Closure);
    graph.add_edge("start2".to_string(), "end2".to_string(), EdgeType::Closure);

    let serialized = graph.to_string();
    let deserialized = DependencyGraph::from_str(&serialized).unwrap();

    assert_eq!(graph, deserialized);
}

#[test]
fn serialized_graph_text() {
    let mut graph = DependencyGraph::new();
    graph.add_edge("a".to_string(), "b".to_string(), EdgeType::Call);
    graph.add_edge("a".to_string(), "b".to_string(), EdgeType::FnDef);
    let text = graph.to_string();
    assert_eq!(
        text,
        "digraph {\n\n//Nodes\n\"b\"\n\"a\"\n\n//Edges\n\"a\" -> \"b\" // {Call, FnDef}\n}\n"
    );
}

#[test]
fn text_without_digraph_is_refused() {
    assert!(DependencyGraph::from_str("graph { }").is_err());
    assert!(DependencyGraph::from_str("digraph {\n").is_err());
}

#[test]
fn edge_kinds_are_read_by_name() {
    assert_eq!(EdgeType::from_str("Generator"), Ok(EdgeType::Generator));
    assert_eq!(EdgeType::from_str("Unknown"), Err(()));
    assert_eq!(EdgeType::Scalar.name(), "Scalar");
}

#[test]
fn reachable_nodes_follow_edges_backwards() {
    let mut graph = DependencyGraph::new();
    graph.add_edge("test_a".to_string(), "helper".to_string(), EdgeType::Call);
    graph.add_edge("helper".to_string(), "core".to_string(), EdgeType::Call);
    graph.add_edge("test_b".to_string(), "other".to_string(), EdgeType::Call);
    let mut reached = graph.reachable_nodes(&vec!["core".to_string()]);
    reached.sort();
    assert_eq!(reached, vec!["core".to_string(), "helper".to_string(), "test_a".to_string()]);
    let none = graph.reachable_nodes(&vec![]);
    assert!(none.is_empty());
    let unknown = graph.reachable_nodes(&vec!["missing".to_string()]);
    assert_eq!(unknown, vec!["missing".to_string()]);
}

#[test]
fn graphs_compare_by_content() {
    let mut a = DependencyGraph::new();
    a.add_node("x".to_string());
    a.add_node("y".to_string());
    let mut b = DependencyGraph::new();
    b.add_node("y".to_string());
    b.add_node("x".to_string());
    assert_eq!(a, b);
    b.add_edge("x".to_string(), "y".to_string(), EdgeType::Call);
    assert_ne!(a, b);
}

#[test]
fn readability_of_serialized_graphs() {
    assert!(DependencyGraph::is_readable("digraph {\n\"a\" -> \"b\" // {Call, FnDef}\n}\n"));
    assert!(DependencyGraph::is_readable("not a graph"));
    assert!(!DependencyGraph::is_readable("digraph {\n\"a\" -> \"b\" // {Bogus}\n}"));
    assert!(!DependencyGraph::is_readable("digraph {\n\"a\" -> \"b\"\n}"));
    assert!(DependencyGraph::is_readable("digraph {\n\\\\ \"a\" -> \"b\"\n}"));
}
