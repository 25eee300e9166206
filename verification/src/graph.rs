use vstd::prelude::*;
use crate::text::{contains, split_by, split_once, starts_with, strip_prefix, strip_suffix, trim, trim_start};

verus! {

/// Kind of a dependency between two nodes of the dependency graph.
#[derive(PartialEq, Eq, Debug, Clone, Copy, Structural)]
pub enum EdgeType {
    Call,
    Unevaluated,
    Scalar,
    Closure,
    Generator,
    FnDef,
}

/// The textual name of an edge type, as written in serialized graphs.
pub open spec fn edge_type_name(t: EdgeType) -> Seq<char> {
    match t {
        EdgeType::Call => seq!['C', 'a', 'l', 'l'],
        EdgeType::Unevaluated => seq!['U', 'n', 'e', 'v', 'a', 'l', 'u', 'a', 't', 'e', 'd'],
        EdgeType::Scalar => seq!['S', 'c', 'a', 'l', 'a', 'r'],
        EdgeType::Closure => seq!['C', 'l', 'o', 's', 'u', 'r', 'e'],
        EdgeType::Generator => seq!['G', 'e', 'n', 'e', 'r', 'a', 't', 'o', 'r'],
        EdgeType::FnDef => seq!['F', 'n', 'D', 'e', 'f'],
    }
}

impl EdgeType {
    pub fn name(&self) -> (s: &'static str)
        ensures s@ == edge_type_name(*self),
    {
        match self {
            EdgeType::Call => {
                proof { reveal_strlit("Call"); }
                "Call"
            },
            EdgeType::Unevaluated => {
                proof { reveal_strlit("Unevaluated"); }
                "Unevaluated"
            },
            EdgeType::Scalar => {
                proof { reveal_strlit("Scalar"); }
                "Scalar"
            },
            EdgeType::Closure => {
                proof { reveal_strlit("Closure"); }
                "Closure"
            },
            EdgeType::Generator => {
                proof { reveal_strlit("Generator"); }
                "Generator"
            },
            EdgeType::FnDef => {
                proof { reveal_strlit("FnDef"); }
                "FnDef"
            },
        }
    }
}


/// An edge type given its textual name, as `EdgeType::from_str`.
pub open spec fn edge_type_from_name(s: Seq<char>) -> Option<EdgeType> {
    if s == edge_type_name(EdgeType::Call) {
        Some(EdgeType::Call)
    } else if s == edge_type_name(EdgeType::Unevaluated) {
        Some(EdgeType::Unevaluated)
    } else if s == edge_type_name(EdgeType::Scalar) {
        Some(EdgeType::Scalar)
    } else if s == edge_type_name(EdgeType::Closure) {
        Some(EdgeType::Closure)
    } else if s == edge_type_name(EdgeType::Generator) {
        Some(EdgeType::Generator)
    } else if s == edge_type_name(EdgeType::FnDef) {
        Some(EdgeType::FnDef)
    } else {
        None
    }
}

/// Reading back the name of an edge type gives that edge type.
pub proof fn lemma_edge_type_name_roundtrip(t: EdgeType)
    ensures
        edge_type_from_name(edge_type_name(t)) == Some(t),
{
    reveal_with_fuel(edge_type_from_name, 1);
    assert(edge_type_name(EdgeType::Call) != edge_type_name(EdgeType::Closure));
    assert(edge_type_name(EdgeType::Call) != edge_type_name(EdgeType::Scalar));
    assert(edge_type_name(EdgeType::Call) != edge_type_name(EdgeType::FnDef));
    assert(edge_type_name(EdgeType::Call) != edge_type_name(EdgeType::Generator));
    assert(edge_type_name(EdgeType::Call) != edge_type_name(EdgeType::Unevaluated));
    assert(edge_type_name(EdgeType::Unevaluated) != edge_type_name(EdgeType::Scalar));
    assert(edge_type_name(EdgeType::Unevaluated) != edge_type_name(EdgeType::Closure));
    assert(edge_type_name(EdgeType::Unevaluated) != edge_type_name(EdgeType::Generator));
    assert(edge_type_name(EdgeType::Unevaluated) != edge_type_name(EdgeType::FnDef));
    assert(edge_type_name(EdgeType::Scalar) != edge_type_name(EdgeType::Closure));
    assert(edge_type_name(EdgeType::Scalar) != edge_type_name(EdgeType::Generator));
    assert(edge_type_name(EdgeType::Scalar) != edge_type_name(EdgeType::FnDef));
    assert(edge_type_name(EdgeType::Closure) != edge_type_name(EdgeType::Generator));
    assert(edge_type_name(EdgeType::Closure) != edge_type_name(EdgeType::FnDef));
    assert(edge_type_name(EdgeType::Generator) != edge_type_name(EdgeType::FnDef));
}

impl EdgeType {
    /// Parses the name of an edge type (`FromStr`); `Err` for any other text.
    pub fn from_str(input: &str) -> (r: Result<EdgeType, ()>)
        ensures
            match r {
                Ok(t) => edge_type_from_name(input@) == Some(t),
                Err(_) => edge_type_from_name(input@) is None,
            },
    {
        let v = crate::text::chars_of(input);
        Self::from_chars(&v)
    }

    /// Parses the name of an edge type given as characters.
    pub fn from_chars(v: &[char]) -> (r: Result<EdgeType, ()>)
        ensures
            match r {
                Ok(t) => edge_type_from_name(v@) == Some(t),
                Err(_) => edge_type_from_name(v@) is None,
            },
    {
        let all = [
            EdgeType::Call,
            EdgeType::Unevaluated,
            EdgeType::Scalar,
            EdgeType::Closure,
            EdgeType::Generator,
            EdgeType::FnDef,
        ];
        let mut i: usize = 0;
        while i < 6
            invariant
                0 <= i <= 6,
                all@ == seq![EdgeType::Call, EdgeType::Unevaluated, EdgeType::Scalar,
                    EdgeType::Closure, EdgeType::Generator, EdgeType::FnDef],
                forall|j: int| 0 <= j < i ==> v@ != edge_type_name(#[trigger] all@[j]),
            decreases 6 - i,
        {
            let t = all[i];
            let name = crate::text::chars_of(t.name());
            if crate::text::occurs_at_exec(v, &name, 0) && v.len() == name.len() {
                assert(v@ =~= v@.subrange(0, name@.len() as int));
                proof {
                    reveal_with_fuel(edge_type_from_name, 1);
                    lemma_edge_type_name_roundtrip(t);
                }
                return Ok(t);
            }
            proof {
                if v@ == name@ {
                    assert(v@.subrange(0, name@.len() as int) =~= v@);
                }
            }
            i = i + 1;
        }
        assert(v@ != edge_type_name(all@[0]));
        assert(v@ != edge_type_name(all@[1]));
        assert(v@ != edge_type_name(all@[2]));
        assert(v@ != edge_type_name(all@[3]));
        assert(v@ != edge_type_name(all@[4]));
        assert(v@ != edge_type_name(all@[5]));
        Err(())
    }
}


/// A dependency between two nodes with the kinds under which it was observed.
#[derive(Debug)]
pub struct Edge {
    pub start: String,
    pub end: String,
    pub types: Vec<EdgeType>,
}

/// The abstract content of an edge: start, end and its kinds in order.
pub type EdgeSpec = (Seq<char>, Seq<char>, Seq<EdgeType>);

impl Edge {
    pub open spec fn spec_of(&self) -> EdgeSpec {
        (self.start@, self.end@, self.types@)
    }
}

/// A dependency graph over named nodes. Edges are stored by their end node
/// and point backwards, from the dependent node to its dependency.
#[derive(Debug)]
pub struct DependencyGraph {
    nodes: Vec<String>,
    edges: Vec<Edge>,
}

/// The abstract content of a dependency graph: its nodes and, for every
/// pair (start, end) that is connected, the kinds of that edge.
pub struct GraphView {
    pub nodes: Set<Seq<char>>,
    pub edges: Map<(Seq<char>, Seq<char>), Set<EdgeType>>,
}

/// The edges map that a sequence of edges stands for.
pub open spec fn edge_map(es: Seq<EdgeSpec>) -> Map<(Seq<char>, Seq<char>), Set<EdgeType>>
    decreases es.len(),
{
    if es.len() == 0 {
        Map::empty()
    } else {
        edge_map(es.drop_last()).insert((es.last().0, es.last().1), es.last().2.to_set())
    }
}

/// The view after inserting a node.
pub open spec fn view_add_node(v: GraphView, n: Seq<char>) -> GraphView {
    GraphView { nodes: v.nodes.insert(n), edges: v.edges }
}

/// The view after adding an edge of kind `t` from `start` to `end`.
pub open spec fn view_add_edge(v: GraphView, start: Seq<char>, end: Seq<char>, t: EdgeType) -> GraphView {
    let old_types = if v.edges.contains_key((start, end)) { v.edges[(start, end)] } else { Set::empty() };
    GraphView {
        nodes: v.nodes.insert(end).insert(start),
        edges: v.edges.insert((start, end), old_types.insert(t)),
    }
}

/// The empty graph view.
pub open spec fn empty_view() -> GraphView {
    GraphView { nodes: Set::empty(), edges: Map::empty() }
}

/// The pair of end points of an edge.
pub open spec fn edge_key(e: EdgeSpec) -> (Seq<char>, Seq<char>) {
    (e.0, e.1)
}

/// No two edges of a sequence connect the same pair of nodes.
pub open spec fn keys_distinct(es: Seq<EdgeSpec>) -> bool {
    forall|i: int, j: int| 0 <= i < j < es.len() ==>
        edge_key(#[trigger] es[i]) != edge_key(#[trigger] es[j])
}

/// The keys of the edges map are the pairs of the edges.
pub proof fn lemma_edge_map_dom(es: Seq<EdgeSpec>)
    ensures
        forall|k: (Seq<char>, Seq<char>)| #[trigger] edge_map(es).contains_key(k) <==>
            exists|i: int| 0 <= i < es.len() && edge_key(es[i]) == k,
    decreases es.len(),
{
    if es.len() > 0 {
        lemma_edge_map_dom(es.drop_last());
        assert forall|k: (Seq<char>, Seq<char>)| #[trigger] edge_map(es).contains_key(k) implies
            exists|i: int| 0 <= i < es.len() && edge_key(es[i]) == k by {
            if k != edge_key(es.last()) {
                assert(edge_map(es.drop_last()).contains_key(k));
                let i = choose|i: int| 0 <= i < es.drop_last().len() && edge_key(es.drop_last()[i]) == k;
                assert(edge_key(es[i]) == k);
            } else {
                assert(edge_key(es[es.len() - 1]) == k);
            }
        }
        assert forall|k: (Seq<char>, Seq<char>)| (exists|i: int| 0 <= i < es.len() && edge_key(es[i]) == k)
            implies #[trigger] edge_map(es).contains_key(k) by {
            let i = choose|i: int| 0 <= i < es.len() && edge_key(es[i]) == k;
            if i < es.len() - 1 {
                assert(edge_key(es.drop_last()[i]) == k);
                assert(edge_map(es.drop_last()).contains_key(k));
            }
        }
    }
}

/// The kinds stored for the pair of an edge are that edge's kinds.
pub proof fn lemma_edge_map_at(es: Seq<EdgeSpec>, i: int)
    requires
        keys_distinct(es),
        0 <= i < es.len(),
    ensures
        edge_map(es).contains_key(edge_key(es[i])),
        edge_map(es)[edge_key(es[i])] == es[i].2.to_set(),
    decreases es.len(),
{
    if i < es.len() - 1 {
        assert(es.drop_last()[i] == es[i]);
        assert(keys_distinct(es.drop_last()));
        lemma_edge_map_at(es.drop_last(), i);
        assert(edge_key(es[i]) != edge_key(es[es.len() - 1]));
    }
}

/// Changing the kinds of one edge changes the map at its pair only.
pub proof fn lemma_edge_map_update(es: Seq<EdgeSpec>, i: int, ts: Seq<EdgeType>)
    requires
        keys_distinct(es),
        0 <= i < es.len(),
    ensures
        edge_map(es.update(i, (es[i].0, es[i].1, ts)))
            == edge_map(es).insert(edge_key(es[i]), ts.to_set()),
    decreases es.len(),
{
    let es2 = es.update(i, (es[i].0, es[i].1, ts));
    if i == es.len() - 1 {
        assert(es2.drop_last() == es.drop_last());
        assert(edge_map(es2) =~= edge_map(es).insert(edge_key(es[i]), ts.to_set()));
    } else {
        assert(es2.drop_last() == es.drop_last().update(i, (es[i].0, es[i].1, ts)));
        assert(keys_distinct(es.drop_last()));
        lemma_edge_map_update(es.drop_last(), i, ts);
        assert(edge_key(es[i]) != edge_key(es.last()));
        assert(edge_map(es2) =~= edge_map(es).insert(edge_key(es[i]), ts.to_set()));
    }
}

impl DependencyGraph {
    /// The nodes in the order in which they were added.
    pub closed spec fn node_seq(&self) -> Seq<Seq<char>> {
        self.nodes@.map_values(|n: String| n@)
    }

    /// The edges in the order in which they were first added.
    pub closed spec fn edge_seq(&self) -> Seq<EdgeSpec> {
        self.edges@.map_values(|e: Edge| e.spec_of())
    }

    /// Nodes occur once, edges occur once per pair of nodes, the kinds of
    /// an edge occur once and are never empty, and every edge's end points
    /// are nodes.
    pub open spec fn wf(&self) -> bool {
        &&& self.node_seq().no_duplicates()
        &&& keys_distinct(self.edge_seq())
        &&& forall|i: int| 0 <= i < self.edge_seq().len() ==> {
                &&& (#[trigger] self.edge_seq()[i]).2.no_duplicates()
                &&& self.edge_seq()[i].2.len() > 0
                &&& self.node_seq().contains(self.edge_seq()[i].0)
                &&& self.node_seq().contains(self.edge_seq()[i].1)
            }
    }

    pub open spec fn view(&self) -> GraphView {
        GraphView { nodes: self.node_seq().to_set(), edges: edge_map(self.edge_seq()) }
    }

    /// An empty graph.
    pub fn new() -> (g: DependencyGraph)
        ensures
            g.wf(),
            g.view() == empty_view(),
            g.node_seq().len() == 0,
            g.edge_seq().len() == 0,
    {
        let g = DependencyGraph { nodes: Vec::new(), edges: Vec::new() };
        assert(g.node_seq() =~= Seq::<Seq<char>>::empty());
        assert(g.edge_seq() =~= Seq::<EdgeSpec>::empty());
        assert(g.view().nodes =~= Set::<Seq<char>>::empty());
        g
    }

    /// The position of a node, if it is in the graph.
    fn position_of(&self, node: &String) -> (r: Option<usize>)
        ensures
            match r {
                Some(i) => i < self.node_seq().len() && self.node_seq()[i as int] == node@,
                None => !self.node_seq().contains(node@),
            },
    {
        let mut i: usize = 0;
        while i < self.nodes.len()
            invariant
                i <= self.nodes.len(),
                self.node_seq().len() == self.nodes.len(),
                forall|j: int| 0 <= j < i ==> self.node_seq()[j] != node@,
            decreases self.nodes.len() - i,
        {
            if self.nodes[i] == *node {
                return Some(i);
            }
            i = i + 1;
        }
        None
    }

    /// Adds a node unless it is already present.
    pub fn add_node(&mut self, node: String)
        requires
            old(self).wf(),
        ensures
            final(self).wf(),
            final(self).view() == view_add_node(old(self).view(), node@),
            final(self).edge_seq() == old(self).edge_seq(),
            old(self).node_seq().contains(node@) ==> final(self).node_seq() == old(self).node_seq(),
            !old(self).node_seq().contains(node@) ==> final(self).node_seq() == old(self).node_seq().push(node@),
    {
        match self.position_of(&node) {
            Some(_) => {
                assert(self.view().nodes =~= self.view().nodes.insert(node@));
            },
            None => {
                let ghost old_nodes = self.node_seq();
                self.nodes.push(node);
                assert(self.node_seq() =~= old_nodes.push(node@));
                proof {
                    crate::seqs::lemma_push_to_set(old_nodes, node@);
                    crate::seqs::lemma_push_no_duplicates(old_nodes, node@);
                    crate::seqs::lemma_push_contains(old_nodes, node@);
                    assert forall|i: int| 0 <= i < self.edge_seq().len() implies
                        self.node_seq().contains(#[trigger] self.edge_seq()[i].0)
                        && self.node_seq().contains(self.edge_seq()[i].1) by {
                        assert(self.edge_seq()[i] == old(self).edge_seq()[i]);
                    }
                }
            },
        }
    }
}


impl DependencyGraph {
    /// The position of the edge from `start` to `end`, if there is one.
    fn edge_position(&self, start: &String, end: &String) -> (r: Option<usize>)
        ensures
            match r {
                Some(i) => i < self.edge_seq().len() && edge_key(self.edge_seq()[i as int]) == (start@, end@),
                None => forall|j: int| 0 <= j < self.edge_seq().len() ==>
                    edge_key(#[trigger] self.edge_seq()[j]) != (start@, end@),
            },
    {
        let mut i: usize = 0;
        while i < self.edges.len()
            invariant
                i <= self.edges.len(),
                self.edge_seq().len() == self.edges.len(),
                forall|j: int| 0 <= j < i ==> edge_key(#[trigger] self.edge_seq()[j]) != (start@, end@),
            decreases self.edges.len() - i,
        {
            if self.edges[i].start == *start && self.edges[i].end == *end {
                return Some(i);
            }
            assert(self.edge_seq()[i as int] == self.edges@[i as int].spec_of());
            i = i + 1;
        }
        None
    }

    /// Adds an edge of kind `edge_type` from `start` to `end`, adding both
    /// nodes first.
    pub fn add_edge(&mut self, start: String, end: String, edge_type: EdgeType)
        requires
            old(self).wf(),
        ensures
            final(self).wf(),
            final(self).view() == view_add_edge(old(self).view(), start@, end@, edge_type),
    {
        let ghost v0 = self.view();
        self.add_node(end.clone());
        self.add_node(start.clone());
        let ghost es = self.edge_seq();
        proof { lemma_edge_map_dom(es); }
        match self.edge_position(&start, &end) {
            Some(i) => {
                proof { lemma_edge_map_at(es, i as int); }
                let mut found = false;
                let mut k: usize = 0;
                while k < self.edges[i].types.len()
                    invariant
                        i < self.edges.len(),
                        k <= self.edges@[i as int].types.len(),
                        found == exists|j: int| 0 <= j < k && self.edges@[i as int].types@[j] == edge_type,
                    decreases self.edges@[i as int].types.len() - k,
                {
                    if self.edges[i].types[k] == edge_type {
                        found = true;
                    }
                    k = k + 1;
                }
                if !found {
                    let ghost ts = self.edges@[i as int].types@;
                    assert(!ts.contains(edge_type));
                    self.edges[i].types.push(edge_type);
                    proof {
                        assert(self.edge_seq() =~= es.update(i as int, (es[i as int].0, es[i as int].1, ts.push(edge_type))));
                        lemma_edge_map_update(es, i as int, ts.push(edge_type));
                        crate::seqs::lemma_push_to_set(ts, edge_type);
                        crate::seqs::lemma_push_no_duplicates(ts, edge_type);
                        assert forall|a: int, b: int| 0 <= a < b < self.edge_seq().len() implies
                            edge_key(#[trigger] self.edge_seq()[a]) != edge_key(#[trigger] self.edge_seq()[b]) by {
                            assert(edge_key(es[a]) != edge_key(es[b]));
                        }
                        assert forall|j: int| 0 <= j < self.edge_seq().len() implies {
                            &&& (#[trigger] self.edge_seq()[j]).2.no_duplicates()
                            &&& self.edge_seq()[j].2.len() > 0
                            &&& self.node_seq().contains(self.edge_seq()[j].0)
                            &&& self.node_seq().contains(self.edge_seq()[j].1)
                        } by {
                            assert(es[j] == old_edge_seq_at(es, j));
                        }
                        assert(self.view().nodes =~= view_add_edge(v0, start@, end@, edge_type).nodes);
                        assert(self.view().edges =~= view_add_edge(v0, start@, end@, edge_type).edges);
                    }
                } else {
                    proof {
                        let ts = self.edges@[i as int].types@;
                        assert(ts.contains(edge_type));
                        assert(ts.to_set().insert(edge_type) =~= ts.to_set());
                        assert(self.view().nodes =~= view_add_edge(v0, start@, end@, edge_type).nodes);
                        assert(self.view().edges =~= view_add_edge(v0, start@, end@, edge_type).edges);
                    }
                }
            },
            None => {
                let ghost old_edges = self.edges@;
                let mut types: Vec<EdgeType> = Vec::new();
                types.push(edge_type);
                let e = Edge { start, end, types };
                let ghost ne = e.spec_of();
                self.edges.push(e);
                proof {
                    assert(self.edge_seq() =~= es.push(ne));
                    assert(self.edge_seq().drop_last() == es);
                    crate::seqs::lemma_push_to_set(Seq::<EdgeType>::empty(), edge_type);
                    assert(Seq::<EdgeType>::empty().to_set() =~= Set::<EdgeType>::empty());
                    assert(ne.2 == Seq::<EdgeType>::empty().push(edge_type));
                    assert(ne.2.to_set() =~= Set::<EdgeType>::empty().insert(edge_type));
                    assert(!edge_map(es).contains_key((ne.0, ne.1)));
                    assert forall|a: int, b: int| 0 <= a < b < self.edge_seq().len() implies
                        edge_key(#[trigger] self.edge_seq()[a]) != edge_key(#[trigger] self.edge_seq()[b]) by {
                        if b < es.len() {
                            assert(edge_key(es[a]) != edge_key(es[b]));
                        }
                    }
                    assert forall|j: int| 0 <= j < self.edge_seq().len() implies {
                        &&& (#[trigger] self.edge_seq()[j]).2.no_duplicates()
                        &&& self.edge_seq()[j].2.len() > 0
                        &&& self.node_seq().contains(self.edge_seq()[j].0)
                        &&& self.node_seq().contains(self.edge_seq()[j].1)
                    } by {
                        if j < es.len() {
                            assert(self.edge_seq()[j] == es[j]);
                        } else {
                            assert(self.node_seq().to_set().contains(ne.0));
                            assert(self.node_seq().to_set().contains(ne.1));
                        }
                    }
                    assert(self.view().nodes =~= view_add_edge(v0, start@, end@, edge_type).nodes);
                    assert(self.view().edges =~= view_add_edge(v0, start@, end@, edge_type).edges);
                }
            },
        }
    }
}

/// `"digraph {\n"`, the first line of a serialized graph.
pub open spec fn text_header() -> Seq<char> { seq!['d', 'i', 'g', 'r', 'a', 'p', 'h', ' ', '{', '\n'] }
/// `"\n//Nodes\n"`.
pub open spec fn text_nodes_marker() -> Seq<char> { seq!['\n', '/', '/', 'N', 'o', 'd', 'e', 's', '\n'] }
/// `"\n//Edges\n"`.
pub open spec fn text_edges_marker() -> Seq<char> { seq!['\n', '/', '/', 'E', 'd', 'g', 'e', 's', '\n'] }
/// `"}\n"`.
pub open spec fn text_footer() -> Seq<char> { seq!['}', '\n'] }
/// `" -> "`.
pub open spec fn text_arrow() -> Seq<char> { seq![' ', '-', '>', ' '] }
/// `" // "`.
pub open spec fn text_comment() -> Seq<char> { seq![' ', '/', '/', ' '] }
/// `", "`.
pub open spec fn text_sep() -> Seq<char> { seq![',', ' '] }

/// A name in double quotes.
pub open spec fn quoted(n: Seq<char>) -> Seq<char> {
    seq!['"'] + n + seq!['"']
}

/// The names of a sequence of edge kinds, separated by `", "`.
pub open spec fn join_types(ts: Seq<EdgeType>) -> Seq<char>
    decreases ts.len(),
{
    if ts.len() == 0 {
        Seq::empty()
    } else if ts.len() == 1 {
        edge_type_name(ts[0])
    } else {
        join_types(ts.drop_last()) + text_sep() + edge_type_name(ts.last())
    }
}

/// The kinds of an edge as written in a serialized graph: `{Call, Closure}`.
pub open spec fn types_text(ts: Seq<EdgeType>) -> Seq<char> {
    seq!['{'] + join_types(ts) + seq!['}']
}

/// The line of a serialized graph that stands for an edge, without its
/// line break: `"start" -> "end" // {Call}`.
pub open spec fn edge_line(e: EdgeSpec) -> Seq<char> {
    quoted(e.0) + text_arrow() + quoted(e.1) + text_comment() + types_text(e.2)
}

/// The lines for the nodes, each followed by a line break.
pub open spec fn nodes_text(ns: Seq<Seq<char>>) -> Seq<char>
    decreases ns.len(),
{
    if ns.len() == 0 {
        Seq::empty()
    } else {
        nodes_text(ns.drop_last()) + quoted(ns.last()) + seq!['\n']
    }
}

/// The lines for the edges, each followed by a line break.
pub open spec fn edges_text(es: Seq<EdgeSpec>) -> Seq<char>
    decreases es.len(),
{
    if es.len() == 0 {
        Seq::empty()
    } else {
        edges_text(es.drop_last()) + edge_line(es.last()) + seq!['\n']
    }
}

/// The serialized form of a graph with the given nodes and edges.
pub open spec fn graph_text(ns: Seq<Seq<char>>, es: Seq<EdgeSpec>) -> Seq<char> {
    text_header() + text_nodes_marker() + nodes_text(ns) + text_edges_marker() + edges_text(es)
        + text_footer()
}

impl DependencyGraph {
    /// Appends the kinds of an edge in the serialized form.
    fn push_types_text(out: &mut Vec<char>, ts: &Vec<EdgeType>)
        ensures
            final(out)@ == old(out)@ + types_text(ts@),
    {
        out.push('{');
        let mut i: usize = 0;
        while i < ts.len()
            invariant
                i <= ts.len(),
                out@ == old(out)@ + seq!['{'] + join_types(ts@.take(i as int)),
            decreases ts.len() - i,
        {
            let ghost before = out@;
            if i > 0 {
                proof { reveal_strlit(", "); }
                crate::text::extend_chars(out, &crate::text::literal(", "));
            }
            crate::text::extend_chars(out, &crate::text::literal(ts[i].name()));
            proof {
                let t = ts@.take(i + 1);
                assert(t.drop_last() == ts@.take(i as int));
                assert(t.last() == ts@[i as int]);
                if i == 0 {
                    assert(t.len() == 1);
                    assert(join_types(ts@.take(0)) == Seq::<char>::empty());
                }
            }
            i = i + 1;
        }
        out.push('}');
        assert(ts@.take(ts.len() as int) == ts@);
    }

    /// Appends a name in double quotes.
    fn push_quoted(out: &mut Vec<char>, n: &String)
        ensures
            final(out)@ == old(out)@ + quoted(n@),
    {
        out.push('"');
        crate::text::extend_chars(out, &crate::text::chars_of(n.as_str()));
        out.push('"');
    }

    /// The serialized form of the graph (`ToString`): a header, a line per
    /// node, a line per edge and a closing brace.
    pub fn to_string(&self) -> (s: String)
        ensures
            s@ == graph_text(self.node_seq(), self.edge_seq()),
    {
        proof {
            reveal_strlit("digraph {\n");
            reveal_strlit("\n//Nodes\n");
            reveal_strlit("\n//Edges\n");
            reveal_strlit("}\n");
            reveal_strlit(" -> ");
            reveal_strlit(" // ");
        }
        let mut out: Vec<char> = Vec::new();
        crate::text::extend_chars(&mut out, &crate::text::literal("digraph {\n"));
        crate::text::extend_chars(&mut out, &crate::text::literal("\n//Nodes\n"));
        let mut i: usize = 0;
        while i < self.nodes.len()
            invariant
                i <= self.nodes.len(),
                self.node_seq().len() == self.nodes.len(),
                out@ == text_header() + text_nodes_marker() + nodes_text(self.node_seq().take(i as int)),
            decreases self.nodes.len() - i,
        {
            Self::push_quoted(&mut out, &self.nodes[i]);
            out.push('\n');
            proof {
                let t = self.node_seq().take(i + 1);
                assert(t.drop_last() == self.node_seq().take(i as int));
                assert(t.last() == self.nodes@[i as int]@);
            }
            i = i + 1;
        }
        assert(self.node_seq().take(self.nodes.len() as int) == self.node_seq());
        crate::text::extend_chars(&mut out, &crate::text::literal("\n//Edges\n"));
        let mut j: usize = 0;
        while j < self.edges.len()
            invariant
                j <= self.edges.len(),
                self.edge_seq().len() == self.edges.len(),
                out@ == text_header() + text_nodes_marker() + nodes_text(self.node_seq())
                    + text_edges_marker() + edges_text(self.edge_seq().take(j as int)),
            decreases self.edges.len() - j,
        {
            let e = &self.edges[j];
            let ghost before = out@;
            proof {
                reveal_strlit(" -> ");
                reveal_strlit(" // ");
            }
            Self::push_quoted(&mut out, &e.start);
            crate::text::extend_chars(&mut out, &crate::text::literal(" -> "));
            Self::push_quoted(&mut out, &e.end);
            crate::text::extend_chars(&mut out, &crate::text::literal(" // "));
            Self::push_types_text(&mut out, &e.types);
            out.push('\n');
            proof {
                let t = self.edge_seq().take(j + 1);
                assert(t.drop_last() == self.edge_seq().take(j as int));
                assert(t.last() == e.spec_of());
                assert(out@ =~= before + (edge_line(e.spec_of()) + seq!['\n']));
                assert(edges_text(t) =~= edges_text(t.drop_last()) + (edge_line(t.last()) + seq!['\n']));
            }
            j = j + 1;
        }
        assert(self.edge_seq().take(self.edges.len() as int) == self.edge_seq());
        crate::text::extend_chars(&mut out, &crate::text::literal("}\n"));
        crate::text::string_of(&out)
    }
}

/// `"digraph {"`.
pub open spec fn text_open() -> Seq<char> { seq!['d', 'i', 'g', 'r', 'a', 'p', 'h', ' ', '{'] }
/// `"->"`.
pub open spec fn text_arrow_bare() -> Seq<char> { seq!['-', '>'] }
/// `"-> "`.
pub open spec fn text_arrow_split() -> Seq<char> { seq!['-', '>', ' '] }
/// `"//"`.
pub open spec fn text_slashes() -> Seq<char> { seq!['/', '/'] }
/// `" {"`.
pub open spec fn text_types_open() -> Seq<char> { seq![' ', '{'] }
/// `"\" "`.
pub open spec fn text_quote_space() -> Seq<char> { seq!['"', ' '] }

/// The body between `digraph {` and the last `}` of the trimmed text.
pub open spec fn graph_content(s: Seq<char>) -> Option<Seq<char>> {
    match strip_prefix(trim(s), text_open()) {
        Some(r) => strip_suffix(r, seq!['}']),
        None => None,
    }
}

/// A line that is read as an edge: it contains `->` and, after leading
/// white space, does not start with a backslash.
pub open spec fn is_edge_line(l: Seq<char>) -> bool {
    !starts_with(trim_start(l), seq!['\\']) && contains(l, text_arrow_bare())
}

/// The kind names listed in the comment part of an edge line, when that
/// part has the form ` {...}`.
pub open spec fn listed_types(c: Seq<char>) -> Option<Seq<Seq<char>>> {
    match strip_prefix(c, text_types_open()) {
        Some(r) => match strip_suffix(r, seq!['}']) {
            Some(inner) => Some(split_by(inner, text_sep())),
            None => None,
        },
        None => None,
    }
}

/// A name written as `"name" `.
pub open spec fn unquote(x: Seq<char>) -> Option<Seq<char>> {
    match strip_prefix(x, seq!['"']) {
        Some(r) => strip_suffix(r, text_quote_space()),
        None => None,
    }
}

/// An edge line that is read without failing: it has a `//` part, and
/// when that part lists kinds, the part before it has an arrow `-> `, both
/// names are quoted and every listed kind is known.
pub open spec fn edge_line_readable(l: Seq<char>) -> bool {
    match split_once(l, text_slashes()) {
        None => false,
        Some((e, c)) => match listed_types(c) {
            None => true,
            Some(names) => match split_once(e, text_arrow_split()) {
                None => false,
                Some((a, b)) => {
                    &&& unquote(a) is Some
                    &&& unquote(b) is Some
                    &&& forall|i: int| 0 <= i < names.len() ==> (#[trigger] edge_type_from_name(names[i])) is Some
                },
            },
        },
    }
}

/// One edge to add: start, end and kind.
pub type EdgeCall = (Seq<char>, Seq<char>, EdgeType);

/// The edges that a readable edge line adds, one per listed kind.
pub open spec fn line_edges(l: Seq<char>) -> Seq<EdgeCall> {
    match split_once(l, text_slashes()) {
        Some((e, c)) => match listed_types(c) {
            Some(names) => match split_once(e, text_arrow_split()) {
                Some((a, b)) => names.map_values(|n: Seq<char>|
                    (unquote(a).unwrap(), unquote(b).unwrap(), edge_type_from_name(n).unwrap())),
                None => Seq::empty(),
            },
            None => Seq::empty(),
        },
        None => Seq::empty(),
    }
}

/// The edges that a sequence of lines adds, in order.
pub open spec fn lines_edges(ls: Seq<Seq<char>>) -> Seq<EdgeCall>
    decreases ls.len(),
{
    if ls.len() == 0 {
        Seq::empty()
    } else if is_edge_line(ls.last()) {
        lines_edges(ls.drop_last()) + line_edges(ls.last())
    } else {
        lines_edges(ls.drop_last())
    }
}

/// A serialized graph that can be read without failing.
pub open spec fn graph_text_readable(s: Seq<char>) -> bool {
    match graph_content(s) {
        None => true,
        Some(c) => forall|i: int| 0 <= i < split_by(c, seq!['\n']).len()
            && is_edge_line(#[trigger] split_by(c, seq!['\n'])[i])
            ==> edge_line_readable(split_by(c, seq!['\n'])[i]),
    }
}

/// The edges that a readable serialized graph adds, in order.
pub open spec fn text_edges(s: Seq<char>) -> Seq<EdgeCall> {
    match graph_content(s) {
        Some(c) => lines_edges(split_by(c, seq!['\n'])),
        None => Seq::empty(),
    }
}

/// The view after adding the given edges in order.
pub open spec fn replay(v: GraphView, cs: Seq<EdgeCall>) -> GraphView
    decreases cs.len(),
{
    if cs.len() == 0 {
        v
    } else {
        let c = cs.last();
        view_add_edge(replay(v, cs.drop_last()), c.0, c.1, c.2)
    }
}

/// Adding two runs of edges is adding their concatenation.
pub proof fn lemma_replay_append(v: GraphView, a: Seq<EdgeCall>, b: Seq<EdgeCall>)
    ensures
        replay(v, a + b) == replay(replay(v, a), b),
    decreases b.len(),
{
    if b.len() == 0 {
        assert(a + b == a);
    } else {
        assert((a + b).drop_last() == a + b.drop_last());
        lemma_replay_append(v, a, b.drop_last());
    }
}

impl DependencyGraph {
    /// Reads one edge line into the graph.
    fn read_edge_line(&mut self, l: &Vec<char>)
        requires
            old(self).wf(),
            edge_line_readable(l@),
        ensures
            final(self).wf(),
            final(self).view() == replay(old(self).view(), line_edges(l@)),
    {
        proof {
            reveal_strlit("//");
            reveal_strlit(" {");
            reveal_strlit(", ");
            reveal_strlit("-> ");
            reveal_strlit("\" ");
            reveal_strlit("\"");
            reveal_strlit("}");
        }
        let slashes = crate::text::literal("//");
        assert(slashes@ == text_slashes());
        let (edge_str, types_str) = match crate::text::split_once_exec(l, &slashes) {
            Some(p) => p,
            None => { return; },
        };
        let types_open = crate::text::literal(" {");
        assert(types_open@ == text_types_open());
        let close = crate::text::literal("}");
        assert(close@ == seq!['}']);
        let sep = crate::text::literal(", ");
        assert(sep@ == text_sep());
        let arrow = crate::text::literal("-> ");
        assert(arrow@ == text_arrow_split());
        let quote = crate::text::literal("\"");
        assert(quote@ == seq!['"']);
        let quote_space = crate::text::literal("\" ");
        assert(quote_space@ == text_quote_space());
        let r = match crate::text::strip_prefix_exec(&types_str, &types_open) {
            Some(r) => r,
            None => {
                assert(line_edges(l@) == Seq::<EdgeCall>::empty());
                return;
            },
        };
        let inner = match crate::text::strip_suffix_exec(&r, &close) {
            Some(inner) => inner,
            None => {
                assert(line_edges(l@) == Seq::<EdgeCall>::empty());
                return;
            },
        };
        let names = crate::text::split_by_exec(&inner, &sep);
        let (start_str, end_str) = match crate::text::split_once_exec(&edge_str, &arrow) {
            Some(p) => p,
            None => { return; },
        };
        let start_r = crate::text::strip_prefix_exec(&start_str, &quote).unwrap();
        let start = crate::text::strip_suffix_exec(&start_r, &quote_space).unwrap();
        let end_r = crate::text::strip_prefix_exec(&end_str, &quote).unwrap();
        let end = crate::text::strip_suffix_exec(&end_r, &quote_space).unwrap();
        let ghost calls = line_edges(l@);
        let ghost v0 = self.view();
        let ghost name_seq = names@.map_values(|v: Vec<char>| v@);
        assert(calls.len() == name_seq.len());
        let mut k: usize = 0;
        while k < names.len()
            invariant
                k <= names.len(),
                self.wf(),
                calls.len() == names@.len(),
                name_seq == names@.map_values(|v: Vec<char>| v@),
                forall|i: int| 0 <= i < names@.len() ==> (#[trigger] edge_type_from_name(name_seq[i])) is Some,
                forall|i: int| 0 <= i < names@.len() ==> #[trigger] calls[i]
                    == (start@, end@, edge_type_from_name(name_seq[i]).unwrap()),
                self.view() == replay(v0, calls.take(k as int)),
            decreases names.len() - k,
        {
            let t = match EdgeType::from_chars(&names[k]) {
                Ok(t) => t,
                Err(_) => {
                    assert(edge_type_from_name(name_seq[k as int]) is Some);
                    return;
                },
            };
            let ghost before = self.view();
            self.add_edge(crate::text::string_of(&start), crate::text::string_of(&end), t);
            proof {
                assert(calls.take(k + 1).drop_last() == calls.take(k as int));
                assert(calls.take(k + 1).last() == calls[k as int]);
            }
            k = k + 1;
        }
        assert(calls.take(names.len() as int) == calls);
    }

    /// Parses a serialized graph (`FromStr`). Only edge lines are read: a
    /// node without edges is not restored. `Err` when the trimmed text does
    /// not start with `digraph {` and end with `}`.
    pub fn from_str(s: &str) -> (r: Result<DependencyGraph, ()>)
        requires
            graph_text_readable(s@),
        ensures
            match r {
                Ok(g) => graph_content(s@) is Some && g.wf() && g.view() == replay(empty_view(), text_edges(s@)),
                Err(_) => graph_content(s@) is None,
            },
    {
        proof {
            reveal_strlit("digraph {");
            reveal_strlit("}");
            reveal_strlit("\n");
        }
        let v = crate::text::chars_of(s);
        let t = crate::text::trim_exec(&v);
        let open = crate::text::literal("digraph {");
        assert(open@ == text_open());
        let close = crate::text::literal("}");
        assert(close@ == seq!['}']);
        let newline = crate::text::literal("\n");
        assert(newline@ == seq!['\n']);
        let rest = match crate::text::strip_prefix_exec(&t, &open) {
            Some(rest) => rest,
            None => { return Err(()); },
        };
        let content = match crate::text::strip_suffix_exec(&rest, &close) {
            Some(c) => c,
            None => { return Err(()); },
        };
        let lines = crate::text::split_by_exec(&content, &newline);
        let ghost line_seq = lines@.map_values(|x: Vec<char>| x@);
        assert(graph_content(s@) == Some(content@));
        assert forall|j: int| 0 <= j < line_seq.len() && is_edge_line(#[trigger] line_seq[j])
            implies edge_line_readable(line_seq[j]) by {
            let c = graph_content(s@).unwrap();
            assert(c == content@);
            assert(split_by(c, seq!['\n'])[j] == line_seq[j]);
        }
        let mut g = DependencyGraph::new();
        let mut i: usize = 0;
        while i < lines.len()
            invariant
                i <= lines.len(),
                g.wf(),
                line_seq == lines@.map_values(|x: Vec<char>| x@),
                line_seq == split_by(content@, seq!['\n']),
                graph_content(s@) == Some(content@),
                forall|j: int| 0 <= j < line_seq.len() && is_edge_line(#[trigger] line_seq[j])
                    ==> edge_line_readable(line_seq[j]),
                g.view() == replay(empty_view(), lines_edges(line_seq.take(i as int))),
            decreases lines.len() - i,
        {
            proof {
                reveal_strlit("->");
                reveal_strlit("\\");
            }
            let ghost before = lines_edges(line_seq.take(i as int));
            let l = &lines[i];
            let backslash = crate::text::literal("\\");
            assert(backslash@ == seq!['\\']);
            let arrow = crate::text::literal("->");
            assert(arrow@ == text_arrow_bare());
            let no_backslash = !crate::text::starts_with_exec(&crate::text::trim_start_exec(l), &backslash);
            if no_backslash && crate::text::contains_exec(l, &arrow) {
                assert(line_seq[i as int] == l@);
                assert(is_edge_line(line_seq[i as int]));
                g.read_edge_line(l);
                proof {
                    lemma_replay_append(empty_view(), before, line_edges(l@));
                }
            }
            proof {
                let t = line_seq.take(i + 1);
                assert(t.drop_last() == line_seq.take(i as int));
                assert(t.last() == l@);
            }
            i = i + 1;
        }
        assert(line_seq.take(lines.len() as int) == line_seq);
        Ok(g)
    }
}

/// Whether an edge line is read without failing.
fn edge_line_readable_exec(l: &Vec<char>) -> (b: bool)
    ensures
        b == edge_line_readable(l@),
{
    proof {
        reveal_strlit("//");
        reveal_strlit(" {");
        reveal_strlit(", ");
        reveal_strlit("-> ");
        reveal_strlit("\" ");
        reveal_strlit("\"");
        reveal_strlit("}");
    }
    let slashes = crate::text::literal("//");
    assert(slashes@ == text_slashes());
    let (edge_str, types_str) = match crate::text::split_once_exec(l, &slashes) {
        Some(p) => p,
        None => { return false; },
    };
    let types_open = crate::text::literal(" {");
    assert(types_open@ == text_types_open());
    let close = crate::text::literal("}");
    assert(close@ == seq!['}']);
    let sep = crate::text::literal(", ");
    assert(sep@ == text_sep());
    let arrow = crate::text::literal("-> ");
    assert(arrow@ == text_arrow_split());
    let quote = crate::text::literal("\"");
    assert(quote@ == seq!['"']);
    let quote_space = crate::text::literal("\" ");
    assert(quote_space@ == text_quote_space());
    let r = match crate::text::strip_prefix_exec(&types_str, &types_open) {
        Some(r) => r,
        None => { return true; },
    };
    let inner = match crate::text::strip_suffix_exec(&r, &close) {
        Some(inner) => inner,
        None => { return true; },
    };
    let names = crate::text::split_by_exec(&inner, &sep);
    let (start_str, end_str) = match crate::text::split_once_exec(&edge_str, &arrow) {
        Some(p) => p,
        None => { return false; },
    };
    let start_ok = match crate::text::strip_prefix_exec(&start_str, &quote) {
        Some(x) => crate::text::strip_suffix_exec(&x, &quote_space).is_some(),
        None => false,
    };
    let end_ok = match crate::text::strip_prefix_exec(&end_str, &quote) {
        Some(x) => crate::text::strip_suffix_exec(&x, &quote_space).is_some(),
        None => false,
    };
    if !start_ok || !end_ok {
        return false;
    }
    let ghost name_seq = names@.map_values(|v: Vec<char>| v@);
    assert(listed_types(types_str@) == Some(name_seq));
    assert(edge_line_readable(l@) == forall|i: int| 0 <= i < name_seq.len() ==> (#[trigger] edge_type_from_name(name_seq[i])) is Some);
    let mut k: usize = 0;
    while k < names.len()
        invariant
            k <= names@.len(),
            name_seq == names@.map_values(|v: Vec<char>| v@),
            edge_line_readable(l@) == forall|i: int| 0 <= i < name_seq.len() ==> (#[trigger] edge_type_from_name(name_seq[i])) is Some,
            forall|i: int| 0 <= i < k ==> (#[trigger] edge_type_from_name(name_seq[i])) is Some,
        decreases names@.len() - k,
    {
        assert(name_seq[k as int] == names@[k as int]@);
        if EdgeType::from_chars(&names[k]).is_err() {
            assert(!((edge_type_from_name(name_seq[k as int])) is Some));
            return false;
        }
        k = k + 1;
    }
    true
}

impl DependencyGraph {
    /// Whether `s` is read as a graph without failing.
    pub fn is_readable(s: &str) -> (b: bool)
        ensures
            b == graph_text_readable(s@),
    {
        proof {
            reveal_strlit("digraph {");
            reveal_strlit("}");
            reveal_strlit("\n");
            reveal_strlit("->");
            reveal_strlit("\\");
        }
        let v = crate::text::chars_of(s);
        let t = crate::text::trim_exec(&v);
        let open = crate::text::literal("digraph {");
        assert(open@ == text_open());
        let close = crate::text::literal("}");
        assert(close@ == seq!['}']);
        let newline = crate::text::literal("\n");
        assert(newline@ == seq!['\n']);
        let rest = match crate::text::strip_prefix_exec(&t, &open) {
            Some(rest) => rest,
            None => { return true; },
        };
        let content = match crate::text::strip_suffix_exec(&rest, &close) {
            Some(c) => c,
            None => { return true; },
        };
        assert(graph_content(s@) == Some(content@));
        let lines = crate::text::split_by_exec(&content, &newline);
        let ghost line_seq = lines@.map_values(|x: Vec<char>| x@);
        let backslash = crate::text::literal("\\");
        assert(backslash@ == seq!['\\']);
        let arrow = crate::text::literal("->");
        assert(arrow@ == text_arrow_bare());
        let mut i: usize = 0;
        while i < lines.len()
            invariant
                i <= lines@.len(),
                line_seq == lines@.map_values(|x: Vec<char>| x@),
                line_seq == split_by(content@, seq!['\n']),
                backslash@ == seq!['\\'],
                arrow@ == text_arrow_bare(),
                graph_content(s@) == Some(content@),
                forall|j: int| 0 <= j < i && is_edge_line(#[trigger] line_seq[j]) ==> edge_line_readable(line_seq[j]),
            decreases lines@.len() - i,
        {
            let l = &lines[i];
            assert(line_seq[i as int] == l@);
            let no_backslash = !crate::text::starts_with_exec(&crate::text::trim_start_exec(l), &backslash);
            if no_backslash && crate::text::contains_exec(l, &arrow) {
                if !edge_line_readable_exec(l) {
                    assert(!graph_text_readable(s@)) by {
                        let c = graph_content(s@).unwrap();
                        assert(c == content@);
                        assert(split_by(c, seq!['\n'])[i as int] == line_seq[i as int]);
                        assert(is_edge_line(split_by(c, seq!['\n'])[i as int]));
                        assert(!edge_line_readable(split_by(c, seq!['\n'])[i as int]));
                    }
                    return false;
                }
            }
            i = i + 1;
        }
        true
    }
}

/// The nodes with an edge to a node of `s`: those that depend on `s`.
pub open spec fn dependents(v: GraphView, s: Set<Seq<char>>) -> Set<Seq<char>> {
    Set::new(|a: Seq<char>| exists|b: Seq<char>| s.contains(b) && v.edges.contains_key((a, b)))
}

/// The nodes reached from `starts` by following at most `k` edges backwards.
pub open spec fn reach_within(v: GraphView, starts: Set<Seq<char>>, k: nat) -> Set<Seq<char>>
    decreases k,
{
    if k == 0 {
        starts
    } else {
        let r = reach_within(v, starts, (k - 1) as nat);
        r + dependents(v, r)
    }
}

/// The nodes reached from `starts` by following edges backwards.
pub open spec fn reachable(v: GraphView, starts: Set<Seq<char>>) -> Set<Seq<char>> {
    Set::new(|n: Seq<char>| exists|k: nat| #[trigger] reach_within(v, starts, k).contains(n))
}

/// Every node with an edge into `r` is in `r`.
pub open spec fn closed_backwards(v: GraphView, r: Set<Seq<char>>) -> bool {
    forall|a: Seq<char>, b: Seq<char>| r.contains(b) && #[trigger] v.edges.contains_key((a, b)) ==> r.contains(a)
}

/// Reaching within more steps reaches at least as much.
pub proof fn lemma_reach_within_grows(v: GraphView, starts: Set<Seq<char>>, j: nat, k: nat)
    requires
        j <= k,
    ensures
        reach_within(v, starts, j).subset_of(reach_within(v, starts, k)),
    decreases k,
{
    if j < k {
        lemma_reach_within_grows(v, starts, j, (k - 1) as nat);
    }
}

/// The reachable nodes hold the starting nodes and every node with an edge
/// into them.
pub proof fn lemma_reachable_closed(v: GraphView, starts: Set<Seq<char>>)
    ensures
        starts.subset_of(reachable(v, starts)),
        closed_backwards(v, reachable(v, starts)),
{
    assert forall|n: Seq<char>| starts.contains(n) implies reachable(v, starts).contains(n) by {
        assert(reach_within(v, starts, 0).contains(n));
    }
    assert forall|a: Seq<char>, b: Seq<char>| reachable(v, starts).contains(b) && #[trigger] v.edges.contains_key((a, b))
        implies reachable(v, starts).contains(a) by {
        let k = choose|k: nat| #[trigger] reach_within(v, starts, k).contains(b);
        assert(dependents(v, reach_within(v, starts, k)).contains(a));
        assert(reach_within(v, starts, k + 1).contains(a));
    }
}

/// The reachable nodes lie in every set that holds the starting nodes and
/// every node with an edge into it.
pub proof fn lemma_reachable_least(v: GraphView, starts: Set<Seq<char>>, r: Set<Seq<char>>)
    requires
        starts.subset_of(r),
        closed_backwards(v, r),
    ensures
        reachable(v, starts).subset_of(r),
{
    assert forall|n: Seq<char>| reachable(v, starts).contains(n) implies r.contains(n) by {
        let k = choose|k: nat| #[trigger] reach_within(v, starts, k).contains(n);
        lemma_reach_within_in(v, starts, r, k);
    }
}

proof fn lemma_reach_within_in(v: GraphView, starts: Set<Seq<char>>, r: Set<Seq<char>>, k: nat)
    requires
        starts.subset_of(r),
        closed_backwards(v, r),
    ensures
        reach_within(v, starts, k).subset_of(r),
    decreases k,
{
    if k > 0 {
        lemma_reach_within_in(v, starts, r, (k - 1) as nat);
        let prev = reach_within(v, starts, (k - 1) as nat);
        assert forall|a: Seq<char>| dependents(v, prev).contains(a) implies r.contains(a) by {
            let b = choose|b: Seq<char>| prev.contains(b) && v.edges.contains_key((a, b));
        }
    }
}

/// One of the first `i` edges goes from `a` to `node`.
spec fn edge_into_among(es: Seq<EdgeSpec>, node: Seq<char>, i: int, a: Seq<char>) -> bool {
    exists|j: int| 0 <= j < i && es[j].1 == node && es[j].0 == a
}

impl DependencyGraph {
    /// The nodes with an edge to `node`, each once, added to `found`.
    fn add_dependents(&self, node: &String, found: &mut Vec<String>, Ghost(reached): Ghost<Set<Seq<char>>>)
        requires
            self.wf(),
            old(found)@.map_values(|s: String| s@).no_duplicates(),
            old(found)@.map_values(|s: String| s@).to_set().subset_of(reached),
            reached.contains(node@),
        ensures
            final(found)@.map_values(|s: String| s@).no_duplicates(),
            final(found)@.map_values(|s: String| s@).to_set() == old(found)@.map_values(|s: String| s@).to_set()
                + dependents(self.view(), set![node@]),
            final(found)@.map_values(|s: String| s@).to_set().subset_of(reached + dependents(self.view(), reached)),
            old(found)@.map_values(|s: String| s@).is_prefix_of(final(found)@.map_values(|s: String| s@)),
    {
        proof { lemma_edge_map_dom(self.edge_seq()); }
        let ghost start = found@.map_values(|s: String| s@);
        let ghost es = self.edge_seq();
        let mut i: usize = 0;
        while i < self.edges.len()
            invariant
                self.wf(),
                es == self.edge_seq(),
                i <= self.edges@.len() == es.len(),
                reached.contains(node@),
                start.to_set().subset_of(reached),
                found@.map_values(|s: String| s@).no_duplicates(),
                found@.map_values(|s: String| s@).to_set() == start.to_set() + Set::new(
                    |a: Seq<char>| edge_into_among(es, node@, i as int, a),
                ),
                start.is_prefix_of(found@.map_values(|s: String| s@)),
                forall|k: (Seq<char>, Seq<char>)| #[trigger] edge_map(es).contains_key(k) <==>
                    exists|j: int| 0 <= j < es.len() && edge_key(es[j]) == k,
            decreases self.edges@.len() - i,
        {
            assert(es[i as int] == self.edges@[i as int].spec_of());
            let ghost before = found@.map_values(|s: String| s@);
            if self.edges[i].end == *node {
                let a = &self.edges[i].start;
                let mut present = false;
                let mut j: usize = 0;
                while j < found.len()
                    invariant
                        j <= found@.len(),
                        before == found@.map_values(|s: String| s@),
                        present == exists|m: int| 0 <= m < j && before[m] == a@,
                    decreases found@.len() - j,
                {
                    assert(before[j as int] == found@[j as int]@);
                    if found[j] == *a {
                        present = true;
                    }
                    assert(present == exists|m: int| 0 <= m < j + 1 && before[m] == a@) by {
                        if exists|m: int| 0 <= m < j + 1 && before[m] == a@ {
                            let m = choose|m: int| 0 <= m < j + 1 && before[m] == a@;
                            if m < j {
                                assert(exists|m: int| 0 <= m < j && before[m] == a@);
                            }
                        }
                    }
                    j = j + 1;
                }
                if !present {
                    found.push(a.clone());
                    proof {
                        assert(found@.map_values(|s: String| s@) =~= before.push(a@));
                        assert(!before.contains(a@));
                        crate::seqs::lemma_push_no_duplicates(before, a@);
                        crate::seqs::lemma_push_to_set(before, a@);
                        assert(start.is_prefix_of(before.push(a@))) by {
                            assert forall|m: int| 0 <= m < start.len() implies start[m] == before.push(a@)[m] by {
                                assert(start[m] == before[m]);
                            }
                        }
                    }
                } else {
                    assert(before.contains(a@));
                }
            }
            assert(found@.map_values(|s: String| s@).to_set() =~= start.to_set() + Set::new(
                |x: Seq<char>| edge_into_among(es, node@, i + 1, x),
            )) by {
                assert forall|x: Seq<char>| #[trigger] edge_into_among(es, node@, i + 1, x)
                    == (edge_into_among(es, node@, i as int, x) || (es[i as int].1 == node@ && es[i as int].0 == x)) by {
                    if edge_into_among(es, node@, i + 1, x) {
                        let j = choose|j: int| 0 <= j < i + 1 && es[j].1 == node@ && es[j].0 == x;
                        if j < i {
                            assert(edge_into_among(es, node@, i as int, x));
                        }
                    }
                    if es[i as int].1 == node@ && es[i as int].0 == x {
                        assert(0 <= i < i + 1);
                    }
                }
            }
            i = i + 1;
        }
        assert(Set::new(|a: Seq<char>| edge_into_among(es, node@, es.len() as int, a))
            =~= dependents(self.view(), set![node@])) by {
            assert forall|a: Seq<char>| dependents(self.view(), set![node@]).contains(a) implies
                exists|j: int| 0 <= j < es.len() && es[j].1 == node@ && es[j].0 == a by {
                let b = choose|b: Seq<char>| set![node@].contains(b) && self.view().edges.contains_key((a, b));
                assert(edge_map(es).contains_key((a, node@)));
                let j = choose|j: int| 0 <= j < es.len() && edge_key(es[j]) == (a, node@);
            }
            assert forall|a: Seq<char>| (exists|j: int| 0 <= j < es.len() && es[j].1 == node@ && es[j].0 == a)
                implies dependents(self.view(), set![node@]).contains(a) by {
                let j = choose|j: int| 0 <= j < es.len() && es[j].1 == node@ && es[j].0 == a;
                assert(edge_key(es[j]) == (a, node@));
                assert(edge_map(es).contains_key((a, node@)));
                assert(set![node@].contains(node@));
            }
        }
        assert forall|x: Seq<char>| dependents(self.view(), set![node@]).contains(x) implies
            dependents(self.view(), reached).contains(x) by {
            assert(self.view().edges.contains_key((x, node@)));
        }
    }

    /// The nodes reached from `starts` by following edges backwards: the
    /// nodes that depend, directly or not, on one of `starts`; each once.
    pub fn reachable_nodes(&self, starts: &Vec<String>) -> (r: Vec<String>)
        requires
            self.wf(),
        ensures
            r@.map_values(|s: String| s@).no_duplicates(),
            r@.map_values(|s: String| s@).to_set() == reachable(
                self.view(),
                starts@.map_values(|s: String| s@).to_set(),
            ),
    {
        let ghost v = self.view();
        let ghost s0 = starts@.map_values(|s: String| s@).to_set();
        let ghost universe = s0 + v.nodes;
        let mut found: Vec<String> = Vec::new();
        let mut k: usize = 0;
        while k < starts.len()
            invariant
                k <= starts@.len(),
                s0 == starts@.map_values(|s: String| s@).to_set(),
                found@.map_values(|s: String| s@).no_duplicates(),
                found@.map_values(|s: String| s@).to_set() == starts@.map_values(|s: String| s@).take(k as int).to_set(),
            decreases starts@.len() - k,
        {
            let ghost before = found@.map_values(|s: String| s@);
            let ghost names = starts@.map_values(|s: String| s@);
            assert(names.take(k + 1) == names.take(k as int).push(names[k as int]));
            proof { crate::seqs::lemma_push_to_set(names.take(k as int), names[k as int]); }
            let mut present = false;
            let mut j: usize = 0;
            while j < found.len()
                invariant
                    j <= found@.len(),
                    k < starts@.len(),
                    before == found@.map_values(|s: String| s@),
                    present == exists|m: int| 0 <= m < j && before[m] == starts@[k as int]@,
                decreases found@.len() - j,
            {
                assert(before[j as int] == found@[j as int]@);
                if found[j] == starts[k] {
                    present = true;
                }
                assert(present == exists|m: int| 0 <= m < j + 1 && before[m] == starts@[k as int]@) by {
                    if exists|m: int| 0 <= m < j + 1 && before[m] == starts@[k as int]@ {
                        let m = choose|m: int| 0 <= m < j + 1 && before[m] == starts@[k as int]@;
                        if m < j {
                            assert(exists|m: int| 0 <= m < j && before[m] == starts@[k as int]@);
                        }
                    }
                }
                j = j + 1;
            }
            if !present {
                found.push(starts[k].clone());
                proof {
                    assert(found@.map_values(|s: String| s@) =~= before.push(names[k as int]));
                    crate::seqs::lemma_push_no_duplicates(before, names[k as int]);
                    crate::seqs::lemma_push_to_set(before, names[k as int]);
                }
            } else {
                assert(before.contains(names[k as int]));
                assert(before.to_set().insert(names[k as int]) =~= before.to_set());
            }
            k = k + 1;
        }
        assert(starts@.map_values(|s: String| s@).take(starts@.len() as int) == starts@.map_values(|s: String| s@));
        proof {
            lemma_reachable_closed(v, s0);
            lemma_edge_map_dom(self.edge_seq());
            assert forall|a: Seq<char>, b: Seq<char>| universe.contains(b) && #[trigger] v.edges.contains_key((a, b))
                implies universe.contains(a) by {
                let j = choose|j: int| 0 <= j < self.edge_seq().len() && edge_key(self.edge_seq()[j]) == (a, b);
                assert(self.node_seq().contains(self.edge_seq()[j].0));
            }
            lemma_reachable_least(v, s0, universe);
            vstd::seq_lib::seq_to_set_is_finite(self.node_seq());
            vstd::seq_lib::seq_to_set_is_finite(starts@.map_values(|s: String| s@));
        }
        let mut i: usize = 0;
        while i < found.len()
            invariant
                self.wf(),
                v == self.view(),
                universe == s0 + v.nodes,
                universe.finite(),
                i <= found@.len(),
                found@.map_values(|s: String| s@).no_duplicates(),
                s0.subset_of(found@.map_values(|s: String| s@).to_set()),
                found@.map_values(|s: String| s@).to_set().subset_of(reachable(v, s0)),
                reachable(v, s0).subset_of(universe),
                forall|j: int| 0 <= j < i ==> dependents(v, set![#[trigger] crate::text::names_of(found@)[j]])
                    .subset_of(found@.map_values(|s: String| s@).to_set()),
            decreases universe.len() - i,
        {
            let ghost before = found@.map_values(|s: String| s@);
            proof {
                before.unique_seq_to_set();
                vstd::set_lib::lemma_len_subset(before.to_set(), universe);
                assert(before[i as int] == found@[i as int]@);
                assert(before.to_set().contains(before[i as int]));
            }
            let ghost found_before = found@;
            let node = found[i].clone();
            self.add_dependents(&node, &mut found, Ghost(reachable(v, s0)));
            proof {
                let after = found@.map_values(|s: String| s@);
                lemma_reachable_closed(v, s0);
                assert forall|x: Seq<char>| reachable(v, s0).contains(x) || dependents(v, reachable(v, s0)).contains(x)
                    implies reachable(v, s0).contains(x) by {
                    if dependents(v, reachable(v, s0)).contains(x) {
                        let b = choose|b: Seq<char>| reachable(v, s0).contains(b) && v.edges.contains_key((x, b));
                    }
                }
                assert forall|j: int| 0 <= j < i + 1 implies dependents(v, set![#[trigger] crate::text::names_of(found@)[j]]).subset_of(after.to_set()) by {
                    assert(crate::text::names_of(found@)[j] == after[j]);
                    assert(after[j] == before[j]);
                    assert forall|x: Seq<char>| before.to_set().contains(x) implies after.to_set().contains(x) by {
                        let m = choose|m: int| 0 <= m < before.len() && before[m] == x;
                        assert(after[m] == x);
                    }
                    if j < i {
                        assert(crate::text::names_of(found_before)[j] == before[j]);
                    }
                }
            }
            i = i + 1;
        }
        proof {
            let r = found@.map_values(|s: String| s@).to_set();
            assert forall|a: Seq<char>, b: Seq<char>| r.contains(b) && #[trigger] v.edges.contains_key((a, b)) implies r.contains(a) by {
                assert(crate::text::names_of(found@) == found@.map_values(|s: String| s@));
                let j = choose|j: int| 0 <= j < found@.len() && #[trigger] crate::text::names_of(found@)[j] == b;
                assert(set![b].contains(b));
                assert(dependents(v, set![b]).contains(a));
            }
            lemma_reachable_least(v, s0, r);
            assert(r =~= reachable(v, s0));
        }
        found
    }
}

/// `i` is the last edge of `es` between its two nodes.
pub open spec fn last_with_key(es: Seq<EdgeSpec>, i: int) -> bool {
    0 <= i < es.len() && forall|j: int| i < j < es.len() ==> edge_key(es[j]) != edge_key(es[i])
}

/// The kinds stored for a pair are those of the last edge between them.
pub proof fn lemma_edge_map_last(es: Seq<EdgeSpec>, i: int)
    requires
        last_with_key(es, i),
    ensures
        edge_map(es).contains_key(edge_key(es[i])),
        edge_map(es)[edge_key(es[i])] == es[i].2.to_set(),
    decreases es.len(),
{
    if i < es.len() - 1 {
        assert(es.drop_last()[i] == es[i]);
        assert(last_with_key(es.drop_last(), i)) by {
            assert forall|j: int| i < j < es.drop_last().len() implies edge_key(es.drop_last()[j]) != edge_key(es.drop_last()[i]) by {
                assert(es.drop_last()[j] == es[j]);
            }
        }
        lemma_edge_map_last(es.drop_last(), i);
        assert(edge_key(es[es.len() - 1]) != edge_key(es[i]));
    }
}

/// Every pair of the map has a last edge.
pub proof fn lemma_edge_map_has_last(es: Seq<EdgeSpec>, k: (Seq<char>, Seq<char>))
    requires
        edge_map(es).contains_key(k),
    ensures
        exists|i: int| last_with_key(es, i) && edge_key(es[i]) == k,
    decreases es.len(),
{
    if edge_key(es.last()) == k {
        assert(last_with_key(es, es.len() - 1));
    } else {
        lemma_edge_map_has_last(es.drop_last(), k);
        let i = choose|i: int| last_with_key(es.drop_last(), i) && edge_key(es.drop_last()[i]) == k;
        assert(es.drop_last()[i] == es[i]);
        assert(last_with_key(es, i)) by {
            assert forall|j: int| i < j < es.len() implies edge_key(es[j]) != edge_key(es[i]) by {
                if j < es.len() - 1 {
                    assert(es.drop_last()[j] == es[j]);
                }
            }
        }
    }
}

impl DependencyGraph {
    /// Every node of `self` is a node of `other`.
    fn nodes_within(&self, other: &DependencyGraph) -> (b: bool)
        ensures
            b == self.view().nodes.subset_of(other.view().nodes),
    {
        let mut i: usize = 0;
        while i < self.nodes.len()
            invariant
                i <= self.nodes@.len() == self.node_seq().len(),
                forall|j: int| 0 <= j < i ==> other.node_seq().contains(#[trigger] self.node_seq()[j]),
            decreases self.nodes@.len() - i,
        {
            assert(self.node_seq()[i as int] == self.nodes@[i as int]@);
            if other.position_of(&self.nodes[i]).is_none() {
                assert(self.view().nodes.contains(self.node_seq()[i as int]));
                return false;
            }
            i = i + 1;
        }
        assert forall|x: Seq<char>| self.view().nodes.contains(x) implies other.view().nodes.contains(x) by {
            let j = choose|j: int| 0 <= j < self.node_seq().len() && self.node_seq()[j] == x;
        }
        true
    }

    /// Whether edge `i` is the last between its two nodes.
    fn is_last_edge(&self, i: usize) -> (b: bool)
        requires
            i < self.edge_seq().len(),
        ensures
            b == last_with_key(self.edge_seq(), i as int),
    {
        assert(self.edges@.len() == self.edge_seq().len());
        let n = self.edges.len();
        assert(i < n);
        let mut j = i + 1;
        while j < self.edges.len()
            invariant
                i < j <= self.edges@.len() == self.edge_seq().len(),
                forall|m: int| i < m < j ==> edge_key(self.edge_seq()[m]) != edge_key(self.edge_seq()[i as int]),
            decreases self.edges@.len() - j,
        {
            assert(self.edge_seq()[j as int] == self.edges@[j as int].spec_of());
            assert(self.edge_seq()[i as int] == self.edges@[i as int].spec_of());
            if self.edges[j].start == self.edges[i].start && self.edges[j].end == self.edges[i].end {
                return false;
            }
            j = j + 1;
        }
        true
    }

    /// The last edge from `start` to `end`, if any.
    fn last_edge(&self, start: &String, end: &String) -> (r: Option<usize>)
        ensures
            match r {
                Some(i) => last_with_key(self.edge_seq(), i as int) && edge_key(self.edge_seq()[i as int]) == (start@, end@),
                None => !edge_map(self.edge_seq()).contains_key((start@, end@)),
            },
    {
        let mut j = self.edges.len();
        assert(self.edges@.len() == self.edge_seq().len());
        while j > 0
            invariant
                j <= self.edges@.len() == self.edge_seq().len(),
                forall|m: int| j <= m < self.edge_seq().len() ==> edge_key(self.edge_seq()[m]) != (start@, end@),
            decreases j,
        {
            j = j - 1;
            assert(self.edge_seq()[j as int] == self.edges@[j as int].spec_of());
            if self.edges[j].start == *start && self.edges[j].end == *end {
                return Some(j);
            }
        }
        proof {
            if edge_map(self.edge_seq()).contains_key((start@, end@)) {
                lemma_edge_map_has_last(self.edge_seq(), (start@, end@));
            }
        }
        None
    }

    /// Every pair of `self` is a pair of `other` with the same kinds.
    fn edges_within(&self, other: &DependencyGraph) -> (b: bool)
        ensures
            b == forall|k: (Seq<char>, Seq<char>)| #[trigger] edge_map(self.edge_seq()).contains_key(k)
                ==> edge_map(other.edge_seq()).contains_key(k) && edge_map(self.edge_seq())[k] == edge_map(other.edge_seq())[k],
    {
        let ghost es = self.edge_seq();
        let ghost os = other.edge_seq();
        let mut i: usize = 0;
        assert(self.edges@.len() == es.len());
        while i < self.edges.len()
            invariant
                es == self.edge_seq(),
                os == other.edge_seq(),
                i <= self.edges@.len() == es.len(),
                forall|m: int| 0 <= m < i && last_with_key(es, m) ==> edge_map(os).contains_key(edge_key(#[trigger] es[m]))
                    && edge_map(es)[edge_key(es[m])] == edge_map(os)[edge_key(es[m])],
            decreases self.edges@.len() - i,
        {
            assert(es[i as int] == self.edges@[i as int].spec_of());
            if self.is_last_edge(i) {
                proof { lemma_edge_map_last(es, i as int); }
                match other.last_edge(&self.edges[i].start, &self.edges[i].end) {
                    None => {
                        return false;
                    },
                    Some(j) => {
                        proof { lemma_edge_map_last(os, j as int); }
                        assert(os[j as int] == other.edges@[j as int].spec_of());
                        let same = crate::graph::same_type_sets(&self.edges[i].types, &other.edges[j].types);
                        if !same {
                            return false;
                        }
                    },
                }
            }
            i = i + 1;
        }
        assert forall|k: (Seq<char>, Seq<char>)| #[trigger] edge_map(es).contains_key(k)
            implies edge_map(os).contains_key(k) && edge_map(es)[k] == edge_map(os)[k] by {
            lemma_edge_map_has_last(es, k);
            let m = choose|m: int| last_with_key(es, m) && edge_key(es[m]) == k;
        }
        true
    }

    /// Both graphs have the same nodes and the same edges with the same kinds.
    pub fn same_as(&self, other: &DependencyGraph) -> (b: bool)
        ensures
            b == (self.view() == other.view()),
    {
        let a = self.nodes_within(other);
        let b = other.nodes_within(self);
        let c = self.edges_within(other);
        let d = other.edges_within(self);
        proof {
            if a && b && c && d {
                assert(self.view().nodes =~= other.view().nodes);
                assert(self.view().edges =~= other.view().edges);
            }
            if self.view() == other.view() {
                assert(self.view().nodes == other.view().nodes);
                assert(self.view().edges == other.view().edges);
            }
        }
        a && b && c && d
    }
}

/// Whether two lists of kinds hold the same kinds.
fn same_type_sets(a: &Vec<EdgeType>, b: &Vec<EdgeType>) -> (r: bool)
    ensures
        r == (a@.to_set() == b@.to_set()),
{
    let x = type_subset(a, b);
    let y = type_subset(b, a);
    proof {
        if x && y {
            assert(a@.to_set() =~= b@.to_set());
        }
    }
    x && y
}

/// Whether every kind of `a` is in `b`.
fn type_subset(a: &Vec<EdgeType>, b: &Vec<EdgeType>) -> (r: bool)
    ensures
        r == a@.to_set().subset_of(b@.to_set()),
{
    let mut i: usize = 0;
    while i < a.len()
        invariant
            i <= a@.len(),
            forall|m: int| 0 <= m < i ==> b@.contains(#[trigger] a@[m]),
        decreases a@.len() - i,
    {
        let mut found = false;
        let mut j: usize = 0;
        while j < b.len()
            invariant
                j <= b@.len(),
                i < a@.len(),
                found == exists|m: int| 0 <= m < j && b@[m] == a@[i as int],
            decreases b@.len() - j,
        {
            if b[j] == a[i] {
                found = true;
            }
            assert(found == exists|m: int| 0 <= m < j + 1 && b@[m] == a@[i as int]) by {
                if exists|m: int| 0 <= m < j + 1 && b@[m] == a@[i as int] {
                    let m = choose|m: int| 0 <= m < j + 1 && b@[m] == a@[i as int];
                    if m < j {
                        assert(exists|m: int| 0 <= m < j && b@[m] == a@[i as int]);
                    }
                }
            }
            j = j + 1;
        }
        if !found {
            assert(a@.to_set().contains(a@[i as int]));
            return false;
        }
        i = i + 1;
    }
    true
}

impl PartialEq for DependencyGraph {
    fn eq(&self, other: &Self) -> (r: bool) {
        self.same_as(other)
    }
}

impl vstd::std_specs::cmp::PartialEqSpecImpl for DependencyGraph {
    open spec fn obeys_eq_spec() -> bool {
        true
    }

    open spec fn eq_spec(&self, other: &Self) -> bool {
        self.view() == other.view()
    }
}

impl DependencyGraph {
    /// Whether `node` is a node of the graph.
    pub fn contains_node(&self, node: &String) -> (b: bool)
        ensures
            b == self.view().nodes.contains(node@),
    {
        match self.position_of(node) {
            Some(i) => {
                assert(self.node_seq().contains(node@));
                true
            },
            None => false,
        }
    }
}

spec fn old_edge_seq_at(es: Seq<EdgeSpec>, j: int) -> EdgeSpec {
    es[j]
}

} // verus!
