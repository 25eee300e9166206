//! Reading back a serialized dependency graph gives the graph.

use vstd::prelude::*;
use crate::graph::{
    edge_key, edge_line, edge_line_readable, edge_map, edge_type_from_name, edge_type_name,
    edges_text, empty_view, graph_content, graph_text, graph_text_readable, is_edge_line,
    join_types, keys_distinct, line_edges, lines_edges, listed_types, nodes_text, quoted, replay,
    text_arrow, text_arrow_bare, text_arrow_split, text_comment, text_edges, text_edges_marker,
    text_footer, text_header, text_nodes_marker, text_open, text_quote_space, text_sep,
    text_slashes, text_types_open, types_text, unquote, view_add_edge, DependencyGraph, EdgeCall,
    EdgeSpec, EdgeType, GraphView, lemma_edge_type_name_roundtrip,
};
use crate::text::{
    lemma_concat_lines_append, lemma_split_concat_lines, concat_lines, contains, find, lemma_find_first, lemma_find_none, no_newline, occurs_at,
    split_by, split_once, starts_with, strip_prefix, strip_suffix, trim, trim_start,
    is_whitespace, lemma_trim_start_id, lemma_trim_end_id,
};

verus! {

/// A node name that survives serialization: it holds no line break, no
/// `->` and no `//`.
pub open spec fn plain_name(n: Seq<char>) -> bool {
    &&& no_newline(n)
    &&& forall|i: int| 0 <= i < n.len() - 1 ==> !(#[trigger] n[i] == '-' && n[i + 1] == '>')
    &&& forall|i: int| 0 <= i < n.len() - 1 ==> !(#[trigger] n[i] == '/' && n[i + 1] == '/')
}

/// The name of an edge kind is made of ASCII letters.
proof fn lemma_name_letters(t: EdgeType)
    ensures
        edge_type_name(t).len() > 0,
        forall|i: int| 0 <= i < edge_type_name(t).len() ==>
            ('A' <= #[trigger] edge_type_name(t)[i] <= 'Z' || 'a' <= edge_type_name(t)[i] <= 'z'),
{
}

/// `join_types` seen from its first name.
proof fn lemma_join_types_front(ts: Seq<EdgeType>)
    requires
        ts.len() >= 2,
    ensures
        join_types(ts) == edge_type_name(ts[0]) + text_sep() + join_types(ts.drop_first()),
    decreases ts.len(),
{
    if ts.len() == 2 {
        assert(ts.drop_last().len() == 1);
        assert(ts.drop_first().len() == 1);
        assert(ts.drop_first()[0] == ts.last());
        assert(ts.drop_last()[0] == ts[0]);
        assert(join_types(ts.drop_last()) == edge_type_name(ts[0]));
        assert(join_types(ts.drop_first()) == edge_type_name(ts.last()));
    } else {
        lemma_join_types_front(ts.drop_last());
        assert(ts.drop_last().drop_first() == ts.drop_first().drop_last());
        assert(ts.drop_first().last() == ts.last());
        assert(join_types(ts) =~= edge_type_name(ts[0]) + text_sep() + join_types(ts.drop_first()));
    }
}

/// Splitting the joined names of edge kinds gives the names.
proof fn lemma_split_join_types(ts: Seq<EdgeType>)
    requires
        ts.len() > 0,
    ensures
        split_by(join_types(ts), text_sep()) == ts.map_values(|t: EdgeType| edge_type_name(t)),
    decreases ts.len(),
{
    let sep = text_sep();
    let j = join_types(ts);
    lemma_name_letters(ts[0]);
    if ts.len() == 1 {
        assert forall|k: int| 0 <= k implies !occurs_at(j, sep, k) by {
            if occurs_at(j, sep, k) {
                assert(j.subrange(k, k + 2)[0] == j[k]);
            }
        }
        lemma_find_none(j, sep);
        assert(ts.map_values(|t: EdgeType| edge_type_name(t)) =~= seq![j]);
    } else {
        lemma_join_types_front(ts);
        let first = edge_type_name(ts[0]);
        let rest = join_types(ts.drop_first());
        let l = first.len() as int;
        assert(j == first + sep + rest);
        assert(occurs_at(j, sep, l)) by {
            assert(j.subrange(l, l + 2) =~= sep);
        }
        assert forall|k: int| 0 <= k < l implies !occurs_at(j, sep, k) by {
            if occurs_at(j, sep, k) {
                assert(j.subrange(k, k + 2)[0] == j[k]);
                assert(j[k] == first[k]);
            }
        }
        lemma_find_first(j, sep, l);
        assert(j.take(l) =~= first);
        assert(j.skip(l + 2) =~= rest);
        lemma_split_join_types(ts.drop_first());
        assert(ts.map_values(|t: EdgeType| edge_type_name(t)) =~= seq![first]
            + ts.drop_first().map_values(|t: EdgeType| edge_type_name(t)));
    }
}

/// The part of an edge line before its comment: `"a" -> "b"`.
spec fn arrow_part(a: Seq<char>, b: Seq<char>) -> Seq<char> {
    quoted(a) + text_arrow() + quoted(b)
}

/// Where the characters of the names and separators stand in `arrow_part`.
proof fn lemma_arrow_part_chars(a: Seq<char>, b: Seq<char>)
    ensures
        ({
            let x = arrow_part(a, b);
            let la = a.len() as int;
            let lb = b.len() as int;
            &&& x.len() == la + lb + 8
            &&& x[0] == '"'
            &&& (forall|i: int| 0 <= i < la ==> x[i + 1] == a[i])
            &&& x[la + 1] == '"'
            &&& x[la + 2] == ' '
            &&& x[la + 3] == '-'
            &&& x[la + 4] == '>'
            &&& x[la + 5] == ' '
            &&& x[la + 6] == '"'
            &&& (forall|i: int| 0 <= i < lb ==> x[la + 7 + i] == b[i])
            &&& x[la + 7 + lb] == '"'
        }),
{
    let x = arrow_part(a, b);
    assert(x =~= seq!['"'] + a + seq!['"', ' ', '-', '>', ' ', '"'] + b + seq!['"']);
}

/// No `//` in the arrow part of plain names.
proof fn lemma_arrow_part_no_slashes(a: Seq<char>, b: Seq<char>)
    requires
        plain_name(a),
        plain_name(b),
    ensures
        forall|k: int| 0 <= k < arrow_part(a, b).len() - 1 ==>
            !(#[trigger] arrow_part(a, b)[k] == '/' && arrow_part(a, b)[k + 1] == '/'),
        no_newline(arrow_part(a, b)),
{
    lemma_arrow_part_chars(a, b);
    let x = arrow_part(a, b);
    let la = a.len() as int;
    let lb = b.len() as int;
    assert forall|k: int| 0 <= k < x.len() - 1 implies !(#[trigger] x[k] == '/' && x[k + 1] == '/') by {
        if 1 <= k < la {
            assert(x[k] == a[k - 1] && x[k + 1] == a[k]);
        } else if la + 7 <= k < la + 6 + lb {
            assert(x[k] == b[k - la - 7] && x[k + 1] == b[k - la - 6]);
        } else if 1 <= k < la + 1 {
            assert(x[k] == a[k - 1]);
        } else if la + 7 <= k < la + 7 + lb {
            assert(x[k] == b[k - la - 7]);
        }
    }
    assert forall|k: int| 0 <= k < x.len() implies x[k] != '\n' by {
        if 1 <= k < la + 1 {
            assert(x[k] == a[k - 1]);
        } else if la + 7 <= k < la + 7 + lb {
            assert(x[k] == b[k - la - 7]);
        }
    }
}

/// Splitting an edge line at its first `//`.
proof fn lemma_edge_line_split(e: EdgeSpec)
    requires
        plain_name(e.0),
        plain_name(e.1),
    ensures
        split_once(edge_line(e), text_slashes()) == Some((
            arrow_part(e.0, e.1) + seq![' '],
            text_types_open() + join_types(e.2) + seq!['}'],
        )),
{
    let x = arrow_part(e.0, e.1);
    let line = edge_line(e);
    let n = x.len() as int;
    let t = text_types_open() + join_types(e.2) + seq!['}'];
    assert(line =~= x + seq![' ', '/', '/'] + t);
    lemma_arrow_part_no_slashes(e.0, e.1);
    let sl = text_slashes();
    assert(occurs_at(line, sl, n + 1)) by {
        assert(line.subrange(n + 1, n + 3) =~= sl);
    }
    assert forall|k: int| 0 <= k < n + 1 implies !occurs_at(line, sl, k) by {
        if occurs_at(line, sl, k) {
            assert(line.subrange(k, k + 2)[0] == line[k]);
            assert(line.subrange(k, k + 2)[1] == line[k + 1]);
            if k < n - 1 {
                assert(line[k] == x[k] && line[k + 1] == x[k + 1]);
            } else if k == n - 1 {
                assert(line[k] == x[k]);
                lemma_arrow_part_chars(e.0, e.1);
            }
        }
    }
    lemma_find_first(line, sl, n + 1);
    assert(line.take(n + 1) =~= x + seq![' ']);
    assert(line.skip(n + 3) =~= t);
}

/// Splitting the arrow part at its first `-> `.
proof fn lemma_arrow_part_split(a: Seq<char>, b: Seq<char>)
    requires
        plain_name(a),
        plain_name(b),
    ensures
        split_once(arrow_part(a, b) + seq![' '], text_arrow_split()) == Some((
            seq!['"'] + a + text_quote_space(),
            seq!['"'] + b + text_quote_space(),
        )),
{
    let es = arrow_part(a, b) + seq![' '];
    let la = a.len() as int;
    lemma_arrow_part_chars(a, b);
    let ar = text_arrow_split();
    assert(es =~= seq!['"'] + a + seq!['"', ' '] + ar + seq!['"'] + b + seq!['"', ' ']);
    assert(occurs_at(es, ar, la + 3)) by {
        assert(es.subrange(la + 3, la + 6) =~= ar);
    }
    assert forall|k: int| 0 <= k < la + 3 implies !occurs_at(es, ar, k) by {
        if occurs_at(es, ar, k) {
            assert(es.subrange(k, k + 3)[0] == es[k]);
            assert(es.subrange(k, k + 3)[1] == es[k + 1]);
            if 1 <= k < la {
                assert(es[k] == a[k - 1] && es[k + 1] == a[k]);
            } else if k == la {
                assert(es[k + 1] == '"');
            }
        }
    }
    lemma_find_first(es, ar, la + 3);
    assert(es.take(la + 3) =~= seq!['"'] + a + text_quote_space());
    assert(es.skip(la + 6) =~= seq!['"'] + b + text_quote_space());
}

/// The kinds part of an edge line lists the kind names.
proof fn lemma_types_part(ts: Seq<EdgeType>)
    requires
        ts.len() > 0,
    ensures
        listed_types(text_types_open() + join_types(ts) + seq!['}'])
            == Some(ts.map_values(|t: EdgeType| edge_type_name(t))),
{
    let jt = join_types(ts);
    let cs = text_types_open() + jt + seq!['}'];
    assert(cs.take(2) =~= text_types_open());
    assert(cs.skip(2) =~= jt + seq!['}']);
    let r = jt + seq!['}'];
    assert(r.skip(r.len() - 1) =~= seq!['}']);
    assert(r.take(r.len() - 1) =~= jt);
    lemma_split_join_types(ts);
}

/// The line of an edge with plain names is read back as that edge's kinds.
pub proof fn lemma_edge_line_read(e: EdgeSpec)
    requires
        plain_name(e.0),
        plain_name(e.1),
        e.2.len() > 0,
    ensures
        is_edge_line(edge_line(e)),
        edge_line_readable(edge_line(e)),
        line_edges(edge_line(e)) == e.2.map_values(|t: EdgeType| (e.0, e.1, t)),
        no_newline(edge_line(e)),
{
    let a = e.0;
    let b = e.1;
    let ts = e.2;
    let line = edge_line(e);
    lemma_edge_line_split(e);
    lemma_arrow_part_split(a, b);
    lemma_types_part(ts);
    lemma_unquote(a);
    lemma_unquote(b);
    let names = ts.map_values(|t: EdgeType| edge_type_name(t));
    assert forall|i: int| 0 <= i < names.len() implies (#[trigger] edge_type_from_name(names[i])) is Some by {
        lemma_edge_type_name_roundtrip(ts[i]);
    }
    assert(edge_line_readable(line));
    let target = ts.map_values(|t: EdgeType| (a, b, t));
    assert forall|i: int| 0 <= i < ts.len() implies
        #[trigger] line_edges(line)[i] == target[i] by {
        lemma_edge_type_name_roundtrip(ts[i]);
    }
    assert(line_edges(line) =~= target);
    // No line break.
    let x = arrow_part(a, b);
    lemma_arrow_part_no_slashes(a, b);
    lemma_name_letters_all(ts);
    let t = text_types_open() + join_types(ts) + seq!['}'];
    assert(line =~= x + seq![' ', '/', '/'] + t);
    assert forall|i: int| 0 <= i < line.len() implies line[i] != '\n' by {
        if i < x.len() {
            assert(line[i] == x[i]);
        } else if x.len() + 5 <= i < x.len() + 5 + join_types(ts).len() {
            assert(line[i] == join_types(ts)[i - x.len() - 5]);
        }
    }
    // It is an edge line.
    lemma_arrow_part_chars(a, b);
    lemma_trim_start_id(line);
    assert(!starts_with(line, seq!['\\'])) by {
        assert(line.take(1)[0] == line[0]);
    }
    let la = a.len() as int;
    assert(occurs_at(line, text_arrow_bare(), la + 3)) by {
        assert(line.subrange(la + 3, la + 5) =~= text_arrow_bare());
    }
    crate::text::lemma_find_from(line, text_arrow_bare(), 0);
}

/// Every character of the joined kind names is a letter, a comma or a space.
proof fn lemma_name_letters_all(ts: Seq<EdgeType>)
    ensures
        no_newline(join_types(ts)),
    decreases ts.len(),
{
    if ts.len() == 1 {
        lemma_name_letters(ts[0]);
    } else if ts.len() > 1 {
        lemma_name_letters_all(ts.drop_last());
        lemma_name_letters(ts.last());
        let j = join_types(ts);
        let p = join_types(ts.drop_last());
        assert forall|i: int| 0 <= i < j.len() implies j[i] != '\n' by {
            if i < p.len() {
                assert(j[i] == p[i]);
            } else if i >= p.len() + 2 {
                assert(j[i] == edge_type_name(ts.last())[i - p.len() - 2]);
            }
        }
    }
}

/// `"name" ` is read back as the name.
proof fn lemma_unquote(n: Seq<char>)
    ensures
        unquote(seq!['"'] + n + text_quote_space()) == Some(n),
{
    let x = seq!['"'] + n + text_quote_space();
    assert(x.take(1) =~= seq!['"']);
    let r = x.skip(1);
    assert(r =~= n + text_quote_space());
    assert(r.skip(r.len() - 2) =~= text_quote_space());
    assert(r.take(r.len() - 2) =~= n);
}

/// The edges that a sequence of edges adds when read back: for every edge
/// one addition per kind, in order.
pub open spec fn edge_calls(es: Seq<EdgeSpec>) -> Seq<EdgeCall>
    decreases es.len(),
{
    if es.len() == 0 {
        Seq::empty()
    } else {
        let e = es.last();
        edge_calls(es.drop_last()) + e.2.map_values(|t: EdgeType| (e.0, e.1, t))
    }
}

/// The nodes that the edges of a sequence connect.
pub open spec fn endpoints(es: Seq<EdgeSpec>) -> Set<Seq<char>> {
    Set::new(|n: Seq<char>| exists|i: int| 0 <= i < es.len() && (es[i].0 == n || es[i].1 == n))
}

/// `lines_edges` of two runs of lines.
proof fn lemma_lines_edges_append(a: Seq<Seq<char>>, b: Seq<Seq<char>>)
    ensures
        lines_edges(a + b) == lines_edges(a) + lines_edges(b),
    decreases b.len(),
{
    if b.len() == 0 {
        assert(a + b == a);
        assert(lines_edges(a) + lines_edges(b) =~= lines_edges(a));
    } else {
        assert((a + b).drop_last() == a + b.drop_last());
        assert((a + b).last() == b.last());
        lemma_lines_edges_append(a, b.drop_last());
        if is_edge_line(b.last()) {
            assert(lines_edges(a + b) =~= lines_edges(a) + lines_edges(b));
        } else {
            assert(lines_edges(a + b) =~= lines_edges(a) + lines_edges(b));
        }
    }
}

/// Lines that are not edge lines add no edges.
proof fn lemma_lines_edges_none(ls: Seq<Seq<char>>)
    requires
        forall|i: int| 0 <= i < ls.len() ==> !is_edge_line(#[trigger] ls[i]),
    ensures
        lines_edges(ls) == Seq::<EdgeCall>::empty(),
    decreases ls.len(),
{
    if ls.len() > 0 {
        assert(!is_edge_line(ls[ls.len() - 1]));
        lemma_lines_edges_none(ls.drop_last());
    }
}

/// The lines of edges add the edges' kinds.
proof fn lemma_lines_edges_of_edges(es: Seq<EdgeSpec>)
    requires
        forall|i: int| 0 <= i < es.len() ==> plain_name((#[trigger] es[i]).0) && plain_name(es[i].1)
            && es[i].2.len() > 0,
    ensures
        lines_edges(es.map_values(|e: EdgeSpec| edge_line(e))) == edge_calls(es),
    decreases es.len(),
{
    if es.len() > 0 {
        let ls = es.map_values(|e: EdgeSpec| edge_line(e));
        assert(ls.drop_last() == es.drop_last().map_values(|e: EdgeSpec| edge_line(e)));
        assert(ls.last() == edge_line(es.last()));
        assert(plain_name(es[es.len() - 1].0));
        lemma_edge_line_read(es.last());
        lemma_lines_edges_of_edges(es.drop_last());
    }
}

/// A quoted plain name contains no `->`.
proof fn lemma_quoted_not_edge_line(n: Seq<char>)
    requires
        plain_name(n),
    ensures
        !is_edge_line(quoted(n)),
        no_newline(quoted(n)),
{
    let q = quoted(n);
    let la = n.len() as int;
    assert(q =~= seq!['"'] + n + seq!['"']);
    assert forall|k: int| 0 <= k implies !occurs_at(q, text_arrow_bare(), k) by {
        if occurs_at(q, text_arrow_bare(), k) {
            assert(q.subrange(k, k + 2)[0] == q[k]);
            assert(q.subrange(k, k + 2)[1] == q[k + 1]);
            if 1 <= k < la {
                assert(q[k] == n[k - 1] && q[k + 1] == n[k]);
            } else if k == la {
                assert(q[k + 1] == '"');
            }
        }
    }
    lemma_find_none(q, text_arrow_bare());
    assert forall|k: int| 0 <= k < q.len() implies q[k] != '\n' by {
        if 1 <= k < la + 1 {
            assert(q[k] == n[k - 1]);
        }
    }
}

/// A line without a `-` is no edge line.
proof fn lemma_no_dash_not_edge_line(l: Seq<char>)
    requires
        forall|i: int| 0 <= i < l.len() ==> l[i] != '-',
    ensures
        !is_edge_line(l),
{
    assert forall|k: int| 0 <= k implies !occurs_at(l, text_arrow_bare(), k) by {
        if occurs_at(l, text_arrow_bare(), k) {
            assert(l.subrange(k, k + 2)[0] == l[k]);
        }
    }
    lemma_find_none(l, text_arrow_bare());
}

/// `nodes_text` is the quoted names as lines.
proof fn lemma_nodes_text_lines(ns: Seq<Seq<char>>)
    ensures
        nodes_text(ns) == concat_lines(ns.map_values(|n: Seq<char>| quoted(n))),
    decreases ns.len(),
{
    if ns.len() > 0 {
        lemma_nodes_text_lines(ns.drop_last());
        assert(ns.map_values(|n: Seq<char>| quoted(n)).drop_last()
            == ns.drop_last().map_values(|n: Seq<char>| quoted(n)));
    }
}

/// `edges_text` is the edge lines as lines.
proof fn lemma_edges_text_lines(es: Seq<EdgeSpec>)
    ensures
        edges_text(es) == concat_lines(es.map_values(|e: EdgeSpec| edge_line(e))),
    decreases es.len(),
{
    if es.len() > 0 {
        lemma_edges_text_lines(es.drop_last());
        assert(es.map_values(|e: EdgeSpec| edge_line(e)).drop_last()
            == es.drop_last().map_values(|e: EdgeSpec| edge_line(e)));
    }
}

/// `"//Nodes"`.
spec fn line_nodes_marker() -> Seq<char> { seq!['/', '/', 'N', 'o', 'd', 'e', 's'] }
/// `"//Edges"`.
spec fn line_edges_marker() -> Seq<char> { seq!['/', '/', 'E', 'd', 'g', 'e', 's'] }

/// The lines of a serialized graph between its opening and closing braces.
spec fn graph_lines(ns: Seq<Seq<char>>, es: Seq<EdgeSpec>) -> Seq<Seq<char>> {
    seq![Seq::empty(), Seq::empty(), line_nodes_marker()]
        + ns.map_values(|n: Seq<char>| quoted(n))
        + seq![Seq::empty(), line_edges_marker()]
        + es.map_values(|e: EdgeSpec| edge_line(e))
}

/// The serialized graph is `digraph {`, its lines and `}` with a line break.
proof fn lemma_graph_text_shape(ns: Seq<Seq<char>>, es: Seq<EdgeSpec>)
    ensures
        graph_text(ns, es) == text_open() + concat_lines(graph_lines(ns, es)) + seq!['}', '\n'],
{
    let a = seq![Seq::<char>::empty(), Seq::<char>::empty(), line_nodes_marker()];
    let b = ns.map_values(|n: Seq<char>| quoted(n));
    let c = seq![Seq::<char>::empty(), line_edges_marker()];
    let d = es.map_values(|e: EdgeSpec| edge_line(e));
    lemma_nodes_text_lines(ns);
    lemma_edges_text_lines(es);
    lemma_concat_lines_append(a + b + c, d);
    lemma_concat_lines_append(a + b, c);
    lemma_concat_lines_append(a, b);
    assert(concat_lines(a) =~= seq!['\n', '\n'] + line_nodes_marker() + seq!['\n']) by {
        let a1 = a.drop_last();
        let a2 = a1.drop_last();
        assert(a1 =~= seq![Seq::<char>::empty(), Seq::<char>::empty()]);
        assert(a2 =~= seq![Seq::<char>::empty()]);
        assert(a2.drop_last() =~= Seq::<Seq<char>>::empty());
        assert(concat_lines(a2.drop_last()) == Seq::<char>::empty());
        assert(a2.last() == Seq::<char>::empty());
        assert(concat_lines(a2) =~= seq!['\n']);
        assert(concat_lines(a1) =~= seq!['\n', '\n']);
    }
    assert(concat_lines(c) =~= seq!['\n'] + line_edges_marker() + seq!['\n']) by {
        assert(c.drop_last() =~= seq![Seq::<char>::empty()]);
        assert(c.drop_last().drop_last() =~= Seq::<Seq<char>>::empty());
        assert(concat_lines(c.drop_last().drop_last()) == Seq::<char>::empty());
        assert(c.drop_last().last() == Seq::<char>::empty());
        assert(concat_lines(c.drop_last()) =~= seq!['\n']);
    }
    assert(graph_text(ns, es) =~= text_open() + concat_lines(graph_lines(ns, es)) + seq!['}', '\n']);
}

/// Adding all kinds of one new edge, one after the other.
proof fn lemma_replay_one_edge(v: GraphView, a: Seq<char>, b: Seq<char>, ts: Seq<EdgeType>)
    requires
        !v.edges.contains_key((a, b)),
        ts.len() > 0,
    ensures
        replay(v, ts.map_values(|t: EdgeType| (a, b, t)))
            == (GraphView { nodes: v.nodes.insert(b).insert(a), edges: v.edges.insert((a, b), ts.to_set()) }),
    decreases ts.len(),
{
    let m = ts.map_values(|t: EdgeType| (a, b, t));
    assert(m.drop_last() == ts.drop_last().map_values(|t: EdgeType| (a, b, t)));
    assert(m.last() == (a, b, ts.last()));
    crate::seqs::lemma_push_to_set(ts.drop_last(), ts.last());
    assert(ts.drop_last().push(ts.last()) == ts);
    if ts.len() == 1 {
        assert(m.drop_last().len() == 0);
        assert(replay(v, m.drop_last()) == v);
        assert(ts.drop_last().to_set() =~= Set::<EdgeType>::empty());
        let r = replay(v, m);
        assert(r == view_add_edge(v, a, b, ts.last()));
        assert(r.nodes =~= v.nodes.insert(b).insert(a));
        assert(r.edges =~= v.edges.insert((a, b), ts.to_set()));
    } else {
        lemma_replay_one_edge(v, a, b, ts.drop_last());
        let r = replay(v, m);
        assert(r == view_add_edge(replay(v, m.drop_last()), a, b, ts.last()));
        assert(r.nodes =~= v.nodes.insert(b).insert(a));
        assert(r.edges =~= v.edges.insert((a, b), ts.to_set()));
    }
}

/// Adding the kinds of the first `k` edges, in order, builds the graph of
/// those edges.
proof fn lemma_replay_edges(es: Seq<EdgeSpec>, k: int)
    requires
        keys_distinct(es),
        0 <= k <= es.len(),
        forall|i: int| 0 <= i < es.len() ==> (#[trigger] es[i]).2.len() > 0,
    ensures
        replay(empty_view(), edge_calls(es.take(k)))
            == (GraphView { nodes: endpoints(es.take(k)), edges: edge_map(es.take(k)) }),
    decreases k,
{
    if k == 0 {
        assert(es.take(0) =~= Seq::<EdgeSpec>::empty());
        assert(endpoints(es.take(0)) =~= Set::<Seq<char>>::empty());
        assert(edge_map(es.take(0)) =~= Map::<(Seq<char>, Seq<char>), Set<EdgeType>>::empty());
    } else {
        let p = es.take(k - 1);
        let q = es.take(k);
        let e = es[k - 1];
        assert(q.drop_last() == p);
        assert(q.last() == e);
        lemma_replay_edges(es, k - 1);
        let v = GraphView { nodes: endpoints(p), edges: edge_map(p) };
        crate::graph::lemma_edge_map_dom(p);
        assert(!edge_map(p).contains_key((e.0, e.1))) by {
            if edge_map(p).contains_key((e.0, e.1)) {
                let i = choose|i: int| 0 <= i < p.len() && edge_key(p[i]) == (e.0, e.1);
                assert(edge_key(es[i]) != edge_key(es[k - 1]));
            }
        }
        crate::graph::lemma_replay_append(empty_view(), edge_calls(p),
            e.2.map_values(|t: EdgeType| (e.0, e.1, t)));
        lemma_replay_one_edge(v, e.0, e.1, e.2);
        assert(endpoints(q) =~= endpoints(p).insert(e.1).insert(e.0)) by {
            assert forall|n: Seq<char>| endpoints(q).contains(n) implies
                endpoints(p).insert(e.1).insert(e.0).contains(n) by {
                let i = choose|i: int| 0 <= i < q.len() && (q[i].0 == n || q[i].1 == n);
                if i < k - 1 {
                    assert(p[i] == q[i]);
                }
            }
            assert forall|n: Seq<char>| endpoints(p).insert(e.1).insert(e.0).contains(n) implies
                endpoints(q).contains(n) by {
                if endpoints(p).contains(n) {
                    let i = choose|i: int| 0 <= i < p.len() && (p[i].0 == n || p[i].1 == n);
                    assert(q[i] == p[i]);
                } else {
                    assert(q[k - 1] == e);
                }
            }
        }
    }
}

/// The content of the serialized graph is its lines.
proof fn lemma_graph_content(ns: Seq<Seq<char>>, es: Seq<EdgeSpec>)
    ensures
        graph_content(graph_text(ns, es)) == Some(concat_lines(graph_lines(ns, es))),
{
    let text = graph_text(ns, es);
    let c = concat_lines(graph_lines(ns, es));
    lemma_graph_text_shape(ns, es);
    let body = text_open() + c + seq!['}'];
    assert(text =~= body + seq!['\n']);
    assert(text[0] == 'd');
    lemma_trim_start_id(text);
    assert(text.drop_last() == body);
    assert(trim(text) == body) by {
        assert(is_whitespace(text.last()));
        lemma_trim_end_id(body);
    }
    assert(strip_prefix(body, text_open()) == Some(c + seq!['}'])) by {
        assert(body.take(9) =~= text_open());
        assert(body.skip(9) =~= c + seq!['}']);
    }
    assert(strip_suffix(c + seq!['}'], seq!['}']) == Some(c)) by {
        let r = c + seq!['}'];
        assert(r.skip(r.len() - 1) =~= seq!['}']);
        assert(r.take(r.len() - 1) =~= c);
    }
}

/// The lines of a serialized graph with plain names: they split back, only
/// the edge lines are read, each is readable, and they add the edges.
proof fn lemma_graph_lines(ns: Seq<Seq<char>>, es: Seq<EdgeSpec>)
    requires
        forall|i: int| 0 <= i < ns.len() ==> plain_name(#[trigger] ns[i]),
        forall|i: int| 0 <= i < es.len() ==> plain_name((#[trigger] es[i]).0) && plain_name(es[i].1)
            && es[i].2.len() > 0,
    ensures
        split_by(concat_lines(graph_lines(ns, es)), seq!['\n']) == graph_lines(ns, es).push(Seq::<char>::empty()),
        forall|i: int| 0 <= i < graph_lines(ns, es).push(Seq::<char>::empty()).len()
            && is_edge_line(#[trigger] graph_lines(ns, es).push(Seq::<char>::empty())[i])
            ==> edge_line_readable(graph_lines(ns, es).push(Seq::<char>::empty())[i]),
        lines_edges(graph_lines(ns, es).push(Seq::<char>::empty())) == edge_calls(es),
{
    let ls = graph_lines(ns, es);
    let a = seq![Seq::<char>::empty(), Seq::<char>::empty(), line_nodes_marker()];
    let b = ns.map_values(|n: Seq<char>| quoted(n));
    let cc = seq![Seq::<char>::empty(), line_edges_marker()];
    let d = es.map_values(|e: EdgeSpec| edge_line(e));
    assert(ls == a + b + cc + d);
    assert forall|i: int| 0 <= i < b.len() implies !is_edge_line(#[trigger] b[i]) && no_newline(b[i]) by {
        lemma_quoted_not_edge_line(ns[i]);
    }
    assert forall|i: int| 0 <= i < d.len() implies is_edge_line(#[trigger] d[i]) && no_newline(d[i])
        && edge_line_readable(d[i]) by {
        lemma_edge_line_read(es[i]);
    }
    assert forall|i: int| 0 <= i < a.len() implies !is_edge_line(#[trigger] a[i]) && no_newline(a[i]) by {
        lemma_no_dash_not_edge_line(a[i]);
    }
    assert forall|i: int| 0 <= i < cc.len() implies !is_edge_line(#[trigger] cc[i]) && no_newline(cc[i]) by {
        lemma_no_dash_not_edge_line(cc[i]);
    }
    assert forall|i: int| 0 <= i < ls.len() implies no_newline(#[trigger] ls[i]) by {
        if i < 3 {
            assert(ls[i] == a[i]);
        } else if i < 3 + b.len() {
            assert(ls[i] == b[i - 3]);
        } else if i < 5 + b.len() {
            assert(ls[i] == cc[i - 3 - b.len()]);
        } else {
            assert(ls[i] == d[i - 5 - b.len()]);
        }
    }
    lemma_split_concat_lines(ls);
    let lines = ls.push(Seq::<char>::empty());
    assert forall|i: int| 0 <= i < lines.len() && is_edge_line(#[trigger] lines[i])
        implies edge_line_readable(lines[i]) by {
        if i < 3 {
            assert(lines[i] == a[i]);
        } else if i < 3 + b.len() {
            assert(lines[i] == b[i - 3]);
        } else if i < 5 + b.len() {
            assert(lines[i] == cc[i - 3 - b.len()]);
        } else if i < ls.len() {
            assert(lines[i] == d[i - 5 - b.len()]);
        } else {
            lemma_no_dash_not_edge_line(lines[i]);
        }
    }
    let e1 = seq![Seq::<char>::empty()];
    lemma_lines_edges_append(a + b + cc + d, e1);
    lemma_lines_edges_append(a + b + cc, d);
    lemma_lines_edges_append(a + b, cc);
    lemma_lines_edges_append(a, b);
    lemma_lines_edges_none(a);
    lemma_lines_edges_none(b);
    lemma_lines_edges_none(cc);
    assert forall|i: int| 0 <= i < e1.len() implies !is_edge_line(#[trigger] e1[i]) by {
        lemma_no_dash_not_edge_line(e1[i]);
    }
    lemma_lines_edges_none(e1);
    lemma_lines_edges_of_edges(es);
    assert(lines == a + b + cc + d + e1);
    assert(lines_edges(lines) =~= edge_calls(es));
}

/// Reading back the serialized form of a graph gives its edges, each with
/// its kinds, and the nodes that are end points of an edge.
///
/// This holds when every node name is plain (no line break, no `->`, no
/// `//`). The serialized form lists every node, but only its edge lines are
/// read, so a node that is no end point of an edge is not read back; where
/// every node is one, the graph read back is the graph.
pub proof fn lemma_graph_roundtrip(g: DependencyGraph)
    requires
        g.wf(),
        forall|i: int| 0 <= i < g.node_seq().len() ==> plain_name(#[trigger] g.node_seq()[i]),
    ensures
        graph_text_readable(graph_text(g.node_seq(), g.edge_seq())),
        graph_content(graph_text(g.node_seq(), g.edge_seq())) is Some,
        replay(empty_view(), text_edges(graph_text(g.node_seq(), g.edge_seq()))).edges == g.view().edges,
        replay(empty_view(), text_edges(graph_text(g.node_seq(), g.edge_seq()))).nodes
            == g.view().nodes.filter(|n: Seq<char>| endpoints(g.edge_seq()).contains(n)),
        (forall|n: Seq<char>| #[trigger] g.node_seq().contains(n) ==> exists|i: int|
            0 <= i < g.edge_seq().len() && (g.edge_seq()[i].0 == n || g.edge_seq()[i].1 == n))
            ==> replay(empty_view(), text_edges(graph_text(g.node_seq(), g.edge_seq()))) == g.view(),
{
    let ns = g.node_seq();
    let es = g.edge_seq();
    let text = graph_text(ns, es);
    assert forall|i: int| 0 <= i < es.len() implies plain_name((#[trigger] es[i]).0)
        && plain_name(es[i].1) && es[i].2.len() > 0 by {
        let j0 = choose|j: int| 0 <= j < ns.len() && ns[j] == es[i].0;
        let j1 = choose|j: int| 0 <= j < ns.len() && ns[j] == es[i].1;
        assert(plain_name(ns[j0]));
        assert(plain_name(ns[j1]));
    }
    lemma_graph_content(ns, es);
    lemma_graph_lines(ns, es);
    assert(text_edges(text) == edge_calls(es));
    lemma_replay_edges(es, es.len() as int);
    assert(es.take(es.len() as int) == es);
    assert(endpoints(es) =~= ns.to_set().filter(|n: Seq<char>| endpoints(es).contains(n))) by {
        assert forall|n: Seq<char>| endpoints(es).contains(n) implies ns.to_set().contains(n) by {
            let i = choose|i: int| 0 <= i < es.len() && (es[i].0 == n || es[i].1 == n);
            let j0 = choose|j: int| 0 <= j < ns.len() && ns[j] == es[i].0;
            let j1 = choose|j: int| 0 <= j < ns.len() && ns[j] == es[i].1;
            if es[i].0 == n {
                assert(ns.contains(n));
            } else {
                assert(ns[j1] == n);
                assert(ns.contains(n));
            }
        }
    }
    if forall|n: Seq<char>| #[trigger] ns.contains(n) ==> exists|i: int|
        0 <= i < es.len() && (es[i].0 == n || es[i].1 == n) {
        assert(endpoints(es) =~= ns.to_set()) by {
            assert forall|n: Seq<char>| ns.to_set().contains(n) implies endpoints(es).contains(n) by {
                assert(ns.contains(n));
            }
        }
    }
}

} // verus!
