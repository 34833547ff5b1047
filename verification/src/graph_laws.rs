//! What validation guarantees of the graphs it accepts and of the findings it returns.

use vstd::prelude::*;
use crate::cycle_laws::{
    closed_walk, has_edge, lemma_cycles_are_simple, lemma_cycles_are_walks,
    lemma_self_loop_reported, lemma_silent_means_acyclic, walk_step,
};
use crate::graph::{
    adjacency, adjacency_upto, catalog_ids, cycle_findings, cycle_ids, cycle_message, cycles_of,
    duplicate_id_message, edge_findings, edge_findings_upto, ids_of, input_findings,
    invalid_input_message, invalid_output_message, last_position, lemma_last_position_in_range,
    missing_from_message, missing_to_message, node_findings, node_findings_upto, output_findings,
    unknown_type_message, validation_errors, DataflowGraph, EdgeView, GraphView, NodeView,
};
use crate::registry::{catalog_entries, CatalogEntry, NodeMeta};
use crate::search::{adjacency_wf, all_cycles};

verus! {

/// Whether edge `k` of `g` has both endpoints among the nodes, at positions `u` and `v`.
pub open spec fn joins(g: GraphView, k: int, u: usize, v: usize) -> bool {
    &&& 0 <= k < g.edges.len()
    &&& last_position(ids_of(g.nodes), g.edges[k].from_node) == Some(u as int)
    &&& last_position(ids_of(g.nodes), g.edges[k].to_node) == Some(v as int)
}

/// Whether one of the first `m` edges of `g` joins the positions `u` and `v`.
pub open spec fn joined_before(g: GraphView, m: int, u: usize, v: usize) -> bool {
    exists|k: int| k < m && #[trigger] joins(g, k, u, v)
}

/// The adjacency list has one row per node and exactly the edges of the
/// graph whose endpoints are node ids.
pub proof fn lemma_adjacency_upto(g: GraphView, m: int)
    requires
        g.nodes.len() <= usize::MAX,
        0 <= m <= g.edges.len() <= usize::MAX,
    ensures
        adjacency_upto(g, m).len() == g.nodes.len(),
        forall|u: int|
            0 <= u < g.nodes.len() ==> (#[trigger] adjacency_upto(g, m)[u]).len() <= m,
        forall|u: int, j: int|
            0 <= u < g.nodes.len() && 0 <= j < adjacency_upto(g, m)[u].len() ==> joined_before(
                g,
                m,
                u as usize,
                #[trigger] adjacency_upto(g, m)[u][j],
            ),
        forall|k: int, u: usize, v: usize|
            k < m && #[trigger] joins(g, k, u, v) ==> u < g.nodes.len() && adjacency_upto(
                g,
                m,
            )[u as int].contains(v),
    decreases m,
{
    if m > 0 {
        lemma_adjacency_upto(g, m - 1);
        let before = adjacency_upto(g, m - 1);
        let after = adjacency_upto(g, m);
        let e = g.edges[m - 1];
        let ids = ids_of(g.nodes);
        lemma_last_position_in_range(ids, e.from_node);
        lemma_last_position_in_range(ids, e.to_node);
        let from = last_position(ids, e.from_node);
        let to = last_position(ids, e.to_node);
        if from.is_some() && to.is_some() {
            let f = from.unwrap();
            let t = to.unwrap();
            assert(after == before.update(f, before[f].push(t as usize)));
            assert(joins(g, m - 1, f as usize, t as usize));
            assert forall|u: int, j: int|
                0 <= u < g.nodes.len() && 0 <= j < after[u].len() implies joined_before(
                g,
                m,
                u as usize,
                #[trigger] after[u][j],
            ) by {
                if u == f && j == before[f].len() {
                    assert(joins(g, m - 1, u as usize, after[u][j]));
                } else {
                    assert(after[u][j] == before[u][j]);
                    assert(joined_before(g, m - 1, u as usize, before[u][j]));
                    let k = choose|k: int| k < m - 1 && #[trigger] joins(g, k, u as usize, before[u][j]);
                    assert(joins(g, k, u as usize, after[u][j]));
                }
            }
            assert forall|k: int, u: usize, v: usize| k < m && #[trigger] joins(g, k, u, v) implies u
                < g.nodes.len() && after[u as int].contains(v) by {
                lemma_last_position_in_range(ids, g.edges[k].from_node);
                if k == m - 1 {
                    assert(after[f][before[f].len() as int] == t as usize);
                } else {
                    assert(before[u as int].contains(v));
                    let j = choose|j: int| 0 <= j < before[u as int].len() && before[u as int][j] == v;
                    assert(after[u as int][j] == v);
                }
            }
        } else {
            assert(after == before);
            assert forall|u: int, j: int|
                0 <= u < g.nodes.len() && 0 <= j < after[u].len() implies joined_before(
                g,
                m,
                u as usize,
                #[trigger] after[u][j],
            ) by {
                assert(joined_before(g, m - 1, u as usize, before[u][j]));
                let k = choose|k: int| k < m - 1 && #[trigger] joins(g, k, u as usize, before[u][j]);
                assert(joins(g, k, u as usize, after[u][j]));
            }
        }
    } else {
        assert forall|k: int, u: usize, v: usize| k < m && #[trigger] joins(g, k, u, v) implies u
            < g.nodes.len() && adjacency_upto(g, m)[u as int].contains(v) by {}
    }
}

/// The adjacency list of a graph is well formed, and its edges are the
/// edges of the graph whose endpoints are node ids.
pub proof fn lemma_adjacency(g: GraphView)
    requires
        g.nodes.len() <= usize::MAX,
        g.edges.len() <= usize::MAX,
    ensures
        adjacency_wf(adjacency(g)),
        adjacency(g).len() == g.nodes.len(),
        forall|u: usize, v: usize|
            #[trigger] has_edge(adjacency(g), u, v) <==> joined_before(
                g,
                g.edges.len() as int,
                u,
                v,
            ),
{
    let adj = adjacency(g);
    let m = g.edges.len() as int;
    lemma_adjacency_upto(g, m);
    assert forall|u: int, j: int| 0 <= u < adj.len() && 0 <= j < adj[u].len() implies (
    #[trigger] adj[u][j]) < adj.len() by {
        assert(joined_before(g, m, u as usize, adj[u][j]));
        let k = choose|k: int| k < m && #[trigger] joins(g, k, u as usize, adj[u][j]);
        lemma_last_position_in_range(ids_of(g.nodes), g.edges[k].to_node);
    }
    assert forall|u: usize, v: usize| #[trigger]
        has_edge(adj, u, v) <==> joined_before(g, m, u, v) by {
        if has_edge(adj, u, v) {
            let j = choose|j: int| 0 <= j < adj[u as int].len() && adj[u as int][j] == v;
            assert(joined_before(g, m, u, adj[u as int][j]));
            let k = choose|k: int| k < m && #[trigger] joins(g, k, u, adj[u as int][j]);
            assert(joins(g, k, u, v));
        }
        if joined_before(g, m, u, v) {
            let k = choose|k: int| k < m && #[trigger] joins(g, k, u, v);
            assert(k < m && joins(g, k, u, v));
        }
    }
}

/// Whether edge `k` of `g` leads from the id `a` to the id `b`.
pub open spec fn leads(g: GraphView, k: int, a: Seq<char>, b: Seq<char>) -> bool {
    0 <= k < g.edges.len() && g.edges[k].from_node == a && g.edges[k].to_node == b
}

/// Whether `a` and `b` are ids of nodes of `g` and an edge leads from `a` to `b`.
pub open spec fn linked(g: GraphView, a: Seq<char>, b: Seq<char>) -> bool {
    &&& ids_of(g.nodes).contains(a)
    &&& ids_of(g.nodes).contains(b)
    &&& exists|k: int| #[trigger] leads(g, k, a, b)
}

/// Whether an edge between nodes of `g` leads from position `k` of `walk` to the next.
pub open spec fn id_step(g: GraphView, walk: Seq<Seq<char>>, k: int) -> bool {
    linked(g, walk[k], walk[k + 1])
}

/// A sequence of node ids, each linked to the next by an edge, that ends where it began.
pub open spec fn id_cycle(g: GraphView, walk: Seq<Seq<char>>) -> bool {
    &&& walk.len() >= 2
    &&& walk[0] == walk.last()
    &&& forall|k: int| 0 <= k < walk.len() - 1 ==> #[trigger] id_step(g, walk, k)
}

/// The edges between the nodes of `g` form no cycle.
pub open spec fn acyclic(g: GraphView) -> bool {
    forall|walk: Seq<Seq<char>>| !#[trigger] id_cycle(g, walk)
}

/// Every cycle that `detect_cycles` returns is a cycle of the graph: it
/// starts and ends on one id, and an edge between existing nodes leads from
/// each of its ids to the next.
pub proof fn law_reported_cycles_are_cycles(graph: DataflowGraph, c: int)
    requires
        0 <= c < cycles_of(graph@).len(),
    ensures
        id_cycle(graph@, cycles_of(graph@)[c]),
{
    let g = graph@;
    let adj = adjacency(g);
    let ids = ids_of(g.nodes);
    assert(g.nodes.len() == graph.nodes.len());
    assert(g.edges.len() == graph.edges.len());
    lemma_adjacency(g);
    lemma_cycles_are_walks(adj);
    let found = all_cycles(adj)[c];
    let walk = cycles_of(g)[c];
    assert(walk == cycle_ids(g, found));
    assert(closed_walk(adj, found));
    assert forall|k: int| 0 <= k < walk.len() - 1 implies #[trigger] id_step(g, walk, k) by {
        assert(walk_step(adj, found, k));
        let u = found[k];
        let v = found[k + 1];
        assert(has_edge(adj, u, v));
        let e = choose|e: int| e < g.edges.len() && #[trigger] joins(g, e, u, v);
        lemma_last_position_in_range(ids, g.edges[e].from_node);
        lemma_last_position_in_range(ids, g.edges[e].to_node);
        assert(ids[u as int] == g.nodes[u as int].id);
        assert(ids[v as int] == g.nodes[v as int].id);
        assert(leads(g, e, walk[k], walk[k + 1]));
    }
}

/// Every cycle that `detect_cycles` returns is simple: it names no node
/// twice, but for the one that opens and closes it.
pub proof fn law_reported_cycles_are_simple(graph: DataflowGraph, c: int)
    requires
        0 <= c < cycles_of(graph@).len(),
    ensures
        cycles_of(graph@)[c].drop_last().no_duplicates(),
{
    let g = graph@;
    let adj = adjacency(g);
    let ids = ids_of(g.nodes);
    assert(g.nodes.len() == graph.nodes.len());
    assert(g.edges.len() == graph.edges.len());
    lemma_adjacency(g);
    lemma_cycles_are_walks(adj);
    lemma_cycles_are_simple(adj);
    let found = all_cycles(adj)[c];
    let walk = cycles_of(g)[c];
    assert(walk == cycle_ids(g, found));
    assert(closed_walk(adj, found));
    let inner = walk.drop_last();
    assert forall|a: int, b: int| 0 <= a < inner.len() && 0 <= b < inner.len() && a != b implies inner[a]
        != inner[b] by {
        assert(found.drop_last()[a] != found.drop_last()[b]);
        assert(walk_step(adj, found, a));
        assert(walk_step(adj, found, b));
        let u = found[a];
        let v = found[b];
        let to_u = found[a + 1];
        let to_v = found[b + 1];
        assert(joined_before(g, g.edges.len() as int, u, to_u));
        assert(joined_before(g, g.edges.len() as int, v, to_v));
        let e = choose|e: int| e < g.edges.len() && #[trigger] joins(g, e, u, to_u);
        let f = choose|f: int| f < g.edges.len() && #[trigger] joins(g, f, v, to_v);
        lemma_last_position_in_range(ids, g.edges[e].from_node);
        lemma_last_position_in_range(ids, g.edges[f].from_node);
        assert(inner[a] == ids[u as int]);
        assert(inner[b] == ids[v as int]);
        if inner[a] == inner[b] {
            assert(g.edges[e].from_node == g.edges[f].from_node);
        }
    }
}

/// The position walk of an id walk.
pub open spec fn positions_of(g: GraphView, walk: Seq<Seq<char>>) -> Seq<usize> {
    walk.map_values(|a: Seq<char>| last_position(ids_of(g.nodes), a).unwrap() as usize)
}

/// `detect_cycles` returns no cycle exactly where the edges between the
/// nodes of the graph form none.
pub proof fn law_cycles_found_iff_cyclic(graph: DataflowGraph)
    ensures
        cycles_of(graph@).len() == 0 <==> acyclic(graph@),
{
    let g = graph@;
    let adj = adjacency(g);
    let ids = ids_of(g.nodes);
    assert(g.nodes.len() == graph.nodes.len());
    assert(g.edges.len() == graph.edges.len());
    lemma_adjacency(g);
    if cycles_of(g).len() > 0 {
        law_reported_cycles_are_cycles(graph, 0);
        assert(id_cycle(g, cycles_of(g)[0]));
    } else {
        assert forall|walk: Seq<Seq<char>>| !#[trigger] id_cycle(g, walk) by {
            if id_cycle(g, walk) {
                let along = positions_of(g, walk);
                assert forall|k: int| 0 <= k < along.len() - 1 implies #[trigger] walk_step(
                    adj,
                    along,
                    k,
                ) by {
                    assert(id_step(g, walk, k));
                    let e = choose|e: int| #[trigger] leads(g, e, walk[k], walk[k + 1]);
                    lemma_last_position_in_range(ids, walk[k]);
                    lemma_last_position_in_range(ids, walk[k + 1]);
                    assert(joins(g, e, along[k], along[k + 1]));
                    assert(joined_before(g, g.edges.len() as int, along[k], along[k + 1]));
                }
                assert(closed_walk(adj, along));
                lemma_silent_means_acyclic(adj, along);
            }
        }
    }
}

/// An edge from an existing node to itself is reported by validation as a
/// cycle of that node alone.
pub proof fn law_self_loop_is_a_cycle(graph: DataflowGraph, registry: Seq<NodeMeta>, k: int)
    requires
        0 <= k < graph@.edges.len(),
        graph@.edges[k].from_node == graph@.edges[k].to_node,
        ids_of(graph@.nodes).contains(graph@.edges[k].from_node),
    ensures
        cycles_of(graph@).contains(seq![graph@.edges[k].from_node, graph@.edges[k].from_node]),
        validation_errors(graph@, catalog_entries(registry)).contains(
            cycle_message(seq![graph@.edges[k].from_node, graph@.edges[k].from_node]),
        ),
{
    let g = graph@;
    let adj = adjacency(g);
    let ids = ids_of(g.nodes);
    let id = g.edges[k].from_node;
    let catalog = catalog_entries(registry);
    assert(g.nodes.len() == graph.nodes.len());
    assert(g.edges.len() == graph.edges.len());
    lemma_adjacency(g);
    lemma_last_position_in_range(ids, id);
    let u = last_position(ids, id).unwrap() as usize;
    assert(joins(g, k, u, u));
    assert(joined_before(g, g.edges.len() as int, u, u));
    assert(has_edge(adj, u, u));
    lemma_self_loop_reported(adj, u);
    let c = choose|c: int| 0 <= c < all_cycles(adj).len() && all_cycles(adj)[c] == seq![u, u];
    assert(cycle_ids(g, seq![u, u]) == seq![id, id]);
    assert(cycles_of(g)[c] == seq![id, id]);
    let tail = cycle_findings(cycles_of(g));
    assert(tail[c] == cycle_message(seq![id, id]));
    let head = node_findings_upto(g.nodes, catalog, g.nodes.len() as int) + edge_findings_upto(
        g,
        catalog,
        g.edges.len() as int,
    );
    assert(validation_errors(g, catalog)[head.len() + c] == tail[c]);
}

/// The nodes before position `n` contribute no finding where their ids
/// differ from one another and the catalog knows their types.
proof fn lemma_clean_nodes(nodes: Seq<NodeView>, catalog: Seq<CatalogEntry>, n: int)
    requires
        0 <= n <= nodes.len(),
        ids_of(nodes).no_duplicates(),
        forall|i: int|
            0 <= i < nodes.len() ==> catalog_ids(catalog).contains(#[trigger] nodes[i].node_type),
    ensures
        node_findings_upto(nodes, catalog, n) == Seq::<Seq<char>>::empty(),
    decreases n,
{
    if n > 0 {
        lemma_clean_nodes(nodes, catalog, n - 1);
        let node = nodes[n - 1];
        let ids = ids_of(nodes);
        assert(catalog_ids(catalog).contains(node.node_type));
        lemma_last_position_in_range(catalog_ids(catalog), node.node_type);
        let earlier = ids.take(n - 1);
        if earlier.contains(node.id) {
            let j = choose|j: int| 0 <= j < earlier.len() && earlier[j] == node.id;
            assert(ids[j] == ids[n - 1]);
        }
        assert(node_findings(nodes, catalog, n - 1) == Seq::<Seq<char>>::empty());
    }
}

/// A graph whose nodes bear ids that differ from one another and types that
/// the catalog knows, and that has no edge, is valid: validation finds nothing.
pub proof fn law_unconnected_nodes_are_valid(graph: DataflowGraph, registry: Seq<NodeMeta>)
    requires
        ids_of(graph@.nodes).no_duplicates(),
        graph@.edges.len() == 0,
        forall|i: int|
            0 <= i < graph@.nodes.len() ==> catalog_ids(catalog_entries(registry)).contains(
                #[trigger] graph@.nodes[i].node_type,
            ),
    ensures
        validation_errors(graph@, catalog_entries(registry)) == Seq::<Seq<char>>::empty(),
{
    let g = graph@;
    let catalog = catalog_entries(registry);
    lemma_clean_nodes(g.nodes, catalog, g.nodes.len() as int);
    if cycles_of(g).len() > 0 {
        law_reported_cycles_are_cycles(graph, 0);
        let walk = cycles_of(g)[0];
        assert(id_step(g, walk, 0));
        let k = choose|k: int| #[trigger] leads(g, k, walk[0], walk[1]);
        assert(false);
    }
    assert(cycle_findings(cycles_of(g)) == Seq::<Seq<char>>::empty());
}

/// How often `x` occurs in `items`.
pub open spec fn occurrences(items: Seq<Seq<char>>, x: Seq<char>) -> nat
    decreases items.len(),
{
    if items.len() == 0 {
        0
    } else {
        occurrences(items.drop_last(), x) + if items.last() == x {
            1nat
        } else {
            0nat
        }
    }
}

/// Occurrences add up over concatenation.
pub proof fn lemma_occurrences_add(a: Seq<Seq<char>>, b: Seq<Seq<char>>, x: Seq<char>)
    ensures
        occurrences(a + b, x) == occurrences(a, x) + occurrences(b, x),
    decreases b.len(),
{
    if b.len() == 0 {
        assert(a + b == a);
    } else {
        assert((a + b).drop_last() == a + b.drop_last());
        lemma_occurrences_add(a, b.drop_last(), x);
    }
}

/// In a sequence of one item, that item occurs once and nothing else occurs.
pub proof fn lemma_occurrences_single(m: Seq<char>, x: Seq<char>)
    ensures
        occurrences(seq![m], x) == if m == x { 1nat } else { 0nat },
        occurrences(Seq::empty(), x) == 0,
{
    assert(seq![m].drop_last() == Seq::<Seq<char>>::empty());
    assert(occurrences(Seq::empty(), x) == 0);
}

/// Something occurs in a sequence exactly where the sequence contains it.
pub proof fn lemma_occurrences_contains(items: Seq<Seq<char>>, x: Seq<char>)
    ensures
        occurrences(items, x) > 0 <==> items.contains(x),
    decreases items.len(),
{
    if items.len() > 0 {
        lemma_occurrences_contains(items.drop_last(), x);
        if items.last() == x {
            assert(items[items.len() - 1] == x);
        } else {
            if items.contains(x) {
                let i = choose|i: int| 0 <= i < items.len() && items[i] == x;
                assert(items.drop_last()[i] == x);
            }
            let front = items.drop_last();
            if front.contains(x) {
                let i = choose|i: int| 0 <= i < front.len() && front[i] == x;
                assert(items[i] == x);
            }
        }
    }
}

/// Two duplicate-id findings are the same only for the same id.
proof fn lemma_duplicate_message_names_id(a: Seq<char>, b: Seq<char>)
    requires
        duplicate_id_message(a) == duplicate_id_message(b),
    ensures
        a == b,
{
    let lead = "duplicate node id: "@;
    assert(a.len() == b.len()) by {
        assert((lead + a).len() == (lead + b).len());
    }
    assert forall|i: int| 0 <= i < a.len() implies a[i] == b[i] by {
        assert((lead + a)[lead.len() + i] == a[i]);
        assert((lead + b)[lead.len() + i] == b[i]);
    }
    assert(a =~= b);
}

/// No finding of another kind reads like a duplicate-id finding.
proof fn lemma_other_messages_differ(id: Seq<char>, a: Seq<char>, b: Seq<char>, c: Seq<char>)
    ensures
        unknown_type_message(a, b) != duplicate_id_message(id),
        missing_from_message(a) != duplicate_id_message(id),
        missing_to_message(a) != duplicate_id_message(id),
        invalid_output_message(a, b, c) != duplicate_id_message(id),
        invalid_input_message(a, b, c) != duplicate_id_message(id),
        forall|ids: Seq<Seq<char>>| #[trigger] cycle_message(ids) != duplicate_id_message(id),
{
    reveal_strlit("duplicate node id: ");
    reveal_strlit("unknown node type '");
    reveal_strlit("edge references missing from_node '");
    reveal_strlit("edge references missing to_node '");
    reveal_strlit("invalid output port '");
    reveal_strlit("invalid input port '");
    reveal_strlit("cycle detected: ");
    assert(duplicate_id_message(id)[0] == 'd');
    assert(unknown_type_message(a, b)[0] == 'u');
    assert(missing_from_message(a)[0] == 'e');
    assert(missing_to_message(a)[0] == 'e');
    assert(invalid_output_message(a, b, c)[0] == 'i');
    assert(invalid_input_message(a, b, c)[0] == 'i');
    assert forall|ids: Seq<Seq<char>>| #[trigger] cycle_message(ids) != duplicate_id_message(id) by {
        assert(cycle_message(ids)[0] == 'c');
    }
}

/// Among the findings of the first `n` nodes, the duplicate-id finding for
/// `id` occurs once for each of those nodes that bears `id`, but for the first.
proof fn lemma_node_duplicates(nodes: Seq<NodeView>, catalog: Seq<CatalogEntry>, n: int, id: Seq<char>)
    requires
        0 <= n <= nodes.len(),
    ensures
        occurrences(node_findings_upto(nodes, catalog, n), duplicate_id_message(id)) == if occurrences(
            ids_of(nodes).take(n),
            id,
        ) == 0 {
            0
        } else {
            occurrences(ids_of(nodes).take(n), id) - 1
        },
    decreases n,
{
    let ids = ids_of(nodes);
    let wanted = duplicate_id_message(id);
    if n > 0 {
        lemma_node_duplicates(nodes, catalog, n - 1, id);
        let node = nodes[n - 1];
        let found = node_findings(nodes, catalog, n - 1);
        lemma_occurrences_add(node_findings_upto(nodes, catalog, n - 1), found, wanted);
        assert(ids.take(n).drop_last() == ids.take(n - 1));
        assert(ids.take(n).last() == node.id);
        lemma_occurrences_contains(ids.take(n - 1), id);
        lemma_other_messages_differ(id, node.node_type, node.id, Seq::empty());
        let duplicate = if ids.take(n - 1).contains(node.id) {
            seq![duplicate_id_message(node.id)]
        } else {
            Seq::empty()
        };
        let unknown = if last_position(catalog_ids(catalog), node.node_type).is_none() {
            seq![unknown_type_message(node.node_type, node.id)]
        } else {
            Seq::empty()
        };
        assert(found == duplicate + unknown);
        lemma_occurrences_add(duplicate, unknown, wanted);
        lemma_occurrences_single(unknown_type_message(node.node_type, node.id), wanted);
        lemma_occurrences_single(duplicate_id_message(node.id), wanted);
        if duplicate_id_message(node.id) == wanted {
            lemma_duplicate_message_names_id(node.id, id);
        }
    } else {
        assert(ids.take(0) == Seq::<Seq<char>>::empty());
    }
}

/// No finding of an edge is a duplicate-id finding.
proof fn lemma_edge_finds_no_duplicate(
    nodes: Seq<NodeView>,
    catalog: Seq<CatalogEntry>,
    e: EdgeView,
    id: Seq<char>,
)
    ensures
        occurrences(edge_findings(nodes, catalog, e), duplicate_id_message(id)) == 0,
{
    let wanted = duplicate_id_message(id);
    let found = edge_findings(nodes, catalog, e);
    lemma_occurrences_contains(found, wanted);
    if found.contains(wanted) {
        let i = choose|i: int| 0 <= i < found.len() && found[i] == wanted;
        lemma_other_messages_differ(id, e.from_node, Seq::empty(), Seq::empty());
        lemma_other_messages_differ(id, e.to_node, Seq::empty(), Seq::empty());
        let from = last_position(ids_of(nodes), e.from_node);
        let to = last_position(ids_of(nodes), e.to_node);
        if from.is_some() && to.is_some() {
            let source = nodes[from.unwrap()];
            let target = nodes[to.unwrap()];
            lemma_other_messages_differ(id, e.from_output, source.id, source.node_type);
            lemma_other_messages_differ(id, e.to_input, target.id, target.node_type);
            let first = output_findings(source, catalog, e.from_output);
            let second = input_findings(target, catalog, e.to_input);
            assert(found == first + second);
            if i < first.len() {
                assert(first[i] == wanted);
            } else {
                assert(second[i - first.len()] == wanted);
            }
        }
    }
}

/// No finding of the first `n` edges is a duplicate-id finding.
proof fn lemma_edges_find_no_duplicate(g: GraphView, catalog: Seq<CatalogEntry>, n: int, id: Seq<char>)
    ensures
        occurrences(edge_findings_upto(g, catalog, n), duplicate_id_message(id)) == 0,
    decreases n,
{
    if n > 0 {
        lemma_edges_find_no_duplicate(g, catalog, n - 1, id);
        lemma_edge_finds_no_duplicate(g.nodes, catalog, g.edges[n - 1], id);
        lemma_occurrences_add(
            edge_findings_upto(g, catalog, n - 1),
            edge_findings(g.nodes, catalog, g.edges[n - 1]),
            duplicate_id_message(id),
        );
    }
}

/// An id that `k` nodes of the graph bear, `k` at least one, yields exactly
/// `k - 1` duplicate-id findings; an id that no node bears yields none.
pub proof fn law_duplicates_counted(graph: DataflowGraph, registry: Seq<NodeMeta>, id: Seq<char>)
    ensures
        occurrences(
            validation_errors(graph@, catalog_entries(registry)),
            duplicate_id_message(id),
        ) == if occurrences(ids_of(graph@.nodes), id) == 0 {
            0
        } else {
            occurrences(ids_of(graph@.nodes), id) - 1
        },
{
    let g = graph@;
    let catalog = catalog_entries(registry);
    let wanted = duplicate_id_message(id);
    let of_nodes = node_findings_upto(g.nodes, catalog, g.nodes.len() as int);
    let of_edges = edge_findings_upto(g, catalog, g.edges.len() as int);
    let of_cycles = cycle_findings(cycles_of(g));
    lemma_node_duplicates(g.nodes, catalog, g.nodes.len() as int, id);
    assert(ids_of(g.nodes).take(g.nodes.len() as int) == ids_of(g.nodes));
    lemma_edges_find_no_duplicate(g, catalog, g.edges.len() as int, id);
    lemma_occurrences_contains(of_cycles, wanted);
    if of_cycles.contains(wanted) {
        let i = choose|i: int| 0 <= i < of_cycles.len() && of_cycles[i] == wanted;
        lemma_other_messages_differ(id, Seq::empty(), Seq::empty(), Seq::empty());
        assert(of_cycles[i] == cycle_message(cycles_of(g)[i]));
    }
    lemma_occurrences_add(of_nodes, of_edges, wanted);
    lemma_occurrences_add(of_nodes + of_edges, of_cycles, wanted);
}

/// Whether the type of `node`, where the catalog knows it, declares the output `port`.
pub open spec fn output_declared(node: NodeView, catalog: Seq<CatalogEntry>, port: Seq<char>) -> bool {
    match last_position(catalog_ids(catalog), node.node_type) {
        Some(k) => catalog[k].outputs.contains(port),
        None => true,
    }
}

/// Whether the type of `node`, where the catalog knows it, declares the input `port`.
pub open spec fn input_declared(node: NodeView, catalog: Seq<CatalogEntry>, port: Seq<char>) -> bool {
    match last_position(catalog_ids(catalog), node.node_type) {
        Some(k) => catalog[k].inputs.contains(port),
        None => true,
    }
}

/// Whether an edge joins two nodes of the graph on ports that their types declare.
pub open spec fn edge_in_order(nodes: Seq<NodeView>, catalog: Seq<CatalogEntry>, e: EdgeView) -> bool {
    match (last_position(ids_of(nodes), e.from_node), last_position(ids_of(nodes), e.to_node)) {
        (Some(f), Some(t)) => output_declared(nodes[f], catalog, e.from_output) && input_declared(
            nodes[t],
            catalog,
            e.to_input,
        ),
        _ => false,
    }
}

/// What validation asks of a graph: no two nodes bear one id, the catalog
/// knows the type of every node, every edge joins two nodes on declared
/// ports, and the edges form no cycle.
pub open spec fn in_order(g: GraphView, catalog: Seq<CatalogEntry>) -> bool {
    &&& ids_of(g.nodes).no_duplicates()
    &&& forall|i: int|
        0 <= i < g.nodes.len() ==> catalog_ids(catalog).contains(#[trigger] g.nodes[i].node_type)
    &&& forall|k: int| 0 <= k < g.edges.len() ==> edge_in_order(g.nodes, catalog, #[trigger] g.edges[k])
    &&& acyclic(g)
}

/// The first `n` nodes contribute no finding exactly where none of them
/// bears the id of an earlier one and the catalog knows the type of each.
proof fn lemma_nodes_clean_iff(nodes: Seq<NodeView>, catalog: Seq<CatalogEntry>, n: int)
    requires
        0 <= n <= nodes.len(),
    ensures
        node_findings_upto(nodes, catalog, n).len() == 0 <==> (forall|i: int|
            0 <= i < n ==> !ids_of(nodes).take(i).contains(#[trigger] nodes[i].id)
                && catalog_ids(catalog).contains(nodes[i].node_type)),
    decreases n,
{
    if n > 0 {
        lemma_nodes_clean_iff(nodes, catalog, n - 1);
        let node = nodes[n - 1];
        lemma_last_position_in_range(catalog_ids(catalog), node.node_type);
        let clean = !ids_of(nodes).take(n - 1).contains(node.id) && catalog_ids(catalog).contains(
            node.node_type,
        );
        assert(node_findings(nodes, catalog, n - 1).len() == 0 <==> clean);
        if node_findings_upto(nodes, catalog, n).len() == 0 {
            assert forall|i: int| 0 <= i < n implies !ids_of(nodes).take(i).contains(
                #[trigger] nodes[i].id,
            ) && catalog_ids(catalog).contains(nodes[i].node_type) by {}
        }
    }
}

/// The first `n` edges contribute no finding exactly where each of them is in order.
proof fn lemma_edges_clean_iff(g: GraphView, catalog: Seq<CatalogEntry>, n: int)
    requires
        0 <= n <= g.edges.len(),
    ensures
        edge_findings_upto(g, catalog, n).len() == 0 <==> (forall|k: int|
            0 <= k < n ==> edge_in_order(g.nodes, catalog, #[trigger] g.edges[k])),
    decreases n,
{
    if n > 0 {
        lemma_edges_clean_iff(g, catalog, n - 1);
        let e = g.edges[n - 1];
        assert(edge_findings(g.nodes, catalog, e).len() == 0 <==> edge_in_order(g.nodes, catalog, e));
        if edge_findings_upto(g, catalog, n).len() == 0 {
            assert forall|k: int| 0 <= k < n implies edge_in_order(
                g.nodes,
                catalog,
                #[trigger] g.edges[k],
            ) by {}
        }
    }
}

/// No id occurs twice exactly where no node bears the id of an earlier one.
proof fn lemma_distinct_iff(ids: Seq<Seq<char>>)
    ensures
        ids.no_duplicates() <==> (forall|i: int|
            0 <= i < ids.len() ==> !ids.take(i).contains(#[trigger] ids[i])),
{
    if ids.no_duplicates() {
        assert forall|i: int| 0 <= i < ids.len() implies !ids.take(i).contains(#[trigger] ids[i]) by {
            let earlier = ids.take(i);
            if earlier.contains(ids[i]) {
                let j = choose|j: int| 0 <= j < earlier.len() && earlier[j] == ids[i];
                assert(ids[j] == ids[i]);
            }
        }
    }
    if forall|i: int| 0 <= i < ids.len() ==> !ids.take(i).contains(#[trigger] ids[i]) {
        assert forall|a: int, b: int| 0 <= a < ids.len() && 0 <= b < ids.len() && a != b implies ids[a]
            != ids[b] by {
            if ids[a] == ids[b] {
                let (lo, hi) = if a < b {
                    (a, b)
                } else {
                    (b, a)
                };
                assert(ids.take(hi)[lo] == ids[hi]);
                assert(!ids.take(hi).contains(ids[hi]));
            }
        }
    }
}

/// Validation accepts a graph exactly where the graph is in order: it
/// finds nothing if and only if ids are unique, types are known, edges
/// join existing nodes on declared ports, and the edges form no cycle.
pub proof fn law_valid_iff_in_order(graph: DataflowGraph, registry: Seq<NodeMeta>)
    ensures
        validation_errors(graph@, catalog_entries(registry)).len() == 0 <==> in_order(
            graph@,
            catalog_entries(registry),
        ),
{
    let g = graph@;
    let catalog = catalog_entries(registry);
    lemma_nodes_clean_iff(g.nodes, catalog, g.nodes.len() as int);
    lemma_edges_clean_iff(g, catalog, g.edges.len() as int);
    lemma_distinct_iff(ids_of(g.nodes));
    law_cycles_found_iff_cyclic(graph);
    let ids = ids_of(g.nodes);
    let of_nodes = node_findings_upto(g.nodes, catalog, g.nodes.len() as int);
    let of_edges = edge_findings_upto(g, catalog, g.edges.len() as int);
    let of_cycles = cycle_findings(cycles_of(g));
    assert(of_cycles.len() == cycles_of(g).len());
    assert(validation_errors(g, catalog).len() == of_nodes.len() + of_edges.len() + of_cycles.len());
    let nodes_clean = forall|i: int|
        0 <= i < g.nodes.len() ==> !ids.take(i).contains(#[trigger] g.nodes[i].id)
            && catalog_ids(catalog).contains(g.nodes[i].node_type);
    let edges_clean = forall|k: int|
        0 <= k < g.edges.len() ==> edge_in_order(g.nodes, catalog, #[trigger] g.edges[k]);
    assert(of_nodes.len() == 0 <==> nodes_clean);
    assert(of_edges.len() == 0 <==> edges_clean);
    assert(of_cycles.len() == 0 <==> acyclic(g));
    if in_order(g, catalog) {
        assert(nodes_clean) by {
            assert forall|i: int| 0 <= i < g.nodes.len() implies !ids.take(i).contains(
                #[trigger] g.nodes[i].id,
            ) && catalog_ids(catalog).contains(g.nodes[i].node_type) by {
                assert(ids[i] == g.nodes[i].id);
                assert(!ids.take(i).contains(ids[i]));
            }
        }
        assert(validation_errors(g, catalog).len() == 0);
    }
    if validation_errors(g, catalog).len() == 0 {
        assert(nodes_clean && edges_clean && acyclic(g));
        assert(ids.no_duplicates()) by {
            assert forall|i: int| 0 <= i < ids.len() implies !ids.take(i).contains(
                #[trigger] ids[i],
            ) by {
                assert(ids[i] == g.nodes[i].id);
                assert(!ids.take(i).contains(g.nodes[i].id));
            }
        }
        assert forall|i: int| 0 <= i < g.nodes.len() implies catalog_ids(catalog).contains(
            #[trigger] g.nodes[i].node_type,
        ) by {
            assert(!ids.take(i).contains(g.nodes[i].id) && catalog_ids(catalog).contains(
                g.nodes[i].node_type,
            ));
        }
        assert(in_order(g, catalog));
    }
}

} // verus!
