//! The declarative dataflow graph and its structural validator.

use std::collections::HashMap;
use vstd::prelude::*;
use vstd::string::StringExecFns;
use crate::registry::{catalog_entries, CatalogEntry, NodeMeta};

use crate::search::{adjacency_wf, all_cycles, find_cycles, rows};
use crate::text::{contains_text, join, joined, str_eq, texts};

verus! {

/// `serde_json::Value`, carried through a node's configuration untouched.
#[verifier::external_type_specification]
#[verifier::external_body]
pub struct ExJsonValue(serde_json::Value);

/// One node of a dataflow graph.
#[derive(Debug, Clone, Default)]
pub struct NodeInstance {
    pub id: String,
    pub node_type: String,
    pub config: HashMap<String, serde_json::Value>,
}

/// A directed connection from an output port to an input port.
#[derive(Debug, Clone, Default)]
pub struct Edge {
    pub from_node: String,
    pub from_output: String,
    pub to_node: String,
    pub to_input: String,
}

/// A dataflow graph: nodes and the edges between their ports.
#[derive(Debug, Clone, Default)]
pub struct DataflowGraph {
    pub nodes: Vec<NodeInstance>,
    pub edges: Vec<Edge>,
}

/// What validation found. `valid` holds exactly when `errors` is empty.
#[derive(Debug, Clone, Default)]
pub struct ValidationResult {
    pub valid: bool,
    pub errors: Vec<String>,
    pub warnings: Vec<String>,
}

/// A node as validation reads it.
pub struct NodeView {
    pub id: Seq<char>,
    pub node_type: Seq<char>,
}

/// An edge as validation reads it.
pub struct EdgeView {
    pub from_node: Seq<char>,
    pub from_output: Seq<char>,
    pub to_node: Seq<char>,
    pub to_input: Seq<char>,
}

/// A graph as validation reads it.
pub struct GraphView {
    pub nodes: Seq<NodeView>,
    pub edges: Seq<EdgeView>,
}

impl View for NodeInstance {
    type V = NodeView;

    open spec fn view(&self) -> NodeView {
        NodeView { id: self.id@, node_type: self.node_type@ }
    }
}

impl View for Edge {
    type V = EdgeView;

    open spec fn view(&self) -> EdgeView {
        EdgeView {
            from_node: self.from_node@,
            from_output: self.from_output@,
            to_node: self.to_node@,
            to_input: self.to_input@,
        }
    }
}

impl View for DataflowGraph {
    type V = GraphView;

    open spec fn view(&self) -> GraphView {
        GraphView {
            nodes: self.nodes@.map_values(|n: NodeInstance| n@),
            edges: self.edges@.map_values(|e: Edge| e@),
        }
    }
}

/// The ids of a sequence of nodes, in order.
pub open spec fn ids_of(nodes: Seq<NodeView>) -> Seq<Seq<char>> {
    nodes.map_values(|n: NodeView| n.id)
}

/// The ids of a sequence of catalog entries, in order.
pub open spec fn catalog_ids(catalog: Seq<CatalogEntry>) -> Seq<Seq<char>> {
    catalog.map_values(|c: CatalogEntry| c.id)
}

/// The position of the last element of `keys` equal to `key`: where several
/// records bear one key, the last one is the one that lookups see.
pub open spec fn last_position(keys: Seq<Seq<char>>, key: Seq<char>) -> Option<int>
    decreases keys.len(),
{
    if keys.len() == 0 {
        None
    } else if keys.last() == key {
        Some(keys.len() - 1)
    } else {
        last_position(keys.drop_last(), key)
    }
}

/// A position that `last_position` reports lies in the sequence and holds the key.
pub proof fn lemma_last_position_in_range(keys: Seq<Seq<char>>, key: Seq<char>)
    ensures
        match last_position(keys, key) {
            Some(i) => 0 <= i < keys.len() && keys[i] == key,
            None => !keys.contains(key),
        },
    decreases keys.len(),
{
    if keys.len() > 0 && keys.last() != key {
        lemma_last_position_in_range(keys.drop_last(), key);
        if keys.contains(key) {
            let i = choose|i: int| 0 <= i < keys.len() && keys[i] == key;
            assert(keys.drop_last()[i] == key);
        }
    }
}

/// Finds the last node that bears `id`.
pub fn find_node_index(nodes: &Vec<NodeInstance>, id: &str) -> (found: Option<usize>)
    ensures
        found.is_some() == last_position(ids_of(nodes@.map_values(|n: NodeInstance| n@)), id@).is_some(),
        found.is_some() ==> last_position(ids_of(nodes@.map_values(|n: NodeInstance| n@)), id@)
            == Some(found.unwrap() as int),
{
    let ghost ids = ids_of(nodes@.map_values(|n: NodeInstance| n@));
    let mut i: usize = nodes.len();
    assert(ids.take(i as int) == ids);
    while i > 0
        invariant
            i <= nodes.len(),
            ids == ids_of(nodes@.map_values(|n: NodeInstance| n@)),
            last_position(ids, id@) == last_position(ids.take(i as int), id@),
        decreases i,
    {
        proof {
            assert(ids.take(i as int).drop_last() == ids.take(i - 1));
        }
        if str_eq(nodes[i - 1].id.as_str(), id) {
            return Some(i - 1);
        }
        i = i - 1;
    }
    None
}

/// Finds the last catalog record that bears `node_type`.
pub fn find_type_index(registry: &[NodeMeta], node_type: &str) -> (found: Option<usize>)
    ensures
        found.is_some() == last_position(catalog_ids(catalog_entries(registry@)), node_type@).is_some(),
        found.is_some() ==> last_position(catalog_ids(catalog_entries(registry@)), node_type@)
            == Some(found.unwrap() as int),
{
    let ghost ids = catalog_ids(catalog_entries(registry@));
    let mut i: usize = registry.len();
    assert(ids.take(i as int) == ids);
    while i > 0
        invariant
            i <= registry.len(),
            ids == catalog_ids(catalog_entries(registry@)),
            last_position(ids, node_type@) == last_position(ids.take(i as int), node_type@),
        decreases i,
    {
        proof {
            assert(ids.take(i as int).drop_last() == ids.take(i - 1));
        }
        if str_eq(registry[i - 1].id.as_str(), node_type) {
            return Some(i - 1);
        }
        i = i - 1;
    }
    None
}

/// The successors of each node, by position: for each edge whose two
/// endpoints are node ids, in the order of the edges, the position of its
/// target in the row of its source. Only the first `k` edges are counted.
pub open spec fn adjacency_upto(g: GraphView, k: int) -> Seq<Seq<usize>>
    decreases k,
{
    if k <= 0 {
        Seq::new(g.nodes.len(), |i: int| Seq::<usize>::empty())
    } else {
        let before = adjacency_upto(g, k - 1);
        let e = g.edges[k - 1];
        match (
            last_position(ids_of(g.nodes), e.from_node),
            last_position(ids_of(g.nodes), e.to_node),
        ) {
            (Some(f), Some(t)) => before.update(f, before[f].push(t as usize)),
            _ => before,
        }
    }
}

/// The successors of each node, by position.
pub open spec fn adjacency(g: GraphView) -> Seq<Seq<usize>> {
    adjacency_upto(g, g.edges.len() as int)
}

/// A cycle of positions as the ids of the nodes at those positions.
pub open spec fn cycle_ids(g: GraphView, cycle: Seq<usize>) -> Seq<Seq<char>> {
    cycle.map_values(|i: usize| g.nodes[i as int].id)
}

/// The cycles of a graph, each as the ids along it, closed by the id it started from.
pub open spec fn cycles_of(g: GraphView) -> Seq<Seq<Seq<char>>> {
    all_cycles(adjacency(g)).map_values(|c: Seq<usize>| cycle_ids(g, c))
}

/// The character sequences of a list of lists of strings.
pub open spec fn cycle_texts(cycles: Seq<Vec<String>>) -> Seq<Seq<Seq<char>>> {
    cycles.map_values(|c: Vec<String>| texts(c@))
}

/// Builds the adjacency list of a graph over the positions of its nodes.
fn build_adjacency(graph: &DataflowGraph) -> (adj: Vec<Vec<usize>>)
    ensures
        rows(adj@) == adjacency(graph@),
        adjacency_wf(rows(adj@)),
        adj@.len() == graph.nodes@.len(),
{
    let n = graph.nodes.len();
    let mut adj: Vec<Vec<usize>> = Vec::new();
    let mut i: usize = 0;
    while i < n
        invariant
            i <= n,
            adj@.len() == i,
            rows(adj@) == Seq::new(i as nat, |k: int| Seq::<usize>::empty()),
        decreases n - i,
    {
        let ghost before = rows(adj@);
        adj.push(Vec::new());
        i = i + 1;
        assert(rows(adj@) == before.push(Seq::<usize>::empty()));
    }
    let mut k: usize = 0;
    while k < graph.edges.len()
        invariant
            k <= graph.edges@.len(),
            n == graph.nodes@.len(),
            adj@.len() == n,
            rows(adj@) == adjacency_upto(graph@, k as int),
            forall|u: int, j: int|
                0 <= u < rows(adj@).len() && 0 <= j < rows(adj@)[u].len() ==> (#[trigger] rows(
                    adj@,
                )[u][j]) < n,
        decreases graph.edges@.len() - k,
    {
        let edge = &graph.edges[k];
        let from = find_node_index(&graph.nodes, edge.from_node.as_str());
        let to = find_node_index(&graph.nodes, edge.to_node.as_str());
        proof {
            assert(graph@.edges[k as int] == edge@);
            assert(graph@.nodes == graph.nodes@.map_values(|n: NodeInstance| n@));
            lemma_last_position_in_range(ids_of(graph@.nodes), edge@.from_node);
            lemma_last_position_in_range(ids_of(graph@.nodes), edge@.to_node);
        }
        if let Some(f) = from {
            if let Some(t) = to {
                let ghost before = rows(adj@);
                adj[f].push(t);
                proof {
                    assert(rows(adj@) == before.update(f as int, before[f as int].push(t)));
                    assert forall|u: int, j: int|
                        0 <= u < rows(adj@).len() && 0 <= j < rows(adj@)[u].len() implies (
                    #[trigger] rows(adj@)[u][j]) < rows(adj@).len() by {
                        if u != f || j < before[f as int].len() {
                            assert(rows(adj@)[u][j] == before[u][j]);
                        }
                    }
                }
            }
        }
        k = k + 1;
    }
    proof {
        assert forall|u: int| 0 <= u < rows(adj@).len() implies (#[trigger] rows(adj@)[u]).len()
            <= usize::MAX by {
            assert(adj@[u].len() == rows(adj@)[u].len());
        }
    }
    adj
}

/// Finds the cycles of a graph. Only edges whose two endpoints are node ids
/// count. Each cycle is the sequence of ids along it, in the order of the
/// search, closed by the id it started from.
pub fn detect_cycles(graph: &DataflowGraph) -> (cycles: Vec<Vec<String>>)
    ensures
        cycle_texts(cycles@) == cycles_of(graph@),
{
    let adj = build_adjacency(graph);
    let found = find_cycles(&adj);
    let mut cycles: Vec<Vec<String>> = Vec::new();
    let mut c: usize = 0;
    while c < found.len()
        invariant
            c <= found@.len(),
            adj@.len() == graph.nodes@.len(),
            forall|x: int, k: int|
                0 <= x < found@.len() && 0 <= k < found@[x]@.len() ==> (#[trigger] found@[x]@[k])
                    < adj@.len(),
            cycle_texts(cycles@) == rows(found@).take(c as int).map_values(
                |x: Seq<usize>| cycle_ids(graph@, x),
            ),
        decreases found@.len() - c,
    {
        let cycle = &found[c];
        let mut ids: Vec<String> = Vec::new();
        let mut k: usize = 0;
        while k < cycle.len()
            invariant
                k <= cycle@.len(),
                forall|j: int| 0 <= j < cycle@.len() ==> (#[trigger] cycle@[j]) < graph.nodes@.len(),
                texts(ids@) == cycle_ids(graph@, cycle@.take(k as int)),
            decreases cycle@.len() - k,
        {
            let i = cycle[k];
            let ghost ids_before = ids@;
            ids.push(graph.nodes[i].id.clone());
            proof {
                let f = |i: usize| graph@.nodes[i as int].id;
                assert(cycle@.take(k + 1) == cycle@.take(k as int).push(i));
                cycle@.take(k as int).lemma_push_map_commute(f, i);
                ids_before.lemma_push_map_commute(|s: String| s@, ids@.last());
                assert(graph@.nodes[i as int].id == graph.nodes@[i as int].id@);
            }
            k = k + 1;
        }
        let ghost cycles_before = cycles@;
        cycles.push(ids);
        proof {
            assert(cycle@.take(k as int) == cycle@);
            let all = rows(found@);
            assert(all.take(c + 1) == all.take(c as int).push(cycle@));
            all.take(c as int).lemma_push_map_commute(
                |x: Seq<usize>| cycle_ids(graph@, x),
                cycle@,
            );
            cycles_before.lemma_push_map_commute(|c: Vec<String>| texts(c@), cycles@.last());
        }
        c = c + 1;
    }
    assert(rows(found@).take(c as int) == rows(found@));
    cycles
}

/// The finding for a node id that an earlier node already bears.
pub open spec fn duplicate_id_message(id: Seq<char>) -> Seq<char> {
    "duplicate node id: "@ + id
}

/// The finding for a node whose type the catalog does not know.
pub open spec fn unknown_type_message(node_type: Seq<char>, id: Seq<char>) -> Seq<char> {
    "unknown node type '"@ + node_type + "' for node '"@ + id + "'"@
}

/// The finding for an edge whose source is no node id.
pub open spec fn missing_from_message(id: Seq<char>) -> Seq<char> {
    "edge references missing from_node '"@ + id + "'"@
}

/// The finding for an edge whose target is no node id.
pub open spec fn missing_to_message(id: Seq<char>) -> Seq<char> {
    "edge references missing to_node '"@ + id + "'"@
}

/// The finding for an output port that the source's type does not declare.
pub open spec fn invalid_output_message(
    port: Seq<char>,
    id: Seq<char>,
    node_type: Seq<char>,
) -> Seq<char> {
    "invalid output port '"@ + port + "' on node '"@ + id + "' (type '"@ + node_type + "')"@
}

/// The finding for an input port that the target's type does not declare.
pub open spec fn invalid_input_message(
    port: Seq<char>,
    id: Seq<char>,
    node_type: Seq<char>,
) -> Seq<char> {
    "invalid input port '"@ + port + "' on node '"@ + id + "' (type '"@ + node_type + "')"@
}

/// The finding for a cycle, given the ids along it.
pub open spec fn cycle_message(ids: Seq<Seq<char>>) -> Seq<char> {
    "cycle detected: "@ + joined(ids, " -> "@)
}

/// What the node at position `i` contributes: a duplicate-id finding where an
/// earlier node bears its id, then an unknown-type finding where the catalog
/// lacks its type.
pub open spec fn node_findings(nodes: Seq<NodeView>, catalog: Seq<CatalogEntry>, i: int) -> Seq<
    Seq<char>,
> {
    let node = nodes[i];
    let duplicate = if ids_of(nodes).take(i).contains(node.id) {
        seq![duplicate_id_message(node.id)]
    } else {
        Seq::empty()
    };
    let unknown = if last_position(catalog_ids(catalog), node.node_type).is_none() {
        seq![unknown_type_message(node.node_type, node.id)]
    } else {
        Seq::empty()
    };
    duplicate + unknown
}

/// The findings of the first `n` nodes, in order.
pub open spec fn node_findings_upto(nodes: Seq<NodeView>, catalog: Seq<CatalogEntry>, n: int) -> Seq<
    Seq<char>,
>
    decreases n,
{
    if n <= 0 {
        Seq::empty()
    } else {
        node_findings_upto(nodes, catalog, n - 1) + node_findings(nodes, catalog, n - 1)
    }
}

/// The finding, if any, for the output port `port` of `node`: checked only
/// where the catalog knows the node's type.
pub open spec fn output_findings(node: NodeView, catalog: Seq<CatalogEntry>, port: Seq<char>) -> Seq<
    Seq<char>,
> {
    match last_position(catalog_ids(catalog), node.node_type) {
        Some(k) => if catalog[k].outputs.contains(port) {
            Seq::empty()
        } else {
            seq![invalid_output_message(port, node.id, node.node_type)]
        },
        None => Seq::empty(),
    }
}

/// The finding, if any, for the input port `port` of `node`: checked only
/// where the catalog knows the node's type.
pub open spec fn input_findings(node: NodeView, catalog: Seq<CatalogEntry>, port: Seq<char>) -> Seq<
    Seq<char>,
> {
    match last_position(catalog_ids(catalog), node.node_type) {
        Some(k) => if catalog[k].inputs.contains(port) {
            Seq::empty()
        } else {
            seq![invalid_input_message(port, node.id, node.node_type)]
        },
        None => Seq::empty(),
    }
}

/// What one edge contributes: a missing-endpoint finding for the first of
/// its endpoints that is no node id, and otherwise the findings for its two ports.
pub open spec fn edge_findings(nodes: Seq<NodeView>, catalog: Seq<CatalogEntry>, e: EdgeView) -> Seq<
    Seq<char>,
> {
    match last_position(ids_of(nodes), e.from_node) {
        None => seq![missing_from_message(e.from_node)],
        Some(f) => match last_position(ids_of(nodes), e.to_node) {
            None => seq![missing_to_message(e.to_node)],
            Some(t) => output_findings(nodes[f], catalog, e.from_output) + input_findings(
                nodes[t],
                catalog,
                e.to_input,
            ),
        },
    }
}

/// The findings of the first `n` edges, in order.
pub open spec fn edge_findings_upto(g: GraphView, catalog: Seq<CatalogEntry>, n: int) -> Seq<
    Seq<char>,
>
    decreases n,
{
    if n <= 0 {
        Seq::empty()
    } else {
        edge_findings_upto(g, catalog, n - 1) + edge_findings(g.nodes, catalog, g.edges[n - 1])
    }
}

/// One finding for each cycle, in order.
pub open spec fn cycle_findings(cycles: Seq<Seq<Seq<char>>>) -> Seq<Seq<char>> {
    cycles.map_values(|c: Seq<Seq<char>>| cycle_message(c))
}

/// Every finding of validation: those of the nodes, then those of the edges,
/// then one for each cycle.
pub open spec fn validation_errors(g: GraphView, catalog: Seq<CatalogEntry>) -> Seq<Seq<char>> {
    node_findings_upto(g.nodes, catalog, g.nodes.len() as int) + edge_findings_upto(
        g,
        catalog,
        g.edges.len() as int,
    ) + cycle_findings(cycles_of(g))
}

/// Whether a node before position `i` bears the id of the node at `i`.
fn seen_before(nodes: &Vec<NodeInstance>, i: usize) -> (seen: bool)
    requires
        i < nodes@.len(),
    ensures
        seen == ids_of(nodes@.map_values(|n: NodeInstance| n@)).take(i as int).contains(
            nodes@[i as int].id@,
        ),
{
    let ghost earlier = ids_of(nodes@.map_values(|n: NodeInstance| n@)).take(i as int);
    let mut j: usize = 0;
    while j < i
        invariant
            j <= i < nodes@.len(),
            earlier == ids_of(nodes@.map_values(|n: NodeInstance| n@)).take(i as int),
            !earlier.take(j as int).contains(nodes@[i as int].id@),
        decreases i - j,
    {
        if str_eq(nodes[j].id.as_str(), nodes[i].id.as_str()) {
            assert(earlier[j as int] == nodes@[i as int].id@);
            return true;
        }
        proof {
            assert(earlier.take(j + 1) == earlier.take(j as int).push(earlier[j as int]));
        }
        j = j + 1;
    }
    assert(earlier.take(j as int) == earlier);
    false
}

/// Writes the finding for a node id that an earlier node already bears.
fn duplicate_id_text(id: &str) -> (msg: String)
    ensures
        msg@ == duplicate_id_message(id@),
{
    let mut msg = String::from_str("duplicate node id: ");
    msg.append(id);
    msg
}

/// Writes the finding for a node whose type the catalog does not know.
fn unknown_type_text(node_type: &str, id: &str) -> (msg: String)
    ensures
        msg@ == unknown_type_message(node_type@, id@),
{
    let mut msg = String::from_str("unknown node type '");
    msg.append(node_type);
    msg.append("' for node '");
    msg.append(id);
    msg.append("'");
    msg
}

/// Writes the finding for an edge whose source is no node id.
fn missing_from_text(id: &str) -> (msg: String)
    ensures
        msg@ == missing_from_message(id@),
{
    let mut msg = String::from_str("edge references missing from_node '");
    msg.append(id);
    msg.append("'");
    msg
}

/// Writes the finding for an edge whose target is no node id.
fn missing_to_text(id: &str) -> (msg: String)
    ensures
        msg@ == missing_to_message(id@),
{
    let mut msg = String::from_str("edge references missing to_node '");
    msg.append(id);
    msg.append("'");
    msg
}

/// Writes the finding for an output port that the source's type does not declare.
fn invalid_output_text(port: &str, id: &str, node_type: &str) -> (msg: String)
    ensures
        msg@ == invalid_output_message(port@, id@, node_type@),
{
    let mut msg = String::from_str("invalid output port '");
    msg.append(port);
    msg.append("' on node '");
    msg.append(id);
    msg.append("' (type '");
    msg.append(node_type);
    msg.append("')");
    msg
}

/// Writes the finding for an input port that the target's type does not declare.
fn invalid_input_text(port: &str, id: &str, node_type: &str) -> (msg: String)
    ensures
        msg@ == invalid_input_message(port@, id@, node_type@),
{
    let mut msg = String::from_str("invalid input port '");
    msg.append(port);
    msg.append("' on node '");
    msg.append(id);
    msg.append("' (type '");
    msg.append(node_type);
    msg.append("')");
    msg
}

/// Writes the finding for a cycle.
fn cycle_text(ids: &Vec<String>) -> (msg: String)
    ensures
        msg@ == cycle_message(texts(ids@)),
{
    let mut msg = String::from_str("cycle detected: ");
    let path = join(ids, " -> ");
    msg.append(path.as_str());
    msg
}

/// Checks a graph against a catalog: node ids are unique, node types are
/// known, edges join existing nodes on declared ports, and no edges form a
/// cycle. Every check runs; what they find is returned, never raised.
pub fn validate_graph(graph: &DataflowGraph, registry: &[NodeMeta]) -> (result: ValidationResult)
    ensures
        texts(result.errors@) == validation_errors(graph@, catalog_entries(registry@)),
        result.valid == (result.errors@.len() == 0),
        result.warnings@.len() == 0,
{
    let ghost g = graph@;
    let ghost catalog = catalog_entries(registry@);
    let mut errors: Vec<String> = Vec::new();
    let warnings: Vec<String> = Vec::new();
    assert(texts(errors@) == Seq::<Seq<char>>::empty());

    let mut i: usize = 0;
    while i < graph.nodes.len()
        invariant
            i <= graph.nodes@.len(),
            g == graph@,
            catalog == catalog_entries(registry@),
            texts(errors@) == node_findings_upto(g.nodes, catalog, i as int),
        decreases graph.nodes@.len() - i,
    {
        let node = &graph.nodes[i];
        proof {
            assert(g.nodes[i as int] == node@);
            assert(g.nodes == graph.nodes@.map_values(|n: NodeInstance| n@));
        }
        if seen_before(&graph.nodes, i) {
            let ghost before = errors@;
            errors.push(duplicate_id_text(node.id.as_str()));
            proof {
                before.lemma_push_map_commute(|s: String| s@, errors@.last());
            }
        }
        if find_type_index(registry, node.node_type.as_str()).is_none() {
            let ghost before = errors@;
            errors.push(unknown_type_text(node.node_type.as_str(), node.id.as_str()));
            proof {
                before.lemma_push_map_commute(|s: String| s@, errors@.last());
            }
        }
        proof {
            let found = node_findings(g.nodes, catalog, i as int);
            assert(texts(errors@) == node_findings_upto(g.nodes, catalog, i as int) + found);
        }
        i = i + 1;
    }
    let ghost node_part = texts(errors@);

    let mut k: usize = 0;
    assert(texts(errors@) == node_part + edge_findings_upto(g, catalog, 0));
    while k < graph.edges.len()
        invariant
            k <= graph.edges@.len(),
            g == graph@,
            catalog == catalog_entries(registry@),
            texts(errors@) == node_part + edge_findings_upto(g, catalog, k as int),
        decreases graph.edges@.len() - k,
    {
        let edge = &graph.edges[k];
        let ghost start = errors@;
        proof {
            assert(g.edges[k as int] == edge@);
            assert(g.nodes == graph.nodes@.map_values(|n: NodeInstance| n@));
            lemma_last_position_in_range(ids_of(g.nodes), edge@.from_node);
            lemma_last_position_in_range(ids_of(g.nodes), edge@.to_node);
        }
        let from = find_node_index(&graph.nodes, edge.from_node.as_str());
        let to = find_node_index(&graph.nodes, edge.to_node.as_str());
        match from {
            None => {
                errors.push(missing_from_text(edge.from_node.as_str()));
                proof {
                    start.lemma_push_map_commute(|s: String| s@, errors@.last());
                }
            },
            Some(f) => match to {
                None => {
                    errors.push(missing_to_text(edge.to_node.as_str()));
                    proof {
                        start.lemma_push_map_commute(|s: String| s@, errors@.last());
                    }
                },
                Some(t) => {
                    let source = &graph.nodes[f];
                    let target = &graph.nodes[t];
                    proof {
                        assert(g.nodes[f as int] == source@);
                        assert(g.nodes[t as int] == target@);
                        lemma_last_position_in_range(catalog_ids(catalog), source@.node_type);
                        lemma_last_position_in_range(catalog_ids(catalog), target@.node_type);
                    }
                    if let Some(m) = find_type_index(registry, source.node_type.as_str()) {
                        assert(catalog[m as int] == registry@[m as int].entry());
                        if !contains_text(&registry[m].outputs, edge.from_output.as_str()) {
                            let ghost before = errors@;
                            errors.push(
                                invalid_output_text(
                                    edge.from_output.as_str(),
                                    source.id.as_str(),
                                    source.node_type.as_str(),
                                ),
                            );
                            proof {
                                before.lemma_push_map_commute(|s: String| s@, errors@.last());
                            }
                        }
                    }
                    let ghost middle = errors@;
                    assert(texts(middle) == texts(start) + output_findings(
                        g.nodes[f as int],
                        catalog,
                        edge@.from_output,
                    ));
                    if let Some(m) = find_type_index(registry, target.node_type.as_str()) {
                        assert(catalog[m as int] == registry@[m as int].entry());
                        if !contains_text(&registry[m].inputs, edge.to_input.as_str()) {
                            let ghost before = errors@;
                            errors.push(
                                invalid_input_text(
                                    edge.to_input.as_str(),
                                    target.id.as_str(),
                                    target.node_type.as_str(),
                                ),
                            );
                            proof {
                                before.lemma_push_map_commute(|s: String| s@, errors@.last());
                            }
                        }
                    }
                    assert(texts(errors@) == texts(middle) + input_findings(
                        g.nodes[t as int],
                        catalog,
                        edge@.to_input,
                    ));
                },
            },
        }
        proof {
            let found = edge_findings(g.nodes, catalog, g.edges[k as int]);
            assert(texts(errors@) == texts(start) + found);
            assert(texts(errors@) == node_part + (edge_findings_upto(g, catalog, k as int) + found));
        }
        k = k + 1;
    }
    let ghost edge_part = texts(errors@);

    let cycles = detect_cycles(graph);
    let mut c: usize = 0;
    assert(cycle_findings(cycles_of(g)).take(0) == Seq::<Seq<char>>::empty());
    while c < cycles.len()
        invariant
            c <= cycles@.len(),
            g == graph@,
            cycle_texts(cycles@) == cycles_of(g),
            texts(errors@) == edge_part + cycle_findings(cycles_of(g)).take(c as int),
        decreases cycles@.len() - c,
    {
        let ghost before = errors@;
        errors.push(cycle_text(&cycles[c]));
        proof {
            before.lemma_push_map_commute(|s: String| s@, errors@.last());
            let all = cycle_findings(cycles_of(g));
            assert(cycle_texts(cycles@)[c as int] == texts(cycles@[c as int]@));
            assert(all.take(c + 1) == all.take(c as int).push(all[c as int]));
            assert(texts(errors@) == edge_part + all.take(c + 1));
        }
        c = c + 1;
    }
    proof {
        let all = cycle_findings(cycles_of(g));
        assert(all.take(c as int) == all);
    }
    let valid = errors.len() == 0;
    ValidationResult { valid, errors, warnings }
}

} // verus!
