//! Carrying the editor graph over into the engine graph.
//!
//! Starting from the node wired into the output sink, the editor walks the
//! graph upstream breadth-first, validates every node it reaches and, when
//! all are valid, plans the engine graph: one engine node per reached node
//! with its configured (or default) input values, and one connection per
//! wire between planned nodes. The plan is applied to the engine's graph by
//! the caller.
use vstd::prelude::*;
use vstd::string::StringExecFns;
use crate::graph::{EditorGraph, NodeData, SnarlNodeId, VIRTUAL_OUTPUT_SINK_NAME, Wire, first_feeder, first_sink, has_node, is_sink, node_data, output_source};
use crate::library::{NodeLibrary, find_def, lemma_filter_take_all, lemma_filter_take_step};
use crate::reach::{breadth_first_order, contains_id, has_edge, is_rel_path, rel_reachable, lemma_reachable_rel};
use crate::schema::{
    EngineNodeId, InputValue, InputValueView, NodeDefinition, NodeInput, default_input_value, has_default,
    spec_default_input_value, spec_has_default,
};
use crate::sorted::views;
use crate::execution::{NodeGraph, graph_model};
use crate::text::text_eq;

verus! {

/// Node `a` reads from node `b`: some wire from `b` feeds an input of `a`'s
/// definition, `a` being neither the sink nor of an unknown definition.
pub open spec fn reads_from(g: EditorGraph, defs: Seq<NodeDefinition>) -> spec_fn(u64, u64) -> bool {
    |a: u64, b: u64|
        exists|k: int|
            0 <= k < g.wires@.len() && (#[trigger] g.wires@[k]).to.node.0 == a && g.wires@[k].from.node.0 == b
                && !is_sink(node_data(g.nodes@, SnarlNodeId(a))) && (find_def(
                defs,
                node_data(g.nodes@, SnarlNodeId(a)).definition_name@,
            ) matches Some(d) && g.wires@[k].to.input < d.node.inputs@.len())
}

/// Some wire feeds input `idx` of node `n`.
pub open spec fn input_wired(wires: Seq<Wire>, n: SnarlNodeId, idx: int) -> bool {
    exists|k: int| 0 <= k < wires.len() && (#[trigger] wires[k]).to.node == n && wires[k].to.input == idx
}

/// The missing-input errors of node `n` for its first `count` declared inputs.
pub open spec fn input_errors(g: EditorGraph, n: SnarlNodeId, def: NodeDefinition, count: nat) -> Seq<Seq<char>>
    decreases count,
{
    if count == 0 || count > def.node.inputs@.len() {
        Seq::empty()
    } else {
        let idx = count - 1;
        let input = def.node.inputs@[idx];
        let rest = input_errors(g, n, def, (count - 1) as nat);
        let data = node_data(g.nodes@, n);
        if input_wired(g.wires@, n, idx) || data.input_values@.contains_key(input.name@) || spec_has_default(
            input.kind,
        ) {
            rest
        } else {
            rest.push("'"@ + def.node.name@ + "' is missing required input '"@ + input.name@ + "'."@)
        }
    }
}

/// The validation errors of one reached node.
pub open spec fn node_sync_errors(g: EditorGraph, defs: Seq<NodeDefinition>, n: u64) -> Seq<Seq<char>> {
    let data = node_data(g.nodes@, SnarlNodeId(n));
    match find_def(defs, data.definition_name@) {
        None => seq!["Unknown node '"@ + data.definition_name@ + "'."@],
        Some(def) => input_errors(g, SnarlNodeId(n), def, def.node.inputs@.len()),
    }
}

/// The errors of a list of reached nodes, in order.
pub open spec fn all_sync_errors(g: EditorGraph, defs: Seq<NodeDefinition>, ns: Seq<u64>) -> Seq<Seq<char>>
    decreases ns.len(),
{
    if ns.len() == 0 {
        Seq::empty()
    } else {
        all_sync_errors(g, defs, ns.drop_last()) + node_sync_errors(g, defs, ns.last())
    }
}

/// The value the engine node gets for one declared input: the configured
/// value unless it is a connection, else the default when nothing is configured.
pub open spec fn planned_value(input: NodeInput, values: Map<Seq<char>, InputValueView>) -> Option<InputValueView> {
    if values.contains_key(input.name@) {
        if values[input.name@] is Connection {
            None
        } else {
            Some(values[input.name@])
        }
    } else {
        spec_default_input_value(input.kind)
    }
}

/// The (input name, value) pairs set on an engine node, in declaration order.
pub open spec fn planned_inputs(inputs: Seq<NodeInput>, values: Map<Seq<char>, InputValueView>) -> Seq<(Seq<char>, InputValueView)>
    decreases inputs.len(),
{
    if inputs.len() == 0 {
        Seq::empty()
    } else {
        let rest = planned_inputs(inputs.drop_last(), values);
        match planned_value(inputs.last(), values) {
            Some(v) => rest.push((inputs.last().name@, v)),
            None => rest,
        }
    }
}

/// The connections between planned nodes, one per wire (in wire order)
/// whose ends are planned nodes and whose pins exist.
pub open spec fn planned_connections(
    g: EditorGraph,
    defs: Seq<NodeDefinition>,
    members: Seq<u64>,
    ws: Seq<Wire>,
) -> Seq<(SnarlNodeId, Seq<char>, SnarlNodeId, Seq<char>)>
    decreases ws.len(),
{
    if ws.len() == 0 {
        Seq::empty()
    } else {
        let rest = planned_connections(g, defs, members, ws.drop_last());
        let w = ws.last();
        let fd = node_data(g.nodes@, w.from.node);
        let td = node_data(g.nodes@, w.to.node);
        if is_sink(fd) || is_sink(td) || !members.contains(w.from.node.0) || !members.contains(w.to.node.0) {
            rest
        } else {
            match (find_def(defs, fd.definition_name@), find_def(defs, td.definition_name@)) {
                (Some(a), Some(b)) => if w.from.output < a.node.outputs@.len() && w.to.input < b.node.inputs@.len() {
                    rest.push(
                        (
                            w.from.node,
                            a.node.outputs@[w.from.output as int].name@,
                            w.to.node,
                            b.node.inputs@[w.to.input as int].name@,
                        ),
                    )
                } else {
                    rest
                },
                _ => rest,
            }
        }
    }
}

/// One engine node to create.
#[derive(Debug)]
pub struct PlannedNode {
    pub snarl_id: SnarlNodeId,
    /// The engine id to reuse, if the editor node already had one.
    pub engine_node_id: Option<EngineNodeId>,
    pub definition_name: String,
    /// Input values to set, in order.
    pub inputs: Vec<(String, InputValue)>,
}

/// One engine connection to make.
#[derive(Debug)]
pub struct PlannedConnection {
    pub from: SnarlNodeId,
    pub from_output: String,
    pub to: SnarlNodeId,
    pub to_input: String,
}

/// The (name, value) views of a list of input assignments.
pub open spec fn assignment_views(s: Seq<(String, InputValue)>) -> Seq<(Seq<char>, InputValueView)> {
    s.map_values(|p: (String, InputValue)| (p.0@, p.1@))
}

/// The views of a list of planned connections.
pub open spec fn connection_views(s: Seq<PlannedConnection>) -> Seq<(SnarlNodeId, Seq<char>, SnarlNodeId, Seq<char>)> {
    s.map_values(|c: PlannedConnection| (c.from, c.from_output@, c.to, c.to_input@))
}

/// A planned node carries node `n`'s definition, engine id and input values.
pub open spec fn planned_node_matches(g: EditorGraph, defs: Seq<NodeDefinition>, p: PlannedNode, n: u64) -> bool {
    let data = node_data(g.nodes@, SnarlNodeId(n));
    &&& p.snarl_id == SnarlNodeId(n)
    &&& p.definition_name@ == data.definition_name@
    &&& p.engine_node_id == data.engine_node_id
    &&& match find_def(defs, data.definition_name@) {
        Some(d) => assignment_views(p.inputs@) == planned_inputs(d.node.inputs@, data.input_values@),
        None => p.inputs@.len() == 0,
    }
}

/// The result of carrying over the editor graph for the engine.
#[derive(Debug)]
pub enum GraphSyncResult {
    /// Every node upstream of the output is valid: create these nodes, make
    /// these connections, and use `output_node`'s engine node as the output.
    Valid { nodes: Vec<PlannedNode>, connections: Vec<PlannedConnection>, output_node: SnarlNodeId },
    /// No node is wired into the output sink; the engine should pause.
    NoOutput,
    /// Some upstream nodes are invalid; the engine should pause. The errors
    /// are human-readable.
    Invalid(Vec<String>),
}

/// `o` lists each node reachable from `src` along `rel` exactly once, `src` first.
pub open spec fn visit_order(o: Seq<u64>, rel: spec_fn(u64, u64) -> bool, src: u64) -> bool {
    &&& o.no_duplicates()
    &&& o.len() >= 1
    &&& o[0] == src
    &&& forall|x: u64| #[trigger] o.contains(x) <==> rel_reachable(rel, src, x)
}

/// Node `x` of the graph is not the sink.
pub open spec fn not_sink_node(g: EditorGraph) -> spec_fn(u64) -> bool {
    |x: u64| !is_sink(node_data(g.nodes@, SnarlNodeId(x)))
}

/// The reached nodes that are not the sink, in visit order.
pub open spec fn non_sink(g: EditorGraph, o: Seq<u64>) -> Seq<u64> {
    o.filter(not_sink_node(g))
}

/// What [sync_graph] returns for a graph whose nodes upstream of the output
/// were visited in order `o`.
pub open spec fn sync_outcome(g: EditorGraph, defs: Seq<NodeDefinition>, src: SnarlNodeId, o: Seq<u64>, r: GraphSyncResult) -> bool {
    let ordered = non_sink(g, o);
    let errors = all_sync_errors(g, defs, ordered);
    if errors.len() > 0 {
        r matches GraphSyncResult::Invalid(es) && views(es@) == errors
    } else if is_sink(node_data(g.nodes@, src)) {
        r is NoOutput
    } else {
        r matches GraphSyncResult::Valid { nodes, connections, output_node } && output_node == src
            && nodes@.len() == ordered.len() && (forall|i: int|
            0 <= i < nodes@.len() ==> planned_node_matches(g, defs, #[trigger] nodes@[i], ordered[i]))
            && connection_views(connections@) == planned_connections(g, defs, ordered, g.wires@)
    }
}

/// A wire into input `idx` of node `id`.
pub open spec fn wire_into(id: SnarlNodeId, idx: int) -> spec_fn(Wire) -> bool {
    |w: Wire| w.to.node == id && w.to.input == idx
}

/// The read edge of a wire into node `id`: from `id` to the wire's source.
pub open spec fn read_pair(id: SnarlNodeId) -> spec_fn(Wire) -> (u64, u64) {
    |w: Wire| (id.0, w.from.node.0)
}

/// The read edges of node `id`'s first `n` inputs: for each input in
/// order, one per wire into it, in wire order.
pub open spec fn inputs_read_edges(wires: Seq<Wire>, id: SnarlNodeId, n: int) -> Seq<(u64, u64)>
    decreases n,
{
    if n <= 0 {
        Seq::empty()
    } else {
        inputs_read_edges(wires, id, n - 1) + wires.filter(wire_into(id, n - 1)).map_values(read_pair(id))
    }
}

/// The read edges of node `nodes[i]`: none for the sink or a node of an
/// unknown definition.
pub open spec fn node_read_seq(g: EditorGraph, defs: Seq<NodeDefinition>, i: int) -> Seq<(u64, u64)> {
    let (id, d) = g.nodes@[i];
    if is_sink(d) {
        Seq::empty()
    } else {
        match find_def(defs, d.definition_name@) {
            None => Seq::empty(),
            Some(def) => inputs_read_edges(g.wires@, id, def.node.inputs@.len() as int),
        }
    }
}

/// The read edges of the first `i` nodes, grouped by node in node order.
pub open spec fn read_edge_seq(g: EditorGraph, defs: Seq<NodeDefinition>, i: int) -> Seq<(u64, u64)>
    decreases i,
{
    if i <= 0 {
        Seq::empty()
    } else {
        read_edge_seq(g, defs, i - 1) + node_read_seq(g, defs, i - 1)
    }
}

/// The order in which syncing visits nodes: breadth-first upstream from
/// `src`, each node's sources taken input by input, wire by wire.
pub open spec fn sync_visit_order(g: EditorGraph, defs: Seq<NodeDefinition>, src: SnarlNodeId) -> Seq<u64> {
    crate::reach::bfs_order(read_edge_seq(g, defs, g.nodes@.len() as int), src.0)
}

} // verus!

verus! {

/// The read edges of node `nodes[i]`: for each declared input in order, the
/// source of every wire into it, in wire order.
fn node_read_edges(graph: &EditorGraph, library: &NodeLibrary, i: usize) -> (r: Vec<(u64, u64)>)
    requires
        graph.wf(),
        i < graph.nodes@.len(),
    ensures
        forall|x: u64, y: u64| #[trigger] has_edge(r@, x, y) <==> (x == graph.nodes@[i as int].0.0
            && reads_from(*graph, library@)(x, y)),
        r@ == node_read_seq(*graph, library@, i as int),
{
    let id = graph.nodes[i].0;
    let data = &graph.nodes[i].1;
    let ghost a = id.0;
    proof {
        assert(SnarlNodeId(a) == id);
        assert(node_data(graph.nodes@, id) == *data) by {
            let j = choose|j: int| 0 <= j < graph.nodes@.len() && (#[trigger] graph.nodes@[j]).0 == id;
            assert(j == i);
        }
    }
    let mut r: Vec<(u64, u64)> = Vec::new();
    if text_eq(data.definition_name.as_str(), VIRTUAL_OUTPUT_SINK_NAME) {
        return r;
    }
    let def = match library.get_definition(data.definition_name.as_str()) {
        Some(d) => d,
        None => return r,
    };
    let n_inputs = def.node.inputs.len();
    let mut idx: usize = 0;
    while idx < n_inputs
        invariant
            graph.wf(),
            n_inputs == def.node.inputs@.len(),
            idx <= n_inputs,
            r@ == inputs_read_edges(graph.wires@, id, idx as int),
            forall|x: u64, y: u64| #[trigger] has_edge(r@, x, y) <==> (x == id.0 && exists|k: int|
                0 <= k < graph.wires@.len() && (#[trigger] graph.wires@[k]).to.node == id
                    && graph.wires@[k].from.node.0 == y && graph.wires@[k].to.input < idx),
        decreases n_inputs - idx,
    {
        let mut k: usize = 0;
        let ghost base = r@;
        while k < graph.wires.len()
            invariant
                idx < n_inputs,
                k <= graph.wires@.len(),
                r@ == base + graph.wires@.take(k as int).filter(wire_into(id, idx as int)).map_values(read_pair(id)),
                forall|x: u64, y: u64| #[trigger] has_edge(r@, x, y) <==> (x == id.0 && exists|t: int|
                    0 <= t < graph.wires@.len() && (#[trigger] graph.wires@[t]).to.node == id
                        && graph.wires@[t].from.node.0 == y && (graph.wires@[t].to.input < idx || (
                    graph.wires@[t].to.input == idx && t < k))),
            decreases graph.wires.len() - k,
        {
            let w = graph.wires[k];
            let ghost before = r@;
            proof {
                lemma_filter_take_step(graph.wires@, wire_into(id, idx as int), k as int);
                assert(graph.wires@[k as int] == w);
            }
            if w.to.node == id && w.to.input == idx {
                r.push((id.0, w.from.node.0));
                assert(graph.wires@.take(k + 1).filter(wire_into(id, idx as int)).map_values(read_pair(id)) =~= graph.wires@.take(
                    k as int,
                ).filter(wire_into(id, idx as int)).map_values(read_pair(id)).push((id.0, w.from.node.0)));
            }
            proof {
                assert forall|x: u64, y: u64| #[trigger] has_edge(r@, x, y) <==> (x == id.0 && exists|t: int|
                    0 <= t < graph.wires@.len() && (#[trigger] graph.wires@[t]).to.node == id
                        && graph.wires@[t].from.node.0 == y && (graph.wires@[t].to.input < idx || (
                    graph.wires@[t].to.input == idx && t < k + 1))) by {
                    if has_edge(r@, x, y) && !has_edge(before, x, y) {
                        let j = choose|j: int| 0 <= j < r@.len() && r@[j] == (x, y);
                        assert(j == before.len());
                        assert(graph.wires@[k as int] == w);
                    }
                    if has_edge(before, x, y) {
                        let j = choose|j: int| 0 <= j < before.len() && before[j] == (x, y);
                        assert(r@[j] == before[j]);
                    }
                    if x == id.0 && exists|t: int|
                        0 <= t < graph.wires@.len() && (#[trigger] graph.wires@[t]).to.node == id
                            && graph.wires@[t].from.node.0 == y && (graph.wires@[t].to.input < idx || (
                        graph.wires@[t].to.input == idx && t < k + 1)) {
                        let t = choose|t: int|
                            0 <= t < graph.wires@.len() && (#[trigger] graph.wires@[t]).to.node == id
                                && graph.wires@[t].from.node.0 == y && (graph.wires@[t].to.input < idx || (
                            graph.wires@[t].to.input == idx && t < k + 1));
                        if t == k && graph.wires@[t].to.input == idx {
                            assert(graph.wires@[k as int] == w);
                            assert(r@ == before.push((id.0, w.from.node.0)));
                            assert(r@[before.len() as int] == (x, y));
                        } else {
                            assert(has_edge(before, x, y));
                            let j = choose|j: int| 0 <= j < before.len() && before[j] == (x, y);
                            assert(r@[j] == (x, y));
                        }
                    }
                }
            }
            k = k + 1;
        }
        proof {
            lemma_filter_take_all(graph.wires@, wire_into(id, idx as int));
        }
        idx = idx + 1;
    }
    proof {
        assert forall|x: u64, y: u64| #[trigger] has_edge(r@, x, y) <==> (x == graph.nodes@[i as int].0.0
            && reads_from(*graph, library@)(x, y)) by {
            if x == a {
                assert(SnarlNodeId(x) == id);
                if reads_from(*graph, library@)(x, y) {
                    let k = choose|k: int|
                        0 <= k < graph.wires@.len() && (#[trigger] graph.wires@[k]).to.node.0 == x
                            && graph.wires@[k].from.node.0 == y && !is_sink(node_data(graph.nodes@, SnarlNodeId(x)))
                            && (find_def(library@, node_data(graph.nodes@, SnarlNodeId(x)).definition_name@) matches Some(d)
                            && graph.wires@[k].to.input < d.node.inputs@.len());
                    assert(graph.wires@[k].to.node == id);
                }
                if has_edge(r@, x, y) {
                    let k = choose|k: int|
                        0 <= k < graph.wires@.len() && (#[trigger] graph.wires@[k]).to.node == id
                            && graph.wires@[k].from.node.0 == y && graph.wires@[k].to.input < idx;
                    assert(graph.wires@[k].to.node.0 == x);
                }
            }
        }
    }
    r
}

/// All read edges of the graph, grouped by reading node in node order.
fn read_edges(graph: &EditorGraph, library: &NodeLibrary) -> (r: Vec<(u64, u64)>)
    requires
        graph.wf(),
    ensures
        r@ == read_edge_seq(*graph, library@, graph.nodes@.len() as int),
        forall|x: u64, y: u64| #[trigger] has_edge(r@, x, y) <==> reads_from(*graph, library@)(x, y),
{
    let mut r: Vec<(u64, u64)> = Vec::new();
    let mut i: usize = 0;
    while i < graph.nodes.len()
        invariant
            graph.wf(),
            i <= graph.nodes@.len(),
            r@ == read_edge_seq(*graph, library@, i as int),
            forall|x: u64, y: u64| #[trigger] has_edge(r@, x, y) <==> (exists|j: int|
                0 <= j < i && (#[trigger] graph.nodes@[j]).0.0 == x) && reads_from(*graph, library@)(x, y),
        decreases graph.nodes.len() - i,
    {
        let part = node_read_edges(graph, library, i);
        let ghost before = r@;
        let mut k: usize = 0;
        while k < part.len()
            invariant
                k <= part@.len(),
                r@ == before + part@.take(k as int),
            decreases part.len() - k,
        {
            r.push(part[k]);
            assert(part@.take(k + 1) =~= part@.take(k as int).push(part@[k as int]));
            k = k + 1;
        }
        assert(part@.take(k as int) =~= part@);
        proof {
            assert forall|x: u64, y: u64| #[trigger] has_edge(r@, x, y) <==> (exists|j: int|
                0 <= j < i + 1 && (#[trigger] graph.nodes@[j]).0.0 == x) && reads_from(*graph, library@)(x, y) by {
                if has_edge(r@, x, y) {
                    let t = choose|t: int| 0 <= t < r@.len() && r@[t] == (x, y);
                    if t < before.len() {
                        assert(before[t] == (x, y));
                        assert(has_edge(before, x, y));
                    } else {
                        assert(part@[t - before.len()] == (x, y));
                        assert(has_edge(part@, x, y));
                    }
                }
                if (exists|j: int| 0 <= j < i + 1 && (#[trigger] graph.nodes@[j]).0.0 == x) && reads_from(*graph, library@)(x, y) {
                    let j = choose|j: int| 0 <= j < i + 1 && (#[trigger] graph.nodes@[j]).0.0 == x;
                    if j < i {
                        assert(has_edge(before, x, y));
                        let t = choose|t: int| 0 <= t < before.len() && before[t] == (x, y);
                        assert(r@[t] == (x, y));
                    } else {
                        assert(has_edge(part@, x, y));
                        let t = choose|t: int| 0 <= t < part@.len() && part@[t] == (x, y);
                        assert(r@[before.len() + t] == (x, y));
                    }
                }
            }
        }
        i = i + 1;
    }
    proof {
        assert forall|x: u64, y: u64| #[trigger] has_edge(r@, x, y) <==> reads_from(*graph, library@)(x, y) by {
            if reads_from(*graph, library@)(x, y) {
                let k = choose|k: int|
                    0 <= k < graph.wires@.len() && (#[trigger] graph.wires@[k]).to.node.0 == x
                        && graph.wires@[k].from.node.0 == y && !is_sink(node_data(graph.nodes@, SnarlNodeId(x)))
                        && (find_def(library@, node_data(graph.nodes@, SnarlNodeId(x)).definition_name@) matches Some(d)
                        && graph.wires@[k].to.input < d.node.inputs@.len());
                let w = graph.wires@[k];
                assert(has_node(graph.nodes@, w.to.node));
                let j = choose|j: int| 0 <= j < graph.nodes@.len() && (#[trigger] graph.nodes@[j]).0 == w.to.node;
                assert(graph.nodes@[j].0.0 == x);
            }
        }
    }
    r
}

} // verus!

verus! {

/// The node wired into the sink is the source of some wire.
proof fn lemma_first_feeder_source(ws: Seq<Wire>, t: SnarlNodeId)
    ensures
        first_feeder(ws, t) matches Some(s) ==> exists|k: int| 0 <= k < ws.len() && (#[trigger] ws[k]).from.node == s,
    decreases ws.len(),
{
    if ws.len() > 0 && ws[0].to.node != t {
        lemma_first_feeder_source(ws.drop_first(), t);
        if let Some(s) = first_feeder(ws, t) {
            let k = choose|k: int| 0 <= k < ws.drop_first().len() && (#[trigger] ws.drop_first()[k]).from.node == s;
            assert(ws[k + 1] == ws.drop_first()[k]);
        }
    }
}

/// Every node reached from a node of the graph is a node of the graph.
proof fn lemma_reached_in_graph(g: EditorGraph, defs: Seq<NodeDefinition>, src: u64, x: u64)
    requires
        g.wf(),
        has_node(g.nodes@, SnarlNodeId(src)),
        rel_reachable(reads_from(g, defs), src, x),
    ensures
        has_node(g.nodes@, SnarlNodeId(x)),
{
    if x != src {
        let rel = reads_from(g, defs);
        let p = choose|p: Seq<u64>| #[trigger] is_rel_path(rel, p) && p[0] == src && p.last() == x;
        let n = p.len() - 2;
        assert(rel(p[n], p[n + 1]));
        let k = choose|k: int| 0 <= k < g.wires@.len() && (#[trigger] g.wires@[k]).from.node.0 == p[n + 1];
        assert(has_node(g.nodes@, g.wires@[k].from.node));
        assert(g.wires@[k].from.node == SnarlNodeId(x));
    }
}

/// Whether some wire feeds input `idx` of node `n`.
fn is_input_wired(wires: &Vec<Wire>, n: SnarlNodeId, idx: usize) -> (r: bool)
    ensures
        r == input_wired(wires@, n, idx as int),
{
    let mut k: usize = 0;
    while k < wires.len()
        invariant
            k <= wires@.len(),
            forall|t: int| 0 <= t < k ==> !((#[trigger] wires@[t]).to.node == n && wires@[t].to.input == idx),
        decreases wires.len() - k,
    {
        if wires[k].to.node == n && wires[k].to.input == idx {
            return true;
        }
        k = k + 1;
    }
    false
}

/// "Unknown node '<name>'."
fn unknown_node_message(name: &str) -> (r: String)
    ensures
        r@ == "Unknown node '"@ + name@ + "'."@,
{
    let mut s = String::from_str("Unknown node '");
    s.append(name);
    s.append("'.");
    s
}

/// "'<node>' is missing required input '<input>'."
fn missing_input_message(node: &str, input: &str) -> (r: String)
    ensures
        r@ == "'"@ + node@ + "' is missing required input '"@ + input@ + "'."@,
{
    let mut s = String::from_str("'");
    s.append(node);
    s.append("' is missing required input '");
    s.append(input);
    s.append("'.");
    s
}

/// The validation errors of node `nodes[i]`.
fn node_errors(graph: &EditorGraph, library: &NodeLibrary, i: usize) -> (r: Vec<String>)
    requires
        graph.wf(),
        i < graph.nodes@.len(),
    ensures
        views(r@) == node_sync_errors(*graph, library@, graph.nodes@[i as int].0.0),
{
    let id = graph.nodes[i].0;
    let data = &graph.nodes[i].1;
    proof {
        assert(SnarlNodeId(id.0) == id);
        assert(node_data(graph.nodes@, id) == *data) by {
            let j = choose|j: int| 0 <= j < graph.nodes@.len() && (#[trigger] graph.nodes@[j]).0 == id;
            assert(j == i);
        }
    }
    let mut r: Vec<String> = Vec::new();
    let def = match library.get_definition(data.definition_name.as_str()) {
        Some(d) => d,
        None => {
            r.push(unknown_node_message(data.definition_name.as_str()));
            assert(views(r@) =~= seq!["Unknown node '"@ + data.definition_name@ + "'."@]);
            return r;
        },
    };
    let n_inputs = def.node.inputs.len();
    let mut idx: usize = 0;
    while idx < n_inputs
        invariant
            graph.wf(),
            *data == node_data(graph.nodes@, id),
            n_inputs == def.node.inputs@.len(),
            idx <= n_inputs,
            views(r@) == input_errors(*graph, id, *def, idx as nat),
        decreases n_inputs - idx,
    {
        let input = &def.node.inputs[idx];
        let wired = is_input_wired(&graph.wires, id, idx);
        let ghost before = r@;
        if !(wired || data.input_values.contains_key(input.name.as_str()) || has_default(&input.kind)) {
            r.push(missing_input_message(def.node.name.as_str(), input.name.as_str()));
        }
        assert(views(r@) =~= input_errors(*graph, id, *def, (idx + 1) as nat)) by {
            assert(views(before.push(r@.last())) =~= views(before).push(r@.last()@));
        }
        idx = idx + 1;
    }
    r
}

/// The (name, value) pairs set on the engine node of a node with these
/// configured values, in declaration order.
fn plan_inputs(def: &NodeDefinition, values: &crate::values::InputValues) -> (r: Vec<(String, InputValue)>)
    ensures
        assignment_views(r@) == planned_inputs(def.node.inputs@, values@),
{
    let ghost inputs = def.node.inputs@;
    let mut r: Vec<(String, InputValue)> = Vec::new();
    let mut idx: usize = 0;
    while idx < def.node.inputs.len()
        invariant
            inputs == def.node.inputs@,
            idx <= inputs.len(),
            assignment_views(r@) == planned_inputs(inputs.take(idx as int), values@),
        decreases def.node.inputs.len() - idx,
    {
        let input = &def.node.inputs[idx];
        let ghost before = r@;
        assert(inputs.take(idx + 1).drop_last() =~= inputs.take(idx as int));
        assert(inputs.take(idx + 1).last() == *input);
        match values.get(input.name.as_str()) {
            Some(v) => {
                if !matches!(v, InputValue::Connection { .. }) {
                    r.push((input.name.clone(), v.clone()));
                }
            },
            None => {
                match default_input_value(input) {
                    Some(d) => r.push((input.name.clone(), d)),
                    None => {},
                }
            },
        }
        assert(assignment_views(r@) =~= planned_inputs(inputs.take(idx + 1), values@)) by {
            if r@.len() > before.len() {
                assert(r@ == before.push(r@.last()));
                assert(assignment_views(before.push(r@.last())) =~= assignment_views(before).push(
                    (r@.last().0@, r@.last().1@),
                ));
            }
        }
        idx = idx + 1;
    }
    assert(inputs.take(idx as int) =~= inputs);
    r
}

/// One engine connection per wire between planned nodes whose pins exist.
fn plan_connections(graph: &EditorGraph, library: &NodeLibrary, ordered: &Vec<u64>) -> (r: Vec<PlannedConnection>)
    requires
        graph.wf(),
    ensures
        connection_views(r@) == planned_connections(*graph, library@, ordered@, graph.wires@),
{
    let ghost ws = graph.wires@;
    let mut r: Vec<PlannedConnection> = Vec::new();
    let mut k: usize = 0;
    while k < graph.wires.len()
        invariant
            graph.wf(),
            ws == graph.wires@,
            k <= ws.len(),
            connection_views(r@) == planned_connections(*graph, library@, ordered@, ws.take(k as int)),
        decreases graph.wires.len() - k,
    {
        let w = graph.wires[k];
        let ghost before = r@;
        assert(ws.take(k + 1).drop_last() =~= ws.take(k as int));
        assert(ws.take(k + 1).last() == w);
        let fd = graph.node(w.from.node);
        let td = graph.node(w.to.node);
        if !text_eq(fd.definition_name.as_str(), VIRTUAL_OUTPUT_SINK_NAME) && !text_eq(
            td.definition_name.as_str(),
            VIRTUAL_OUTPUT_SINK_NAME,
        ) && contains_id(ordered, w.from.node.0) && contains_id(ordered, w.to.node.0) {
            match (library.get_definition(fd.definition_name.as_str()), library.get_definition(td.definition_name.as_str())) {
                (Some(a), Some(b)) => {
                    if w.from.output < a.node.outputs.len() && w.to.input < b.node.inputs.len() {
                        r.push(
                            PlannedConnection {
                                from: w.from.node,
                                from_output: a.node.outputs[w.from.output].name.clone(),
                                to: w.to.node,
                                to_input: b.node.inputs[w.to.input].name.clone(),
                            },
                        );
                    }
                },
                _ => {},
            }
        }
        assert(connection_views(r@) =~= planned_connections(*graph, library@, ordered@, ws.take(k + 1))) by {
            if r@.len() > before.len() {
                assert(r@ == before.push(r@.last()));
                let c = r@.last();
                assert(connection_views(before.push(c)) =~= connection_views(before).push(
                    (c.from, c.from_output@, c.to, c.to_input@),
                ));
            }
        }
        k = k + 1;
    }
    assert(ws.take(k as int) =~= ws);
    r
}

/// Walks the graph upstream from the node wired into the output sink,
/// validates every node it reaches and, when all are valid, plans the engine
/// graph: one engine node per reached node (the sink aside) and one
/// connection per wire between them.
pub fn sync_graph(graph: &EditorGraph, library: &NodeLibrary) -> (r: GraphSyncResult)
    requires
        graph.wf(),
    ensures
        match output_source(*graph) {
            None => r is NoOutput,
            Some(src) => visit_order(sync_visit_order(*graph, library@, src), reads_from(*graph, library@), src.0)
                && sync_outcome(*graph, library@, src, sync_visit_order(*graph, library@, src), r),
        },
{
    let src = match graph.output_source_snarl_node() {
        Some(s) => s,
        None => return GraphSyncResult::NoOutput,
    };
    let ghost rel = reads_from(*graph, library@);
    let ghost keep = not_sink_node(*graph);
    proof {
        lemma_first_feeder_source(graph.wires@, first_sink(graph.nodes@)->Some_0);
        let k = choose|k: int| 0 <= k < graph.wires@.len() && (#[trigger] graph.wires@[k]).from.node == src;
        assert(has_node(graph.nodes@, graph.wires@[k].from.node));
        assert(SnarlNodeId(src.0) == src);
    }
    let edges = read_edges(graph, library);
    let order = breadth_first_order(&edges, src.0);
    proof {
        assert forall|x: u64| #[trigger] order@.contains(x) <==> rel_reachable(rel, src.0, x) by {
            lemma_reachable_rel(edges@, rel, src.0, x);
        }
        assert(visit_order(order@, rel, src.0));
    }
    let mut ordered: Vec<u64> = Vec::new();
    let mut idxs: Vec<usize> = Vec::new();
    let mut errors: Vec<String> = Vec::new();
    let mut j: usize = 0;
    while j < order.len()
        invariant
            graph.wf(),
            has_node(graph.nodes@, src),
            rel == reads_from(*graph, library@),
            keep == not_sink_node(*graph),
            forall|x: u64| #[trigger] order@.contains(x) ==> rel_reachable(rel, src.0, x),
            j <= order@.len(),
            ordered@ == order@.take(j as int).filter(keep),
            idxs@.len() == ordered@.len(),
            forall|t: int|
                0 <= t < idxs@.len() ==> #[trigger] idxs@[t] < graph.nodes@.len() && graph.nodes@[idxs@[t] as int].0.0
                    == ordered@[t],
            views(errors@) == all_sync_errors(*graph, library@, ordered@),
        decreases order.len() - j,
    {
        let x = order[j];
        proof {
            lemma_filter_take_step(order@, keep, j as int);
            assert(order@.contains(x));
            lemma_reached_in_graph(*graph, library@, src.0, x);
        }
        let i = graph.node_index(SnarlNodeId(x)).unwrap();
        if !text_eq(graph.nodes[i].1.definition_name.as_str(), VIRTUAL_OUTPUT_SINK_NAME) {
            let mut errs = node_errors(graph, library, i);
            let ghost before_errors = errors@;
            let ghost before_ordered = ordered@;
            let ghost es = errs@;
            errors.append(&mut errs);
            ordered.push(x);
            idxs.push(i);
            proof {
                assert(ordered@.drop_last() =~= before_ordered);
                assert(views(errors@) =~= views(before_errors) + views(es));
            }
        }
        j = j + 1;
    }
    proof {
        lemma_filter_take_all(order@, keep);
    }
    if errors.len() > 0 {
        return GraphSyncResult::Invalid(errors);
    }
    if text_eq(graph.node(src).definition_name.as_str(), VIRTUAL_OUTPUT_SINK_NAME) {
        return GraphSyncResult::NoOutput;
    }
    let mut nodes: Vec<PlannedNode> = Vec::new();
    let mut t: usize = 0;
    while t < idxs.len()
        invariant
            graph.wf(),
            idxs@.len() == ordered@.len(),
            forall|u: int|
                0 <= u < idxs@.len() ==> #[trigger] idxs@[u] < graph.nodes@.len() && graph.nodes@[idxs@[u] as int].0.0
                    == ordered@[u],
            t <= idxs@.len(),
            nodes@.len() == t,
            forall|u: int| 0 <= u < t ==> planned_node_matches(*graph, library@, #[trigger] nodes@[u], ordered@[u]),
        decreases idxs.len() - t,
    {
        let i = idxs[t];
        let id = graph.nodes[i].0;
        let data = &graph.nodes[i].1;
        proof {
            assert(idxs@[t as int] < graph.nodes@.len());
            assert(SnarlNodeId(ordered@[t as int]) == id);
            assert(node_data(graph.nodes@, id) == *data) by {
                let q = choose|q: int| 0 <= q < graph.nodes@.len() && (#[trigger] graph.nodes@[q]).0 == id;
                assert(q == i);
            }
        }
        let inputs = match library.get_definition(data.definition_name.as_str()) {
            Some(d) => plan_inputs(d, &data.input_values),
            None => Vec::new(),
        };
        nodes.push(
            PlannedNode {
                snarl_id: id,
                engine_node_id: data.engine_node_id,
                definition_name: data.definition_name.clone(),
                inputs,
            },
        );
        t = t + 1;
    }
    let connections = plan_connections(graph, library, &ordered);
    let r = GraphSyncResult::Valid { nodes, connections, output_node: src };
    assert(sync_outcome(*graph, library@, src, order@, r));
    r
}

/// The engine id a planned node gets: the one it had, else its fresh id.
pub open spec fn planned_engine_id(p: PlannedNode, fresh: EngineNodeId) -> EngineNodeId {
    match p.engine_node_id {
        Some(e) => e,
        None => fresh,
    }
}

/// A list of input assignments as a map: a later assignment of a name wins.
pub open spec fn assignments_map(s: Seq<(Seq<char>, InputValueView)>) -> Map<Seq<char>, InputValueView>
    decreases s.len(),
{
    if s.len() == 0 {
        Map::empty()
    } else {
        assignments_map(s.drop_last()).insert(s.last().0, s.last().1)
    }
}

/// The engine graph after the first `k` planned nodes were created with
/// their input values.
pub open spec fn plan_nodes_model(
    nodes: Seq<PlannedNode>,
    fresh: Seq<EngineNodeId>,
    k: int,
) -> Map<EngineNodeId, (Seq<char>, Map<Seq<char>, InputValueView>)>
    decreases k,
{
    if k <= 0 {
        Map::empty()
    } else {
        plan_nodes_model(nodes, fresh, k - 1).insert(
            planned_engine_id(nodes[k - 1], fresh[k - 1]),
            (nodes[k - 1].definition_name@, assignments_map(assignment_views(nodes[k - 1].inputs@))),
        )
    }
}

/// The editor-to-engine id pairs of the planned nodes, in plan order.
pub open spec fn plan_engine_ids(nodes: Seq<PlannedNode>, fresh: Seq<EngineNodeId>) -> Seq<(SnarlNodeId, EngineNodeId)> {
    Seq::new(nodes.len(), |k: int| (nodes[k].snarl_id, planned_engine_id(nodes[k], fresh[k])))
}

/// The engine id the last pair for editor node `id` holds.
pub open spec fn engine_id_of(m: Seq<(SnarlNodeId, EngineNodeId)>, id: SnarlNodeId) -> Option<EngineNodeId>
    decreases m.len(),
{
    if m.len() == 0 {
        None
    } else if m.last().0 == id {
        Some(m.last().1)
    } else {
        engine_id_of(m.drop_last(), id)
    }
}

/// The engine graph after the first `j` planned connections were made
/// between created nodes.
pub open spec fn plan_connections_model(
    base: Map<EngineNodeId, (Seq<char>, Map<Seq<char>, InputValueView>)>,
    conns: Seq<PlannedConnection>,
    ids: Seq<(SnarlNodeId, EngineNodeId)>,
    j: int,
) -> Map<EngineNodeId, (Seq<char>, Map<Seq<char>, InputValueView>)>
    decreases j,
{
    if j <= 0 {
        base
    } else {
        let prev = plan_connections_model(base, conns, ids, j - 1);
        let c = conns[j - 1];
        match (engine_id_of(ids, c.from), engine_id_of(ids, c.to)) {
            (Some(f), Some(t)) => if prev.contains_key(f) && prev.contains_key(t) {
                prev.insert(
                    t,
                    (prev[t].0, prev[t].1.insert(c.to_input@, InputValueView::Connection { from_node: f, from_output: c.from_output@ })),
                )
            } else {
                prev
            },
            _ => prev,
        }
    }
}

/// See [engine_id_of].
fn find_engine_id(m: &Vec<(SnarlNodeId, EngineNodeId)>, id: SnarlNodeId) -> (r: Option<EngineNodeId>)
    ensures
        r == engine_id_of(m@, id),
{
    let mut i: usize = m.len();
    assert(m@.take(i as int) =~= m@);
    while i > 0
        invariant
            i <= m@.len(),
            engine_id_of(m@, id) == engine_id_of(m@.take(i as int), id),
        decreases i,
    {
        assert(m@.take(i as int).drop_last() =~= m@.take(i - 1));
        if m[i - 1].0 == id {
            return Some(m[i - 1].1);
        }
        i = i - 1;
    }
    None
}

/// Creates the engine graph a sync plan describes: each planned node under
/// its engine id (its old one, else `fresh[k]` for the node at position
/// `k`) with its input values, then each planned connection whose ends were
/// created. Returns the graph and the editor-to-engine id pairs.
pub fn apply_sync_plan(
    nodes: &Vec<PlannedNode>,
    connections: &Vec<PlannedConnection>,
    fresh: &Vec<EngineNodeId>,
) -> (r: (NodeGraph, Vec<(SnarlNodeId, EngineNodeId)>))
    requires
        fresh@.len() >= nodes@.len(),
    ensures
        r.0.wf(),
        r.1@ == plan_engine_ids(nodes@, fresh@),
        graph_model(r.0) == plan_connections_model(
            plan_nodes_model(nodes@, fresh@, nodes@.len() as int),
            connections@,
            r.1@,
            connections@.len() as int,
        ),
{
    let mut graph = NodeGraph::new();
    let mut ids: Vec<(SnarlNodeId, EngineNodeId)> = Vec::new();
    proof {
        assert(graph_model(graph) =~= plan_nodes_model(nodes@, fresh@, 0));
    }
    let mut k: usize = 0;
    while k < nodes.len()
        invariant
            fresh@.len() >= nodes@.len(),
            k <= nodes@.len(),
            graph.wf(),
            graph_model(graph) == plan_nodes_model(nodes@, fresh@, k as int),
            ids@ == plan_engine_ids(nodes@, fresh@).take(k as int),
        decreases nodes.len() - k,
    {
        let p = &nodes[k];
        let eid = match p.engine_node_id {
            Some(e) => e,
            None => fresh[k],
        };
        let ghost base = graph_model(graph);
        graph.add_instance_with_id(eid, p.definition_name.clone());
        let mut j: usize = 0;
        while j < p.inputs.len()
            invariant
                j <= p.inputs@.len(),
                graph.wf(),
                graph_model(graph) == base.insert(
                    eid,
                    (p.definition_name@, assignments_map(assignment_views(p.inputs@.take(j as int)))),
                ),
            decreases p.inputs.len() - j,
        {
            proof {
                assert(assignment_views(p.inputs@.take(j + 1)).drop_last() =~= assignment_views(p.inputs@.take(j as int)));
            }
            let (name, value) = &p.inputs[j];
            graph.set_input_value(eid, name.clone(), value.clone());
            j = j + 1;
        }
        proof {
            assert(p.inputs@.take(j as int) =~= p.inputs@);
        }
        ids.push((p.snarl_id, eid));
        proof {
            assert(ids@ =~= plan_engine_ids(nodes@, fresh@).take(k + 1));
        }
        k = k + 1;
    }
    proof {
        assert(ids@ =~= plan_engine_ids(nodes@, fresh@));
    }
    let ghost base = graph_model(graph);
    let mut j: usize = 0;
    while j < connections.len()
        invariant
            j <= connections@.len(),
            graph.wf(),
            graph_model(graph) == plan_connections_model(base, connections@, ids@, j as int),
        decreases connections.len() - j,
    {
        let c = &connections[j];
        match (find_engine_id(&ids, c.from), find_engine_id(&ids, c.to)) {
            (Some(f), Some(t)) => {
                let _ = graph.connect(f, c.from_output.clone(), t, c.to_input.clone());
            },
            _ => {},
        }
        j = j + 1;
    }
    (graph, ids)
}

/// Records on each editor node the engine id it was given, so selecting it
/// later finds its engine node; nodes without a pair keep theirs.
pub fn write_back_engine_ids(graph: &mut EditorGraph, ids: &Vec<(SnarlNodeId, EngineNodeId)>)
    requires
        old(graph).wf(),
    ensures
        final(graph).wf(),
        final(graph).wires == old(graph).wires,
        final(graph).nodes@.len() == old(graph).nodes@.len(),
        forall|i: int|
            0 <= i < old(graph).nodes@.len() ==> {
                let before = old(graph).nodes@[i];
                let after = #[trigger] final(graph).nodes@[i];
                &&& after.0 == before.0
                &&& after.1.definition_name == before.1.definition_name
                &&& after.1.input_values == before.1.input_values
                &&& after.1.engine_node_id == match engine_id_of(ids@, before.0) {
                    Some(e) => Some(e),
                    None => before.1.engine_node_id,
                }
            },
{
    let ghost before = graph.nodes@;
    let mut rest: Vec<(SnarlNodeId, NodeData)> = Vec::new();
    std::mem::swap(&mut rest, &mut graph.nodes);
    let n = rest.len();
    let mut done: Vec<(SnarlNodeId, NodeData)> = Vec::new();
    let mut i: usize = 0;
    while i < n
        invariant
            n == before.len(),
            i <= n,
            rest@ == before.skip(i as int),
            done@.len() == i,
            forall|j: int|
                0 <= j < i ==> {
                    let b = before[j];
                    let a = #[trigger] done@[j];
                    &&& a.0 == b.0
                    &&& a.1.definition_name == b.1.definition_name
                    &&& a.1.input_values == b.1.input_values
                    &&& a.1.engine_node_id == match engine_id_of(ids@, b.0) {
                        Some(e) => Some(e),
                        None => b.1.engine_node_id,
                    }
                },
        decreases n - i,
    {
        assert(rest@[0] == before[i as int]);
        let (id, mut data) = rest.remove(0);
        match find_engine_id(ids, id) {
            Some(e) => {
                data.engine_node_id = Some(e);
            },
            None => {},
        }
        done.push((id, data));
        assert(rest@ =~= before.skip(i + 1));
        i = i + 1;
    }
    graph.nodes = done;
    proof {
        assert forall|a: int, b: int|
            0 <= a < graph.nodes@.len() && 0 <= b < graph.nodes@.len() && a != b implies (
            #[trigger] graph.nodes@[a]).0 != (#[trigger] graph.nodes@[b]).0 by {
            assert(graph.nodes@[a].0 == before[a].0);
            assert(graph.nodes@[b].0 == before[b].0);
        }
        assert forall|k: int| 0 <= k < graph.wires@.len() implies has_node(graph.nodes@, (#[trigger] graph.wires@[k]).from.node)
            && has_node(graph.nodes@, graph.wires@[k].to.node) by {
            let x = choose|i: int| 0 <= i < before.len() && (#[trigger] before[i]).0 == graph.wires@[k].from.node;
            let y = choose|i: int| 0 <= i < before.len() && (#[trigger] before[i]).0 == graph.wires@[k].to.node;
            assert(graph.nodes@[x].0 == before[x].0);
            assert(graph.nodes@[y].0 == before[y].0);
        }
    }
}

} // verus!
