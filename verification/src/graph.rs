//! The editor's node graph: nodes with their configured inputs, the wires
//! between pins, the virtual output sink, and the rules the editor enforces
//! on it (no self-connections, no cycles, one wire per input, compatible pin
//! kinds, a valid chain of nodes upstream of the output).
use vstd::prelude::*;
use vstd::string::StringExecFns;
use crate::library::{NodeLibrary, find_def, has_name};
use crate::reach::{
    contains_id, has_edge, lemma_closed_contains_reachable, lemma_reachable_refl, lemma_reachable_step,
    lemma_reachable_trans, reachable, reachable_from, depth_first_order, dfs_order,
};
use crate::schema::{
    BuiltInHandler, EngineNodeId, InputValue, InputValueView, NodeDefinition, NodeExecutionPlan,
    NodeInputKind, are_pin_kinds_compatible, spec_pin_kinds_compatible,
};
use crate::text::text_eq;
use crate::values::InputValues;

verus! {

/// The name of the editor's virtual output sink node.
pub const VIRTUAL_OUTPUT_SINK_NAME: &'static str = "__virtual_output_sink__";

/// The id of a node in the editor graph.
#[derive(Clone, Copy, Debug, PartialEq, Eq, Structural, Hash)]
pub struct SnarlNodeId(pub u64);

/// An output pin: a node and the index of one of its outputs.
#[derive(Clone, Copy, Debug, PartialEq, Eq, Structural, Hash)]
pub struct OutPinId {
    pub node: SnarlNodeId,
    pub output: usize,
}

/// An input pin: a node and the index of one of its inputs.
#[derive(Clone, Copy, Debug, PartialEq, Eq, Structural, Hash)]
pub struct InPinId {
    pub node: SnarlNodeId,
    pub input: usize,
}

/// A wire from an output pin to an input pin.
#[derive(Clone, Copy, Debug, PartialEq, Eq, Structural, Hash)]
pub struct Wire {
    pub from: OutPinId,
    pub to: InPinId,
}

/// A node of the editor graph: its definition's name and configured inputs.
#[derive(Debug)]
pub struct NodeData {
    pub definition_name: String,
    /// Configured input values for this node.
    pub input_values: InputValues,
    /// Engine node id, if this node is currently in the engine graph.
    pub engine_node_id: Option<EngineNodeId>,
}

/// The editor graph: its nodes (ids unique) and the wires between them (both
/// ends of a wire are nodes of the graph).
#[derive(Debug)]
pub struct EditorGraph {
    pub nodes: Vec<(SnarlNodeId, NodeData)>,
    pub wires: Vec<Wire>,
}

/// `id` is a node of the graph.
pub open spec fn has_node(nodes: Seq<(SnarlNodeId, NodeData)>, id: SnarlNodeId) -> bool {
    exists|i: int| 0 <= i < nodes.len() && (#[trigger] nodes[i]).0 == id
}

/// The data of node `id` (ids are unique).
pub open spec fn node_data(nodes: Seq<(SnarlNodeId, NodeData)>, id: SnarlNodeId) -> NodeData {
    nodes[choose|i: int| 0 <= i < nodes.len() && (#[trigger] nodes[i]).0 == id].1
}

/// A node is the virtual output sink.
pub open spec fn is_sink(d: NodeData) -> bool {
    d.definition_name@ == VIRTUAL_OUTPUT_SINK_NAME@
}

/// Wires as engine-free edges from the wire's source node to its target node.
pub open spec fn downstream_edges(wires: Seq<Wire>) -> Seq<(u64, u64)> {
    wires.map_values(|w: Wire| (w.from.node.0, w.to.node.0))
}

/// Wires as edges from the wire's target node back to its source node.
pub open spec fn upstream_edges(wires: Seq<Wire>) -> Seq<(u64, u64)> {
    wires.map_values(|w: Wire| (w.to.node.0, w.from.node.0))
}

/// The first node (in node order) that is the output sink.
pub open spec fn first_sink(nodes: Seq<(SnarlNodeId, NodeData)>) -> Option<SnarlNodeId>
    decreases nodes.len(),
{
    if nodes.len() == 0 {
        None
    } else if is_sink(nodes[0].1) {
        Some(nodes[0].0)
    } else {
        first_sink(nodes.drop_first())
    }
}

/// The source node of the first wire (in wire order) into node `target`.
pub open spec fn first_feeder(wires: Seq<Wire>, target: SnarlNodeId) -> Option<SnarlNodeId>
    decreases wires.len(),
{
    if wires.len() == 0 {
        None
    } else if wires[0].to.node == target {
        Some(wires[0].from.node)
    } else {
        first_feeder(wires.drop_first(), target)
    }
}

/// The node wired into the output sink, if there is a sink and a wire into it.
pub open spec fn output_source(g: EditorGraph) -> Option<SnarlNodeId> {
    match first_sink(g.nodes@) {
        Some(sink) => first_feeder(g.wires@, sink),
        None => None,
    }
}

impl EditorGraph {
    /// Node ids are unique and every wire connects two nodes of the graph.
    pub open spec fn wf(&self) -> bool {
        &&& forall|i: int, j: int|
            0 <= i < self.nodes@.len() && 0 <= j < self.nodes@.len() && i != j ==> (
            #[trigger] self.nodes@[i]).0 != (#[trigger] self.nodes@[j]).0
        &&& forall|k: int|
            0 <= k < self.wires@.len() ==> has_node(self.nodes@, (#[trigger] self.wires@[k]).from.node)
                && has_node(self.nodes@, self.wires@[k].to.node)
    }

    /// An empty graph.
    pub fn new() -> (r: Self)
        ensures
            r.wf(),
            r.nodes@.len() == 0,
            r.wires@.len() == 0,
    {
        EditorGraph { nodes: Vec::new(), wires: Vec::new() }
    }

    /// Index of node `id`, if present.
    pub fn node_index(&self, id: SnarlNodeId) -> (r: Option<usize>)
        requires
            self.wf(),
        ensures
            match r {
                Some(i) => i < self.nodes@.len() && self.nodes@[i as int].0 == id && node_data(
                    self.nodes@,
                    id,
                ) == self.nodes@[i as int].1,
                None => !has_node(self.nodes@, id),
            },
    {
        let mut i: usize = 0;
        while i < self.nodes.len()
            invariant
                self.wf(),
                i <= self.nodes@.len(),
                forall|j: int| 0 <= j < i ==> (#[trigger] self.nodes@[j]).0 != id,
            decreases self.nodes.len() - i,
        {
            if self.nodes[i].0 == id {
                let ghost j = choose|j: int| 0 <= j < self.nodes@.len() && (#[trigger] self.nodes@[j]).0 == id;
                assert(j == i);
                return Some(i);
            }
            i = i + 1;
        }
        None
    }

    /// The data of node `id`.
    pub fn node(&self, id: SnarlNodeId) -> (r: &NodeData)
        requires
            self.wf(),
            has_node(self.nodes@, id),
        ensures
            *r == node_data(self.nodes@, id),
    {
        let i = self.node_index(id).unwrap();
        &self.nodes[i].1
    }

    /// The output sink node, if the graph has one.
    pub fn output_sink_node(&self) -> (r: Option<SnarlNodeId>)
        ensures
            r == first_sink(self.nodes@),
    {
        let mut i: usize = 0;
        assert(self.nodes@.skip(0) =~= self.nodes@);
        while i < self.nodes.len()
            invariant
                i <= self.nodes@.len(),
                first_sink(self.nodes@) == first_sink(self.nodes@.skip(i as int)),
            decreases self.nodes.len() - i,
        {
            assert(self.nodes@.skip(i as int)[0] == self.nodes@[i as int]);
            if text_eq(self.nodes[i].1.definition_name.as_str(), VIRTUAL_OUTPUT_SINK_NAME) {
                return Some(self.nodes[i].0);
            }
            assert(self.nodes@.skip(i as int).drop_first() =~= self.nodes@.skip(i + 1));
            i = i + 1;
        }
        None
    }

    /// The node wired into the output sink.
    pub fn output_source_snarl_node(&self) -> (r: Option<SnarlNodeId>)
        ensures
            r == output_source(*self),
    {
        let sink = match self.output_sink_node() {
            Some(sink) => sink,
            None => return None,
        };
        let mut k: usize = 0;
        assert(self.wires@.skip(0) =~= self.wires@);
        while k < self.wires.len()
            invariant
                k <= self.wires@.len(),
                first_sink(self.nodes@) == Some(sink),
                first_feeder(self.wires@, sink) == first_feeder(self.wires@.skip(k as int), sink),
            decreases self.wires.len() - k,
        {
            assert(self.wires@.skip(k as int)[0] == self.wires@[k as int]);
            if self.wires[k].to.node == sink {
                return Some(self.wires[k].from.node);
            }
            assert(self.wires@.skip(k as int).drop_first() =~= self.wires@.skip(k + 1));
            k = k + 1;
        }
        None
    }

    /// The wires as (source node, target node) edges, or reversed.
    fn edges(&self, upstream: bool) -> (r: Vec<(u64, u64)>)
        ensures
            r@ == (if upstream {
                upstream_edges(self.wires@)
            } else {
                downstream_edges(self.wires@)
            }),
    {
        let mut r: Vec<(u64, u64)> = Vec::new();
        let mut k: usize = 0;
        while k < self.wires.len()
            invariant
                k <= self.wires@.len(),
                r@ == (if upstream {
                    upstream_edges(self.wires@.take(k as int))
                } else {
                    downstream_edges(self.wires@.take(k as int))
                }),
            decreases self.wires.len() - k,
        {
            let w = self.wires[k];
            if upstream {
                r.push((w.to.node.0, w.from.node.0));
            } else {
                r.push((w.from.node.0, w.to.node.0));
            }
            assert(self.wires@.take(k + 1) =~= self.wires@.take(k as int).push(w));
            assert(upstream_edges(self.wires@.take(k + 1)) =~= upstream_edges(self.wires@.take(k as int)).push((w.to.node.0, w.from.node.0)));
            assert(downstream_edges(self.wires@.take(k + 1)) =~= downstream_edges(self.wires@.take(k as int)).push((w.from.node.0, w.to.node.0)));
            k = k + 1;
        }
        assert(self.wires@.take(k as int) =~= self.wires@);
        r
    }

    /// Whether wiring `from` into `to` would close a cycle: `from` can already
    /// be reached from `to` by following wires downstream (or is `to`).
    pub fn would_create_cycle(&self, from: SnarlNodeId, to: SnarlNodeId) -> (r: bool)
        ensures
            r == reachable(downstream_edges(self.wires@), to.0, from.0),
    {
        let edges = self.edges(false);
        let downstream = reachable_from(&edges, to.0);
        contains_id(&downstream, from.0)
    }

    /// Replaces every wire into the input pin `to` by one wire from `from`
    /// (each input takes at most one connection).
    pub fn connect_pins(&mut self, from: OutPinId, to: InPinId)
        requires
            old(self).wf(),
            has_node(old(self).nodes@, from.node),
            has_node(old(self).nodes@, to.node),
        ensures
            final(self).wf(),
            final(self).nodes@ == old(self).nodes@,
            final(self).wires@ == rewired(old(self).wires@, from, to),
    {
        let ghost ws = self.wires@;
        let ghost keep = |w: Wire| w.to != to;
        let mut kept: Vec<Wire> = Vec::new();
        let mut k: usize = 0;
        while k < self.wires.len()
            invariant
                ws == self.wires@,
                keep == (|w: Wire| w.to != to),
                k <= ws.len(),
                kept@ == ws.take(k as int).filter(keep),
            decreases self.wires.len() - k,
        {
            proof {
                crate::library::lemma_filter_take_step(ws, keep, k as int);
            }
            let w = self.wires[k];
            if w.to != to {
                kept.push(w);
            }
            k = k + 1;
        }
        proof {
            crate::library::lemma_filter_take_all(ws, keep);
        }
        kept.push(Wire { from, to });
        self.wires = kept;
        proof {
            assert forall|k: int| 0 <= k < self.wires@.len() implies has_node(self.nodes@, (#[trigger] self.wires@[k]).from.node)
                && has_node(self.nodes@, self.wires@[k].to.node) by {
                if k < self.wires@.len() - 1 {
                    let f = ws.filter(keep);
                    assert(self.wires@[k] == f[k]);
                    assert(f.contains(f[k]));
                    ws.lemma_filter_contains_rev(keep, f[k]);
                }
            }
        }
    }

    /// Adds the output sink if the graph has none, under the smallest node
    /// id not in use.
    pub fn ensure_output_sink(&mut self)
        requires
            old(self).wf(),
        ensures
            final(self).wf(),
            final(self).wires@ == old(self).wires@,
            first_sink(old(self).nodes@) is Some ==> final(self).nodes@ == old(self).nodes@,
            first_sink(old(self).nodes@) is None ==> {
                let added = final(self).nodes@.last();
                &&& final(self).nodes@.drop_last() == old(self).nodes@
                &&& final(self).nodes@.len() == old(self).nodes@.len() + 1
                &&& !has_node(old(self).nodes@, added.0)
                &&& forall|x: u64| x < added.0.0 ==> has_node(old(self).nodes@, SnarlNodeId(x))
                &&& is_sink(added.1)
                &&& added.1.input_values@ == Map::<Seq<char>, InputValueView>::empty()
                &&& added.1.engine_node_id is None
                &&& first_sink(final(self).nodes@) == Some(added.0)
            },
    {
        if self.output_sink_node().is_some() {
            return;
        }
        let ghost before = self.nodes@;
        let mut c: u64 = 0;
        while self.node_index(SnarlNodeId(c)).is_some()
            invariant
                self.wf(),
                self.nodes@ == before,
                forall|x: u64| x < c ==> has_node(before, SnarlNodeId(x)),
                c <= before.len(),
            decreases before.len() - c,
        {
            proof {
                assert forall|x: u64| x < c + 1 implies has_node(before, SnarlNodeId(x)) by {
                    if x < c {
                    }
                }
                lemma_used_ids_bound(before, (c + 1) as nat);
                assert(before.len() == self.nodes.len());
            }
            c = c + 1;
        }
        let ghost fresh = SnarlNodeId(c);
        let data = NodeData {
            definition_name: String::from_str(VIRTUAL_OUTPUT_SINK_NAME),
            input_values: InputValues::new(),
            engine_node_id: None,
        };
        proof {
            lemma_first_sink_push(before, (fresh, data));
        }
        let mut nodes: Vec<(SnarlNodeId, NodeData)> = Vec::new();
        std::mem::swap(&mut nodes, &mut self.nodes);
        nodes.push((SnarlNodeId(c), data));
        self.nodes = nodes;
        proof {
            assert(self.nodes@.drop_last() =~= before);
            assert forall|i: int, j: int|
                0 <= i < self.nodes@.len() && 0 <= j < self.nodes@.len() && i != j implies (
                #[trigger] self.nodes@[i]).0 != (#[trigger] self.nodes@[j]).0 by {
                if i == before.len() {
                    assert(before[j].0 != fresh);
                } else if j == before.len() {
                    assert(before[i].0 != fresh);
                }
            }
            assert forall|k: int| 0 <= k < self.wires@.len() implies has_node(
                self.nodes@,
                (#[trigger] self.wires@[k]).from.node,
            ) && has_node(self.nodes@, self.wires@[k].to.node) by {
                let a = choose|i: int| 0 <= i < before.len() && (#[trigger] before[i]).0 == self.wires@[k].from.node;
                let b = choose|i: int| 0 <= i < before.len() && (#[trigger] before[i]).0 == self.wires@[k].to.node;
                assert(self.nodes@[a] == before[a]);
                assert(self.nodes@[b] == before[b]);
            }
        }
    }
}

/// When node ids `0..c` are all in use, there are at least `c` nodes.
proof fn lemma_used_ids_bound(nodes: Seq<(SnarlNodeId, NodeData)>, c: nat)
    requires
        c <= u64::MAX as nat + 1,
        forall|x: u64| x < c ==> has_node(nodes, SnarlNodeId(x)),
    ensures
        c <= nodes.len(),
{
    broadcast use vstd::seq_lib::seq_to_set_is_finite;

    let ids = nodes.map_values(|p: (SnarlNodeId, NodeData)| p.0.0 as int);
    vstd::set_lib::lemma_int_range(0, c as int);
    assert forall|i: int| vstd::set_lib::set_int_range(0, c as int).contains(i) implies ids.to_set().contains(i) by {
        let x = i as u64;
        assert(x < c);
        assert(has_node(nodes, SnarlNodeId(x)));
        let j = choose|j: int| 0 <= j < nodes.len() && (#[trigger] nodes[j]).0 == SnarlNodeId(x);
        assert(ids[j] == i);
        assert(ids.contains(i));
    }
    ids.lemma_cardinality_of_set();
    vstd::set_lib::lemma_len_subset(vstd::set_lib::set_int_range(0, c as int), ids.to_set());
}

/// A sink added after a sink-less node list is its first sink.
proof fn lemma_first_sink_push(nodes: Seq<(SnarlNodeId, NodeData)>, n: (SnarlNodeId, NodeData))
    requires
        first_sink(nodes) is None,
        is_sink(n.1),
    ensures
        first_sink(nodes.push(n)) == Some(n.0),
    decreases nodes.len(),
{
    if nodes.len() > 0 {
        assert(nodes.push(n).drop_first() =~= nodes.drop_first().push(n));
        lemma_first_sink_push(nodes.drop_first(), n);
    }
}

} // verus!

verus! {

/// Some input of the definition takes a file.
pub open spec fn has_file_input(def: NodeDefinition) -> bool {
    exists|i: int| 0 <= i < def.node.inputs@.len() && (#[trigger] def.node.inputs@[i]).kind is File
}

/// Some configured value of the node is a file.
pub open spec fn has_file_value(d: NodeData) -> bool {
    exists|k: Seq<char>| #[trigger] d.input_values@.contains_key(k) && d.input_values@[k] is File
}

/// Some wire feeds node `node` at an input of `def` named `name`.
pub open spec fn input_connected(wires: Seq<Wire>, node: SnarlNodeId, def: NodeDefinition, name: Seq<char>) -> bool {
    exists|k: int|
        0 <= k < wires.len() && (#[trigger] wires[k]).to.node == node && wires[k].to.input
            < def.node.inputs@.len() && def.node.inputs@[wires[k].to.input as int].name@ == name
}

/// The first frame input of `def` (from index `k` on) that no wire feeds, as an error message.
pub open spec fn missing_frame_error(wires: Seq<Wire>, node: SnarlNodeId, def: NodeDefinition, k: nat) -> Option<Seq<char>>
    decreases def.node.inputs@.len() - k,
{
    if k >= def.node.inputs@.len() {
        None
    } else if def.node.inputs@[k as int].kind is Frame && !input_connected(
        wires,
        node,
        def,
        def.node.inputs@[k as int].name@,
    ) {
        Some(
            "'"@ + def.node.name@ + "' is missing required frame input '"@
                + def.node.inputs@[k as int].name@ + "'."@,
        )
    } else {
        missing_frame_error(wires, node, def, k + 1)
    }
}

/// Why node `node` could not run as (part of) the output's source chain, if
/// it could not: its definition is unknown, it needs a file and has none, or
/// a frame input is not wired.
pub open spec fn source_node_error(g: EditorGraph, defs: Seq<NodeDefinition>, node: SnarlNodeId) -> Option<Seq<char>> {
    let data = node_data(g.nodes@, node);
    match find_def(defs, data.definition_name@) {
        None => Some("Unknown node definition '"@ + data.definition_name@ + "'."@),
        Some(def) => if has_file_input(def) && !has_file_value(data) {
            Some("'"@ + def.node.name@ + "' requires a file input."@)
        } else {
            missing_frame_error(g.wires@, node, def, 0)
        },
    }
}

/// Every node upstream of `n` (itself included) could run.
pub open spec fn upstream_valid(g: EditorGraph, defs: Seq<NodeDefinition>, n: SnarlNodeId) -> bool {
    forall|x: u64| #[trigger] reachable(upstream_edges(g.wires@), n.0, x) ==> source_node_error(g, defs, SnarlNodeId(x)) is None
}

/// The view of an optional string.
pub open spec fn opt_text(o: Option<String>) -> Option<Seq<char>> {
    match o {
        Some(s) => Some(s@),
        None => None,
    }
}

/// Nodes reached from a node of a well-formed graph along wires are nodes of the graph.
pub proof fn lemma_reach_stays_in_graph(g: EditorGraph, a: SnarlNodeId, b: u64, upstream: bool)
    requires
        g.wf(),
        has_node(g.nodes@, a),
        reachable(if upstream { upstream_edges(g.wires@) } else { downstream_edges(g.wires@) }, a.0, b),
    ensures
        has_node(g.nodes@, SnarlNodeId(b)),
{
    let es = if upstream { upstream_edges(g.wires@) } else { downstream_edges(g.wires@) };
    let s = Set::new(|x: u64| has_node(g.nodes@, SnarlNodeId(x)));
    assert forall|x: u64, y: u64| s.contains(x) && #[trigger] crate::reach::has_edge(es, x, y) implies s.contains(y) by {
        let k = choose|k: int| 0 <= k < es.len() && es[k] == (x, y);
        let w = g.wires@[k];
        assert(has_node(g.nodes@, w.from.node) && has_node(g.nodes@, w.to.node));
        if upstream {
            assert(es[k] == (w.to.node.0, w.from.node.0));
            assert(SnarlNodeId(y) == w.from.node);
        } else {
            assert(es[k] == (w.from.node.0, w.to.node.0));
            assert(SnarlNodeId(y) == w.to.node);
        }
    }
    assert(s.contains(a.0)) by {
        assert(SnarlNodeId(a.0) == a);
    }
    crate::reach::lemma_closed_contains_reachable(es, s, a.0, b);
}

/// Whether some value of the map is a file.
fn any_file_value(values: &InputValues) -> (r: bool)
    ensures
        r == (exists|k: Seq<char>| #[trigger] values@.contains_key(k) && values@[k] is File),
{
    let vs = values.values();
    let mut i: usize = 0;
    while i < vs.len()
        invariant
            i <= vs@.len(),
            forall|k: Seq<char>| #[trigger] values@.contains_key(k) ==> exists|i: int|
                0 <= i < vs@.len() && (#[trigger] vs@[i])@ == values@[k],
            forall|i: int| 0 <= i < vs@.len() ==> values@.values().contains((#[trigger] vs@[i])@),
            forall|j: int| 0 <= j < i ==> !((#[trigger] vs@[j])@ is File),
        decreases vs.len() - i,
    {
        if matches!(vs[i], InputValue::File(_)) {
            assert(values@.values().contains(vs@[i as int]@));
            return true;
        }
        i = i + 1;
    }
    proof {
        if exists|k: Seq<char>| #[trigger] values@.contains_key(k) && values@[k] is File {
            let k = choose|k: Seq<char>| #[trigger] values@.contains_key(k) && values@[k] is File;
            let j = choose|j: int| 0 <= j < vs@.len() && (#[trigger] vs@[j])@ == values@[k];
        }
    }
    false
}

impl EditorGraph {
    /// Why node `node` could not run as part of the output source chain.
    fn node_error(&self, library: &NodeLibrary, node: SnarlNodeId) -> (r: Option<String>)
        requires
            self.wf(),
            has_node(self.nodes@, node),
        ensures
            opt_text(r) == source_node_error(*self, library@, node),
    {
        let data = self.node(node);
        let definition = match library.get_definition(data.definition_name.as_str()) {
            Some(d) => d,
            None => {
                let mut m = String::from_str("Unknown node definition '");
                m.append(data.definition_name.as_str());
                m.append("'.");
                return Some(m);
            },
        };
        let inputs = &definition.node.inputs;
        let mut has_file = false;
        let mut i: usize = 0;
        while i < inputs.len()
            invariant
                i <= inputs@.len(),
                has_file == exists|j: int| 0 <= j < i && (#[trigger] inputs@[j]).kind is File,
            decreases inputs.len() - i,
        {
            if matches!(inputs[i].kind, NodeInputKind::File { .. }) {
                has_file = true;
            }
            i = i + 1;
        }
        if has_file && !any_file_value(&data.input_values) {
            let mut m = String::from_str("'");
            m.append(definition.node.name.as_str());
            m.append("' requires a file input.");
            return Some(m);
        }
        assert(has_file == has_file_input(*definition));
        assert(find_def(library@, data.definition_name@) == Some(*definition));
        assert(*data == node_data(self.nodes@, node));
        assert(source_node_error(*self, library@, node) == missing_frame_error(self.wires@, node, *definition, 0));
        let mut k: usize = 0;
        while k < inputs.len()
            invariant
                self.wf(),
                k <= inputs@.len(),
                *inputs == definition.node.inputs,
                source_node_error(*self, library@, node) == missing_frame_error(self.wires@, node, *definition, 0),
                missing_frame_error(self.wires@, node, *definition, 0) == missing_frame_error(
                    self.wires@,
                    node,
                    *definition,
                    k as nat,
                ),
            decreases inputs.len() - k,
        {
            if matches!(inputs[k].kind, NodeInputKind::Frame) {
                let name = inputs[k].name.as_str();
                let mut connected = false;
                let mut t: usize = 0;
                while t < self.wires.len()
                    invariant
                        k < inputs@.len(),
                        *inputs == definition.node.inputs,
                        t <= self.wires@.len(),
                        name@ == inputs@[k as int].name@,
                        connected == exists|j: int|
                            0 <= j < t && (#[trigger] self.wires@[j]).to.node == node
                                && self.wires@[j].to.input < inputs@.len()
                                && inputs@[self.wires@[j].to.input as int].name@ == name@,
                    decreases self.wires.len() - t,
                {
                    let w = self.wires[t];
                    if w.to.node == node && w.to.input < inputs.len() && text_eq(
                        inputs[w.to.input].name.as_str(),
                        name,
                    ) {
                        connected = true;
                    }
                    t = t + 1;
                }
                proof {
                    assert(connected == input_connected(self.wires@, node, *definition, name@));
                }
                if !connected {
                    assert(missing_frame_error(self.wires@, node, *definition, k as nat) == Some(
                        "'"@ + definition.node.name@ + "' is missing required frame input '"@
                            + inputs@[k as int].name@ + "'."@,
                    ));
                    let mut m = String::from_str("'");
                    m.append(definition.node.name.as_str());
                    m.append("' is missing required frame input '");
                    m.append(name);
                    m.append("'.");
                    return Some(m);
                }
            }
            k = k + 1;
        }
        None
    }
}

/// The error of the first node of `order` that has one.
pub open spec fn first_error_in(g: EditorGraph, defs: Seq<NodeDefinition>, order: Seq<u64>) -> Option<Seq<char>>
    decreases order.len(),
{
    if order.len() == 0 {
        None
    } else {
        match source_node_error(g, defs, SnarlNodeId(order[0])) {
            Some(m) => Some(m),
            None => first_error_in(g, defs, order.drop_first()),
        }
    }
}

/// The error validating node `n` reports: that of the first node with an
/// error when the graph is walked depth first from `n` backwards, each
/// node's wired inputs in wire order, every node once.
pub open spec fn first_upstream_error(g: EditorGraph, defs: Seq<NodeDefinition>, n: SnarlNodeId) -> Option<Seq<char>> {
    first_error_in(g, defs, dfs_order(upstream_edges(g.wires@), n.0))
}

/// Checks that the node wired into the output sink can execute: every node
/// upstream of `node_id` (following wires backwards, `node_id` included) has
/// a known definition, has a file if it takes one, and has every frame input
/// wired. The node is checked first, then, in wire order, each node wired
/// into it with everything upstream of that node; the first error found is
/// returned.
pub fn validate_output_source(graph: &EditorGraph, node_id: SnarlNodeId, node_library: &NodeLibrary) -> (r: Result<(), String>)
    requires
        graph.wf(),
        has_node(graph.nodes@, node_id),
    ensures
        r is Ok <==> upstream_valid(*graph, node_library@, node_id),
        match r {
            Ok(_) => first_upstream_error(*graph, node_library@, node_id) is None,
            Err(m) => first_upstream_error(*graph, node_library@, node_id) == Some(m@),
        },
        source_node_error(*graph, node_library@, node_id) matches Some(own) ==> (r matches Err(m) && m@ == own),
        r matches Err(m) ==> exists|x: u64|
            #[trigger] reachable(upstream_edges(graph.wires@), node_id.0, x)
                && source_node_error(*graph, node_library@, SnarlNodeId(x)) == Some(m@),
{
    let edges = graph.edges(true);
    let upstream = depth_first_order(&edges, node_id.0);
    let ghost order = upstream@;
    assert(order.skip(0) =~= order);
    let mut i: usize = 0;
    while i < upstream.len()
        invariant
            graph.wf(),
            has_node(graph.nodes@, node_id),
            edges@ == upstream_edges(graph.wires@),
            order == upstream@,
            order == dfs_order(edges@, node_id.0),
            i <= upstream@.len(),
            upstream@.len() > 0 && upstream@[0] == node_id.0,
            forall|v: u64| upstream@.contains(v) <==> reachable(edges@, node_id.0, v),
            forall|j: int| 0 <= j < i ==> source_node_error(*graph, node_library@, SnarlNodeId(#[trigger] upstream@[j])) is None,
            first_error_in(*graph, node_library@, order) == first_error_in(*graph, node_library@, order.skip(i as int)),
        decreases upstream.len() - i,
    {
        let n = SnarlNodeId(upstream[i]);
        assert(upstream@.contains(n.0));
        proof {
            lemma_reach_stays_in_graph(*graph, node_id, n.0, true);
            assert(order.skip(i as int)[0] == n.0);
            assert(order.skip(i as int).drop_first() =~= order.skip(i + 1));
        }
        if let Some(m) = graph.node_error(node_library, n) {
            proof {
                if i > 0 {
                    assert(source_node_error(*graph, node_library@, SnarlNodeId(upstream@[0])) is None);
                }
            }
            return Err(m);
        }
        i = i + 1;
    }
    proof {
        assert forall|x: u64| #[trigger] reachable(upstream_edges(graph.wires@), node_id.0, x) implies source_node_error(
            *graph,
            node_library@,
            SnarlNodeId(x),
        ) is None by {
            assert(upstream@.contains(x));
            let j = choose|j: int| 0 <= j < upstream@.len() && upstream@[j] == x;
        }
        assert(source_node_error(*graph, node_library@, SnarlNodeId(upstream@[0])) is None);
        assert(order.skip(i as int).len() == 0);
    }
    Ok(())
}

} // verus!

verus! {

/// What the editor does when the user drags a wire between two pins.
pub enum ConnectRule {
    /// The wire is made (replacing any wire into the input pin).
    Connect,
    /// Nothing happens and nothing is reported.
    Ignore,
    /// Nothing happens and this error is reported.
    Reject(Seq<char>),
    /// Nothing happens and the error of an invalid node upstream of the
    /// source is reported (wiring into the output sink).
    RejectUpstream,
}

/// The editor's connection rules: no self-connections, no cycles, both
/// definitions known, the output sink only fed by a valid chain into its one
/// input, existing pins of compatible kinds, and MIDI sources only while a
/// MIDI port is available.
pub open spec fn connect_rule(
    g: EditorGraph,
    defs: Seq<NodeDefinition>,
    from: OutPinId,
    to: InPinId,
    has_midi_ports: bool,
) -> ConnectRule {
    if from.node == to.node {
        ConnectRule::Reject("A node cannot be connected to itself."@)
    } else if reachable(downstream_edges(g.wires@), to.node.0, from.node.0) {
        ConnectRule::Reject("Connecting these nodes would create a cycle."@)
    } else {
        let fd = node_data(g.nodes@, from.node);
        let td = node_data(g.nodes@, to.node);
        match find_def(defs, fd.definition_name@) {
            None => ConnectRule::Ignore,
            Some(from_def) => {
                let sink = is_sink(td);
                let to_def = find_def(defs, td.definition_name@);
                if !sink && to_def is None {
                    ConnectRule::Ignore
                } else if sink && !upstream_valid(g, defs, from.node) {
                    ConnectRule::RejectUpstream
                } else if from.output >= from_def.node.outputs@.len() {
                    ConnectRule::Ignore
                } else if sink && to.input != 0 {
                    ConnectRule::Ignore
                } else if !sink && to.input >= to_def->Some_0.node.inputs@.len() {
                    ConnectRule::Ignore
                } else {
                    let out = from_def.node.outputs@[from.output as int];
                    let compatible = if sink {
                        spec_pin_kinds_compatible(out.kind, NodeInputKind::Frame)
                    } else {
                        spec_pin_kinds_compatible(out.kind, to_def->Some_0.node.inputs@[to.input as int].kind)
                    };
                    let in_name = if sink {
                        "Output"@
                    } else {
                        to_def->Some_0.node.inputs@[to.input as int].name@
                    };
                    if !compatible {
                        ConnectRule::Reject(
                            "Cannot connect '"@ + out.name@ + "' to '"@ + in_name
                                + "': incompatible pin types."@,
                        )
                    } else if (from_def.node.executor matches NodeExecutionPlan::BuiltIn(h)
                        && h is MidiSource) && !has_midi_ports {
                        ConnectRule::Reject(
                            "Cannot connect MIDI node: no MIDI input port is selected or available."@,
                        )
                    } else {
                        ConnectRule::Connect
                    }
                }
            },
        }
    }
}

/// The outcome of a connection attempt.
#[derive(Debug)]
pub enum ConnectOutcome {
    Connected,
    Ignored,
    Rejected(String),
}

/// Tries to wire the output pin `from` into the input pin `to` following
/// [connect_rule]. `has_midi_ports` tells whether any MIDI input port is
/// available.
pub fn connect(
    graph: &mut EditorGraph,
    library: &NodeLibrary,
    from: OutPinId,
    to: InPinId,
    has_midi_ports: bool,
) -> (r: ConnectOutcome)
    requires
        old(graph).wf(),
        has_node(old(graph).nodes@, from.node),
        has_node(old(graph).nodes@, to.node),
    ensures
        final(graph).wf(),
        final(graph).nodes@ == old(graph).nodes@,
        r is Connected ==> final(graph).wires@ == rewired(old(graph).wires@, from, to),
        !(r is Connected) ==> final(graph).wires@ == old(graph).wires@,
        match connect_rule(*old(graph), library@, from, to, has_midi_ports) {
            ConnectRule::Connect => r is Connected,
            ConnectRule::Ignore => r is Ignored,
            ConnectRule::Reject(m) => r matches ConnectOutcome::Rejected(s) && s@ == m,
            ConnectRule::RejectUpstream => r matches ConnectOutcome::Rejected(s) && first_upstream_error(
                *old(graph),
                library@,
                from.node,
            ) == Some(s@),
        },
{
    if from.node == to.node {
        return ConnectOutcome::Rejected(String::from_str("A node cannot be connected to itself."));
    }
    if graph.would_create_cycle(from.node, to.node) {
        return ConnectOutcome::Rejected(
            String::from_str("Connecting these nodes would create a cycle."),
        );
    }
    let from_data = graph.node(from.node);
    let to_data = graph.node(to.node);
    let from_def = match library.get_definition(from_data.definition_name.as_str()) {
        Some(d) => d,
        None => return ConnectOutcome::Ignored,
    };
    let sink_target = text_eq(to_data.definition_name.as_str(), VIRTUAL_OUTPUT_SINK_NAME);
    let to_def = if sink_target {
        None
    } else {
        library.get_definition(to_data.definition_name.as_str())
    };
    if !sink_target && to_def.is_none() {
        return ConnectOutcome::Ignored;
    }
    if sink_target {
        if let Err(message) = validate_output_source(graph, from.node, library) {
            return ConnectOutcome::Rejected(message);
        }
    }
    if from.output >= from_def.node.outputs.len() {
        return ConnectOutcome::Ignored;
    }
    let from_output = &from_def.node.outputs[from.output];
    let compatible;
    let to_input_name;
    if sink_target {
        if to.input != 0 {
            return ConnectOutcome::Ignored;
        }
        compatible = are_pin_kinds_compatible(from_output.kind, &NodeInputKind::Frame);
        to_input_name = String::from_str("Output");
    } else {
        let d = to_def.unwrap();
        if to.input >= d.node.inputs.len() {
            return ConnectOutcome::Ignored;
        }
        compatible = are_pin_kinds_compatible(from_output.kind, &d.node.inputs[to.input].kind);
        to_input_name = d.node.inputs[to.input].name.clone();
    }
    if !compatible {
        let mut m = String::from_str("Cannot connect '");
        m.append(from_output.name.as_str());
        m.append("' to '");
        m.append(to_input_name.as_str());
        m.append("': incompatible pin types.");
        return ConnectOutcome::Rejected(m);
    }
    if matches!(from_def.node.executor, NodeExecutionPlan::BuiltIn(BuiltInHandler::MidiSource))
        && !has_midi_ports {
        return ConnectOutcome::Rejected(
            String::from_str("Cannot connect MIDI node: no MIDI input port is selected or available."),
        );
    }
    graph.connect_pins(from, to);
    ConnectOutcome::Connected
}

/// The wires close no cycle: no wire's target reaches back to its source.
pub open spec fn acyclic(wires: Seq<Wire>) -> bool {
    forall|a: u64, b: u64| #[trigger] has_edge(downstream_edges(wires), a, b) ==> !reachable(downstream_edges(wires), b, a)
}

/// The wires after `to` is wired from `from`.
pub open spec fn rewired(wires: Seq<Wire>, from: OutPinId, to: InPinId) -> Seq<Wire> {
    wires.filter(|w: Wire| w.to != to).push(Wire { from, to })
}

/// Every edge of the rewired graph is an old edge or the new one.
proof fn lemma_rewired_edges(wires: Seq<Wire>, from: OutPinId, to: InPinId, a: u64, b: u64)
    requires
        has_edge(downstream_edges(rewired(wires, from, to)), a, b),
    ensures
        has_edge(downstream_edges(wires), a, b) || (a == from.node.0 && b == to.node.0),
{
    broadcast use vstd::seq_lib::group_filter_ensures;

    let keep = |w: Wire| w.to != to;
    let f = wires.filter(keep);
    let w2 = rewired(wires, from, to);
    let e2 = downstream_edges(w2);
    let i = choose|i: int| 0 <= i < e2.len() && e2[i] == (a, b);
    if i < f.len() {
        assert(w2[i] == f[i]);
        assert(f.contains(f[i]));
        wires.lemma_filter_contains_rev(keep, f[i]);
        assert(wires.contains(f[i]));
        let j = choose|j: int| 0 <= j < wires.len() && wires[j] == f[i];
        assert(downstream_edges(wires)[j] == (a, b));
    }
}

/// With `from` out of reach of `x`, what `x` reaches in the rewired graph it
/// already reached.
proof fn lemma_rewired_reach_before(wires: Seq<Wire>, from: OutPinId, to: InPinId, x: u64, y: u64)
    requires
        !reachable(downstream_edges(wires), x, from.node.0),
        reachable(downstream_edges(rewired(wires, from, to)), x, y),
    ensures
        reachable(downstream_edges(wires), x, y),
{
    let e = downstream_edges(wires);
    let e2 = downstream_edges(rewired(wires, from, to));
    let s = Set::new(|v: u64| reachable(e, x, v));
    lemma_reachable_refl(e, x);
    assert forall|u: u64, v: u64| s.contains(u) && #[trigger] has_edge(e2, u, v) implies s.contains(v) by {
        lemma_rewired_edges(wires, from, to, u, v);
        if has_edge(e, u, v) {
            lemma_reachable_step(e, x, u, v);
        }
    }
    lemma_closed_contains_reachable(e2, s, x, y);
}

/// What `b` reaches in the rewired graph, `b` or the new wire's target
/// already reached.
proof fn lemma_rewired_reach_via(wires: Seq<Wire>, from: OutPinId, to: InPinId, b: u64, y: u64)
    requires
        reachable(downstream_edges(rewired(wires, from, to)), b, y),
    ensures
        reachable(downstream_edges(wires), b, y) || reachable(downstream_edges(wires), to.node.0, y),
{
    let e = downstream_edges(wires);
    let e2 = downstream_edges(rewired(wires, from, to));
    let t = to.node.0;
    let s = Set::new(|v: u64| reachable(e, b, v) || reachable(e, t, v));
    lemma_reachable_refl(e, b);
    assert forall|u: u64, v: u64| s.contains(u) && #[trigger] has_edge(e2, u, v) implies s.contains(v) by {
        lemma_rewired_edges(wires, from, to, u, v);
        if has_edge(e, u, v) {
            if reachable(e, b, u) {
                lemma_reachable_step(e, b, u, v);
            } else {
                lemma_reachable_step(e, t, u, v);
            }
        } else {
            lemma_reachable_refl(e, t);
        }
    }
    lemma_closed_contains_reachable(e2, s, b, y);
}

/// Wiring `to` from `from` keeps the graph free of cycles when `from`
/// cannot be reached from `to`.
pub proof fn lemma_rewire_keeps_acyclic(wires: Seq<Wire>, from: OutPinId, to: InPinId)
    requires
        acyclic(wires),
        !reachable(downstream_edges(wires), to.node.0, from.node.0),
    ensures
        acyclic(rewired(wires, from, to)),
{
    let e = downstream_edges(wires);
    let e2 = downstream_edges(rewired(wires, from, to));
    let f = from.node.0;
    let t = to.node.0;
    assert forall|a: u64, b: u64| #[trigger] has_edge(e2, a, b) implies !reachable(e2, b, a) by {
        lemma_rewired_edges(wires, from, to, a, b);
        if reachable(e2, b, a) {
            if a == f && b == t {
                lemma_rewired_reach_before(wires, from, to, t, f);
            } else if !reachable(e, b, f) {
                lemma_rewired_reach_before(wires, from, to, b, a);
            } else {
                lemma_rewired_reach_via(wires, from, to, b, a);
                if reachable(e, t, a) {
                    lemma_reachable_refl(e, a);
                    lemma_reachable_step(e, a, a, b);
                    lemma_reachable_trans(e, t, a, b);
                    lemma_reachable_trans(e, t, b, f);
                }
            }
        }
    }
}

/// A connection the editor accepts never closes a cycle: when the graph had
/// none, the graph after [connect] connects has none.
pub proof fn lemma_connect_keeps_acyclic(
    g: EditorGraph,
    defs: Seq<NodeDefinition>,
    from: OutPinId,
    to: InPinId,
    has_midi_ports: bool,
)
    requires
        acyclic(g.wires@),
        connect_rule(g, defs, from, to, has_midi_ports) is Connect,
    ensures
        acyclic(rewired(g.wires@, from, to)),
{
    lemma_rewire_keeps_acyclic(g.wires@, from, to);
}

/// After `to` is wired from `from`, that wire is the only one into `to`:
/// an input takes at most one connection.
pub proof fn lemma_one_wire_per_input(wires: Seq<Wire>, from: OutPinId, to: InPinId)
    ensures
        forall|k: int|
            0 <= k < rewired(wires, from, to).len() && (#[trigger] rewired(wires, from, to)[k]).to == to ==> rewired(
                wires,
                from,
                to,
            )[k] == (Wire { from, to }),
{
    broadcast use vstd::seq_lib::group_filter_ensures;

    let keep = |w: Wire| w.to != to;
    let f = wires.filter(keep);
    assert forall|k: int|
        0 <= k < rewired(wires, from, to).len() && (#[trigger] rewired(wires, from, to)[k]).to == to implies rewired(
        wires,
        from,
        to,
    )[k] == (Wire { from, to }) by {
        if k < f.len() {
            assert(keep(f[k]));
        }
    }
}

/// No two wires end at the same input pin.
pub open spec fn one_wire_per_input(wires: Seq<Wire>) -> bool {
    forall|i: int, j: int| 0 <= i < j < wires.len() ==> (#[trigger] wires[i]).to != (#[trigger] wires[j]).to
}

/// Dropping wires keeps every input pin fed by at most one wire.
proof fn lemma_filter_keeps_one_wire(s: Seq<Wire>, p: spec_fn(Wire) -> bool)
    requires
        one_wire_per_input(s),
    ensures
        one_wire_per_input(s.filter(p)),
    decreases s.len(),
{
    broadcast use vstd::seq_lib::group_filter_ensures;

    reveal_with_fuel(Seq::filter, 1);
    if s.len() > 0 {
        let d = s.drop_last();
        assert forall|i: int, j: int| 0 <= i < j < d.len() implies (#[trigger] d[i]).to != (#[trigger] d[j]).to by {
            assert(d[i] == s[i] && d[j] == s[j]);
        }
        lemma_filter_keeps_one_wire(d, p);
        let fd = d.filter(p);
        if p(s.last()) {
            let f = fd.push(s.last());
            assert(s.filter(p) == f);
            assert forall|i: int, j: int| 0 <= i < j < f.len() implies (#[trigger] f[i]).to != (#[trigger] f[j]).to by {
                if j == fd.len() {
                    assert(fd[i] == f[i]);
                    assert(fd.contains(f[i]));
                    d.lemma_filter_contains_rev(p, f[i]);
                    let k = choose|k: int| 0 <= k < d.len() && d[k] == f[i];
                    assert(s[k] == f[i]);
                    assert(s[s.len() - 1] == f[j]);
                } else {
                    assert(f[i] == fd[i] && f[j] == fd[j]);
                }
            }
        }
    }
}

/// Connecting `from` to `to` leaves every input pin fed by at most one
/// wire: the wires into `to` are replaced by the new one.
pub proof fn lemma_connect_keeps_one_wire_per_input(wires: Seq<Wire>, from: OutPinId, to: InPinId)
    requires
        one_wire_per_input(wires),
    ensures
        one_wire_per_input(rewired(wires, from, to)),
{
    broadcast use vstd::seq_lib::group_filter_ensures;

    let keep = |w: Wire| w.to != to;
    let f = wires.filter(keep);
    lemma_filter_keeps_one_wire(wires, keep);
    let r = rewired(wires, from, to);
    assert forall|i: int, j: int| 0 <= i < j < r.len() implies (#[trigger] r[i]).to != (#[trigger] r[j]).to by {
        if j == f.len() {
            assert(keep(f[i]));
        } else {
            assert(r[i] == f[i] && r[j] == f[j]);
        }
    }
}

/// A connection the editor makes keeps the wires free of cycles and every
/// input pin fed by at most one wire.
pub proof fn lemma_connect_keeps_graph_sound(
    g: EditorGraph,
    defs: Seq<NodeDefinition>,
    from: OutPinId,
    to: InPinId,
    has_midi_ports: bool,
)
    requires
        acyclic(g.wires@),
        one_wire_per_input(g.wires@),
        connect_rule(g, defs, from, to, has_midi_ports) is Connect,
    ensures
        acyclic(rewired(g.wires@, from, to)),
        one_wire_per_input(rewired(g.wires@, from, to)),
{
    lemma_connect_keeps_acyclic(g, defs, from, to, has_midi_ports);
    lemma_connect_keeps_one_wire_per_input(g.wires@, from, to);
}

} // verus!
