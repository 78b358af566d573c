//! Planning an execution of the engine graph.
//!
//! The engine graph holds node instances whose inputs are either literal
//! values or connections from another instance's output. An execution runs
//! the nodes of the graph's execution order that an output (or a chosen
//! target) depends on, reuses cached outputs of nodes whose inputs did not
//! change, and reports the outputs of the target or of the first output node.
//! The GPU work itself is done by the caller; this module decides what runs.
use vstd::prelude::*;
use vstd::string::StringExecFns;
use crate::library::{NodeLibrary, find_def};
use crate::reach::{has_edge, lemma_reachable_rel, reachable_from, rel_reachable};
use crate::text::text_eq;
use crate::schema::{BuiltInHandler, EngineNodeId, InputValue, InputValueView, NodeDefinition, NodeExecutionPlan, NodeOutputKind};
use crate::values::InputValues;

verus! {

/// What can go wrong while executing the engine graph.
#[derive(Debug)]
pub enum ExecutionError {
    TargetNodeNotFound(EngineNodeId),
    TargetNodeNotInExecutionOrder(EngineNodeId),
    NodeNotFound(EngineNodeId),
    DefinitionNotFound(String),
    NodeNotExecuted(EngineNodeId),
    OutputNotFound(EngineNodeId, String),
    NoOutputNode,
    NoOutputProduced,
    InvalidInputType,
    PipelineCreationError(String),
    NoFrameInput(String),
    UnsupportedNodeOutputCombination,
    UnsupportedOutputType(NodeOutputKind),
    FrameStreamNotReady(String),
    TextureUploadError(String),
    VideoStreamError(String, String),
    NoiseExecutionError(String),
    MidiStreamError(String),
    SignalEnvelopeError(String),
    RenderError(String),
    ShaderLoadError(String, String),
    GpuReadbackError(String),
    GpuReadbackNotReady,
    GraphError(String),
}

/// A node instance of the engine graph.
#[derive(Debug)]
pub struct NodeInstance {
    pub id: EngineNodeId,
    pub definition_name: String,
    /// Literal values and connections, by input name.
    pub input_values: InputValues,
}

/// The engine graph: its node instances (ids unique).
#[derive(Debug)]
pub struct NodeGraph {
    pub instances: Vec<NodeInstance>,
}

impl NodeGraph {
    /// Instance ids are unique.
    pub open spec fn wf(&self) -> bool {
        forall|i: int, j: int|
            0 <= i < self.instances@.len() && 0 <= j < self.instances@.len() && i != j ==> (
            #[trigger] self.instances@[i]).id != (#[trigger] self.instances@[j]).id
    }

    /// An empty graph.
    pub fn new() -> (r: Self)
        ensures
            r.wf(),
            r.instances@.len() == 0,
    {
        NodeGraph { instances: Vec::new() }
    }

    /// The instance with id `id`, if any.
    pub fn get_instance(&self, id: EngineNodeId) -> (r: Option<&NodeInstance>)
        ensures
            r is None <==> !has_instance(*self, id),
            r matches Some(inst) ==> inst.id == id && *inst == instance_of(*self, id),
    {
        let mut i: usize = 0;
        while i < self.instances.len()
            invariant
                i <= self.instances@.len(),
                forall|j: int| 0 <= j < i ==> (#[trigger] self.instances@[j]).id != id,
            decreases self.instances.len() - i,
        {
            if self.instances[i].id == id {
                proof {
                    assert(has_instance(*self, id));
                    let j = choose|j: int| 0 <= j < self.instances@.len() && (#[trigger] self.instances@[j]).id == id
                        && forall|q: int| 0 <= q < j ==> (#[trigger] self.instances@[q]).id != id;
                    assert(j == i) by {
                        if j < i {
                        } else if j > i {
                        }
                    }
                }
                return Some(&self.instances[i]);
            }
            i = i + 1;
        }
        None
    }
}

/// The engine graph as a map: each instance's definition name and input
/// values, by instance id.
pub open spec fn graph_model(g: NodeGraph) -> Map<EngineNodeId, (Seq<char>, Map<Seq<char>, InputValueView>)> {
    Map::new(
        |id: EngineNodeId| has_instance(g, id),
        |id: EngineNodeId| (instance_of(g, id).definition_name@, instance_of(g, id).input_values@),
    )
}

/// In a graph with unique ids, the instance at position `j` is the one its
/// id finds.
pub proof fn lemma_instance_at(g: NodeGraph, j: int)
    requires
        g.wf(),
        0 <= j < g.instances@.len(),
    ensures
        has_instance(g, g.instances@[j].id),
        instance_of(g, g.instances@[j].id) == g.instances@[j],
{
    let id = g.instances@[j].id;
    assert(forall|q: int| 0 <= q < j ==> (#[trigger] g.instances@[q]).id != id);
    let i = choose|i: int|
        0 <= i < g.instances@.len() && (#[trigger] g.instances@[i]).id == id && forall|q: int|
            0 <= q < i ==> (#[trigger] g.instances@[q]).id != id;
    assert(i == j) by {
        if i != j {
            assert(g.instances@[i].id != g.instances@[j].id);
        }
    }
}

impl NodeGraph {
    /// The position of the instance with id `id`.
    fn instance_index(&self, id: EngineNodeId) -> (r: Option<usize>)
        ensures
            match r {
                Some(i) => i < self.instances@.len() && self.instances@[i as int].id == id,
                None => !has_instance(*self, id),
            },
    {
        let mut i: usize = 0;
        while i < self.instances.len()
            invariant
                i <= self.instances@.len(),
                forall|j: int| 0 <= j < i ==> (#[trigger] self.instances@[j]).id != id,
            decreases self.instances.len() - i,
        {
            if self.instances[i].id == id {
                return Some(i);
            }
            i = i + 1;
        }
        None
    }

    /// Adds an instance of `definition_name` with id `id` and no input values,
    /// replacing the instance that had that id, if any.
    pub fn add_instance_with_id(&mut self, id: EngineNodeId, definition_name: String)
        requires
            old(self).wf(),
        ensures
            final(self).wf(),
            graph_model(*final(self)) == graph_model(*old(self)).insert(
                id,
                (definition_name@, Map::<Seq<char>, InputValueView>::empty()),
            ),
    {
        let ghost before = *self;
        let ghost name = definition_name@;
        let inst = NodeInstance { id, definition_name, input_values: InputValues::new() };
        let pos = self.instance_index(id);
        let found = pos.is_some();
        let slot: usize = match pos {
            Some(i) => i,
            None => self.instances.len(),
        };
        let mut instances: Vec<NodeInstance> = Vec::new();
        std::mem::swap(&mut instances, &mut self.instances);
        if found {
            instances.set(slot, inst);
        } else {
            instances.push(inst);
        }
        self.instances = instances;
        proof {
            let after = *self;
            let k: int = if found { slot as int } else { before.instances@.len() as int };
            assert(after.instances@[k].id == id);
            assert forall|a: int, b: int|
                0 <= a < after.instances@.len() && 0 <= b < after.instances@.len() && a != b implies (
                #[trigger] after.instances@[a]).id != (#[trigger] after.instances@[b]).id by {
                if a == k {
                    if !found || b != k {
                        assert(before.instances@[b].id != id);
                    }
                } else if b == k {
                    assert(before.instances@[a].id != id);
                } else {
                    assert(after.instances@[a] == before.instances@[a]);
                    assert(after.instances@[b] == before.instances@[b]);
                }
            }
            lemma_instance_at(after, k);
            assert forall|x: EngineNodeId| #[trigger] has_instance(after, x) <==> (has_instance(before, x) || x == id) by {
                if has_instance(after, x) && x != id {
                    let j = choose|j: int| 0 <= j < after.instances@.len() && (#[trigger] after.instances@[j]).id == x;
                    assert(j != k);
                    assert(before.instances@[j].id == x);
                }
                if has_instance(before, x) && x != id {
                    let j = choose|j: int| 0 <= j < before.instances@.len() && (#[trigger] before.instances@[j]).id == x;
                    assert(after.instances@[j] == before.instances@[j]);
                }
            }
            assert forall|x: EngineNodeId| has_instance(before, x) && x != id implies instance_of(after, x)
                == instance_of(before, x) by {
                let j = choose|j: int| 0 <= j < before.instances@.len() && (#[trigger] before.instances@[j]).id == x;
                assert(after.instances@[j] == before.instances@[j]);
                lemma_instance_at(after, j);
                lemma_instance_at(before, j);
            }
            assert(graph_model(after) =~= graph_model(before).insert(id, (name, Map::<Seq<char>, InputValueView>::empty())));
        }
    }
}

impl NodeGraph {
    /// Sets input `name` of instance `id` to `value`; `false` (and nothing
    /// changes) when there is no such instance.
    pub fn set_input_value(&mut self, id: EngineNodeId, name: String, value: InputValue) -> (r: bool)
        requires
            old(self).wf(),
        ensures
            final(self).wf(),
            r == has_instance(*old(self), id),
            r ==> graph_model(*final(self)) == graph_model(*old(self)).insert(
                id,
                (graph_model(*old(self))[id].0, graph_model(*old(self))[id].1.insert(name@, value@)),
            ),
            !r ==> graph_model(*final(self)) == graph_model(*old(self)),
    {
        let ghost before = *self;
        let ghost key = name@;
        let ghost v = value@;
        let i = match self.instance_index(id) {
            Some(i) => i,
            None => return false,
        };
        proof {
            lemma_instance_at(before, i as int);
        }
        let mut instances: Vec<NodeInstance> = Vec::new();
        std::mem::swap(&mut instances, &mut self.instances);
        let mut inst = instances.remove(i);
        let ghost old_inst = inst;
        inst.input_values.insert(name, value);
        instances.insert(i, inst);
        self.instances = instances;
        proof {
            let after = *self;
            assert(after.instances@.len() == before.instances@.len());
            assert forall|j: int| 0 <= j < after.instances@.len() && j != i implies after.instances@[j]
                == before.instances@[j] by {
            }
            assert(after.instances@[i as int].id == id);
            assert(after.instances@[i as int].definition_name == old_inst.definition_name);
            assert forall|a: int, b: int|
                0 <= a < after.instances@.len() && 0 <= b < after.instances@.len() && a != b implies (
                #[trigger] after.instances@[a]).id != (#[trigger] after.instances@[b]).id by {
                assert(after.instances@[a].id == before.instances@[a].id);
                assert(after.instances@[b].id == before.instances@[b].id);
            }
            lemma_instance_at(after, i as int);
            assert forall|x: EngineNodeId| #[trigger] has_instance(after, x) <==> has_instance(before, x) by {
                if has_instance(after, x) {
                    let j = choose|j: int| 0 <= j < after.instances@.len() && (#[trigger] after.instances@[j]).id == x;
                    assert(before.instances@[j].id == x);
                }
                if has_instance(before, x) {
                    let j = choose|j: int| 0 <= j < before.instances@.len() && (#[trigger] before.instances@[j]).id == x;
                    assert(after.instances@[j].id == x);
                }
            }
            assert forall|x: EngineNodeId| has_instance(before, x) && x != id implies instance_of(after, x)
                == instance_of(before, x) by {
                let j = choose|j: int| 0 <= j < before.instances@.len() && (#[trigger] before.instances@[j]).id == x;
                assert(j != i);
                lemma_instance_at(after, j);
                lemma_instance_at(before, j);
            }
            assert(graph_model(after) =~= graph_model(before).insert(
                id,
                (graph_model(before)[id].0, graph_model(before)[id].1.insert(key, v)),
            ));
        }
        true
    }

    /// Wires output `from_output` of instance `from` into input `to_input` of
    /// instance `to`, or reports the instance that does not exist.
    pub fn connect(&mut self, from: EngineNodeId, from_output: String, to: EngineNodeId, to_input: String) -> (r: Result<(), ExecutionError>)
        requires
            old(self).wf(),
        ensures
            final(self).wf(),
            !has_instance(*old(self), from) ==> (r matches Err(ExecutionError::NodeNotFound(n)) && n == from)
                && graph_model(*final(self)) == graph_model(*old(self)),
            has_instance(*old(self), from) && !has_instance(*old(self), to) ==> (r matches Err(
                ExecutionError::NodeNotFound(n),
            ) && n == to) && graph_model(*final(self)) == graph_model(*old(self)),
            has_instance(*old(self), from) && has_instance(*old(self), to) ==> r is Ok && graph_model(*final(self))
                == graph_model(*old(self)).insert(
                to,
                (
                    graph_model(*old(self))[to].0,
                    graph_model(*old(self))[to].1.insert(
                        to_input@,
                        InputValueView::Connection { from_node: from, from_output: from_output@ },
                    ),
                ),
            ),
    {
        if self.instance_index(from).is_none() {
            return Err(ExecutionError::NodeNotFound(from));
        }
        if self.instance_index(to).is_none() {
            return Err(ExecutionError::NodeNotFound(to));
        }
        self.set_input_value(to, to_input, InputValue::Connection { from_node: from, from_output });
        Ok(())
    }
}

/// Some instance has id `id`.
pub open spec fn has_instance(g: NodeGraph, id: EngineNodeId) -> bool {
    exists|i: int| 0 <= i < g.instances@.len() && (#[trigger] g.instances@[i]).id == id
}

/// The first instance with id `id`.
pub open spec fn instance_of(g: NodeGraph, id: EngineNodeId) -> NodeInstance {
    g.instances@[choose|i: int|
        0 <= i < g.instances@.len() && (#[trigger] g.instances@[i]).id == id && forall|j: int|
            0 <= j < i ==> (#[trigger] g.instances@[j]).id != id]
}

/// The value is a connection from an output of node `b`.
pub open spec fn is_connection_from(v: InputValueView, b: u64) -> bool {
    v matches InputValueView::Connection { from_node, .. } && from_node.0 == b
}

/// Some input of these values is a connection from node `b`.
pub open spec fn connects_from(m: Map<Seq<char>, InputValueView>, b: u64) -> bool {
    exists|k: Seq<char>| #[trigger] m.contains_key(k) && is_connection_from(m[k], b)
}

/// Node `a` takes an input from node `b`.
pub open spec fn feeds(g: NodeGraph) -> spec_fn(u64, u64) -> bool {
    |a: u64, b: u64|
        exists|i: int|
            0 <= i < g.instances@.len() && (#[trigger] g.instances@[i]).id.0 == a && connects_from(
                g.instances@[i].input_values@,
                b,
            )
}

/// The connections of the graph as (consumer, producer) edges.
fn connection_edges(g: &NodeGraph) -> (r: Vec<(u64, u64)>)
    ensures
        forall|a: u64, b: u64| #[trigger] has_edge(r@, a, b) <==> feeds(*g)(a, b),
{
    let mut r: Vec<(u64, u64)> = Vec::new();
    let mut i: usize = 0;
    while i < g.instances.len()
        invariant
            i <= g.instances@.len(),
            forall|a: u64, b: u64| #[trigger] has_edge(r@, a, b) <==> exists|j: int|
                0 <= j < i && (#[trigger] g.instances@[j]).id.0 == a && connects_from(g.instances@[j].input_values@, b),
        decreases g.instances.len() - i,
    {
        let inst = &g.instances[i];
        let vals = inst.input_values.values();
        let ghost before = r@;
        let ghost m = inst.input_values@;
        let mut k: usize = 0;
        while k < vals.len()
            invariant
                i < g.instances@.len(),
                *inst == g.instances@[i as int],
                m == inst.input_values@,
                forall|q: int| 0 <= q < vals@.len() ==> m.values().contains((#[trigger] vals@[q])@),
                k <= vals@.len(),
                forall|a: u64, b: u64| #[trigger] has_edge(r@, a, b) <==> (has_edge(before, a, b) || (a == inst.id.0
                    && exists|q: int| 0 <= q < k && is_connection_from((#[trigger] vals@[q])@, b))),
            decreases vals.len() - k,
        {
            let ghost prev = r@;
            match vals[k] {
                InputValue::Connection { from_node, .. } => {
                    r.push((inst.id.0, from_node.0));
                },
                _ => {},
            }
            proof {
                assert forall|a: u64, b: u64| #[trigger] has_edge(r@, a, b) <==> (has_edge(before, a, b) || (a == inst.id.0
                    && exists|q: int| 0 <= q < k + 1 && is_connection_from((#[trigger] vals@[q])@, b))) by {
                    if has_edge(r@, a, b) && !has_edge(prev, a, b) {
                        assert(r@.last() == (a, b));
                        assert(is_connection_from(vals@[k as int]@, b));
                    }
                    if has_edge(prev, a, b) {
                        let t = choose|t: int| 0 <= t < prev.len() && prev[t] == (a, b);
                        assert(r@[t] == (a, b));
                    }
                    if a == inst.id.0 && exists|q: int| 0 <= q < k + 1 && is_connection_from((#[trigger] vals@[q])@, b) {
                        let q = choose|q: int| 0 <= q < k + 1 && is_connection_from((#[trigger] vals@[q])@, b);
                        if q == k {
                            assert(r@.last() == (a, b));
                            assert(r@.contains((a, b)));
                        }
                    }
                }
            }
            k = k + 1;
        }
        proof {
            assert forall|a: u64, b: u64| #[trigger] has_edge(r@, a, b) <==> exists|j: int|
                0 <= j < i + 1 && (#[trigger] g.instances@[j]).id.0 == a && connects_from(g.instances@[j].input_values@, b) by {
                if a == inst.id.0 && connects_from(m, b) {
                    let key = choose|key: Seq<char>| #[trigger] m.contains_key(key) && is_connection_from(m[key], b);
                    let q = choose|q: int| 0 <= q < vals@.len() && (#[trigger] vals@[q])@ == m[key];
                    assert(is_connection_from(vals@[q]@, b));
                }
                if a == inst.id.0 && exists|q: int| 0 <= q < k && is_connection_from((#[trigger] vals@[q])@, b) {
                    let q = choose|q: int| 0 <= q < k && is_connection_from((#[trigger] vals@[q])@, b);
                    assert(m.values().contains(vals@[q]@));
                    let key = choose|key: Seq<char>| m.dom().contains(key) && m[key] == vals@[q]@;
                    assert(m.contains_key(key));
                }
            }
        }
        i = i + 1;
    }
    r
}

/// Every node `target` depends on through connections, `target` included.
pub fn collect_required_nodes_for_target(graph: &NodeGraph, target: EngineNodeId) -> (r: Vec<EngineNodeId>)
    ensures
        r@.no_duplicates(),
        forall|x: EngineNodeId| #[trigger] r@.contains(x) <==> rel_reachable(feeds(*graph), target.0, x.0),
{
    let edges = connection_edges(graph);
    let ids = reachable_from(&edges, target.0);
    let mut r: Vec<EngineNodeId> = Vec::new();
    let mut i: usize = 0;
    while i < ids.len()
        invariant
            i <= ids@.len(),
            r@.len() == i,
            forall|j: int| 0 <= j < i ==> (#[trigger] r@[j]) == EngineNodeId(ids@[j]),
        decreases ids.len() - i,
    {
        r.push(EngineNodeId(ids[i]));
        i = i + 1;
    }
    proof {
        assert forall|x: EngineNodeId| #[trigger] r@.contains(x) <==> rel_reachable(feeds(*graph), target.0, x.0) by {
            lemma_reachable_rel(edges@, feeds(*graph), target.0, x.0);
            if r@.contains(x) {
                let j = choose|j: int| 0 <= j < r@.len() && r@[j] == x;
                assert(ids@.contains(x.0)) by {
                    assert(ids@[j] == x.0);
                }
            }
            if ids@.contains(x.0) {
                let j = choose|j: int| 0 <= j < ids@.len() && ids@[j] == x.0;
                assert(r@[j] == x);
            }
        }
        assert forall|a: int, b: int| 0 <= a < r@.len() && 0 <= b < r@.len() && a != b implies r@[a] != r@[b] by {
            assert(ids@[a] != ids@[b]);
        }
    }
    r
}

/// Whether `selected` feeds `output`, directly or not (or is `output`).
pub fn node_in_output_subgraph(graph: &NodeGraph, selected: EngineNodeId, output: EngineNodeId) -> (r: bool)
    ensures
        r == rel_reachable(feeds(*graph), output.0, selected.0),
{
    let required = collect_required_nodes_for_target(graph, output);
    let mut i: usize = 0;
    while i < required.len()
        invariant
            i <= required@.len(),
            forall|x: EngineNodeId| #[trigger] required@.contains(x) <==> rel_reachable(feeds(*graph), output.0, x.0),
            forall|j: int| 0 <= j < i ==> (#[trigger] required@[j]) != selected,
        decreases required.len() - i,
    {
        if required[i] == selected {
            assert(required@.contains(selected));
            return true;
        }
        i = i + 1;
    }
    assert(!required@.contains(selected));
    false
}

/// Node `x` is needed by one of `roots`.
pub open spec fn required_by(g: NodeGraph, roots: Seq<EngineNodeId>) -> spec_fn(EngineNodeId) -> bool {
    |x: EngineNodeId| exists|i: int| 0 <= i < roots.len() && rel_reachable(feeds(g), (#[trigger] roots[i]).0, x.0)
}

/// The nodes to execute, in execution order: those the target depends on,
/// or, with no target, those some output node depends on.
pub fn execution_nodes(
    graph: &NodeGraph,
    order: &Vec<EngineNodeId>,
    output_nodes: &Vec<EngineNodeId>,
    target: Option<EngineNodeId>,
) -> (r: Result<Vec<EngineNodeId>, ExecutionError>)
    ensures
        match target {
            Some(t) => if !has_instance(*graph, t) {
                r matches Err(ExecutionError::TargetNodeNotFound(e)) && e == t
            } else if !order@.contains(t) {
                r matches Err(ExecutionError::TargetNodeNotInExecutionOrder(e)) && e == t
            } else {
                r matches Ok(v) && v@ == order@.filter(required_by(*graph, seq![t]))
            },
            None => r matches Ok(v) && v@ == order@.filter(required_by(*graph, output_nodes@)),
        },
{
    let ghost roots: Seq<EngineNodeId>;
    let mut required: Vec<Vec<EngineNodeId>> = Vec::new();
    match target {
        Some(t) => {
            if graph.get_instance(t).is_none() {
                return Err(ExecutionError::TargetNodeNotFound(t));
            }
            if !contains_node(order, t) {
                return Err(ExecutionError::TargetNodeNotInExecutionOrder(t));
            }
            required.push(collect_required_nodes_for_target(graph, t));
            proof {
                roots = seq![t];
            }
        },
        None => {
            let mut i: usize = 0;
            while i < output_nodes.len()
                invariant
                    i <= output_nodes@.len(),
                    required@.len() == i,
                    forall|j: int, x: EngineNodeId| 0 <= j < i ==> (#[trigger] required@[j]@.contains(x) <==> rel_reachable(feeds(*graph), output_nodes@[j].0, x.0)),
                decreases output_nodes.len() - i,
            {
                required.push(collect_required_nodes_for_target(graph, output_nodes[i]));
                i = i + 1;
            }
            proof {
                roots = output_nodes@;
            }
        },
    }
    let ghost keep = required_by(*graph, roots);
    assert(required@.len() == roots.len());
    assert(forall|j: int, x: EngineNodeId| 0 <= j < roots.len() ==> (#[trigger] required@[j]@.contains(x) <==> rel_reachable(feeds(*graph), roots[j].0, x.0)));
    let mut r: Vec<EngineNodeId> = Vec::new();
    let mut k: usize = 0;
    while k < order.len()
        invariant
            keep == required_by(*graph, roots),
            required@.len() == roots.len(),
            forall|j: int, x: EngineNodeId| 0 <= j < roots.len() ==> (#[trigger] required@[j]@.contains(x) <==> rel_reachable(feeds(*graph), roots[j].0, x.0)),
            k <= order@.len(),
            r@ == order@.take(k as int).filter(keep),
        decreases order.len() - k,
    {
        proof {
            crate::library::lemma_filter_take_step(order@, keep, k as int);
        }
        let x = order[k];
        let mut needed = false;
        let mut j: usize = 0;
        while j < required.len()
            invariant
                required@.len() == roots.len(),
                forall|q: int, y: EngineNodeId| 0 <= q < roots.len() ==> (#[trigger] required@[q]@.contains(y) <==> rel_reachable(feeds(*graph), roots[q].0, y.0)),
                j <= required@.len(),
                needed == exists|q: int| 0 <= q < j && rel_reachable(feeds(*graph), (#[trigger] roots[q]).0, x.0),
            decreases required.len() - j,
        {
            if contains_node(&required[j], x) {
                needed = true;
            }
            j = j + 1;
        }
        if needed {
            r.push(x);
        }
        k = k + 1;
    }
    proof {
        crate::library::lemma_filter_take_all(order@, keep);
    }
    Ok(r)
}

/// Whether `v` holds `id`.
pub fn contains_node(v: &Vec<EngineNodeId>, id: EngineNodeId) -> (r: bool)
    ensures
        r == v@.contains(id),
{
    let mut i: usize = 0;
    while i < v.len()
        invariant
            i <= v@.len(),
            forall|j: int| 0 <= j < i ==> (#[trigger] v@[j]) != id,
        decreases v.len() - i,
    {
        if v[i] == id {
            assert(v@[i as int] == id);
            return true;
        }
        i = i + 1;
    }
    false
}

/// Whether a node's cached outputs are reused: it is cacheable and its
/// inputs hash to the signature its outputs were cached under.
pub fn reuse_cached_outputs(cacheable: bool, cached_signature: Option<u64>, input_signature: u64) -> (r: bool)
    ensures
        r == (cacheable && cached_signature == Some(input_signature)),
{
    match cached_signature {
        Some(s) => cacheable && s == input_signature,
        None => false,
    }
}

/// The node whose outputs an execution reports: the target, else the first
/// output node.
pub fn output_node_choice(target: Option<EngineNodeId>, output_nodes: &Vec<EngineNodeId>) -> (r: Result<EngineNodeId, ExecutionError>)
    ensures
        match target {
            Some(t) => r == Ok::<EngineNodeId, ExecutionError>(t),
            None => if output_nodes@.len() == 0 {
                r matches Err(ExecutionError::NoOutputNode)
            } else {
                r == Ok::<EngineNodeId, ExecutionError>(output_nodes@[0])
            },
        },
{
    match target {
        Some(t) => Ok(t),
        None => {
            if output_nodes.len() == 0 {
                Err(ExecutionError::NoOutputNode)
            } else {
                Ok(output_nodes[0])
            }
        },
    }
}

/// Pairs the values a built-in handler produced with the node's outputs,
/// in order; values beyond the declared outputs are dropped.
pub fn name_outputs<T>(definition: &NodeDefinition, values: Vec<T>) -> (r: Vec<(String, T)>)
    ensures
        r@.len() == if values@.len() < definition.node.outputs@.len() {
            values@.len()
        } else {
            definition.node.outputs@.len()
        },
        forall|i: int|
            0 <= i < r@.len() ==> (#[trigger] r@[i]).0@ == definition.node.outputs@[i].name@ && r@[i].1 == values@[i],
{
    let ghost vs = values@;
    let mut rest = values;
    let mut r: Vec<(String, T)> = Vec::new();
    let mut i: usize = 0;
    while rest.len() > 0 && i < definition.node.outputs.len()
        invariant
            i <= definition.node.outputs@.len(),
            i <= vs.len(),
            rest@ == vs.skip(i as int),
            r@.len() == i,
            forall|j: int|
                0 <= j < i ==> (#[trigger] r@[j]).0@ == definition.node.outputs@[j].name@ && r@[j].1 == vs[j],
        decreases rest.len(),
    {
        let v = rest.remove(0);
        assert(vs.skip(i as int)[0] == vs[i as int]);
        assert(rest@ =~= vs.skip(i + 1));
        r.push((definition.node.outputs[i].name.clone(), v));
        i = i + 1;
    }
    r
}

/// Node `id` is an instance whose definition is the video source.
pub open spec fn is_video_source(g: NodeGraph, defs: Seq<NodeDefinition>, id: EngineNodeId) -> bool {
    &&& has_instance(g, id)
    &&& find_def(defs, instance_of(g, id).definition_name@) matches Some(d)
    &&& d.node.executor == NodeExecutionPlan::BuiltIn(BuiltInHandler::VideoSource)
}

/// The first node of `order` from position `from` on that `node` depends on
/// and that is a video source.
pub open spec fn first_video_source(g: NodeGraph, defs: Seq<NodeDefinition>, order: Seq<EngineNodeId>, node: EngineNodeId, from: int) -> Option<EngineNodeId>
    decreases order.len() - from,
{
    if from < 0 || from >= order.len() {
        None
    } else if rel_reachable(feeds(g), node.0, order[from].0) && is_video_source(g, defs, order[from]) {
        Some(order[from])
    } else {
        first_video_source(g, defs, order, node, from + 1)
    }
}

/// Whether node `id` is an instance whose definition is the video source.
fn video_source_check(graph: &NodeGraph, library: &NodeLibrary, id: EngineNodeId) -> (r: bool)
    requires
        graph.wf(),
    ensures
        r == is_video_source(*graph, library@, id),
{
    match graph.get_instance(id) {
        Some(inst) => match library.get_definition(inst.definition_name.as_str()) {
            Some(d) => matches!(d.node.executor, NodeExecutionPlan::BuiltIn(BuiltInHandler::VideoSource)),
            None => false,
        },
        None => false,
    }
}

/// The node whose video sets the frame rate for node `node_id`'s output:
/// the node itself when it is a video source, else the first video source
/// it depends on in execution order; `None` when the node or its
/// definition is unknown.
pub fn video_source_for(graph: &NodeGraph, library: &NodeLibrary, order: &Vec<EngineNodeId>, node_id: EngineNodeId) -> (r: Option<EngineNodeId>)
    requires
        graph.wf(),
    ensures
        !has_instance(*graph, node_id) || find_def(library@, instance_of(*graph, node_id).definition_name@) is None
            ==> r is None,
        has_instance(*graph, node_id) && find_def(library@, instance_of(*graph, node_id).definition_name@) is Some
            ==> r == if is_video_source(*graph, library@, node_id) {
            Some(node_id)
        } else {
            first_video_source(*graph, library@, order@, node_id, 0)
        },
{
    let inst = match graph.get_instance(node_id) {
        Some(inst) => inst,
        None => return None,
    };
    match library.get_definition(inst.definition_name.as_str()) {
        None => return None,
        Some(_) => {},
    }
    if video_source_check(graph, library, node_id) {
        return Some(node_id);
    }
    let required = collect_required_nodes_for_target(graph, node_id);
    let mut i: usize = 0;
    while i < order.len()
        invariant
            graph.wf(),
            has_instance(*graph, node_id),
            find_def(library@, instance_of(*graph, node_id).definition_name@) is Some,
            !is_video_source(*graph, library@, node_id),
            i <= order@.len(),
            forall|x: EngineNodeId| #[trigger] required@.contains(x) <==> rel_reachable(feeds(*graph), node_id.0, x.0),
            first_video_source(*graph, library@, order@, node_id, 0) == first_video_source(
                *graph,
                library@,
                order@,
                node_id,
                i as int,
            ),
        decreases order.len() - i,
    {
        let candidate = order[i];
        if contains_node(&required, candidate) && video_source_check(graph, library, candidate) {
            return Some(candidate);
        }
        i = i + 1;
    }
    None
}

/// The kind of frame stream a built-in source node reads.
pub fn stream_kind_for(handler: BuiltInHandler) -> (r: Option<crate::streams::StreamKind>)
    ensures
        r == match handler {
            BuiltInHandler::ImageSource => Some(crate::streams::StreamKind::Image),
            BuiltInHandler::VideoSource => Some(crate::streams::StreamKind::Video),
            _ => None,
        },
{
    match handler {
        BuiltInHandler::ImageSource => Some(crate::streams::StreamKind::Image),
        BuiltInHandler::VideoSource => Some(crate::streams::StreamKind::Video),
        _ => None,
    }
}

/// How a literal or connected input resolves for execution.
#[derive(Debug)]
pub enum ResolvedInput<'a> {
    /// A configured value.
    Literal(&'a InputValue),
    /// The cached output `1` of node `0`.
    Output(EngineNodeId, &'a str),
}

/// The names of the outputs cached for `node` (by its first cache entry),
/// if it was executed.
pub open spec fn cached_outputs(cache: Seq<(EngineNodeId, Vec<String>)>, node: EngineNodeId) -> Option<Seq<Seq<char>>>
    decreases cache.len(),
{
    if cache.len() == 0 {
        None
    } else if cache[0].0 == node {
        Some(crate::sorted::views(cache[0].1@))
    } else {
        cached_outputs(cache.drop_first(), node)
    }
}

/// A value resolves when it is a literal, or a connection to an output
/// that the executed source node produced.
pub open spec fn resolves(cache: Seq<(EngineNodeId, Vec<String>)>, v: InputValueView) -> bool {
    match v {
        InputValueView::Connection { from_node, from_output } => cached_outputs(cache, from_node) matches Some(names)
            && names.contains(from_output),
        _ => true,
    }
}

/// The error of a value that does not resolve.
pub open spec fn resolve_error(cache: Seq<(EngineNodeId, Vec<String>)>, v: InputValueView, e: ExecutionError) -> bool {
    match v {
        InputValueView::Connection { from_node, from_output } => if cached_outputs(cache, from_node) is None {
            e matches ExecutionError::NodeNotExecuted(n) && n == from_node
        } else {
            e matches ExecutionError::OutputNotFound(n, o) && n == from_node && o@ == from_output
        },
        _ => false,
    }
}

/// Whether the cache entry `i` lists output `name`.
fn cache_lists(cache: &Vec<(EngineNodeId, Vec<String>)>, i: usize, name: &str) -> (r: bool)
    requires
        i < cache@.len(),
    ensures
        r == crate::sorted::views(cache@[i as int].1@).contains(name@),
{
    let names = &cache[i].1;
    let mut k: usize = 0;
    while k < names.len()
        invariant
            *names == cache@[i as int].1,
            k <= names@.len(),
            forall|j: int| 0 <= j < k ==> (#[trigger] names@[j])@ != name@,
        decreases names.len() - k,
    {
        if text_eq(names[k].as_str(), name) {
            assert(crate::sorted::views(names@)[k as int] == name@);
            return true;
        }
        k = k + 1;
    }
    proof {
        if crate::sorted::views(names@).contains(name@) {
            let j = choose|j: int| 0 <= j < crate::sorted::views(names@).len() && crate::sorted::views(names@)[j] == name@;
            assert(names@[j]@ == name@);
        }
    }
    false
}

/// Resolves one input value against the outputs cached so far.
pub fn resolve_input<'a>(cache: &Vec<(EngineNodeId, Vec<String>)>, value: &'a InputValue) -> (r: Result<ResolvedInput<'a>, ExecutionError>)
    ensures
        resolves(cache@, value@) <==> r is Ok,
        r matches Ok(ResolvedInput::Literal(v)) ==> *v == *value && !(value@ is Connection),
        r matches Ok(ResolvedInput::Output(n, o)) ==> value@ == (InputValueView::Connection { from_node: n, from_output: o@ }),
        r matches Err(e) ==> resolve_error(cache@, value@, e),
{
    match value {
        InputValue::Connection { from_node, from_output } => {
            let mut i: usize = 0;
            assert(cache@.skip(0) =~= cache@);
            while i < cache.len()
                invariant
                    value@ == (InputValueView::Connection { from_node: *from_node, from_output: from_output@ }),
                    i <= cache@.len(),
                    cached_outputs(cache@, *from_node) == cached_outputs(cache@.skip(i as int), *from_node),
                decreases cache.len() - i,
            {
                assert(cache@.skip(i as int)[0] == cache@[i as int]);
                assert(cache@[i as int].0 == *from_node ==> cached_outputs(cache@, *from_node) == Some(
                    crate::sorted::views(cache@[i as int].1@),
                ));
                if cache[i].0 == *from_node {
                    if cache_lists(cache, i, from_output.as_str()) {
                        return Ok(ResolvedInput::Output(*from_node, from_output.as_str()));
                    } else {
                        return Err(ExecutionError::OutputNotFound(*from_node, from_output.clone()));
                    }
                }
                assert(cache@.skip(i as int).drop_first() =~= cache@.skip(i + 1));
                i = i + 1;
            }
            Err(ExecutionError::NodeNotExecuted(*from_node))
        },
        _ => Ok(ResolvedInput::Literal(value)),
    }
}

/// The stream request of an image or video source node: the file its input
/// names, or `InvalidInputType` when it has no file input value.
pub fn frame_stream_request(
    node_id: EngineNodeId,
    kind: crate::streams::StreamKind,
    file: Option<&String>,
) -> (r: Result<crate::streams::NodeFrameStreamRequest, ExecutionError>)
    ensures
        match file {
            Some(f) => r matches Ok(q) && q.node_id == node_id && q.file_path@ == f@ && q.stream_kind == kind,
            None => r matches Err(ExecutionError::InvalidInputType),
        },
{
    match file {
        Some(f) => Ok(crate::streams::NodeFrameStreamRequest { node_id, file_path: f.clone(), stream_kind: kind }),
        None => Err(ExecutionError::InvalidInputType),
    }
}

/// The execution error of a source stream that failed for file `path`:
/// a stream still loading (`loading` names its file) is not ready yet; any
/// other failure (`detail` describes it) is an upload error for images and
/// a stream error for videos.
pub fn stream_failure(
    kind: crate::streams::StreamKind,
    loading: Option<String>,
    path: &str,
    detail: &str,
) -> (r: ExecutionError)
    ensures
        match loading {
            Some(l) => r matches ExecutionError::FrameStreamNotReady(p) && p == l,
            None => match kind {
                crate::streams::StreamKind::Image => r matches ExecutionError::TextureUploadError(m)
                    && m@ == "Image source stream execution failed: "@ + detail@,
                crate::streams::StreamKind::Video => r matches ExecutionError::VideoStreamError(p, m)
                    && p@ == path@ && m@ == "Video source stream execution failed: "@ + detail@,
            },
        },
{
    match loading {
        Some(l) => ExecutionError::FrameStreamNotReady(l),
        None => match kind {
            crate::streams::StreamKind::Image => {
                let mut m = String::from_str("Image source stream execution failed: ");
                m.append(detail);
                ExecutionError::TextureUploadError(m)
            },
            crate::streams::StreamKind::Video => {
                let mut m = String::from_str("Video source stream execution failed: ");
                m.append(detail);
                ExecutionError::VideoStreamError(String::from_str(path), m)
            },
        },
    }
}

/// What an execution reports: the output node and the outputs it produced.
#[derive(Debug)]
pub struct ExecutionResult<'a, V> {
    /// The node chosen as the graph's output.
    pub output_node_id: EngineNodeId,
    /// The output node's outputs, by name.
    pub outputs: &'a V,
}

/// The first cached entry of node `id`, if any.
pub open spec fn cache_entry<V>(cache: Seq<(EngineNodeId, V)>, id: EngineNodeId) -> Option<V>
    decreases cache.len(),
{
    if cache.len() == 0 {
        None
    } else if cache[0].0 == id {
        Some(cache[0].1)
    } else {
        cache_entry(cache.drop_first(), id)
    }
}

/// The result of an execution whose output node is `output_node_id`: its
/// cached outputs, or `NoOutputProduced` when it has none.
pub fn execution_result<'a, V>(output_node_id: EngineNodeId, cache: &'a Vec<(EngineNodeId, V)>) -> (r: Result<
    ExecutionResult<'a, V>,
    ExecutionError,
>)
    ensures
        match cache_entry(cache@, output_node_id) {
            Some(v) => r matches Ok(res) && res.output_node_id == output_node_id && *res.outputs == v,
            None => r matches Err(ExecutionError::NoOutputProduced),
        },
{
    let mut i: usize = 0;
    assert(cache@.skip(0) =~= cache@);
    while i < cache.len()
        invariant
            i <= cache@.len(),
            cache_entry(cache@, output_node_id) == cache_entry(cache@.skip(i as int), output_node_id),
        decreases cache.len() - i,
    {
        assert(cache@.skip(i as int).drop_first() =~= cache@.skip(i + 1));
        if cache[i].0 == output_node_id {
            return Ok(ExecutionResult { output_node_id, outputs: &cache[i].1 });
        }
        i = i + 1;
    }
    Err(ExecutionError::NoOutputProduced)
}

/// The cache entries of nodes still in the execution order, in order.
pub fn retain_live_nodes<V>(cache: Vec<(EngineNodeId, V)>, live: &Vec<EngineNodeId>) -> (r: Vec<(EngineNodeId, V)>)
    ensures
        r@ == cache@.filter(|e: (EngineNodeId, V)| live@.contains(e.0)),
{
    let ghost all = cache@;
    let ghost keep = |e: (EngineNodeId, V)| live@.contains(e.0);
    let n = cache.len();
    let mut rest = cache;
    let mut kept: Vec<(EngineNodeId, V)> = Vec::new();
    let mut i: usize = 0;
    while i < n
        invariant
            n == all.len(),
            keep == (|e: (EngineNodeId, V)| live@.contains(e.0)),
            i <= n,
            i + rest@.len() == n,
            rest@ == all.skip(i as int),
            kept@ == all.take(i as int).filter(keep),
        decreases n - i,
    {
        proof {
            crate::library::lemma_filter_take_step(all, keep, i as int);
        }
        assert(rest@[0] == all[i as int]);
        let e = rest.remove(0);
        if contains_node(live, e.0) {
            kept.push(e);
        }
        assert(rest@ =~= all.skip(i + 1));
        i = i + 1;
    }
    proof {
        crate::library::lemma_filter_take_all(all, keep);
    }
    kept
}

} // verus!
