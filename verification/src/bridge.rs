//! The editor backend's link to the engine: the commands it sends, the
//! state its command handlers share, and how the frontend's graph becomes
//! the engine graph.
use vstd::prelude::*;
use vstd::string::StringExecFns;
use crate::execution::{NodeGraph, graph_model};
use crate::frames::FrameState;
use crate::library::{NodeLibrary, find_def};
use crate::schema::{EngineNodeId, FloatBits, InputValue, InputValueView, NodeInput, NodeInputKind, opt_value_view};
use crate::text::text_eq;

verus! {

/// A command to the engine.
#[derive(Debug)]
pub enum EngineCommand {
    /// Replace the engine graph.
    UpdateGraph(NodeGraph),
    /// Output this node's result (or nothing).
    SetOutputNode(Option<EngineNodeId>),
    PlayStreams,
    PauseStreams,
    /// Drop a manually set frame rate.
    ClearManualFps,
}

#[verifier::external_type_specification]
#[verifier::external_body]
#[verifier::reject_recursive_types(T)]
pub struct ExSender<T>(std::sync::mpsc::Sender<T>);

/// Calls `Sender::send`; `true` when the command was queued. Whether the
/// receiving end is still alive is up to the engine thread, so nothing is
/// claimed about the result.
#[verifier::external_body]
fn send_command(sender: &std::sync::mpsc::Sender<EngineCommand>, command: EngineCommand) -> (r: bool) {
    sender.send(command).is_ok()
}

/// A number from the frontend, already converted to each type a widget
/// stores: a float, an int and a choice index.
#[derive(Clone, Copy, Debug, PartialEq, Eq, Structural)]
pub struct RawNumber {
    pub float: FloatBits,
    pub int: i32,
    pub index: usize,
}

/// A widget value as the frontend sent it.
#[derive(Debug)]
pub enum RawWidgetValue {
    Bool(bool),
    Number(RawNumber),
    /// A string, with the number it reads as, if any (selects and number
    /// fields send numbers as strings).
    Text(String, Option<RawNumber>),
    /// Anything else.
    Other,
}

/// The number a raw value holds or reads as.
pub open spec fn raw_number(raw: RawWidgetValue) -> Option<RawNumber> {
    match raw {
        RawWidgetValue::Number(n) => Some(n),
        RawWidgetValue::Text(_, n) => n,
        _ => None,
    }
}

/// The input value a raw widget value gives an input of kind `kind`: numbers
/// for numeric kinds and choices, booleans for flags, strings for text and
/// port selections, non-empty strings for files; nothing for kinds without
/// a widget or values of the wrong shape.
pub open spec fn coerced(kind: NodeInputKind, raw: RawWidgetValue) -> Option<InputValueView> {
    match kind {
        NodeInputKind::Float { .. } => match raw_number(raw) {
            Some(n) => Some(InputValueView::Float(n.float)),
            None => None,
        },
        NodeInputKind::Int { .. } => match raw_number(raw) {
            Some(n) => Some(InputValueView::Int(n.int)),
            None => None,
        },
        NodeInputKind::Enum { .. } => match raw_number(raw) {
            Some(n) => Some(InputValueView::Enum(n.index)),
            None => None,
        },
        NodeInputKind::Bool { .. } => match raw {
            RawWidgetValue::Bool(b) => Some(InputValueView::Bool(b)),
            _ => None,
        },
        NodeInputKind::Text { .. } => match raw {
            RawWidgetValue::Text(s, _) => Some(InputValueView::Text(s@)),
            _ => None,
        },
        NodeInputKind::PortSelection => match raw {
            RawWidgetValue::Text(s, _) => Some(InputValueView::Text(s@)),
            _ => None,
        },
        NodeInputKind::File { .. } => match raw {
            RawWidgetValue::Text(s, _) => if s@.len() > 0 {
                Some(InputValueView::File(s@))
            } else {
                None
            },
            _ => None,
        },
        _ => None,
    }
}

/// Number widgets may send their value as a number or as text that reads as
/// one: for a float, integer or choice input the two give the same value,
/// the number's float, integer or index reading.
pub proof fn lemma_numeric_text_reads_as_number(kind: NodeInputKind, text: String, n: RawNumber)
    requires
        kind is Float || kind is Int || kind is Enum,
    ensures
        coerced(kind, RawWidgetValue::Text(text, Some(n))) == coerced(kind, RawWidgetValue::Number(n)),
        coerced(kind, RawWidgetValue::Number(n)) is Some,
        kind is Float ==> coerced(kind, RawWidgetValue::Number(n)) == Some(InputValueView::Float(n.float)),
        kind is Int ==> coerced(kind, RawWidgetValue::Number(n)) == Some(InputValueView::Int(n.int)),
        kind is Enum ==> coerced(kind, RawWidgetValue::Number(n)) == Some(InputValueView::Enum(n.index)),
{
}

/// See [coerced].
pub fn coerce_input(kind: &NodeInputKind, raw: &RawWidgetValue) -> (r: Option<InputValue>)
    ensures
        opt_value_view(r) == coerced(*kind, *raw),
{
    let number: Option<RawNumber> = match raw {
        RawWidgetValue::Number(n) => Some(*n),
        RawWidgetValue::Text(_, n) => *n,
        _ => None,
    };
    match kind {
        NodeInputKind::Float { .. } => match number {
            Some(n) => Some(InputValue::Float(n.float)),
            None => None,
        },
        NodeInputKind::Int { .. } => match number {
            Some(n) => Some(InputValue::Int(n.int)),
            None => None,
        },
        NodeInputKind::Enum { .. } => match number {
            Some(n) => Some(InputValue::Enum(n.index)),
            None => None,
        },
        NodeInputKind::Bool { .. } => match raw {
            RawWidgetValue::Bool(b) => Some(InputValue::Bool(*b)),
            _ => None,
        },
        NodeInputKind::Text { .. } | NodeInputKind::PortSelection => match raw {
            RawWidgetValue::Text(s, _) => Some(InputValue::Text(s.clone())),
            _ => None,
        },
        NodeInputKind::File { .. } => match raw {
            RawWidgetValue::Text(s, _) => if s.unicode_len() > 0 {
                Some(InputValue::File(s.clone()))
            } else {
                None
            },
            _ => None,
        },
        _ => None,
    }
}

/// A node of the frontend's graph: its id, its type (a definition name) and
/// its widget values by input name.
#[derive(Debug)]
pub struct NodePayload {
    pub id: String,
    pub node_type: String,
    pub values: Vec<(String, RawWidgetValue)>,
}

/// An edge of the frontend's graph, between named pins.
#[derive(Debug)]
pub struct EdgePayload {
    pub from_node: String,
    pub from_output: String,
    pub to_node: String,
    pub to_input: String,
}

/// The frontend's graph and the node that feeds the output monitor.
#[derive(Debug)]
pub struct GraphPayload {
    pub nodes: Vec<NodePayload>,
    pub edges: Vec<EdgePayload>,
    pub output_source: Option<String>,
}

/// The frontend-to-engine id map as plain values.
pub open spec fn id_map_view(m: Seq<(String, EngineNodeId)>) -> Seq<(Seq<char>, EngineNodeId)> {
    m.map_values(|e: (String, EngineNodeId)| (e.0@, e.1))
}

/// The engine id the first entry for `key` holds.
pub open spec fn lookup_id(m: Seq<(Seq<char>, EngineNodeId)>, key: Seq<char>) -> Option<EngineNodeId>
    decreases m.len(),
{
    if m.len() == 0 {
        None
    } else if m[0].0 == key {
        Some(m[0].1)
    } else {
        lookup_id(m.drop_first(), key)
    }
}

/// Some node of the payload has id `key`.
pub open spec fn is_live(nodes: Seq<NodePayload>, key: Seq<char>) -> bool {
    exists|k: int| 0 <= k < nodes.len() && (#[trigger] nodes[k]).id@ == key
}

/// Entries of nodes still in the payload.
pub open spec fn live_entry(nodes: Seq<NodePayload>) -> spec_fn((Seq<char>, EngineNodeId)) -> bool {
    |e: (Seq<char>, EngineNodeId)| is_live(nodes, e.0)
}

/// The id map after the first `k` payload nodes got an engine id: a node
/// without an entry gets its fresh id.
pub open spec fn assign_ids(
    m: Seq<(Seq<char>, EngineNodeId)>,
    nodes: Seq<NodePayload>,
    fresh: Seq<EngineNodeId>,
    k: int,
) -> Seq<(Seq<char>, EngineNodeId)>
    decreases k,
{
    if k <= 0 {
        m
    } else {
        let prev = assign_ids(m, nodes, fresh, k - 1);
        if lookup_id(prev, nodes[k - 1].id@) is Some {
            prev
        } else {
            prev.push((nodes[k - 1].id@, fresh[k - 1]))
        }
    }
}

/// The widget value sent for input `name`, if any.
pub open spec fn raw_value_of(values: Seq<(String, RawWidgetValue)>, name: Seq<char>) -> Option<RawWidgetValue>
    decreases values.len(),
{
    if values.len() == 0 {
        None
    } else if values[0].0@ == name {
        Some(values[0].1)
    } else {
        raw_value_of(values.drop_first(), name)
    }
}

/// The literal values the first `j` inputs of a definition take from the
/// widget values sent.
pub open spec fn literal_values(
    inputs: Seq<NodeInput>,
    values: Seq<(String, RawWidgetValue)>,
    j: int,
) -> Map<Seq<char>, InputValueView>
    decreases j,
{
    if j <= 0 {
        Map::empty()
    } else {
        let prev = literal_values(inputs, values, j - 1);
        let input = inputs[j - 1];
        match raw_value_of(values, input.name@) {
            Some(raw) => match coerced(input.kind, raw) {
                Some(v) => prev.insert(input.name@, v),
                None => prev,
            },
            None => prev,
        }
    }
}

/// The engine graph after the first `k` payload nodes were added, each
/// with the literal values its definition's inputs take.
pub open spec fn nodes_model(
    nodes: Seq<NodePayload>,
    defs: Seq<crate::schema::NodeDefinition>,
    kept: Seq<(Seq<char>, EngineNodeId)>,
    fresh: Seq<EngineNodeId>,
    k: int,
) -> Map<EngineNodeId, (Seq<char>, Map<Seq<char>, InputValueView>)>
    decreases k,
{
    if k <= 0 {
        Map::empty()
    } else {
        let prev = nodes_model(nodes, defs, kept, fresh, k - 1);
        let n = nodes[k - 1];
        let vals = match find_def(defs, n.node_type@) {
            Some(d) => literal_values(d.node.inputs@, n.values@, d.node.inputs@.len() as int),
            None => Map::empty(),
        };
        match lookup_id(assign_ids(kept, nodes, fresh, k), n.id@) {
            Some(id) => prev.insert(id, (n.node_type@, vals)),
            None => prev,
        }
    }
}

/// The engine graph after the first `j` edges were wired: an edge whose
/// ends both have engine instances sets its target input to a connection.
pub open spec fn edges_model(
    base: Map<EngineNodeId, (Seq<char>, Map<Seq<char>, InputValueView>)>,
    edges: Seq<EdgePayload>,
    ids: Seq<(Seq<char>, EngineNodeId)>,
    j: int,
) -> Map<EngineNodeId, (Seq<char>, Map<Seq<char>, InputValueView>)>
    decreases j,
{
    if j <= 0 {
        base
    } else {
        let prev = edges_model(base, edges, ids, j - 1);
        let e = edges[j - 1];
        match (lookup_id(ids, e.from_node@), lookup_id(ids, e.to_node@)) {
            (Some(f), Some(t)) => if prev.contains_key(f) && prev.contains_key(t) {
                prev.insert(
                    t,
                    (prev[t].0, prev[t].1.insert(e.to_input@, InputValueView::Connection { from_node: f, from_output: e.from_output@ })),
                )
            } else {
                prev
            },
            _ => prev,
        }
    }
}

/// Every payload node's type is a known definition.
pub open spec fn all_known(nodes: Seq<NodePayload>, defs: Seq<crate::schema::NodeDefinition>) -> bool {
    forall|k: int| 0 <= k < nodes.len() ==> find_def(defs, (#[trigger] nodes[k]).node_type@) is Some
}

/// Node `k` is the first payload node of an unknown type.
pub open spec fn first_unknown(nodes: Seq<NodePayload>, defs: Seq<crate::schema::NodeDefinition>, k: int) -> bool {
    &&& 0 <= k < nodes.len()
    &&& find_def(defs, nodes[k].node_type@) is None
    &&& forall|j: int| 0 <= j < k ==> find_def(defs, (#[trigger] nodes[j]).node_type@) is Some
}

/// "unknown node type '<t>'"
pub open spec fn unknown_type_message(t: Seq<char>) -> Seq<char> {
    "unknown node type '"@ + t + "'"@
}

proof fn lemma_lookup_push(m: Seq<(Seq<char>, EngineNodeId)>, e: (Seq<char>, EngineNodeId), key: Seq<char>)
    ensures
        lookup_id(m, key) is Some ==> lookup_id(m.push(e), key) == lookup_id(m, key),
        lookup_id(m, key) is None ==> lookup_id(m.push(e), key) == (if e.0 == key {
            Some(e.1)
        } else {
            None::<EngineNodeId>
        }),
    decreases m.len(),
{
    if m.len() > 0 {
        assert(m.push(e).drop_first() =~= m.drop_first().push(e));
        assert(m.push(e)[0] == m[0]);
        lemma_lookup_push(m.drop_first(), e, key);
    } else {
        assert(m.push(e)[0] == e);
        assert(m.push(e).drop_first() =~= Seq::<(Seq<char>, EngineNodeId)>::empty());
        assert(lookup_id(m.push(e).drop_first(), key) is None);
    }
}

proof fn lemma_lookup_filter_live(m: Seq<(Seq<char>, EngineNodeId)>, nodes: Seq<NodePayload>, id: Seq<char>)
    requires
        is_live(nodes, id),
    ensures
        lookup_id(m.filter(live_entry(nodes)), id) == lookup_id(m, id),
    decreases m.len(),
{
    broadcast use vstd::seq_lib::group_filter_ensures;

    let p = live_entry(nodes);
    if m.len() > 0 {
        lemma_lookup_filter_live(m.drop_first(), nodes, id);
        reveal(Seq::filter);
        let f = m.filter(p);
        assert(m =~= seq![m[0]] + m.drop_first());
        Seq::filter_distributes_over_add(seq![m[0]], m.drop_first(), p);
        assert(seq![m[0]].drop_last() =~= Seq::<(Seq<char>, EngineNodeId)>::empty());
        assert(Seq::<(Seq<char>, EngineNodeId)>::empty().filter(p) =~= Seq::<(Seq<char>, EngineNodeId)>::empty());
        if p(m[0]) {
            assert(seq![m[0]].filter(p) =~= seq![m[0]]);
            assert(f =~= seq![m[0]] + m.drop_first().filter(p));
            assert(f[0] == m[0]);
            assert(f.drop_first() =~= m.drop_first().filter(p));
        } else {
            assert(seq![m[0]].filter(p) =~= Seq::<(Seq<char>, EngineNodeId)>::empty());
            assert(f =~= m.drop_first().filter(p));
            assert(m[0].0 != id);
        }
    } else {
        assert(m.filter(p) =~= m);
    }
}

proof fn lemma_assign_keeps(
    m: Seq<(Seq<char>, EngineNodeId)>,
    nodes: Seq<NodePayload>,
    fresh: Seq<EngineNodeId>,
    id: Seq<char>,
    k: int,
)
    requires
        lookup_id(m, id) is Some,
    ensures
        lookup_id(assign_ids(m, nodes, fresh, k), id) == lookup_id(m, id),
    decreases k,
{
    if k > 0 {
        lemma_assign_keeps(m, nodes, fresh, id, k - 1);
        let prev = assign_ids(m, nodes, fresh, k - 1);
        lemma_lookup_push(prev, (nodes[k - 1].id@, fresh[k - 1]), id);
    }
}

proof fn lemma_assign_maps(
    m: Seq<(Seq<char>, EngineNodeId)>,
    nodes: Seq<NodePayload>,
    fresh: Seq<EngineNodeId>,
    j: int,
    k: int,
)
    requires
        0 <= j < k,
    ensures
        lookup_id(assign_ids(m, nodes, fresh, k), nodes[j].id@) is Some,
    decreases k,
{
    let prev = assign_ids(m, nodes, fresh, k - 1);
    lemma_lookup_push(prev, (nodes[k - 1].id@, fresh[k - 1]), nodes[j].id@);
    if j < k - 1 {
        lemma_assign_maps(m, nodes, fresh, j, k - 1);
    }
}

/// A node that stays in the frontend's graph keeps the engine id it had,
/// so its state in the engine survives graph edits; and every node of the
/// graph has an engine id after an update.
pub proof fn lemma_engine_ids_stable(
    old_ids: Seq<(Seq<char>, EngineNodeId)>,
    nodes: Seq<NodePayload>,
    fresh: Seq<EngineNodeId>,
)
    ensures
        forall|id: Seq<char>|
            is_live(nodes, id) && lookup_id(old_ids, id) is Some ==> #[trigger] lookup_id(
                assign_ids(old_ids.filter(live_entry(nodes)), nodes, fresh, nodes.len() as int),
                id,
            ) == lookup_id(old_ids, id),
        forall|k: int|
            0 <= k < nodes.len() ==> lookup_id(
                assign_ids(old_ids.filter(live_entry(nodes)), nodes, fresh, nodes.len() as int),
                (#[trigger] nodes[k]).id@,
            ) is Some,
{
    let kept = old_ids.filter(live_entry(nodes));
    assert forall|id: Seq<char>| is_live(nodes, id) && lookup_id(old_ids, id) is Some implies #[trigger] lookup_id(
        assign_ids(kept, nodes, fresh, nodes.len() as int),
        id,
    ) == lookup_id(old_ids, id) by {
        lemma_lookup_filter_live(old_ids, nodes, id);
        lemma_assign_keeps(kept, nodes, fresh, id, nodes.len() as int);
    }
    assert forall|k: int| 0 <= k < nodes.len() implies lookup_id(
        assign_ids(kept, nodes, fresh, nodes.len() as int),
        (#[trigger] nodes[k]).id@,
    ) is Some by {
        lemma_assign_maps(kept, nodes, fresh, k, nodes.len() as int);
    }
}

/// See [lookup_id].
fn lookup_engine_id(m: &Vec<(String, EngineNodeId)>, key: &str) -> (r: Option<EngineNodeId>)
    ensures
        r == lookup_id(id_map_view(m@), key@),
{
    let ghost v = id_map_view(m@);
    assert(v.skip(0) =~= v);
    let mut i: usize = 0;
    while i < m.len()
        invariant
            v == id_map_view(m@),
            i <= m@.len(),
            lookup_id(v, key@) == lookup_id(v.skip(i as int), key@),
        decreases m.len() - i,
    {
        assert(v.skip(i as int).drop_first() =~= v.skip(i + 1));
        if text_eq(m[i].0.as_str(), key) {
            return Some(m[i].1);
        }
        i = i + 1;
    }
    None
}

/// See [raw_value_of].
fn raw_value<'a>(values: &'a Vec<(String, RawWidgetValue)>, name: &str) -> (r: Option<&'a RawWidgetValue>)
    ensures
        match r {
            Some(v) => raw_value_of(values@, name@) == Some(*v),
            None => raw_value_of(values@, name@) is None,
        },
{
    assert(values@.skip(0) =~= values@);
    let mut i: usize = 0;
    while i < values.len()
        invariant
            i <= values@.len(),
            raw_value_of(values@, name@) == raw_value_of(values@.skip(i as int), name@),
        decreases values.len() - i,
    {
        assert(values@.skip(i as int).drop_first() =~= values@.skip(i + 1));
        if text_eq(values[i].0.as_str(), name) {
            return Some(&values[i].1);
        }
        i = i + 1;
    }
    None
}

/// See [is_live].
fn is_live_id(nodes: &Vec<NodePayload>, key: &str) -> (r: bool)
    ensures
        r == is_live(nodes@, key@),
{
    let mut k: usize = 0;
    while k < nodes.len()
        invariant
            k <= nodes@.len(),
            forall|j: int| 0 <= j < k ==> (#[trigger] nodes@[j]).id@ != key@,
        decreases nodes.len() - k,
    {
        if text_eq(nodes[k].id.as_str(), key) {
            return true;
        }
        k = k + 1;
    }
    false
}

/// Keeps the entries of nodes still in the payload, in order.
fn retain_live(m: Vec<(String, EngineNodeId)>, nodes: &Vec<NodePayload>) -> (r: Vec<(String, EngineNodeId)>)
    ensures
        id_map_view(r@) == id_map_view(m@).filter(live_entry(nodes@)),
{
    let ghost v = id_map_view(m@);
    let ghost keep = live_entry(nodes@);
    let n = m.len();
    let mut rest = m;
    let mut kept: Vec<(String, EngineNodeId)> = Vec::new();
    let mut i: usize = 0;
    while rest.len() > 0
        invariant
            keep == live_entry(nodes@),
            i <= v.len(),
            n == v.len(),
            i + rest@.len() == n,
            id_map_view(rest@) == v.skip(i as int),
            id_map_view(kept@) == v.take(i as int).filter(keep),
        decreases rest.len(),
    {
        proof {
            assert(v.skip(i as int).len() > 0);
            crate::library::lemma_filter_take_step(v, keep, i as int);
            assert(id_map_view(rest@)[0] == v[i as int]);
        }
        let e = rest.remove(0);
        let ghost before = kept@;
        if is_live_id(nodes, e.0.as_str()) {
            kept.push(e);
            assert(id_map_view(kept@) =~= id_map_view(before).push(v[i as int]));
        }
        assert(v.skip(i as int).drop_first() =~= v.skip(i + 1));
        assert(id_map_view(rest@) =~= v.skip(i + 1));
        i = i + 1;
    }
    proof {
        assert(v.skip(i as int).len() == 0);
        crate::library::lemma_filter_take_all(v, keep);
    }
    kept
}

/// Builds the engine graph for the frontend's graph. Mappings of nodes no
/// longer in the payload are dropped from `node_ids`, and each payload node
/// without a mapping gets `fresh[k]` (`k` its position); then each node is
/// added as an instance with the literal values its widgets give, each edge
/// between mapped nodes is wired, and the output source's engine id is
/// looked up. A node of an unknown type fails the build (the mappings made
/// up to it stay).
pub fn build_engine_graph(
    payload: &GraphPayload,
    library: &NodeLibrary,
    node_ids: &mut Vec<(String, EngineNodeId)>,
    fresh: &Vec<EngineNodeId>,
) -> (r: Result<(NodeGraph, Option<EngineNodeId>), String>)
    requires
        fresh@.len() >= payload.nodes@.len(),
    ensures
        ({
            let nodes = payload.nodes@;
            let kept = id_map_view(old(node_ids)@).filter(live_entry(nodes));
            let all_ids = assign_ids(kept, nodes, fresh@, nodes.len() as int);
            match r {
                Ok((g, out)) => {
                    &&& all_known(nodes, library@)
                    &&& id_map_view(final(node_ids)@) == all_ids
                    &&& g.wf()
                    &&& graph_model(g) == edges_model(
                        nodes_model(nodes, library@, kept, fresh@, nodes.len() as int),
                        payload.edges@,
                        all_ids,
                        payload.edges@.len() as int,
                    )
                    &&& out == match payload.output_source {
                        Some(s) => lookup_id(all_ids, s@),
                        None => None,
                    }
                },
                Err(e) => exists|k: int|
                    first_unknown(nodes, library@, k) && e@ == unknown_type_message(#[trigger] nodes[k].node_type@)
                        && id_map_view(final(node_ids)@) == assign_ids(kept, nodes, fresh@, k + 1),
            }
        }),
{
    let ghost nodes = payload.nodes@;
    let mut taken: Vec<(String, EngineNodeId)> = Vec::new();
    std::mem::swap(&mut taken, node_ids);
    *node_ids = retain_live(taken, &payload.nodes);
    let ghost kept = id_map_view(node_ids@);
    let mut graph = NodeGraph::new();
    proof {
        assert(graph_model(graph) =~= nodes_model(nodes, library@, kept, fresh@, 0));
    }
    let mut k: usize = 0;
    while k < payload.nodes.len()
        invariant
            nodes == payload.nodes@,
            fresh@.len() >= nodes.len(),
            k <= nodes.len(),
            kept == id_map_view(old(node_ids)@).filter(live_entry(nodes)),
            id_map_view(node_ids@) == assign_ids(kept, nodes, fresh@, k as int),
            graph.wf(),
            graph_model(graph) == nodes_model(nodes, library@, kept, fresh@, k as int),
            forall|j: int| 0 <= j < k ==> find_def(library@, (#[trigger] nodes[j]).node_type@) is Some,
        decreases nodes.len() - k,
    {
        let node = &payload.nodes[k];
        let ghost prev_ids = id_map_view(node_ids@);
        let eid = match lookup_engine_id(node_ids, node.id.as_str()) {
            Some(e) => e,
            None => {
                let f = fresh[k];
                node_ids.push((node.id.clone(), f));
                proof {
                    assert(id_map_view(node_ids@) =~= prev_ids.push((node.id@, f)));
                }
                f
            },
        };
        proof {
            lemma_lookup_push(prev_ids, (node.id@, fresh@[k as int]), node.id@);
            assert(id_map_view(node_ids@) == assign_ids(kept, nodes, fresh@, k + 1));
            assert(lookup_id(assign_ids(kept, nodes, fresh@, k + 1), node.id@) == Some(eid));
        }
        let ghost base = graph_model(graph);
        graph.add_instance_with_id(eid, node.node_type.clone());
        let def = match library.get_definition(node.node_type.as_str()) {
            Some(d) => d,
            None => {
                let mut msg = String::from_str("unknown node type '");
                msg.append(node.node_type.as_str());
                msg.append("'");
                proof {
                    assert(first_unknown(nodes, library@, k as int));
                }
                return Err(msg);
            },
        };
        let ghost inputs = def.node.inputs@;
        let mut j: usize = 0;
        while j < def.node.inputs.len()
            invariant
                inputs == def.node.inputs@,
                j <= inputs.len(),
                graph.wf(),
                graph_model(graph) == base.insert(eid, (node.node_type@, literal_values(inputs, node.values@, j as int))),
            decreases def.node.inputs.len() - j,
        {
            let input = &def.node.inputs[j];
            let ghost before = graph_model(graph);
            match raw_value(&node.values, input.name.as_str()) {
                Some(raw) => match coerce_input(&input.kind, raw) {
                    Some(v) => {
                        graph.set_input_value(eid, input.name.clone(), v);
                        proof {
                            assert(graph_model(graph) =~= base.insert(
                                eid,
                                (node.node_type@, literal_values(inputs, node.values@, j + 1)),
                            ));
                        }
                    },
                    None => {},
                },
                None => {},
            }
            j = j + 1;
        }
        proof {
            assert(find_def(library@, node.node_type@) == Some(*def));
            assert(graph_model(graph) == nodes_model(nodes, library@, kept, fresh@, k + 1));
        }
        k = k + 1;
    }
    let ghost all_ids = id_map_view(node_ids@);
    let ghost base = graph_model(graph);
    let mut j: usize = 0;
    while j < payload.edges.len()
        invariant
            j <= payload.edges@.len(),
            all_ids == id_map_view(node_ids@),
            graph.wf(),
            graph_model(graph) == edges_model(base, payload.edges@, all_ids, j as int),
        decreases payload.edges.len() - j,
    {
        let e = &payload.edges[j];
        let from = lookup_engine_id(node_ids, e.from_node.as_str());
        let to = lookup_engine_id(node_ids, e.to_node.as_str());
        match (from, to) {
            (Some(f), Some(t)) => {
                let _ = graph.connect(f, e.from_output.clone(), t, e.to_input.clone());
            },
            _ => {},
        }
        j = j + 1;
    }
    let out = match &payload.output_source {
        Some(s) => lookup_engine_id(node_ids, s.as_str()),
        None => None,
    };
    Ok((graph, out))
}

/// What the backend's command handlers share: the engine's command channel
/// and node library (set once the engine runs), and the engine ids given to
/// the frontend's nodes.
pub struct EngineState {
    pub command_sender: Option<std::sync::mpsc::Sender<EngineCommand>>,
    pub library: Option<std::sync::Arc<NodeLibrary>>,
    /// Frontend node id, engine node id.
    pub node_ids: Vec<(String, EngineNodeId)>,
    /// Every command handed to the channel so far, with whether the channel
    /// took it.
    pub sent: Ghost<Seq<(EngineCommand, bool)>>,
}

/// The answer to a command the channel took (`delivered`) or refused
/// because the engine stopped receiving.
pub fn send_result(delivered: bool) -> (r: Result<(), String>)
    ensures
        delivered ==> r is Ok,
        !delivered ==> (r matches Err(e) && e@ == "engine disconnected"@),
{
    if delivered {
        Ok(())
    } else {
        Err(String::from_str("engine disconnected"))
    }
}

impl EngineState {
    /// The commands handed to the engine's channel so far, oldest first,
    /// each with whether the channel took it.
    pub open spec fn sent(self) -> Seq<(EngineCommand, bool)> {
        self.sent@
    }

    /// No engine yet, no node ids, nothing sent.
    pub fn new() -> (r: Self)
        ensures
            r.command_sender is None,
            r.library is None,
            r.node_ids@.len() == 0,
            r.sent() == Seq::<(EngineCommand, bool)>::empty(),
    {
        EngineState { command_sender: None, library: None, node_ids: Vec::new(), sent: Ghost(Seq::empty()) }
    }

    /// Sends a command to the engine: "engine not ready" before the engine
    /// runs, and nothing is sent; otherwise `command` is handed to the
    /// channel once, and the answer is `Ok` when the channel took it,
    /// "engine disconnected" when the engine stopped receiving.
    pub fn send(&mut self, command: EngineCommand) -> (r: Result<(), String>)
        ensures
            final(self).command_sender == old(self).command_sender,
            final(self).library == old(self).library,
            final(self).node_ids == old(self).node_ids,
            old(self).command_sender is None ==> (r matches Err(e) && e@ == "engine not ready"@) && final(self).sent()
                == old(self).sent(),
            old(self).command_sender is Some ==> {
                let delivered = final(self).sent().last().1;
                &&& final(self).sent() == old(self).sent().push((command, delivered))
                &&& delivered ==> r is Ok
                &&& !delivered ==> (r matches Err(e) && e@ == "engine disconnected"@)
            },
    {
        let ghost c = command;
        let delivered = match &self.command_sender {
            None => return Err(String::from_str("engine not ready")),
            Some(sender) => send_command(sender, command),
        };
        proof {
            self.sent@ = self.sent@.push((c, delivered));
        }
        send_result(delivered)
    }
}

/// The engine graph (as a map) built for `payload` when every node type is
/// known, `kept` being the surviving id mappings.
pub open spec fn built_graph_model(
    payload: GraphPayload,
    defs: Seq<crate::schema::NodeDefinition>,
    kept: Seq<(Seq<char>, EngineNodeId)>,
    fresh: Seq<EngineNodeId>,
) -> Map<EngineNodeId, (Seq<char>, Map<Seq<char>, InputValueView>)> {
    let nodes = payload.nodes@;
    edges_model(
        nodes_model(nodes, defs, kept, fresh, nodes.len() as int),
        payload.edges@,
        assign_ids(kept, nodes, fresh, nodes.len() as int),
        payload.edges@.len() as int,
    )
}

/// The engine id of `payload`'s output source under the id mappings `ids`.
pub open spec fn built_output(payload: GraphPayload, ids: Seq<(Seq<char>, EngineNodeId)>) -> Option<EngineNodeId> {
    match payload.output_source {
        Some(s) => lookup_id(ids, s@),
        None => None,
    }
}

/// Going from log `before` to log `after`, a graph with map `model` was
/// handed to the channel, then (only if the channel took it) the output
/// node `out`; `r` answers the last send.
pub open spec fn graph_then_output_sent(
    before: Seq<(EngineCommand, bool)>,
    after: Seq<(EngineCommand, bool)>,
    model: Map<EngineNodeId, (Seq<char>, Map<Seq<char>, InputValueView>)>,
    out: Option<EngineNodeId>,
    r: Result<(), String>,
) -> bool {
    let n = before.len() as int;
    &&& after.len() >= n + 1
    &&& after.take(n) == before
    &&& (after[n].0 matches EngineCommand::UpdateGraph(g) && g.wf() && graph_model(g) == model)
    &&& if after[n].1 {
        &&& after.len() == n + 2
        &&& after[n + 1].0 == EngineCommand::SetOutputNode(out)
        &&& after[n + 1].1 ==> r is Ok
        &&& !after[n + 1].1 ==> (r matches Err(e) && e@ == "engine disconnected"@)
    } else {
        &&& after.len() == n + 1
        &&& r matches Err(e) && e@ == "engine disconnected"@
    }
}

/// Pushes the frontend's graph to the engine: builds the engine graph (see
/// [build_engine_graph]), bumps the frame generation so frames rendered for
/// the previous graph are dropped, then sends the graph and, once the
/// channel took it, the output node. "engine not ready" while the engine has
/// no library or no channel yet; nothing is sent on any error found before
/// sending.
pub fn update_graph(
    payload: &GraphPayload,
    engine: &mut EngineState,
    frames: &mut FrameState,
    fresh: &Vec<EngineNodeId>,
) -> (r: Result<(), String>)
    requires
        fresh@.len() >= payload.nodes@.len(),
    ensures
        final(engine).library == old(engine).library,
        final(engine).command_sender == old(engine).command_sender,
        final(frames).latest_frame == old(frames).latest_frame,
        final(frames).preview_width == old(frames).preview_width,
        final(frames).preview_height == old(frames).preview_height,
        old(engine).library is None ==> (r matches Err(e) && e@ == "engine not ready"@) && final(engine).node_ids@
            == old(engine).node_ids@ && final(frames).generation == old(frames).generation && final(engine).sent()
            == old(engine).sent(),
        old(engine).library matches Some(lib) ==> ({
            let nodes = payload.nodes@;
            let kept = id_map_view(old(engine).node_ids@).filter(live_entry(nodes));
            if all_known(nodes, lib@) {
                let ids = assign_ids(kept, nodes, fresh@, nodes.len() as int);
                &&& id_map_view(final(engine).node_ids@) == ids
                &&& final(frames).generation == (if old(frames).generation == u64::MAX {
                    0
                } else {
                    old(frames).generation + 1
                })
                &&& old(engine).command_sender is None ==> (r matches Err(e) && e@ == "engine not ready"@)
                    && final(engine).sent() == old(engine).sent()
                &&& old(engine).command_sender is Some ==> graph_then_output_sent(
                    old(engine).sent(),
                    final(engine).sent(),
                    built_graph_model(*payload, lib@, kept, fresh@),
                    built_output(*payload, ids),
                    r,
                )
            } else {
                &&& final(frames).generation == old(frames).generation
                &&& final(engine).sent() == old(engine).sent()
                &&& exists|k: int|
                    first_unknown(nodes, lib@, k) && (r matches Err(e) && e@ == unknown_type_message(
                        #[trigger] nodes[k].node_type@,
                    )) && id_map_view(final(engine).node_ids@) == assign_ids(kept, nodes, fresh@, k + 1)
            }
        }),
{
    let ghost before = engine.sent();
    let built = match &engine.library {
        None => return Err(String::from_str("engine not ready")),
        Some(lib) => build_engine_graph(payload, lib, &mut engine.node_ids, fresh),
    };
    let (graph, output_node) = match built {
        Ok(b) => b,
        Err(e) => return Err(e),
    };
    frames.generation = if frames.generation == u64::MAX {
        0
    } else {
        frames.generation + 1
    };
    match engine.send(EngineCommand::UpdateGraph(graph)) {
        Ok(()) => {},
        Err(e) => {
            proof {
                assert(engine.sent().take(before.len() as int) =~= before);
            }
            return Err(e);
        },
    }
    let ghost mid = engine.sent();
    let r = engine.send(EngineCommand::SetOutputNode(output_node));
    proof {
        if old(engine).command_sender is Some {
            assert(engine.sent().take(before.len() as int) =~= before);
            assert(engine.sent()[before.len() as int] == mid[before.len() as int]);
        }
    }
    r
}

/// The command that moves the engine's streams from playing (`playing`) to
/// `enabled`: none when nothing changes.
pub fn playback_command(playing: bool, enabled: bool) -> (r: Option<EngineCommand>)
    ensures
        playing == enabled ==> r is None,
        playing != enabled && enabled ==> r matches Some(EngineCommand::PlayStreams),
        playing != enabled && !enabled ==> r matches Some(EngineCommand::PauseStreams),
{
    if playing == enabled {
        None
    } else if enabled {
        Some(EngineCommand::PlayStreams)
    } else {
        Some(EngineCommand::PauseStreams)
    }
}

} // verus!
