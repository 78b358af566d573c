//! Keeping MIDI source nodes consistent with the MIDI ports that exist.
//!
//! A MIDI source node names its port by text or by index. When that port is
//! gone (on project load, or whenever the graph changes), the node's outgoing
//! connections are dropped and its port selection is reset, so the engine
//! stops reading from it; the user is told once per such node.
use vstd::prelude::*;
use vstd::string::StringExecFns;
use crate::graph::{EditorGraph, InPinId, SnarlNodeId, Wire, has_node, node_data, opt_text};
use crate::library::{NodeLibrary, find_def};
use crate::schema::{BuiltInHandler, InputValue, InputValueView, NodeDefinition, NodeExecutionPlan};
use crate::text::{decimal, parse_usize, parse_usize_spec, push_decimal, text_eq, trim_text, trimmed};
use crate::values::InputValues;

verus! {

/// The port a node's "Port" value asks for: a text that is not blank
/// (trimmed), or an enum index written in decimal; `None` when it asks for
/// no particular port.
pub open spec fn port_query_spec(v: Option<InputValueView>) -> Option<Seq<char>> {
    match v {
        Some(InputValueView::Text(t)) => if trimmed(t).len() == 0 {
            None
        } else {
            Some(trimmed(t))
        },
        Some(InputValueView::Enum(i)) => Some(decimal(i as nat)),
        _ => None,
    }
}

/// The value stored under "Port", if any.
pub open spec fn port_value(values: Map<Seq<char>, InputValueView>) -> Option<InputValueView> {
    if values.contains_key("Port"@) {
        Some(values["Port"@])
    } else {
        None
    }
}

/// See [port_query_spec].
pub fn port_query(values: &InputValues) -> (r: Option<String>)
    ensures
        opt_text(r) == port_query_spec(port_value(values@)),
{
    match values.get("Port") {
        Some(InputValue::Text(t)) => {
            let trimmed_text = trim_text(t.as_str());
            if trimmed_text.unicode_len() == 0 {
                None
            } else {
                Some(String::from_str(trimmed_text))
            }
        },
        Some(InputValue::Enum(i)) => {
            let mut s = String::new();
            push_decimal(&mut s, *i);
            assert(Seq::<char>::empty() + decimal(*i as nat) =~= decimal(*i as nat));
            Some(s)
        },
        _ => None,
    }
}

/// A port query is served: some port exists, and the query is the index
/// of an existing port or, when it is not a number, the name of one.
pub open spec fn port_available_spec(ports: Seq<Seq<char>>, q: Seq<char>) -> bool {
    ports.len() > 0 && match parse_usize_spec(q) {
        Some(i) => i < ports.len(),
        None => ports.contains(q),
    }
}

/// See [port_available_spec].
pub fn port_available(ports: &Vec<String>, query: &str) -> (r: bool)
    ensures
        r == port_available_spec(crate::sorted::views(ports@), query@),
{
    if ports.len() == 0 {
        return false;
    }
    match parse_usize(query) {
        Some(i) => i < ports.len(),
        None => {
            let mut k: usize = 0;
            while k < ports.len()
                invariant
                    ports@.len() > 0,
                    parse_usize_spec(query@) is None,
                    k <= ports@.len(),
                    forall|j: int| 0 <= j < k ==> (#[trigger] ports@[j])@ != query@,
                decreases ports.len() - k,
            {
                if text_eq(ports[k].as_str(), query) {
                    assert(crate::sorted::views(ports@)[k as int] == query@);
                    return true;
                }
                k = k + 1;
            }
            proof {
                if crate::sorted::views(ports@).contains(query@) {
                    let j = choose|j: int|
                        0 <= j < crate::sorted::views(ports@).len() && crate::sorted::views(ports@)[j] == query@;
                    assert(ports@[j]@ == query@);
                }
            }
            false
        },
    }
}

/// The node is a MIDI source whose port query is not served: what it reads
/// from is gone.
pub open spec fn lost_port(defs: Seq<NodeDefinition>, ports: Seq<Seq<char>>, name: Seq<char>, values: Map<Seq<char>, InputValueView>) -> bool {
    &&& find_def(defs, name) matches Some(d)
    &&& d.node.executor == NodeExecutionPlan::BuiltIn(BuiltInHandler::MidiSource)
    &&& port_query_spec(port_value(values)) matches Some(q)
    &&& !port_available_spec(ports, q)
}

/// The input pins that node `n` feeds.
pub open spec fn fed_pins(wires: Seq<Wire>, n: SnarlNodeId) -> Set<InPinId> {
    Set::new(|p: InPinId| exists|k: int| 0 <= k < wires.len() && (#[trigger] wires[k]).from.node == n && wires[k].to == p)
}

/// Some wire leaves node `n`.
pub open spec fn feeds_any(wires: Seq<Wire>, n: SnarlNodeId) -> bool {
    exists|k: int| 0 <= k < wires.len() && (#[trigger] wires[k]).from.node == n
}

/// A wire into none of the pins `n` feeds.
pub open spec fn not_into_fed_pin(wires: Seq<Wire>, n: SnarlNodeId) -> spec_fn(Wire) -> bool {
    |w: Wire| !fed_pins(wires, n).contains(w.to)
}

/// The warning for a MIDI source node whose port is gone.
pub open spec fn lost_port_warning(defs: Seq<NodeDefinition>, name: Seq<char>, values: Map<Seq<char>, InputValueView>) -> Seq<char> {
    "'"@ + find_def(defs, name)->Some_0.node.name@ + "' was disconnected because MIDI port '"@
        + port_query_spec(port_value(values))->Some_0 + "' is no longer available."@
}

/// A node as plain values: id, definition name, input values, engine id.
pub open spec fn node_views(nodes: Seq<(SnarlNodeId, crate::graph::NodeData)>) -> Seq<
    (SnarlNodeId, Seq<char>, Map<Seq<char>, InputValueView>, Option<crate::schema::EngineNodeId>),
> {
    nodes.map_values(
        |e: (SnarlNodeId, crate::graph::NodeData)| (e.0, e.1.definition_name@, e.1.input_values@, e.1.engine_node_id),
    )
}

/// The nodes, wires and warnings after the first `i` nodes were checked in
/// order: a MIDI source node whose port is gone and that feeds some input
/// loses every wire into the inputs it feeds, its port selection is
/// blanked, and a warning is added.
pub open spec fn midi_check(
    defs: Seq<NodeDefinition>,
    ports: Seq<Seq<char>>,
    nodes: Seq<(SnarlNodeId, Seq<char>, Map<Seq<char>, InputValueView>, Option<crate::schema::EngineNodeId>)>,
    wires: Seq<Wire>,
    i: int,
) -> (
    Seq<(SnarlNodeId, Seq<char>, Map<Seq<char>, InputValueView>, Option<crate::schema::EngineNodeId>)>,
    Seq<Wire>,
    Seq<Seq<char>>,
)
    decreases i,
{
    if i <= 0 {
        (nodes, wires, Seq::empty())
    } else {
        let prev = midi_check(defs, ports, nodes, wires, i - 1);
        let (ns, ws, warns) = prev;
        let n = ns[i - 1];
        if lost_port(defs, ports, n.1, n.2) && feeds_any(ws, n.0) {
            (
                ns.update(i - 1, (n.0, n.1, n.2.insert("Port"@, InputValueView::Text(Seq::empty())), n.3)),
                ws.filter(not_into_fed_pin(ws, n.0)),
                warns.push(lost_port_warning(defs, n.1, n.2)),
            )
        } else {
            prev
        }
    }
}

/// "'<node>' was disconnected because MIDI port '<port>' is no longer available."
fn disconnect_message(node: &str, port: &str) -> (r: String)
    ensures
        r@ == "'"@ + node@ + "' was disconnected because MIDI port '"@ + port@ + "' is no longer available."@,
{
    let mut s = String::from_str("'");
    s.append(node);
    s.append("' was disconnected because MIDI port '");
    s.append(port);
    s.append("' is no longer available.");
    s
}

/// Disconnects node `nodes[i]` if it is a MIDI source whose port is gone
/// and that feeds some input: every wire into an input it feeds is dropped
/// (each input takes one connection) and its "Port" value becomes blank.
/// Returns the warning to show, `None` when nothing changed.
pub fn disconnect_lost_port(graph: &mut EditorGraph, i: usize, library: &NodeLibrary, ports: &Vec<String>) -> (r: Option<String>)
    requires
        old(graph).wf(),
        i < old(graph).nodes@.len(),
    ensures
        final(graph).wf(),
        final(graph).nodes@.len() == old(graph).nodes@.len(),
        ({
            let (id, d) = old(graph).nodes@[i as int];
            let disconnect = lost_port(library@, crate::sorted::views(ports@), d.definition_name@, d.input_values@)
                && feeds_any(old(graph).wires@, id);
            if disconnect {
                &&& r matches Some(w) && w@ == "'"@ + find_def(library@, d.definition_name@)->Some_0.node.name@
                    + "' was disconnected because MIDI port '"@ + port_query_spec(port_value(d.input_values@))->Some_0
                    + "' is no longer available."@
                &&& final(graph).wires@ == old(graph).wires@.filter(not_into_fed_pin(old(graph).wires@, id))
                &&& final(graph).nodes@[i as int].0 == id
                &&& final(graph).nodes@[i as int].1.definition_name == d.definition_name
                &&& final(graph).nodes@[i as int].1.engine_node_id == d.engine_node_id
                &&& final(graph).nodes@[i as int].1.input_values@ == d.input_values@.insert(
                    "Port"@,
                    InputValueView::Text(Seq::empty()),
                )
                &&& forall|j: int| 0 <= j < old(graph).nodes@.len() && j != i ==> final(graph).nodes@[j] == old(graph).nodes@[j]
            } else {
                &&& r is None
                &&& final(graph).wires@ == old(graph).wires@
                &&& final(graph).nodes@ == old(graph).nodes@
            }
        }),
{
    let id = graph.nodes[i].0;
    let ghost d = graph.nodes@[i as int].1;
    let ghost ws = graph.wires@;
    let def = match library.get_definition(graph.nodes[i].1.definition_name.as_str()) {
        Some(def) => def,
        None => return None,
    };
    if !matches!(def.node.executor, NodeExecutionPlan::BuiltIn(BuiltInHandler::MidiSource)) {
        return None;
    }
    let query = match port_query(&graph.nodes[i].1.input_values) {
        Some(q) => q,
        None => return None,
    };
    if port_available(ports, query.as_str()) {
        return None;
    }
    // The pins this node feeds.
    let mut pins: Vec<InPinId> = Vec::new();
    let mut k: usize = 0;
    while k < graph.wires.len()
        invariant
            ws == graph.wires@,
            k <= ws.len(),
            forall|p: InPinId| #[trigger] pins@.contains(p) <==> exists|t: int| 0 <= t < k && (#[trigger] ws[t]).from.node == id && ws[t].to == p,
        decreases graph.wires.len() - k,
    {
        let w = graph.wires[k];
        let ghost prev = pins@;
        if w.from.node == id {
            pins.push(w.to);
        }
        proof {
            assert forall|p: InPinId| #[trigger] pins@.contains(p) <==> exists|t: int| 0 <= t < k + 1 && (#[trigger] ws[t]).from.node == id && ws[t].to == p by {
                if pins@.contains(p) && !prev.contains(p) {
                    assert(ws[k as int] == w);
                }
                if prev.contains(p) {
                    let j = choose|j: int| 0 <= j < prev.len() && prev[j] == p;
                    assert(pins@[j] == p);
                }
                if exists|t: int| 0 <= t < k + 1 && (#[trigger] ws[t]).from.node == id && ws[t].to == p {
                    let t = choose|t: int| 0 <= t < k + 1 && (#[trigger] ws[t]).from.node == id && ws[t].to == p;
                    if t == k {
                        assert(pins@[pins@.len() - 1] == p);
                    } else {
                        assert(prev.contains(p));
                        let j = choose|j: int| 0 <= j < prev.len() && prev[j] == p;
                        assert(pins@[j] == p);
                    }
                }
            }
        }
        k = k + 1;
    }
    proof {
        assert forall|p: InPinId| pins@.contains(p) <==> fed_pins(ws, id).contains(p) by {}
    }
    if pins.len() == 0 {
        proof {
            if feeds_any(ws, id) {
                let t = choose|t: int| 0 <= t < ws.len() && (#[trigger] ws[t]).from.node == id;
                assert(fed_pins(ws, id).contains(ws[t].to));
                assert(pins@.contains(ws[t].to));
            }
        }
        return None;
    }
    proof {
        assert(pins@.contains(pins@[0]));
        assert(fed_pins(ws, id).contains(pins@[0]));
        let t = choose|t: int| 0 <= t < ws.len() && (#[trigger] ws[t]).from.node == id && ws[t].to == pins@[0];
        assert(feeds_any(ws, id));
    }
    // Drop every wire into those pins.
    let ghost keep = not_into_fed_pin(ws, id);
    let mut kept: Vec<Wire> = Vec::new();
    let mut k: usize = 0;
    while k < graph.wires.len()
        invariant
            ws == graph.wires@,
            keep == not_into_fed_pin(ws, id),
            forall|p: InPinId| #[trigger] pins@.contains(p) <==> fed_pins(ws, id).contains(p),
            k <= ws.len(),
            kept@ == ws.take(k as int).filter(keep),
        decreases graph.wires.len() - k,
    {
        proof {
            crate::library::lemma_filter_take_step(ws, keep, k as int);
        }
        let w = graph.wires[k];
        let mut fed = false;
        let mut t: usize = 0;
        while t < pins.len()
            invariant
                t <= pins@.len(),
                fed == exists|q: int| 0 <= q < t && pins@[q] == w.to,
            decreases pins.len() - t,
        {
            if pins[t] == w.to {
                fed = true;
            }
            t = t + 1;
        }
        assert(fed == pins@.contains(w.to));
        if !fed {
            kept.push(w);
        }
        k = k + 1;
    }
    proof {
        crate::library::lemma_filter_take_all(ws, keep);
    }
    let message = disconnect_message(def.node.name.as_str(), query.as_str());
    let (nid, mut data) = graph.nodes.remove(i);
    data.input_values.insert(String::from_str("Port"), InputValue::Text(String::new()));
    graph.nodes.insert(i, (nid, data));
    graph.wires = kept;
    proof {
        let g = *graph;
        assert forall|j: int| 0 <= j < g.nodes@.len() && j != i implies g.nodes@[j] == old(graph).nodes@[j] by {}
        assert forall|k: int| 0 <= k < g.wires@.len() implies has_node(g.nodes@, (#[trigger] g.wires@[k]).from.node)
            && has_node(g.nodes@, g.wires@[k].to.node) by {
            let f = ws.filter(keep);
            assert(f.contains(f[k]));
            ws.lemma_filter_contains_rev(keep, f[k]);
            let t = choose|t: int| 0 <= t < ws.len() && ws[t] == f[k];
            assert(has_node(old(graph).nodes@, ws[t].from.node));
            assert(has_node(old(graph).nodes@, ws[t].to.node));
            let a = choose|a: int| 0 <= a < old(graph).nodes@.len() && (#[trigger] old(graph).nodes@[a]).0 == ws[t].from.node;
            assert(g.nodes@[a].0 == old(graph).nodes@[a].0);
            let b = choose|b: int| 0 <= b < old(graph).nodes@.len() && (#[trigger] old(graph).nodes@[b]).0 == ws[t].to.node;
            assert(g.nodes@[b].0 == old(graph).nodes@[b].0);
        }
        assert forall|a: int, b: int|
            0 <= a < g.nodes@.len() && 0 <= b < g.nodes@.len() && a != b implies (#[trigger] g.nodes@[a]).0 != (
            #[trigger] g.nodes@[b]).0 by {
            assert(g.nodes@[a].0 == old(graph).nodes@[a].0);
            assert(g.nodes@[b].0 == old(graph).nodes@[b].0);
        }
    }
    Some(message)
}

/// Disconnects every MIDI source node whose port is gone, in node order
/// (see [disconnect_lost_port]), and returns the warnings, one per
/// disconnected node. Afterwards no MIDI source node whose port is gone
/// feeds any input, and no wire or node was added.
pub fn validate_midi_ports(graph: &mut EditorGraph, library: &NodeLibrary, ports: &Vec<String>) -> (r: Vec<String>)
    requires
        old(graph).wf(),
    ensures
        (node_views(final(graph).nodes@), final(graph).wires@, crate::sorted::views(r@)) == midi_check(
            library@,
            crate::sorted::views(ports@),
            node_views(old(graph).nodes@),
            old(graph).wires@,
            old(graph).nodes@.len() as int,
        ),
        final(graph).wf(),
        final(graph).nodes@.len() == old(graph).nodes@.len(),
        r@.len() <= old(graph).nodes@.len(),
        forall|j: int| 0 <= j < old(graph).nodes@.len() ==> (#[trigger] final(graph).nodes@[j]).0 == old(graph).nodes@[j].0,
        forall|j: int, k: int|
            0 <= j < old(graph).nodes@.len() && 0 <= k < final(graph).wires@.len() && lost_port(
                library@,
                crate::sorted::views(ports@),
                old(graph).nodes@[j].1.definition_name@,
                old(graph).nodes@[j].1.input_values@,
            ) ==> (#[trigger] final(graph).wires@[k]).from.node != (#[trigger] old(graph).nodes@[j]).0,
        forall|k: int| 0 <= k < final(graph).wires@.len() ==> old(graph).wires@.contains(#[trigger] final(graph).wires@[k]),
{
    let ghost start = *graph;
    let mut warnings: Vec<String> = Vec::new();
    let n = graph.nodes.len();
    let mut i: usize = 0;
    while i < n
        invariant
            graph.wf(),
            n == start.nodes@.len(),
            graph.nodes@.len() == n,
            (node_views(graph.nodes@), graph.wires@, crate::sorted::views(warnings@)) == midi_check(
                library@,
                crate::sorted::views(ports@),
                node_views(start.nodes@),
                start.wires@,
                i as int,
            ),
            i <= n,
            warnings@.len() <= i,
            forall|j: int| 0 <= j < n ==> (#[trigger] graph.nodes@[j]).0 == start.nodes@[j].0,
            forall|j: int| i <= j < n ==> graph.nodes@[j] == start.nodes@[j],
            forall|k: int| 0 <= k < graph.wires@.len() ==> start.wires@.contains(#[trigger] graph.wires@[k]),
            forall|j: int, k: int|
                0 <= j < i && 0 <= k < graph.wires@.len() && lost_port(
                    library@,
                    crate::sorted::views(ports@),
                    start.nodes@[j].1.definition_name@,
                    start.nodes@[j].1.input_values@,
                ) ==> (#[trigger] graph.wires@[k]).from.node != (#[trigger] start.nodes@[j]).0,
        decreases n - i,
    {
        let ghost before = *graph;
        let result = disconnect_lost_port(graph, i, library, ports);
        proof {
            let id = before.nodes@[i as int].0;
            assert forall|k: int| 0 <= k < graph.wires@.len() implies start.wires@.contains(#[trigger] graph.wires@[k]) by {
                if graph.wires@ != before.wires@ {
                    let f = before.wires@.filter(not_into_fed_pin(before.wires@, id));
                    assert(f.contains(f[k]));
                    before.wires@.lemma_filter_contains_rev(not_into_fed_pin(before.wires@, id), f[k]);
                    let t = choose|t: int| 0 <= t < before.wires@.len() && before.wires@[t] == f[k];
                    assert(start.wires@.contains(before.wires@[t]));
                }
            }
            assert forall|j: int, k: int|
                0 <= j < i + 1 && 0 <= k < graph.wires@.len() && lost_port(
                    library@,
                    crate::sorted::views(ports@),
                    start.nodes@[j].1.definition_name@,
                    start.nodes@[j].1.input_values@,
                ) implies (#[trigger] graph.wires@[k]).from.node != (#[trigger] start.nodes@[j]).0 by {
                if graph.wires@ != before.wires@ {
                    let f = before.wires@.filter(not_into_fed_pin(before.wires@, id));
                    assert(f.contains(f[k]));
                    before.wires@.lemma_filter_contains_rev(not_into_fed_pin(before.wires@, id), f[k]);
                    let t = choose|t: int| 0 <= t < before.wires@.len() && before.wires@[t] == f[k];
                    if j < i {
                        assert(before.wires@[t].from.node != start.nodes@[j].0);
                    } else {
                        before.wires@.lemma_filter_pred(not_into_fed_pin(before.wires@, id), k);
                        if graph.wires@[k].from.node == id {
                            assert(fed_pins(before.wires@, id).contains(before.wires@[t].to));
                        }
                    }
                } else if j == i {
                    if graph.wires@[k].from.node == id {
                        assert(feeds_any(before.wires@, id));
                    }
                } else {
                    let t = choose|t: int| 0 <= t < before.wires@.len() && before.wires@[t] == graph.wires@[k];
                }
            }
        }
        let ghost before_warnings = warnings@;
        match result {
            Some(w) => warnings.push(w),
            None => {},
        }
        proof {
            let prev = midi_check(library@, crate::sorted::views(ports@), node_views(start.nodes@), start.wires@, i as int);
            assert(prev.0[i as int] == node_views(before.nodes@)[i as int]);
            assert(node_views(before.nodes@)[i as int] == node_views(start.nodes@)[i as int]);
            if result is Some {
                assert(node_views(graph.nodes@) =~= prev.0.update(
                    i as int,
                    (prev.0[i as int].0, prev.0[i as int].1, prev.0[i as int].2.insert("Port"@, InputValueView::Text(Seq::empty())), prev.0[i as int].3),
                ));
                assert(crate::sorted::views(warnings@) =~= crate::sorted::views(before_warnings).push(
                    lost_port_warning(library@, prev.0[i as int].1, prev.0[i as int].2),
                ));
            } else {
                assert(node_views(graph.nodes@) =~= node_views(before.nodes@));
                assert(crate::sorted::views(warnings@) =~= crate::sorted::views(before_warnings));
            }
        }
        i = i + 1;
    }
    warnings
}

} // verus!
