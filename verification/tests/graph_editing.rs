use substrate::editor::{
    new_graph_errors, new_node_data, node_input_count, node_output_count, node_title, normalize_node_inputs,
};
use substrate::graph::{
    ConnectOutcome, EditorGraph, InPinId, NodeData, OutPinId, SnarlNodeId, VIRTUAL_OUTPUT_SINK_NAME, Wire,
    connect, validate_output_source,
};
use substrate::library::NodeLibrary;
use substrate::midi::{port_available, port_query, validate_midi_ports};
use substrate::schema::{
    BuiltInHandler, EngineNode, EngineNodeId, FloatBits, InputValue, NodeDefinition, NodeExecutionPlan, NodeInput,
    NodeInputKind, NodeOutput, NodeOutputKind, NumberInputUiMode,
};
use substrate::sync::{GraphSyncResult, apply_sync_plan, sync_graph, write_back_engine_ids};
use substrate::values::InputValues;

fn ge_def(name: &str, inputs: Vec<NodeInput>, outputs: Vec<NodeOutput>, executor: NodeExecutionPlan) -> NodeDefinition {
    NodeDefinition {
        node: EngineNode {
            name: name.to_string(),
            inputs,
            outputs,
            executor,
            short_description: String::new(),
            long_description: String::new(),
            category: String::new(),
            subcategories: vec![],
            search_keywords: vec![],
        },
        shader_path: None,
        folder_path: String::new(),
    }
}

fn ge_input(name: &str, kind: NodeInputKind) -> NodeInput {
    NodeInput { name: name.to_string(), kind, show_pin: true }
}

fn ge_output(name: &str, kind: NodeOutputKind) -> NodeOutput {
    NodeOutput { name: name.to_string(), kind, show_pin: true }
}

fn ge_shader() -> NodeExecutionPlan {
    NodeExecutionPlan::Shader { source: "main.wgsl".to_string(), passes: vec![] }
}

/// Image (file in, frame out), Blur (frame + float in, frame out), Midi
/// (port in, midi out), Count (int out).
fn ge_library() -> NodeLibrary {
    let mut lib = NodeLibrary::new();
    lib.insert_definition(ge_def(
        "Image",
        vec![ge_input("Path", NodeInputKind::File { default: None })],
        vec![ge_output("Frame", NodeOutputKind::Frame)],
        NodeExecutionPlan::BuiltIn(BuiltInHandler::ImageSource),
    ));
    lib.insert_definition(ge_def(
        "Blur",
        vec![
            ge_input("Input", NodeInputKind::Frame),
            ge_input(
                "Radius",
                NodeInputKind::Float {
                    default: FloatBits(0x40000000),
                    min: None,
                    max: None,
                    step: FloatBits(0x3f800000),
                    input_ui: NumberInputUiMode::Slider,
                },
            ),
        ],
        vec![ge_output("Output", NodeOutputKind::Frame)],
        ge_shader(),
    ));
    lib.insert_definition(ge_def(
        "Midi",
        vec![ge_input("Port", NodeInputKind::PortSelection)],
        vec![ge_output("Packet", NodeOutputKind::MidiPacket)],
        NodeExecutionPlan::BuiltIn(BuiltInHandler::MidiSource),
    ));
    lib.insert_definition(ge_def(
        "Notes",
        vec![ge_input("Packet", NodeInputKind::MidiPacket)],
        vec![ge_output("Note", NodeOutputKind::Int)],
        ge_shader(),
    ));
    lib.insert_definition(ge_def(
        "Count",
        vec![],
        vec![ge_output("Value", NodeOutputKind::Int)],
        ge_shader(),
    ));
    lib
}

fn ge_node(name: &str) -> NodeData {
    NodeData { definition_name: name.to_string(), input_values: InputValues::new(), engine_node_id: None }
}

fn ge_wire(from: u64, output: usize, to: u64, input: usize) -> Wire {
    Wire {
        from: OutPinId { node: SnarlNodeId(from), output },
        to: InPinId { node: SnarlNodeId(to), input },
    }
}

/// 1: Image with a file, 2: Blur, 3: output sink.
fn ge_graph() -> EditorGraph {
    let mut image = ge_node("Image");
    image.input_values.insert("Path".to_string(), InputValue::File("a.png".to_string()));
    let mut g = EditorGraph::new();
    g.nodes.push((SnarlNodeId(1), image));
    g.nodes.push((SnarlNodeId(2), ge_node("Blur")));
    g.nodes.push((SnarlNodeId(3), ge_node(VIRTUAL_OUTPUT_SINK_NAME)));
    g
}

#[test]
fn connect_rejects_self_connection() {
    let lib = ge_library();
    let mut g = ge_graph();
    let r = connect(&mut g, &lib, OutPinId { node: SnarlNodeId(2), output: 0 }, InPinId { node: SnarlNodeId(2), input: 0 }, true);
    assert!(matches!(r, ConnectOutcome::Rejected(ref m) if m == "A node cannot be connected to itself."));
    assert!(g.wires.is_empty());
}

#[test]
fn connect_rejects_cycles() {
    let lib = ge_library();
    let mut g = ge_graph();
    g.nodes.push((SnarlNodeId(4), ge_node("Blur")));
    g.wires.push(ge_wire(2, 0, 4, 0));
    let r = connect(&mut g, &lib, OutPinId { node: SnarlNodeId(4), output: 0 }, InPinId { node: SnarlNodeId(2), input: 0 }, true);
    assert!(matches!(r, ConnectOutcome::Rejected(ref m) if m == "Connecting these nodes would create a cycle."));
    assert_eq!(g.wires.len(), 1);
}

#[test]
fn connect_rejects_incompatible_pins() {
    let lib = ge_library();
    let mut g = ge_graph();
    g.nodes.push((SnarlNodeId(5), ge_node("Midi")));
    let r = connect(&mut g, &lib, OutPinId { node: SnarlNodeId(5), output: 0 }, InPinId { node: SnarlNodeId(2), input: 0 }, true);
    assert!(matches!(r, ConnectOutcome::Rejected(ref m) if m == "Cannot connect 'Packet' to 'Input': incompatible pin types."));
}

#[test]
fn connect_allows_int_into_float_and_replaces_existing_wire() {
    let lib = ge_library();
    let mut g = ge_graph();
    g.nodes.push((SnarlNodeId(6), ge_node("Count")));
    g.nodes.push((SnarlNodeId(7), ge_node("Count")));
    let r = connect(&mut g, &lib, OutPinId { node: SnarlNodeId(6), output: 0 }, InPinId { node: SnarlNodeId(2), input: 1 }, true);
    assert!(matches!(r, ConnectOutcome::Connected));
    let r = connect(&mut g, &lib, OutPinId { node: SnarlNodeId(7), output: 0 }, InPinId { node: SnarlNodeId(2), input: 1 }, true);
    assert!(matches!(r, ConnectOutcome::Connected));
    assert_eq!(g.wires, vec![ge_wire(7, 0, 2, 1)]);
}

#[test]
fn connect_rejects_midi_without_ports() {
    let lib = ge_library();
    let mut g = ge_graph();
    g.nodes.push((SnarlNodeId(5), ge_node("Midi")));
    g.nodes.push((SnarlNodeId(8), ge_node("Notes")));
    let r = connect(&mut g, &lib, OutPinId { node: SnarlNodeId(5), output: 0 }, InPinId { node: SnarlNodeId(8), input: 0 }, false);
    assert!(matches!(r, ConnectOutcome::Rejected(ref m) if m == "Cannot connect MIDI node: no MIDI input port is selected or available."));
    assert!(g.wires.is_empty());
    let r = connect(&mut g, &lib, OutPinId { node: SnarlNodeId(5), output: 0 }, InPinId { node: SnarlNodeId(8), input: 0 }, true);
    assert!(matches!(r, ConnectOutcome::Connected));
    assert_eq!(g.wires, vec![ge_wire(5, 0, 8, 0)]);
}

#[test]
fn connect_to_sink_checks_upstream() {
    let lib = ge_library();
    let mut g = ge_graph();
    let r = connect(&mut g, &lib, OutPinId { node: SnarlNodeId(2), output: 0 }, InPinId { node: SnarlNodeId(3), input: 0 }, true);
    assert!(matches!(r, ConnectOutcome::Rejected(ref m) if m == "'Blur' is missing required frame input 'Input'."));
    let r = connect(&mut g, &lib, OutPinId { node: SnarlNodeId(1), output: 0 }, InPinId { node: SnarlNodeId(2), input: 0 }, true);
    assert!(matches!(r, ConnectOutcome::Connected));
    let r = connect(&mut g, &lib, OutPinId { node: SnarlNodeId(2), output: 0 }, InPinId { node: SnarlNodeId(3), input: 0 }, true);
    assert!(matches!(r, ConnectOutcome::Connected));
    assert_eq!(g.output_source_snarl_node(), Some(SnarlNodeId(2)));
}

#[test]
fn validate_output_source_requires_file() {
    let lib = ge_library();
    let mut g = ge_graph();
    g.nodes.push((SnarlNodeId(9), ge_node("Image")));
    assert_eq!(validate_output_source(&g, SnarlNodeId(9), &lib), Err("'Image' requires a file input.".to_string()));
    assert_eq!(validate_output_source(&g, SnarlNodeId(1), &lib), Ok(()));
    g.nodes.push((SnarlNodeId(10), ge_node("Nope")));
    assert_eq!(
        validate_output_source(&g, SnarlNodeId(10), &lib),
        Err("Unknown node definition 'Nope'.".to_string())
    );
}

#[test]
fn validate_output_source_reports_own_error_first() {
    let lib = ge_library();
    let mut g = ge_graph();
    g.nodes.push((SnarlNodeId(9), ge_node("Image")));
    g.nodes.push((SnarlNodeId(14), ge_node("Mystery")));
    g.wires.push(ge_wire(9, 0, 14, 0));
    assert_eq!(
        validate_output_source(&g, SnarlNodeId(14), &lib),
        Err("Unknown node definition 'Mystery'.".to_string())
    );
}

#[test]
fn validate_output_source_reports_first_wired_input_first() {
    let mut lib = ge_library();
    lib.insert_definition(ge_def(
        "Mix",
        vec![ge_input("A", NodeInputKind::Frame), ge_input("B", NodeInputKind::Frame)],
        vec![ge_output("Output", NodeOutputKind::Frame)],
        ge_shader(),
    ));
    let mut g = ge_graph();
    g.nodes.push((SnarlNodeId(20), ge_node("Mix")));
    g.nodes.push((SnarlNodeId(21), ge_node("Image")));
    g.nodes.push((SnarlNodeId(22), ge_node("Mystery")));
    g.wires.push(ge_wire(21, 0, 20, 0));
    g.wires.push(ge_wire(22, 0, 20, 1));
    assert_eq!(
        validate_output_source(&g, SnarlNodeId(20), &lib),
        Err("'Image' requires a file input.".to_string())
    );
}

#[test]
fn sync_without_output_pauses() {
    let lib = ge_library();
    let g = ge_graph();
    assert!(matches!(sync_graph(&g, &lib), GraphSyncResult::NoOutput));
}

#[test]
fn sync_reports_missing_inputs() {
    let lib = ge_library();
    let mut g = ge_graph();
    g.wires.push(ge_wire(2, 0, 3, 0));
    match sync_graph(&g, &lib) {
        GraphSyncResult::Invalid(errors) => {
            assert_eq!(errors, vec!["'Blur' is missing required input 'Input'.".to_string()]);
        }
        _ => panic!("expected errors"),
    }
}

#[test]
fn sync_reports_unknown_nodes() {
    let lib = ge_library();
    let mut g = ge_graph();
    g.nodes.push((SnarlNodeId(11), ge_node("Mystery")));
    g.wires.push(ge_wire(11, 0, 3, 0));
    match sync_graph(&g, &lib) {
        GraphSyncResult::Invalid(errors) => assert_eq!(errors, vec!["Unknown node 'Mystery'.".to_string()]),
        _ => panic!("expected errors"),
    }
}

#[test]
fn sync_reports_errors_in_breadth_first_order() {
    let lib = ge_library();
    let mut g = ge_graph();
    g.nodes.push((SnarlNodeId(13), ge_node("Zed")));
    g.nodes.push((SnarlNodeId(12), ge_node("Mystery")));
    g.wires.push(ge_wire(13, 0, 2, 1));
    g.wires.push(ge_wire(12, 0, 2, 0));
    g.wires.push(ge_wire(2, 0, 3, 0));
    match sync_graph(&g, &lib) {
        GraphSyncResult::Invalid(errors) => assert_eq!(
            errors,
            vec!["Unknown node 'Mystery'.".to_string(), "Unknown node 'Zed'.".to_string()]
        ),
        _ => panic!("expected errors"),
    }
}

#[test]
fn sync_plans_nodes_and_connections() {
    let lib = ge_library();
    let mut g = ge_graph();
    g.nodes[1].1.engine_node_id = Some(EngineNodeId(42));
    g.wires.push(ge_wire(1, 0, 2, 0));
    g.wires.push(ge_wire(2, 0, 3, 0));
    match sync_graph(&g, &lib) {
        GraphSyncResult::Valid { nodes, connections, output_node } => {
            assert_eq!(output_node, SnarlNodeId(2));
            assert_eq!(nodes.len(), 2);
            assert_eq!(nodes[0].snarl_id, SnarlNodeId(2));
            assert_eq!(nodes[0].engine_node_id, Some(EngineNodeId(42)));
            assert_eq!(nodes[0].inputs.len(), 1);
            assert_eq!(nodes[0].inputs[0].0, "Radius");
            assert!(matches!(nodes[0].inputs[0].1, InputValue::Float(FloatBits(0x40000000))));
            assert_eq!(nodes[1].snarl_id, SnarlNodeId(1));
            assert!(matches!(nodes[1].inputs[0].1, InputValue::File(ref p) if p == "a.png"));
            assert_eq!(connections.len(), 1);
            assert_eq!(connections[0].from, SnarlNodeId(1));
            assert_eq!(connections[0].from_output, "Frame");
            assert_eq!(connections[0].to, SnarlNodeId(2));
            assert_eq!(connections[0].to_input, "Input");
        }
        _ => panic!("expected a plan"),
    }
}

#[test]
fn node_titles_and_pin_counts() {
    let lib = ge_library();
    let sink = ge_node(VIRTUAL_OUTPUT_SINK_NAME);
    let blur = ge_node("Blur");
    let unknown = ge_node("Gone");
    assert_eq!(node_title(&lib, &sink), "Output");
    assert_eq!(node_title(&lib, &blur), "Blur");
    assert_eq!(node_title(&lib, &unknown), "Gone");
    assert_eq!(node_input_count(&lib, &sink), 1);
    assert_eq!(node_output_count(&lib, &sink), 0);
    assert_eq!(node_input_count(&lib, &blur), 2);
    assert_eq!(node_output_count(&lib, &blur), 1);
    assert_eq!(node_input_count(&lib, &unknown), 0);
}

#[test]
fn new_node_gets_defaults() {
    let lib = ge_library();
    let data = new_node_data("Blur", lib.get_definition("Blur").unwrap());
    assert_eq!(data.definition_name, "Blur");
    assert_eq!(data.input_values.keys(), vec!["Radius".to_string()]);
    let midi = new_node_data("Midi", lib.get_definition("Midi").unwrap());
    assert!(matches!(midi.input_values.get("Port"), Some(InputValue::Text(t)) if t.is_empty()));
}

#[test]
fn normalize_adds_defaults_and_drops_orphans() {
    let lib = ge_library();
    let mut g = ge_graph();
    g.nodes[1].1.input_values.insert("Old".to_string(), InputValue::Int(3));
    normalize_node_inputs(&mut g, &lib);
    let keys = g.nodes[1].1.input_values.keys();
    assert_eq!(keys, vec!["Radius".to_string()]);
    // A wired input gets no default.
    let mut g2 = ge_graph();
    g2.nodes.push((SnarlNodeId(6), ge_node("Count")));
    g2.wires.push(ge_wire(6, 0, 2, 1));
    normalize_node_inputs(&mut g2, &lib);
    assert!(g2.nodes[1].1.input_values.keys().is_empty());
}

#[test]
fn only_new_graph_errors_pop_up() {
    let last = vec!["a".to_string(), "b".to_string()];
    let now = vec!["b".to_string(), "c".to_string(), "c".to_string()];
    assert_eq!(new_graph_errors(&last, &now), vec!["c".to_string(), "c".to_string()]);
}

#[test]
fn port_queries() {
    let mut v = InputValues::new();
    assert_eq!(port_query(&v), None);
    v.insert("Port".to_string(), InputValue::Text("  Keys \t".to_string()));
    assert_eq!(port_query(&v), Some("Keys".to_string()));
    v.insert("Port".to_string(), InputValue::Text("   ".to_string()));
    assert_eq!(port_query(&v), None);
    v.insert("Port".to_string(), InputValue::Enum(12));
    assert_eq!(port_query(&v), Some("12".to_string()));
    let ports = vec!["Keys".to_string(), "Pads".to_string()];
    assert!(port_available(&ports, "1"));
    assert!(!port_available(&ports, "2"));
    assert!(port_available(&ports, "Pads"));
    assert!(!port_available(&ports, "Drums"));
    assert!(!port_available(&vec![], "Keys"));
}

#[test]
fn lost_midi_port_disconnects_node() {
    let lib = ge_library();
    let mut g = ge_graph();
    let mut midi = ge_node("Midi");
    midi.input_values.insert("Port".to_string(), InputValue::Text("Drums".to_string()));
    g.nodes.push((SnarlNodeId(5), midi));
    g.nodes.push((SnarlNodeId(8), ge_node("Midi")));
    g.wires.push(ge_wire(5, 0, 8, 0));
    g.wires.push(ge_wire(1, 0, 2, 0));
    let warnings = validate_midi_ports(&mut g, &lib, &vec!["Keys".to_string()]);
    assert_eq!(
        warnings,
        vec!["'Midi' was disconnected because MIDI port 'Drums' is no longer available.".to_string()]
    );
    assert_eq!(g.wires, vec![ge_wire(1, 0, 2, 0)]);
    assert!(matches!(g.nodes[3].1.input_values.get("Port"), Some(InputValue::Text(t)) if t.is_empty()));
    // Still available: nothing changes.
    let mut g2 = ge_graph();
    let mut midi = ge_node("Midi");
    midi.input_values.insert("Port".to_string(), InputValue::Text("Keys".to_string()));
    g2.nodes.push((SnarlNodeId(5), midi));
    g2.wires.push(ge_wire(5, 0, 2, 0));
    assert!(validate_midi_ports(&mut g2, &lib, &vec!["Keys".to_string()]).is_empty());
    assert_eq!(g2.wires.len(), 1);
}

#[test]
fn output_sink_added_once_under_a_free_id() {
    let mut g = EditorGraph::new();
    g.nodes.push((SnarlNodeId(0), ge_node("Image")));
    g.nodes.push((SnarlNodeId(2), ge_node("Blur")));
    g.ensure_output_sink();
    assert_eq!(g.nodes.len(), 3);
    assert_eq!(g.nodes[2].0, SnarlNodeId(1));
    assert_eq!(g.nodes[2].1.definition_name, VIRTUAL_OUTPUT_SINK_NAME);
    assert_eq!(g.output_sink_node(), Some(SnarlNodeId(1)));
    g.ensure_output_sink();
    assert_eq!(g.nodes.len(), 3);
}

#[test]
fn sync_plan_becomes_engine_graph() {
    let lib = ge_library();
    let mut g = ge_graph();
    g.nodes[1].1.engine_node_id = Some(EngineNodeId(42));
    g.wires.push(ge_wire(1, 0, 2, 0));
    g.wires.push(ge_wire(2, 0, 3, 0));
    let (nodes, connections) = match sync_graph(&g, &lib) {
        GraphSyncResult::Valid { nodes, connections, .. } => (nodes, connections),
        _ => panic!("expected a plan"),
    };
    let fresh = vec![EngineNodeId(900), EngineNodeId(901)];
    let (engine, ids) = apply_sync_plan(&nodes, &connections, &fresh);
    assert_eq!(ids, vec![(SnarlNodeId(2), EngineNodeId(42)), (SnarlNodeId(1), EngineNodeId(901))]);
    assert_eq!(engine.instances.len(), 2);
    let blur = &engine.get_instance(EngineNodeId(42)).unwrap().input_values;
    assert!(matches!(blur.get("Radius"), Some(InputValue::Float(FloatBits(0x40000000)))));
    assert!(matches!(
        blur.get("Input"),
        Some(InputValue::Connection { from_node: EngineNodeId(901), ref from_output }) if from_output == "Frame"
    ));
    write_back_engine_ids(&mut g, &ids);
    assert_eq!(g.nodes[0].1.engine_node_id, Some(EngineNodeId(901)));
    assert_eq!(g.nodes[1].1.engine_node_id, Some(EngineNodeId(42)));
    assert_eq!(g.nodes[2].1.engine_node_id, None);
}
