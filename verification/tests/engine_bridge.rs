use substrate::bridge::{
    build_engine_graph, coerce_input, update_graph, EdgePayload, EngineCommand, EngineState, GraphPayload,
    NodePayload, RawNumber, RawWidgetValue,
};
use substrate::execution::{ExecutionError, NodeGraph};
use substrate::frames::FrameState;
use substrate::library::NodeLibrary;
use substrate::schema::{
    BuiltInHandler, EngineNode, EngineNodeId, FloatBits, InputValue, NodeDefinition, NodeExecutionPlan, NodeInput,
    NodeInputKind, NumberInputUiMode,
};

fn eb_number(x: f64) -> RawNumber {
    RawNumber { float: FloatBits((x as f32).to_bits()), int: x as i32, index: x as usize }
}

fn eb_input(name: &str, kind: NodeInputKind) -> NodeInput {
    NodeInput { name: name.to_string(), kind, show_pin: true }
}

fn eb_float_kind() -> NodeInputKind {
    NodeInputKind::Float {
        default: FloatBits(0),
        min: None,
        max: None,
        step: FloatBits(0x3f800000),
        input_ui: NumberInputUiMode::Slider,
    }
}

fn eb_library() -> NodeLibrary {
    let mut lib = NodeLibrary::new();
    for (name, inputs) in [
        ("Image", vec![eb_input("Path", NodeInputKind::File { default: None })]),
        ("Blur", vec![eb_input("Input", NodeInputKind::Frame), eb_input("Radius", eb_float_kind())]),
    ] {
        lib.insert_definition(NodeDefinition {
            node: EngineNode {
                name: name.to_string(),
                inputs,
                outputs: vec![],
                executor: NodeExecutionPlan::BuiltIn(BuiltInHandler::ImageSource),
                short_description: String::new(),
                long_description: String::new(),
                category: String::new(),
                subcategories: vec![],
                search_keywords: vec![],
            },
            shader_path: None,
            folder_path: String::new(),
        });
    }
    lib
}

fn eb_payload() -> GraphPayload {
    GraphPayload {
        nodes: vec![
            NodePayload {
                id: "img".to_string(),
                node_type: "Image".to_string(),
                values: vec![("Path".to_string(), RawWidgetValue::Text("a.png".to_string(), None))],
            },
            NodePayload {
                id: "blur".to_string(),
                node_type: "Blur".to_string(),
                values: vec![("Radius".to_string(), RawWidgetValue::Text("2.5".to_string(), Some(eb_number(2.5))))],
            },
        ],
        edges: vec![
            EdgePayload {
                from_node: "img".to_string(),
                from_output: "Frame".to_string(),
                to_node: "blur".to_string(),
                to_input: "Input".to_string(),
            },
            EdgePayload {
                from_node: "gone".to_string(),
                from_output: "Frame".to_string(),
                to_node: "blur".to_string(),
                to_input: "Input".to_string(),
            },
        ],
        output_source: Some("blur".to_string()),
    }
}

fn eb_instance_values(g: &NodeGraph, id: u64) -> &substrate::values::InputValues {
    &g.get_instance(EngineNodeId(id)).unwrap().input_values
}

#[test]
fn widget_values_by_kind() {
    let n = RawWidgetValue::Number(eb_number(3.0));
    assert!(matches!(coerce_input(&eb_float_kind(), &n), Some(InputValue::Float(f)) if f == FloatBits(3.0f32.to_bits())));
    let int_kind = NodeInputKind::Int { default: 0, min: None, max: None, step: 1, input_ui: NumberInputUiMode::Field };
    assert!(matches!(coerce_input(&int_kind, &n), Some(InputValue::Int(3))));
    let enum_kind = NodeInputKind::Enum { choices: vec!["a".to_string()], default_idx: None };
    let choice = RawWidgetValue::Text("1".to_string(), Some(eb_number(1.0)));
    assert!(matches!(coerce_input(&enum_kind, &choice), Some(InputValue::Enum(1))));
    assert!(coerce_input(&enum_kind, &RawWidgetValue::Text("x".to_string(), None)).is_none());
    let bool_kind = NodeInputKind::Bool { default: false };
    assert!(matches!(coerce_input(&bool_kind, &RawWidgetValue::Bool(true)), Some(InputValue::Bool(true))));
    assert!(coerce_input(&bool_kind, &n).is_none());
    let text_kind = NodeInputKind::Text { default: String::new() };
    assert!(matches!(coerce_input(&text_kind, &choice), Some(InputValue::Text(ref s)) if s == "1"));
    assert!(matches!(
        coerce_input(&NodeInputKind::PortSelection, &RawWidgetValue::Text("Port A".to_string(), None)),
        Some(InputValue::Text(ref s)) if s == "Port A"
    ));
    let file_kind = NodeInputKind::File { default: None };
    assert!(matches!(
        coerce_input(&file_kind, &RawWidgetValue::Text("a.mp4".to_string(), None)),
        Some(InputValue::File(ref s)) if s == "a.mp4"
    ));
    assert!(coerce_input(&file_kind, &RawWidgetValue::Text(String::new(), None)).is_none());
    assert!(coerce_input(&NodeInputKind::Frame, &n).is_none());
    assert!(coerce_input(&NodeInputKind::MidiPacket, &RawWidgetValue::Other).is_none());
}

#[test]
fn graph_built_from_payload() {
    let lib = eb_library();
    let mut ids = vec![("blur".to_string(), EngineNodeId(7)), ("old".to_string(), EngineNodeId(8))];
    let fresh = vec![EngineNodeId(100), EngineNodeId(101)];
    let (g, out) = build_engine_graph(&eb_payload(), &lib, &mut ids, &fresh).unwrap();
    assert_eq!(ids, vec![("blur".to_string(), EngineNodeId(7)), ("img".to_string(), EngineNodeId(100))]);
    assert_eq!(out, Some(EngineNodeId(7)));
    assert_eq!(g.instances.len(), 2);
    assert_eq!(g.get_instance(EngineNodeId(100)).unwrap().definition_name, "Image");
    assert!(matches!(eb_instance_values(&g, 100).get("Path"), Some(InputValue::File(ref p)) if p == "a.png"));
    let blur = eb_instance_values(&g, 7);
    assert!(matches!(blur.get("Radius"), Some(InputValue::Float(f)) if *f == FloatBits(2.5f32.to_bits())));
    assert!(matches!(
        blur.get("Input"),
        Some(InputValue::Connection { from_node: EngineNodeId(100), ref from_output }) if from_output == "Frame"
    ));
}

#[test]
fn unknown_node_type_fails_the_build() {
    let lib = eb_library();
    let mut payload = eb_payload();
    payload.nodes.insert(
        1,
        NodePayload { id: "x".to_string(), node_type: "Warp".to_string(), values: vec![] },
    );
    let mut ids = vec![];
    let fresh = vec![EngineNodeId(1), EngineNodeId(2), EngineNodeId(3)];
    let r = build_engine_graph(&payload, &lib, &mut ids, &fresh);
    assert!(matches!(r, Err(ref e) if e == "unknown node type 'Warp'"));
    assert_eq!(ids, vec![("img".to_string(), EngineNodeId(1)), ("x".to_string(), EngineNodeId(2))]);
}

#[test]
fn engine_graph_operations() {
    let mut g = NodeGraph::new();
    g.add_instance_with_id(EngineNodeId(1), "Image".to_string());
    g.add_instance_with_id(EngineNodeId(2), "Blur".to_string());
    assert!(g.set_input_value(EngineNodeId(2), "Radius".to_string(), InputValue::Int(3)));
    assert!(!g.set_input_value(EngineNodeId(9), "Radius".to_string(), InputValue::Int(3)));
    assert!(g.connect(EngineNodeId(1), "Frame".to_string(), EngineNodeId(2), "Input".to_string()).is_ok());
    assert!(matches!(
        g.connect(EngineNodeId(9), "Frame".to_string(), EngineNodeId(2), "Input".to_string()),
        Err(ExecutionError::NodeNotFound(EngineNodeId(9)))
    ));
    assert!(matches!(
        g.connect(EngineNodeId(1), "Frame".to_string(), EngineNodeId(9), "Input".to_string()),
        Err(ExecutionError::NodeNotFound(EngineNodeId(9)))
    ));
    assert_eq!(eb_instance_values(&g, 2).keys().len(), 2);
    g.add_instance_with_id(EngineNodeId(2), "Sharpen".to_string());
    assert_eq!(g.instances.len(), 2);
    assert_eq!(g.get_instance(EngineNodeId(2)).unwrap().definition_name, "Sharpen");
    assert!(eb_instance_values(&g, 2).keys().is_empty());
}

#[test]
fn update_graph_sends_graph_and_output() {
    let mut engine = EngineState::new();
    let mut frames = FrameState::new();
    let fresh = vec![EngineNodeId(100), EngineNodeId(101)];
    assert_eq!(
        update_graph(&eb_payload(), &mut engine, &mut frames, &fresh),
        Err("engine not ready".to_string())
    );
    assert_eq!(frames.generation, 0);
    engine.library = Some(std::sync::Arc::new(eb_library()));
    let (tx, rx) = std::sync::mpsc::channel();
    engine.command_sender = Some(tx);
    assert_eq!(update_graph(&eb_payload(), &mut engine, &mut frames, &fresh), Ok(()));
    assert_eq!(frames.generation, 1);
    assert!(matches!(rx.recv(), Ok(EngineCommand::UpdateGraph(ref g)) if g.instances.len() == 2));
    assert!(matches!(rx.recv(), Ok(EngineCommand::SetOutputNode(Some(EngineNodeId(101))))));
}
