use substrate::execution::{
    collect_required_nodes_for_target, contains_node, execution_nodes, frame_stream_request, name_outputs,
    node_in_output_subgraph, output_node_choice, resolve_input, reuse_cached_outputs, stream_failure,
    stream_kind_for, video_source_for, execution_result, retain_live_nodes, ExecutionError,
    NodeGraph, NodeInstance, ResolvedInput,
};
use substrate::library::NodeLibrary;
use substrate::schema::{
    BuiltInHandler, EngineNode, EngineNodeId, InputValue, NodeDefinition, NodeExecutionPlan, NodeOutput,
    NodeOutputKind, ShaderPass,
};
use substrate::streams::StreamKind;
use substrate::values::InputValues;

fn ex_def(name: &str, executor: NodeExecutionPlan, outputs: &[&str]) -> NodeDefinition {
    NodeDefinition {
        node: EngineNode {
            name: name.to_string(),
            inputs: vec![],
            outputs: outputs
                .iter()
                .map(|o| NodeOutput { name: o.to_string(), kind: NodeOutputKind::Frame, show_pin: true })
                .collect(),
            executor,
            short_description: String::new(),
            long_description: String::new(),
            category: String::new(),
            subcategories: vec![],
            search_keywords: vec![],
        },
        shader_path: None,
        folder_path: String::new(),
    }
}

fn ex_library() -> NodeLibrary {
    let mut lib = NodeLibrary::new();
    lib.insert_definition(ex_def("Video", NodeExecutionPlan::BuiltIn(BuiltInHandler::VideoSource), &["Frame"]));
    lib.insert_definition(ex_def(
        "Blur",
        NodeExecutionPlan::Shader { source: "blur.wgsl".to_string(), passes: Vec::<ShaderPass>::new() },
        &["Output"],
    ));
    lib
}

fn ex_instance(id: u64, def: &str, wires: &[(&str, u64)]) -> NodeInstance {
    let mut values = InputValues::new();
    for (input, from) in wires {
        values.insert(
            input.to_string(),
            InputValue::Connection { from_node: EngineNodeId(*from), from_output: "Output".to_string() },
        );
    }
    NodeInstance { id: EngineNodeId(id), definition_name: def.to_string(), input_values: values }
}

/// 1 (video) -> 2 (blur) -> 3 (blur); 4 (blur) stands alone; 5 (blur) <- 4.
fn ex_graph() -> NodeGraph {
    let mut g = NodeGraph::new();
    g.instances.push(ex_instance(1, "Video", &[]));
    g.instances.push(ex_instance(2, "Blur", &[("Input", 1)]));
    g.instances.push(ex_instance(3, "Blur", &[("Input", 2)]));
    g.instances.push(ex_instance(4, "Blur", &[]));
    g.instances.push(ex_instance(5, "Blur", &[("Input", 4)]));
    g
}

fn ids(v: &[u64]) -> Vec<EngineNodeId> {
    v.iter().map(|i| EngineNodeId(*i)).collect()
}

#[test]
fn required_nodes_follow_connections() {
    let g = ex_graph();
    let mut r = collect_required_nodes_for_target(&g, EngineNodeId(3));
    r.sort();
    assert_eq!(r, ids(&[1, 2, 3]));
    let r = collect_required_nodes_for_target(&g, EngineNodeId(4));
    assert_eq!(r, ids(&[4]));
}

#[test]
fn output_subgraph_membership() {
    let g = ex_graph();
    assert!(node_in_output_subgraph(&g, EngineNodeId(1), EngineNodeId(3)));
    assert!(node_in_output_subgraph(&g, EngineNodeId(3), EngineNodeId(3)));
    assert!(!node_in_output_subgraph(&g, EngineNodeId(4), EngineNodeId(3)));
    assert!(!node_in_output_subgraph(&g, EngineNodeId(3), EngineNodeId(1)));
}

#[test]
fn execution_nodes_keep_order_and_filter() {
    let g = ex_graph();
    let order = ids(&[4, 1, 5, 2, 3]);
    let r = execution_nodes(&g, &order, &ids(&[3]), None).unwrap();
    assert_eq!(r, ids(&[1, 2, 3]));
    let r = execution_nodes(&g, &order, &ids(&[3, 5]), None).unwrap();
    assert_eq!(r, order);
    let r = execution_nodes(&g, &order, &ids(&[3]), Some(EngineNodeId(2))).unwrap();
    assert_eq!(r, ids(&[1, 2]));
    let r = execution_nodes(&g, &order, &ids(&[]), None).unwrap();
    assert!(r.is_empty());
}

#[test]
fn execution_nodes_report_bad_targets() {
    let g = ex_graph();
    let order = ids(&[1, 2, 3]);
    let r = execution_nodes(&g, &order, &ids(&[3]), Some(EngineNodeId(9)));
    assert!(matches!(r, Err(ExecutionError::TargetNodeNotFound(EngineNodeId(9)))));
    let r = execution_nodes(&g, &order, &ids(&[3]), Some(EngineNodeId(4)));
    assert!(matches!(r, Err(ExecutionError::TargetNodeNotInExecutionOrder(EngineNodeId(4)))));
}

#[test]
fn contains_node_finds_ids() {
    assert!(contains_node(&ids(&[1, 2]), EngineNodeId(2)));
    assert!(!contains_node(&ids(&[1, 2]), EngineNodeId(3)));
}

#[test]
fn cached_outputs_reused_only_on_same_signature() {
    assert!(reuse_cached_outputs(true, Some(7), 7));
    assert!(!reuse_cached_outputs(true, Some(7), 8));
    assert!(!reuse_cached_outputs(false, Some(7), 7));
    assert!(!reuse_cached_outputs(true, None, 7));
}

#[test]
fn output_node_is_target_or_first_output() {
    assert_eq!(output_node_choice(Some(EngineNodeId(5)), &ids(&[1])).unwrap(), EngineNodeId(5));
    assert_eq!(output_node_choice(None, &ids(&[3, 1])).unwrap(), EngineNodeId(3));
    assert!(matches!(output_node_choice(None, &ids(&[])), Err(ExecutionError::NoOutputNode)));
}

#[test]
fn name_outputs_pairs_in_order() {
    let def = ex_def("Env", NodeExecutionPlan::BuiltIn(BuiltInHandler::SignalEnvelope), &["Level", "Gate"]);
    let r = name_outputs(&def, vec![10, 20, 30]);
    assert_eq!(r, vec![("Level".to_string(), 10), ("Gate".to_string(), 20)]);
    let r = name_outputs(&def, vec![1]);
    assert_eq!(r, vec![("Level".to_string(), 1)]);
}

#[test]
fn video_source_is_found_upstream() {
    let g = ex_graph();
    let lib = ex_library();
    let order = ids(&[4, 1, 5, 2, 3]);
    assert_eq!(video_source_for(&g, &lib, &order, EngineNodeId(3)), Some(EngineNodeId(1)));
    assert_eq!(video_source_for(&g, &lib, &order, EngineNodeId(1)), Some(EngineNodeId(1)));
    assert_eq!(video_source_for(&g, &lib, &order, EngineNodeId(5)), None);
    assert_eq!(video_source_for(&g, &lib, &order, EngineNodeId(42)), None);
}

#[test]
fn stream_kinds_of_sources() {
    assert_eq!(stream_kind_for(BuiltInHandler::ImageSource), Some(StreamKind::Image));
    assert_eq!(stream_kind_for(BuiltInHandler::VideoSource), Some(StreamKind::Video));
    assert_eq!(stream_kind_for(BuiltInHandler::MidiSource), None);
}

#[test]
fn resolve_input_against_cache() {
    let cache = vec![(EngineNodeId(1), vec!["Frame".to_string()])];
    let literal = InputValue::Int(4);
    assert!(matches!(resolve_input(&cache, &literal), Ok(ResolvedInput::Literal(InputValue::Int(4)))));
    let good = InputValue::Connection { from_node: EngineNodeId(1), from_output: "Frame".to_string() };
    assert!(matches!(resolve_input(&cache, &good), Ok(ResolvedInput::Output(EngineNodeId(1), "Frame"))));
    let missing_output = InputValue::Connection { from_node: EngineNodeId(1), from_output: "Mask".to_string() };
    assert!(matches!(
        resolve_input(&cache, &missing_output),
        Err(ExecutionError::OutputNotFound(EngineNodeId(1), ref o)) if o == "Mask"
    ));
    let not_run = InputValue::Connection { from_node: EngineNodeId(2), from_output: "Frame".to_string() };
    assert!(matches!(resolve_input(&cache, &not_run), Err(ExecutionError::NodeNotExecuted(EngineNodeId(2)))));
}

#[test]
fn source_requests_and_failures() {
    let path = "clip.mp4".to_string();
    let r = frame_stream_request(EngineNodeId(3), StreamKind::Video, Some(&path)).unwrap();
    assert_eq!(r.node_id, EngineNodeId(3));
    assert_eq!(r.file_path, "clip.mp4");
    assert_eq!(r.stream_kind, StreamKind::Video);
    assert!(matches!(
        frame_stream_request(EngineNodeId(3), StreamKind::Image, None),
        Err(ExecutionError::InvalidInputType)
    ));
    assert!(matches!(
        stream_failure(StreamKind::Image, Some("a.png".to_string()), "a.png", "x"),
        ExecutionError::FrameStreamNotReady(ref p) if p == "a.png"
    ));
    assert!(matches!(
        stream_failure(StreamKind::Image, None, "a.png", "Decode"),
        ExecutionError::TextureUploadError(ref m) if m == "Image source stream execution failed: Decode"
    ));
    assert!(matches!(
        stream_failure(StreamKind::Video, None, "b.mp4", "Eof"),
        ExecutionError::VideoStreamError(ref p, ref m) if p == "b.mp4" && m == "Video source stream execution failed: Eof"
    ));
}

#[test]
fn execution_result_comes_from_the_cache() {
    let cache = vec![(EngineNodeId(1), vec![10u8]), (EngineNodeId(2), vec![20u8]), (EngineNodeId(1), vec![30u8])];
    let r = execution_result(EngineNodeId(1), &cache).unwrap();
    assert_eq!(r.output_node_id, EngineNodeId(1));
    assert_eq!(r.outputs, &vec![10u8]);
    assert!(matches!(execution_result(EngineNodeId(9), &cache), Err(ExecutionError::NoOutputProduced)));
    let kept = retain_live_nodes(cache, &ids(&[1]));
    assert_eq!(kept, vec![(EngineNodeId(1), vec![10u8]), (EngineNodeId(1), vec![30u8])]);
}
