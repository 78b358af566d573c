use substrate::effects::{
    algorithm_stages, build_shader_stage_definition, dispatch_override, frame_input_names, output_shape,
    output_slots, plan_stages, rgba_channel_bytes, shader_stages, stage_name, OutputShape, OutputSlot,
    StagePlan, StageTarget, TextureFormat,
};
use substrate::execution::ExecutionError;
use substrate::schema::{
    AlgorithmStage, AlgorithmStageBackend, AlgorithmStageDispatch, AlgorithmStageDispatchMode, BuiltInHandler,
    EngineNode, NodeDefinition, NodeExecutionPlan, NodeInput, NodeInputKind, NodeOutput, NodeOutputKind,
    ShaderPass,
};

/// The read-back pixel as normalised floats; a short pixel reads as opaque black.
fn decode_rgba8_like(format: TextureFormat, pixel: &[u8]) -> [f32; 4] {
    match rgba_channel_bytes(format, pixel) {
        Some((r, g, b, a)) => [r as f32 / 255.0, g as f32 / 255.0, b as f32 / 255.0, a as f32 / 255.0],
        None => [0.0, 0.0, 0.0, 1.0],
    }
}

fn fx_input(name: &str, kind: NodeInputKind) -> NodeInput {
    NodeInput { name: name.to_string(), kind, show_pin: true }
}

fn fx_output(name: &str, kind: NodeOutputKind) -> NodeOutput {
    NodeOutput { name: name.to_string(), kind, show_pin: true }
}

fn fx_def(name: &str, inputs: Vec<NodeInput>, outputs: Vec<NodeOutput>, executor: NodeExecutionPlan) -> NodeDefinition {
    NodeDefinition {
        node: EngineNode {
            name: name.to_string(),
            inputs,
            outputs,
            executor,
            short_description: String::new(),
            long_description: String::new(),
            category: "Effects".to_string(),
            subcategories: vec![],
            search_keywords: vec![],
        },
        shader_path: None,
        folder_path: "nodes/fx".to_string(),
    }
}

fn fx_shader(passes: &[&str]) -> NodeExecutionPlan {
    NodeExecutionPlan::Shader {
        source: "main.wgsl".to_string(),
        passes: passes.iter().map(|p| ShaderPass { source: p.to_string() }).collect(),
    }
}

#[test]
fn decode_rgba_channels_in_order() {
    let pixel = [128u8, 64, 32, 255];
    let result = decode_rgba8_like(TextureFormat::Rgba8Unorm, &pixel);
    assert_eq!(result[0], 128u8 as f32 / 255.0);
    assert_eq!(result[1], 64u8 as f32 / 255.0);
    assert_eq!(result[2], 32u8 as f32 / 255.0);
    assert_eq!(result[3], 1.0);
}

#[test]
fn decode_bgra_swaps_r_and_b() {
    let pixel = [32u8, 64, 128, 255];
    let result = decode_rgba8_like(TextureFormat::Bgra8Unorm, &pixel);
    assert_eq!(result[0], 128u8 as f32 / 255.0, "R channel");
    assert_eq!(result[1], 64u8 as f32 / 255.0, "G channel");
    assert_eq!(result[2], 32u8 as f32 / 255.0, "B channel");
    assert_eq!(result[3], 1.0, "A channel");
}

#[test]
fn decode_bgra_srgb_same_swap_as_bgra() {
    let pixel = [10u8, 20, 30, 200];
    let bgra = decode_rgba8_like(TextureFormat::Bgra8Unorm, &pixel);
    let bgra_srgb = decode_rgba8_like(TextureFormat::Bgra8UnormSrgb, &pixel);
    assert_eq!(bgra, bgra_srgb);
}

#[test]
fn decode_short_pixel_returns_transparent_black() {
    let result = decode_rgba8_like(TextureFormat::Rgba8Unorm, &[0u8, 0, 0]);
    assert_eq!(result, [0.0, 0.0, 0.0, 1.0]);
}

#[test]
fn decode_empty_pixel_returns_transparent_black() {
    let result = decode_rgba8_like(TextureFormat::Rgba8Unorm, &[]);
    assert_eq!(result, [0.0, 0.0, 0.0, 1.0]);
}

#[test]
fn channel_bytes_of_rgba16_keep_order() {
    assert_eq!(rgba_channel_bytes(TextureFormat::Rgba16Float, &[1, 2, 3, 4, 5]), Some((1, 2, 3, 4)));
    assert_eq!(rgba_channel_bytes(TextureFormat::Bgra8Unorm, &[1, 2, 3, 4]), Some((3, 2, 1, 4)));
    assert_eq!(rgba_channel_bytes(TextureFormat::Other, &[9]), None);
}

#[test]
fn shader_stages_put_passes_before_main() {
    let def = fx_def("Glow", vec![], vec![], fx_shader(&["a.wgsl", "b.wgsl"]));
    let stages = shader_stages(&def).unwrap();
    assert_eq!(stages.len(), 3);
    assert_eq!(stages[0].source, "a.wgsl");
    assert_eq!(stages[0].extra_frame_inputs, 0);
    assert_eq!(stages[1].source, "b.wgsl");
    assert_eq!(stages[1].extra_frame_inputs, 1);
    assert_eq!(stages[2].source, "main.wgsl");
    assert_eq!(stages[2].extra_frame_inputs, 2);
    assert!(stages.iter().all(|s| s.backend == AlgorithmStageBackend::Render && s.dispatch.is_none()));
}

#[test]
fn shader_stages_reject_other_nodes() {
    let def = fx_def("Image", vec![], vec![], NodeExecutionPlan::BuiltIn(BuiltInHandler::ImageSource));
    let r = shader_stages(&def);
    assert!(matches!(r, Err(ExecutionError::PipelineCreationError(ref m)) if m == "Image is not a shader node"));
    let r = algorithm_stages(&def);
    assert!(matches!(r, Err(ExecutionError::PipelineCreationError(ref m)) if m == "Image is not a algorithm node"));
}

#[test]
fn algorithm_stages_keep_declared_stages() {
    let def = fx_def(
        "Sort",
        vec![],
        vec![],
        NodeExecutionPlan::Algorithm {
            kind: "pixel_sort".to_string(),
            stages: vec![
                AlgorithmStage {
                    backend: AlgorithmStageBackend::Compute,
                    source: "mask.wgsl".to_string(),
                    extra_frame_inputs: 0,
                    dispatch: Some(AlgorithmStageDispatch {
                        mode: AlgorithmStageDispatchMode::Rows,
                        enum_input: None,
                        columns_enum_value: 0,
                    }),
                },
                AlgorithmStage {
                    backend: AlgorithmStageBackend::Render,
                    source: "show.wgsl".to_string(),
                    extra_frame_inputs: 1,
                    dispatch: None,
                },
            ],
        },
    );
    let stages = algorithm_stages(&def).unwrap();
    assert_eq!(stages.len(), 2);
    assert_eq!(stages[0].backend, AlgorithmStageBackend::Compute);
    assert_eq!(stages[0].source, "mask.wgsl");
    assert_eq!(stages[0].dispatch.unwrap().mode, AlgorithmStageDispatchMode::Rows);
    assert_eq!(stages[1].backend, AlgorithmStageBackend::Render);
    assert_eq!(stages[1].extra_frame_inputs, 1);
    assert!(stages[1].dispatch.is_none());
}

#[test]
fn output_shape_rules() {
    let frame_only = fx_def("Blur", vec![], vec![fx_output("Output", NodeOutputKind::Frame)], fx_shader(&[]));
    assert!(matches!(output_shape(&frame_only, 0), Err(ExecutionError::NoFrameInput(ref n)) if n == "Blur"));
    assert_eq!(
        output_shape(&frame_only, 1).unwrap(),
        OutputShape { has_frame_output: true, has_scalar_output: false }
    );
    let mixed = fx_def(
        "Mixed",
        vec![],
        vec![fx_output("Output", NodeOutputKind::Frame), fx_output("Level", NodeOutputKind::Float)],
        fx_shader(&[]),
    );
    assert!(matches!(output_shape(&mixed, 1), Err(ExecutionError::UnsupportedNodeOutputCombination)));
    let scalar = fx_def("Level", vec![], vec![fx_output("Level", NodeOutputKind::Float)], fx_shader(&[]));
    assert_eq!(
        output_shape(&scalar, 0).unwrap(),
        OutputShape { has_frame_output: false, has_scalar_output: true }
    );
}

#[test]
fn frame_input_names_in_declaration_order() {
    let def = fx_def(
        "Mix",
        vec![
            fx_input("A", NodeInputKind::Frame),
            fx_input("Amount", NodeInputKind::Bool { default: false }),
            fx_input("B", NodeInputKind::Frame),
        ],
        vec![],
        fx_shader(&[]),
    );
    assert_eq!(frame_input_names(&def), vec!["A".to_string(), "B".to_string()]);
}

#[test]
fn stage_name_formats_index() {
    assert_eq!(stage_name("Glow", 0), "Glow::stage0");
    assert_eq!(stage_name("Glow", 12), "Glow::stage12");
}

#[test]
fn stage_definition_appends_hidden_pass_inputs() {
    let def = fx_def(
        "Glow",
        vec![fx_input("Input", NodeInputKind::Frame)],
        vec![fx_output("Output", NodeOutputKind::Frame)],
        fx_shader(&["a.wgsl"]),
    );
    let d = build_shader_stage_definition(def, "Glow::stage1".to_string(), 2);
    assert_eq!(d.node.name, "Glow::stage1");
    assert_eq!(d.node.inputs.len(), 3);
    assert_eq!(d.node.inputs[0].name, "Input");
    assert_eq!(d.node.inputs[1].name, "Pass Input 1");
    assert_eq!(d.node.inputs[2].name, "Pass Input 2");
    assert!(matches!(d.node.inputs[2].kind, NodeInputKind::Frame));
    assert!(!d.node.inputs[1].show_pin);
    assert_eq!(d.node.outputs.len(), 1);
    assert_eq!(d.folder_path, "nodes/fx");
}

#[test]
fn plan_of_render_and_compute_stages() {
    let def = fx_def(
        "Sort",
        vec![],
        vec![],
        NodeExecutionPlan::Algorithm {
            kind: "pixel_sort".to_string(),
            stages: vec![
                AlgorithmStage {
                    backend: AlgorithmStageBackend::Render,
                    source: "a.wgsl".to_string(),
                    extra_frame_inputs: 0,
                    dispatch: None,
                },
                AlgorithmStage {
                    backend: AlgorithmStageBackend::Compute,
                    source: "b.wgsl".to_string(),
                    extra_frame_inputs: 1,
                    dispatch: None,
                },
                AlgorithmStage {
                    backend: AlgorithmStageBackend::Compute,
                    source: "c.wgsl".to_string(),
                    extra_frame_inputs: 2,
                    dispatch: None,
                },
            ],
        },
    );
    let stages = algorithm_stages(&def).unwrap();
    let plan = plan_stages(&stages, false, TextureFormat::Bgra8Unorm);
    assert_eq!(
        plan,
        vec![
            StagePlan {
                backend: AlgorithmStageBackend::Render,
                is_final: false,
                prior_intermediates: 0,
                storage_format: None,
                target: StageTarget::RenderStage(0),
                blit_to_node_output: false,
            },
            StagePlan {
                backend: AlgorithmStageBackend::Compute,
                is_final: false,
                prior_intermediates: 1,
                storage_format: Some(TextureFormat::Rgba16Float),
                target: StageTarget::ComputeStage(1, TextureFormat::Rgba16Float),
                blit_to_node_output: false,
            },
            StagePlan {
                backend: AlgorithmStageBackend::Compute,
                is_final: true,
                prior_intermediates: 2,
                storage_format: Some(TextureFormat::Rgba8Unorm),
                target: StageTarget::ComputeStage(2, TextureFormat::Rgba8Unorm),
                blit_to_node_output: true,
            },
        ]
    );
    let plan = plan_stages(&stages, false, TextureFormat::Rgba8Unorm);
    assert!(!plan[2].blit_to_node_output);
    let plan = plan_stages(&stages, true, TextureFormat::Rgba8Unorm);
    assert_eq!(plan[2].target, StageTarget::ScalarOutput);
}

#[test]
fn final_render_stage_writes_node_output() {
    let def = fx_def("Blur", vec![], vec![], fx_shader(&[]));
    let stages = shader_stages(&def).unwrap();
    let plan = plan_stages(&stages, false, TextureFormat::Rgba8Unorm);
    assert_eq!(plan.len(), 1);
    assert!(plan[0].is_final);
    assert_eq!(plan[0].target, StageTarget::NodeOutput);
    let plan = plan_stages(&stages, true, TextureFormat::Rgba8Unorm);
    assert_eq!(plan[0].target, StageTarget::ScalarOutput);
}

#[test]
fn dispatch_override_modes() {
    let rows = AlgorithmStageDispatch { mode: AlgorithmStageDispatchMode::Rows, enum_input: None, columns_enum_value: 0 };
    let cols = AlgorithmStageDispatch { mode: AlgorithmStageDispatchMode::Columns, enum_input: None, columns_enum_value: 0 };
    let auto = AlgorithmStageDispatch { mode: AlgorithmStageDispatchMode::Auto, enum_input: None, columns_enum_value: 0 };
    let axis = AlgorithmStageDispatch {
        mode: AlgorithmStageDispatchMode::AxisFromEnumInput,
        enum_input: Some("Direction".to_string()),
        columns_enum_value: 1,
    };
    assert_eq!(dispatch_override(false, true, Some(&rows), None, 640, 480), Some((1, 1, 1)));
    assert_eq!(dispatch_override(true, false, None, None, 640, 480), None);
    assert_eq!(dispatch_override(true, false, Some(&auto), None, 640, 480), None);
    assert_eq!(dispatch_override(true, false, Some(&rows), None, 640, 480), Some((1, 480, 1)));
    assert_eq!(dispatch_override(true, false, Some(&cols), None, 640, 480), Some((640, 1, 1)));
    assert_eq!(dispatch_override(true, false, Some(&axis), Some(1), 640, 480), Some((640, 1, 1)));
    assert_eq!(dispatch_override(true, false, Some(&axis), Some(0), 640, 480), Some((1, 480, 1)));
    assert_eq!(dispatch_override(true, false, Some(&axis), None, 640, 480), Some((1, 480, 1)));
}

#[test]
fn output_slots_assign_channels_in_order() {
    let outputs = vec![
        fx_output("A", NodeOutputKind::Float),
        fx_output("B", NodeOutputKind::Int),
        fx_output("Color", NodeOutputKind::Pixel),
        fx_output("C", NodeOutputKind::Bool),
        fx_output("D", NodeOutputKind::Float),
        fx_output("E", NodeOutputKind::Float),
    ];
    assert_eq!(
        output_slots(&outputs).unwrap(),
        vec![
            OutputSlot::Channel(0),
            OutputSlot::Channel(1),
            OutputSlot::AllChannels,
            OutputSlot::Channel(2),
            OutputSlot::Channel(3),
            OutputSlot::Channel(3),
        ]
    );
    let frame = vec![fx_output("Output", NodeOutputKind::Frame)];
    assert_eq!(output_slots(&frame).unwrap(), vec![OutputSlot::Frame]);
}

#[test]
fn output_slots_reject_text_outputs() {
    let outputs = vec![fx_output("A", NodeOutputKind::Float), fx_output("Label", NodeOutputKind::Text)];
    assert!(matches!(
        output_slots(&outputs),
        Err(ExecutionError::UnsupportedOutputType(NodeOutputKind::Text))
    ));
}
