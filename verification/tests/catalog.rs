use substrate::catalog::{node_catalog, widget_for_input, WidgetNumber};
use substrate::library::NodeLibrary;
use substrate::schema::{
    BuiltInHandler, EngineNode, FloatBits, NodeDefinition, NodeExecutionPlan, NodeInput, NodeInputKind, NodeOutput,
    NodeOutputKind, NumberInputUiMode,
};

fn cat_def(name: &str, category: &str, inputs: Vec<NodeInput>, outputs: Vec<NodeOutput>) -> NodeDefinition {
    NodeDefinition {
        node: EngineNode {
            name: name.to_string(),
            inputs,
            outputs,
            executor: NodeExecutionPlan::BuiltIn(BuiltInHandler::ImageSource),
            short_description: format!("{} node", name),
            long_description: String::new(),
            category: category.to_string(),
            subcategories: vec!["Sub".to_string()],
            search_keywords: vec![],
        },
        shader_path: None,
        folder_path: String::new(),
    }
}

#[test]
fn catalog_lists_definitions_by_label_with_ports() {
    let mut lib = NodeLibrary::new();
    lib.insert_definition(cat_def(
        "Tint",
        "",
        vec![
            NodeInput { name: "Input".to_string(), kind: NodeInputKind::Frame, show_pin: true },
            NodeInput {
                name: "Mode".to_string(),
                kind: NodeInputKind::Enum { choices: vec!["Add".to_string(), "Multiply".to_string()], default_idx: Some(1) },
                show_pin: false,
            },
        ],
        vec![NodeOutput { name: "Output".to_string(), kind: NodeOutputKind::Frame, show_pin: true }],
    ));
    lib.insert_definition(cat_def("Blur", "Filters", vec![], vec![]));
    let cat = node_catalog(&lib);
    assert_eq!(cat.len(), 2);
    assert_eq!(cat[0].label, "Blur");
    assert_eq!(cat[0].category, "Filters");
    assert_eq!(cat[1].node_type, "Tint");
    assert_eq!(cat[1].category, "Other");
    assert_eq!(cat[1].description, "Tint node");
    assert_eq!(cat[1].subcategories, vec!["Sub".to_string()]);
    assert_eq!(cat[1].inputs.len(), 2);
    assert_eq!(cat[1].inputs[0].port_type, "video");
    assert_eq!(cat[1].inputs[1].port_type, "enum");
    assert!(!cat[1].inputs[1].show_pin);
    assert_eq!(cat[1].inputs[1].widget.choices, Some(vec!["Add".to_string(), "Multiply".to_string()]));
    assert_eq!(cat[1].inputs[1].widget.default_choice_idx, Some(1));
    assert_eq!(cat[1].outputs[0].id, "Output");
    assert_eq!(cat[1].outputs[0].port_type, "video");
    assert!(cat[1].outputs[0].widget.choices.is_none());
}

#[test]
fn number_widgets_carry_limits_and_slider_mode() {
    let w = widget_for_input(&NodeInputKind::Int {
        default: 3,
        min: Some(0),
        max: None,
        step: 2,
        input_ui: NumberInputUiMode::Slider,
    });
    assert_eq!(w.default_int, Some(3));
    assert_eq!(w.min, Some(WidgetNumber::Int(0)));
    assert_eq!(w.max, None);
    assert_eq!(w.step, Some(WidgetNumber::Int(2)));
    assert!(w.use_slider);
    let w = widget_for_input(&NodeInputKind::Float {
        default: FloatBits(0x3f800000),
        min: None,
        max: Some(FloatBits(0x40000000)),
        step: FloatBits(0x3dcccccd),
        input_ui: NumberInputUiMode::Field,
    });
    assert_eq!(w.default_float, Some(FloatBits(0x3f800000)));
    assert_eq!(w.max, Some(WidgetNumber::Float(FloatBits(0x40000000))));
    assert!(!w.use_slider);
    let w = widget_for_input(&NodeInputKind::Bool { default: true });
    assert_eq!(w.default_bool, Some(true));
    assert_eq!(w.step, None);
    let w = widget_for_input(&NodeInputKind::Text { default: "x".to_string() });
    assert!(w.default_bool.is_none() && w.choices.is_none() && !w.use_slider);
}
