//! The node schema: what a node definition declares about its inputs, outputs
//! and executor, the values an input can hold, and the rules that relate them
//! (which pins may be wired together, which inputs have defaults, how a kind
//! is named on the frontend).
//!
//! Floating-point numbers are carried as their IEEE-754 bit patterns
//! ([FloatBits]); nothing here computes with them.
use vstd::prelude::*;

verus! {

/// The bit pattern of an `f32` (as given by `f32::to_bits`).
#[derive(Clone, Copy, Debug, PartialEq, Eq, Structural, Hash)]
pub struct FloatBits(pub u32);

/// The id of a node instance in the engine graph.
#[derive(Clone, Copy, Debug, PartialEq, Eq, Structural, Hash, PartialOrd, Ord)]
pub struct EngineNodeId(pub u64);

/// How a number input is edited in the UI.
#[derive(Clone, Copy, Debug, PartialEq, Eq, Structural, Hash)]
pub enum NumberInputUiMode {
    Field,
    Slider,
}

/// What kind of value an input pin takes, with its defaults and limits.
#[derive(Debug)]
#[allow(inconsistent_fields)]
pub enum NodeInputKind {
    Frame,
    MidiPacket,
    Bool { default: bool },
    Int { default: i32, min: Option<i32>, max: Option<i32>, step: i32, input_ui: NumberInputUiMode },
    Float {
        default: FloatBits,
        min: Option<FloatBits>,
        max: Option<FloatBits>,
        step: FloatBits,
        input_ui: NumberInputUiMode,
    },
    Dimensions { default: (u32, u32) },
    Pixel { default: [FloatBits; 4] },
    Enum { choices: Vec<String>, default_idx: Option<usize> },
    Text { default: String },
    File { default: Option<String> },
    PortSelection,
}

/// What kind of value an output pin produces.
#[derive(Clone, Copy, Debug, PartialEq, Eq, Structural, Hash)]
pub enum NodeOutputKind {
    Frame,
    MidiPacket,
    Bool,
    Int,
    Float,
    Dimensions,
    Pixel,
    Text,
}

/// A declared input pin.
#[derive(Debug)]
pub struct NodeInput {
    pub name: String,
    pub kind: NodeInputKind,
    pub show_pin: bool,
}

/// A declared output pin.
#[derive(Debug)]
pub struct NodeOutput {
    pub name: String,
    pub kind: NodeOutputKind,
    pub show_pin: bool,
}

/// The engine's built-in node handlers.
#[derive(Clone, Copy, Debug, PartialEq, Eq, Structural, Hash)]
pub enum BuiltInHandler {
    ImageSource,
    VideoSource,
    /// A noise generator; the payload identifies the noise algorithm.
    Noise(u32),
    MidiSource,
    MidiProperties,
    SignalEnvelope,
}

/// Which GPU pipeline runs an algorithm stage.
#[derive(Clone, Copy, Debug, PartialEq, Eq, Structural, Hash)]
pub enum AlgorithmStageBackend {
    Render,
    Compute,
}

/// How a compute stage chooses its dispatch size.
#[derive(Clone, Copy, Debug, PartialEq, Eq, Structural, Hash)]
pub enum AlgorithmStageDispatchMode {
    Auto,
    Rows,
    Columns,
    AxisFromEnumInput,
}

/// A compute stage's dispatch override.
#[derive(Debug)]
pub struct AlgorithmStageDispatch {
    pub mode: AlgorithmStageDispatchMode,
    /// The enum input that picks the axis (for [AlgorithmStageDispatchMode::AxisFromEnumInput]).
    pub enum_input: Option<String>,
    /// The enum value that means "columns".
    pub columns_enum_value: usize,
}

/// One stage of an algorithm node.
#[derive(Debug)]
pub struct AlgorithmStage {
    pub backend: AlgorithmStageBackend,
    pub source: String,
    pub extra_frame_inputs: usize,
    pub dispatch: Option<AlgorithmStageDispatch>,
}

/// An extra render pass of a shader node.
#[derive(Debug)]
pub struct ShaderPass {
    pub source: String,
}

/// How a node is executed.
#[derive(Debug)]
pub enum NodeExecutionPlan {
    Shader { source: String, passes: Vec<ShaderPass> },
    Algorithm { kind: String, stages: Vec<AlgorithmStage> },
    BuiltIn(BuiltInHandler),
}

/// A node as declared in its `node.json`.
#[derive(Debug)]
pub struct EngineNode {
    pub name: String,
    pub inputs: Vec<NodeInput>,
    pub outputs: Vec<NodeOutput>,
    pub executor: NodeExecutionPlan,
    pub short_description: String,
    pub long_description: String,
    pub category: String,
    pub subcategories: Vec<String>,
    pub search_keywords: Vec<String>,
}

/// A loaded node definition: the declaration plus where it was found.
#[derive(Debug)]
pub struct NodeDefinition {
    pub node: EngineNode,
    pub shader_path: Option<String>,
    pub folder_path: String,
}

/// A value configured on (or wired into) a node input.
#[derive(Debug)]
pub enum InputValue {
    Bool(bool),
    Int(i32),
    Float(FloatBits),
    Dimensions { width: u32, height: u32 },
    Pixel { r: FloatBits, g: FloatBits, b: FloatBits, a: FloatBits },
    Enum(usize),
    Text(String),
    File(String),
    Connection { from_node: EngineNodeId, from_output: String },
}

/// An [InputValue] with its strings seen as character sequences.
pub enum InputValueView {
    Bool(bool),
    Int(i32),
    Float(FloatBits),
    Dimensions { width: u32, height: u32 },
    Pixel { r: FloatBits, g: FloatBits, b: FloatBits, a: FloatBits },
    Enum(usize),
    Text(Seq<char>),
    File(Seq<char>),
    Connection { from_node: EngineNodeId, from_output: Seq<char> },
}

impl View for InputValue {
    type V = InputValueView;

    open spec fn view(&self) -> InputValueView {
        match *self {
            InputValue::Bool(b) => InputValueView::Bool(b),
            InputValue::Int(i) => InputValueView::Int(i),
            InputValue::Float(f) => InputValueView::Float(f),
            InputValue::Dimensions { width, height } => InputValueView::Dimensions { width, height },
            InputValue::Pixel { r, g, b, a } => InputValueView::Pixel { r, g, b, a },
            InputValue::Enum(i) => InputValueView::Enum(i),
            InputValue::Text(s) => InputValueView::Text(s@),
            InputValue::File(s) => InputValueView::File(s@),
            InputValue::Connection { from_node, from_output } => InputValueView::Connection {
                from_node,
                from_output: from_output@,
            },
        }
    }
}

/// The view of an optional input value.
pub open spec fn opt_value_view(o: Option<InputValue>) -> Option<InputValueView> {
    match o {
        Some(v) => Some(v@),
        None => None,
    }
}

impl Clone for InputValue {
    fn clone(&self) -> (r: Self)
        ensures
            r == *self,
            r@ == self@,
    {
        match self {
            InputValue::Bool(b) => InputValue::Bool(*b),
            InputValue::Int(i) => InputValue::Int(*i),
            InputValue::Float(f) => InputValue::Float(*f),
            InputValue::Dimensions { width, height } => InputValue::Dimensions {
                width: *width,
                height: *height,
            },
            InputValue::Pixel { r, g, b, a } => InputValue::Pixel { r: *r, g: *g, b: *b, a: *a },
            InputValue::Enum(i) => InputValue::Enum(*i),
            InputValue::Text(s) => InputValue::Text(s.clone()),
            InputValue::File(s) => InputValue::File(s.clone()),
            InputValue::Connection { from_node, from_output } => InputValue::Connection {
                from_node: *from_node,
                from_output: from_output.clone(),
            },
        }
    }
}

/// The output kind an input kind expects to be fed by.
pub open spec fn spec_input_kind_to_output_kind(kind: NodeInputKind) -> NodeOutputKind {
    match kind {
        NodeInputKind::Frame => NodeOutputKind::Frame,
        NodeInputKind::MidiPacket => NodeOutputKind::MidiPacket,
        NodeInputKind::Bool { .. } => NodeOutputKind::Bool,
        NodeInputKind::Int { .. } => NodeOutputKind::Int,
        NodeInputKind::Float { .. } => NodeOutputKind::Float,
        NodeInputKind::Dimensions { .. } => NodeOutputKind::Dimensions,
        NodeInputKind::Pixel { .. } => NodeOutputKind::Pixel,
        NodeInputKind::Enum { .. } => NodeOutputKind::Int,
        NodeInputKind::Text { .. } => NodeOutputKind::Text,
        NodeInputKind::File { .. } => NodeOutputKind::Text,
        NodeInputKind::PortSelection => NodeOutputKind::Text,
    }
}

/// The output kind an input kind expects to be fed by.
pub fn input_kind_to_output_kind(kind: &NodeInputKind) -> (r: NodeOutputKind)
    ensures
        r == spec_input_kind_to_output_kind(*kind),
{
    match kind {
        NodeInputKind::Frame => NodeOutputKind::Frame,
        NodeInputKind::MidiPacket => NodeOutputKind::MidiPacket,
        NodeInputKind::Bool { .. } => NodeOutputKind::Bool,
        NodeInputKind::Int { .. } => NodeOutputKind::Int,
        NodeInputKind::Float { .. } => NodeOutputKind::Float,
        NodeInputKind::Dimensions { .. } => NodeOutputKind::Dimensions,
        NodeInputKind::Pixel { .. } => NodeOutputKind::Pixel,
        NodeInputKind::Enum { .. } => NodeOutputKind::Int,
        NodeInputKind::Text { .. } => NodeOutputKind::Text,
        NodeInputKind::File { .. } => NodeOutputKind::Text,
        NodeInputKind::PortSelection => NodeOutputKind::Text,
    }
}

/// An output may feed an input when it produces the kind the input expects,
/// or when an `Int` output feeds a `Float` input (numeric widening).
pub open spec fn spec_pin_kinds_compatible(output_kind: NodeOutputKind, input_kind: NodeInputKind) -> bool {
    output_kind == spec_input_kind_to_output_kind(input_kind) || (output_kind
        == NodeOutputKind::Int && input_kind is Float)
}

/// Pin kinds only ever widen from `Int` to `Float`: every input accepts the
/// kind it expects, an `Int` output also feeds a `Float` input, and no other
/// pair connects; in particular a `Float` output never feeds an `Int` (or
/// choice) input, and a frame output feeds frame inputs only.
pub proof fn lemma_pin_kinds_only_widen(output_kind: NodeOutputKind, input_kind: NodeInputKind)
    ensures
        spec_pin_kinds_compatible(spec_input_kind_to_output_kind(input_kind), input_kind),
        output_kind == NodeOutputKind::Int && input_kind is Float ==> spec_pin_kinds_compatible(output_kind, input_kind),
        output_kind == NodeOutputKind::Float && (input_kind is Int || input_kind is Enum) ==> !spec_pin_kinds_compatible(
            output_kind,
            input_kind,
        ),
        output_kind == NodeOutputKind::Frame ==> (spec_pin_kinds_compatible(output_kind, input_kind)
            <==> input_kind is Frame),
        spec_pin_kinds_compatible(output_kind, input_kind) && output_kind != spec_input_kind_to_output_kind(input_kind)
            ==> output_kind == NodeOutputKind::Int && spec_input_kind_to_output_kind(input_kind)
            == NodeOutputKind::Float,
{
}

/// Whether an output pin of `output_kind` may be wired into an input of `input_kind`.
pub fn are_pin_kinds_compatible(output_kind: NodeOutputKind, input_kind: &NodeInputKind) -> (r: bool)
    ensures
        r == spec_pin_kinds_compatible(output_kind, *input_kind),
{
    let expected_output_kind = input_kind_to_output_kind(input_kind);
    output_kind == expected_output_kind || (output_kind == NodeOutputKind::Int && matches!(
        input_kind,
        NodeInputKind::Float { .. }
    ))
}

/// Frame and MIDI inputs have no default and must be wired; every other kind
/// can fall back on a default.
pub open spec fn spec_has_default(kind: NodeInputKind) -> bool {
    !(kind is Frame || kind is MidiPacket)
}

/// Whether an input of this kind can be left unwired.
pub fn has_default(kind: &NodeInputKind) -> (r: bool)
    ensures
        r == spec_has_default(*kind),
{
    !matches!(kind, NodeInputKind::Frame | NodeInputKind::MidiPacket)
}

/// The value an input starts with when nothing is configured.
pub open spec fn spec_default_input_value(kind: NodeInputKind) -> Option<InputValueView> {
    match kind {
        NodeInputKind::Bool { default } => Some(InputValueView::Bool(default)),
        NodeInputKind::Int { default, .. } => Some(InputValueView::Int(default)),
        NodeInputKind::Float { default, .. } => Some(InputValueView::Float(default)),
        NodeInputKind::Dimensions { default } => Some(
            InputValueView::Dimensions { width: default.0, height: default.1 },
        ),
        NodeInputKind::Pixel { default } => Some(
            InputValueView::Pixel { r: default[0], g: default[1], b: default[2], a: default[3] },
        ),
        NodeInputKind::Enum { default_idx, .. } => Some(
            InputValueView::Enum(
                match default_idx {
                    Some(i) => i,
                    None => 0,
                },
            ),
        ),
        NodeInputKind::Text { default } => Some(InputValueView::Text(default@)),
        NodeInputKind::File { default } => match default {
            Some(path) => Some(InputValueView::File(path@)),
            None => None,
        },
        NodeInputKind::Frame => None,
        NodeInputKind::MidiPacket => None,
        NodeInputKind::PortSelection => Some(InputValueView::Text(Seq::empty())),
    }
}

/// The value an input starts with when nothing is configured (`None` for
/// inputs that must be wired and for files without a default).
pub fn default_input_value(input_def: &NodeInput) -> (r: Option<InputValue>)
    ensures
        opt_value_view(r) == spec_default_input_value(input_def.kind),
{
    match &input_def.kind {
        NodeInputKind::Bool { default } => Some(InputValue::Bool(*default)),
        NodeInputKind::Int { default, .. } => Some(InputValue::Int(*default)),
        NodeInputKind::Float { default, .. } => Some(InputValue::Float(*default)),
        NodeInputKind::Dimensions { default } => Some(
            InputValue::Dimensions { width: default.0, height: default.1 },
        ),
        NodeInputKind::Pixel { default } => Some(
            InputValue::Pixel { r: default[0], g: default[1], b: default[2], a: default[3] },
        ),
        NodeInputKind::Enum { default_idx, .. } => Some(
            InputValue::Enum(
                match default_idx {
                    Some(i) => *i,
                    None => 0,
                },
            ),
        ),
        NodeInputKind::Text { default } => Some(InputValue::Text(default.clone())),
        NodeInputKind::File { default } => match default {
            Some(path) => Some(InputValue::File(path.clone())),
            None => None,
        },
        NodeInputKind::Frame | NodeInputKind::MidiPacket => None,
        NodeInputKind::PortSelection => Some(InputValue::Text(String::new())),
    }
}

} // verus!

verus! {

/// The frontend's name for the port type of an input kind.
pub open spec fn spec_input_port_type(kind: NodeInputKind) -> Seq<char> {
    match kind {
        NodeInputKind::Frame => "video"@,
        NodeInputKind::MidiPacket => "midi"@,
        NodeInputKind::Bool { .. } => "bool"@,
        NodeInputKind::Int { .. } => "int"@,
        NodeInputKind::Float { .. } => "float"@,
        NodeInputKind::Dimensions { .. } => "dimensions"@,
        NodeInputKind::Pixel { .. } => "pixel"@,
        NodeInputKind::Enum { .. } => "enum"@,
        NodeInputKind::Text { .. } => "text"@,
        NodeInputKind::File { .. } => "file"@,
        NodeInputKind::PortSelection => "port_selection"@,
    }
}

/// The frontend's name for the port type of an output kind.
pub open spec fn spec_output_port_type(kind: NodeOutputKind) -> Seq<char> {
    match kind {
        NodeOutputKind::Frame => "video"@,
        NodeOutputKind::MidiPacket => "midi"@,
        NodeOutputKind::Bool => "bool"@,
        NodeOutputKind::Int => "int"@,
        NodeOutputKind::Float => "float"@,
        NodeOutputKind::Dimensions => "dimensions"@,
        NodeOutputKind::Pixel => "pixel"@,
        NodeOutputKind::Text => "text"@,
    }
}

/// The frontend's name for the port type of an input kind.
pub fn input_port_type(kind: &NodeInputKind) -> (r: &'static str)
    ensures
        r@ == spec_input_port_type(*kind),
{
    match kind {
        NodeInputKind::Frame => "video",
        NodeInputKind::MidiPacket => "midi",
        NodeInputKind::Bool { .. } => "bool",
        NodeInputKind::Int { .. } => "int",
        NodeInputKind::Float { .. } => "float",
        NodeInputKind::Dimensions { .. } => "dimensions",
        NodeInputKind::Pixel { .. } => "pixel",
        NodeInputKind::Enum { .. } => "enum",
        NodeInputKind::Text { .. } => "text",
        NodeInputKind::File { .. } => "file",
        NodeInputKind::PortSelection => "port_selection",
    }
}

/// The frontend's name for the port type of an output kind.
pub fn output_port_type(kind: NodeOutputKind) -> (r: &'static str)
    ensures
        r@ == spec_output_port_type(kind),
{
    match kind {
        NodeOutputKind::Frame => "video",
        NodeOutputKind::MidiPacket => "midi",
        NodeOutputKind::Bool => "bool",
        NodeOutputKind::Int => "int",
        NodeOutputKind::Float => "float",
        NodeOutputKind::Dimensions => "dimensions",
        NodeOutputKind::Pixel => "pixel",
        NodeOutputKind::Text => "text",
    }
}

/// Nodes whose output depends only on their inputs; video, MIDI, noise and
/// signal-envelope sources change over time and always re-execute.
pub open spec fn spec_is_cacheable(plan: NodeExecutionPlan) -> bool {
    !(plan matches NodeExecutionPlan::BuiltIn(h) && (h is VideoSource || h is MidiSource
        || h is Noise || h is SignalEnvelope))
}

/// Sources that change over time are never cached: a node run by the
/// built-in video, MIDI, noise (whatever its algorithm) or signal-envelope
/// handler always executes again; image sources, MIDI properties, shader
/// and algorithm nodes may reuse their outputs.
pub proof fn lemma_time_varying_sources_rerun(noise: u32, plan: NodeExecutionPlan)
    ensures
        !spec_is_cacheable(NodeExecutionPlan::BuiltIn(BuiltInHandler::Noise(noise))),
        !spec_is_cacheable(NodeExecutionPlan::BuiltIn(BuiltInHandler::VideoSource)),
        !spec_is_cacheable(NodeExecutionPlan::BuiltIn(BuiltInHandler::MidiSource)),
        !spec_is_cacheable(NodeExecutionPlan::BuiltIn(BuiltInHandler::SignalEnvelope)),
        spec_is_cacheable(NodeExecutionPlan::BuiltIn(BuiltInHandler::ImageSource)),
        spec_is_cacheable(NodeExecutionPlan::BuiltIn(BuiltInHandler::MidiProperties)),
        !(plan is BuiltIn) ==> spec_is_cacheable(plan),
{
}

/// Whether a node's outputs may be reused while its inputs are unchanged.
pub fn is_cacheable_node(definition: &NodeDefinition) -> (r: bool)
    ensures
        r == spec_is_cacheable(definition.node.executor),
{
    !matches!(
        definition.node.executor,
        NodeExecutionPlan::BuiltIn(BuiltInHandler::VideoSource) | NodeExecutionPlan::BuiltIn(
            BuiltInHandler::MidiSource,
        ) | NodeExecutionPlan::BuiltIn(BuiltInHandler::Noise(_)) | NodeExecutionPlan::BuiltIn(
            BuiltInHandler::SignalEnvelope,
        )
    )
}

} // verus!
