//! Planning the GPU stages of shader and algorithm nodes.
//!
//! A shader node runs its extra passes and then its main shader; an
//! algorithm node runs its declared stages. Every stage sees the node's
//! frame inputs plus the outputs of all earlier stages; the last stage writes
//! the node's output (or, for nodes with scalar outputs, a texture whose
//! first pixel is read back and split into channels). This module decides
//! the stage list, each stage's target and dispatch size, and how the
//! read-back pixel maps onto the node's outputs; the caller drives the GPU.
use vstd::prelude::*;
use vstd::string::StringExecFns;
use crate::execution::ExecutionError;
use crate::schema::{
    AlgorithmStageBackend, AlgorithmStageDispatch, AlgorithmStageDispatchMode, NodeDefinition, NodeExecutionPlan,
    NodeInput, NodeInputKind, NodeOutput, NodeOutputKind,
};
use crate::text::{decimal, push_decimal};

verus! {

/// Texture formats, as far as effect execution tells them apart.
#[derive(Clone, Copy, Debug, PartialEq, Eq, Structural, Hash)]
pub enum TextureFormat {
    Rgba8Unorm,
    Rgba16Float,
    Bgra8Unorm,
    Bgra8UnormSrgb,
    /// Any other format.
    Other,
}

/// One stage to run: the pipeline kind, the shader (relative to the node's
/// folder), how many pass inputs it declares beyond the node's own inputs,
/// and an optional dispatch override for compute stages.
#[derive(Clone, Copy, Debug)]
pub struct EffectStage<'a> {
    pub backend: AlgorithmStageBackend,
    pub source: &'a str,
    pub extra_frame_inputs: usize,
    pub dispatch: Option<&'a AlgorithmStageDispatch>,
}

/// "<name> is not a <what> node"
fn not_a_node_message(name: &str, what: &str) -> (r: String)
    ensures
        r@ == name@ + " is not a "@ + what@ + " node"@,
{
    let mut s = String::from_str(name);
    s.append(" is not a ");
    s.append(what);
    s.append(" node");
    s
}

/// The stages of a shader node: one render stage per extra pass (stage `i`
/// declaring `i` pass inputs), then the main shader declaring one pass input
/// per extra pass.
pub fn shader_stages<'a>(definition: &'a NodeDefinition) -> (r: Result<Vec<EffectStage<'a>>, ExecutionError>)
    ensures
        match definition.node.executor {
            NodeExecutionPlan::Shader { source, passes } => r matches Ok(v) && v@.len() == passes@.len() + 1
                && (forall|i: int|
                0 <= i < passes@.len() ==> (#[trigger] v@[i]).backend == AlgorithmStageBackend::Render
                    && v@[i].source@ == passes@[i].source@ && v@[i].extra_frame_inputs == i && v@[i].dispatch is None)
                && v@.last().backend == AlgorithmStageBackend::Render && v@.last().source@ == source@
                && v@.last().extra_frame_inputs == passes@.len() && v@.last().dispatch is None,
            _ => r matches Err(ExecutionError::PipelineCreationError(m)) && m@ == definition.node.name@
                + " is not a "@ + "shader"@ + " node"@,
        },
{
    match &definition.node.executor {
        NodeExecutionPlan::Shader { source, passes } => {
            let mut stages: Vec<EffectStage<'a>> = Vec::new();
            let mut i: usize = 0;
            while i < passes.len()
                invariant
                    i <= passes@.len(),
                    stages@.len() == i,
                    forall|j: int|
                        0 <= j < i ==> (#[trigger] stages@[j]).backend == AlgorithmStageBackend::Render
                            && stages@[j].source@ == passes@[j].source@ && stages@[j].extra_frame_inputs == j
                            && stages@[j].dispatch is None,
                decreases passes.len() - i,
            {
                stages.push(
                    EffectStage {
                        backend: AlgorithmStageBackend::Render,
                        source: passes[i].source.as_str(),
                        extra_frame_inputs: i,
                        dispatch: None,
                    },
                );
                i = i + 1;
            }
            stages.push(
                EffectStage {
                    backend: AlgorithmStageBackend::Render,
                    source: source.as_str(),
                    extra_frame_inputs: passes.len(),
                    dispatch: None,
                },
            );
            Ok(stages)
        },
        _ => Err(ExecutionError::PipelineCreationError(not_a_node_message(definition.node.name.as_str(), "shader"))),
    }
}

/// `a` refers to the dispatch `b` holds.
pub open spec fn same_dispatch(a: Option<&AlgorithmStageDispatch>, b: Option<AlgorithmStageDispatch>) -> bool {
    match (a, b) {
        (Some(x), Some(y)) => *x == y,
        (None, None) => true,
        _ => false,
    }
}

/// The stages of an algorithm node, as declared.
pub fn algorithm_stages<'a>(definition: &'a NodeDefinition) -> (r: Result<Vec<EffectStage<'a>>, ExecutionError>)
    ensures
        match definition.node.executor {
            NodeExecutionPlan::Algorithm { stages, .. } => r matches Ok(v) && v@.len() == stages@.len() && forall|i: int|
                0 <= i < stages@.len() ==> (#[trigger] v@[i]).backend == stages@[i].backend && v@[i].source@
                    == stages@[i].source@ && v@[i].extra_frame_inputs == stages@[i].extra_frame_inputs && same_dispatch(
                    v@[i].dispatch,
                    stages@[i].dispatch,
                ),
            _ => r matches Err(ExecutionError::PipelineCreationError(m)) && m@ == definition.node.name@
                + " is not a "@ + "algorithm"@ + " node"@,
        },
{
    match &definition.node.executor {
        NodeExecutionPlan::Algorithm { stages, .. } => {
            let mut plan: Vec<EffectStage<'a>> = Vec::new();
            let mut i: usize = 0;
            while i < stages.len()
                invariant
                    i <= stages@.len(),
                    plan@.len() == i,
                    forall|j: int|
                        0 <= j < i ==> (#[trigger] plan@[j]).backend == stages@[j].backend && plan@[j].source@
                            == stages@[j].source@ && plan@[j].extra_frame_inputs == stages@[j].extra_frame_inputs
                            && same_dispatch(plan@[j].dispatch, stages@[j].dispatch),
                decreases stages.len() - i,
            {
                let stage = &stages[i];
                let dispatch = match &stage.dispatch {
                    Some(d) => Some(d),
                    None => None,
                };
                plan.push(
                    EffectStage {
                        backend: stage.backend,
                        source: stage.source.as_str(),
                        extra_frame_inputs: stage.extra_frame_inputs,
                        dispatch,
                    },
                );
                i = i + 1;
            }
            Ok(plan)
        },
        _ => Err(ExecutionError::PipelineCreationError(not_a_node_message(definition.node.name.as_str(), "algorithm"))),
    }
}

/// Some output produces frames.
pub open spec fn has_frame_output(outputs: Seq<NodeOutput>) -> bool {
    exists|i: int| 0 <= i < outputs.len() && (#[trigger] outputs[i]).kind is Frame
}

/// Some output produces a scalar (anything but a frame).
pub open spec fn has_scalar_output(outputs: Seq<NodeOutput>) -> bool {
    exists|i: int| 0 <= i < outputs.len() && !((#[trigger] outputs[i]).kind is Frame)
}

/// Which kinds of output a node produces.
#[derive(Clone, Copy, Debug, PartialEq, Eq, Structural)]
pub struct OutputShape {
    pub has_frame_output: bool,
    pub has_scalar_output: bool,
}

/// Checks that an effect node can run with `frame_input_count` frames
/// wired in: a frame-producing node needs a frame input, and a node cannot
/// produce both frames and scalars.
pub fn output_shape(definition: &NodeDefinition, frame_input_count: usize) -> (r: Result<OutputShape, ExecutionError>)
    ensures
        ({
            let f = has_frame_output(definition.node.outputs@);
            let s = has_scalar_output(definition.node.outputs@);
            if f && frame_input_count == 0 {
                r matches Err(ExecutionError::NoFrameInput(n)) && n@ == definition.node.name@
            } else if f && s {
                r matches Err(ExecutionError::UnsupportedNodeOutputCombination)
            } else {
                r == Ok::<OutputShape, ExecutionError>(OutputShape { has_frame_output: f, has_scalar_output: s })
            }
        }),
{
    let outputs = &definition.node.outputs;
    let mut has_frame = false;
    let mut has_scalar = false;
    let mut i: usize = 0;
    while i < outputs.len()
        invariant
            i <= outputs@.len(),
            has_frame == exists|j: int| 0 <= j < i && (#[trigger] outputs@[j]).kind is Frame,
            has_scalar == exists|j: int| 0 <= j < i && !((#[trigger] outputs@[j]).kind is Frame),
        decreases outputs.len() - i,
    {
        if matches!(outputs[i].kind, NodeOutputKind::Frame) {
            has_frame = true;
        } else {
            has_scalar = true;
        }
        i = i + 1;
    }
    if has_frame && frame_input_count == 0 {
        return Err(ExecutionError::NoFrameInput(definition.node.name.clone()));
    }
    if has_frame && has_scalar {
        return Err(ExecutionError::UnsupportedNodeOutputCombination);
    }
    Ok(OutputShape { has_frame_output: has_frame, has_scalar_output: has_scalar })
}

/// An input takes a frame.
pub open spec fn is_frame_input(input: NodeInput) -> bool {
    input.kind is Frame
}

/// The names of the frame inputs, in declaration order.
pub open spec fn frame_input_names_spec(inputs: Seq<NodeInput>) -> Seq<Seq<char>> {
    inputs.filter(|i: NodeInput| is_frame_input(i)).map_values(|i: NodeInput| i.name@)
}

/// The names of a node's frame inputs, in declaration order (the first one
/// present is the stages' primary input, the others follow it).
pub fn frame_input_names(definition: &NodeDefinition) -> (r: Vec<String>)
    ensures
        crate::sorted::views(r@) == frame_input_names_spec(definition.node.inputs@),
{
    let ghost inputs = definition.node.inputs@;
    let ghost keep = |i: NodeInput| is_frame_input(i);
    let mut r: Vec<String> = Vec::new();
    let mut k: usize = 0;
    while k < definition.node.inputs.len()
        invariant
            inputs == definition.node.inputs@,
            keep == (|i: NodeInput| is_frame_input(i)),
            k <= inputs.len(),
            crate::sorted::views(r@) == inputs.take(k as int).filter(keep).map_values(|i: NodeInput| i.name@),
        decreases definition.node.inputs.len() - k,
    {
        proof {
            crate::library::lemma_filter_take_step(inputs, keep, k as int);
        }
        let input = &definition.node.inputs[k];
        let ghost before = r@;
        if matches!(input.kind, NodeInputKind::Frame) {
            r.push(input.name.clone());
            assert(crate::sorted::views(r@) =~= crate::sorted::views(before).push(input.name@));
            assert(inputs.take(k + 1).filter(keep).map_values(|i: NodeInput| i.name@) =~= inputs.take(
                k as int,
            ).filter(keep).map_values(|i: NodeInput| i.name@).push(input.name@));
        }
        k = k + 1;
    }
    proof {
        crate::library::lemma_filter_take_all(inputs, keep);
    }
    r
}

/// "<node name>::stage<index>"
pub fn stage_name(node_name: &str, index: usize) -> (r: String)
    ensures
        r@ == node_name@ + "::stage"@ + decimal(index as nat),
{
    let mut s = String::from_str(node_name);
    s.append("::stage");
    push_decimal(&mut s, index);
    s
}

/// The pass input a stage declares at position `index` among its extra inputs.
pub open spec fn is_pass_input(input: NodeInput, index: nat) -> bool {
    &&& input.name@ == "Pass Input "@ + decimal(index + 1)
    &&& input.kind is Frame
    &&& !input.show_pin
}

/// The definition a stage's pipeline is built from: the node's definition
/// renamed to the stage, with `extra_frame_inputs` hidden frame inputs
/// ("Pass Input 1", "Pass Input 2", ...) appended.
pub fn build_shader_stage_definition(definition: NodeDefinition, stage_name: String, extra_frame_inputs: usize) -> (r: NodeDefinition)
    requires
        definition.node.inputs@.len() + extra_frame_inputs <= usize::MAX,
    ensures
        r.node.name@ == stage_name@,
        r.node.inputs@.len() == definition.node.inputs@.len() + extra_frame_inputs,
        forall|i: int| 0 <= i < definition.node.inputs@.len() ==> r.node.inputs@[i] == definition.node.inputs@[i],
        forall|i: int|
            0 <= i < extra_frame_inputs ==> is_pass_input(
                #[trigger] r.node.inputs@[definition.node.inputs@.len() + i],
                i as nat,
            ),
        r.node.outputs == definition.node.outputs,
        r.node.executor == definition.node.executor,
        r.node.short_description == definition.node.short_description,
        r.node.long_description == definition.node.long_description,
        r.node.category == definition.node.category,
        r.node.subcategories == definition.node.subcategories,
        r.node.search_keywords == definition.node.search_keywords,
        r.shader_path == definition.shader_path,
        r.folder_path == definition.folder_path,
{
    let mut d = definition;
    d.node.name = stage_name;
    let ghost base = definition.node.inputs@;
    let mut index: usize = 0;
    while index < extra_frame_inputs
        invariant
            base == definition.node.inputs@,
            base.len() + extra_frame_inputs <= usize::MAX,
            index <= extra_frame_inputs,
            d.node.name@ == stage_name@,
            d.node.inputs@.len() == base.len() + index,
            forall|i: int| 0 <= i < base.len() ==> d.node.inputs@[i] == base[i],
            forall|i: int| 0 <= i < index ==> is_pass_input(#[trigger] d.node.inputs@[base.len() + i], i as nat),
            d.node.outputs == definition.node.outputs,
            d.node.executor == definition.node.executor,
            d.node.short_description == definition.node.short_description,
            d.node.long_description == definition.node.long_description,
            d.node.category == definition.node.category,
            d.node.subcategories == definition.node.subcategories,
            d.node.search_keywords == definition.node.search_keywords,
            d.shader_path == definition.shader_path,
            d.folder_path == definition.folder_path,
        decreases extra_frame_inputs - index,
    {
        let mut name = String::from_str("Pass Input ");
        push_decimal(&mut name, index + 1);
        d.node.inputs.push(NodeInput { name, kind: NodeInputKind::Frame, show_pin: false });
        index = index + 1;
    }
    d
}

/// Where a stage writes.
#[derive(Clone, Copy, Debug, PartialEq, Eq, Structural)]
pub enum StageTarget {
    /// The node's output texture (in the engine's format).
    NodeOutput,
    /// The texture whose first pixel holds the node's scalar outputs.
    ScalarOutput,
    /// The intermediate render texture of stage `0`.
    RenderStage(usize),
    /// The compute texture of stage `0`, in format `1`.
    ComputeStage(usize, TextureFormat),
}

/// What running one stage involves.
#[derive(Clone, Copy, Debug, PartialEq, Eq, Structural)]
pub struct StagePlan {
    pub backend: AlgorithmStageBackend,
    pub is_final: bool,
    /// How many earlier stage outputs this stage sees after the node's
    /// secondary frame inputs.
    pub prior_intermediates: usize,
    /// The storage format of a compute stage's output.
    pub storage_format: Option<TextureFormat>,
    pub target: StageTarget,
    /// The final compute stage's output is copied into the node's output
    /// texture by a blit pass, its storage format not being the engine's.
    pub blit_to_node_output: bool,
}

/// The plan of stage `index` of `count` stages.
pub open spec fn stage_plan_spec(
    backend: AlgorithmStageBackend,
    index: int,
    count: int,
    has_scalar_output: bool,
    target_format: TextureFormat,
) -> StagePlan {
    let is_final = index + 1 == count;
    match backend {
        AlgorithmStageBackend::Render => StagePlan {
            backend,
            is_final,
            prior_intermediates: index as usize,
            storage_format: None,
            target: if is_final {
                if has_scalar_output {
                    StageTarget::ScalarOutput
                } else {
                    StageTarget::NodeOutput
                }
            } else {
                StageTarget::RenderStage(index as usize)
            },
            blit_to_node_output: false,
        },
        AlgorithmStageBackend::Compute => {
            let format = if is_final {
                TextureFormat::Rgba8Unorm
            } else {
                TextureFormat::Rgba16Float
            };
            StagePlan {
                backend,
                is_final,
                prior_intermediates: index as usize,
                storage_format: Some(format),
                target: if is_final && has_scalar_output {
                    StageTarget::ScalarOutput
                } else {
                    StageTarget::ComputeStage(index as usize, format)
                },
                blit_to_node_output: is_final && format != target_format,
            }
        },
    }
}

/// The plan of every stage, in order.
pub fn plan_stages(stages: &Vec<EffectStage>, has_scalar_output: bool, target_format: TextureFormat) -> (r: Vec<StagePlan>)
    ensures
        r@.len() == stages@.len(),
        forall|i: int| 0 <= i < r@.len() ==> (#[trigger] r@[i]).prior_intermediates == i,
        forall|i: int|
            0 <= i < stages@.len() ==> #[trigger] r@[i] == stage_plan_spec(
                stages@[i].backend,
                i,
                stages@.len() as int,
                has_scalar_output,
                target_format,
            ),
{
    let mut r: Vec<StagePlan> = Vec::new();
    let n = stages.len();
    let mut i: usize = 0;
    while i < n
        invariant
            n == stages@.len(),
            i <= n,
            r@.len() == i,
            forall|j: int|
                0 <= j < i ==> #[trigger] r@[j] == stage_plan_spec(
                    stages@[j].backend,
                    j,
                    n as int,
                    has_scalar_output,
                    target_format,
                ),
        decreases n - i,
    {
        let is_final = i + 1 == n;
        let plan = match stages[i].backend {
            AlgorithmStageBackend::Render => StagePlan {
                backend: AlgorithmStageBackend::Render,
                is_final,
                prior_intermediates: i,
                storage_format: None,
                target: if is_final {
                    if has_scalar_output {
                        StageTarget::ScalarOutput
                    } else {
                        StageTarget::NodeOutput
                    }
                } else {
                    StageTarget::RenderStage(i)
                },
                blit_to_node_output: false,
            },
            AlgorithmStageBackend::Compute => {
                let format = if is_final {
                    TextureFormat::Rgba8Unorm
                } else {
                    TextureFormat::Rgba16Float
                };
                StagePlan {
                    backend: AlgorithmStageBackend::Compute,
                    is_final,
                    prior_intermediates: i,
                    storage_format: Some(format),
                    target: if is_final && has_scalar_output {
                        StageTarget::ScalarOutput
                    } else {
                        StageTarget::ComputeStage(i, format)
                    },
                    blit_to_node_output: is_final && format != target_format,
                }
            },
        };
        r.push(plan);
        i = i + 1;
    }
    r
}

/// Every stage sees the outputs of all the stages before it: in a plan of
/// the stages, stage `i` is handed `i` earlier outputs, whatever its
/// backend. For a shader node, whose stage `i` declares `i` pass inputs
/// (see [shader_stages]), each stage is handed exactly as many earlier
/// outputs as it declares pass inputs.
pub proof fn lemma_stages_see_prior_outputs(
    stages: Seq<EffectStage>,
    plans: Seq<StagePlan>,
    has_scalar_output: bool,
    target_format: TextureFormat,
)
    requires
        plans.len() == stages.len(),
        stages.len() <= usize::MAX,
        forall|i: int|
            0 <= i < stages.len() ==> #[trigger] plans[i] == stage_plan_spec(
                stages[i].backend,
                i,
                stages.len() as int,
                has_scalar_output,
                target_format,
            ),
    ensures
        forall|i: int| 0 <= i < plans.len() ==> (#[trigger] plans[i]).prior_intermediates == i,
        (forall|i: int| 0 <= i < stages.len() ==> (#[trigger] stages[i]).extra_frame_inputs == i) ==> forall|i: int|
            0 <= i < plans.len() ==> (#[trigger] plans[i]).prior_intermediates == stages[i].extra_frame_inputs,
{
    assert forall|i: int| 0 <= i < plans.len() implies (#[trigger] plans[i]).prior_intermediates == i by {
        assert(plans[i] == stage_plan_spec(stages[i].backend, i, stages.len() as int, has_scalar_output, target_format));
    }
}

/// The texture a frame-producing node's output frame is: the node's output
/// texture, unless the last stage is a compute stage whose output needs no
/// blit, in which case it is that stage's texture.
pub open spec fn frame_output_texture(plans: Seq<StagePlan>) -> StageTarget {
    if plans.len() > 0 && plans.last().backend == AlgorithmStageBackend::Compute && !plans.last().blit_to_node_output {
        plans.last().target
    } else {
        StageTarget::NodeOutput
    }
}

/// For a node without scalar outputs, the frame output always has a
/// backing texture: the node's output texture or the last compute stage's.
pub proof fn lemma_frame_output_has_texture(backends: Seq<AlgorithmStageBackend>, plans: Seq<StagePlan>, target_format: TextureFormat)
    requires
        plans.len() == backends.len(),
        forall|i: int|
            0 <= i < backends.len() ==> #[trigger] plans[i] == stage_plan_spec(
                backends[i],
                i,
                backends.len() as int,
                false,
                target_format,
            ),
    ensures
        frame_output_texture(plans) == StageTarget::NodeOutput || frame_output_texture(plans)
            == StageTarget::ComputeStage((plans.len() - 1) as usize, TextureFormat::Rgba8Unorm),
        frame_output_texture(plans) != StageTarget::ScalarOutput,
{
    if plans.len() > 0 {
        let last = plans.len() - 1;
        assert(plans[last] == plans.last());
    }
}

/// The dispatch size a compute stage uses, if it overrides the backend's
/// default: one invocation for scalar-only nodes; else the stage's mode —
/// one row of invocations per output row, one per column, or the axis an
/// enum input picks (`axis_enum_value` is that input's value when it is set
/// to an enum value).
pub open spec fn dispatch_override_spec(
    has_frame_output: bool,
    has_scalar_output: bool,
    dispatch: Option<AlgorithmStageDispatch>,
    axis_enum_value: Option<usize>,
    width: u32,
    height: u32,
) -> Option<(u32, u32, u32)> {
    if !has_frame_output && has_scalar_output {
        Some((1, 1, 1))
    } else {
        match dispatch {
            None => None,
            Some(d) => match d.mode {
                AlgorithmStageDispatchMode::Auto => None,
                AlgorithmStageDispatchMode::Rows => Some((1, height, 1)),
                AlgorithmStageDispatchMode::Columns => Some((width, 1, 1)),
                AlgorithmStageDispatchMode::AxisFromEnumInput => if axis_enum_value == Some(d.columns_enum_value) {
                    Some((width, 1, 1))
                } else {
                    Some((1, height, 1))
                },
            },
        }
    }
}

/// See [dispatch_override_spec].
pub fn dispatch_override(
    has_frame_output: bool,
    has_scalar_output: bool,
    dispatch: Option<&AlgorithmStageDispatch>,
    axis_enum_value: Option<usize>,
    width: u32,
    height: u32,
) -> (r: Option<(u32, u32, u32)>)
    ensures
        r == dispatch_override_spec(
            has_frame_output,
            has_scalar_output,
            match dispatch {
                Some(d) => Some(*d),
                None => None,
            },
            axis_enum_value,
            width,
            height,
        ),
{
    if !has_frame_output && has_scalar_output {
        return Some((1, 1, 1));
    }
    match dispatch {
        None => None,
        Some(d) => match d.mode {
            AlgorithmStageDispatchMode::Auto => None,
            AlgorithmStageDispatchMode::Rows => Some((1, height, 1)),
            AlgorithmStageDispatchMode::Columns => Some((width, 1, 1)),
            AlgorithmStageDispatchMode::AxisFromEnumInput => {
                let use_columns = match axis_enum_value {
                    Some(v) => v == d.columns_enum_value,
                    None => false,
                };
                if use_columns {
                    Some((width, 1, 1))
                } else {
                    Some((1, height, 1))
                }
            },
        },
    }
}

/// Where one output of an effect node takes its value from.
#[derive(Clone, Copy, Debug, PartialEq, Eq, Structural)]
pub enum OutputSlot {
    /// The node's output frame.
    Frame,
    /// One channel of the read-back pixel (a float as is, an int rounded,
    /// a bool as "greater than one half").
    Channel(usize),
    /// All four channels of the read-back pixel.
    AllChannels,
}

/// Outputs that take one channel each.
pub open spec fn takes_channel(kind: NodeOutputKind) -> bool {
    kind is Float || kind is Int || kind is Bool
}

/// How many of these outputs take one channel each.
pub open spec fn channel_outputs(outputs: Seq<NodeOutput>) -> nat
    decreases outputs.len(),
{
    if outputs.len() == 0 {
        0
    } else {
        channel_outputs(outputs.drop_last()) + if takes_channel(outputs.last().kind) {
            1nat
        } else {
            0nat
        }
    }
}

/// The slot of output `i`: channel outputs consume the pixel's channels in
/// declaration order, the fourth channel serving every one after the third.
pub open spec fn output_slot_spec(outputs: Seq<NodeOutput>, i: int) -> Option<OutputSlot> {
    let kind = outputs[i].kind;
    if kind is Frame {
        Some(OutputSlot::Frame)
    } else if takes_channel(kind) {
        let c = channel_outputs(outputs.take(i));
        Some(OutputSlot::Channel(if c < 3 { c as usize } else { 3 }))
    } else if kind is Pixel {
        Some(OutputSlot::AllChannels)
    } else {
        None
    }
}

/// The slot of every output, or the kind of the first output an effect
/// node cannot produce.
pub fn output_slots(outputs: &Vec<NodeOutput>) -> (r: Result<Vec<OutputSlot>, ExecutionError>)
    ensures
        match r {
            Ok(v) => v@.len() == outputs@.len() && forall|i: int|
                0 <= i < outputs@.len() ==> output_slot_spec(outputs@, i) == Some(#[trigger] v@[i]),
            Err(e) => exists|i: int|
                0 <= i < outputs@.len() && output_slot_spec(outputs@, i) is None && (forall|j: int|
                    0 <= j < i ==> (#[trigger] output_slot_spec(outputs@, j)) is Some) && (e matches ExecutionError::UnsupportedOutputType(k)
                    && k == outputs@[i].kind),
        },
        r is Err <==> exists|i: int| 0 <= i < outputs@.len() && (#[trigger] output_slot_spec(outputs@, i)) is None,
{
    let mut r: Vec<OutputSlot> = Vec::new();
    let mut channel: usize = 0;
    let mut i: usize = 0;
    while i < outputs.len()
        invariant
            i <= outputs@.len(),
            r@.len() == i,
            channel == channel_outputs(outputs@.take(i as int)),
            channel <= i,
            forall|j: int| 0 <= j < i ==> output_slot_spec(outputs@, j) == Some(#[trigger] r@[j]),
        decreases outputs.len() - i,
    {
        let kind = outputs[i].kind;
        assert(outputs@.take(i + 1).drop_last() =~= outputs@.take(i as int));
        let slot = match kind {
            NodeOutputKind::Frame => OutputSlot::Frame,
            NodeOutputKind::Float | NodeOutputKind::Int | NodeOutputKind::Bool => {
                let c = if channel < 3 { channel } else { 3 };
                channel = channel + 1;
                OutputSlot::Channel(c)
            },
            NodeOutputKind::Pixel => OutputSlot::AllChannels,
            _ => {
                proof {
                    assert(output_slot_spec(outputs@, i as int) is None);
                    assert forall|j: int| 0 <= j < i implies (#[trigger] output_slot_spec(outputs@, j)) is Some by {
                        assert(output_slot_spec(outputs@, j) == Some(r@[j]));
                    }
                }
                return Err(ExecutionError::UnsupportedOutputType(kind));
            },
        };
        r.push(slot);
        i = i + 1;
    }
    proof {
        assert forall|i: int| 0 <= i < outputs@.len() implies (#[trigger] output_slot_spec(outputs@, i)) is Some by {
            assert(output_slot_spec(outputs@, i) == Some(r@[i]));
        }
    }
    Ok(r)
}

/// The read-back pixel's bytes in red, green, blue, alpha order: BGRA
/// formats store blue first. `None` for a pixel shorter than four bytes
/// (read as opaque black).
pub fn rgba_channel_bytes(format: TextureFormat, pixel: &[u8]) -> (r: Option<(u8, u8, u8, u8)>)
    ensures
        pixel@.len() < 4 ==> r is None,
        pixel@.len() >= 4 ==> r == Some(
            if format is Bgra8Unorm || format is Bgra8UnormSrgb {
                (pixel@[2], pixel@[1], pixel@[0], pixel@[3])
            } else {
                (pixel@[0], pixel@[1], pixel@[2], pixel@[3])
            },
        ),
{
    if pixel.len() < 4 {
        return None;
    }
    match format {
        TextureFormat::Bgra8Unorm | TextureFormat::Bgra8UnormSrgb => Some((pixel[2], pixel[1], pixel[0], pixel[3])),
        _ => Some((pixel[0], pixel[1], pixel[2], pixel[3])),
    }
}

} // verus!
