//! The node catalog the frontend receives: every definition of the library
//! with its ports, their frontend port types and the widget each input is
//! edited with, in name order.
//!
//! Numbers that the frontend shows as floating point are carried as
//! [WidgetNumber]s: the frontend side turns them into `f64`.
use vstd::prelude::*;
use crate::library::{NodeLibrary, category_label};
use crate::schema::{
    FloatBits, NodeDefinition, NodeInput, NodeInputKind, NodeOutput, NumberInputUiMode, input_port_type,
    output_port_type, spec_input_port_type, spec_output_port_type,
};
use crate::sorted::views;
use crate::text::text_lt;

verus! {

/// A limit or step of a number widget, as the input declares it.
#[derive(Clone, Copy, Debug, PartialEq, Eq, Structural)]
pub enum WidgetNumber {
    Float(FloatBits),
    Int(i32),
}

/// How the frontend edits an input: its default, its limits and step, its
/// choices, and whether a number is edited with a slider.
#[derive(Debug)]
pub struct WidgetData {
    pub default_float: Option<FloatBits>,
    pub default_int: Option<i32>,
    pub default_bool: Option<bool>,
    pub min: Option<WidgetNumber>,
    pub max: Option<WidgetNumber>,
    pub step: Option<WidgetNumber>,
    pub choices: Option<Vec<String>>,
    pub default_choice_idx: Option<usize>,
    pub use_slider: bool,
}

/// One port of a catalog entry.
#[derive(Debug)]
pub struct PortDef {
    pub id: String,
    pub label: String,
    pub port_type: String,
    pub show_pin: bool,
    pub widget: WidgetData,
}

/// One catalog entry.
#[derive(Debug)]
pub struct NodeDef {
    pub node_type: String,
    pub label: String,
    pub category: String,
    pub subcategories: Vec<String>,
    pub description: String,
    pub inputs: Vec<PortDef>,
    pub outputs: Vec<PortDef>,
}

/// A widget with nothing set.
pub open spec fn blank_widget(w: WidgetData) -> bool {
    &&& w.default_float is None
    &&& w.default_int is None
    &&& w.default_bool is None
    &&& w.min is None
    &&& w.max is None
    &&& w.step is None
    &&& w.choices is None
    &&& w.default_choice_idx is None
    &&& !w.use_slider
}

/// An optional float limit as a widget number.
pub open spec fn float_limit(o: Option<FloatBits>) -> Option<WidgetNumber> {
    match o {
        Some(b) => Some(WidgetNumber::Float(b)),
        None => None,
    }
}

/// An optional integer limit as a widget number.
pub open spec fn int_limit(o: Option<i32>) -> Option<WidgetNumber> {
    match o {
        Some(i) => Some(WidgetNumber::Int(i)),
        None => None,
    }
}

/// The widget of an input of kind `kind`: numbers carry their default,
/// limits, step and slider mode, a bool its default, an enum its choices and
/// default choice; every other kind gets a blank widget.
pub open spec fn widget_matches(kind: NodeInputKind, w: WidgetData) -> bool {
    match kind {
        NodeInputKind::Float { default, min, max, step, input_ui } => {
            &&& w.default_float == Some(default)
            &&& w.default_int is None
            &&& w.default_bool is None
            &&& w.min == float_limit(min)
            &&& w.max == float_limit(max)
            &&& w.step == Some(WidgetNumber::Float(step))
            &&& w.choices is None
            &&& w.default_choice_idx is None
            &&& w.use_slider == (input_ui == NumberInputUiMode::Slider)
        },
        NodeInputKind::Int { default, min, max, step, input_ui } => {
            &&& w.default_float is None
            &&& w.default_int == Some(default)
            &&& w.default_bool is None
            &&& w.min == int_limit(min)
            &&& w.max == int_limit(max)
            &&& w.step == Some(WidgetNumber::Int(step))
            &&& w.choices is None
            &&& w.default_choice_idx is None
            &&& w.use_slider == (input_ui == NumberInputUiMode::Slider)
        },
        NodeInputKind::Bool { default } => {
            &&& w.default_float is None
            &&& w.default_int is None
            &&& w.default_bool == Some(default)
            &&& w.min is None
            &&& w.max is None
            &&& w.step is None
            &&& w.choices is None
            &&& w.default_choice_idx is None
            &&& !w.use_slider
        },
        NodeInputKind::Enum { choices, default_idx } => {
            &&& w.default_float is None
            &&& w.default_int is None
            &&& w.default_bool is None
            &&& w.min is None
            &&& w.max is None
            &&& w.step is None
            &&& (w.choices matches Some(c) && views(c@) == views(choices@))
            &&& w.default_choice_idx == default_idx
            &&& !w.use_slider
        },
        _ => blank_widget(w),
    }
}

/// A port entry for input `p`.
pub open spec fn input_port_matches(p: NodeInput, d: PortDef) -> bool {
    &&& d.id@ == p.name@
    &&& d.label@ == p.name@
    &&& d.port_type@ == spec_input_port_type(p.kind)
    &&& d.show_pin == p.show_pin
    &&& widget_matches(p.kind, d.widget)
}

/// A port entry for output `p`.
pub open spec fn output_port_matches(p: NodeOutput, d: PortDef) -> bool {
    &&& d.id@ == p.name@
    &&& d.label@ == p.name@
    &&& d.port_type@ == spec_output_port_type(p.kind)
    &&& d.show_pin == p.show_pin
    &&& blank_widget(d.widget)
}

/// The catalog entry of definition `def`.
pub open spec fn node_def_matches(def: NodeDefinition, e: NodeDef) -> bool {
    let node = def.node;
    &&& e.node_type@ == node.name@
    &&& e.label@ == node.name@
    &&& e.category@ == (if node.category@.len() == 0 {
        "Other"@
    } else {
        node.category@
    })
    &&& views(e.subcategories@) == views(node.subcategories@)
    &&& e.description@ == node.short_description@
    &&& e.inputs@.len() == node.inputs@.len()
    &&& (forall|i: int| 0 <= i < e.inputs@.len() ==> input_port_matches(node.inputs@[i], #[trigger] e.inputs@[i]))
    &&& e.outputs@.len() == node.outputs@.len()
    &&& (forall|i: int| 0 <= i < e.outputs@.len() ==> output_port_matches(node.outputs@[i], #[trigger] e.outputs@[i]))
}

/// `e` is the catalog entry of a definition of `defs`.
pub open spec fn entry_of(defs: Seq<NodeDefinition>, e: NodeDef) -> bool {
    exists|d: NodeDefinition| defs.contains(d) && node_def_matches(d, e)
}

/// A copy of a list of strings.
fn copy_strings(v: &Vec<String>) -> (r: Vec<String>)
    ensures
        views(r@) == views(v@),
{
    let mut r: Vec<String> = Vec::new();
    let mut i: usize = 0;
    while i < v.len()
        invariant
            i <= v@.len(),
            views(r@) == views(v@.take(i as int)),
        decreases v.len() - i,
    {
        let ghost prev = r@;
        r.push(v[i].clone());
        assert(v@.take(i + 1) =~= v@.take(i as int).push(v@[i as int]));
        assert(views(r@) =~= views(prev).push(v@[i as int]@));
        assert(views(v@.take(i + 1)) =~= views(v@.take(i as int)).push(v@[i as int]@));
        i = i + 1;
    }
    assert(v@.take(i as int) =~= v@);
    r
}

/// A widget with nothing set.
fn blank() -> (r: WidgetData)
    ensures
        blank_widget(r),
{
    WidgetData {
        default_float: None,
        default_int: None,
        default_bool: None,
        min: None,
        max: None,
        step: None,
        choices: None,
        default_choice_idx: None,
        use_slider: false,
    }
}

/// The widget the frontend edits an input of kind `kind` with.
pub fn widget_for_input(kind: &NodeInputKind) -> (r: WidgetData)
    ensures
        widget_matches(*kind, r),
{
    match kind {
        NodeInputKind::Float { default, min, max, step, input_ui } => WidgetData {
            default_float: Some(*default),
            min: match min {
                Some(b) => Some(WidgetNumber::Float(*b)),
                None => None,
            },
            max: match max {
                Some(b) => Some(WidgetNumber::Float(*b)),
                None => None,
            },
            step: Some(WidgetNumber::Float(*step)),
            use_slider: matches!(input_ui, NumberInputUiMode::Slider),
            default_int: None,
            default_bool: None,
            choices: None,
            default_choice_idx: None,
        },
        NodeInputKind::Int { default, min, max, step, input_ui } => WidgetData {
            default_int: Some(*default),
            min: match min {
                Some(i) => Some(WidgetNumber::Int(*i)),
                None => None,
            },
            max: match max {
                Some(i) => Some(WidgetNumber::Int(*i)),
                None => None,
            },
            step: Some(WidgetNumber::Int(*step)),
            use_slider: matches!(input_ui, NumberInputUiMode::Slider),
            default_float: None,
            default_bool: None,
            choices: None,
            default_choice_idx: None,
        },
        NodeInputKind::Bool { default } => WidgetData {
            default_bool: Some(*default),
            default_float: None,
            default_int: None,
            min: None,
            max: None,
            step: None,
            choices: None,
            default_choice_idx: None,
            use_slider: false,
        },
        NodeInputKind::Enum { choices, default_idx } => WidgetData {
            choices: Some(copy_strings(choices)),
            default_choice_idx: *default_idx,
            default_float: None,
            default_int: None,
            default_bool: None,
            min: None,
            max: None,
            step: None,
            use_slider: false,
        },
        _ => blank(),
    }
}

/// The catalog entry of one definition.
pub fn node_def(def: &NodeDefinition) -> (r: NodeDef)
    ensures
        node_def_matches(*def, r),
{
    let node = &def.node;
    let mut inputs: Vec<PortDef> = Vec::new();
    let mut i: usize = 0;
    while i < node.inputs.len()
        invariant
            i <= node.inputs@.len(),
            inputs@.len() == i,
            forall|k: int| 0 <= k < i ==> input_port_matches(node.inputs@[k], #[trigger] inputs@[k]),
        decreases node.inputs.len() - i,
    {
        let p = &node.inputs[i];
        inputs.push(
            PortDef {
                id: p.name.clone(),
                label: p.name.clone(),
                port_type: String::from_str(input_port_type(&p.kind)),
                show_pin: p.show_pin,
                widget: widget_for_input(&p.kind),
            },
        );
        i = i + 1;
    }
    let mut outputs: Vec<PortDef> = Vec::new();
    let mut j: usize = 0;
    while j < node.outputs.len()
        invariant
            j <= node.outputs@.len(),
            outputs@.len() == j,
            forall|k: int| 0 <= k < j ==> output_port_matches(node.outputs@[k], #[trigger] outputs@[k]),
        decreases node.outputs.len() - j,
    {
        let p = &node.outputs[j];
        outputs.push(
            PortDef {
                id: p.name.clone(),
                label: p.name.clone(),
                port_type: String::from_str(output_port_type(p.kind)),
                show_pin: p.show_pin,
                widget: blank(),
            },
        );
        j = j + 1;
    }
    NodeDef {
        node_type: node.name.clone(),
        label: node.name.clone(),
        category: category_label(node.category.as_str()),
        subcategories: copy_strings(&node.subcategories),
        description: node.short_description.clone(),
        inputs,
        outputs,
    }
}

/// The catalog of a library: one entry per definition, ordered by label.
pub fn node_catalog(library: &NodeLibrary) -> (r: Vec<NodeDef>)
    ensures
        r@.len() == library@.len(),
        forall|i: int, j: int| 0 <= i < j < r@.len() ==> text_lt((#[trigger] r@[i]).label@, (#[trigger] r@[j]).label@),
        forall|d: NodeDefinition| #[trigger] library@.contains(d) ==> exists|i: int|
            0 <= i < r@.len() && node_def_matches(d, #[trigger] r@[i]),
        forall|i: int| 0 <= i < r@.len() ==> entry_of(library@, #[trigger] r@[i]),
{
    let defs = library.definitions_by_name();
    let mut r: Vec<NodeDef> = Vec::new();
    let mut k: usize = 0;
    while k < defs.len()
        invariant
            k <= defs@.len(),
            r@.len() == k,
            forall|t: int| 0 <= t < k ==> node_def_matches(*defs@[t], #[trigger] r@[t]),
        decreases defs.len() - k,
    {
        r.push(node_def(defs[k]));
        k = k + 1;
    }
    proof {
        assert forall|i: int, j: int| 0 <= i < j < r@.len() implies text_lt((#[trigger] r@[i]).label@, (#[trigger] r@[j]).label@) by {
            assert(node_def_matches(*defs@[i], r@[i]));
            assert(node_def_matches(*defs@[j], r@[j]));
        }
        assert forall|d: NodeDefinition| #[trigger] library@.contains(d) implies exists|i: int|
            0 <= i < r@.len() && node_def_matches(d, #[trigger] r@[i]) by {
            let i = choose|i: int| 0 <= i < defs@.len() && *(#[trigger] defs@[i]) == d;
            assert(node_def_matches(*defs@[i], r@[i]));
        }
        assert forall|i: int| 0 <= i < r@.len() implies entry_of(library@, #[trigger] r@[i]) by {
            assert(node_def_matches(*defs@[i], r@[i]));
            assert(exists|t: int| 0 <= t < defs@.len() && *(#[trigger] defs@[t]) == *defs@[i]);
            assert(library@.contains(*defs@[i]));
        }
    }
    r
}

} // verus!
