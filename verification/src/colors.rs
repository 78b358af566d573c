//! The colour of each pin kind in the node graph.
use vstd::prelude::*;
use crate::schema::{NodeInputKind, NodeOutputKind, input_kind_to_output_kind, spec_input_kind_to_output_kind};

verus! {

/// An opaque colour by its red, green and blue channels.
#[derive(Clone, Copy, Debug, PartialEq, Eq, Structural)]
pub struct PinColor {
    pub r: u8,
    pub g: u8,
    pub b: u8,
}

/// The colour of an output pin of kind `kind`.
pub open spec fn spec_output_kind_color(kind: NodeOutputKind) -> PinColor {
    match kind {
        NodeOutputKind::Bool => PinColor { r: 200, g: 100, b: 100 },
        NodeOutputKind::Int => PinColor { r: 100, g: 200, b: 100 },
        NodeOutputKind::Float => PinColor { r: 100, g: 100, b: 200 },
        NodeOutputKind::Frame => PinColor { r: 200, g: 200, b: 100 },
        NodeOutputKind::MidiPacket => PinColor { r: 100, g: 200, b: 200 },
        NodeOutputKind::Dimensions => PinColor { r: 200, g: 100, b: 200 },
        NodeOutputKind::Pixel => PinColor { r: 150, g: 150, b: 150 },
        NodeOutputKind::Text => PinColor { r: 255, g: 165, b: 0 },
    }
}

/// The colour of an output pin of kind `kind`.
pub fn output_kind_color(kind: &NodeOutputKind) -> (r: PinColor)
    ensures
        r == spec_output_kind_color(*kind),
{
    match kind {
        NodeOutputKind::Bool => PinColor { r: 200, g: 100, b: 100 },
        NodeOutputKind::Int => PinColor { r: 100, g: 200, b: 100 },
        NodeOutputKind::Float => PinColor { r: 100, g: 100, b: 200 },
        NodeOutputKind::Frame => PinColor { r: 200, g: 200, b: 100 },
        NodeOutputKind::MidiPacket => PinColor { r: 100, g: 200, b: 200 },
        NodeOutputKind::Dimensions => PinColor { r: 200, g: 100, b: 200 },
        NodeOutputKind::Pixel => PinColor { r: 150, g: 150, b: 150 },
        NodeOutputKind::Text => PinColor { r: 255, g: 165, b: 0 },
    }
}

/// The colour of an input pin: that of the output kind it accepts, so that
/// an input and an output that connect share a colour.
pub fn input_kind_color(kind: &NodeInputKind) -> (r: PinColor)
    ensures
        r == spec_output_kind_color(spec_input_kind_to_output_kind(*kind)),
{
    output_kind_color(&input_kind_to_output_kind(kind))
}

} // verus!
