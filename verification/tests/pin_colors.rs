use substrate::colors::{input_kind_color, output_kind_color, PinColor};
use substrate::schema::{NodeInputKind, NodeOutputKind};

#[test]
fn output_pins_have_their_kind_colour() {
    assert_eq!(output_kind_color(&NodeOutputKind::Bool), PinColor { r: 200, g: 100, b: 100 });
    assert_eq!(output_kind_color(&NodeOutputKind::Frame), PinColor { r: 200, g: 200, b: 100 });
    assert_eq!(output_kind_color(&NodeOutputKind::Text), PinColor { r: 255, g: 165, b: 0 });
    assert_eq!(output_kind_color(&NodeOutputKind::Pixel), PinColor { r: 150, g: 150, b: 150 });
}

#[test]
fn input_pins_share_the_colour_of_what_they_accept() {
    assert_eq!(input_kind_color(&NodeInputKind::Frame), output_kind_color(&NodeOutputKind::Frame));
    assert_eq!(input_kind_color(&NodeInputKind::MidiPacket), PinColor { r: 100, g: 200, b: 200 });
}
