use vstd::prelude::*;

verus! {

/// An 8-bit-per-channel RGB color.
#[derive(Clone, Copy, Debug, PartialEq, Eq, Structural)]
pub struct Color {
    pub r: u8,
    pub g: u8,
    pub b: u8,
}

/// The sentinel color of gridlines, tick marks and set mask bits.
pub open spec fn spec_black() -> Color {
    Color { r: 0, g: 0, b: 0 }
}

#[verifier::when_used_as_spec(spec_black)]
pub fn black() -> (c: Color)
    ensures
        c == spec_black(),
{
    Color { r: 0, g: 0, b: 0 }
}

/// The sentinel color of cleared mask bits and blank canvases.
pub open spec fn spec_white() -> Color {
    Color { r: 255, g: 255, b: 255 }
}

#[verifier::when_used_as_spec(spec_white)]
pub fn white() -> (c: Color)
    ensures
        c == spec_white(),
{
    Color { r: 255, g: 255, b: 255 }
}

} // verus!
