//! The shading pass: mapping a scalar field level to a background
//! colour.
//!
//! The field value itself is real; the unverified front end squashes it
//! through a bounded odd function and scales the result by the channel
//! maximum, handing this module a plain integer level whose truncation
//! lies in (-255, 255) for any real input.  A positive level tints red,
//! a negative one blue, zero is pure black, and the channels saturate
//! at the top of their range for levels beyond it.

use vstd::prelude::*;

verus! {

/// An RGBA colour, one byte per channel.  The alpha channel is always
/// fully opaque in this design.
#[derive(Clone, Copy, PartialEq, Eq, Structural, Debug)]
pub struct Color {
    pub r: u8,
    pub g: u8,
    pub b: u8,
    pub a: u8,
}

/// Clamp a level into a channel byte: negative levels floor at 0 and
/// levels past 255 saturate, as the narrowing conversion of the scaled
/// real value does.
pub open spec fn clamp_channel(v: int) -> u8 {
    if v >= 255 {
        255u8
    } else if v <= 0 {
        0u8
    } else {
        v as u8
    }
}

/// The colour of a shading level: red intensity for a positive level,
/// blue for a non-positive one, green dark and alpha opaque always.
pub open spec fn spec_shade(level: int) -> Color {
    if level > 0 {
        Color { r: clamp_channel(level), g: 0, b: 0, a: 255 }
    } else {
        Color { r: 0, g: 0, b: clamp_channel(-level), a: 255 }
    }
}

/// The four bytes of a colour in buffer order.
pub open spec fn color_bytes(c: Color) -> Seq<u8> {
    seq![c.r, c.g, c.b, c.a]
}

/// Shade one pixel of the background from its field level.
pub fn shade(level: i32) -> (c: Color)
    ensures
        c == spec_shade(level as int),
{
    if level > 0 {
        let r: u8 = if level >= 255 {
            255
        } else {
            level as u8
        };
        Color { r, g: 0, b: 0, a: 255 }
    } else {
        let b: u8 = if level <= -255 {
            255
        } else {
            (-level) as u8
        };
        Color { r: 0, g: 0, b, a: 255 }
    }
}

/// Monotonicity of the shading gradient: as the level grows the red
/// channel never dims and the blue channel never brightens, so the tint
/// runs from saturated blue through pure black at level zero to
/// saturated red, green and alpha fixed throughout.
pub proof fn lemma_shade_monotonic(a: int, b: int)
    requires
        a <= b,
    ensures
        spec_shade(a).r <= spec_shade(b).r,
        spec_shade(a).b >= spec_shade(b).b,
        spec_shade(a).g == 0 && spec_shade(b).g == 0,
        spec_shade(a).a == 255 && spec_shade(b).a == 255,
{
}

} // verus!
