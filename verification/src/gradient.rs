//! The gradient mapper: from a signed change to the colour that fills a tile.

use vstd::prelude::*;
use crate::change::{Change, ChangeView};

verus! {

/// A colour of three 8-bit channels.
#[derive(Clone, Copy, Debug, PartialEq, Eq, Structural)]
pub struct Rgb {
    pub r: u8,
    pub g: u8,
    pub b: u8,
}

/// The two colour ramps: green for gains, red for losses.
#[derive(Clone, Copy, Debug, PartialEq, Eq, Structural)]
pub enum Gradient {
    Green,
    Red,
}

impl Gradient {
    /// The colour of the ramp at intensity 0.
    pub open spec fn light_spec(self) -> Rgb {
        match self {
            Gradient::Green => Rgb { r: 200, g: 255, b: 200 },
            Gradient::Red => Rgb { r: 255, g: 200, b: 200 },
        }
    }

    /// The colour of the ramp at full intensity.
    pub open spec fn solid_spec(self) -> Rgb {
        match self {
            Gradient::Green => Rgb { r: 0, g: 255, b: 0 },
            Gradient::Red => Rgb { r: 255, g: 0, b: 0 },
        }
    }

    /// The colour of the ramp at intensity 0.
    #[verifier::when_used_as_spec(light_spec)]
    pub fn light(self) -> (color: Rgb)
        ensures
            color == self.light_spec(),
    {
        match self {
            Gradient::Green => Rgb { r: 200, g: 255, b: 200 },
            Gradient::Red => Rgb { r: 255, g: 200, b: 200 },
        }
    }

    /// The colour of the ramp at full intensity.
    #[verifier::when_used_as_spec(solid_spec)]
    pub fn solid(self) -> (color: Rgb)
        ensures
            color == self.solid_spec(),
    {
        match self {
            Gradient::Green => Rgb { r: 0, g: 255, b: 0 },
            Gradient::Red => Rgb { r: 255, g: 0, b: 0 },
        }
    }
}

/// The colour of a tile whose change is 0.
pub open spec fn neutral_spec() -> Rgb {
    Rgb { r: 100, g: 100, b: 100 }
}

/// The value of one channel at the intensity `part / whole`, at most 1, of
/// the way from `light` to `solid`: `light + (solid - light) * part / whole`,
/// rounded once, to the nearest integer, halves upwards.
pub open spec fn blend(light: int, solid: int, part: int, whole: int) -> int {
    if part >= whole {
        solid
    } else {
        (2 * (light * whole + (solid - light) * part) + whole) / (2 * whole)
    }
}

/// The colour of `gradient` at the intensity `part / whole`, each channel
/// blended on its own. An intensity over 1 counts as 1.
pub open spec fn gradient_color(gradient: Gradient, part: int, whole: int) -> Rgb {
    Rgb {
        r: blend(gradient.light().r as int, gradient.solid().r as int, part, whole) as u8,
        g: blend(gradient.light().g as int, gradient.solid().g as int, part, whole) as u8,
        b: blend(gradient.light().b as int, gradient.solid().b as int, part, whole) as u8,
    }
}

/// The colour for a change: gray for none; for a gain the green ramp, for a
/// loss the red ramp, at an intensity of a tenth of the change in percent,
/// so that a change of 10% or more has the solid colour.
pub open spec fn color_spec(change: ChangeView) -> Rgb {
    if change.is_zero() {
        neutral_spec()
    } else if change.negative {
        gradient_color(Gradient::Red, 10 * (change.numerator as int), change.denominator as int)
    } else {
        gradient_color(
            Gradient::Green,
            10 * (change.numerator as int),
            change.denominator as int,
        )
    }
}

/// A blended channel lies between its two anchors, so it is a channel value;
/// at intensity 0 it is the light anchor.
pub proof fn lemma_blend_bounds(light: int, solid: int, part: int, whole: int)
    requires
        0 <= light <= 255,
        0 <= solid <= 255,
        0 <= part,
        0 <= whole,
    ensures
        0 <= blend(light, solid, part, whole) <= 255,
        light <= solid ==> light <= blend(light, solid, part, whole) <= solid,
        solid <= light ==> solid <= blend(light, solid, part, whole) <= light,
        whole > 0 ==> blend(light, solid, 0, whole) == light,
{
    if part < whole {
        let lo = if light <= solid {
            light
        } else {
            solid
        };
        let hi = if light <= solid {
            solid
        } else {
            light
        };
        let mixed = light * whole + (solid - light) * part;
        assert(lo * whole <= mixed <= hi * whole) by (nonlinear_arith)
            requires
                mixed == light * whole + (solid - light) * part,
                0 <= part < whole,
                lo <= light <= hi,
                lo <= solid <= hi,
                lo == light || lo == solid,
                hi == light || hi == solid,
        ;
        assert(lo <= (2 * mixed + whole) / (2 * whole) <= hi) by (nonlinear_arith)
            requires
                lo * whole <= mixed <= hi * whole,
                0 < whole,
        ;
    }
    if whole > 0 {
        assert((solid - light) * 0 == 0);
        assert((2 * (light * whole) + whole) / (2 * whole) == light) by (nonlinear_arith)
            requires
                whole > 0,
        ;
    }
}

/// The colour of every gain lies on the green ramp and that of every loss on
/// the red ramp, however small the change; only no change is gray. A change
/// of 10% or more has the solid colour of its ramp.
pub proof fn lemma_color_on_ramp(change: ChangeView)
    ensures
        change.is_zero() ==> color_spec(change) == neutral_spec(),
        change.is_gain() ==> {
            &&& color_spec(change).g == 255
            &&& color_spec(change).r == color_spec(change).b
            &&& color_spec(change).r <= 200
        },
        change.is_loss() ==> {
            &&& color_spec(change).r == 255
            &&& color_spec(change).g == color_spec(change).b
            &&& color_spec(change).g <= 200
        },
        change.is_gain() && 10 * change.numerator >= change.denominator ==> color_spec(change)
            == Gradient::Green.solid(),
        change.is_loss() && 10 * change.numerator >= change.denominator ==> color_spec(change)
            == Gradient::Red.solid(),
{
    let part = 10 * (change.numerator as int);
    let whole = change.denominator as int;
    lemma_blend_bounds(200, 0, part, whole);
    lemma_blend_bounds(255, 255, part, whole);
}

/// The colour of a tile whose change is 0.
pub fn neutral() -> (color: Rgb)
    ensures
        color == neutral_spec(),
{
    Rgb { r: 100, g: 100, b: 100 }
}

/// One channel at the intensity `part / whole` of the way from `light` to
/// `solid`.
fn blend_channel(light: u8, solid: u8, part: u64, whole: u64) -> (value: u8)
    ensures
        value == blend(light as int, solid as int, part as int, whole as int),
{
    proof {
        lemma_blend_bounds(light as int, solid as int, part as int, whole as int);
    }
    if part >= whole {
        return solid;
    }
    assert(light * whole <= 255 * 0xffff_ffff_ffff_ffff) by (nonlinear_arith)
        requires
            light <= 255,
            whole <= 0xffff_ffff_ffff_ffff,
    ;
    let base: u128 = (light as u128) * (whole as u128);
    let mixed: u128 = if solid >= light {
        let rise: u128 = (solid - light) as u128;
        assert(rise * part <= 255 * 0xffff_ffff_ffff_ffff) by (nonlinear_arith)
            requires
                rise <= 255,
                part <= 0xffff_ffff_ffff_ffff,
        ;
        base + rise * (part as u128)
    } else {
        let fall: u128 = (light - solid) as u128;
        assert(fall * part <= light * whole && (solid - light) * part == -(fall * part))
            by (nonlinear_arith)
            requires
                fall == light - solid,
                0 <= solid,
                part < whole,
        ;
        base - fall * (part as u128)
    };
    ((2 * mixed + whole as u128) / (2 * (whole as u128))) as u8
}

/// The colour of `gradient` at the intensity `part / whole` of the way from
/// its light to its solid colour. An intensity over 1 counts as 1, and so
/// does any intensity with a `whole` of 0.
pub fn get_gradient(part: u64, whole: u64, gradient: Gradient) -> (color: Rgb)
    ensures
        color == gradient_color(gradient, part as int, whole as int),
{
    let light = gradient.light();
    let solid = gradient.solid();
    Rgb {
        r: blend_channel(light.r, solid.r, part, whole),
        g: blend_channel(light.g, solid.g, part, whole),
        b: blend_channel(light.b, solid.b, part, whole),
    }
}

/// The colour for a change: gray for none, and for every gain or loss,
/// however small, a colour of its ramp.
pub fn color_for(change: Change) -> (color: Rgb)
    ensures
        color == color_spec(change@),
        change@.is_zero() ==> color == neutral_spec(),
        change@.is_gain() ==> color.g == 255 && color.r == color.b && color.r <= 200,
        change@.is_loss() ==> color.r == 255 && color.g == color.b && color.g <= 200,
{
    proof {
        lemma_color_on_ramp(change@);
    }
    if change.is_zero() {
        return neutral();
    }
    let gradient = if change.negative {
        Gradient::Red
    } else {
        Gradient::Green
    };
    let tenfold: u128 = 10 * (change.numerator as u128);
    if tenfold >= change.denominator as u128 {
        gradient.solid()
    } else {
        get_gradient(tenfold as u64, change.denominator, gradient)
    }
}

} // verus!
