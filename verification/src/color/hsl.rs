use vstd::prelude::*;

use crate::color::{hsl_saturation_frac, hue_frac, lightness_frac, max3_exec, min3_exec};
use crate::frac::Frac;

verus! {

/// A hue / saturation / lightness triple of exact fractions.
#[derive(Clone, Copy, PartialEq, Eq, Structural, Debug)]
pub struct HSL {
    pub hue: Frac,
    pub saturation: Frac,
    pub lightness: Frac,
}

impl HSL {
    /// The HSL triple of an RGB color.
    pub fn from_rgb_u8(r: &u8, g: &u8, b: &u8) -> (res: HSL)
        ensures
            res.hue == hue_frac(*r, *g, *b),
            res.saturation == hsl_saturation_frac(*r, *g, *b),
            res.lightness == lightness_frac(*r, *g, *b),
    {
        HSL {
            hue: rgb_get_hue(r, g, b),
            saturation: rgb_get_saturation(r, g, b),
            lightness: rgb_get_lightness(r, g, b),
        }
    }

    /// The HSL triple of an RGB color given as an array.
    pub fn from_rgb(rgb: [u8; 3]) -> (res: HSL)
        ensures
            res.hue == hue_frac(rgb[0], rgb[1], rgb[2]),
            res.saturation == hsl_saturation_frac(rgb[0], rgb[1], rgb[2]),
            res.lightness == lightness_frac(rgb[0], rgb[1], rgb[2]),
    {
        HSL::from_rgb_u8(&rgb[0], &rgb[1], &rgb[2])
    }

    /// The HSL triple of an RGB color given as a vector's first three entries.
    pub fn from_rgb_vec(rgb: Vec<u8>) -> (res: HSL)
        requires
            rgb@.len() >= 3,
        ensures
            res.hue == hue_frac(rgb@[0], rgb@[1], rgb@[2]),
            res.saturation == hsl_saturation_frac(rgb@[0], rgb@[1], rgb@[2]),
            res.lightness == lightness_frac(rgb@[0], rgb@[1], rgb@[2]),
    {
        HSL::from_rgb_u8(&rgb[0], &rgb[1], &rgb[2])
    }
}

/// The six-sector hue of an RGB color; HSL and HSB share one hue.
pub fn rgb_get_hue(r: &u8, g: &u8, b: &u8) -> (h: Frac)
    ensures
        h == hue_frac(*r, *g, *b),
        h.wf(),
{
    crate::color::hsb::rgb_get_hue(r, g, b)
}

/// HSL saturation `(max - min) / (255 - |max + min - 255|)` of an RGB color;
/// `0` for achromatic colors, and `0` defensively should the denominator
/// ever vanish.
pub fn rgb_get_saturation(r: &u8, g: &u8, b: &u8) -> (s: Frac)
    ensures
        s == hsl_saturation_frac(*r, *g, *b),
        s.wf(),
{
    let mx = max3_exec(*r, *g, *b);
    let mn = min3_exec(*r, *g, *b);
    let d: u32 = (mx as u32) - (mn as u32);
    let sum: u32 = (mx as u32) + (mn as u32);
    let den: u32 = if sum >= 255 {
        510 - sum
    } else {
        sum
    };
    if d == 0 || den == 0 {
        Frac { num: 0, den: 1 }
    } else {
        Frac { num: d, den }
    }
}

/// HSL lightness `(max + min) / 2` of an RGB color, normalized to `[0, 1]`
/// as the exact fraction `(max + min) / 510`.
pub fn rgb_get_lightness(r: &u8, g: &u8, b: &u8) -> (l: Frac)
    ensures
        l == lightness_frac(*r, *g, *b),
        l.wf(),
{
    let mx = max3_exec(*r, *g, *b);
    let mn = min3_exec(*r, *g, *b);
    Frac { num: (mx as u32) + (mn as u32), den: 510 }
}

} // verus!
