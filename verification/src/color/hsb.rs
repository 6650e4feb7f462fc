use vstd::prelude::*;

use crate::color::{brightness_frac, hsb_saturation_frac, hue_frac, max3_exec, min3_exec};
use crate::frac::Frac;

verus! {

/// A hue / saturation / brightness triple of exact fractions.
#[derive(Clone, Copy, PartialEq, Eq, Structural, Debug)]
pub struct HSB {
    pub hue: Frac,
    pub saturation: Frac,
    pub brightness: Frac,
}

impl HSB {
    /// The HSB triple of an RGB color.
    pub fn from_rgb_u8(r: &u8, g: &u8, b: &u8) -> (res: HSB)
        ensures
            res.hue == hue_frac(*r, *g, *b),
            res.saturation == hsb_saturation_frac(*r, *g, *b),
            res.brightness == brightness_frac(*r, *g, *b),
    {
        HSB {
            hue: rgb_get_hue(r, g, b),
            saturation: rgb_get_saturation(r, g, b),
            brightness: rgb_get_brightness(r, g, b),
        }
    }

    /// The HSB triple of an RGB color given as an array.
    pub fn from_rgb(rgb: [u8; 3]) -> (res: HSB)
        ensures
            res.hue == hue_frac(rgb[0], rgb[1], rgb[2]),
            res.saturation == hsb_saturation_frac(rgb[0], rgb[1], rgb[2]),
            res.brightness == brightness_frac(rgb[0], rgb[1], rgb[2]),
    {
        HSB::from_rgb_u8(&rgb[0], &rgb[1], &rgb[2])
    }

    /// The HSB triple of an RGB color given as a vector's first three entries.
    pub fn from_rgb_vec(rgb: Vec<u8>) -> (res: HSB)
        requires
            rgb@.len() >= 3,
        ensures
            res.hue == hue_frac(rgb@[0], rgb@[1], rgb@[2]),
            res.saturation == hsb_saturation_frac(rgb@[0], rgb@[1], rgb@[2]),
            res.brightness == brightness_frac(rgb@[0], rgb@[1], rgb@[2]),
    {
        HSB::from_rgb_u8(&rgb[0], &rgb[1], &rgb[2])
    }
}

/// The six-sector hue of an RGB color, as an exact fraction in `[0, 1)`.
pub fn rgb_get_hue(r: &u8, g: &u8, b: &u8) -> (h: Frac)
    ensures
        h == hue_frac(*r, *g, *b),
        h.wf(),
{
    let mx = max3_exec(*r, *g, *b);
    let mn = min3_exec(*r, *g, *b);
    if mx == mn {
        Frac { num: 0, den: 1 }
    } else {
        let d: u32 = (mx as u32) - (mn as u32);
        let six_d: u32 = 6 * d;
        if *r == mx {
            let num: u32 = if *g >= *b {
                (*g as u32) - (*b as u32)
            } else {
                six_d - ((*b as u32) - (*g as u32))
            };
            Frac { num, den: six_d }
        } else if *b == mx {
            let num: u32 = 4 * d + (*r as u32) - (*g as u32);
            Frac { num, den: six_d }
        } else {
            let num: u32 = 2 * d + (*b as u32) - (*r as u32);
            Frac { num, den: six_d }
        }
    }
}

/// HSB saturation `(max - min) / max` of an RGB color, and `0` for black.
pub fn rgb_get_saturation(r: &u8, g: &u8, b: &u8) -> (s: Frac)
    ensures
        s == hsb_saturation_frac(*r, *g, *b),
        s.wf(),
{
    let mx = max3_exec(*r, *g, *b);
    let mn = min3_exec(*r, *g, *b);
    if mx == 0 {
        Frac { num: 0, den: 1 }
    } else {
        Frac { num: (mx as u32) - (mn as u32), den: mx as u32 }
    }
}

/// HSB brightness `max / 255` of an RGB color.
pub fn rgb_get_brightness(r: &u8, g: &u8, b: &u8) -> (v: Frac)
    ensures
        v == brightness_frac(*r, *g, *b),
        v.wf(),
{
    let mx = max3_exec(*r, *g, *b);
    Frac { num: mx as u32, den: 255 }
}

} // verus!
