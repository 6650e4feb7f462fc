pub mod cmyk;
pub mod hsb;
pub mod hsl;

use vstd::prelude::*;

use crate::frac::Frac;

verus! {

/// The largest of three channel values.
pub open spec fn max3(r: int, g: int, b: int) -> int {
    if g > r {
        if b > g {
            b
        } else {
            g
        }
    } else {
        if b > r {
            b
        } else {
            r
        }
    }
}

/// The smallest of three channel values.
pub open spec fn min3(r: int, g: int, b: int) -> int {
    if g < r {
        if b < g {
            b
        } else {
            g
        }
    } else {
        if b < r {
            b
        } else {
            r
        }
    }
}

/// The six-sector HSB hue of an RGB triple, as an exact fraction in `[0, 1)`.
///
/// With `d = max - min > 0` the hue is `n / (6 d)` where `n` picks the sector:
/// `(g - b) mod 6d` when red is the largest channel, `4 d + (r - g)` when blue
/// is, and `2 d + (b - r)` otherwise.  Achromatic triples (`max == min`) have
/// hue `0`.  Ties between maximal channels are resolved in the order red,
/// blue, green; the value does not depend on that order.
pub open spec fn hue_frac(r: u8, g: u8, b: u8) -> Frac {
    let mx = max3(r as int, g as int, b as int);
    let mn = min3(r as int, g as int, b as int);
    let d = mx - mn;
    if d == 0 {
        Frac { num: 0, den: 1 }
    } else {
        if r as int == mx {
            let n = if g >= b {
                g - b
            } else {
                6 * d - (b - g)
            };
            Frac { num: n as u32, den: (6 * d) as u32 }
        } else if b as int == mx {
            Frac { num: (4 * d + r - g) as u32, den: (6 * d) as u32 }
        } else {
            Frac { num: (2 * d + b - r) as u32, den: (6 * d) as u32 }
        }
    }
}

/// HSB saturation `(max - min) / max`, and `0` for black.
pub open spec fn hsb_saturation_frac(r: u8, g: u8, b: u8) -> Frac {
    let mx = max3(r as int, g as int, b as int);
    let mn = min3(r as int, g as int, b as int);
    if mx == 0 {
        Frac { num: 0, den: 1 }
    } else {
        Frac { num: (mx - mn) as u32, den: mx as u32 }
    }
}

/// HSB brightness `max / 255`.
pub open spec fn brightness_frac(r: u8, g: u8, b: u8) -> Frac {
    Frac { num: max3(r as int, g as int, b as int) as u32, den: 255 }
}

/// HSL lightness `(max + min) / 2`, normalized to `[0, 1]` as
/// `(max + min) / 510`.
pub open spec fn lightness_frac(r: u8, g: u8, b: u8) -> Frac {
    Frac {
        num: (max3(r as int, g as int, b as int) + min3(r as int, g as int, b as int)) as u32,
        den: 510,
    }
}

/// HSL saturation `(max - min) / (1 - |2 lightness - 1|)`, which reduces to
/// `(max - min) / (255 - |max + min - 255|)` over raw channel values; `0` for
/// achromatic triples, and `0` defensively if the denominator ever vanished.
pub open spec fn hsl_saturation_frac(r: u8, g: u8, b: u8) -> Frac {
    let mx = max3(r as int, g as int, b as int);
    let mn = min3(r as int, g as int, b as int);
    let d = mx - mn;
    let den = if mx + mn >= 255 {
        510 - (mx + mn)
    } else {
        mx + mn
    };
    if d == 0 || den == 0 {
        Frac { num: 0, den: 1 }
    } else {
        Frac { num: d as u32, den: den as u32 }
    }
}

/// The largest of three channels.
pub fn max3_exec(r: u8, g: u8, b: u8) -> (m: u8)
    ensures
        m as int == max3(r as int, g as int, b as int),
{
    let mut m = r;
    if g > m {
        m = g;
    }
    if b > m {
        m = b;
    }
    m
}

/// The smallest of three channels.
pub fn min3_exec(r: u8, g: u8, b: u8) -> (m: u8)
    ensures
        m as int == min3(r as int, g as int, b as int),
{
    let mut m = r;
    if g < m {
        m = g;
    }
    if b < m {
        m = b;
    }
    m
}

/// An RGB pixel of the `rgb` crate: three public channel fields `r`, `g`, `b`.
#[verifier::external_type_specification]
pub struct ExRgb<T>(rgb::Rgb<T>);

/// A hue / saturation / brightness triple of exact fractions.
#[derive(Clone, Copy, PartialEq, Eq, Structural, Debug)]
pub struct HSB {
    pub hue: Frac,
    pub saturation: Frac,
    pub brightness: Frac,
}

impl HSB {
    /// The full HSB triple of an RGB color.
    pub fn from(r: &u8, g: &u8, b: &u8) -> (res: HSB)
        ensures
            res.hue == hue_frac(*r, *g, *b),
            res.saturation == hsb_saturation_frac(*r, *g, *b),
            res.brightness == brightness_frac(*r, *g, *b),
    {
        HSB {
            hue: crate::color::hsb::rgb_get_hue(r, g, b),
            saturation: crate::color::hsb::rgb_get_saturation(r, g, b),
            brightness: crate::color::hsb::rgb_get_brightness(r, g, b),
        }
    }

    /// The HSB triple of a pixel of the `rgb` crate.
    pub fn from_rgb8(rgb: &rgb::RGB8) -> (res: HSB)
        ensures
            res.hue == hue_frac(rgb.r, rgb.g, rgb.b),
            res.saturation == hsb_saturation_frac(rgb.r, rgb.g, rgb.b),
            res.brightness == brightness_frac(rgb.r, rgb.g, rgb.b),
    {
        HSB::from(&rgb.r, &rgb.g, &rgb.b)
    }

    /// The six-sector hue of an RGB color.
    pub fn rgb_get_hue(r: &u8, g: &u8, b: &u8) -> (h: Frac)
        ensures
            h == hue_frac(*r, *g, *b),
            h.wf(),
    {
        crate::color::hsb::rgb_get_hue(r, g, b)
    }

    /// HSB saturation of an RGB color.
    pub fn rgb_get_saturation(r: &u8, g: &u8, b: &u8) -> (s: Frac)
        ensures
            s == hsb_saturation_frac(*r, *g, *b),
            s.wf(),
    {
        crate::color::hsb::rgb_get_saturation(r, g, b)
    }

    /// HSB brightness of an RGB color.
    pub fn rgb_get_brightness(r: &u8, g: &u8, b: &u8) -> (v: Frac)
        ensures
            v == brightness_frac(*r, *g, *b),
            v.wf(),
    {
        crate::color::hsb::rgb_get_brightness(r, g, b)
    }
}

} // verus!
