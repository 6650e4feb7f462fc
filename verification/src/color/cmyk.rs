use vstd::prelude::*;

use crate::color::{max3, max3_exec};
use crate::frac::Frac;

verus! {

/// A cyan / magenta / yellow / key quadruple of exact fractions.
///
/// With `mx = max(r, g, b)` the key is `(255 - mx) / 255` and each colorant
/// is `(mx - channel) / mx`, which is the usual CMYK conversion with the
/// divisions carried out exactly.  Pure black keeps `c = m = y = 0`, `k = 1`.
#[derive(Clone, Copy, PartialEq, Eq, Structural, Debug)]
pub struct CMYK {
    pub c: Frac,
    pub m: Frac,
    pub y: Frac,
    pub k: Frac,
}

/// The cyan fraction of an RGB color: `(max - r) / max`, `0` for black.
pub open spec fn cyan_frac(r: u8, g: u8, b: u8) -> Frac {
    let mx = max3(r as int, g as int, b as int);
    if mx == 0 {
        Frac { num: 0, den: 1 }
    } else {
        Frac { num: (mx - r) as u32, den: mx as u32 }
    }
}

/// The magenta fraction of an RGB color: `(max - g) / max`, `0` for black.
pub open spec fn magenta_frac(r: u8, g: u8, b: u8) -> Frac {
    let mx = max3(r as int, g as int, b as int);
    if mx == 0 {
        Frac { num: 0, den: 1 }
    } else {
        Frac { num: (mx - g) as u32, den: mx as u32 }
    }
}

/// The yellow fraction of an RGB color: `(max - b) / max`, `0` for black.
pub open spec fn yellow_frac(r: u8, g: u8, b: u8) -> Frac {
    let mx = max3(r as int, g as int, b as int);
    if mx == 0 {
        Frac { num: 0, den: 1 }
    } else {
        Frac { num: (mx - b) as u32, den: mx as u32 }
    }
}

/// The key (black) fraction of an RGB color: `(255 - max) / 255`.
pub open spec fn key_frac(r: u8, g: u8, b: u8) -> Frac {
    Frac { num: (255 - max3(r as int, g as int, b as int)) as u32, den: 255 }
}

impl CMYK {
    /// The CMYK quadruple of an RGB color.
    pub fn from_rgb_u8(r: &u8, g: &u8, b: &u8) -> (res: CMYK)
        ensures
            res.c == cyan_frac(*r, *g, *b),
            res.m == magenta_frac(*r, *g, *b),
            res.y == yellow_frac(*r, *g, *b),
            res.k == key_frac(*r, *g, *b),
    {
        let mx = max3_exec(*r, *g, *b);
        let k = Frac { num: 255 - (mx as u32), den: 255 };
        if mx == 0 {
            CMYK {
                c: Frac { num: 0, den: 1 },
                m: Frac { num: 0, den: 1 },
                y: Frac { num: 0, den: 1 },
                k,
            }
        } else {
            CMYK {
                c: Frac { num: (mx as u32) - (*r as u32), den: mx as u32 },
                m: Frac { num: (mx as u32) - (*g as u32), den: mx as u32 },
                y: Frac { num: (mx as u32) - (*b as u32), den: mx as u32 },
                k,
            }
        }
    }

    /// The CMYK quadruple of an RGB color given as an array.
    pub fn from_rgb(rgb: [u8; 3]) -> (res: CMYK)
        ensures
            res.c == cyan_frac(rgb[0], rgb[1], rgb[2]),
            res.m == magenta_frac(rgb[0], rgb[1], rgb[2]),
            res.y == yellow_frac(rgb[0], rgb[1], rgb[2]),
            res.k == key_frac(rgb[0], rgb[1], rgb[2]),
    {
        CMYK::from_rgb_u8(&rgb[0], &rgb[1], &rgb[2])
    }

    /// The CMYK quadruple of an RGB color given as a vector's first three
    /// entries.
    pub fn from_rgb_vec(rgb: Vec<u8>) -> (res: CMYK)
        requires
            rgb@.len() >= 3,
        ensures
            res.c == cyan_frac(rgb@[0], rgb@[1], rgb@[2]),
            res.m == magenta_frac(rgb@[0], rgb@[1], rgb@[2]),
            res.y == yellow_frac(rgb@[0], rgb@[1], rgb@[2]),
            res.k == key_frac(rgb@[0], rgb@[1], rgb@[2]),
    {
        CMYK::from_rgb_u8(&rgb[0], &rgb[1], &rgb[2])
    }
}

} // verus!
