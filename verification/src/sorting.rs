use vstd::prelude::*;

use crate::color::{
    brightness_frac, hsb_saturation_frac, hsl_saturation_frac, hue_frac, lightness_frac, min3,
    min3_exec,
};
use crate::frac::{frac_le, frac_lt, frac_lt_exec, Frac};
use crate::raster::Pixel;

verus! {

/// The photometric keys by which pixels inside an interval are ordered.
#[derive(Clone, Copy, PartialEq, Eq, Structural, Debug)]
pub enum SortMethod {
    Hue,
    HsbSaturation,
    HslSaturation,
    Brightness,
    Lightness,
    Intensity,
    Minimum,
    RgbRed,
    RgbGreen,
    RgbBlue,
}

/// The scalar key of a pixel under a sort method, as an exact fraction.
///
/// Intensity is the plain channel sum `r + g + b` (range `0 ..= 765`) and
/// minimum the smallest channel, both compared without normalization; the
/// red, green and blue keys are the raw channel values.
pub open spec fn key_of(m: SortMethod, p: Pixel) -> Frac {
    match m {
        SortMethod::Hue => hue_frac(p.r, p.g, p.b),
        SortMethod::HsbSaturation => hsb_saturation_frac(p.r, p.g, p.b),
        SortMethod::HslSaturation => hsl_saturation_frac(p.r, p.g, p.b),
        SortMethod::Brightness => brightness_frac(p.r, p.g, p.b),
        SortMethod::Lightness => lightness_frac(p.r, p.g, p.b),
        SortMethod::Intensity => Frac { num: (p.r + p.g + p.b) as u32, den: 1 },
        SortMethod::Minimum => Frac {
            num: min3(p.r as int, p.g as int, p.b as int) as u32,
            den: 1,
        },
        SortMethod::RgbRed => Frac { num: p.r as u32, den: 1 },
        SortMethod::RgbGreen => Frac { num: p.g as u32, den: 1 },
        SortMethod::RgbBlue => Frac { num: p.b as u32, den: 1 },
    }
}

/// `a`'s key is at most `b`'s.
pub open spec fn key_le(m: SortMethod, a: Pixel, b: Pixel) -> bool {
    frac_le(key_of(m, a), key_of(m, b))
}

/// `a`'s key is strictly below `b`'s.
pub open spec fn key_lt(m: SortMethod, a: Pixel, b: Pixel) -> bool {
    frac_lt(key_of(m, a), key_of(m, b))
}

/// A sequence is ordered ascending by the method's key.
pub open spec fn sorted_by(m: SortMethod, s: Seq<Pixel>) -> bool {
    forall|i: int, j: int| 0 <= i < j < s.len() ==> key_le(m, s[i], s[j])
}

/// Every key has a positive denominator.
pub proof fn lemma_key_wf(m: SortMethod, p: Pixel)
    ensures
        key_of(m, p).wf(),
{
}

/// The pixel's key under the selected method, computed exactly.
pub fn sort_key(m: &SortMethod, p: Pixel) -> (k: Frac)
    ensures
        k == key_of(*m, p),
{
    match m {
        SortMethod::Hue => crate::color::hsb::rgb_get_hue(&p.r, &p.g, &p.b),
        SortMethod::HsbSaturation => crate::color::hsb::rgb_get_saturation(&p.r, &p.g, &p.b),
        SortMethod::HslSaturation => crate::color::hsl::rgb_get_saturation(&p.r, &p.g, &p.b),
        SortMethod::Brightness => crate::color::hsb::rgb_get_brightness(&p.r, &p.g, &p.b),
        SortMethod::Lightness => crate::color::hsl::rgb_get_lightness(&p.r, &p.g, &p.b),
        SortMethod::Intensity => Frac {
            num: (p.r as u32) + (p.g as u32) + (p.b as u32),
            den: 1,
        },
        SortMethod::Minimum => Frac { num: min3_exec(p.r, p.g, p.b) as u32, den: 1 },
        SortMethod::RgbRed => Frac { num: p.r as u32, den: 1 },
        SortMethod::RgbGreen => Frac { num: p.g as u32, den: 1 },
        SortMethod::RgbBlue => Frac { num: p.b as u32, den: 1 },
    }
}

/// Stable insertion: `x` is placed after every element whose key does not
/// exceed `x`'s, so pixels with equal keys keep their relative order.
pub open spec fn insert_sorted(m: SortMethod, x: Pixel, s: Seq<Pixel>) -> Seq<Pixel>
    decreases s.len(),
{
    if s.len() == 0 {
        seq![x]
    } else if key_lt(m, x, s.last()) {
        insert_sorted(m, x, s.drop_last()).push(s.last())
    } else {
        s.push(x)
    }
}

/// The stable ascending reordering of a pixel sequence: pixels are taken in
/// input order and each is inserted after the pixels whose keys do not exceed
/// its own.
pub open spec fn stable_sort_spec(m: SortMethod, s: Seq<Pixel>) -> Seq<Pixel>
    decreases s.len(),
{
    if s.len() == 0 {
        Seq::empty()
    } else {
        insert_sorted(m, s.last(), stable_sort_spec(m, s.drop_last()))
    }
}

/// Insertion adds exactly the inserted pixel to the sequence's contents.
pub proof fn lemma_insert_sorted_multiset(m: SortMethod, x: Pixel, s: Seq<Pixel>)
    ensures
        insert_sorted(m, x, s).to_multiset() == s.to_multiset().insert(x),
        insert_sorted(m, x, s).len() == s.len() + 1,
    decreases s.len(),
{
    broadcast use vstd::seq_lib::group_to_multiset_ensures;

    if s.len() == 0 {
        assert(s =~= Seq::<Pixel>::empty());
        assert(seq![x] =~= Seq::<Pixel>::empty().push(x));
    } else if key_lt(m, x, s.last()) {
        let d = s.drop_last();
        lemma_insert_sorted_multiset(m, x, d);
        assert(s =~= d.push(s.last()));
        assert(insert_sorted(m, x, s).to_multiset() =~= d.to_multiset().insert(x).insert(
            s.last(),
        ));
        assert(d.to_multiset().insert(x).insert(s.last()) =~= d.to_multiset().insert(
            s.last(),
        ).insert(x));
    } else {
    }
}

/// Inserting into a sorted sequence keeps it sorted.
pub proof fn lemma_insert_sorted_sorted(m: SortMethod, x: Pixel, s: Seq<Pixel>)
    requires
        sorted_by(m, s),
    ensures
        sorted_by(m, insert_sorted(m, x, s)),
    decreases s.len(),
{
    broadcast use vstd::seq_lib::group_to_multiset_ensures;

    let r = insert_sorted(m, x, s);
    if s.len() == 0 {
    } else if key_lt(m, x, s.last()) {
        let d = s.drop_last();
        assert(sorted_by(m, d)) by {
            assert(forall|i: int, j: int|
                0 <= i < j < d.len() ==> key_le(m, d[i], d[j]) && d[i] == s[i] && d[j] == s[j]);
        }
        lemma_insert_sorted_sorted(m, x, d);
        lemma_insert_sorted_multiset(m, x, d);
        let r0 = insert_sorted(m, x, d);
        assert forall|i: int| 0 <= i < r0.len() implies key_le(m, r0[i], s.last()) by {
            assert(r0.contains(r0[i]));
            assert(r0.to_multiset().count(r0[i]) > 0);
            if r0[i] == x {
                assert(key_le(m, x, s.last()));
            } else {
                assert(d.to_multiset().count(r0[i]) > 0);
                assert(d.contains(r0[i]));
                let j = choose|j: int| 0 <= j < d.len() && d[j] == r0[i];
                assert(key_le(m, s[j], s.last()));
            }
        }
        assert forall|i: int, j: int| 0 <= i < j < r.len() implies key_le(m, r[i], r[j]) by {
            if j < r.len() - 1 {
                assert(r[i] == r0[i] && r[j] == r0[j]);
            } else {
                assert(r[j] == s.last() && r[i] == r0[i]);
            }
        }
    } else {
        crate::frac::lemma_frac_lt_not_le(key_of(m, x), key_of(m, s.last()));
        assert(key_le(m, s.last(), x));
        assert forall|i: int, j: int| 0 <= i < j < r.len() implies key_le(m, r[i], r[j]) by {
            if j == r.len() - 1 {
                assert(r[i] == s[i] && r[j] == x);
                if i < s.len() - 1 {
                    assert(key_le(m, s[i], s.last()));
                }
                lemma_key_wf(m, s[i]);
                lemma_key_wf(m, s.last());
                lemma_key_wf(m, x);
                crate::frac::lemma_frac_le_trans(key_of(m, s[i]), key_of(m, s.last()), key_of(m, x));
            } else {
                assert(r[i] == s[i] && r[j] == s[j]);
            }
        }
    }
}

/// The stable reordering is a permutation of its input, of the same length,
/// ordered ascending by the method's key.
pub proof fn lemma_stable_sort_props(m: SortMethod, s: Seq<Pixel>)
    ensures
        stable_sort_spec(m, s).to_multiset() == s.to_multiset(),
        stable_sort_spec(m, s).len() == s.len(),
        sorted_by(m, stable_sort_spec(m, s)),
    decreases s.len(),
{
    broadcast use vstd::seq_lib::group_to_multiset_ensures;

    if s.len() == 0 {
        assert(stable_sort_spec(m, s) =~= Seq::<Pixel>::empty());
    } else {
        let d = s.drop_last();
        lemma_stable_sort_props(m, d);
        lemma_insert_sorted_multiset(m, s.last(), stable_sort_spec(m, d));
        lemma_insert_sorted_sorted(m, s.last(), stable_sort_spec(m, d));
        assert(s =~= d.push(s.last()));
        assert(stable_sort_spec(m, s).to_multiset() =~= s.to_multiset());
    }
}

/// Sorting an already-sorted sequence reproduces it exactly: the stable
/// reordering is idempotent.
pub proof fn lemma_stable_sort_of_sorted(m: SortMethod, s: Seq<Pixel>)
    requires
        sorted_by(m, s),
    ensures
        stable_sort_spec(m, s) == s,
    decreases s.len(),
{
    if s.len() == 0 {
        assert(stable_sort_spec(m, s) =~= s);
    } else {
        let d = s.drop_last();
        assert(sorted_by(m, d)) by {
            assert(forall|i: int, j: int|
                0 <= i < j < d.len() ==> key_le(m, d[i], d[j]) && d[i] == s[i] && d[j] == s[j]);
        }
        lemma_stable_sort_of_sorted(m, d);
        if d.len() == 0 {
            assert(stable_sort_spec(m, s) =~= s);
        } else {
            assert(key_le(m, d.last(), s.last()));
            crate::frac::lemma_frac_lt_not_le(key_of(m, s.last()), key_of(m, d.last()));
            assert(!key_lt(m, s.last(), d.last()));
            assert(stable_sort_spec(m, s) == d.push(s.last()));
            assert(d.push(s.last()) =~= s);
        }
    }
}

/// Inserting at the position found by scanning from the right matches the
/// recursive insertion.
proof fn lemma_insert_sorted_at(m: SortMethod, x: Pixel, s: Seq<Pixel>, pos: int)
    requires
        0 <= pos <= s.len(),
        forall|j: int| pos <= j < s.len() ==> key_lt(m, x, s[j]),
        pos > 0 ==> !key_lt(m, x, s[pos - 1]),
    ensures
        insert_sorted(m, x, s) == s.insert(pos, x),
    decreases s.len(),
{
    if s.len() == 0 {
        assert(insert_sorted(m, x, s) =~= s.insert(0, x));
    } else if pos == s.len() {
        assert(insert_sorted(m, x, s) == s.push(x));
        assert(s.push(x) =~= s.insert(pos, x));
    } else {
        assert(key_lt(m, x, s.last()));
        let d = s.drop_last();
        lemma_insert_sorted_at(m, x, d, pos);
        assert(insert_sorted(m, x, s) == d.insert(pos, x).push(s.last()));
        assert(d.insert(pos, x).push(s.last()) =~= s.insert(pos, x));
    }
}

/// Reorders a pixel pool ascending by the method's key.  Pixels with equal
/// keys keep their relative input order: the reordering is exactly the
/// stable insertion sort of the input.
pub fn sort_pixels(m: &SortMethod, v: &Vec<Pixel>) -> (r: Vec<Pixel>)
    ensures
        r@ == stable_sort_spec(*m, v@),
        r@.len() == v@.len(),
        sorted_by(*m, r@),
        r@.to_multiset() == v@.to_multiset(),
{
    let mut out: Vec<Pixel> = Vec::new();
    let mut idx: usize = 0;
    proof {
        assert(v@.take(0) =~= Seq::<Pixel>::empty());
    }
    while idx < v.len()
        invariant
            0 <= idx <= v@.len(),
            out@ == stable_sort_spec(*m, v@.take(idx as int)),
            out@.len() == idx,
            sorted_by(*m, out@),
        decreases v@.len() - idx,
    {
        let x = v[idx];
        let xk = sort_key(m, x);
        let ghost prev_out = out@;
        let mut pos: usize = out.len();
        while pos > 0 && frac_lt_exec(xk, sort_key(m, out[pos - 1]))
            invariant
                0 <= pos <= out@.len(),
                xk == key_of(*m, x),
                out@ == prev_out,
                forall|j: int| pos <= j < out@.len() ==> key_lt(*m, x, out@[j]),
            decreases pos,
        {
            pos = pos - 1;
        }
        out.insert(pos, x);
        idx = idx + 1;
        proof {
            lemma_insert_sorted_at(*m, x, prev_out, pos as int);
            let t = v@.take(idx as int);
            assert(t.drop_last() =~= v@.take(idx as int - 1));
            assert(t.last() == x);
            assert(out@ == insert_sorted(*m, x, prev_out));
            assert(out@ == stable_sort_spec(*m, t));
            lemma_insert_sorted_multiset(*m, x, prev_out);
            lemma_insert_sorted_sorted(*m, x, prev_out);
        }
    }
    proof {
        assert(v@.take(idx as int) =~= v@);
        lemma_stable_sort_props(*m, v@);
    }
    out
}

/// Ascending comparison of two pixels under the selected method: the
/// comparator that drives the per-interval reordering.
pub fn get_sort_func(sort: &SortMethod, a: &Pixel, b: &Pixel) -> (o: core::cmp::Ordering)
    ensures
        o == core::cmp::Ordering::Less <==> key_lt(*sort, *a, *b),
        o == core::cmp::Ordering::Greater <==> key_lt(*sort, *b, *a),
        o == core::cmp::Ordering::Equal <==> (key_le(*sort, *a, *b) && key_le(*sort, *b, *a)),
{
    let ka = sort_key(sort, *a);
    let kb = sort_key(sort, *b);
    if frac_lt_exec(ka, kb) {
        core::cmp::Ordering::Less
    } else if frac_lt_exec(kb, ka) {
        core::cmp::Ordering::Greater
    } else {
        core::cmp::Ordering::Equal
    }
}

/// Pixels compared by hue.
pub fn sort_by_hue(a: &Pixel, b: &Pixel) -> (o: core::cmp::Ordering)
    ensures
        o == core::cmp::Ordering::Less <==> key_lt(SortMethod::Hue, *a, *b),
        o == core::cmp::Ordering::Greater <==> key_lt(SortMethod::Hue, *b, *a),
{
    get_sort_func(&SortMethod::Hue, a, b)
}

/// Pixels compared by HSB saturation.
pub fn sort_by_saturation_hsb(a: &Pixel, b: &Pixel) -> (o: core::cmp::Ordering)
    ensures
        o == core::cmp::Ordering::Less <==> key_lt(SortMethod::HsbSaturation, *a, *b),
        o == core::cmp::Ordering::Greater <==> key_lt(SortMethod::HsbSaturation, *b, *a),
{
    get_sort_func(&SortMethod::HsbSaturation, a, b)
}

/// Pixels compared by HSL saturation.
pub fn sort_by_saturation_hsl(a: &Pixel, b: &Pixel) -> (o: core::cmp::Ordering)
    ensures
        o == core::cmp::Ordering::Less <==> key_lt(SortMethod::HslSaturation, *a, *b),
        o == core::cmp::Ordering::Greater <==> key_lt(SortMethod::HslSaturation, *b, *a),
{
    get_sort_func(&SortMethod::HslSaturation, a, b)
}

/// Pixels compared by brightness.
pub fn sort_by_brightness(a: &Pixel, b: &Pixel) -> (o: core::cmp::Ordering)
    ensures
        o == core::cmp::Ordering::Less <==> key_lt(SortMethod::Brightness, *a, *b),
        o == core::cmp::Ordering::Greater <==> key_lt(SortMethod::Brightness, *b, *a),
{
    get_sort_func(&SortMethod::Brightness, a, b)
}

/// Pixels compared by lightness.
pub fn sort_by_lightness(a: &Pixel, b: &Pixel) -> (o: core::cmp::Ordering)
    ensures
        o == core::cmp::Ordering::Less <==> key_lt(SortMethod::Lightness, *a, *b),
        o == core::cmp::Ordering::Greater <==> key_lt(SortMethod::Lightness, *b, *a),
{
    get_sort_func(&SortMethod::Lightness, a, b)
}

/// Pixels compared by channel sum.
pub fn sort_by_intensity(a: &Pixel, b: &Pixel) -> (o: core::cmp::Ordering)
    ensures
        o == core::cmp::Ordering::Less <==> key_lt(SortMethod::Intensity, *a, *b),
        o == core::cmp::Ordering::Greater <==> key_lt(SortMethod::Intensity, *b, *a),
{
    get_sort_func(&SortMethod::Intensity, a, b)
}

/// Pixels compared by their smallest channel.
pub fn sort_by_minimum(a: &Pixel, b: &Pixel) -> (o: core::cmp::Ordering)
    ensures
        o == core::cmp::Ordering::Less <==> key_lt(SortMethod::Minimum, *a, *b),
        o == core::cmp::Ordering::Greater <==> key_lt(SortMethod::Minimum, *b, *a),
{
    get_sort_func(&SortMethod::Minimum, a, b)
}

} // verus!
