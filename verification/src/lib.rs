pub mod color;
pub mod frac;
pub mod interval;
pub mod math;
pub mod raster;
pub mod rng;
pub mod sorting;

use vstd::prelude::*;

use crate::interval::{valid_cut_row, valid_hplan, valid_dplan, IntervalType};
use crate::raster::{Pixel, Raster, SortError};
use crate::rng::rand_below;
use crate::sorting::{sort_pixels, stable_sort_spec, SortMethod};

verus! {

/// The mask as seen by the specifications: the column vectors of an optional
/// `mask[x][y]` grid.
pub open spec fn mask_view(m: Option<&Vec<Vec<bool>>>) -> Option<Seq<Vec<bool>>> {
    match m {
        Option::None => Option::None,
        Option::Some(v) => Option::Some(v@),
    }
}

/// Whether the pixel at column `x` of row `y` may receive a sorted value.
/// Without a mask every pixel is eligible.
pub open spec fn elig_at(mv: Option<Seq<Vec<bool>>>, x: int, y: int) -> bool {
    match mv {
        Option::None => true,
        Option::Some(m) => m[x]@[y],
    }
}

/// A mask, when present, has exactly one column per raster column and one
/// entry per raster row.
pub open spec fn mask_wf(mv: Option<Seq<Vec<bool>>>, w: int, h: int) -> bool {
    match mv {
        Option::None => true,
        Option::Some(m) => m.len() == w && forall|x: int|
            0 <= x < w ==> (#[trigger] m[x])@.len() == h,
    }
}

/// The eligible columns of row `y` among `lo .. hi`, in increasing order.
pub open spec fn elig_positions(mv: Option<Seq<Vec<bool>>>, y: int, lo: int, hi: int) -> Seq<int>
    decreases hi - lo,
{
    if hi <= lo {
        Seq::empty()
    } else {
        let prev = elig_positions(mv, y, lo, hi - 1);
        if elig_at(mv, hi - 1, y) {
            prev.push(hi - 1)
        } else {
            prev
        }
    }
}

/// The pool of pixels one interval reorders: the eligible pixels of
/// `lo .. hi`, in row order.
pub open spec fn interval_pool(
    row: Seq<Pixel>,
    mv: Option<Seq<Vec<bool>>>,
    y: int,
    lo: int,
    hi: int,
) -> Seq<Pixel> {
    elig_positions(mv, y, lo, hi).map_values(|p: int| row[p])
}

/// One interval `[lo, hi)` applied to a row: a skipped interval keeps the
/// input pixels; otherwise the eligible pixels of the interval, reordered
/// ascending by the key, are written back left to right into the eligible
/// columns, and ineligible columns keep their input pixels.  Columns outside
/// the interval keep the accumulated row.
pub open spec fn apply_interval_spec(
    orig: Seq<Pixel>,
    acc: Seq<Pixel>,
    mv: Option<Seq<Vec<bool>>>,
    y: int,
    lo: int,
    hi: int,
    skip: bool,
    m: SortMethod,
) -> Seq<Pixel> {
    Seq::new(
        acc.len(),
        |x: int|
            if lo <= x < hi {
                if skip {
                    orig[x]
                } else if elig_at(mv, x, y) {
                    stable_sort_spec(m, interval_pool(orig, mv, y, lo, hi))[elig_positions(
                        mv,
                        y,
                        lo,
                        x,
                    ).len() as int]
                } else {
                    orig[x]
                }
            } else {
                acc[x]
            },
    )
}

/// The row after its first `k` intervals: interval `k` spans from the
/// previous cut point (or the row's start) to cut point `k`.
pub open spec fn hrow_upto(
    orig: Seq<Pixel>,
    cuts: Seq<u32>,
    mv: Option<Seq<Vec<bool>>>,
    y: int,
    skips: Seq<bool>,
    m: SortMethod,
    k: int,
) -> Seq<Pixel>
    decreases k,
{
    if k <= 0 {
        orig
    } else {
        let prev = hrow_upto(orig, cuts, mv, y, skips, m, k - 1);
        let lo: int = if k == 1 {
            0
        } else {
            cuts[k - 2] as int
        };
        apply_interval_spec(orig, prev, mv, y, lo, cuts[k - 1] as int, skips[k - 1], m)
    }
}

/// A full row of the sorted image.
pub open spec fn hrow_spec(
    orig: Seq<Pixel>,
    cuts: Seq<u32>,
    mv: Option<Seq<Vec<bool>>>,
    y: int,
    skips: Seq<bool>,
    m: SortMethod,
) -> Seq<Pixel> {
    hrow_upto(orig, cuts, mv, y, skips, m, cuts.len() as int)
}

/// Per-interval skip decisions shaped like a horizontal plan: one decision
/// per cut point of every row.
pub open spec fn hskips_ok(skips: Seq<Seq<bool>>, plan: Seq<Vec<u32>>) -> bool {
    &&& skips.len() == plan.len()
    &&& forall|y: int| 0 <= y < plan.len() ==> (#[trigger] skips[y]).len() == plan[y]@.len()
}

/// The skip grid of a skip vector.
pub open spec fn skips_view(s: Seq<Vec<bool>>) -> Seq<Seq<bool>> {
    Seq::new(s.len(), |y: int| s[y]@)
}

/// Rows processed through all intervals keep their length.
pub proof fn lemma_hrow_upto_len(
    orig: Seq<Pixel>,
    cuts: Seq<u32>,
    mv: Option<Seq<Vec<bool>>>,
    y: int,
    skips: Seq<bool>,
    m: SortMethod,
    k: int,
)
    ensures
        hrow_upto(orig, cuts, mv, y, skips, m, k).len() == orig.len(),
    decreases k,
{
    if k > 0 {
        lemma_hrow_upto_len(orig, cuts, mv, y, skips, m, k - 1);
    }
}

/// Columns at or beyond the last processed cut point still hold their input
/// pixels.
pub proof fn lemma_hrow_upto_untouched(
    orig: Seq<Pixel>,
    cuts: Seq<u32>,
    mv: Option<Seq<Vec<bool>>>,
    y: int,
    skips: Seq<bool>,
    m: SortMethod,
    k: int,
)
    requires
        0 <= k <= cuts.len(),
        valid_cut_row(cuts, orig.len() as int),
    ensures
        forall|x: int|
            (if k == 0 {
                0int
            } else {
                cuts[k - 1] as int
            }) <= x < orig.len() ==> #[trigger] hrow_upto(orig, cuts, mv, y, skips, m, k)[x]
                == orig[x],
    decreases k,
{
    lemma_hrow_upto_len(orig, cuts, mv, y, skips, m, k);
    if k > 0 {
        lemma_hrow_upto_untouched(orig, cuts, mv, y, skips, m, k - 1);
        lemma_hrow_upto_len(orig, cuts, mv, y, skips, m, k - 1);
        if k >= 2 {
            assert(cuts[k - 2] <= cuts[k - 1]);
        }
    }
}

/// The eligible positions of adjacent spans concatenate.
pub proof fn lemma_elig_concat(mv: Option<Seq<Vec<bool>>>, y: int, lo: int, mid: int, hi: int)
    requires
        lo <= mid <= hi,
    ensures
        elig_positions(mv, y, lo, hi) == elig_positions(mv, y, lo, mid) + elig_positions(
            mv,
            y,
            mid,
            hi,
        ),
    decreases hi - mid,
{
    if hi == mid {
        assert(elig_positions(mv, y, lo, hi) =~= elig_positions(mv, y, lo, mid) + elig_positions(
            mv,
            y,
            mid,
            hi,
        ));
    } else {
        lemma_elig_concat(mv, y, lo, mid, hi - 1);
        assert(elig_positions(mv, y, lo, hi) =~= elig_positions(mv, y, lo, mid) + elig_positions(
            mv,
            y,
            mid,
            hi,
        ));
    }
}

/// Every recorded eligible position lies inside its span, so a span has at
/// most one position per column.
pub proof fn lemma_elig_in_range(mv: Option<Seq<Vec<bool>>>, y: int, lo: int, hi: int)
    ensures
        forall|t: int|
            0 <= t < elig_positions(mv, y, lo, hi).len() ==> lo <= #[trigger] elig_positions(
                mv,
                y,
                lo,
                hi,
            )[t] < hi,
        elig_positions(mv, y, lo, hi).len() <= (if hi >= lo {
            hi - lo
        } else {
            0int
        }),
    decreases hi - lo,
{
    if hi > lo {
        lemma_elig_in_range(mv, y, lo, hi - 1);
    }
}

/// Without a mask, every column of a span is eligible.
pub proof fn lemma_elig_positions_none(y: int, lo: int, hi: int)
    requires
        lo <= hi,
    ensures
        elig_positions(Option::None, y, lo, hi) == Seq::new((hi - lo) as nat, |j: int| lo + j),
    decreases hi - lo,
{
    if hi == lo {
        assert(elig_positions(Option::<Seq<Vec<bool>>>::None, y, lo, hi) =~= Seq::new(
            (hi - lo) as nat,
            |j: int| lo + j,
        ));
    } else {
        lemma_elig_positions_none(y, lo, hi - 1);
        assert(elig_positions(Option::<Seq<Vec<bool>>>::None, y, lo, hi) =~= Seq::new(
            (hi - lo) as nat,
            |j: int| lo + j,
        ));
    }
}

/// Sorts the intervals of one row: the executable counterpart of
/// `hrow_spec`, with the reordering of each non-skipped interval carried out
/// by the stable insertion sort.
pub fn sort_row(
    row: &Vec<Pixel>,
    cuts: &Vec<u32>,
    mask_data: Option<&Vec<Vec<bool>>>,
    y: u32,
    skips: &Vec<bool>,
    sort_method: &SortMethod,
) -> (out: Vec<Pixel>)
    requires
        valid_cut_row(cuts@, row@.len() as int),
        match mask_data {
            Option::None => true,
            Option::Some(md) => md@.len() == row@.len() && forall|x: int|
                0 <= x < md@.len() ==> y < (#[trigger] md@[x])@.len(),
        },
        skips@.len() == cuts@.len(),
    ensures
        out@.len() == row@.len(),
        out@ == hrow_spec(row@, cuts@, mask_view(mask_data), y as int, skips@, *sort_method),
{
    let ghost mv = mask_view(mask_data);
    let mut out: Vec<Pixel> = Vec::new();
    let mut c: usize = 0;
    while c < row.len()
        invariant
            0 <= c <= row@.len(),
            out@ == row@.take(c as int),
        decreases row@.len() - c,
    {
        out.push(row[c]);
        c = c + 1;
    }
    assert(out@ =~= row@);

    let mut lo: u32 = 0;
    let mut k: usize = 0;
    while k < cuts.len()
        invariant
            valid_cut_row(cuts@, row@.len() as int),
            match mask_data {
                Option::None => true,
                Option::Some(md) => md@.len() == row@.len() && forall|x: int|
                    0 <= x < md@.len() ==> y < (#[trigger] md@[x])@.len(),
            },
            skips@.len() == cuts@.len(),
            mv == mask_view(mask_data),
            0 <= k <= cuts@.len(),
            lo as int == (if k == 0 {
                0int
            } else {
                cuts@[k as int - 1] as int
            }),
            lo <= row@.len(),
            out@.len() == row@.len(),
            out@ == hrow_upto(row@, cuts@, mv, y as int, skips@, *sort_method, k as int),
        decreases cuts@.len() - k,
    {
        let hi: u32 = cuts[k];
        assert(lo <= hi && hi <= row@.len()) by {
            if k > 0 {
                assert(cuts@[k as int - 1] <= cuts@[k as int]);
            }
        }
        let ghost prev_out = out@;
        proof {
            lemma_hrow_upto_untouched(row@, cuts@, mv, y as int, skips@, *sort_method, k as int);
        }
        if !skips[k] {
            // collect the eligible pixels of the interval
            let mut pool: Vec<Pixel> = Vec::new();
            let mut x: u32 = lo;
            while x < hi
                invariant
                    lo <= x <= hi,
                    hi <= row@.len(),
                    match mask_data {
                        Option::None => true,
                        Option::Some(md) => md@.len() == row@.len() && forall|xi: int|
                            0 <= xi < md@.len() ==> y < (#[trigger] md@[xi])@.len(),
                    },
                    mv == mask_view(mask_data),
                    pool@ == interval_pool(row@, mv, y as int, lo as int, x as int),
                decreases hi - x,
            {
                let el: bool = match mask_data {
                    Option::None => true,
                    Option::Some(md) => md[x as usize][y as usize],
                };
                assert(el == elig_at(mv, x as int, y as int));
                if el {
                    pool.push(row[x as usize]);
                }
                proof {
                    assert(pool@ =~= interval_pool(row@, mv, y as int, lo as int, x as int + 1));
                }
                x = x + 1;
            }
            let sorted = sort_pixels(sort_method, &pool);
            let slen: usize = sorted.len();
            proof {
                lemma_elig_in_range(mv, y as int, lo as int, hi as int);
            }
            // write the reordered pixels back into the eligible columns
            let mut x: u32 = lo;
            let mut j: usize = 0;
            while x < hi
                invariant
                    lo <= x <= hi,
                    hi <= row@.len(),
                    match mask_data {
                        Option::None => true,
                        Option::Some(md) => md@.len() == row@.len() && forall|xi: int|
                            0 <= xi < md@.len() ==> y < (#[trigger] md@[xi])@.len(),
                    },
                    mv == mask_view(mask_data),
                    out@.len() == row@.len(),
                    sorted@ == stable_sort_spec(
                        *sort_method,
                        interval_pool(row@, mv, y as int, lo as int, hi as int),
                    ),
                    sorted@.len() == slen,
                    sorted@.len() == elig_positions(mv, y as int, lo as int, hi as int).len(),
                    j <= slen,
                    j == elig_positions(mv, y as int, lo as int, x as int).len(),
                    forall|x2: int|
                        lo <= x2 < x ==> #[trigger] out@[x2] == (if elig_at(mv, x2, y as int) {
                            stable_sort_spec(
                                *sort_method,
                                interval_pool(row@, mv, y as int, lo as int, hi as int),
                            )[elig_positions(mv, y as int, lo as int, x2).len() as int]
                        } else {
                            prev_out[x2]
                        }),
                    forall|x2: int|
                        0 <= x2 < out@.len() && !(lo <= x2 < x) ==> #[trigger] out@[x2]
                            == prev_out[x2],
                decreases hi - x,
            {
                let el: bool = match mask_data {
                    Option::None => true,
                    Option::Some(md) => md[x as usize][y as usize],
                };
                assert(el == elig_at(mv, x as int, y as int));
                if el {
                    proof {
                        lemma_elig_concat(mv, y as int, lo as int, x as int + 1, hi as int);
                        lemma_elig_in_range(mv, y as int, x as int + 1, hi as int);
                        assert(elig_positions(mv, y as int, lo as int, x as int + 1).len() == j
                            + 1);
                    }
                    out.set(x as usize, sorted[j]);
                    j = j + 1;
                } else {
                    proof {
                        assert(elig_positions(mv, y as int, lo as int, x as int + 1).len() == j);
                    }
                }
                x = x + 1;
            }
            proof {
                assert(out@ =~= apply_interval_spec(
                    row@,
                    prev_out,
                    mv,
                    y as int,
                    lo as int,
                    hi as int,
                    false,
                    *sort_method,
                ));
            }
        } else {
            proof {
                assert(out@ =~= apply_interval_spec(
                    row@,
                    prev_out,
                    mv,
                    y as int,
                    lo as int,
                    hi as int,
                    true,
                    *sort_method,
                ));
            }
        }
        lo = hi;
        k = k + 1;
    }
    out
}

/// One row of the input raster.
pub open spec fn image_row(img: Raster, y: int) -> Seq<Pixel> {
    Seq::new(img.spec_width() as nat, |x: int| img.pixel_at(x, y))
}

/// The pixel the horizontally sorted image holds at `(x, y)`: rows covered by
/// the plan are sorted row by row, rows beyond the plan keep their input
/// pixels.
pub open spec fn hpixel_spec(
    img: Raster,
    plan: Seq<Vec<u32>>,
    mv: Option<Seq<Vec<bool>>>,
    skips: Seq<Seq<bool>>,
    m: SortMethod,
    x: int,
    y: int,
) -> Pixel {
    if y < plan.len() {
        hrow_spec(image_row(img, y), plan[y]@, mv, y, skips[y], m)[x]
    } else {
        img.pixel_at(x, y)
    }
}

/// Renders a horizontal plan with explicit per-interval skip decisions: the
/// deterministic core of the sort engine, usable with any decision source.
/// The output raster has the input's dimensions; every row the plan covers
/// is the sorted row, and every other pixel keeps its input value.
pub fn get_sorted_image_with_skips(
    image: &Raster,
    mask_data: Option<&Vec<Vec<bool>>>,
    intervals: &Vec<Vec<u32>>,
    skips: &Vec<Vec<bool>>,
    sort_method: &SortMethod,
) -> (out: Raster)
    requires
        image.wf(),
        valid_hplan(intervals@, image.spec_width()),
        mask_wf(mask_view(mask_data), image.spec_width(), image.spec_height()),
        hskips_ok(skips_view(skips@), intervals@),
    ensures
        out.wf(),
        out.spec_width() == image.spec_width(),
        out.spec_height() == image.spec_height(),
        forall|x: int, y: int|
            0 <= x < image.spec_width() && 0 <= y < image.spec_height() ==> #[trigger] out.pixel_at(
                x,
                y,
            ) == hpixel_spec(
                *image,
                intervals@,
                mask_view(mask_data),
                skips_view(skips@),
                *sort_method,
                x,
                y,
            ),
{
    let ghost mv = mask_view(mask_data);
    let ghost skv = skips_view(skips@);
    let width = image.width();
    let height = image.height();
    let mut out = image.duplicate();
    let rows: usize = if intervals.len() < (height as usize) {
        intervals.len()
    } else {
        height as usize
    };
    let mut y: usize = 0;
    while y < rows
        invariant
            image.wf(),
            width as int == image.spec_width(),
            height as int == image.spec_height(),
            valid_hplan(intervals@, image.spec_width()),
            mask_wf(mv, image.spec_width(), image.spec_height()),
            hskips_ok(skv, intervals@),
            mv == mask_view(mask_data),
            skv == skips_view(skips@),
            rows <= intervals@.len(),
            rows <= height,
            rows == (if intervals@.len() < height as int {
                intervals@.len() as int
            } else {
                height as int
            }),
            0 <= y <= rows,
            out.wf(),
            out.spec_width() == image.spec_width(),
            out.spec_height() == image.spec_height(),
            forall|xx: int, yy: int|
                0 <= xx < width && 0 <= yy < height ==> #[trigger] out.pixel_at(xx, yy) == (if yy
                    < y {
                    hpixel_spec(*image, intervals@, mv, skv, *sort_method, xx, yy)
                } else {
                    image.pixel_at(xx, yy)
                }),
        decreases rows - y,
    {
        // read the input row
        let mut row_in: Vec<Pixel> = Vec::new();
        let mut x: u32 = 0;
        while x < width
            invariant
                image.wf(),
                width as int == image.spec_width(),
                height as int == image.spec_height(),
                y < height,
                0 <= x <= width,
                row_in@.len() == x,
                forall|i: int| 0 <= i < x ==> #[trigger] row_in@[i] == image.pixel_at(i, y as int),
            decreases width - x,
        {
            row_in.push(image.get_pixel(x, y as u32));
            x = x + 1;
        }
        proof {
            assert(row_in@ =~= image_row(*image, y as int));
        }
        // sort its intervals
        let cuts = &intervals[y];
        let srow = &skips[y];
        assert(srow@ == skv[y as int]);
        let row_out = sort_row(&row_in, cuts, mask_data, y as u32, srow, sort_method);
        // write the sorted row into the output
        let mut x: u32 = 0;
        while x < width
            invariant
                image.wf(),
                width as int == image.spec_width(),
                height as int == image.spec_height(),
                0 <= y < rows,
                rows <= intervals@.len(),
                rows <= height,
                0 <= x <= width,
                out.wf(),
                out.spec_width() == image.spec_width(),
                out.spec_height() == image.spec_height(),
                row_out@.len() == width,
                row_out@ == hrow_spec(
                    image_row(*image, y as int),
                    intervals@[y as int]@,
                    mv,
                    y as int,
                    skv[y as int],
                    *sort_method,
                ),
                forall|xx: int, yy: int|
                    0 <= xx < width && 0 <= yy < height ==> #[trigger] out.pixel_at(xx, yy) == (
                    if yy == y && xx < x {
                        row_out@[xx]
                    } else if yy < y {
                        hpixel_spec(*image, intervals@, mv, skv, *sort_method, xx, yy)
                    } else {
                        image.pixel_at(xx, yy)
                    }),
            decreases width - x,
        {
            let ghost out_old = out;
            out.put_pixel(x, y as u32, row_out[x as usize]);
            proof {
                assert forall|xx: int, yy: int|
                    0 <= xx < width && 0 <= yy < height implies #[trigger] out.pixel_at(xx, yy)
                    == (if yy == y && xx < x + 1 {
                    row_out@[xx]
                } else if yy < y {
                    hpixel_spec(*image, intervals@, mv, skv, *sort_method, xx, yy)
                } else {
                    image.pixel_at(xx, yy)
                }) by {
                    crate::raster::lemma_grid_index(width as int, height as int, xx, yy);
                    crate::raster::lemma_grid_index(width as int, height as int, x as int, y as int);
                    if yy * (width as int) + xx == y as int * (width as int) + x as int {
                        crate::raster::lemma_grid_index_injective(
                            width as int,
                            xx,
                            yy,
                            x as int,
                            y as int,
                        );
                    } else {
                        assert(out@ == out_old@.update(
                            y as int * (width as int) + x as int,
                            row_out@[x as int],
                        ));
                        assert(out_old@.len() == (width as int) * (height as int));
                        assert(out@[yy * (width as int) + xx] == out_old@[yy * (width as int)
                            + xx]);
                        assert(out.pixel_at(xx, yy) == out_old.pixel_at(xx, yy));
                    }
                }
            }
            x = x + 1;
        }
        proof {
            assert forall|xx: int, yy: int|
                0 <= xx < width && 0 <= yy < height implies #[trigger] out.pixel_at(xx, yy) == (
                if yy < y + 1 {
                hpixel_spec(*image, intervals@, mv, skv, *sort_method, xx, yy)
            } else {
                image.pixel_at(xx, yy)
            }) by {
                if yy == y {
                    assert(out.pixel_at(xx, yy) == row_out@[xx]);
                }
            }
        }
        y = y + 1;
    }
    proof {
        assert forall|xx: int, yy: int|
            0 <= xx < width && 0 <= yy < height implies #[trigger] out.pixel_at(xx, yy)
            == hpixel_spec(*image, intervals@, mv, skv, *sort_method, xx, yy) by {
            if yy >= y {
                assert(yy >= intervals@.len());
            }
        }
    }
    out
}

/// Skip decisions that skip nothing, shaped like a plan.
pub open spec fn no_hskips(plan: Seq<Vec<u32>>) -> Seq<Seq<bool>> {
    Seq::new(plan.len(), |y: int| Seq::new(plan[y]@.len(), |k: int| false))
}

/// Every decision in the grid skips.
pub open spec fn hskips_all_true(skips: Seq<Seq<bool>>, plan: Seq<Vec<u32>>) -> bool {
    forall|y: int, k: int|
        0 <= y < plan.len() && 0 <= k < plan[y]@.len() ==> #[trigger] skips[y][k] == true
}

/// A row all of whose intervals are skipped keeps its input pixels.
proof fn lemma_hrow_upto_all_skip(
    orig: Seq<Pixel>,
    cuts: Seq<u32>,
    mv: Option<Seq<Vec<bool>>>,
    y: int,
    skips: Seq<bool>,
    m: SortMethod,
    k: int,
)
    requires
        k <= cuts.len(),
        forall|i: int| 0 <= i < cuts.len() ==> #[trigger] skips[i] == true,
    ensures
        hrow_upto(orig, cuts, mv, y, skips, m, k) == orig,
    decreases k,
{
    if k > 0 {
        lemma_hrow_upto_all_skip(orig, cuts, mv, y, skips, m, k - 1);
        assert(hrow_upto(orig, cuts, mv, y, skips, m, k) =~= orig);
    }
}

/// Skipping every interval of a row reproduces the row: the engine is the
/// identity when every skip decision fires.
pub proof fn lemma_hrow_all_skip(
    orig: Seq<Pixel>,
    cuts: Seq<u32>,
    mv: Option<Seq<Vec<bool>>>,
    y: int,
    skips: Seq<bool>,
    m: SortMethod,
)
    requires
        forall|i: int| 0 <= i < cuts.len() ==> #[trigger] skips[i] == true,
    ensures
        hrow_spec(orig, cuts, mv, y, skips, m) == orig,
{
    lemma_hrow_upto_all_skip(orig, cuts, mv, y, skips, m, cuts.len() as int);
}

/// A row rendered as one full-width unskipped interval without a mask is
/// exactly the stable ascending reordering of the row.
pub proof fn lemma_entire_row_sorts(orig: Seq<Pixel>, width: u32, y: int, m: SortMethod)
    requires
        orig.len() == width,
    ensures
        hrow_spec(orig, seq![0u32, width], Option::None, y, seq![false, false], m)
            == stable_sort_spec(m, orig),
{
    let cuts: Seq<u32> = seq![0u32, width];
    let skips: Seq<bool> = seq![false, false];
    let mv = Option::<Seq<Vec<bool>>>::None;
    reveal_with_fuel(hrow_upto, 3);
    let step1 = hrow_upto(orig, cuts, mv, y, skips, m, 1);
    assert(step1 =~= orig);
    crate::sorting::lemma_stable_sort_props(m, orig);
    lemma_elig_positions_none(y, 0, width as int);
    let positions = elig_positions(mv, y, 0, width as int);
    let pool = interval_pool(orig, mv, y, 0, width as int);
    assert(pool =~= orig) by {
        assert(positions.len() == width);
        assert(forall|t: int| 0 <= t < width ==> #[trigger] positions[t] == t);
    }
    let result = hrow_upto(orig, cuts, mv, y, skips, m, 2);
    assert(result == apply_interval_spec(orig, step1, mv, y, 0, width as int, false, m));
    assert forall|x: int| 0 <= x < width implies result[x] == stable_sort_spec(m, orig)[x] by {
        lemma_elig_positions_none(y, 0, x);
        assert(elig_positions(mv, y, 0, x).len() == x);
    }
    assert(result =~= stable_sort_spec(m, orig));
}

/// Under a plan whose rows are all `[0, width]`, with no mask and no skip,
/// every rendered pixel comes from its row sorted ascending by the key.
pub proof fn lemma_entire_row_plan_sorts(
    img: Raster,
    plan: Seq<Vec<u32>>,
    m: SortMethod,
    x: int,
    y: int,
)
    requires
        img.wf(),
        0 <= x < img.spec_width(),
        0 <= y < img.spec_height(),
        y < plan.len(),
        plan[y]@ == seq![0u32, (img.spec_width()) as u32],
    ensures
        hpixel_spec(img, plan, Option::None, no_hskips(plan), m, x, y) == stable_sort_spec(
            m,
            image_row(img, y),
        )[x],
{
    crate::raster::lemma_raster_dims(img);
    lemma_entire_row_sorts(image_row(img, y), (img.spec_width()) as u32, y, m);
    assert(no_hskips(plan)[y] =~= seq![false, false]);
}

/// Whether an optional mask matches a raster's dimensions.
pub fn check_mask(mask_data: Option<&Vec<Vec<bool>>>, width: u32, height: u32) -> (ok: bool)
    ensures
        ok == mask_wf(mask_view(mask_data), width as int, height as int),
{
    match mask_data {
        Option::None => true,
        Option::Some(md) => {
            if md.len() != (width as usize) {
                return false;
            }
            let mut x: usize = 0;
            while x < md.len()
                invariant
                    mask_view(mask_data) == Option::Some(md@),
                    md@.len() == width,
                    0 <= x <= md@.len(),
                    forall|i: int| 0 <= i < x ==> (#[trigger] md@[i])@.len() == height,
                decreases md@.len() - x,
            {
                if md[x].len() != (height as usize) {
                    assert((md@[x as int])@.len() != height as int);
                    return false;
                }
                x = x + 1;
            }
            true
        },
    }
}

/// Renders a horizontal plan with the documented per-interval randomness: an
/// interval is skipped exactly when a fresh uniform draw from `0 .. 100`
/// falls below the randomness rate.  Whatever the draws, the output is the
/// deterministic render under some skip grid; a rate of zero skips nothing
/// and a rate of one hundred skips everything, so it returns the input
/// unchanged.
pub fn get_sorted_image_raw(
    image: &Raster,
    mask_data: Option<&Vec<Vec<bool>>>,
    intervals: &Vec<Vec<u32>>,
    randomness: u32,
    sort_method: &SortMethod,
) -> (out: Raster)
    requires
        image.wf(),
        valid_hplan(intervals@, image.spec_width()),
        mask_wf(mask_view(mask_data), image.spec_width(), image.spec_height()),
        randomness <= 100,
    ensures
        out.wf(),
        out.spec_width() == image.spec_width(),
        out.spec_height() == image.spec_height(),
        exists|sk: Seq<Seq<bool>>|
            {
                &&& #[trigger] hskips_ok(sk, intervals@)
                &&& (randomness == 0 ==> sk == no_hskips(intervals@))
                &&& (randomness == 100 ==> hskips_all_true(sk, intervals@))
                &&& forall|x: int, y: int|
                    0 <= x < image.spec_width() && 0 <= y < image.spec_height()
                        ==> #[trigger] out.pixel_at(x, y) == hpixel_spec(
                        *image,
                        intervals@,
                        mask_view(mask_data),
                        sk,
                        *sort_method,
                        x,
                        y,
                    )
            },
        randomness == 0 ==> forall|x: int, y: int|
            0 <= x < image.spec_width() && 0 <= y < image.spec_height() ==> #[trigger] out.pixel_at(
                x,
                y,
            ) == hpixel_spec(
                *image,
                intervals@,
                mask_view(mask_data),
                no_hskips(intervals@),
                *sort_method,
                x,
                y,
            ),
        randomness == 100 ==> out@ == image@,
{
    let mut skips: Vec<Vec<bool>> = Vec::new();
    let mut y: usize = 0;
    while y < intervals.len()
        invariant
            randomness <= 100,
            0 <= y <= intervals@.len(),
            skips@.len() == y,
            forall|i: int| 0 <= i < y ==> (#[trigger] skips@[i])@.len() == intervals@[i]@.len(),
            randomness == 0 ==> forall|i: int, k: int|
                0 <= i < y && 0 <= k < skips@[i]@.len() ==> (#[trigger] skips@[i]@[k]) == false,
            randomness == 100 ==> forall|i: int, k: int|
                0 <= i < y && 0 <= k < skips@[i]@.len() ==> (#[trigger] skips@[i]@[k]) == true,
        decreases intervals@.len() - y,
    {
        let n: usize = intervals[y].len();
        let mut rowsk: Vec<bool> = Vec::new();
        let mut k: usize = 0;
        while k < n
            invariant
                randomness <= 100,
                0 <= k <= n,
                rowsk@.len() == k,
                randomness == 0 ==> forall|i: int| 0 <= i < k ==> (#[trigger] rowsk@[i]) == false,
                randomness == 100 ==> forall|i: int| 0 <= i < k ==> (#[trigger] rowsk@[i]) == true,
            decreases n - k,
        {
            let s: bool = if randomness == 0 {
                false
            } else {
                rand_below(100) < randomness
            };
            rowsk.push(s);
            k = k + 1;
        }
        skips.push(rowsk);
        y = y + 1;
    }
    let out = get_sorted_image_with_skips(image, mask_data, intervals, &skips, sort_method);
    proof {
        let sk = skips_view(skips@);
        assert(hskips_ok(sk, intervals@));
        if randomness == 0 {
            assert forall|yy: int| 0 <= yy < intervals@.len() implies sk[yy] == no_hskips(
                intervals@,
            )[yy] by {
                assert(sk[yy] =~= no_hskips(intervals@)[yy]);
            }
            assert(sk =~= no_hskips(intervals@));
        }
        if randomness == 100 {
            assert(hskips_all_true(sk, intervals@));
            assert forall|x: int, y2: int|
                0 <= x < image.spec_width() && 0 <= y2 < image.spec_height()
                implies #[trigger] out.pixel_at(x, y2) == image.pixel_at(x, y2) by {
                if y2 < intervals@.len() {
                    lemma_hrow_all_skip(
                        image_row(*image, y2),
                        intervals@[y2]@,
                        mask_view(mask_data),
                        y2,
                        sk[y2],
                        *sort_method,
                    );
                }
            }
            crate::raster::lemma_raster_pointwise_eq(out, *image);
        }
    }
    out
}


/// The flat index of a grid point.
pub open spec fn pix_idx(w: int, p: (u32, u32)) -> int {
    p.1 * w + p.0
}

/// The pixels of the input raster along a traversal, in traversal order.
pub open spec fn dpool(orig: Seq<Pixel>, pts: Seq<(u32, u32)>, w: int) -> Seq<Pixel> {
    pts.map_values(|p: (u32, u32)| orig[pix_idx(w, p)])
}

/// Values written back one by one along a traversal; later writes win.
pub open spec fn dwrite(
    acc: Seq<Pixel>,
    pts: Seq<(u32, u32)>,
    vals: Seq<Pixel>,
    w: int,
    k: int,
) -> Seq<Pixel>
    decreases k,
{
    if k <= 0 {
        acc
    } else {
        let prev = dwrite(acc, pts, vals, w, k - 1);
        let idx = pix_idx(w, pts[k - 1]);
        if 0 <= idx < prev.len() {
            prev.update(idx, vals[k - 1])
        } else {
            prev
        }
    }
}

/// One diagonal interval applied to the accumulated output: the pixels along
/// the traversal from `a` toward `b` are read from the input raster and
/// written back in traversal order, reordered by the key unless the interval
/// is skipped.
pub open spec fn dinterval(
    orig: Seq<Pixel>,
    acc: Seq<Pixel>,
    a: (u32, u32),
    b: (u32, u32),
    skip: bool,
    m: SortMethod,
    w: int,
) -> Seq<Pixel> {
    let pts = crate::math::points_between_spec(a, b);
    let pool = dpool(orig, pts, w);
    let vals = if skip {
        pool
    } else {
        stable_sort_spec(m, pool)
    };
    dwrite(acc, pts, vals, w, pts.len() as int)
}

/// A path after its first `k` waypoint pairs.
pub open spec fn dpath_upto(
    orig: Seq<Pixel>,
    acc: Seq<Pixel>,
    path: Seq<(u32, u32)>,
    skips: Seq<bool>,
    m: SortMethod,
    w: int,
    k: int,
) -> Seq<Pixel>
    decreases k,
{
    if k <= 0 {
        acc
    } else {
        dinterval(
            orig,
            dpath_upto(orig, acc, path, skips, m, w, k - 1),
            path[k - 1],
            path[k],
            skips[k - 1],
            m,
            w,
        )
    }
}

/// The output after the first `k` paths of a diagonal plan, starting from a
/// copy of the input raster.  Paths may overlap; they are applied in order.
pub open spec fn drender_upto(
    orig: Seq<Pixel>,
    plan: Seq<Vec<(u32, u32)>>,
    skips: Seq<Seq<bool>>,
    m: SortMethod,
    w: int,
    k: int,
) -> Seq<Pixel>
    decreases k,
{
    if k <= 0 {
        orig
    } else {
        let prev = drender_upto(orig, plan, skips, m, w, k - 1);
        let path = plan[k - 1]@;
        if path.len() == 0 {
            prev
        } else {
            dpath_upto(orig, prev, path, skips[k - 1], m, w, path.len() - 1)
        }
    }
}

/// The full diagonal render.
pub open spec fn drender_spec(
    orig: Seq<Pixel>,
    plan: Seq<Vec<(u32, u32)>>,
    skips: Seq<Seq<bool>>,
    m: SortMethod,
    w: int,
) -> Seq<Pixel> {
    drender_upto(orig, plan, skips, m, w, plan.len() as int)
}

/// Skip decisions shaped like a diagonal plan: one per waypoint pair.
pub open spec fn dskips_ok(skips: Seq<Seq<bool>>, plan: Seq<Vec<(u32, u32)>>) -> bool {
    &&& skips.len() == plan.len()
    &&& forall|y: int|
        0 <= y < plan.len() ==> (#[trigger] skips[y]).len() == (if plan[y]@.len() == 0 {
            0int
        } else {
            plan[y]@.len() - 1
        })
}

/// Skip decisions that skip nothing, shaped like a diagonal plan.
pub open spec fn no_dskips(plan: Seq<Vec<(u32, u32)>>) -> Seq<Seq<bool>> {
    Seq::new(
        plan.len(),
        |y: int|
            Seq::new(
                (if plan[y]@.len() == 0 {
                    0int
                } else {
                    plan[y]@.len() - 1
                }) as nat,
                |k: int| false,
            ),
    )
}

/// Every decision in a diagonal skip grid skips.
pub open spec fn dskips_all_true(skips: Seq<Seq<bool>>, plan: Seq<Vec<(u32, u32)>>) -> bool {
    forall|y: int, k: int|
        0 <= y < plan.len() && 0 <= k < skips[y].len() ==> #[trigger] skips[y][k] == true
}

/// Sequential write-back preserves the grid's size.
pub proof fn lemma_dwrite_len(
    acc: Seq<Pixel>,
    pts: Seq<(u32, u32)>,
    vals: Seq<Pixel>,
    w: int,
    k: int,
)
    ensures
        dwrite(acc, pts, vals, w, k).len() == acc.len(),
    decreases k,
{
    if k > 0 {
        lemma_dwrite_len(acc, pts, vals, w, k - 1);
    }
}

/// Writing a traversal's own input pixels back leaves the grid unchanged.
proof fn lemma_dwrite_id(orig: Seq<Pixel>, pts: Seq<(u32, u32)>, w: int, k: int)
    requires
        k <= pts.len(),
    ensures
        dwrite(orig, pts, dpool(orig, pts, w), w, k) == orig,
    decreases k,
{
    if k > 0 {
        lemma_dwrite_id(orig, pts, w, k - 1);
        assert(dwrite(orig, pts, dpool(orig, pts, w), w, k) =~= orig);
    }
}

/// A path all of whose intervals are skipped leaves the grid unchanged.
proof fn lemma_dpath_all_skip(
    orig: Seq<Pixel>,
    path: Seq<(u32, u32)>,
    skips: Seq<bool>,
    m: SortMethod,
    w: int,
    k: int,
)
    requires
        forall|i: int| 0 <= i < skips.len() ==> #[trigger] skips[i] == true,
        0 <= k <= skips.len(),
    ensures
        dpath_upto(orig, orig, path, skips, m, w, k) == orig,
    decreases k,
{
    if k > 0 {
        lemma_dpath_all_skip(orig, path, skips, m, w, k - 1);
        let pts = crate::math::points_between_spec(path[k - 1], path[k]);
        lemma_dwrite_id(orig, pts, w, pts.len() as int);
    }
}

/// A diagonal render all of whose intervals are skipped returns the input
/// unchanged.
pub proof fn lemma_drender_all_skip(
    orig: Seq<Pixel>,
    plan: Seq<Vec<(u32, u32)>>,
    skips: Seq<Seq<bool>>,
    m: SortMethod,
    w: int,
    k: int,
)
    requires
        dskips_ok(skips, plan),
        dskips_all_true(skips, plan),
        0 <= k <= plan.len(),
    ensures
        drender_upto(orig, plan, skips, m, w, k) == orig,
    decreases k,
{
    if k > 0 {
        lemma_drender_all_skip(orig, plan, skips, m, w, k - 1);
        let path = plan[k - 1]@;
        if path.len() > 0 {
            assert(forall|i: int|
                0 <= i < skips[k - 1].len() ==> #[trigger] skips[k - 1][i] == true);
            lemma_dpath_all_skip(orig, path, skips[k - 1], m, w, path.len() - 1);
        }
    }
}

/// Renders a diagonal plan with explicit per-interval skip decisions: each
/// path's consecutive waypoint pairs are traversed, their pixels read from
/// the input raster, reordered unless skipped, and written back along the
/// traversal; overlapping writes resolve in plan order, last write wins.
pub fn get_sorted_image_raw2_with_skips(
    image: &Raster,
    intervals: &Vec<Vec<(u32, u32)>>,
    skips: &Vec<Vec<bool>>,
    sort_method: &SortMethod,
) -> (out: Raster)
    requires
        image.wf(),
        valid_dplan(intervals@, image.spec_width(), image.spec_height()),
        dskips_ok(skips_view(skips@), intervals@),
    ensures
        out.wf(),
        out.spec_width() == image.spec_width(),
        out.spec_height() == image.spec_height(),
        out@ == drender_spec(
            image@,
            intervals@,
            skips_view(skips@),
            *sort_method,
            image.spec_width(),
        ),
{
    let ghost skv = skips_view(skips@);
    let ghost w = image.spec_width();
    let width = image.width();
    let height = image.height();
    let mut out = image.duplicate();
    let mut y: usize = 0;
    while y < intervals.len()
        invariant
            image.wf(),
            w == image.spec_width(),
            width as int == image.spec_width(),
            height as int == image.spec_height(),
            valid_dplan(intervals@, w, image.spec_height()),
            dskips_ok(skv, intervals@),
            skv == skips_view(skips@),
            0 <= y <= intervals@.len(),
            out.wf(),
            out.spec_width() == image.spec_width(),
            out.spec_height() == image.spec_height(),
            out@ == drender_upto(image@, intervals@, skv, *sort_method, w, y as int),
        decreases intervals@.len() - y,
    {
        let row = &intervals[y];
        if row.len() >= 1 {
            let srow = &skips[y];
            assert(srow@ == skv[y as int]);
            let ghost prev_acc = out@;
            let mut start: (u32, u32) = row[0];
            let mut j: usize = 1;
            while j < row.len()
                invariant
                    image.wf(),
                    w == image.spec_width(),
                    width as int == image.spec_width(),
                    height as int == image.spec_height(),
                    0 <= y < intervals@.len(),
                    row@ == intervals@[y as int]@,
                    forall|t: int|
                        0 <= t < row@.len() ==> (#[trigger] row@[t]).0 < width && row@[t].1
                            < height,
                    srow@ == skv[y as int],
                    srow@.len() == row@.len() - 1,
                    1 <= j <= row@.len(),
                    start == row@[j - 1],
                    out.wf(),
                    out.spec_width() == image.spec_width(),
                    out.spec_height() == image.spec_height(),
                    out@ == dpath_upto(image@, prev_acc, row@, srow@, *sort_method, w, j - 1),
                decreases row@.len() - j,
            {
                let next: (u32, u32) = row[j];
                let pts = crate::math::points_between(&start, &next);
                proof {
                    assert forall|t: int|
                        0 <= t < pts@.len() implies (#[trigger] pts@[t]).0 < width && pts@[t].1
                        < height by {
                        crate::math::lemma_segment_box_in_grid(
                            start,
                            next,
                            pts@[t],
                            width as int,
                            height as int,
                        );
                    }
                }
                let mut pool: Vec<Pixel> = Vec::new();
                let mut i: usize = 0;
                while i < pts.len()
                    invariant
                        image.wf(),
                        w == image.spec_width(),
                        width as int == image.spec_width(),
                        height as int == image.spec_height(),
                        forall|t: int|
                            0 <= t < pts@.len() ==> (#[trigger] pts@[t]).0 < width && pts@[t].1
                                < height,
                        0 <= i <= pts@.len(),
                        pool@.len() == i,
                        forall|t: int|
                            0 <= t < i ==> #[trigger] pool@[t] == image@[pix_idx(w, pts@[t])],
                    decreases pts@.len() - i,
                {
                    let p = pts[i];
                    pool.push(image.get_pixel(p.0, p.1));
                    i = i + 1;
                }
                proof {
                    assert(pool@ =~= dpool(image@, pts@, w));
                }
                let skip_this: bool = srow[j - 1];
                let vals: Vec<Pixel> = if skip_this {
                    pool
                } else {
                    sort_pixels(sort_method, &pool)
                };
                assert(vals@ == (if skip_this {
                    dpool(image@, pts@, w)
                } else {
                    stable_sort_spec(*sort_method, dpool(image@, pts@, w))
                }));
                assert(vals@.len() == pts@.len());
                let ghost acc0 = out@;
                let mut i: usize = 0;
                while i < pts.len()
                    invariant
                        image.wf(),
                        w == image.spec_width(),
                        width as int == image.spec_width(),
                        height as int == image.spec_height(),
                        forall|t: int|
                            0 <= t < pts@.len() ==> (#[trigger] pts@[t]).0 < width && pts@[t].1
                                < height,
                        vals@.len() == pts@.len(),
                        0 <= i <= pts@.len(),
                        out.wf(),
                        out.spec_width() == image.spec_width(),
                        out.spec_height() == image.spec_height(),
                        acc0.len() == image@.len(),
                        image@.len() == w * image.spec_height(),
                        out@ == dwrite(acc0, pts@, vals@, w, i as int),
                    decreases pts@.len() - i,
                {
                    let p = pts[i];
                    proof {
                        crate::raster::lemma_grid_index(
                            w,
                            image.spec_height(),
                            p.0 as int,
                            p.1 as int,
                        );
                        lemma_dwrite_len(acc0, pts@, vals@, w, i as int);
                    }
                    out.put_pixel(p.0, p.1, vals[i]);
                    i = i + 1;
                }
                proof {
                    assert(out@ == dinterval(
                        image@,
                        acc0,
                        start,
                        next,
                        skip_this,
                        *sort_method,
                        w,
                    ));
                }
                start = next;
                j = j + 1;
            }
        }
        y = y + 1;
    }
    out
}

/// Renders a diagonal plan with the documented per-interval randomness: an
/// interval is skipped exactly when a fresh uniform draw from `0 .. 100`
/// falls below the randomness rate.  Whatever the draws, the output is the
/// deterministic render under some skip grid; a rate of zero skips nothing
/// and a rate of one hundred skips everything, so it returns the input
/// unchanged.
pub fn get_sorted_image_raw2(
    image: &Raster,
    intervals: &Vec<Vec<(u32, u32)>>,
    randomness: u32,
    sort_method: &SortMethod,
) -> (out: Raster)
    requires
        image.wf(),
        valid_dplan(intervals@, image.spec_width(), image.spec_height()),
        randomness <= 100,
    ensures
        out.wf(),
        out.spec_width() == image.spec_width(),
        out.spec_height() == image.spec_height(),
        exists|sk: Seq<Seq<bool>>|
            {
                &&& #[trigger] dskips_ok(sk, intervals@)
                &&& (randomness == 0 ==> sk == no_dskips(intervals@))
                &&& (randomness == 100 ==> dskips_all_true(sk, intervals@))
                &&& out@ == drender_spec(image@, intervals@, sk, *sort_method, image.spec_width())
            },
        randomness == 0 ==> out@ == drender_spec(
            image@,
            intervals@,
            no_dskips(intervals@),
            *sort_method,
            image.spec_width(),
        ),
        randomness == 100 ==> out@ == image@,
{
    let mut skips: Vec<Vec<bool>> = Vec::new();
    let mut y: usize = 0;
    while y < intervals.len()
        invariant
            randomness <= 100,
            0 <= y <= intervals@.len(),
            skips@.len() == y,
            forall|i: int|
                0 <= i < y ==> (#[trigger] skips@[i])@.len() == (if intervals@[i]@.len() == 0 {
                    0int
                } else {
                    intervals@[i]@.len() - 1
                }),
            randomness == 0 ==> forall|i: int, k: int|
                0 <= i < y && 0 <= k < skips@[i]@.len() ==> (#[trigger] skips@[i]@[k]) == false,
            randomness == 100 ==> forall|i: int, k: int|
                0 <= i < y && 0 <= k < skips@[i]@.len() ==> (#[trigger] skips@[i]@[k]) == true,
        decreases intervals@.len() - y,
    {
        let len: usize = intervals[y].len();
        let n: usize = if len == 0 {
            0
        } else {
            len - 1
        };
        let mut rowsk: Vec<bool> = Vec::new();
        let mut k: usize = 0;
        while k < n
            invariant
                randomness <= 100,
                0 <= k <= n,
                rowsk@.len() == k,
                randomness == 0 ==> forall|i: int| 0 <= i < k ==> (#[trigger] rowsk@[i]) == false,
                randomness == 100 ==> forall|i: int| 0 <= i < k ==> (#[trigger] rowsk@[i]) == true,
            decreases n - k,
        {
            let s: bool = if randomness == 0 {
                false
            } else {
                rand_below(100) < randomness
            };
            rowsk.push(s);
            k = k + 1;
        }
        skips.push(rowsk);
        y = y + 1;
    }
    let out = get_sorted_image_raw2_with_skips(image, intervals, &skips, sort_method);
    proof {
        let sk = skips_view(skips@);
        assert(dskips_ok(sk, intervals@));
        if randomness == 0 {
            assert forall|yy: int| 0 <= yy < intervals@.len() implies sk[yy] == no_dskips(
                intervals@,
            )[yy] by {
                assert(sk[yy] =~= no_dskips(intervals@)[yy]);
            }
            assert(sk =~= no_dskips(intervals@));
        }
        if randomness == 100 {
            assert(dskips_all_true(sk, intervals@));
            lemma_drender_all_skip(
                image@,
                intervals@,
                sk,
                *sort_method,
                image.spec_width(),
                intervals@.len() as int,
            );
        }
    }
    out
}

/// Renders a raster under a partition plan: the single transformation the
/// core exposes.  All inputs are validated before any pixel work begins: a
/// randomness rate above one hundred, a mask whose dimensions differ from
/// the raster's (in horizontal mode, the only mode that applies a mask), or
/// a plan that does not fit the raster each yield their structured error.
/// On success the output raster has the input's dimensions and is the
/// rendered image under some per-interval skip grid drawn at the given rate.
pub fn get_sorted_image(
    image: &Raster,
    mask_data: Option<&Vec<Vec<bool>>>,
    intervals: &IntervalType,
    randomness: u32,
    sort_method: &SortMethod,
) -> (res: Result<Raster, SortError>)
    requires
        image.wf(),
    ensures
        match res {
            Ok(out) => {
                &&& randomness <= 100
                &&& out.wf()
                &&& out.spec_width() == image.spec_width()
                &&& out.spec_height() == image.spec_height()
                &&& (randomness == 100 ==> out@ == image@)
                &&& match *intervals {
                    IntervalType::HorizontalRow(rows) => {
                        &&& valid_hplan(rows@, image.spec_width())
                        &&& mask_wf(mask_view(mask_data), image.spec_width(), image.spec_height())
                        &&& exists|sk: Seq<Seq<bool>>|
                            {
                                &&& #[trigger] hskips_ok(sk, rows@)
                                &&& (randomness == 0 ==> sk == no_hskips(rows@))
                                &&& (randomness == 100 ==> hskips_all_true(sk, rows@))
                                &&& forall|x: int, y: int|
                                    0 <= x < image.spec_width() && 0 <= y < image.spec_height()
                                        ==> #[trigger] out.pixel_at(x, y) == hpixel_spec(
                                        *image,
                                        rows@,
                                        mask_view(mask_data),
                                        sk,
                                        *sort_method,
                                        x,
                                        y,
                                    )
                            }
                    },
                    IntervalType::DynamicLine(paths) => {
                        &&& valid_dplan(paths@, image.spec_width(), image.spec_height())
                        &&& exists|sk: Seq<Seq<bool>>|
                            {
                                &&& #[trigger] dskips_ok(sk, paths@)
                                &&& (randomness == 0 ==> sk == no_dskips(paths@))
                                &&& (randomness == 100 ==> dskips_all_true(sk, paths@))
                                &&& out@ == drender_spec(
                                    image@,
                                    paths@,
                                    sk,
                                    *sort_method,
                                    image.spec_width(),
                                )
                            }
                    },
                }
            },
            Err(e) => {
                &&& (e == SortError::RandomnessOutOfRange <==> randomness > 100)
                &&& (e == SortError::DimensionMismatch ==> randomness <= 100 && (
                *intervals matches IntervalType::HorizontalRow(_)) && !mask_wf(
                    mask_view(mask_data),
                    image.spec_width(),
                    image.spec_height(),
                ))
                &&& (e == SortError::InvalidPlan ==> randomness <= 100 && match *intervals {
                    IntervalType::HorizontalRow(rows) => mask_wf(
                        mask_view(mask_data),
                        image.spec_width(),
                        image.spec_height(),
                    ) && !valid_hplan(rows@, image.spec_width()),
                    IntervalType::DynamicLine(paths) => !valid_dplan(
                        paths@,
                        image.spec_width(),
                        image.spec_height(),
                    ),
                })
                &&& (e == SortError::RandomnessOutOfRange || e == SortError::DimensionMismatch
                    || e == SortError::InvalidPlan)
            },
        },
{
    if randomness > 100 {
        return Err(SortError::RandomnessOutOfRange);
    }
    let width = image.width();
    let height = image.height();
    match intervals {
        IntervalType::HorizontalRow(rows) => {
            if !check_mask(mask_data, width, height) {
                return Err(SortError::DimensionMismatch);
            }
            if !crate::interval::check_hplan(rows, width) {
                return Err(SortError::InvalidPlan);
            }
            Ok(get_sorted_image_raw(image, mask_data, rows, randomness, sort_method))
        },
        IntervalType::DynamicLine(paths) => {
            if !crate::interval::check_dplan(paths, width, height) {
                return Err(SortError::InvalidPlan);
            }
            Ok(get_sorted_image_raw2(image, paths, randomness, sort_method))
        },
    }
}

/// Sorts a raster in place under a horizontal plan: the raster afterwards
/// holds what `get_sorted_image_raw` returns for its old contents.
pub fn sort_image(
    image: &mut Raster,
    mask_data: Option<&Vec<Vec<bool>>>,
    intervals: &Vec<Vec<u32>>,
    randomness: u32,
    sort_method: &SortMethod,
)
    requires
        old(image).wf(),
        valid_hplan(intervals@, old(image).spec_width()),
        mask_wf(mask_view(mask_data), old(image).spec_width(), old(image).spec_height()),
        randomness <= 100,
    ensures
        final(image).wf(),
        final(image).spec_width() == old(image).spec_width(),
        final(image).spec_height() == old(image).spec_height(),
        exists|sk: Seq<Seq<bool>>|
            {
                &&& #[trigger] hskips_ok(sk, intervals@)
                &&& (randomness == 0 ==> sk == no_hskips(intervals@))
                &&& (randomness == 100 ==> hskips_all_true(sk, intervals@))
                &&& forall|x: int, y: int|
                    0 <= x < old(image).spec_width() && 0 <= y < old(image).spec_height()
                        ==> #[trigger] final(image).pixel_at(x, y) == hpixel_spec(
                        *old(image),
                        intervals@,
                        mask_view(mask_data),
                        sk,
                        *sort_method,
                        x,
                        y,
                    )
            },
        randomness == 100 ==> final(image)@ == old(image)@,
{
    let result = get_sorted_image_raw(image, mask_data, intervals, randomness, sort_method);
    *image = result;
}

/// A mask of the given dimensions in which every pixel is eligible, laid out
/// as rows of columns.
pub fn create_bool_2d_vector(width: usize, height: usize) -> (r: Vec<Vec<bool>>)
    ensures
        r@.len() == height,
        forall|y: int| 0 <= y < height ==> (#[trigger] r@[y])@.len() == width,
        forall|y: int, x: int| 0 <= y < height && 0 <= x < width ==> (#[trigger] r@[y]@[x]) == true,
{
    let mut bool_2d_vector: Vec<Vec<bool>> = Vec::new();
    let mut y: usize = 0;
    while y < height
        invariant
            0 <= y <= height,
            bool_2d_vector@.len() == y,
            forall|i: int| 0 <= i < y ==> (#[trigger] bool_2d_vector@[i])@.len() == width,
            forall|i: int, x: int|
                0 <= i < y && 0 <= x < width ==> (#[trigger] bool_2d_vector@[i]@[x]) == true,
        decreases height - y,
    {
        let row: Vec<bool> = vec![true; width];
        bool_2d_vector.push(row);
        y = y + 1;
    }
    bool_2d_vector
}

} // verus!
