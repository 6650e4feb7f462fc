use vstd::prelude::*;

use crate::color::{max3, max3_exec, min3, min3_exec};
use crate::math::axis_dist;
use crate::raster::{Raster, SortError};
use crate::rng::rand_below;

verus! {

/// A partition plan: per-row cut points for horizontal mode, or per-path
/// waypoint lists for diagonal mode.
pub enum IntervalType {
    HorizontalRow(Vec<Vec<u32>>),
    DynamicLine(Vec<Vec<(u32, u32)>>),
}

/// The interval-generation strategies.
pub enum Interval {
    Threshold,
    Random,
    EntireRow,
    AbsSinWave,
    Angle,
}

/// A row of cut points fits a raster of the given width: every cut point is
/// at most the width and the sequence never decreases.
pub open spec fn valid_cut_row(cuts: Seq<u32>, width: int) -> bool {
    &&& forall|i: int| 0 <= i < cuts.len() ==> #[trigger] cuts[i] <= width
    &&& forall|i: int| 0 <= i < cuts.len() - 1 ==> #[trigger] cuts[i] <= cuts[i + 1]
}

/// A horizontal plan fits a raster of the given width.
pub open spec fn valid_hplan(plan: Seq<Vec<u32>>, width: int) -> bool {
    forall|y: int| 0 <= y < plan.len() ==> valid_cut_row((#[trigger] plan[y])@, width)
}

/// A diagonal plan's waypoints all lie inside the raster.
pub open spec fn valid_dplan(plan: Seq<Vec<(u32, u32)>>, width: int, height: int) -> bool {
    forall|y: int, j: int|
        0 <= y < plan.len() && 0 <= j < plan[y]@.len() ==> (#[trigger] plan[y]@[j]).0 < width
            && plan[y]@[j].1 < height
}

/// Decides whether a horizontal plan fits a raster of the given width.
pub fn check_hplan(intervals: &Vec<Vec<u32>>, width: u32) -> (ok: bool)
    ensures
        ok == valid_hplan(intervals@, width as int),
{
    let mut y: usize = 0;
    while y < intervals.len()
        invariant
            0 <= y <= intervals@.len(),
            forall|i: int| 0 <= i < y ==> valid_cut_row((#[trigger] intervals@[i])@, width as int),
        decreases intervals@.len() - y,
    {
        let row = &intervals[y];
        let mut k: usize = 0;
        while k < row.len()
            invariant
                0 <= y < intervals@.len(),
                row@ == intervals@[y as int]@,
                0 <= k <= row@.len(),
                forall|i: int| 0 <= i < k ==> #[trigger] row@[i] <= width,
                forall|i: int| 0 <= i < k && i + 1 < row@.len() ==> #[trigger] row@[i] <= row@[i
                    + 1],
            decreases row@.len() - k,
        {
            if row[k] > width {
                assert(!valid_cut_row(row@, width as int));
                return false;
            }
            if k + 1 < row.len() && row[k] > row[k + 1] {
                assert(!valid_cut_row(row@, width as int));
                return false;
            }
            k = k + 1;
        }
        y = y + 1;
    }
    true
}

/// Decides whether a diagonal plan's waypoints all lie inside the raster.
pub fn check_dplan(plan: &Vec<Vec<(u32, u32)>>, width: u32, height: u32) -> (ok: bool)
    ensures
        ok == valid_dplan(plan@, width as int, height as int),
{
    let mut y: usize = 0;
    while y < plan.len()
        invariant
            0 <= y <= plan@.len(),
            forall|i: int, j: int|
                0 <= i < y && 0 <= j < (#[trigger] plan@[i])@.len() ==> (#[trigger] plan@[i]@[j]).0
                    < width && plan@[i]@[j].1 < height,
        decreases plan@.len() - y,
    {
        let row = &plan[y];
        let mut k: usize = 0;
        while k < row.len()
            invariant
                0 <= y < plan@.len(),
                row@ == plan@[y as int]@,
                0 <= k <= row@.len(),
                forall|j: int| 0 <= j < k ==> (#[trigger] row@[j]).0 < width && row@[j].1 < height,
            decreases row@.len() - k,
        {
            let p = row[k];
            if p.0 >= width || p.1 >= height {
                assert(plan@[y as int]@[k as int] == p);
                return false;
            }
            k = k + 1;
        }
        y = y + 1;
    }
    true
}

/// The plan in which every row is one full-width interval: cut points
/// `[0, width]` for every row.
pub open spec fn entire_row_plan(width: u32, height: int) -> Seq<Seq<u32>> {
    Seq::new(height as nat, |y: int| seq![0u32, width])
}

/// Horizontal plan with one interval spanning each row.
pub fn entire_row(image: &Raster) -> (r: Vec<Vec<u32>>)
    requires
        image.wf(),
    ensures
        r@.len() == image.spec_height(),
        forall|y: int| 0 <= y < r@.len() ==> (#[trigger] r@[y])@ == seq![0u32, (image.spec_width()) as u32],
        valid_hplan(r@, image.spec_width()),
{
    let width = image.width();
    let height = image.height();
    let mut intervals: Vec<Vec<u32>> = Vec::new();
    let mut y: u32 = 0;
    while y < height
        invariant
            0 <= y <= height,
            intervals@.len() == y,
            forall|i: int| 0 <= i < y ==> (#[trigger] intervals@[i])@ == seq![0u32, width],
        decreases height - y,
    {
        let mut row: Vec<u32> = Vec::new();
        row.push(0);
        row.push(width);
        assert(row@ =~= seq![0u32, width]);
        intervals.push(row);
        y = y + 1;
    }
    intervals
}

/// The interval length used by the stochastic strategies: a multiplier below
/// one is clamped to two.
pub open spec fn clamped_length(l: u32) -> u32 {
    if l < 1 {
        2
    } else {
        l
    }
}

/// A cut row produced by the `Random` strategy: strictly increasing positive
/// cut points that end exactly at `width` whenever the row is not empty, and
/// an empty row only for a zero-width raster.
pub open spec fn random_cut_row(cuts: Seq<u32>, width: u32) -> bool {
    &&& forall|i: int| 0 <= i < cuts.len() ==> 1 <= #[trigger] cuts[i] <= width
    &&& forall|i: int| 0 <= i < cuts.len() - 1 ==> #[trigger] cuts[i] < cuts[i + 1]
    &&& width > 0 ==> cuts.len() > 0 && cuts.last() == width
    &&& width == 0 ==> cuts.len() == 0
}

/// Horizontal plan of random-length runs: per row, the cursor repeatedly
/// advances by `round(length * u)` for a fresh uniform draw `u` in `[0, 1)`,
/// recording each advanced position as a cut point while it stays inside the
/// row, and closing the row at `width`.  A length below one is clamped to
/// two.  The cut positions are random; every row is nevertheless a strictly
/// increasing sequence of cut points ending at `width`.
pub fn random(image: &Raster, char_length: &u32) -> (r: Vec<Vec<u32>>)
    requires
        image.wf(),
    ensures
        r@.len() == image.spec_height(),
        forall|y: int| 0 <= y < r@.len() ==> random_cut_row((#[trigger] r@[y])@, (image.spec_width()) as u32),
        valid_hplan(r@, image.spec_width()),
{
    let width = image.width();
    let height = image.height();
    let length: u32 = if *char_length < 1 {
        2
    } else {
        *char_length
    };
    let mut intervals: Vec<Vec<u32>> = Vec::new();
    let mut y: u32 = 0;
    while y < height
        invariant
            0 <= y <= height,
            intervals@.len() == y,
            forall|i: int| 0 <= i < y ==> random_cut_row((#[trigger] intervals@[i])@, width),
        decreases height - y,
    {
        let mut row: Vec<u32> = Vec::new();
        let mut x: u32 = 0;
        let mut fuel: u64 = (width as u64) + 1;
        while fuel > 0
            invariant
                x <= width,
                row@.len() > 0 ==> row@.last() == x,
                row@.len() == 0 ==> x == 0,
                forall|i: int| 0 <= i < row@.len() ==> 1 <= #[trigger] row@[i] <= x,
                forall|i: int| 0 <= i < row@.len() - 1 ==> #[trigger] row@[i] < row@[i + 1],
            decreases fuel,
        {
            let draw = rand_below(16777216);
            proof {
                assert(2 * (length as int) * (draw as int) + 16777216 <= u64::MAX)
                    by (nonlinear_arith)
                    requires
                        0 <= length <= u32::MAX,
                        0 <= draw <= 16777216,
                ;
            }
            let inc64: u64 = (2 * (length as u64) * (draw as u64) + 16777216) / 33554432;
            proof {
                assert(inc64 <= length) by (nonlinear_arith)
                    requires
                        inc64 == (2 * (length as int) * (draw as int) + 16777216) / 33554432,
                        0 <= draw < 16777216,
                        0 <= length,
                ;
            }
            let inc: u32 = inc64 as u32;
            let nx64: u64 = (x as u64) + (inc as u64);
            if nx64 > (width as u64) {
                break;
            }
            if inc > 0 {
                x = nx64 as u32;
                row.push(x);
            }
            fuel = fuel - 1;
        }
        if x < width {
            row.push(width);
        }
        intervals.push(row);
        y = y + 1;
    }
    intervals
}

/// A pixel's lightness level falls where the `Threshold` strategy places a
/// cut: strictly inside the open band when not inclusive, strictly outside
/// the closed band when inclusive.  The level is `(max + min) / 510` and the
/// bounds are given in thousandths, so the comparisons are exact integer
/// cross-multiplications.
pub open spec fn threshold_cut(p: crate::raster::Pixel, lower: int, upper: int, inclusive: bool) -> bool {
    let s = max3(p.r as int, p.g as int, p.b as int) + min3(p.r as int, p.g as int, p.b as int);
    if !inclusive {
        s * 1000 > lower * 510 && s * 1000 < upper * 510
    } else {
        s * 1000 < lower * 510 || s * 1000 > upper * 510
    }
}

/// The cut positions of row `y` among columns `0 .. x`.
pub open spec fn threshold_cuts_upto(
    img: Raster,
    y: int,
    lower: int,
    upper: int,
    inclusive: bool,
    x: int,
) -> Seq<u32>
    decreases x,
{
    if x <= 0 {
        Seq::empty()
    } else {
        let prev = threshold_cuts_upto(img, y, lower, upper, inclusive, x - 1);
        if threshold_cut(img.pixel_at(x - 1, y), lower, upper, inclusive) {
            prev.push((x - 1) as u32)
        } else {
            prev
        }
    }
}

/// The finished cut row for row `y`: the cut positions, closed at `width`
/// when any cut was recorded short of it.  A row without cuts stays empty.
pub open spec fn threshold_row(img: Raster, y: int, lower: int, upper: int, inclusive: bool) -> Seq<
    u32,
> {
    let base = threshold_cuts_upto(img, y, lower, upper, inclusive, img.spec_width());
    if base.len() > 0 && base.last() < img.spec_width() {
        base.push((img.spec_width()) as u32)
    } else {
        base
    }
}

/// Horizontal plan cut by lightness thresholds, given in thousandths of full
/// scale.  Rows that produce no cut points stay empty.
pub fn threshold(image: &Raster, lower_threshold: &u32, upper_threshold: &u32, inclusive: &bool) -> (r:
    Vec<Vec<u32>>)
    requires
        image.wf(),
        *lower_threshold <= 1000,
        *upper_threshold <= 1000,
    ensures
        r@.len() == image.spec_height(),
        forall|y: int| 0 <= y < r@.len() ==> (#[trigger] r@[y])@ == threshold_row(
            *image,
            y,
            *lower_threshold as int,
            *upper_threshold as int,
            *inclusive,
        ),
        valid_hplan(r@, image.spec_width()),
{
    let width = image.width();
    let height = image.height();
    let mut intervals: Vec<Vec<u32>> = Vec::new();
    let mut y: u32 = 0;
    while y < height
        invariant
            image.wf(),
            width as int == image.spec_width(),
            height as int == image.spec_height(),
            *lower_threshold <= 1000,
            *upper_threshold <= 1000,
            0 <= y <= height,
            intervals@.len() == y,
            forall|i: int| 0 <= i < y ==> (#[trigger] intervals@[i])@ == threshold_row(
                *image,
                i,
                *lower_threshold as int,
                *upper_threshold as int,
                *inclusive,
            ),
            forall|i: int| 0 <= i < y ==> valid_cut_row((#[trigger] intervals@[i])@, width as int),
        decreases height - y,
    {
        let mut row: Vec<u32> = Vec::new();
        let mut x: u32 = 0;
        while x < width
            invariant
                image.wf(),
                width as int == image.spec_width(),
                height as int == image.spec_height(),
                *lower_threshold <= 1000,
                *upper_threshold <= 1000,
                0 <= y < height,
                0 <= x <= width,
                row@ == threshold_cuts_upto(
                    *image,
                    y as int,
                    *lower_threshold as int,
                    *upper_threshold as int,
                    *inclusive,
                    x as int,
                ),
                forall|i: int| 0 <= i < row@.len() ==> #[trigger] row@[i] < x,
                forall|i: int| 0 <= i < row@.len() - 1 ==> #[trigger] row@[i] < row@[i + 1],
            decreases width - x,
        {
            let p = image.get_pixel(x, y);
            let mx = max3_exec(p.r, p.g, p.b);
            let mn = min3_exec(p.r, p.g, p.b);
            let s: u32 = (mx as u32) + (mn as u32);
            let level1000: u32 = s * 1000;
            let lo510: u32 = *lower_threshold * 510;
            let up510: u32 = *upper_threshold * 510;
            let cut: bool = if !*inclusive {
                level1000 > lo510 && level1000 < up510
            } else {
                level1000 < lo510 || level1000 > up510
            };
            if cut {
                row.push(x);
            }
            x = x + 1;
        }
        if row.len() > 0 && *row.last().unwrap() < width {
            row.push(width);
        }
        intervals.push(row);
        y = y + 1;
    }
    intervals
}

/// The points a waypoint contributes to the path at horizontal offset `i`:
/// the waypoint shifted right by `i`, then the waypoint shifted left by `i`,
/// each kept exactly when the shifted column lies inside `[0, width)`.
pub open spec fn shifted_row_upto(line: Seq<(u32, u32)>, i: int, width: int, k: int) -> Seq<
    (u32, u32),
>
    decreases k,
{
    if k <= 0 {
        Seq::empty()
    } else {
        let prev = shifted_row_upto(line, i, width, k - 1);
        let p = line[k - 1];
        let with_right = if p.0 + i < width {
            prev.push(((p.0 + i) as u32, p.1))
        } else {
            prev
        };
        if p.0 - i >= 0 && p.0 - i < width {
            with_right.push(((p.0 - i) as u32, p.1))
        } else {
            with_right
        }
    }
}

/// The full path at horizontal offset `i`.
pub open spec fn shifted_row(line: Seq<(u32, u32)>, i: int, width: int) -> Seq<(u32, u32)> {
    shifted_row_upto(line, i, width, line.len() as int)
}

/// Extends one waypoint line into a family of parallel paths, one per
/// horizontal offset: offset `i` holds the waypoints shifted right by `i`
/// and then left by `i`, keeping exactly the shifted points that land inside
/// `[0, width)`.
pub fn extend_dynamic_line_interval_to_width(
    width: &u32,
    height: &u32,
    line: &Vec<(u32, u32)>,
) -> (r: Vec<Vec<(u32, u32)>>)
    ensures
        r@.len() == *width,
        forall|i: int| 0 <= i < r@.len() ==> (#[trigger] r@[i])@ == shifted_row(line@, i, *width as int),
{
    let mut intervals: Vec<Vec<(u32, u32)>> = Vec::new();
    let mut i: u32 = 0;
    while i < *width
        invariant
            0 <= i <= *width,
            intervals@.len() == i,
            forall|j: int| 0 <= j < i ==> (#[trigger] intervals@[j])@ == shifted_row(
                line@,
                j,
                *width as int,
            ),
        decreases *width - i,
    {
        let mut t2: Vec<(u32, u32)> = Vec::new();
        let mut k: usize = 0;
        while k < line.len()
            invariant
                0 <= k <= line@.len(),
                t2@ == shifted_row_upto(line@, i as int, *width as int, k as int),
            decreases line@.len() - k,
        {
            let p = line[k];
            if (p.0 as u64) + (i as u64) < (*width as u64) {
                t2.push((p.0 + i, p.1));
            }
            if p.0 >= i && p.0 - i < *width {
                t2.push((p.0 - i, p.1));
            }
            k = k + 1;
        }
        intervals.push(t2);
        i = i + 1;
    }
    intervals
}

/// The vertical drop of the swept path at offset `i`, for a generating
/// segment with spans `dx` and `dy`: `i * dy / dx`, subtracted from the
/// segment end's row and clamped at the top of the raster.  A vertical
/// segment keeps its end row at offset zero and drops to row zero elsewhere.
pub open spec fn angle_out_y(next_y: u32, i: int, dx: int, dy: int) -> u32 {
    if dx == 0 {
        if i == 0 {
            next_y
        } else {
            0u32
        }
    } else {
        let sh = i * dy / dx;
        if sh > next_y {
            0u32
        } else {
            (next_y - sh) as u32
        }
    }
}

/// The two waypoints one generating pair contributes to the path at offset
/// `i`.
pub open spec fn angle_pair_pts(a: (u32, u32), b: (u32, u32), i: int, width: int) -> Seq<
    (u32, u32),
> {
    let dx = axis_dist(a.0, b.0);
    let dy = axis_dist(a.1, b.1);
    let x0: u32 = if dx > i {
        0u32
    } else {
        (i - dx) as u32
    };
    seq![(x0, angle_out_y(b.1, i, dx, dy)), (i as u32, b.1)]
}

/// The path at offset `i` after the first `k` generating pairs.
pub open spec fn angle_row_upto(line: Seq<(u32, u32)>, i: int, width: int, k: int) -> Seq<
    (u32, u32),
>
    decreases k,
{
    if k <= 0 {
        Seq::empty()
    } else {
        angle_row_upto(line, i, width, k - 1) + angle_pair_pts(line[k - 1], line[k], i, width)
    }
}

/// The full path at offset `i` for a generating line.
pub open spec fn angle_row(line: Seq<(u32, u32)>, i: int, width: int) -> Seq<(u32, u32)> {
    if line.len() == 0 {
        Seq::empty()
    } else {
        angle_row_upto(line, i, width, line.len() - 1)
    }
}

/// Extends a generating segment line into a family of sloped paths, one per
/// column offset: each consecutive waypoint pair contributes, at offset `i`,
/// a start point shifted by the pair's horizontal span and dropped by
/// `i * dy / dx` rows, and an end point at column `i` on the pair's end row.
pub fn extend_dynamic_line_interval_to_width_2(
    width: &u32,
    height: &u32,
    line: &Vec<(u32, u32)>,
) -> (r: Vec<Vec<(u32, u32)>>)
    ensures
        line@.len() == 0 ==> r@.len() == 0,
        line@.len() > 0 ==> r@.len() == *width,
        forall|i: int| 0 <= i < r@.len() ==> (#[trigger] r@[i])@ == angle_row(line@, i, *width as int),
{
    let mut intervals: Vec<Vec<(u32, u32)>> = Vec::new();
    if line.len() < 1 {
        return intervals;
    }
    let mut i: u32 = 0;
    while i < *width
        invariant
            line@.len() >= 1,
            0 <= i <= *width,
            intervals@.len() == i,
            forall|j: int| 0 <= j < i ==> (#[trigger] intervals@[j])@ == angle_row(
                line@,
                j,
                *width as int,
            ),
        decreases *width - i,
    {
        let mut path: Vec<(u32, u32)> = Vec::new();
        let mut k: usize = 1;
        while k < line.len()
            invariant
                line@.len() >= 1,
                1 <= k <= line@.len(),
                path@ == angle_row_upto(line@, i as int, *width as int, k - 1),
            decreases line@.len() - k,
        {
            let start = line[k - 1];
            let next = line[k];
            let dist_x: u32 = if next.0 >= start.0 {
                next.0 - start.0
            } else {
                start.0 - next.0
            };
            let dist_y: u32 = if next.1 >= start.1 {
                next.1 - start.1
            } else {
                start.1 - next.1
            };
            let out_y: u32 = if dist_x == 0 {
                if i == 0 {
                    next.1
                } else {
                    0
                }
            } else {
                proof {
                    crate::frac::lemma_u32_mul_fits(i, dist_y);
                }
                let sh64: u64 = (i as u64) * (dist_y as u64) / (dist_x as u64);
                if sh64 > (next.1 as u64) {
                    0
                } else {
                    next.1 - (sh64 as u32)
                }
            };
            let x0: u32 = if dist_x > i {
                0
            } else {
                i - dist_x
            };
            path.push((x0, out_y));
            path.push((i, next.1));
            proof {
                assert(path@ =~= angle_row_upto(line@, i as int, *width as int, k as int));
            }
            k = k + 1;
        }
        intervals.push(path);
        i = i + 1;
    }
    intervals
}

/// The zig-zag amplitude at the `k`-th waypoint: `round(|sin(k * pi / 4)| * 100)`,
/// which cycles with period eight through 0, 71, 100 and 71 (the sine of a
/// multiple of a quarter turn is 0, one, or half the square root of two, and
/// `round(70.71...) == 71`).
pub open spec fn sin_amp(k: int) -> u32 {
    let r = k % 8;
    if r == 0 || r == 4 {
        0u32
    } else if r == 2 || r == 6 {
        100u32
    } else {
        71u32
    }
}

/// The zig-zag generating waypoints: one per `step` rows, at the sampled
/// amplitude.
pub open spec fn sin_waypoints(height: int, step: int) -> Seq<(u32, u32)> {
    if height <= 0 || step <= 0 {
        Seq::empty()
    } else {
        Seq::new((((height - 1) / step) + 1) as nat, |k: int| (sin_amp(k), (k * step) as u32))
    }
}

/// Diagonal plan tracing an absolute sine wave: waypoints sampled every
/// `char_length` rows at amplitude `round(|sin(k * pi / 4)| * 100)`, extended
/// into a full-width family of parallel paths.  A length below one is
/// clamped to two.
pub fn sin_wave(image: &Raster, char_length: &u32) -> (r: Vec<Vec<(u32, u32)>>)
    requires
        image.wf(),
    ensures
        r@.len() == image.spec_width(),
        forall|i: int| 0 <= i < r@.len() ==> (#[trigger] r@[i])@ == shifted_row(
            sin_waypoints(image.spec_height(), clamped_length(*char_length) as int),
            i,
            image.spec_width(),
        ),
{
    let width = image.width();
    let height = image.height();
    let step: u32 = if *char_length < 1 {
        2
    } else {
        *char_length
    };
    let mut waypoints: Vec<(u32, u32)> = Vec::new();
    let mut y: u64 = 0;
    let mut k: u64 = 0;
    while y < (height as u64)
        invariant
            step >= 1,
            height as int <= u32::MAX,
            y == k * step,
            k > 0 ==> (k - 1) * step < height,
            waypoints@.len() == k,
            forall|j: int| 0 <= j < k ==> #[trigger] waypoints@[j] == (
                sin_amp(j),
                (j * step) as u32,
            ),
        decreases height as int + step as int - y as int,
    {
        let rem: u64 = k % 8;
        let amp: u32 = if rem == 0 || rem == 4 {
            0
        } else if rem == 2 || rem == 6 {
            100
        } else {
            71
        };
        assert(amp == sin_amp(k as int));
        waypoints.push((amp, y as u32));
        proof {
            assert((k + 1) * step == k * step + step) by (nonlinear_arith);
            assert(y + step <= u64::MAX) by (nonlinear_arith)
                requires
                    y == k * step,
                    y < height,
                    height <= u32::MAX,
                    1 <= step <= u32::MAX,
            ;
        }
        y = y + step as u64;
        proof {
            assert(k + 1 <= y) by (nonlinear_arith)
                requires
                    y == (k + 1) * step,
                    step >= 1,
                    k >= 0,
            ;
        }
        k = k + 1;
    }
    proof {
        if height > 0 {
            assert(k >= 1);
            assert((k - 1) * step <= height - 1 && height - 1 < k * step);
            assert((height - 1) / (step as int) == k - 1) by (nonlinear_arith)
                requires
                    (k - 1) * step <= height - 1,
                    height - 1 < k * step,
                    step >= 1,
                    k >= 1,
            ;
            assert(waypoints@ =~= sin_waypoints(height as int, step as int));
        } else {
            assert(waypoints@ =~= sin_waypoints(height as int, step as int));
        }
    }
    extend_dynamic_line_interval_to_width(&width, &height, &waypoints)
}

/// Produces the partition plan for the selected strategy.  Threshold bounds
/// are validated against their documented range before any pixel work, and a
/// generating segment for the `Angle` strategy must lie inside the raster.
/// The segment itself (`angle_line`) is computed by the caller from the
/// sweep angle, since it takes real trigonometry; a normalized angle above
/// ninety degrees yields the empty plan.
pub fn get_interval(
    interval_method: &Interval,
    image: &Raster,
    char_length: &u32,
    lower_threshold: &u32,
    upper_threshold: &u32,
    angle: &u32,
    threshold_inclusive: &bool,
    angle_line: &Vec<(u32, u32)>,
) -> (res: Result<IntervalType, SortError>)
    requires
        image.wf(),
    ensures
        match res {
            Ok(plan) => {
                &&& match *interval_method {
                    Interval::Threshold => *lower_threshold <= 1000 && *upper_threshold <= 1000
                        && (plan matches IntervalType::HorizontalRow(rows) && rows@.len()
                        == image.spec_height() && (forall|y: int|
                        0 <= y < rows@.len() ==> (#[trigger] rows@[y])@ == threshold_row(
                            *image,
                            y,
                            *lower_threshold as int,
                            *upper_threshold as int,
                            *threshold_inclusive,
                        )) && valid_hplan(rows@, image.spec_width())),
                    Interval::Random => plan matches IntervalType::HorizontalRow(rows)
                        && rows@.len() == image.spec_height() && (forall|y: int|
                        0 <= y < rows@.len() ==> random_cut_row(
                            (#[trigger] rows@[y])@,
                            (image.spec_width()) as u32,
                        )) && valid_hplan(rows@, image.spec_width()),
                    Interval::EntireRow => plan matches IntervalType::HorizontalRow(rows)
                        && rows@.len() == image.spec_height() && (forall|y: int|
                        0 <= y < rows@.len() ==> (#[trigger] rows@[y])@ == seq![
                            0u32,
                            (image.spec_width()) as u32,
                        ]) && valid_hplan(rows@, image.spec_width()),
                    Interval::AbsSinWave => plan matches IntervalType::DynamicLine(paths)
                        && paths@.len() == image.spec_width() && (forall|i: int|
                        0 <= i < paths@.len() ==> (#[trigger] paths@[i])@ == shifted_row(
                            sin_waypoints(
                                image.spec_height(),
                                clamped_length(*char_length) as int,
                            ),
                            i,
                            image.spec_width(),
                        )),
                    Interval::Angle => plan matches IntervalType::DynamicLine(paths) && (
                    if *angle % 180 > 90 {
                        paths@.len() == 0
                    } else {
                        (forall|j: int|
                            0 <= j < angle_line@.len() ==> (#[trigger] angle_line@[j]).1
                                < image.spec_height()) && (angle_line@.len() == 0 ==> paths@.len()
                            == 0) && (angle_line@.len() > 0 ==> paths@.len()
                            == image.spec_width()) && (forall|i: int|
                            0 <= i < paths@.len() ==> (#[trigger] paths@[i])@ == angle_row(
                                angle_line@,
                                i,
                                image.spec_width(),
                            ))
                    }),
                }
            },
            Err(e) => {
                &&& e == SortError::ThresholdOutOfRange ==> (*interval_method matches Interval::Threshold)
                    && (*lower_threshold > 1000 || *upper_threshold > 1000)
                &&& e == SortError::InvalidPlan ==> (*interval_method matches Interval::Angle) && *angle % 180
                    <= 90 && exists|j: int|
                    0 <= j < angle_line@.len() && (#[trigger] angle_line@[j]).1
                        >= image.spec_height()
                &&& (e == SortError::ThresholdOutOfRange || e == SortError::InvalidPlan)
            },
        },
{
    match interval_method {
        Interval::Threshold => {
            if *lower_threshold > 1000 || *upper_threshold > 1000 {
                return Err(SortError::ThresholdOutOfRange);
            }
            Ok(IntervalType::HorizontalRow(threshold(
                image,
                lower_threshold,
                upper_threshold,
                threshold_inclusive,
            )))
        },
        Interval::Random => Ok(IntervalType::HorizontalRow(random(image, char_length))),
        Interval::EntireRow => Ok(IntervalType::HorizontalRow(entire_row(image))),
        Interval::AbsSinWave => Ok(IntervalType::DynamicLine(sin_wave(image, char_length))),
        Interval::Angle => {
            if *angle % 180 > 90 {
                return Ok(IntervalType::DynamicLine(Vec::new()));
            }
            let height = image.height();
            let mut j: usize = 0;
            while j < angle_line.len()
                invariant
                    *interval_method matches Interval::Angle,
                    *angle % 180 <= 90,
                    height as int == image.spec_height(),
                    0 <= j <= angle_line@.len(),
                    forall|i: int| 0 <= i < j ==> (#[trigger] angle_line@[i]).1 < height,
                decreases angle_line@.len() - j,
            {
                if angle_line[j].1 >= height {
                    assert((angle_line@[j as int]).1 >= image.spec_height());
                    return Err(SortError::InvalidPlan);
                }
                j = j + 1;
            }
            let width = image.width();
            Ok(IntervalType::DynamicLine(extend_dynamic_line_interval_to_width_2(
                &width,
                &height,
                angle_line,
            )))
        },
    }
}

} // verus!
