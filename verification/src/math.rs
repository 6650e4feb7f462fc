use vstd::prelude::*;

use crate::raster::Raster;

verus! {

/// The distance between two grid coordinates.
pub open spec fn axis_dist(a: u32, b: u32) -> int {
    if b >= a {
        b - a
    } else {
        a - b
    }
}

/// Which axis the walk advances next: the one whose accumulated side
/// distance is smaller.  With `ax` steps charged to the x axis the side
/// distances compare as `ax / adx < ay / ady`, that is `ax * ady < ay * adx`.
/// An axis with no span never advances (its side distance is unbounded);
/// ties go to the y axis.
pub open spec fn step_is_x(adx: int, ady: int, ax: int, ay: int) -> bool {
    if adx == 0 {
        false
    } else if ady == 0 {
        true
    } else {
        ax * ady < ay * adx
    }
}

/// One coordinate moved a unit step toward the far endpoint, decrements
/// clamped at zero.
pub open spec fn stepped(c1: u32, c2: u32, cur: u32) -> u32 {
    if c2 >= c1 {
        (cur + 1) as u32
    } else if cur == 0 {
        0u32
    } else {
        (cur - 1) as u32
    }
}

/// A point lies beyond the far endpoint on some axis, in the direction the
/// walk moves on that axis.
pub open spec fn overshot(p1: (u32, u32), p2: (u32, u32), q: (u32, u32)) -> bool {
    ||| (p2.0 < p1.0 && q.0 < p2.0)
    ||| (p2.0 >= p1.0 && q.0 > p2.0)
    ||| (p2.1 < p1.1 && q.1 < p2.1)
    ||| (p2.1 >= p1.1 && q.1 > p2.1)
}

/// The walk's x-axis counter starts at one for a non-decreasing x span and
/// at zero otherwise, mirroring the initial side distances.
pub open spec fn ax_init(c1: u32, c2: u32) -> int {
    if c2 >= c1 {
        1
    } else {
        0
    }
}

/// The points the walk visits from `cur` until it reaches `p2` or steps past
/// it, `p2` itself excluded.  `fuel` bounds the recursion; the walk provably
/// ends before `walk_fuel` runs out.
pub open spec fn walk(
    p1: (u32, u32),
    p2: (u32, u32),
    cur: (u32, u32),
    ax: int,
    ay: int,
    fuel: nat,
) -> Seq<(u32, u32)>
    decreases fuel,
{
    if fuel == 0 || cur == p2 {
        Seq::empty()
    } else {
        let adx = axis_dist(p1.0, p2.0);
        let ady = axis_dist(p1.1, p2.1);
        if step_is_x(adx, ady, ax, ay) {
            let nxt = (stepped(p1.0, p2.0, cur.0), cur.1);
            if overshot(p1, p2, nxt) {
                seq![cur]
            } else {
                seq![cur] + walk(p1, p2, nxt, ax + 1, ay, (fuel - 1) as nat)
            }
        } else {
            let nxt = (cur.0, stepped(p1.1, p2.1, cur.1));
            if overshot(p1, p2, nxt) {
                seq![cur]
            } else {
                seq![cur] + walk(p1, p2, nxt, ax, ay + 1, (fuel - 1) as nat)
            }
        }
    }
}

/// Fuel that always outlasts the walk.
pub open spec fn walk_fuel(p1: (u32, u32), p2: (u32, u32)) -> nat {
    (2 * (axis_dist(p1.0, p2.0) + axis_dist(p1.1, p2.1)) + 8) as nat
}

/// The ordered sequence of grid points that the side-distance walk visits on
/// the straight segment from `p1` toward `p2`, starting at `p1` and
/// excluding `p2`.
pub open spec fn points_between_spec(p1: (u32, u32), p2: (u32, u32)) -> Seq<(u32, u32)> {
    walk(p1, p2, p1, ax_init(p1.0, p2.0), ax_init(p1.1, p2.1), walk_fuel(p1, p2))
}

/// `q` lies inside the bounding box of the segment from `p1` to `p2`.
pub open spec fn in_segment_box(p1: (u32, u32), p2: (u32, u32), q: (u32, u32)) -> bool {
    &&& if p2.0 >= p1.0 {
        p1.0 <= q.0 <= p2.0
    } else {
        p2.0 <= q.0 <= p1.0
    }
    &&& if p2.1 >= p1.1 {
        p1.1 <= q.1 <= p2.1
    } else {
        p2.1 <= q.1 <= p1.1
    }
}

/// A point inside a segment's bounding box lies inside any grid that holds
/// both endpoints: the walk can never leave the raster.
pub proof fn lemma_segment_box_in_grid(
    p1: (u32, u32),
    p2: (u32, u32),
    q: (u32, u32),
    w: int,
    h: int,
)
    requires
        in_segment_box(p1, p2, q),
        p1.0 < w,
        p2.0 < w,
        p1.1 < h,
        p2.1 < h,
    ensures
        q.0 < w,
        q.1 < h,
{
}

/// Finds every grid point from `p1` to `p2` in a direct line: a side-distance
/// walk that repeatedly advances one unit along the axis whose accumulated
/// side distance is smaller, and stops as soon as it reaches or would step
/// past `p2`.
///
/// The result is exactly `points_between_spec(p1, p2)`: empty when the
/// endpoints coincide, and otherwise a path that starts at `p1`, stays inside
/// the endpoints' bounding box, and whose last point is at most one step from
/// `p2` on each axis.
pub fn points_between(p1: &(u32, u32), p2: &(u32, u32)) -> (r: Vec<(u32, u32)>)
    ensures
        r@ == points_between_spec(*p1, *p2),
        *p1 == *p2 ==> r@.len() == 0,
        *p1 != *p2 ==> r@.len() >= 1 && r@[0] == *p1,
        forall|i: int| 0 <= i < r@.len() ==> in_segment_box(*p1, *p2, #[trigger] r@[i]),
        *p1 != *p2 ==> axis_dist(r@.last().0, p2.0) <= 1 && axis_dist(r@.last().1, p2.1) <= 1,
{
    let p1x = p1.0;
    let p1y = p1.1;
    let p2x = p2.0;
    let p2y = p2.1;
    let adx: u32 = if p2x >= p1x {
        p2x - p1x
    } else {
        p1x - p2x
    };
    let ady: u32 = if p2y >= p1y {
        p2y - p1y
    } else {
        p1y - p2y
    };
    let mut ax: u64 = if p2x >= p1x {
        1
    } else {
        0
    };
    let mut ay: u64 = if p2y >= p1y {
        1
    } else {
        0
    };
    let mut cur_x = p1x;
    let mut cur_y = p1y;
    let mut points: Vec<(u32, u32)> = Vec::new();
    let ghost mut fuel: int = walk_fuel(*p1, *p2) as int;

    while !(cur_x == p2x && cur_y == p2y)
        invariant_except_break
            p1x == p1.0 && p1y == p1.1 && p2x == p2.0 && p2y == p2.1,
            adx == axis_dist(p1x, p2x),
            ady == axis_dist(p1y, p2y),
            // positional relation and no-overshoot, x axis
            p2x >= p1x ==> cur_x == p1x + ax - 1 && cur_x <= p2x,
            p2x < p1x ==> p2x <= cur_x <= p1x && ax >= p1x - cur_x && (ax > p1x - cur_x
                ==> p2x == 0 && cur_x == 0),
            // positional relation and no-overshoot, y axis
            p2y >= p1y ==> cur_y == p1y + ay - 1 && cur_y <= p2y,
            p2y < p1y ==> p2y <= cur_y <= p1y && ay >= p1y - cur_y && (ay > p1y - cur_y
                ==> p2y == 0 && cur_y == 0),
            // counter bounds
            ax >= ax_init(p1x, p2x),
            ay >= ax_init(p1y, p2y),
            ay <= ady + 1,
            ax <= 2 * adx + 2,
            // fuel accounting
            fuel == walk_fuel(*p1, *p2) - (ax - ax_init(p1x, p2x)) - (ay - ax_init(p1y, p2y)),
            fuel >= 1,
            // the points collected so far, tied to the specification
            points@ + walk(*p1, *p2, (cur_x, cur_y), ax as int, ay as int, fuel as nat)
                == points_between_spec(*p1, *p2),
            forall|i: int| 0 <= i < points@.len() ==> in_segment_box(*p1, *p2, #[trigger] points@[i]),
            points@.len() == 0 ==> (cur_x, cur_y) == *p1,
            points@.len() > 0 ==> axis_dist(points@.last().0, cur_x) + axis_dist(
                points@.last().1,
                cur_y,
            ) <= 1,
        ensures
            points@ == points_between_spec(*p1, *p2),
            forall|i: int| 0 <= i < points@.len() ==> in_segment_box(*p1, *p2, #[trigger] points@[i]),
            points@.len() == 0 ==> *p1 == *p2,
            points@.len() > 0 ==> axis_dist(points@.last().0, p2.0) <= 1 && axis_dist(
                points@.last().1,
                p2.1,
            ) <= 1,
        decreases fuel,
    {
        points.push((cur_x, cur_y));
        let ghost cur_old: (u32, u32) = (cur_x, cur_y);
        let ghost ax_old: int = ax as int;
        let ghost ay_old: int = ay as int;
        let ghost fuel_old: int = fuel;

        proof {
            assert((ax as int) * (ady as int) <= (u64::MAX as int) * (u32::MAX as int))
                by (nonlinear_arith)
                requires
                    0 <= ax <= u64::MAX,
                    0 <= ady <= u32::MAX,
            ;
            assert((ay as int) * (adx as int) <= (u64::MAX as int) * (u32::MAX as int))
                by (nonlinear_arith)
                requires
                    0 <= ay <= u64::MAX,
                    0 <= adx <= u32::MAX,
            ;
        }
        let sx: bool = if adx == 0 {
            false
        } else if ady == 0 {
            true
        } else {
            (ax as u128) * (ady as u128) < (ay as u128) * (adx as u128)
        };
        assert(sx == step_is_x(adx as int, ady as int, ax as int, ay as int));

        let mut nx = cur_x;
        let mut ny = cur_y;
        if sx {
            // An x step is never chosen once the x coordinate has reached
            // `p2`'s, except to stall against the zero clamp.
            proof {
                if cur_x == p2x && !(p2x < p1x && p2x == 0) {
                    if ady == 0 {
                        assert(cur_y == p1y && p2y == p1y);
                        assert(false);
                    } else {
                        if p2x >= p1x {
                            assert(ax == adx + 1);
                            assert(ay >= ady + 1) by (nonlinear_arith)
                                requires
                                    (adx + 1) * ady < ay * adx,
                                    ady >= 1,
                                    adx >= 0,
                                    ay >= 0,
                            ;
                        } else {
                            assert(ax == adx);
                            assert(ay >= ady + 1) by (nonlinear_arith)
                                requires
                                    adx * ady < ay * adx,
                                    ady >= 1,
                                    ay >= 0,
                            ;
                        }
                        if p2y >= p1y {
                            assert(cur_y == p2y);
                        } else {
                            assert(p2y == 0 && cur_y == 0);
                        }
                        assert(false);
                    }
                }
            }
            if p2x >= p1x {
                assert(cur_x < p2x);
                nx = cur_x + 1;
            } else if cur_x > 0 {
                nx = cur_x - 1;
            } else {
                assert(p2x == 0);
                nx = 0;
            }
            proof {
                // the new counter keeps its bound
                if ady >= 1 {
                    assert(ax + 1 <= 2 * adx + 2) by (nonlinear_arith)
                        requires
                            ax * ady < ay * adx,
                            ay <= ady + 1,
                            ady >= 1,
                            adx >= 0,
                            ax >= 0,
                    ;
                } else {
                    assert(p2y == p1y && cur_y == p1y);
                    if p2x >= p1x {
                        assert(ax == cur_x - p1x + 1 <= adx);
                    } else {
                        assert(cur_x > p2x || (p2x == 0 && cur_x == 0));
                        if cur_x > p2x {
                            assert(ax == p1x - cur_x <= adx - 1);
                        } else {
                            assert((cur_x, cur_y) == *p2);
                            assert(false);
                        }
                    }
                }
            }
            ax = ax + 1;
        } else {
            // A y step is never chosen once the y coordinate has reached
            // `p2`'s while moving upward; moving downward it either breaks
            // just past `p2` or stalls against the zero clamp.
            proof {
                if adx == 0 {
                    assert(cur_x == p1x && p2x == p1x);
                    if p2y >= p1y && cur_y == p2y {
                        assert(false);
                    }
                    if p2y < p1y && cur_y == p2y && p2y != 0 {
                        assert(false);
                    }
                } else if p2y >= p1y && cur_y == p2y {
                    assert(ady >= 1 || (cur_x, cur_y) == *p2);
                    assert(ady >= 1 ==> ay == ady + 1);
                    if ady >= 1 {
                        assert(ax >= adx + 1) by (nonlinear_arith)
                            requires
                                !(ax * ady < (ady + 1) * adx),
                                ady >= 1,
                                adx >= 1,
                                ax >= 0,
                        ;
                        if p2x >= p1x {
                            assert(cur_x == p2x);
                        } else {
                            assert(p2x == 0 && cur_x == 0);
                        }
                        assert(false);
                    } else {
                        assert(false);
                    }
                }
            }
            if p2y >= p1y {
                assert(cur_y < p2y);
                ny = cur_y + 1;
            } else if cur_y > 0 {
                ny = cur_y - 1;
            } else {
                assert(p2y == 0);
                ny = 0;
            }
            proof {
                // the new counter keeps its bound
                if p2y >= p1y {
                    assert(ay + 1 <= ady + 1);
                } else if cur_y > p2y {
                    assert(ay == p1y - cur_y);
                    assert(ay + 1 <= ady + 1);
                } else {
                    // stalling or stepping past `p2` at `cur_y == p2y`
                    assert(cur_y == p2y);
                    assert(cur_x != p2x);
                    assert(ay == ady || (p2y == 0 && cur_y == 0));
                    if ay == ady + 1 {
                        assert(p2y == 0 && cur_y == 0);
                        assert(adx >= 1);
                        // x cannot be exhausted here, so its counter is
                        // still positional and the comparison caps `ay`
                        if p2x >= p1x {
                            assert(cur_x < p2x);
                            assert(ax <= adx);
                        } else {
                            assert(cur_x > p2x || (p2x == 0 && cur_x == 0));
                            if cur_x > p2x {
                                assert(ax <= adx);
                            } else {
                                assert(false);
                            }
                        }
                        assert(ay <= ady) by (nonlinear_arith)
                            requires
                                ay * adx <= ax * ady,
                                ax <= adx,
                                adx >= 1,
                                ady >= 0,
                                ay >= 0,
                        ;
                        assert(false);
                    }
                }
            }
            ay = ay + 1;
        }
        proof {
            fuel = fuel - 1;
        }

        let os: bool = (p2x < p1x && nx < p2x) || (p2x >= p1x && nx > p2x) || (p2y < p1y && ny
            < p2y) || (p2y >= p1y && ny > p2y);
        assert(os == overshot(*p1, *p2, (nx, ny)));
        assert(walk(*p1, *p2, cur_old, ax_old, ay_old, fuel_old as nat) == (if os {
            seq![cur_old]
        } else {
            seq![cur_old] + walk(*p1, *p2, (nx, ny), ax as int, ay as int, fuel as nat)
        }));

        if os {
            proof {
                // the only reachable overshoot: a downward y step just past
                // `p2` with the x coordinate one short of `p2`'s
                assert(!sx ==> ny != cur_y);
                if sx {
                    if p2x >= p1x {
                        assert(nx <= p2x);
                    } else {
                        assert(nx >= p2x);
                    }
                    assert(false);
                } else {
                    if p2y >= p1y {
                        assert(ny <= p2y);
                        assert(false);
                    }
                    assert(p2y < p1y && ny < p2y);
                    assert(cur_y == p2y && cur_y > 0);
                    assert(ay_old == ady);
                    assert(adx >= 1) by {
                        if adx == 0 {
                            assert(cur_x == p2x);
                            assert(false);
                        }
                    }
                    assert(ady >= 1);
                    assert(ax_old >= adx) by (nonlinear_arith)
                        requires
                            !((ax_old) * ady < ady * adx),
                            ady >= 1,
                            adx >= 1,
                            ax_old >= 0,
                    ;
                    if p2x >= p1x {
                        assert(cur_x != p2x);
                        assert(cur_x == p2x - 1);
                    } else {
                        if cur_x > p2x {
                            assert(ax_old <= adx - 1);
                            assert(false);
                        } else {
                            assert(cur_x == p2x && p2x == 0);
                            assert(false);
                        }
                    }
                    assert(axis_dist(cur_x, p2x) <= 1 && axis_dist(cur_y, p2y) <= 1);
                }
                assert(points@ == points_between_spec(*p1, *p2));
                assert(points@.last() == cur_old);
            }
            break;
        }

        cur_x = nx;
        cur_y = ny;
        proof {
            assert(fuel >= 1) by {
                assert(ax <= 2 * adx + 2 && ay <= ady + 1);
            }
            assert(axis_dist(cur_old.0, cur_x) + axis_dist(cur_old.1, cur_y) <= 1);
        }
    }

    proof {
        if points@.len() == 0 {
            assert(*p1 == *p2);
        }
        if *p1 != *p2 {
            assert(points_between_spec(*p1, *p2).len() >= 1 && points_between_spec(*p1, *p2)[0]
                == *p1) by {
                assert(walk_fuel(*p1, *p2) > 0);
                assert(points_between_spec(*p1, *p2)[0] == *p1);
            }
        }
    }
    points
}

/// Converts an auxiliary raster into a boolean foreground mask, indexed
/// `mask[x][y]`: a pixel is foreground exactly when its channel sum exceeds
/// `384` (half of the maximal sum `765`, as `128 * 3`).
pub fn to_binary_mask(image: &Raster) -> (mask: Vec<Vec<bool>>)
    requires
        image.wf(),
    ensures
        mask@.len() == image.spec_width(),
        forall|x: int| 0 <= x < mask@.len() ==> (#[trigger] mask@[x])@.len() == image.spec_height(),
        forall|x: int, y: int|
            0 <= x < image.spec_width() && 0 <= y < image.spec_height() ==> (#[trigger] mask@[x]@[y])
                == (image.pixel_at(x, y).r + image.pixel_at(x, y).g + image.pixel_at(x, y).b
                > 384),
{
    let width = image.width();
    let height = image.height();
    let mut mask: Vec<Vec<bool>> = Vec::new();
    let mut x: u32 = 0;
    while x < width
        invariant
            image.wf(),
            width as int == image.spec_width(),
            height as int == image.spec_height(),
            0 <= x <= width,
            mask@.len() == x,
            forall|i: int| 0 <= i < x ==> (#[trigger] mask@[i])@.len() == height,
            forall|i: int, y: int|
                0 <= i < x && 0 <= y < height ==> (#[trigger] mask@[i]@[y]) == (image.pixel_at(
                    i,
                    y,
                ).r + image.pixel_at(i, y).g + image.pixel_at(i, y).b > 384),
        decreases width - x,
    {
        let mut col: Vec<bool> = Vec::new();
        let mut y: u32 = 0;
        while y < height
            invariant
                image.wf(),
                width as int == image.spec_width(),
                height as int == image.spec_height(),
                0 <= x < width,
                0 <= y <= height,
                col@.len() == y,
                forall|j: int|
                    0 <= j < y ==> (#[trigger] col@[j]) == (image.pixel_at(x as int, j).r
                        + image.pixel_at(x as int, j).g + image.pixel_at(x as int, j).b > 384),
            decreases height - y,
        {
            let p = image.get_pixel(x, y);
            let intensity: u32 = (p.r as u32) + (p.g as u32) + (p.b as u32);
            col.push(intensity > 128 * 3);
            y = y + 1;
        }
        mask.push(col);
        x = x + 1;
    }
    mask
}

} // verus!
