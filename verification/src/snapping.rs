use vstd::prelude::*;

use crate::display::{div_round, rounded_size, Display};

verus! {

pub open spec fn distance(a: i32, b: i32) -> int {
    if a >= b {
        a - b
    } else {
        b - a
    }
}

/// A threshold read as `u32`: negative thresholds wrap to large ones.
pub open spec fn threshold_bound(threshold: i32) -> int {
    if threshold >= 0 {
        threshold as int
    } else {
        threshold + 4294967296
    }
}

/// The index of the first of `candidates` nearest to `value`.
pub open spec fn nearest_index(candidates: Seq<i32>, value: i32) -> int
    decreases candidates.len(),
{
    if candidates.len() <= 1 {
        0
    } else {
        let k = nearest_index(candidates.drop_last(), value);
        if distance(candidates.last(), value) < distance(candidates[k], value) {
            candidates.len() - 1
        } else {
            k
        }
    }
}

/// The nearest candidate (the first of the nearest) when it lies within the
/// threshold, else `value`.
pub open spec fn nearest_within_spec(value: i32, candidates: Seq<i32>, threshold: i32) -> i32 {
    if candidates.len() == 0 {
        value
    } else {
        let c = candidates[nearest_index(candidates, value)];
        if distance(c, value) <= threshold_bound(threshold) {
            c
        } else {
            value
        }
    }
}

/// `nearest_index` picks a nearest candidate, and no earlier one is as near.
pub proof fn lemma_nearest_index(candidates: Seq<i32>, value: i32)
    requires
        candidates.len() > 0,
    ensures
        0 <= nearest_index(candidates, value) < candidates.len(),
        forall|j: int|
            0 <= j < candidates.len() ==> distance(
                candidates[nearest_index(candidates, value)],
                value,
            ) <= distance(#[trigger] candidates[j], value),
        forall|j: int|
            0 <= j < nearest_index(candidates, value) ==> distance(
                candidates[nearest_index(candidates, value)],
                value,
            ) < distance(#[trigger] candidates[j], value),
    decreases candidates.len(),
{
    if candidates.len() > 1 {
        let prefix = candidates.drop_last();
        lemma_nearest_index(prefix, value);
        let k = nearest_index(prefix, value);
        assert(prefix[k] == candidates[k]);
        assert forall|j: int| 0 <= j < candidates.len() - 1 implies #[trigger] candidates[j]
            == prefix[j] by {}
    }
}

fn gap(a: i32, b: i32) -> (res: i64)
    ensures
        res == distance(a, b),
{
    if a >= b {
        a as i64 - b as i64
    } else {
        b as i64 - a as i64
    }
}

/// Snaps `value` to the nearest of `candidates` when that one lies within
/// `threshold` (read as `u32`); among equally near candidates the first wins.
pub fn nearest_within(value: i32, candidates: &[i32], threshold: i32) -> (res: i32)
    ensures
        res == nearest_within_spec(value, candidates@, threshold),
        res == value || candidates@.contains(res),
        distance(res, value) <= threshold_bound(threshold),
{
    let n = candidates.len();
    if n == 0 {
        return value;
    }
    let ghost c = candidates@;
    let mut best: usize = 0;
    let mut i: usize = 1;
    while i < n
        invariant
            n == c.len(),
            c == candidates@,
            1 <= i <= n,
            best == nearest_index(c.take(i as int), value),
            best < i,
        decreases n - i,
    {
        let here = candidates[i];
        let cur = candidates[best];
        let d_here = gap(here, value);
        let d_best = gap(cur, value);
        proof {
            let t = c.take(i + 1);
            assert(t.drop_last() =~= c.take(i as int));
            assert(t.last() == here);
            assert(t[best as int] == cur);
            assert(c.take(i as int)[best as int] == cur);
        }
        if d_here < d_best {
            best = i;
        }
        i = i + 1;
    }
    assert(c.take(n as int) =~= c);
    proof {
        lemma_nearest_index(c, value);
    }
    let chosen = candidates[best];
    let bound: i64 = if threshold >= 0 {
        threshold as i64
    } else {
        threshold as i64 + 4294967296
    };
    if gap(chosen, value) <= bound {
        chosen
    } else {
        value
    }
}

/// The rounded logical size of `d` along `axis` (0 for width, 1 for height).
pub open spec fn axis_size(d: Display, axis: int) -> int {
    if axis == 0 {
        rounded_size(d).0 as int
    } else {
        rounded_size(d).1 as int
    }
}

/// The edges of `d` along `axis`, and the positions that put a display of
/// size `moving` flush against them: near edge, far edge, near edge minus
/// `moving`, far edge minus `moving`.
pub open spec fn edge_values(d: Display, moving: int, axis: int) -> Seq<int> {
    let lo = d.position[axis] as int;
    let hi = lo + axis_size(d, axis);
    seq![lo, hi, lo - moving, hi - moving]
}

/// The snapping targets along `axis` offered by `ds[..n]` to the display at
/// `moving_index`, in display order.
pub open spec fn snap_targets(ds: Seq<Display>, moving_index: int, axis: int, n: int) -> Seq<int>
    decreases n,
{
    if n <= 0 {
        Seq::empty()
    } else {
        let prev = snap_targets(ds, moving_index, axis, n - 1);
        if n - 1 == moving_index {
            prev
        } else {
            prev + edge_values(ds[n - 1], axis_size(ds[moving_index], axis), axis)
        }
    }
}

/// The rounded logical size of `d` along `axis` (width for 0, height for 1).
pub open spec fn extent(d: Display, axis: int) -> int {
    if axis == 0 {
        rounded_size(d).0 as int
    } else {
        rounded_size(d).1 as int
    }
}

/// `v` puts a display of size `mv` flush with an edge of `d` along `axis`:
/// it is `d`'s near edge or far edge, or one of them minus `mv`.
pub open spec fn flush_with(v: int, d: Display, mv: int, axis: int) -> bool {
    let lo = d.position[axis] as int;
    let hi = lo + extent(d, axis);
    v == lo || v == hi || v == lo - mv || v == hi - mv
}

/// There are four snapping targets for each display other than the moving
/// one.
pub proof fn lemma_snap_targets_len(ds: Seq<Display>, moving: int, axis: int, n: int)
    requires
        0 <= moving < ds.len(),
        0 <= n <= ds.len(),
    ensures
        snap_targets(ds, moving, axis, n).len() == 4 * (if moving < n {
            n - 1
        } else {
            n
        }),
    decreases n,
{
    if n > 0 {
        lemma_snap_targets_len(ds, moving, axis, n - 1);
    }
}

/// Each display other than the moving one offers as snapping targets along
/// `axis` its near edge, its far edge (near edge plus its rounded logical
/// size), and both minus the moving display's rounded logical size, so that
/// the moving display can sit flush on either side of either edge.
pub proof fn lemma_snap_targets_offer_all_edges(ds: Seq<Display>, moving: int, axis: int, n: int, j: int)
    requires
        0 <= moving < ds.len(),
        0 <= j < n <= ds.len(),
        j != moving,
        axis == 0 || axis == 1,
    ensures
        ({
            let lo = ds[j].position[axis] as int;
            let hi = lo + extent(ds[j], axis);
            let mv = extent(ds[moving], axis);
            let t = snap_targets(ds, moving, axis, n);
            &&& t.contains(lo)
            &&& t.contains(hi)
            &&& t.contains(lo - mv)
            &&& t.contains(hi - mv)
        }),
    decreases n,
{
    let lo = ds[j].position[axis] as int;
    let hi = lo + extent(ds[j], axis);
    let mv = extent(ds[moving], axis);
    let prev = snap_targets(ds, moving, axis, n - 1);
    let t = snap_targets(ds, moving, axis, n);
    if j == n - 1 {
        let e = edge_values(ds[j], axis_size(ds[moving], axis), axis);
        assert(t == prev + e);
        assert(t[prev.len() as int] == lo);
        assert(t[prev.len() as int + 1] == hi);
        assert(t[prev.len() as int + 2] == lo - mv);
        assert(t[prev.len() as int + 3] == hi - mv);
    } else {
        lemma_snap_targets_offer_all_edges(ds, moving, axis, n - 1, j);
        if n - 1 != moving {
            let e = edge_values(ds[n - 1], axis_size(ds[moving], axis), axis);
            assert(t == prev + e);
            let i0 = choose|i: int| 0 <= i < prev.len() && prev[i] == lo;
            let i1 = choose|i: int| 0 <= i < prev.len() && prev[i] == hi;
            let i2 = choose|i: int| 0 <= i < prev.len() && prev[i] == lo - mv;
            let i3 = choose|i: int| 0 <= i < prev.len() && prev[i] == hi - mv;
            assert(t[i0] == prev[i0]);
            assert(t[i1] == prev[i1]);
            assert(t[i2] == prev[i2]);
            assert(t[i3] == prev[i3]);
        }
    }
}

/// Every snapping target along `axis` is an edge of a display other than
/// the moving one, or such an edge minus the moving display's size.
pub proof fn lemma_snap_targets_only_edges(ds: Seq<Display>, moving: int, axis: int, n: int, k: int)
    requires
        0 <= moving < ds.len(),
        0 <= n <= ds.len(),
        0 <= k < snap_targets(ds, moving, axis, n).len(),
        axis == 0 || axis == 1,
    ensures
        exists|j: int|
            0 <= j < n && j != moving && flush_with(
                snap_targets(ds, moving, axis, n)[k],
                #[trigger] ds[j],
                extent(ds[moving], axis),
                axis,
            ),
    decreases n,
{
    let prev = snap_targets(ds, moving, axis, n - 1);
    let t = snap_targets(ds, moving, axis, n);
    let mv = extent(ds[moving], axis);
    if n - 1 == moving {
        lemma_snap_targets_only_edges(ds, moving, axis, n - 1, k);
    } else {
        let e = edge_values(ds[n - 1], axis_size(ds[moving], axis), axis);
        assert(t == prev + e);
        if k < prev.len() {
            lemma_snap_targets_only_edges(ds, moving, axis, n - 1, k);
            assert(t[k] == prev[k]);
            let j = choose|j: int|
                0 <= j < n - 1 && j != moving && flush_with(prev[k], #[trigger] ds[j], mv, axis);
            assert(flush_with(t[k], ds[j], mv, axis));
        } else {
            assert(flush_with(t[k], ds[n - 1], mv, axis));
        }
    }
}

pub open spec fn fits_i32(v: int) -> bool {
    i32::MIN <= v <= i32::MAX
}

/// Every snapping target lies within `i32`.
pub open spec fn snap_fits(ds: Seq<Display>, moving_index: int) -> bool {
    forall|i: int, axis: int, k: int|
        0 <= i < ds.len() && i != moving_index && 0 <= axis < 2 && 0 <= k < 4 ==> fits_i32(
            #[trigger] edge_values(ds[i], axis_size(ds[moving_index], axis), axis)[k],
        )
}

pub open spec fn as_i32s(s: Seq<int>) -> Seq<i32> {
    s.map_values(|v: int| v as i32)
}

/// Where a dragged display lands: each coordinate of `proposed` snaps to the
/// nearest edge alignment with another display (edges flush or aligned)
/// when one lies within `threshold`. An out-of-range index gives `proposed`.
pub fn snap_position_to_displays(
    displays: &[Display],
    moving_index: usize,
    proposed: [i32; 2],
    threshold: i32,
) -> (res: [i32; 2])
    requires
        moving_index < displays@.len() ==> snap_fits(displays@, moving_index as int),
    ensures
        moving_index >= displays@.len() ==> res == proposed,
        moving_index < displays@.len() ==> res[0] == nearest_within_spec(
            proposed[0],
            as_i32s(snap_targets(displays@, moving_index as int, 0, displays@.len() as int)),
            threshold,
        ) && res[1] == nearest_within_spec(
            proposed[1],
            as_i32s(snap_targets(displays@, moving_index as int, 1, displays@.len() as int)),
            threshold,
        ),
        distance(res[0], proposed[0]) <= threshold_bound(threshold),
        distance(res[1], proposed[1]) <= threshold_bound(threshold),
{
    let n = displays.len();
    if moving_index >= n {
        return proposed;
    }
    let ghost ds = displays@;
    let moving_size = displays[moving_index].rounded_logical_size();
    let mut xs: Vec<i32> = Vec::new();
    let mut ys: Vec<i32> = Vec::new();
    let mut index: usize = 0;
    while index < n
        invariant
            n == ds.len(),
            ds == displays@,
            moving_index < n,
            index <= n,
            snap_fits(ds, moving_index as int),
            moving_size[0] == axis_size(ds[moving_index as int], 0),
            moving_size[1] == axis_size(ds[moving_index as int], 1),
            xs@ == as_i32s(snap_targets(ds, moving_index as int, 0, index as int)),
            ys@ == as_i32s(snap_targets(ds, moving_index as int, 1, index as int)),
        decreases n - index,
    {
        if index != moving_index {
            let other = &displays[index];
            let other_size = other.rounded_logical_size();
            let ghost ex = edge_values(ds[index as int], axis_size(ds[moving_index as int], 0), 0);
            let ghost ey = edge_values(ds[index as int], axis_size(ds[moving_index as int], 1), 1);
            assert(fits_i32(ex[0]) && fits_i32(ex[1]) && fits_i32(ex[2]) && fits_i32(ex[3]));
            assert(fits_i32(ey[0]) && fits_i32(ey[1]) && fits_i32(ey[2]) && fits_i32(ey[3]));
            let left = other.position[0];
            let right = left + other_size[0];
            let top = other.position[1];
            let bottom = top + other_size[1];
            xs.push(left);
            xs.push(right);
            xs.push(left - moving_size[0]);
            xs.push(right - moving_size[0]);
            ys.push(top);
            ys.push(bottom);
            ys.push(top - moving_size[1]);
            ys.push(bottom - moving_size[1]);
            assert(xs@ =~= as_i32s(snap_targets(ds, moving_index as int, 0, index + 1)));
            assert(ys@ =~= as_i32s(snap_targets(ds, moving_index as int, 1, index + 1)));
        } else {
            assert(snap_targets(ds, moving_index as int, 0, index + 1) == snap_targets(
                ds,
                moving_index as int,
                0,
                index as int,
            ));
            assert(snap_targets(ds, moving_index as int, 1, index + 1) == snap_targets(
                ds,
                moving_index as int,
                1,
                index as int,
            ));
        }
        index = index + 1;
    }
    [
        nearest_within(proposed[0], xs.as_slice(), threshold),
        nearest_within(proposed[1], ys.as_slice(), threshold),
    ]
}

/// `value` rounded to the nearest multiple of `grid` (ties away from zero);
/// 0 when `grid` is 0.
pub open spec fn snap_spec(value: i32, grid: i32) -> int {
    if grid == 0 {
        0
    } else {
        let g = if grid < 0 {
            -(grid as int)
        } else {
            grid as int
        };
        if value < 0 {
            -(div_round(-(value as int), g) * g)
        } else {
            div_round(value as int, g) * g
        }
    }
}

/// `snap_spec(value, grid)` computed in 64 bits, where it always fits.
fn snapped_value(value: i32, grid: i32) -> (res: i64)
    requires
        grid != 0,
    ensures
        res == snap_spec(value, grid),
{
    let g: i64 = if grid < 0 {
        -(grid as i64)
    } else {
        grid as i64
    };
    let v: i64 = value as i64;
    let magnitude: i64 = if v < 0 {
        -v
    } else {
        v
    };
    let q: i64 = (2 * magnitude + g) / (2 * g);
    assert(0 <= q * g <= 2147483649 * 2147483648) by (nonlinear_arith)
        requires
            q == (2 * magnitude + g) / (2 * g),
            1 <= g <= 2147483648,
            0 <= magnitude <= 2147483648,
    ;
    if v < 0 {
        -(q * g)
    } else {
        q * g
    }
}

/// Rounds `value` to the nearest multiple of `grid`, halves away from zero.
pub fn snap(value: i32, grid: i32) -> (res: i32)
    requires
        fits_i32(snap_spec(value, grid)),
    ensures
        res == snap_spec(value, grid),
{
    if grid == 0 {
        return 0;
    }
    snapped_value(value, grid) as i32
}

/// Snapping to a grid gives a multiple of the grid no more than half a grid
/// step away from the value.
pub proof fn lemma_snap_nearest_multiple(value: i32, grid: i32)
    requires
        grid != 0,
    ensures
        ({
            let g = if grid < 0 {
                -(grid as int)
            } else {
                grid as int
            };
            &&& snap_spec(value, grid) % g == 0
            &&& 2 * (snap_spec(value, grid) - value) <= g
            &&& 2 * (value - snap_spec(value, grid)) <= g
        }),
{
    let g = if grid < 0 {
        -(grid as int)
    } else {
        grid as int
    };
    let m = if value < 0 {
        -(value as int)
    } else {
        value as int
    };
    let q = div_round(m, g);
    let p = q * g;
    assert(0 <= 2 * m + g - 2 * p < 2 * g) by (nonlinear_arith)
        requires
            q == (2 * m + g) / (2 * g),
            p == q * g,
            g > 0,
            m >= 0,
    ;
    if value < 0 {
        assert(snap_spec(value, grid) == -p);
    } else {
        assert(snap_spec(value, grid) == p);
    }
    vstd::arithmetic::div_mod::lemma_mod_multiples_basic(q, g);
    vstd::arithmetic::div_mod::lemma_mod_multiples_basic(-q, g);
    assert(-(q * g) == (-q) * g) by (nonlinear_arith);
    assert(g * q == q * g) by (nonlinear_arith);
}

fn fits(v: i64) -> (res: bool)
    ensures
        res == fits_i32(v as int),
{
    -2147483648i64 <= v && v <= 2147483647i64
}

/// Whether every snapping target for the display at `moving_index` lies
/// within `i32` (what `snap_position_to_displays` needs).
pub fn snap_targets_fit(displays: &[Display], moving_index: usize) -> (res: bool)
    requires
        moving_index < displays@.len(),
    ensures
        res == snap_fits(displays@, moving_index as int),
{
    let n = displays.len();
    let ghost ds = displays@;
    let moving_size = displays[moving_index].rounded_logical_size();
    let mut i: usize = 0;
    while i < n
        invariant
            n == ds.len(),
            ds == displays@,
            moving_index < n,
            i <= n,
            moving_size[0] == axis_size(ds[moving_index as int], 0),
            moving_size[1] == axis_size(ds[moving_index as int], 1),
            forall|x: int, axis: int, k: int|
                0 <= x < i && x != moving_index && 0 <= axis < 2 && 0 <= k < 4 ==> fits_i32(
                    #[trigger] edge_values(ds[x], axis_size(ds[moving_index as int], axis), axis)[k],
                ),
        decreases n - i,
    {
        if i != moving_index {
            let size = displays[i].rounded_logical_size();
            let mut axis: usize = 0;
            while axis < 2
                invariant
                    n == ds.len(),
                    ds == displays@,
                    moving_index < n,
                    i < n,
                    i != moving_index,
                    axis <= 2,
                    moving_size[0] == axis_size(ds[moving_index as int], 0),
                    moving_size[1] == axis_size(ds[moving_index as int], 1),
                    size[0] == axis_size(ds[i as int], 0),
                    size[1] == axis_size(ds[i as int], 1),
                    forall|a: int, k: int|
                        0 <= a < axis && 0 <= k < 4 ==> fits_i32(
                            #[trigger] edge_values(ds[i as int], axis_size(ds[moving_index as int], a), a)[k],
                        ),
                decreases 2 - axis,
            {
                let lo: i64 = displays[i].position[axis] as i64;
                let hi: i64 = lo + size[axis] as i64;
                let m: i64 = moving_size[axis] as i64;
                let ghost e = edge_values(
                    ds[i as int],
                    axis_size(ds[moving_index as int], axis as int),
                    axis as int,
                );
                assert(e[0] == lo && e[1] == hi && e[2] == lo - m && e[3] == hi - m);
                if !(fits(lo) && fits(hi) && fits(lo - m) && fits(hi - m)) {
                    return false;
                }
                axis = axis + 1;
            }
        }
        i = i + 1;
    }
    true
}

/// Whether `snap(value, grid)` fits in `i32` (what `snap` needs).
pub fn snap_fits_i32(value: i32, grid: i32) -> (res: bool)
    ensures
        res == fits_i32(snap_spec(value, grid)),
{
    if grid == 0 {
        return true;
    }
    let snapped = snapped_value(value, grid);
    -2147483648i64 <= snapped && snapped <= 2147483647i64
}

} // verus!
