use vstd::prelude::*;

use crate::display::Display;

verus! {

/// `a` and `b` agree on everything but the position.
pub open spec fn same_but_position(a: Display, b: Display) -> bool {
    &&& a.id == b.id
    &&& a.name == b.name
    &&& a.description == b.description
    &&& a.width == b.width
    &&& a.height == b.height
    &&& a.refresh_millihertz == b.refresh_millihertz
    &&& a.scale_milli == b.scale_milli
    &&& a.transform == b.transform
    &&& a.focused == b.focused
    &&& a.available_modes == b.available_modes
    &&& a.selected_mode == b.selected_mode
}

/// The least coordinate on `axis` (0 for x, 1 for y) among `ds[..n]`.
pub open spec fn min_coordinate(ds: Seq<Display>, axis: int, n: int) -> int
    decreases n,
{
    if n <= 1 {
        ds[0].position[axis] as int
    } else {
        let prev = min_coordinate(ds, axis, n - 1);
        let here = ds[n - 1].position[axis] as int;
        if here < prev {
            here
        } else {
            prev
        }
    }
}

pub proof fn lemma_min_coordinate(ds: Seq<Display>, axis: int, n: int)
    requires
        1 <= n <= ds.len(),
    ensures
        forall|i: int| 0 <= i < n ==> min_coordinate(ds, axis, n) <= #[trigger] ds[i].position[axis],
        exists|i: int| 0 <= i < n && min_coordinate(ds, axis, n) == #[trigger] ds[i].position[axis],
    decreases n,
{
    if n > 1 {
        lemma_min_coordinate(ds, axis, n - 1);
        let here = ds[n - 1].position[axis] as int;
        if here < min_coordinate(ds, axis, n - 1) {
            assert(min_coordinate(ds, axis, n) == ds[n - 1].position[axis]);
        } else {
            let i = choose|i: int| 0 <= i < n - 1 && min_coordinate(ds, axis, n - 1) == #[trigger] ds[i].position[axis];
            assert(min_coordinate(ds, axis, n) == ds[i].position[axis]);
        }
    } else {
        assert(min_coordinate(ds, axis, n) == ds[0].position[axis]);
    }
}

/// Every display moved by `(dx, dy)` stays within `i32`.
pub open spec fn shift_fits(ds: Seq<Display>, dx: int, dy: int) -> bool {
    forall|i: int|
        0 <= i < ds.len() ==> i32::MIN <= #[trigger] ds[i].position[0] - dx <= i32::MAX && i32::MIN
            <= ds[i].position[1] - dy <= i32::MAX
}

/// `after` is `before` with every display moved by `(-dx, -dy)`.
pub open spec fn shifted(before: Seq<Display>, after: Seq<Display>, dx: int, dy: int) -> bool {
    &&& after.len() == before.len()
    &&& forall|i: int|
        0 <= i < before.len() ==> same_but_position(#[trigger] after[i], before[i])
            && after[i].position[0] == before[i].position[0] - dx && after[i].position[1]
            == before[i].position[1] - dy
}

fn shift_all(displays: &mut [Display], dx: i32, dy: i32)
    requires
        shift_fits(old(displays)@, dx as int, dy as int),
    ensures
        shifted(old(displays)@, final(displays)@, dx as int, dy as int),
{
    let n = displays.len();
    let mut i: usize = 0;
    while i < n
        invariant
            n == displays@.len(),
            n == old(displays)@.len(),
            i <= n,
            shift_fits(old(displays)@, dx as int, dy as int),
            forall|k: int| i <= k < n ==> #[trigger] displays@[k] == old(displays)@[k],
            forall|k: int|
                0 <= k < i ==> same_but_position(#[trigger] displays@[k], old(displays)@[k])
                    && displays@[k].position[0] == old(displays)@[k].position[0] - dx
                    && displays@[k].position[1] == old(displays)@[k].position[1] - dy,
        decreases n - i,
    {
        let p = displays[i].position;
        assert(old(displays)@[i as int].position == p);
        displays[i].position = [p[0] - dx, p[1] - dy];
        i = i + 1;
    }
}

/// Moves the whole layout so that its leftmost edge is at x = 0 and its
/// topmost edge at y = 0; the displays keep their places relative to each
/// other. An empty layout is left as it is.
pub fn normalize_positions(displays: &mut [Display])
    requires
        old(displays)@.len() > 0 ==> shift_fits(
            old(displays)@,
            min_coordinate(old(displays)@, 0, old(displays)@.len() as int),
            min_coordinate(old(displays)@, 1, old(displays)@.len() as int),
        ),
    ensures
        old(displays)@.len() == 0 ==> final(displays)@ == old(displays)@,
        old(displays)@.len() > 0 ==> shifted(
            old(displays)@,
            final(displays)@,
            min_coordinate(old(displays)@, 0, old(displays)@.len() as int),
            min_coordinate(old(displays)@, 1, old(displays)@.len() as int),
        ),
        // The displays keep their offsets from each other.
        forall|i: int, j: int|
            0 <= i < final(displays)@.len() && 0 <= j < final(displays)@.len() ==> (
            #[trigger] final(displays)@[i]).position[0] - (#[trigger] final(displays)@[j]).position[0]
                == old(displays)@[i].position[0] - old(displays)@[j].position[0]
                && final(displays)@[i].position[1] - final(displays)@[j].position[1]
                == old(displays)@[i].position[1] - old(displays)@[j].position[1],
        // Nothing lies left of x = 0 or above y = 0, and some display touches each.
        forall|i: int|
            0 <= i < final(displays)@.len() ==> (#[trigger] final(displays)@[i]).position[0] >= 0
                && final(displays)@[i].position[1] >= 0,
        final(displays)@.len() > 0 ==> exists|i: int|
            0 <= i < final(displays)@.len() && (#[trigger] final(displays)@[i]).position[0] == 0,
        final(displays)@.len() > 0 ==> exists|i: int|
            0 <= i < final(displays)@.len() && (#[trigger] final(displays)@[i]).position[1] == 0,
{
    let n = displays.len();
    if n == 0 {
        return;
    }
    let ghost before = displays@;
    let mut min_x: i32 = displays[0].position[0];
    let mut min_y: i32 = displays[0].position[1];
    let mut i: usize = 1;
    while i < n
        invariant
            n == displays@.len(),
            displays@ == before,
            1 <= i <= n,
            min_x == min_coordinate(before, 0, i as int),
            min_y == min_coordinate(before, 1, i as int),
        decreases n - i,
    {
        let p = displays[i].position;
        if p[0] < min_x {
            min_x = p[0];
        }
        if p[1] < min_y {
            min_y = p[1];
        }
        i = i + 1;
    }
    proof {
        lemma_min_coordinate(before, 0, n as int);
        lemma_min_coordinate(before, 1, n as int);
    }
    shift_all(displays, min_x, min_y);
    proof {
        let ix = choose|i: int| 0 <= i < n && min_x == #[trigger] before[i].position[0];
        assert(displays@[ix].position[0] == 0);
        let iy = choose|i: int| 0 <= i < n && min_y == #[trigger] before[i].position[1];
        assert(displays@[iy].position[1] == 0);
        assert forall|i: int| 0 <= i < n implies (#[trigger] displays@[i]).position[0] >= 0
            && displays@[i].position[1] >= 0 by {
            assert(min_x <= before[i].position[0]);
            assert(min_y <= before[i].position[1]);
        }
    }
}

/// Moves the whole layout so that the display at `index` sits at `0 x 0`;
/// the displays keep their places relative to each other. Nothing changes
/// when `index` is out of range.
pub fn anchor_display(displays: &mut [Display], index: usize)
    requires
        index < old(displays)@.len() ==> shift_fits(
            old(displays)@,
            old(displays)@[index as int].position[0] as int,
            old(displays)@[index as int].position[1] as int,
        ),
    ensures
        index >= old(displays)@.len() ==> final(displays)@ == old(displays)@,
        index < old(displays)@.len() ==> shifted(
            old(displays)@,
            final(displays)@,
            old(displays)@[index as int].position[0] as int,
            old(displays)@[index as int].position[1] as int,
        ),
        index < old(displays)@.len() ==> final(displays)@[index as int].position[0] == 0
            && final(displays)@[index as int].position[1] == 0,
        forall|i: int, j: int|
            0 <= i < final(displays)@.len() && 0 <= j < final(displays)@.len() ==> (
            #[trigger] final(displays)@[i]).position[0] - (#[trigger] final(displays)@[j]).position[0]
                == old(displays)@[i].position[0] - old(displays)@[j].position[0]
                && final(displays)@[i].position[1] - final(displays)@[j].position[1]
                == old(displays)@[i].position[1] - old(displays)@[j].position[1],
{
    if index >= displays.len() {
        return;
    }
    let p = displays[index].position;
    shift_all(displays, p[0], p[1]);
}

/// A normalized layout starts at `0 x 0`, so normalizing it again moves
/// nothing.
pub proof fn lemma_normalize_idempotent(before: Seq<Display>, after: Seq<Display>)
    requires
        before.len() > 0,
        shifted(
            before,
            after,
            min_coordinate(before, 0, before.len() as int),
            min_coordinate(before, 1, before.len() as int),
        ),
    ensures
        min_coordinate(after, 0, after.len() as int) == 0,
        min_coordinate(after, 1, after.len() as int) == 0,
        shift_fits(after, 0, 0),
{
    let n = before.len() as int;
    lemma_min_coordinate(before, 0, n);
    lemma_min_coordinate(before, 1, n);
    lemma_min_coordinate(after, 0, n);
    lemma_min_coordinate(after, 1, n);
    let ix = choose|i: int| 0 <= i < n && min_coordinate(before, 0, n) == #[trigger] before[i].position[0];
    let iy = choose|i: int| 0 <= i < n && min_coordinate(before, 1, n) == #[trigger] before[i].position[1];
    assert(after[ix].position[0] == 0);
    assert(after[iy].position[1] == 0);
    let jx = choose|i: int| 0 <= i < n && min_coordinate(after, 0, n) == #[trigger] after[i].position[0];
    let jy = choose|i: int| 0 <= i < n && min_coordinate(after, 1, n) == #[trigger] after[i].position[1];
    assert(before[jx].position[0] >= min_coordinate(before, 0, n));
    assert(before[jy].position[1] >= min_coordinate(before, 1, n));
}

/// Whether moving every display by `(-dx, -dy)` keeps all positions within
/// `i32` (what `normalize_positions` and `anchor_display` need).
pub fn layout_shift_fits(displays: &[Display], dx: i32, dy: i32) -> (res: bool)
    ensures
        res == shift_fits(displays@, dx as int, dy as int),
{
    let n = displays.len();
    let mut i: usize = 0;
    while i < n
        invariant
            n == displays@.len(),
            i <= n,
            forall|j: int|
                0 <= j < i ==> i32::MIN <= #[trigger] displays@[j].position[0] - dx <= i32::MAX
                    && i32::MIN <= displays@[j].position[1] - dy <= i32::MAX,
        decreases n - i,
    {
        let p = displays[i].position;
        let x: i64 = p[0] as i64 - dx as i64;
        let y: i64 = p[1] as i64 - dy as i64;
        if x < -2147483648i64 || x > 2147483647i64 || y < -2147483648i64 || y > 2147483647i64 {
            return false;
        }
        i = i + 1;
    }
    true
}

/// Puts the top edge of every display at y = 0; x and everything else stay.
pub fn align_tops(displays: &mut [Display])
    ensures
        final(displays)@.len() == old(displays)@.len(),
        forall|i: int|
            0 <= i < old(displays)@.len() ==> same_but_position(
                #[trigger] final(displays)@[i],
                old(displays)@[i],
            ) && final(displays)@[i].position[0] == old(displays)@[i].position[0]
                && final(displays)@[i].position[1] == 0,
{
    let n = displays.len();
    let mut i: usize = 0;
    while i < n
        invariant
            n == displays@.len(),
            n == old(displays)@.len(),
            i <= n,
            forall|k: int| i <= k < n ==> #[trigger] displays@[k] == old(displays)@[k],
            forall|k: int|
                0 <= k < i ==> same_but_position(#[trigger] displays@[k], old(displays)@[k])
                    && displays@[k].position[0] == old(displays)@[k].position[0]
                    && displays@[k].position[1] == 0,
        decreases n - i,
    {
        let x = displays[i].position[0];
        displays[i].position = [x, 0];
        i = i + 1;
    }
}

} // verus!
