use vstd::prelude::*;
use vstd::string::*;

use crate::display::{is_rotated, layout_scale, oriented_size, Display};

verus! {

// ---------------------------------------------------------------------
// Overlap
// ---------------------------------------------------------------------

/// Two spans overlap on one axis: `a` starts at `a_pos` and is
/// `a_len / a_scale` long, `b` likewise; they share more than an edge.
pub open spec fn spans_overlap(
    a_pos: int,
    a_len: int,
    a_scale: int,
    b_pos: int,
    b_len: int,
    b_scale: int,
) -> bool {
    // a_pos < b_pos + b_len / b_scale  and  a_pos + a_len / a_scale > b_pos
    (a_pos - b_pos) * b_scale < b_len && (b_pos - a_pos) * a_scale < a_len
}

/// The logical rectangles of `a` and `b` (pixels turned by the transform,
/// divided by the layout scale) share an area.
pub open spec fn overlaps(a: Display, b: Display) -> bool {
    let (aw, ah) = oriented_size(a);
    let (bw, bh) = oriented_size(b);
    &&& spans_overlap(
        a.position[0] as int,
        aw * 1000,
        layout_scale(a),
        b.position[0] as int,
        bw * 1000,
        layout_scale(b),
    )
    &&& spans_overlap(
        a.position[1] as int,
        ah * 1000,
        layout_scale(a),
        b.position[1] as int,
        bh * 1000,
        layout_scale(b),
    )
}

/// Overlap does not depend on the order of the two displays.
pub proof fn lemma_overlaps_symmetric(a: Display, b: Display)
    ensures
        overlaps(a, b) == overlaps(b, a),
{
}

/// A quarter turn counts, for overlap, exactly as swapping the width and
/// height of the mode in use: a display `a` with transform 1, 3, 5 or 7
/// overlaps the same displays as `upright`, which is `a` unturned
/// (transform 0) with the width and height of its selected mode (or, with
/// none selected, of its reported size) swapped.
pub proof fn lemma_quarter_turn_swaps_sides(a: Display, upright: Display, b: Display)
    requires
        a.transform == 1 || a.transform == 3 || a.transform == 5 || a.transform == 7,
        upright.transform == 0,
        upright.position == a.position,
        upright.scale_milli == a.scale_milli,
        upright.selected_mode == a.selected_mode,
        upright.available_modes@.len() == a.available_modes@.len(),
        a.selected_mode < a.available_modes@.len() ==> upright.available_modes@[a.selected_mode as int].width
            == a.available_modes@[a.selected_mode as int].height
            && upright.available_modes@[a.selected_mode as int].height
            == a.available_modes@[a.selected_mode as int].width,
        a.selected_mode >= a.available_modes@.len() ==> upright.width == a.height && upright.height
            == a.width,
    ensures
        overlaps(a, b) == overlaps(upright, b),
        overlaps(b, a) == overlaps(b, upright),
{
}

/// Displays placed side by side do not overlap, even when they touch: if
/// `b` starts at or right of where `a` ends, `a` being as wide as the mode
/// in use (the selected one, else the reported size) shows it after its
/// transform (the mode's height for a quarter turn) divided by its scale,
/// then `a` and `b` do not overlap. The same holds one above the other.
pub proof fn lemma_side_by_side_no_overlap(a: Display, b: Display, w: u32, h: u32)
    requires
        a.scale_milli > 0,
        a.selected_mode < a.available_modes@.len() ==> w == a.available_modes@[a.selected_mode as int].width
            && h == a.available_modes@[a.selected_mode as int].height,
        a.selected_mode >= a.available_modes@.len() ==> w == a.width && h == a.height,
    ensures
        ({
            let across = if a.transform == 1 || a.transform == 3 || a.transform == 5 || a.transform
                == 7 {
                h
            } else {
                w
            };
            (b.position[0] - a.position[0]) * a.scale_milli >= across * 1000 ==> !overlaps(a, b)
                && !overlaps(b, a)
        }),
        ({
            let down = if a.transform == 1 || a.transform == 3 || a.transform == 5 || a.transform
                == 7 {
                w
            } else {
                h
            };
            (b.position[1] - a.position[1]) * a.scale_milli >= down * 1000 ==> !overlaps(a, b)
                && !overlaps(b, a)
        }),
{
}

/// `(a_pos - b_pos) * scale < len`, computed without overflow.
fn span_before(a_pos: i32, b_pos: i32, scale: i32, len: u32) -> (res: bool)
    requires
        scale >= 1,
    ensures
        res == ((a_pos - b_pos) * scale < len * 1000),
{
    let diff: i128 = a_pos as i128 - b_pos as i128;
    let s: i128 = scale as i128;
    assert(-4294967296 * 2147483647 <= diff * s <= 4294967296 * 2147483647) by (nonlinear_arith)
        requires
            -4294967296 <= diff <= 4294967296,
            1 <= s <= 2147483647,
    ;
    diff * s < len as i128 * 1000
}

/// Whether the logical rectangles of `a` and `b` share an area.
pub fn displays_overlap(a: &Display, b: &Display) -> (res: bool)
    ensures
        res == overlaps(*a, *b),
{
    let (aw, ah) = a.oriented_pixels();
    let (bw, bh) = b.oriented_pixels();
    let a_scale = a.layout_scale_milli();
    let b_scale = b.layout_scale_milli();
    span_before(a.position[0], b.position[0], b_scale, bw) && span_before(
        b.position[0],
        a.position[0],
        a_scale,
        aw,
    ) && span_before(a.position[1], b.position[1], b_scale, bh) && span_before(
        b.position[1],
        a.position[1],
        a_scale,
        ah,
    )
}

/// The display at `i` overlaps some other display of `ds`.
pub open spec fn overlaps_another(ds: Seq<Display>, i: int) -> bool {
    exists|j: int| 0 <= j < ds.len() && j != i && #[trigger] overlaps(ds[i], ds[j])
}

/// The indices of the displays that overlap another one, ascending.
pub fn overlapping_indices(displays: &[Display]) -> (res: Vec<usize>)
    ensures
        forall|a: int, b: int| 0 <= a < b < res@.len() ==> res@[a] < res@[b],
        forall|i: int|
            0 <= i < displays@.len() ==> (res@.contains(i as usize) <==> #[trigger] overlaps_another(
                displays@,
                i,
            )),
        forall|k: int| 0 <= k < res@.len() ==> res@[k] < displays@.len(),
{
    let n = displays.len();
    let mut res: Vec<usize> = Vec::new();
    let mut i: usize = 0;
    while i < n
        invariant
            n == displays@.len(),
            i <= n,
            forall|a: int, b: int| 0 <= a < b < res@.len() ==> res@[a] < res@[b],
            forall|k: int| 0 <= k < res@.len() ==> res@[k] < i,
            forall|x: int|
                0 <= x < i ==> (res@.contains(x as usize) <==> #[trigger] overlaps_another(
                    displays@,
                    x,
                )),
        decreases n - i,
    {
        let mut found = false;
        let mut j: usize = 0;
        while j < n
            invariant
                n == displays@.len(),
                i < n,
                j <= n,
                found <==> exists|k: int| 0 <= k < j && k != i && #[trigger] overlaps(displays@[i as int], displays@[k]),
            decreases n - j,
        {
            if j != i && displays_overlap(&displays[i], &displays[j]) {
                found = true;
            }
            j = j + 1;
        }
        let ghost before = res@;
        if found {
            res.push(i);
        }
        proof {
            assert forall|x: int| 0 <= x < i + 1 implies (res@.contains(x as usize)
                <==> #[trigger] overlaps_another(displays@, x)) by {
                if x < i {
                    if res@.contains(x as usize) {
                        let k = choose|k: int| 0 <= k < res@.len() && res@[k] == x as usize;
                        if k < before.len() {
                            assert(before[k] == x as usize);
                        }
                    }
                    if before.contains(x as usize) {
                        let k = choose|k: int| 0 <= k < before.len() && before[k] == x as usize;
                        assert(res@[k] == x as usize);
                    }
                } else {
                    if found {
                        assert(res@[res@.len() - 1] == i);
                    } else {
                        if res@.contains(x as usize) {
                            let k = choose|k: int| 0 <= k < res@.len() && res@[k] == x as usize;
                            assert(res@[k] < i);
                        }
                    }
                }
            }
        }
        i = i + 1;
    }
    res
}

// ---------------------------------------------------------------------
// Layout validation
// ---------------------------------------------------------------------

/// `pixels / (scale / 1000)` lies within 0.001 of a whole number (`scale > 0`).
pub open spec fn near_integral(pixels: u32, scale: int) -> bool {
    let r = (pixels * 1000) % scale;
    let off = if r <= scale - r {
        r
    } else {
        scale - r
    };
    off * 1000 <= scale
}

/// The message for a display with no selected mode.
pub open spec fn no_mode_message(name: Seq<char>) -> Seq<char> {
    name + " has no selected mode"@
}

pub open spec fn scale_message(name: Seq<char>) -> Seq<char> {
    name + " scale must be positive"@
}

pub open spec fn fraction_message(name: Seq<char>) -> Seq<char> {
    name + " scale must produce an integral logical size"@
}

pub open spec fn overlap_message(a: Seq<char>, b: Seq<char>) -> Seq<char> {
    a + " and "@ + b + " overlap; active displays must not overlap"@
}

pub open spec fn empty_layout_message() -> Seq<char> {
    "At least one active display is required"@
}

/// What is wrong with one display on its own: no selected mode; else a scale
/// that is not positive; else a scale that does not divide the mode (turned
/// by the transform) into a whole logical size.
pub open spec fn display_error(d: Display) -> Option<Seq<char>> {
    if d.selected_mode >= d.available_modes@.len() {
        Some(no_mode_message(d.name@))
    } else if d.scale_milli <= 0 {
        Some(scale_message(d.name@))
    } else {
        let m = d.available_modes@[d.selected_mode as int];
        let (w, h) = if is_rotated(d.transform) {
            (m.height, m.width)
        } else {
            (m.width, m.height)
        };
        if !near_integral(w, d.scale_milli as int) || !near_integral(h, d.scale_milli as int) {
            Some(fraction_message(d.name@))
        } else {
            None
        }
    }
}

/// The errors of `ds[..n]` on their own, in order.
pub open spec fn display_errors(ds: Seq<Display>, n: int) -> Seq<Seq<char>>
    decreases n,
{
    if n <= 0 {
        Seq::empty()
    } else {
        let prev = display_errors(ds, n - 1);
        match display_error(ds[n - 1]) {
            Some(e) => prev.push(e),
            None => prev,
        }
    }
}

/// The overlap errors of `ds[i]` with each `ds[j]`, `i < j < n`, in order.
pub open spec fn row_errors(ds: Seq<Display>, i: int, n: int) -> Seq<Seq<char>>
    decreases n - i,
{
    if n <= i + 1 {
        Seq::empty()
    } else {
        let prev = row_errors(ds, i, n - 1);
        if overlaps(ds[i], ds[n - 1]) {
            prev.push(overlap_message(ds[i].name@, ds[n - 1].name@))
        } else {
            prev
        }
    }
}

/// The overlap errors of every pair `i < j` with `i < n`, row by row.
pub open spec fn overlap_errors(ds: Seq<Display>, n: int) -> Seq<Seq<char>>
    decreases n,
{
    if n <= 0 {
        Seq::empty()
    } else {
        overlap_errors(ds, n - 1) + row_errors(ds, n - 1, ds.len() as int)
    }
}

/// Everything that keeps a layout from being applied, in the order it is
/// reported.
pub open spec fn layout_errors(ds: Seq<Display>) -> Seq<Seq<char>> {
    if ds.len() == 0 {
        seq![empty_layout_message()]
    } else {
        display_errors(ds, ds.len() as int) + overlap_errors(ds, ds.len() as int)
    }
}

proof fn lemma_texts_push(v: Seq<String>, s: String)
    ensures
        texts(v.push(s)) == texts(v).push(s@),
{
    assert(texts(v.push(s)) =~= texts(v).push(s@));
}

fn near_integral_exec(pixels: u32, scale: i32) -> (res: bool)
    requires
        scale > 0,
    ensures
        res == near_integral(pixels, scale as int),
{
    let n: u64 = pixels as u64 * 1000;
    let s: u64 = scale as u64;
    let r = n % s;
    let off = if r <= s - r {
        r
    } else {
        s - r
    };
    off * 1000 <= s
}

fn named_message(name: &String, tail: &str) -> (res: String)
    ensures
        res@ == name@ + tail@,
{
    let mut e = String::new();
    e.append(name.as_str());
    e.append(tail);
    assert(e@ =~= name@ + tail@);
    e
}

fn check_display(d: &Display) -> (res: Option<String>)
    ensures
        match display_error(*d) {
            Some(e) => res matches Some(s) && s@ == e,
            None => res is None,
        },
{
    let m = match d.selected_mode() {
        Some(m) => m,
        None => {
            return Some(named_message(&d.name, " has no selected mode"));
        },
    };
    if d.scale_milli <= 0 {
        return Some(named_message(&d.name, " scale must be positive"));
    }
    let t = d.transform;
    let (w, h) = if t == 1 || t == 3 || t == 5 || t == 7 {
        (m.height, m.width)
    } else {
        (m.width, m.height)
    };
    if !near_integral_exec(w, d.scale_milli) || !near_integral_exec(h, d.scale_milli) {
        return Some(named_message(&d.name, " scale must produce an integral logical size"));
    }
    None
}

fn overlap_text(a: &String, b: &String) -> (res: String)
    ensures
        res@ == overlap_message(a@, b@),
{
    let mut e = String::new();
    e.append(a.as_str());
    e.append(" and ");
    e.append(b.as_str());
    e.append(" overlap; active displays must not overlap");
    assert(e@ =~= overlap_message(a@, b@));
    e
}

pub open spec fn texts(v: Seq<String>) -> Seq<Seq<char>> {
    v.map_values(|s: String| s@)
}

/// Checks a layout before it is applied: at least one display; for each
/// display a selected mode, a positive scale and a whole logical size; and
/// no two displays overlapping. Returns the messages, empty when the layout
/// is fine.
pub fn validate_layout(displays: &[Display]) -> (res: Vec<String>)
    ensures
        texts(res@) == layout_errors(displays@),
{
    let mut errors: Vec<String> = Vec::new();
    let n = displays.len();
    if n == 0 {
        errors.push(String::from_str("At least one active display is required"));
        assert(texts(errors@) =~= layout_errors(displays@));
        return errors;
    }
    let ghost ds = displays@;
    let mut i: usize = 0;
    while i < n
        invariant
            n == ds.len(),
            ds == displays@,
            i <= n,
            texts(errors@) == display_errors(ds, i as int),
        decreases n - i,
    {
        let ghost before = errors@;
        match check_display(&displays[i]) {
            Some(e) => {
                errors.push(e);
                proof {
                    lemma_texts_push(before, e);
                }
            },
            None => {},
        }
        i = i + 1;
        assert(texts(errors@) =~= display_errors(ds, i as int));
    }
    let ghost singles = texts(errors@);
    let mut left: usize = 0;
    while left < n
        invariant
            n == ds.len(),
            ds == displays@,
            left <= n,
            texts(errors@) == singles + overlap_errors(ds, left as int),
        decreases n - left,
    {
        let ghost row_start = texts(errors@);
        let mut right: usize = left + 1;
        while right < n
            invariant
                n == ds.len(),
                ds == displays@,
                left < n,
                left + 1 <= right <= n,
                texts(errors@) == row_start + row_errors(ds, left as int, right as int),
            decreases n - right,
        {
            let ghost before = errors@;
            if displays_overlap(&displays[left], &displays[right]) {
                let e = overlap_text(&displays[left].name, &displays[right].name);
                errors.push(e);
                proof {
                    lemma_texts_push(before, e);
                }
            }
            right = right + 1;
            assert(texts(errors@) =~= row_start + row_errors(ds, left as int, right as int));
        }
        left = left + 1;
        assert(texts(errors@) =~= singles + overlap_errors(ds, left as int));
    }
    errors
}

proof fn lemma_row_errors_nonempty(ds: Seq<Display>, i: int, n: int)
    requires
        0 <= i,
        n <= ds.len(),
    ensures
        row_errors(ds, i, n).len() > 0 <==> exists|j: int|
            i < j < n && #[trigger] overlaps(ds[i], ds[j]),
    decreases n - i,
{
    if n > i + 1 {
        lemma_row_errors_nonempty(ds, i, n - 1);
        if row_errors(ds, i, n - 1).len() > 0 {
            let j = choose|j: int| i < j < n - 1 && #[trigger] overlaps(ds[i], ds[j]);
            assert(i < j < n && overlaps(ds[i], ds[j]));
        }
    }
}

proof fn lemma_overlap_errors_nonempty(ds: Seq<Display>, n: int)
    requires
        0 <= n <= ds.len(),
    ensures
        overlap_errors(ds, n).len() > 0 <==> exists|i: int, j: int|
            0 <= i < n && i < j < ds.len() && #[trigger] overlaps(ds[i], ds[j]),
    decreases n,
{
    if n > 0 {
        lemma_overlap_errors_nonempty(ds, n - 1);
        lemma_row_errors_nonempty(ds, n - 1, ds.len() as int);
        if overlap_errors(ds, n - 1).len() > 0 {
            let (i, j) = choose|i: int, j: int|
                0 <= i < n - 1 && i < j < ds.len() && #[trigger] overlaps(ds[i], ds[j]);
            assert(0 <= i < n && i < j < ds.len() && overlaps(ds[i], ds[j]));
        }
        if row_errors(ds, n - 1, ds.len() as int).len() > 0 {
            let j = choose|j: int| n - 1 < j < ds.len() && #[trigger] overlaps(ds[n - 1], ds[j]);
            assert(0 <= n - 1 < n && n - 1 < j < ds.len() && overlaps(ds[n - 1], ds[j]));
        }
        if exists|i: int, j: int| 0 <= i < n && i < j < ds.len() && #[trigger] overlaps(ds[i], ds[j]) {
            let (i, j) = choose|i: int, j: int|
                0 <= i < n && i < j < ds.len() && #[trigger] overlaps(ds[i], ds[j]);
            if i < n - 1 {
                assert(overlap_errors(ds, n - 1).len() > 0);
            } else {
                assert(row_errors(ds, n - 1, ds.len() as int).len() > 0);
            }
        }
    }
}

/// `validate_layout` reports an overlap exactly when `overlapping_indices`
/// marks some display as overlapping another.
pub proof fn lemma_overlap_reported_iff_marked(ds: Seq<Display>)
    ensures
        overlap_errors(ds, ds.len() as int).len() > 0 <==> exists|i: int|
            0 <= i < ds.len() && #[trigger] overlaps_another(ds, i),
{
    lemma_overlap_errors_nonempty(ds, ds.len() as int);
    if overlap_errors(ds, ds.len() as int).len() > 0 {
        let (i, j) = choose|i: int, j: int|
            0 <= i < ds.len() && i < j < ds.len() && #[trigger] overlaps(ds[i], ds[j]);
        assert(overlaps_another(ds, i));
    }
    if exists|i: int| 0 <= i < ds.len() && #[trigger] overlaps_another(ds, i) {
        let i = choose|i: int| 0 <= i < ds.len() && #[trigger] overlaps_another(ds, i);
        let j = choose|j: int| 0 <= j < ds.len() && j != i && #[trigger] overlaps(ds[i], ds[j]);
        if i < j {
            assert(overlaps(ds[i], ds[j]));
        } else {
            lemma_overlaps_symmetric(ds[i], ds[j]);
            assert(overlaps(ds[j], ds[i]));
        }
    }
}

pub open spec fn overlap_word() -> Seq<char> {
    seq!['o', 'v', 'e', 'r', 'l', 'a', 'p']
}

/// `s` holds the text `w` somewhere.
pub open spec fn has_word(s: Seq<char>, w: Seq<char>) -> bool {
    exists|i: int| 0 <= i && i + w.len() <= s.len() && #[trigger] s.subrange(i, i + w.len()) == w
}

proof fn lemma_suffix_facts()
    ensures
        no_vo(" has no selected mode"@),
        no_vo(" scale must be positive"@),
        no_vo(" scale must produce an integral logical size"@),
{
    reveal_strlit(" has no selected mode");
    reveal_strlit(" scale must be positive");
    reveal_strlit(" scale must produce an integral logical size");
}

/// `s` starts with a space and never has `v` right after `o`.
pub open spec fn no_vo(s: Seq<char>) -> bool {
    &&& s.len() > 0
    &&& s[0] == ' '
    &&& forall|q: int| 1 <= q < s.len() && #[trigger] s[q] == 'v' ==> s[q - 1] != 'o'
}

/// A name without the word "overlap", followed by a text that starts with a
/// space and never has `v` right after `o`, holds no "overlap" either.
proof fn lemma_no_word_after_name(name: Seq<char>, tail: Seq<char>)
    requires
        !has_word(name, overlap_word()),
        no_vo(tail),
    ensures
        !has_word(name + tail, overlap_word()),
{
    let w = overlap_word();
    let t = name + tail;
    if has_word(t, w) {
        let i = choose|i: int| 0 <= i && i + w.len() <= t.len() && #[trigger] t.subrange(i, i + w.len()) == w;
        if i + 7 <= name.len() {
            assert(name.subrange(i, i + 7) =~= t.subrange(i, i + 7));
            assert(has_word(name, w));
        } else if i < name.len() {
            let p = name.len() - i;
            assert(t.subrange(i, i + 7)[p] == t[name.len() as int]);
            assert(t[name.len() as int] == tail[0]);
            assert(w[p] != ' ');
        } else {
            let q = i - name.len() + 1;
            assert(t.subrange(i, i + 7)[1] == tail[q]);
            assert(t.subrange(i, i + 7)[0] == tail[q - 1]);
            assert(tail[q] == 'v');
        }
    }
}

/// An overlap message always holds the word "overlap".
proof fn lemma_overlap_message_has_word(a: Seq<char>, b: Seq<char>)
    ensures
        has_word(overlap_message(a, b), overlap_word()),
{
    reveal_strlit(" and ");
    reveal_strlit(" overlap; active displays must not overlap");
    let m = overlap_message(a, b);
    let k: int = (a.len() + 5 + b.len() + 1) as int;
    assert(m.subrange(k, k + 7) =~= overlap_word());
}

proof fn lemma_display_errors_lack_word(ds: Seq<Display>, n: int)
    requires
        0 <= n <= ds.len(),
        forall|i: int| 0 <= i < ds.len() ==> !has_word(#[trigger] ds[i].name@, overlap_word()),
    ensures
        forall|k: int|
            0 <= k < display_errors(ds, n).len() ==> !has_word(
                #[trigger] display_errors(ds, n)[k],
                overlap_word(),
            ),
    decreases n,
{
    if n > 0 {
        lemma_display_errors_lack_word(ds, n - 1);
        lemma_suffix_facts();
        let d = ds[n - 1];
        assert(!has_word(d.name@, overlap_word()));
        lemma_no_word_after_name(d.name@, " has no selected mode"@);
        lemma_no_word_after_name(d.name@, " scale must be positive"@);
        lemma_no_word_after_name(d.name@, " scale must produce an integral logical size"@);
        let prev = display_errors(ds, n - 1);
        assert forall|k: int| 0 <= k < display_errors(ds, n).len() implies !has_word(
            #[trigger] display_errors(ds, n)[k],
            overlap_word(),
        ) by {
            if k < prev.len() {
                assert(display_errors(ds, n)[k] == prev[k]);
            }
        }
    }
}

proof fn lemma_row_errors_have_word(ds: Seq<Display>, i: int, n: int)
    ensures
        forall|k: int|
            0 <= k < row_errors(ds, i, n).len() ==> has_word(
                #[trigger] row_errors(ds, i, n)[k],
                overlap_word(),
            ),
    decreases n - i,
{
    if n > i + 1 {
        lemma_row_errors_have_word(ds, i, n - 1);
        lemma_overlap_message_has_word(ds[i].name@, ds[n - 1].name@);
        let prev = row_errors(ds, i, n - 1);
        assert forall|k: int| 0 <= k < row_errors(ds, i, n).len() implies has_word(
            #[trigger] row_errors(ds, i, n)[k],
            overlap_word(),
        ) by {
            if k < prev.len() {
                assert(row_errors(ds, i, n)[k] == prev[k]);
            }
        }
    }
}

proof fn lemma_overlap_errors_have_word(ds: Seq<Display>, n: int)
    ensures
        forall|k: int|
            0 <= k < overlap_errors(ds, n).len() ==> has_word(
                #[trigger] overlap_errors(ds, n)[k],
                overlap_word(),
            ),
    decreases n,
{
    if n > 0 {
        lemma_overlap_errors_have_word(ds, n - 1);
        lemma_row_errors_have_word(ds, n - 1, ds.len() as int);
        let prev = overlap_errors(ds, n - 1);
        let row = row_errors(ds, n - 1, ds.len() as int);
        assert forall|k: int| 0 <= k < overlap_errors(ds, n).len() implies has_word(
            #[trigger] overlap_errors(ds, n)[k],
            overlap_word(),
        ) by {
            if k < prev.len() {
                assert(overlap_errors(ds, n)[k] == prev[k]);
            } else {
                assert(overlap_errors(ds, n)[k] == row[k - prev.len()]);
            }
        }
    }
}

/// When no display name holds the word "overlap", some message of
/// `validate_layout` holds it exactly when `overlapping_indices` marks some
/// display: the overlap messages are the only ones that mention overlap.
pub proof fn lemma_overlap_messages_iff_marked(ds: Seq<Display>)
    requires
        ds.len() > 0,
        forall|i: int| 0 <= i < ds.len() ==> !has_word(#[trigger] ds[i].name@, overlap_word()),
    ensures
        (exists|k: int|
            0 <= k < layout_errors(ds).len() && has_word(
                #[trigger] layout_errors(ds)[k],
                overlap_word(),
            )) <==> exists|i: int| 0 <= i < ds.len() && #[trigger] overlaps_another(ds, i),
{
    let n = ds.len() as int;
    let singles = display_errors(ds, n);
    let pairs = overlap_errors(ds, n);
    let all = layout_errors(ds);
    lemma_display_errors_lack_word(ds, n);
    lemma_overlap_errors_have_word(ds, n);
    lemma_overlap_reported_iff_marked(ds);
    assert(all == singles + pairs);
    if exists|k: int| 0 <= k < all.len() && has_word(#[trigger] all[k], overlap_word()) {
        let k = choose|k: int| 0 <= k < all.len() && has_word(#[trigger] all[k], overlap_word());
        if k < singles.len() {
            assert(all[k] == singles[k]);
        } else {
            assert(pairs.len() > 0);
        }
    }
    if pairs.len() > 0 {
        assert(all[singles.len() as int] == pairs[0]);
        assert(has_word(all[singles.len() as int], overlap_word()));
    }
}

} // verus!
