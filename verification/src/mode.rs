use vstd::prelude::*;

use crate::numbers::{
    all_digits, decimal, digit_char, fixed2_abs, hundredths, lemma_decimal, lemma_digit_char,
    lemma_digits_exclude, lemma_first_index_of_at, lemma_last_index_of_at, lemma_parse_u32_decimal, digit_value, digits_value, find_first, find_last, first_index_of, fixed2,
    is_digit, last_index_of, lemma_first_index_of, parse_u32_spec, push_decimal, push_fixed2,
    scan_digits, without_plus,
};
use crate::text::{chars_of, push_char};

verus! {

/// One output mode: resolution and refresh rate, with the text it was read from.
/// The refresh rate is in millihertz (60 Hz is 60000).
#[derive(Clone, Debug, PartialEq)]
pub struct DisplayMode {
    pub raw: String,
    pub width: u32,
    pub height: u32,
    pub refresh_millihertz: u32,
}

/// The fraction digits `fp` in thousandths, rounded to the nearest
/// thousandth (ties up): only the first four digits matter.
pub open spec fn fraction_millis(fp: Seq<char>) -> nat {
    let head: nat = if fp.len() >= 3 {
        digits_value(fp.take(3))
    } else if fp.len() == 2 {
        digits_value(fp) * 10
    } else if fp.len() == 1 {
        digits_value(fp) * 100
    } else {
        0
    };
    let round_up: nat = if fp.len() >= 4 && digit_value(fp[3]) >= 5 {
        1
    } else {
        0
    };
    head + round_up
}

/// A refresh rate written as a plain decimal number of hertz (an optional
/// `+`, digits, and at most one `.` with digits after it; at least one digit
/// in all), in millihertz, when that fits in 32 bits.
pub open spec fn parse_millihertz_spec(s: Seq<char>) -> Option<u32> {
    let d = without_plus(s);
    let (ip, fp) = match first_index_of(d, '.') {
        Some(p) => (d.take(p), d.skip(p + 1)),
        None => (d, Seq::<char>::empty()),
    };
    let value = digits_value(ip) * 1000 + fraction_millis(fp);
    if ip.len() + fp.len() > 0 && all_digits(ip) && all_digits(fp) && value <= u32::MAX {
        Some(value as u32)
    } else {
        None
    }
}

/// `s` without a trailing `Hz`, if it has one.
pub open spec fn without_hz(s: Seq<char>) -> Seq<char> {
    if s.len() >= 2 && s[s.len() - 2] == 'H' && s[s.len() - 1] == 'z' {
        s.take(s.len() - 2)
    } else {
        s
    }
}

/// Width, height and refresh (millihertz) of a mode written
/// `<width>x<height>@<refresh>`, optionally followed by `Hz`. The refresh
/// rate follows the last `@`; the width and height are split at the first `x`.
pub open spec fn parse_mode_spec(s: Seq<char>) -> Option<(u32, u32, u32)> {
    let cleaned = without_hz(s);
    match last_index_of(cleaned, '@') {
        None => None,
        Some(a) => {
            let size = cleaned.take(a);
            let refresh = cleaned.skip(a + 1);
            match first_index_of(size, 'x') {
                None => None,
                Some(b) => {
                    match (
                        parse_u32_spec(size.take(b)),
                        parse_u32_spec(size.skip(b + 1)),
                        parse_millihertz_spec(refresh),
                    ) {
                        (Some(w), Some(h), Some(r)) => Some((w, h, r)),
                        _ => None,
                    }
                },
            }
        },
    }
}

/// The text of a mode in a monitor rule: `<width>x<height>@<refresh>` with
/// the refresh rate in hertz to two decimals.
pub open spec fn mode_text(width: u32, height: u32, refresh_millihertz: u32) -> Seq<char> {
    decimal(width as nat) + seq!['x'] + decimal(height as nat) + seq!['@'] + fixed2(
        refresh_millihertz as int,
    )
}

/// A refresh rate in hertz with two decimals, e.g. `59.95`.
pub fn hertz_text(refresh_millihertz: u32) -> (res: String)
    ensures
        res@ == fixed2(refresh_millihertz as int),
{
    let mut out = String::new();
    push_fixed2(&mut out, refresh_millihertz as i64);
    out
}

impl DisplayMode {
    /// The mode as written in a monitor rule, e.g. `3840x2160@60.00`: the
    /// refresh rate (held in whole millihertz) is rounded to hundredths of a
    /// hertz, an exact half going to the even hundredth. Rates above about
    /// 4294967.29 Hz cannot be held, so a written mode reads back through
    /// `parse_mode` while its rounded rate fits in 32-bit millihertz.
    pub fn config_value(&self) -> (res: String)
        ensures
            res@ == mode_text(self.width, self.height, self.refresh_millihertz),
    {
        let mut out = String::new();
        push_mode_text(&mut out, self.width, self.height, self.refresh_millihertz);
        out
    }
}

/// Appends `mode_text(width, height, refresh_millihertz)`.
pub fn push_mode_text(out: &mut String, width: u32, height: u32, refresh_millihertz: u32)
    ensures
        final(out)@ == old(out)@ + mode_text(width, height, refresh_millihertz),
{
    push_decimal(out, width as u64);
    push_char(out, 'x');
    push_decimal(out, height as u64);
    push_char(out, '@');
    push_fixed2(out, refresh_millihertz as i64);
    assert(out@ =~= old(out)@ + mode_text(width, height, refresh_millihertz));
}

/// Whether every character of `cs[lo..hi]` is an ASCII digit.
fn all_digits_in(cs: &Vec<char>, lo: usize, hi: usize) -> (res: bool)
    requires
        lo <= hi <= cs@.len(),
    ensures
        res == all_digits(cs@.subrange(lo as int, hi as int)),
{
    let ghost s = cs@.subrange(lo as int, hi as int);
    let mut i: usize = lo;
    while i < hi
        invariant
            lo <= i <= hi <= cs@.len(),
            s == cs@.subrange(lo as int, hi as int),
            forall|j: int| lo <= j < i ==> is_digit(cs@[j]),
        decreases hi - i,
    {
        let c = cs[i];
        if !('0' <= c && c <= '9') {
            assert(s[i - lo] == c);
            return false;
        }
        i = i + 1;
    }
    assert forall|j: int| 0 <= j < s.len() implies is_digit(#[trigger] s[j]) by {
        assert(s[j] == cs@[lo + j]);
    }
    true
}

/// `u32::from_str` on `cs[lo..hi]`.
fn parse_u32_in(cs: &Vec<char>, lo: usize, hi: usize) -> (res: Option<u32>)
    requires
        lo <= hi <= cs@.len(),
    ensures
        res == parse_u32_spec(cs@.subrange(lo as int, hi as int)),
{
    let ghost s = cs@.subrange(lo as int, hi as int);
    let mut start = lo;
    if start < hi && cs[start] == '+' {
        start = start + 1;
    }
    assert(without_plus(s) =~= cs@.subrange(start as int, hi as int));
    if start == hi {
        return None;
    }
    scan_digits(cs, start, hi)
}

/// The refresh-rate reading of `parse_millihertz_spec` on `cs[lo..hi]`.
fn parse_millihertz_in(cs: &Vec<char>, lo: usize, hi: usize) -> (res: Option<u32>)
    requires
        lo <= hi <= cs@.len(),
    ensures
        res == parse_millihertz_spec(cs@.subrange(lo as int, hi as int)),
{
    let ghost s = cs@.subrange(lo as int, hi as int);
    let mut start = lo;
    if start < hi && cs[start] == '+' {
        start = start + 1;
    }
    let ghost d = without_plus(s);
    assert(d =~= cs@.subrange(start as int, hi as int));
    let dot = find_first(cs, start, hi, '.');
    let (ip_end, fp_start) = match dot {
        Some(p) => (start + p, start + p + 1),
        None => (hi, hi),
    };
    proof {
        lemma_first_index_of(d, '.');
    }
    let ghost ip = cs@.subrange(start as int, ip_end as int);
    let ghost fp = cs@.subrange(fp_start as int, hi as int);
    assert(ip =~= (match first_index_of(d, '.') {
        Some(p) => d.take(p),
        None => d,
    }));
    assert(fp =~= (match first_index_of(d, '.') {
        Some(p) => d.skip(p + 1),
        None => Seq::<char>::empty(),
    }));
    if ip_end - start + (hi - fp_start) == 0 {
        return None;
    }
    let whole = match scan_digits(cs, start, ip_end) {
        Some(v) => v,
        None => {
            return None;
        },
    };
    if !all_digits_in(cs, fp_start, hi) {
        return None;
    }
    let frac = fraction_millis_in(cs, fp_start, hi);
    let value: u64 = whole as u64 * 1000 + frac;
    if value > 4294967295u64 {
        return None;
    }
    Some(value as u32)
}

/// `fraction_millis` of the digits `cs[lo..hi]`.
fn fraction_millis_in(cs: &Vec<char>, lo: usize, hi: usize) -> (res: u64)
    requires
        lo <= hi <= cs@.len(),
        all_digits(cs@.subrange(lo as int, hi as int)),
    ensures
        res == fraction_millis(cs@.subrange(lo as int, hi as int)),
        res <= 1000,
{
    let ghost fp = cs@.subrange(lo as int, hi as int);
    let fp_start = lo;
    let flen = hi - fp_start;
    proof {
        if flen < 3 {
            lemma_digits_value_bound(fp);
        } else {
            assert forall|i: int| 0 <= i < 3 implies is_digit(#[trigger] fp.take(3)[i]) by {
                assert(fp.take(3)[i] == fp[i]);
            }
            lemma_digits_value_bound(fp.take(3));
        }
    }
    let head: u64 = if flen >= 3 {
        assert(cs@.subrange(fp_start as int, fp_start + 3) =~= fp.take(3));
        match scan_digits(cs, fp_start, fp_start + 3) {
            Some(v) => v as u64,
            None => 0,
        }
    } else {
        match scan_digits(cs, fp_start, hi) {
            Some(v) => if flen == 2 {
                v as u64 * 10
            } else if flen == 1 {
                v as u64 * 100
            } else {
                0
            },
            None => 0,
        }
    };
    let round_up: u64 = if flen >= 4 && cs[fp_start + 3] >= '5' {
        assert(fp[3] == cs@[fp_start + 3]);
        1
    } else {
        proof {
            if flen >= 4 {
                assert(fp[3] == cs@[fp_start + 3]);
                assert(is_digit(fp[3]));
            }
        }
        0
    };
    head + round_up
}

/// Three digits write a number below 1000, and fewer digits less.
proof fn lemma_digits_value_bound(s: Seq<char>)
    requires
        s.len() <= 3,
        all_digits(s),
    ensures
        s.len() == 0 ==> digits_value(s) == 0,
        s.len() == 1 ==> digits_value(s) < 10,
        s.len() == 2 ==> digits_value(s) < 100,
        s.len() == 3 ==> digits_value(s) < 1000,
    decreases s.len(),
{
    if s.len() > 0 {
        assert(is_digit(s[s.len() - 1]));
        assert forall|i: int| 0 <= i < s.drop_last().len() implies is_digit(
            #[trigger] s.drop_last()[i],
        ) by {
            assert(s.drop_last()[i] == s[i]);
        }
        lemma_digits_value_bound(s.drop_last());
    }
}

/// Reads a mode written `<width>x<height>@<refresh>`, optionally followed by
/// `Hz`, e.g. `1920x1080@60.00Hz`. `None` when any part does not read.
///
/// The refresh rate is read as a plain decimal number of hertz: an optional
/// `+`, digits, and at most one `.`; it is held in whole millihertz, rounded
/// to the nearest (halves up), and must fit in 32 bits (about 4294967 Hz).
/// Negative rates, exponents, `inf` and `nan` do not read.
pub fn parse_mode(raw: &str) -> (res: Option<DisplayMode>)
    ensures
        match parse_mode_spec(raw@) {
            Some((w, h, r)) => res matches Some(m) && m.raw@ == raw@ && m.width == w && m.height
                == h && m.refresh_millihertz == r,
            None => res is None,
        },
{
    let cs = chars_of(raw);
    let ghost s = cs@;
    let n = cs.len();
    let end = if n >= 2 && cs[n - 2] == 'H' && cs[n - 1] == 'z' {
        n - 2
    } else {
        n
    };
    let ghost cleaned = without_hz(s);
    assert(cleaned =~= cs@.subrange(0, end as int));
    let at = match find_last(&cs, 0, end, '@') {
        Some(a) => a,
        None => {
            return None;
        },
    };
    let ghost size = cleaned.take(at as int);
    let ghost refresh = cleaned.skip(at + 1);
    assert(size =~= cs@.subrange(0, at as int));
    assert(refresh =~= cs@.subrange(at + 1, end as int));
    let x = match find_first(&cs, 0, at, 'x') {
        Some(b) => b,
        None => {
            return None;
        },
    };
    assert(size.take(x as int) =~= cs@.subrange(0, x as int));
    assert(size.skip(x + 1) =~= cs@.subrange(x + 1, at as int));
    let width = parse_u32_in(&cs, 0, x);
    let height = parse_u32_in(&cs, x + 1, at);
    let refresh_millihertz = parse_millihertz_in(&cs, at + 1, end);
    match (width, height, refresh_millihertz) {
        (Some(w), Some(h), Some(r)) => Some(
            DisplayMode { raw: raw.to_owned(), width: w, height: h, refresh_millihertz: r },
        ),
        _ => None,
    }
}

proof fn lemma_two_digits_value(x: nat)
    requires
        x < 100,
    ensures
        all_digits(seq![digit_char((x / 10) as int), digit_char((x % 10) as int)]),
        digits_value(seq![digit_char((x / 10) as int), digit_char((x % 10) as int)]) == x,
{
    let d1 = digit_char((x / 10) as int);
    let d2 = digit_char((x % 10) as int);
    lemma_digit_char((x / 10) as int);
    lemma_digit_char((x % 10) as int);
    let fp = seq![d1, d2];
    assert(fp.drop_last() =~= seq![d1]);
    assert(seq![d1].drop_last() =~= Seq::<char>::empty());
    assert(digits_value(Seq::<char>::empty()) == 0);
    assert(digits_value(seq![d1]) == x / 10);
}

/// The two-decimal text of a refresh rate reads back as that rate rounded
/// to hundredths of a hertz.
proof fn lemma_fixed2_reads_back(m: nat)
    requires
        hundredths(m) * 10 <= u32::MAX,
    ensures
        parse_millihertz_spec(fixed2_abs(m)) == Some((hundredths(m) * 10) as u32),
{
    let c = hundredths(m);
    let q = c / 100;
    let x = c % 100;
    let dq = decimal(q);
    let fp = seq![digit_char((x / 10) as int), digit_char((x % 10) as int)];
    lemma_decimal(q);
    lemma_digits_exclude(dq, '.');
    lemma_two_digits_value(x);
    assert((c % 100) as int / 10 == (x / 10) as int);
    assert((c % 10) as int == (x % 10) as int);
    let refresh = dq + seq!['.'] + fp;
    assert(fixed2_abs(m) =~= refresh);
    assert(without_plus(refresh) == refresh) by {
        assert(refresh[0] == dq[0]);
        assert(is_digit(dq[0]));
    }
    let p = dq.len() as int;
    assert forall|j: int| 0 <= j < p implies refresh[j] != '.' by {
        assert(refresh[j] == dq[j]);
    }
    lemma_first_index_of_at(refresh, '.', p);
    assert(refresh.take(p) =~= dq);
    assert(refresh.skip(p + 1) =~= fp);
    assert(fraction_millis(fp) == x * 10);
    assert(q * 1000 + x * 10 == c * 10);
}

/// A mode written by `config_value` reads back through `parse_mode` with the
/// same resolution and with the refresh rate rounded to hundredths of a hertz.
pub proof fn lemma_mode_text_roundtrip(width: u32, height: u32, refresh_millihertz: u32)
    requires
        hundredths(refresh_millihertz as nat) * 10 <= u32::MAX,
    ensures
        parse_mode_spec(mode_text(width, height, refresh_millihertz)) == Some(
            (width, height, (hundredths(refresh_millihertz as nat) * 10) as u32),
        ),
{
    let dw = decimal(width as nat);
    let dh = decimal(height as nat);
    let refresh = fixed2_abs(refresh_millihertz as nat);
    lemma_decimal(width as nat);
    lemma_decimal(height as nat);
    lemma_digits_exclude(dw, 'x');
    lemma_fixed2_reads_back(refresh_millihertz as nat);
    let c = hundredths(refresh_millihertz as nat);
    let dq = decimal(c / 100);
    lemma_decimal(c / 100);
    lemma_digits_exclude(dq, '@');
    lemma_digit_char((c % 10) as int);
    let size = dw + seq!['x'] + dh;
    let text = size + seq!['@'] + refresh;
    assert(mode_text(width, height, refresh_millihertz) =~= text);
    // No trailing `Hz` to strip.
    assert(text[text.len() - 1] == digit_char((c % 10) as int));
    assert(without_hz(text) == text);
    // The `@` before the refresh rate is the last one.
    let a = size.len() as int;
    assert(text[a] == '@');
    assert forall|j: int| a < j < text.len() implies text[j] != '@' by {
        assert(text[j] == refresh[j - a - 1]);
        if j - a - 1 < dq.len() {
            assert(refresh[j - a - 1] == dq[j - a - 1]);
        }
    }
    lemma_last_index_of_at(text, '@', a);
    assert(text.take(a) =~= size);
    assert(text.skip(a + 1) =~= refresh);
    // The `x` after the width is the first one.
    let b = dw.len() as int;
    assert forall|j: int| 0 <= j < b implies size[j] != 'x' by {
        assert(size[j] == dw[j]);
    }
    lemma_first_index_of_at(size, 'x', b);
    assert(size.take(b) =~= dw);
    assert(size.skip(b + 1) =~= dh);
    lemma_parse_u32_decimal(width);
    lemma_parse_u32_decimal(height);
}

} // verus!
