use vstd::prelude::*;

use crate::text::push_char;

verus! {

// ---------------------------------------------------------------------
// Decimal text of integers
// ---------------------------------------------------------------------

/// The ASCII digit for `d` (0 to 9).
pub open spec fn digit_char(d: int) -> char {
    (48 + d) as char
}

pub open spec fn is_digit(c: char) -> bool {
    '0' <= c && c <= '9'
}

pub open spec fn digit_value(c: char) -> int {
    c as int - 48
}

/// Decimal digits of `n`, most significant first, without leading zeros.
pub open spec fn decimal(n: nat) -> Seq<char>
    decreases n,
{
    if n < 10 {
        seq![digit_char(n as int)]
    } else {
        decimal(n / 10).push(digit_char((n % 10) as int))
    }
}

/// Decimal text of a signed integer, with a leading `-` when negative.
pub open spec fn signed_decimal(v: int) -> Seq<char> {
    if v < 0 {
        seq!['-'] + decimal((-v) as nat)
    } else {
        decimal(v as nat)
    }
}

/// A value given in thousandths, rounded to the nearest hundredth, an exact
/// half going to the even hundredth (as `{:.2}` formatting rounds).
pub open spec fn hundredths(m: nat) -> nat {
    let q = m / 10;
    let r = m % 10;
    if r > 5 || (r == 5 && q % 2 == 1) {
        q + 1
    } else {
        q
    }
}

/// Text of a value given in thousandths, with exactly two decimals.
pub open spec fn fixed2_abs(m: nat) -> Seq<char> {
    let c = hundredths(m);
    decimal(c / 100) + seq!['.', digit_char((c % 100) as int / 10), digit_char((c % 10) as int)]
}

/// Text of a signed value given in thousandths, with exactly two decimals.
pub open spec fn fixed2(m: int) -> Seq<char> {
    if m < 0 {
        seq!['-'] + fixed2_abs((-m) as nat)
    } else {
        fixed2_abs(m as nat)
    }
}

fn digit_to_char(d: u64) -> (c: char)
    requires
        d < 10,
    ensures
        c == digit_char(d as int),
{
    let b: u8 = 48u8 + (d as u8);
    b as char
}

/// Appends the decimal digits of `n`.
pub fn push_decimal(out: &mut String, n: u64)
    ensures
        final(out)@ == old(out)@ + decimal(n as nat),
    decreases n,
{
    if n >= 10 {
        push_decimal(out, n / 10);
    }
    push_char(out, digit_to_char(n % 10));
    assert(out@ =~= old(out)@ + decimal(n as nat));
}

/// Appends the decimal text of a signed integer.
pub fn push_signed_decimal(out: &mut String, v: i64)
    ensures
        final(out)@ == old(out)@ + signed_decimal(v as int),
{
    if v < 0 {
        push_char(out, '-');
        let magnitude: u64 = if v == i64::MIN {
            9223372036854775808u64
        } else {
            (-v) as u64
        };
        push_decimal(out, magnitude);
    } else {
        push_decimal(out, v as u64);
    }
    assert(out@ =~= old(out)@ + signed_decimal(v as int));
}

/// Appends a signed value given in thousandths with exactly two decimals.
pub fn push_fixed2(out: &mut String, m: i64)
    ensures
        final(out)@ == old(out)@ + fixed2(m as int),
{
    let magnitude: u64 = if m < 0 {
        push_char(out, '-');
        if m == i64::MIN {
            9223372036854775808u64
        } else {
            (-m) as u64
        }
    } else {
        m as u64
    };
    let q: u64 = magnitude / 10;
    let r: u64 = magnitude % 10;
    let c: u64 = if r > 5 || (r == 5 && q % 2 == 1) {
        q + 1
    } else {
        q
    };
    assert(c == hundredths(magnitude as nat));
    push_decimal(out, c / 100);
    push_char(out, '.');
    push_char(out, digit_to_char((c % 100) / 10));
    push_char(out, digit_to_char(c % 10));
    assert(out@ =~= old(out)@ + fixed2(m as int));
}

// ---------------------------------------------------------------------
// Reading decimal text
// ---------------------------------------------------------------------

pub open spec fn all_digits(s: Seq<char>) -> bool {
    forall|i: int| 0 <= i < s.len() ==> is_digit(#[trigger] s[i])
}

/// The number written by the digits `s`, most significant first.
pub open spec fn digits_value(s: Seq<char>) -> nat
    decreases s.len(),
{
    if s.len() == 0 {
        0
    } else {
        (digits_value(s.drop_last()) * 10 + digit_value(s.last())) as nat
    }
}

/// `s` without one leading `+`, if it has one.
pub open spec fn without_plus(s: Seq<char>) -> Seq<char> {
    if s.len() > 0 && s[0] == '+' {
        s.drop_first()
    } else {
        s
    }
}

/// What `u32::from_str` accepts: an optional `+`, then one or more ASCII
/// digits whose value fits in 32 bits.
pub open spec fn parse_u32_spec(s: Seq<char>) -> Option<u32> {
    let d = without_plus(s);
    if d.len() > 0 && all_digits(d) && digits_value(d) <= u32::MAX {
        Some(digits_value(d) as u32)
    } else {
        None
    }
}

/// The first index of `c` in `s`.
pub open spec fn first_index_of(s: Seq<char>, c: char) -> Option<int>
    decreases s.len(),
{
    if s.len() == 0 {
        None
    } else if s[0] == c {
        Some(0)
    } else {
        match first_index_of(s.drop_first(), c) {
            Some(i) => Some(i + 1),
            None => None,
        }
    }
}

/// The last index of `c` in `s`.
pub open spec fn last_index_of(s: Seq<char>, c: char) -> Option<int>
    decreases s.len(),
{
    if s.len() == 0 {
        None
    } else if s.last() == c {
        Some(s.len() - 1)
    } else {
        last_index_of(s.drop_last(), c)
    }
}

pub proof fn lemma_first_index_of(s: Seq<char>, c: char)
    ensures
        match first_index_of(s, c) {
            Some(i) => 0 <= i < s.len() && s[i] == c && forall|j: int| 0 <= j < i ==> s[j] != c,
            None => forall|j: int| 0 <= j < s.len() ==> s[j] != c,
        },
    decreases s.len(),
{
    if s.len() > 0 {
        lemma_first_index_of(s.drop_first(), c);
        if s[0] != c {
            match first_index_of(s.drop_first(), c) {
                Some(i) => {
                    assert forall|j: int| 0 <= j < i + 1 implies s[j] != c by {
                        if j > 0 {
                            assert(s[j] == s.drop_first()[j - 1]);
                        }
                    }
                },
                None => {
                    assert forall|j: int| 0 <= j < s.len() implies s[j] != c by {
                        if j > 0 {
                            assert(s[j] == s.drop_first()[j - 1]);
                        }
                    }
                },
            }
        }
    }
}

pub proof fn lemma_last_index_of(s: Seq<char>, c: char)
    ensures
        match last_index_of(s, c) {
            Some(i) => 0 <= i < s.len() && s[i] == c && forall|j: int| i < j < s.len() ==> s[j]
                != c,
            None => forall|j: int| 0 <= j < s.len() ==> s[j] != c,
        },
    decreases s.len(),
{
    if s.len() > 0 {
        lemma_last_index_of(s.drop_last(), c);
        if s.last() != c {
            match last_index_of(s.drop_last(), c) {
                Some(i) => {
                    assert forall|j: int| i < j < s.len() implies s[j] != c by {
                        if j < s.len() - 1 {
                            assert(s[j] == s.drop_last()[j]);
                        }
                    }
                },
                None => {
                    assert forall|j: int| 0 <= j < s.len() implies s[j] != c by {
                        if j < s.len() - 1 {
                            assert(s[j] == s.drop_last()[j]);
                        }
                    }
                },
            }
        }
    }
}

/// Finds the first index of `c` in `cs[lo..hi]`, relative to `lo`.
pub fn find_first(cs: &Vec<char>, lo: usize, hi: usize, c: char) -> (res: Option<usize>)
    requires
        lo <= hi <= cs@.len(),
    ensures
        res matches Some(i) ==> i < hi - lo && cs@[lo + i] == c,
        match first_index_of(cs@.subrange(lo as int, hi as int), c) {
            Some(i) => res matches Some(r) && r as int == i,
            None => res is None,
        },
{
    let ghost s = cs@.subrange(lo as int, hi as int);
    let mut i: usize = lo;
    while i < hi
        invariant
            lo <= i <= hi <= cs@.len(),
            s == cs@.subrange(lo as int, hi as int),
            forall|j: int| lo <= j < i ==> cs@[j] != c,
        decreases hi - i,
    {
        if cs[i] == c {
            proof {
                lemma_first_index_of(s, c);
                assert(s[i - lo] == c);
                match first_index_of(s, c) {
                    Some(k) => {
                        if k < i - lo {
                            assert(s[k] == cs@[lo + k]);
                        }
                    },
                    None => {},
                }
            }
            return Some(i - lo);
        }
        i = i + 1;
    }
    proof {
        lemma_first_index_of(s, c);
        match first_index_of(s, c) {
            Some(k) => {
                assert(s[k] == cs@[lo + k]);
            },
            None => {},
        }
    }
    None
}

/// Finds the last index of `c` in `cs[lo..hi]`, relative to `lo`.
pub fn find_last(cs: &Vec<char>, lo: usize, hi: usize, c: char) -> (res: Option<usize>)
    requires
        lo <= hi <= cs@.len(),
    ensures
        res matches Some(i) ==> i < hi - lo && cs@[lo + i] == c,
        match last_index_of(cs@.subrange(lo as int, hi as int), c) {
            Some(i) => res matches Some(r) && r as int == i,
            None => res is None,
        },
{
    let ghost s = cs@.subrange(lo as int, hi as int);
    let mut i: usize = hi;
    while i > lo
        invariant
            lo <= i <= hi <= cs@.len(),
            s == cs@.subrange(lo as int, hi as int),
            forall|j: int| i <= j < hi ==> cs@[j] != c,
        decreases i - lo,
    {
        if cs[i - 1] == c {
            proof {
                lemma_last_index_of(s, c);
                assert(s[i - 1 - lo] == c);
                match last_index_of(s, c) {
                    Some(k) => {
                        if k > i - 1 - lo {
                            assert(s[k] == cs@[lo + k]);
                        }
                    },
                    None => {},
                }
            }
            return Some(i - 1 - lo);
        }
        i = i - 1;
    }
    proof {
        lemma_last_index_of(s, c);
        match last_index_of(s, c) {
            Some(k) => {
                assert(s[k] == cs@[lo + k]);
            },
            None => {},
        }
    }
    None
}

proof fn lemma_digits_value_step(s: Seq<char>, i: int)
    requires
        0 <= i < s.len(),
        is_digit(s[i]),
    ensures
        digits_value(s.take(i + 1)) == digits_value(s.take(i)) * 10 + digit_value(s[i]),
{
    assert(s.take(i + 1).drop_last() =~= s.take(i));
    assert(s.take(i + 1).last() == s[i]);
}

/// A prefix of digits never writes a larger number than the whole.
proof fn lemma_digits_value_prefix(s: Seq<char>, i: int)
    requires
        0 <= i <= s.len(),
        all_digits(s),
    ensures
        digits_value(s.take(i)) <= digits_value(s),
    decreases s.len() - i,
{
    if i < s.len() {
        lemma_digits_value_step(s, i);
        assert(is_digit(s[i]));
        lemma_digits_value_prefix(s, i + 1);
    } else {
        assert(s.take(i) =~= s);
    }
}

/// Reads `cs[lo..hi]` as digits: the value, when every character is a digit
/// and the value fits in 32 bits.
pub fn scan_digits(cs: &Vec<char>, lo: usize, hi: usize) -> (res: Option<u32>)
    requires
        lo <= hi <= cs@.len(),
    ensures
        ({
            let s = cs@.subrange(lo as int, hi as int);
            res == if all_digits(s) && digits_value(s) <= u32::MAX {
                Some(digits_value(s) as u32)
            } else {
                None::<u32>
            }
        }),
{
    let ghost s = cs@.subrange(lo as int, hi as int);
    let mut acc: u64 = 0;
    let mut i: usize = lo;
    while i < hi
        invariant
            lo <= i <= hi <= cs@.len(),
            s == cs@.subrange(lo as int, hi as int),
            all_digits(s.take(i - lo)),
            acc == digits_value(s.take(i - lo)),
            acc <= u32::MAX,
        decreases hi - i,
    {
        let c = cs[i];
        if !('0' <= c && c <= '9') {
            proof {
                assert(s[i - lo] == c);
            }
            return None;
        }
        let d: u64 = (c as u32 - 48) as u64;
        proof {
            assert(s[i - lo] == c);
            lemma_digits_value_step(s, i - lo);
        }
        acc = acc * 10 + d;
        i = i + 1;
        assert(all_digits(s.take(i - lo))) by {
            assert forall|j: int| 0 <= j < i - lo implies is_digit(#[trigger] s.take(i - lo)[j]) by {
                if j < i - 1 - lo {
                    assert(s.take(i - lo)[j] == s.take(i - 1 - lo)[j]);
                }
            }
        }
        if acc > 4294967295u64 {
            proof {
                if all_digits(s) {
                    lemma_digits_value_prefix(s, i - lo);
                }
            }
            return None;
        }
    }
    assert(s.take(hi - lo) =~= s);
    Some(acc as u32)
}

// ---------------------------------------------------------------------
// Facts about written numbers
// ---------------------------------------------------------------------

pub proof fn lemma_digit_char(d: int)
    requires
        0 <= d < 10,
    ensures
        is_digit(digit_char(d)),
        digit_value(digit_char(d)) == d,
        digit_char(d) != '-' && digit_char(d) != '.' && digit_char(d) != '+',
        digit_char(d) != 'x' && digit_char(d) != '@' && digit_char(d) != 'z',
{
}

/// The decimal text of `n` is a non-empty run of digits that reads back as `n`.
pub proof fn lemma_decimal(n: nat)
    ensures
        decimal(n).len() > 0,
        all_digits(decimal(n)),
        digits_value(decimal(n)) == n,
    decreases n,
{
    lemma_digit_char((n % 10) as int);
    if n >= 10 {
        lemma_decimal(n / 10);
        let s = decimal(n);
        assert(s.drop_last() =~= decimal(n / 10));
        assert(s.last() == digit_char((n % 10) as int));
        assert((n / 10) * 10 + n % 10 == n);
        assert forall|i: int| 0 <= i < s.len() implies is_digit(#[trigger] s[i]) by {
            if i < s.len() - 1 {
                assert(s[i] == decimal(n / 10)[i]);
            }
        }
    } else {
        let s = decimal(n);
        assert(s.drop_last() =~= Seq::<char>::empty());
        assert(s.last() == digit_char(n as int));
        assert(digits_value(s.drop_last()) == 0);
    }
}

/// A run of digits holds no character other than digits.
pub proof fn lemma_digits_exclude(s: Seq<char>, c: char)
    requires
        all_digits(s),
        !is_digit(c),
    ensures
        forall|i: int| 0 <= i < s.len() ==> s[i] != c,
{
    assert forall|i: int| 0 <= i < s.len() implies s[i] != c by {
        assert(is_digit(s[i]));
    }
}

/// If `s[i] == c` and no `c` comes before, `first_index_of` finds `i`.
pub proof fn lemma_first_index_of_at(s: Seq<char>, c: char, i: int)
    requires
        0 <= i < s.len(),
        s[i] == c,
        forall|j: int| 0 <= j < i ==> s[j] != c,
    ensures
        first_index_of(s, c) == Some(i),
{
    lemma_first_index_of(s, c);
}

/// If `s[i] == c` and no `c` comes after, `last_index_of` finds `i`.
pub proof fn lemma_last_index_of_at(s: Seq<char>, c: char, i: int)
    requires
        0 <= i < s.len(),
        s[i] == c,
        forall|j: int| i < j < s.len() ==> s[j] != c,
    ensures
        last_index_of(s, c) == Some(i),
{
    lemma_last_index_of(s, c);
}

/// `u32::from_str` reads back the decimal text of any `u32`.
pub proof fn lemma_parse_u32_decimal(n: u32)
    ensures
        parse_u32_spec(decimal(n as nat)) == Some(n),
{
    lemma_decimal(n as nat);
    let s = decimal(n as nat);
    assert(is_digit(s[0]));
    assert(without_plus(s) == s);
}

} // verus!
