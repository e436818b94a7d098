use vstd::prelude::*;
use vstd::string::*;

verus! {

/// `String::push` from std: appends one character.
#[verifier::external_body]
pub(crate) fn push_char(out: &mut String, c: char)
    ensures
        final(out)@ == old(out)@.push(c),
{
    out.push(c);
}

/// The characters of `s`, in order.
pub fn chars_of(s: &str) -> (res: Vec<char>)
    ensures
        res@ == s@,
{
    let n = s.unicode_len();
    let mut res: Vec<char> = Vec::new();
    let mut i: usize = 0;
    while i < n
        invariant
            n == s@.len(),
            i <= n,
            res@ == s@.take(i as int),
        decreases n - i,
    {
        let c = s.get_char(i);
        res.push(c);
        i = i + 1;
        assert(res@ =~= s@.take(i as int));
    }
    assert(res@ =~= s@);
    res
}

/// How one character is written inside a double-quoted Lua string.
pub open spec fn lua_escape_char(c: char) -> Seq<char> {
    if c == '\\' {
        seq!['\\', '\\']
    } else if c == '"' {
        seq!['\\', '"']
    } else if c == '\n' {
        seq!['\\', 'n']
    } else if c == '\r' {
        seq!['\\', 'r']
    } else {
        seq![c]
    }
}

/// The body of a double-quoted Lua string holding `s`.
pub open spec fn lua_escape(s: Seq<char>) -> Seq<char>
    decreases s.len(),
{
    if s.len() == 0 {
        Seq::empty()
    } else {
        lua_escape_char(s[0]) + lua_escape(s.drop_first())
    }
}

/// A double-quoted Lua string literal whose value is `s`.
pub open spec fn lua_quoted(s: Seq<char>) -> Seq<char> {
    seq!['"'] + lua_escape(s) + seq!['"']
}

/// What a Lua reader makes of the body of a double-quoted string that uses
/// only the escapes `\\`, `\"`, `\n` and `\r`.
pub open spec fn lua_unescape(s: Seq<char>) -> Seq<char>
    decreases s.len(),
{
    if s.len() == 0 {
        Seq::empty()
    } else if s[0] == '\\' && s.len() >= 2 {
        let c = if s[1] == 'n' {
            '\n'
        } else if s[1] == 'r' {
            '\r'
        } else {
            s[1]
        };
        seq![c] + lua_unescape(s.skip(2))
    } else {
        seq![s[0]] + lua_unescape(s.skip(1))
    }
}

pub proof fn lemma_lua_escape_concat(a: Seq<char>, b: Seq<char>)
    ensures
        lua_escape(a + b) == lua_escape(a) + lua_escape(b),
    decreases a.len(),
{
    if a.len() == 0 {
        assert(a + b =~= b);
    } else {
        assert((a + b).drop_first() =~= a.drop_first() + b);
        lemma_lua_escape_concat(a.drop_first(), b);
        assert(lua_escape(a + b) =~= lua_escape(a) + lua_escape(b));
    }
}

/// Quoting is faithful: reading back the body of `lua_string(s)` gives `s`.
pub proof fn lemma_lua_escape_roundtrip(s: Seq<char>)
    ensures
        lua_unescape(lua_escape(s)) == s,
    decreases s.len(),
{
    if s.len() > 0 {
        lemma_lua_escape_roundtrip(s.drop_first());
        let e = lua_escape_char(s[0]);
        let rest = lua_escape(s.drop_first());
        let all = e + rest;
        if e.len() == 2 {
            assert(all.skip(2) =~= rest);
        } else {
            assert(all.skip(1) =~= rest);
        }
        assert(seq![s[0]] + s.drop_first() =~= s);
    }
}

/// The body of a quoted string never holds a raw line break.
pub proof fn lemma_lua_escape_has_no_raw_breaks(s: Seq<char>)
    ensures
        forall|i: int|
            0 <= i < lua_escape(s).len() ==> lua_escape(s)[i] != '\n' && lua_escape(s)[i]
                != '\r',
    decreases s.len(),
{
    if s.len() > 0 {
        lemma_lua_escape_has_no_raw_breaks(s.drop_first());
        let e = lua_escape_char(s[0]);
        let rest = lua_escape(s.drop_first());
        assert forall|i: int| 0 <= i < lua_escape(s).len() implies lua_escape(s)[i] != '\n'
            && lua_escape(s)[i] != '\r' by {
            if i >= e.len() {
                assert(lua_escape(s)[i] == rest[i - e.len()]);
            }
        }
    }
}

/// The characters that quoting escapes.
pub open spec fn needs_escape(c: char) -> bool {
    c == '\\' || c == '"' || c == '\n' || c == '\r'
}

/// How many characters of `s` quoting escapes.
pub open spec fn escape_count(s: Seq<char>) -> nat
    decreases s.len(),
{
    if s.len() == 0 {
        0
    } else {
        (if needs_escape(s[0]) {
            1nat
        } else {
            0nat
        }) + escape_count(s.drop_first())
    }
}

/// A Lua reader scanning `b` as the body of a double-quoted string meets no
/// unescaped quote and no raw line break, every backslash starts one of the
/// escapes `\\`, `\"`, `\n`, `\r`, and no escape is cut off at the end: the
/// literal closes at the quote after `b`, not earlier.
pub open spec fn closed_body(b: Seq<char>) -> bool
    decreases b.len(),
{
    if b.len() == 0 {
        true
    } else if b[0] == '\\' {
        &&& b.len() >= 2
        &&& (b[1] == '\\' || b[1] == '"' || b[1] == 'n' || b[1] == 'r')
        &&& closed_body(b.skip(2))
    } else {
        &&& b[0] != '"'
        &&& b[0] != '\n'
        &&& b[0] != '\r'
        &&& closed_body(b.skip(1))
    }
}

/// `lua_quoted(s)` (what `lua_string` returns) is one complete Lua string
/// literal: its body closes only at the final quote, it reads back as `s`,
/// and it is two quotes plus one extra character per escaped character
/// longer than `s`.
pub proof fn lemma_lua_string_literal(s: Seq<char>)
    ensures
        closed_body(lua_escape(s)),
        lua_unescape(lua_escape(s)) == s,
        lua_escape(s).len() == s.len() + escape_count(s),
        lua_quoted(s).len() == s.len() + 2 + escape_count(s),
        lua_quoted(s) == seq!['"'] + lua_escape(s) + seq!['"'],
    decreases s.len(),
{
    lemma_lua_escape_roundtrip(s);
    if s.len() > 0 {
        lemma_lua_string_literal(s.drop_first());
        let e = lua_escape_char(s[0]);
        let rest = lua_escape(s.drop_first());
        let all = e + rest;
        if e.len() == 2 {
            assert(all.skip(2) =~= rest);
        } else {
            assert(all.skip(1) =~= rest);
        }
    }
}

/// Appends the Lua escape of one character.
fn push_lua_escaped(out: &mut String, c: char)
    ensures
        final(out)@ == old(out)@ + lua_escape_char(c),
{
    if c == '\\' {
        push_char(out, '\\');
        push_char(out, '\\');
    } else if c == '"' {
        push_char(out, '\\');
        push_char(out, '"');
    } else if c == '\n' {
        push_char(out, '\\');
        push_char(out, 'n');
    } else if c == '\r' {
        push_char(out, '\\');
        push_char(out, 'r');
    } else {
        push_char(out, c);
    }
    assert(out@ =~= old(out)@ + lua_escape_char(c));
}

/// Appends `lua_quoted(value)`.
pub fn push_lua_string(out: &mut String, value: &str)
    ensures
        final(out)@ == old(out)@ + lua_quoted(value@),
{
    let cs = chars_of(value);
    push_char(out, '"');
    let ghost start = out@;
    let mut i: usize = 0;
    while i < cs.len()
        invariant
            i <= cs@.len(),
            cs@ == value@,
            out@ == start + lua_escape(cs@.take(i as int)),
        decreases cs@.len() - i,
    {
        proof {
            lemma_lua_escape_concat(cs@.take(i as int), seq![cs@[i as int]]);
            assert(cs@.take(i as int) + seq![cs@[i as int]] =~= cs@.take(i + 1));
            let one = seq![cs@[i as int]];
            assert(one.drop_first() =~= Seq::<char>::empty());
            assert(lua_escape(one.drop_first()) =~= Seq::<char>::empty());
            assert(one[0] == cs@[i as int]);
            assert(lua_escape(one) =~= lua_escape_char(cs@[i as int]));
        }
        push_lua_escaped(out, cs[i]);
        i = i + 1;
    }
    assert(cs@.take(cs@.len() as int) =~= cs@);
    push_char(out, '"');
    assert(out@ =~= old(out)@ + lua_quoted(value@));
}

/// Quotes `value` as a double-quoted Lua string literal: backslashes,
/// double quotes, line feeds and carriage returns are escaped.
pub fn lua_string(value: &str) -> (res: String)
    ensures
        res@ == lua_quoted(value@),
{
    let mut out = String::new();
    push_lua_string(&mut out, value);
    assert(out@ =~= lua_quoted(value@));
    out
}

// ---------------------------------------------------------------------
// Ordering and prefixes of texts
// ---------------------------------------------------------------------

/// Lexicographic order of texts, character by character.
pub open spec fn lex_less(a: Seq<char>, b: Seq<char>) -> bool
    decreases a.len(),
{
    if a.len() == 0 {
        b.len() > 0
    } else if b.len() == 0 {
        false
    } else if a[0] != b[0] {
        a[0] < b[0]
    } else {
        lex_less(a.drop_first(), b.drop_first())
    }
}

/// The lexicographic order is a strict total order.
pub proof fn lemma_lex_total(a: Seq<char>, b: Seq<char>)
    ensures
        !(lex_less(a, b) && lex_less(b, a)),
        a == b || lex_less(a, b) || lex_less(b, a),
        !lex_less(a, a),
    decreases a.len(),
{
    if a.len() > 0 && b.len() > 0 {
        lemma_lex_total(a.drop_first(), b.drop_first());
        if a[0] == b[0] && a.drop_first() == b.drop_first() {
            assert(a =~= seq![a[0]] + a.drop_first());
            assert(b =~= seq![b[0]] + b.drop_first());
        }
    }
    if a.len() > 0 {
        lemma_lex_total(a.drop_first(), a.drop_first());
    }
    if a.len() == 0 && b.len() == 0 {
        assert(a =~= b);
    }
}

pub proof fn lemma_lex_transitive(a: Seq<char>, b: Seq<char>, c: Seq<char>)
    requires
        lex_less(a, b),
        lex_less(b, c),
    ensures
        lex_less(a, c),
    decreases a.len(),
{
    if a.len() > 0 && b.len() > 0 && c.len() > 0 {
        if a[0] == b[0] && b[0] == c[0] {
            lemma_lex_transitive(a.drop_first(), b.drop_first(), c.drop_first());
        }
    }
}

proof fn lemma_lex_skip(a: Seq<char>, b: Seq<char>, i: int)
    requires
        0 <= i <= a.len(),
        i <= b.len(),
        a.take(i) == b.take(i),
    ensures
        lex_less(a, b) == lex_less(a.skip(i), b.skip(i)),
    decreases i,
{
    if i > 0 {
        assert(a[0] == a.take(i)[0]);
        assert(b[0] == b.take(i)[0]);
        assert(a.drop_first().take(i - 1) =~= a.take(i).drop_first());
        assert(b.drop_first().take(i - 1) =~= b.take(i).drop_first());
        lemma_lex_skip(a.drop_first(), b.drop_first(), i - 1);
        assert(a.drop_first().skip(i - 1) =~= a.skip(i));
        assert(b.drop_first().skip(i - 1) =~= b.skip(i));
    } else {
        assert(a.skip(0) =~= a);
        assert(b.skip(0) =~= b);
    }
}

/// Whether `a` comes before `b` in lexicographic order.
pub fn text_less(a: &str, b: &str) -> (res: bool)
    ensures
        res == lex_less(a@, b@),
{
    let x = chars_of(a);
    let y = chars_of(b);
    let mut i: usize = 0;
    while i < x.len() && i < y.len() && x[i] == y[i]
        invariant
            i <= x@.len(),
            i <= y@.len(),
            x@ == a@,
            y@ == b@,
            x@.take(i as int) == y@.take(i as int),
        decreases x@.len() - i,
    {
        i = i + 1;
        assert(x@.take(i as int) =~= x@.take(i - 1).push(x@[i - 1]));
        assert(y@.take(i as int) =~= y@.take(i - 1).push(y@[i - 1]));
    }
    proof {
        lemma_lex_skip(x@, y@, i as int);
        let xs = x@.skip(i as int);
        let ys = y@.skip(i as int);
        if xs.len() > 0 && ys.len() > 0 {
            assert(xs[0] == x@[i as int]);
            assert(ys[0] == y@[i as int]);
        }
    }
    if i == x.len() {
        i < y.len()
    } else if i == y.len() {
        false
    } else {
        x[i] < y[i]
    }
}

pub open spec fn has_prefix(s: Seq<char>, prefix: Seq<char>) -> bool {
    prefix.len() <= s.len() && s.take(prefix.len() as int) == prefix
}

/// Whether `s` begins with `prefix`.
pub fn starts_with(s: &str, prefix: &Vec<char>) -> (res: bool)
    ensures
        res == has_prefix(s@, prefix@),
{
    let x = chars_of(s);
    if prefix.len() > x.len() {
        return false;
    }
    let mut i: usize = 0;
    while i < prefix.len()
        invariant
            prefix@.len() <= x@.len(),
            x@ == s@,
            i <= prefix@.len(),
            x@.take(i as int) == prefix@.take(i as int),
        decreases prefix@.len() - i,
    {
        if x[i] != prefix[i] {
            assert(x@.take(prefix@.len() as int)[i as int] == x@[i as int]);
            return false;
        }
        i = i + 1;
        assert(x@.take(i as int) =~= prefix@.take(i as int));
    }
    assert(prefix@.take(prefix@.len() as int) =~= prefix@);
    true
}

} // verus!
