//! Character-level text utilities shared by the codec, the address
//! formatter and the configuration reader: bridging between `String`
//! and `Vec<char>`, decimal rendering and parsing, case-insensitive
//! comparison and whitespace trimming.

use vstd::prelude::*;

verus! {

broadcast use vstd::string::axiom_spec_iter;

/// Collects the characters of a string slice into a vector.
pub fn to_chars(s: &str) -> (r: Vec<char>)
    ensures
        r@ == s@,
{
    let mut r: Vec<char> = Vec::new();
    for c in it: s.chars()
        invariant
            it.seq() == s@,
            r@ == it.seq().take(it.index() as int),
    {
        r.push(c);
    }
    proof {
        assert(r@ =~= s@);
    }
    r
}

/// Relies on String::push: appends the given character at the end.
#[verifier::external_body]
fn push_char(s: &mut String, c: char)
    ensures
        final(s)@ == old(s)@.push(c),
{
    s.push(c);
}

/// Rebuilds a string from a vector of characters.
pub fn from_chars(v: &Vec<char>) -> (r: String)
    ensures
        r@ == v@,
{
    let mut r = String::new();
    let mut i: usize = 0;
    while i < v.len()
        invariant
            i <= v.len(),
            r@ == v@.take(i as int),
        decreases v.len() - i,
    {
        push_char(&mut r, v[i]);
        i = i + 1;
        proof {
            assert(r@ =~= v@.take(i as int));
        }
    }
    proof {
        assert(r@ =~= v@);
    }
    r
}

/// The decimal digit character for a value in `0 ..= 9`.
pub open spec fn dec_char(d: int) -> char {
    ((48 + d) as u32) as char
}

/// The usual decimal rendering of a non-negative integer: no sign, no
/// leading zeros except for the number zero itself.
pub open spec fn dec_rep(n: int) -> Seq<char>
    decreases n,
{
    if n < 10 {
        seq![dec_char(n)]
    } else {
        dec_rep(n / 10).push(dec_char(n % 10))
    }
}

/// Appends the decimal rendering of `n` to `out`.
pub fn push_dec_u64(out: &mut Vec<char>, n: u64)
    ensures
        final(out)@ == old(out)@ + dec_rep(n as int),
    decreases n,
{
    if n >= 10 {
        push_dec_u64(out, n / 10);
    }
    let d: u8 = (n % 10) as u8;
    let c: char = (48 + d) as char;
    proof {
        assert(c == dec_char((n % 10) as int));
    }
    out.push(c);
    proof {
        assert(out@ =~= old(out)@ + dec_rep(n as int));
    }
}

/// A Unicode White_Space character, the set that trimming removes.
pub open spec fn is_white(c: char) -> bool {
    let u = c as u32;
    (9 <= u && u <= 13) || u == 32 || u == 0x85 || u == 0xA0 || u == 0x1680 || (0x2000 <= u && u
        <= 0x200A) || u == 0x2028 || u == 0x2029 || u == 0x202F || u == 0x205F || u == 0x3000
}

/// Whether `c` is whitespace in the sense of [`is_white`].
fn is_white_char(c: char) -> (r: bool)
    ensures
        r == is_white(c),
{
    let u = c as u32;
    (9 <= u && u <= 13) || u == 32 || u == 0x85 || u == 0xA0 || u == 0x1680 || (0x2000 <= u && u
        <= 0x200A) || u == 0x2028 || u == 0x2029 || u == 0x202F || u == 0x205F || u == 0x3000
}

/// `s` with leading whitespace removed.
pub open spec fn trim_start(s: Seq<char>) -> Seq<char>
    decreases s.len(),
{
    if s.len() > 0 && is_white(s[0]) {
        trim_start(s.drop_first())
    } else {
        s
    }
}

/// `s` with trailing whitespace removed.
pub open spec fn trim_end(s: Seq<char>) -> Seq<char>
    decreases s.len(),
{
    if s.len() > 0 && is_white(s.last()) {
        trim_end(s.drop_last())
    } else {
        s
    }
}

/// `s` with leading and trailing whitespace removed, as `str::trim`
/// leaves it.
pub open spec fn trimmed(s: Seq<char>) -> Seq<char> {
    trim_end(trim_start(s))
}

/// Removes leading and trailing whitespace.
pub fn trim_chars(v: &Vec<char>) -> (r: Vec<char>)
    ensures
        r@ == trimmed(v@),
{
    let mut a: usize = 0;
    proof {
        assert(v@.skip(0) =~= v@);
    }
    loop
        invariant
            a <= v.len(),
            trim_start(v@) == trim_start(v@.skip(a as int)),
        ensures
            a <= v.len(),
            trim_start(v@) == v@.skip(a as int),
        decreases v.len() - a,
    {
        if a == v.len() {
            proof {
                assert(v@.skip(a as int) =~= Seq::<char>::empty());
            }
            break;
        }
        if !is_white_char(v[a]) {
            proof {
                assert(v@.skip(a as int)[0] == v@[a as int]);
            }
            break;
        }
        proof {
            assert(v@.skip(a as int)[0] == v@[a as int]);
            assert(v@.skip(a as int).drop_first() =~= v@.skip(a + 1));
        }
        a = a + 1;
    }
    let ghost t = v@.skip(a as int);
    let mut b: usize = v.len();
    proof {
        assert(t.take(v@.len() - a) =~= t);
    }
    loop
        invariant
            a <= b <= v.len(),
            t == v@.skip(a as int),
            trim_end(t) == trim_end(t.take(b - a)),
        ensures
            a <= b <= v.len(),
            trim_end(t) == t.take(b - a),
        decreases b,
    {
        if b == a {
            proof {
                assert(t.take(0) =~= Seq::<char>::empty());
            }
            break;
        }
        if !is_white_char(v[b - 1]) {
            proof {
                assert(t.take(b - a).last() == v@[b - 1]);
            }
            break;
        }
        proof {
            assert(t.take(b - a).last() == v@[b - 1]);
            assert(t.take(b - a).drop_last() =~= t.take(b - 1 - a));
        }
        b = b - 1;
    }
    let mut r: Vec<char> = Vec::new();
    let mut k: usize = a;
    while k < b
        invariant
            a <= k <= b <= v.len(),
            t == v@.skip(a as int),
            r@ == t.take(k - a),
        decreases b - k,
    {
        r.push(v[k]);
        k = k + 1;
        proof {
            assert(r@ =~= t.take(k - a));
        }
    }
    proof {
        assert(r@ == trimmed(v@));
    }
    r
}

/// A decimal digit character.
pub open spec fn is_dec_digit(c: char) -> bool {
    48 <= c as u32 && c as u32 <= 57
}

/// The value of a decimal digit character.
pub open spec fn dec_val(c: char) -> int {
    c as u32 - 48
}

/// The value of a string of decimal digits, most significant first.
pub open spec fn digits_val(s: Seq<char>) -> int
    decreases s.len(),
{
    if s.len() == 0 {
        0
    } else {
        digits_val(s.drop_last()) * 10 + dec_val(s.last())
    }
}

/// Every character of `s` is a decimal digit.
pub open spec fn all_dec_digits(s: Seq<char>) -> bool {
    forall|i: int| 0 <= i < s.len() ==> is_dec_digit(s[i])
}

/// What `str::parse::<u64>` accepts: an optional leading plus sign,
/// then at least one digit, with a value that fits in 64 bits.
pub open spec fn u64_dec_parse(s: Seq<char>) -> Option<u64> {
    let t = if s.len() > 0 && s[0] == '+' {
        s.drop_first()
    } else {
        s
    };
    if t.len() > 0 && all_dec_digits(t) && digits_val(t) <= u64::MAX as int {
        Some(digits_val(t) as u64)
    } else {
        None
    }
}

/// A digit string has a non-negative value.
proof fn lemma_digits_nonneg(s: Seq<char>)
    requires
        all_dec_digits(s),
    ensures
        digits_val(s) >= 0,
    decreases s.len(),
{
    if s.len() > 0 {
        assert(all_dec_digits(s.drop_last())) by {
            assert(forall|i: int| 0 <= i < s.len() - 1 ==> s.drop_last()[i] == s[i]);
        }
        lemma_digits_nonneg(s.drop_last());
    }
}

/// A digit string is worth at least any of its prefixes.
proof fn lemma_digits_prefix(s: Seq<char>, m: int)
    requires
        all_dec_digits(s),
        0 <= m <= s.len(),
    ensures
        digits_val(s) >= digits_val(s.take(m)),
    decreases s.len(),
{
    lemma_digits_nonneg(s);
    if m < s.len() {
        assert(all_dec_digits(s.drop_last())) by {
            assert(forall|i: int| 0 <= i < s.len() - 1 ==> s.drop_last()[i] == s[i]);
        }
        lemma_digits_prefix(s.drop_last(), m);
        assert(s.drop_last().take(m) =~= s.take(m));
        lemma_digits_nonneg(s.drop_last());
    } else {
        assert(s.take(m) =~= s);
    }
}

/// Parses a non-negative decimal integer as `str::parse::<u64>` does.
pub fn parse_u64(s: &str) -> (r: Option<u64>)
    ensures
        r == u64_dec_parse(s@),
{
    let v = to_chars(s);
    let mut i: usize = 0;
    if v.len() > 0 && v[0] == '+' {
        i = 1;
    }
    let ghost t = if s@.len() > 0 && s@[0] == '+' {
        s@.drop_first()
    } else {
        s@
    };
    proof {
        assert(v@.skip(i as int) =~= t);
    }
    if i == v.len() {
        proof {
            assert(t.len() == 0);
        }
        return None;
    }
    let mut acc: u64 = 0;
    let mut k: usize = i;
    while k < v.len()
        invariant
            i <= k <= v.len(),
            i < v.len(),
            v@ == s@,
            i <= 1,
            t == v@.skip(i as int),
            t == (if s@.len() > 0 && s@[0] == '+' {
                s@.drop_first()
            } else {
                s@
            }),
            all_dec_digits(t.take(k - i)),
            acc as int == digits_val(t.take(k - i)),
        decreases v.len() - k,
    {
        let c = v[k];
        let u = c as u32;
        proof {
            assert(t[k - i] == v@[k as int]);
        }
        if u < 48 || u > 57 {
            proof {
                assert(!is_dec_digit(t[k - i]));
                assert(!all_dec_digits(t));
            }
            return None;
        }
        let d = (u - 48) as u64;
        if acc > (u64::MAX - d) / 10 {
            proof {
                vstd::arithmetic::div_mod::lemma_fundamental_div_mod(
                    (u64::MAX - d) as int,
                    10,
                );
                assert(acc as int * 10 + d as int > u64::MAX as int);
                assert(t.take(k + 1 - i).drop_last() =~= t.take(k - i));
                assert(t.take(k + 1 - i).last() == t[k - i]);
                assert(digits_val(t.take(k + 1 - i)) > u64::MAX as int);
                assert(all_dec_digits(t.take(k + 1 - i)));
                if all_dec_digits(t) {
                    lemma_digits_prefix(t, k + 1 - i);
                    assert(digits_val(t) > u64::MAX as int);
                }
            }
            return None;
        }
        proof {
            vstd::arithmetic::div_mod::lemma_fundamental_div_mod((u64::MAX - d) as int, 10);
            assert(acc as int * 10 + d as int <= u64::MAX as int);
        }
        acc = acc * 10 + d;
        k = k + 1;
        proof {
            assert(t.take(k - i).drop_last() =~= t.take(k - 1 - i));
            assert(t.take(k - i).last() == t[k - 1 - i]);
            assert(all_dec_digits(t.take(k - i)));
        }
    }
    proof {
        assert(t.take(v@.len() - i) =~= t);
        assert(t.len() > 0);
        assert(all_dec_digits(t));
        assert(digits_val(t) == acc as int);
    }
    Some(acc)
}

/// Upper-case ASCII letters folded to lower case; other characters
/// unchanged.
pub open spec fn lower_ascii(c: char) -> char {
    if 65 <= c as u32 && c as u32 <= 90 {
        ((c as u32 + 32) as u32) as char
    } else {
        c
    }
}

/// Equality with the word "true" up to ASCII case, as
/// `str::eq_ignore_ascii_case` decides it.
pub open spec fn eq_true_ignore_case(s: Seq<char>) -> bool {
    s.len() == 4 && lower_ascii(s[0]) == 't' && lower_ascii(s[1]) == 'r' && lower_ascii(s[2])
        == 'u' && lower_ascii(s[3]) == 'e'
}

/// Whether `s` spells "true" up to ASCII case.
pub fn is_true_ignore_case(s: &str) -> (r: bool)
    ensures
        r == eq_true_ignore_case(s@),
{
    let v = to_chars(s);
    if v.len() != 4 {
        return false;
    }
    lower_ascii_char(v[0]) == 't' && lower_ascii_char(v[1]) == 'r' && lower_ascii_char(v[2])
        == 'u' && lower_ascii_char(v[3]) == 'e'
}

/// Folds one ASCII letter to lower case.
fn lower_ascii_char(c: char) -> (r: char)
    ensures
        r == lower_ascii(c),
{
    let u = c as u32;
    if 65 <= u && u <= 90 {
        let r: char = ((u + 32) as u8) as char;
        proof {
            assert(r as u32 == u + 32);
            let sc = ((c as u32 + 32) as u32) as char;
            assert(sc as u32 == u + 32);
            vstd::utf8::char_u32_cast(r, r as u32);
            vstd::utf8::char_u32_cast(sc, sc as u32);
        }
        r
    } else {
        c
    }
}

} // verus!
