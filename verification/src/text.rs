//! Small verified helpers over strings and characters.

use vstd::prelude::*;
use vstd::string::StringExecFns;
use vstd::string::StrSliceExecFns;

verus! {

/// Characters of `s`, in order.
pub fn chars_of(s: &str) -> (out: Vec<char>)
    ensures
        out@ == s@,
{
    let mut out: Vec<char> = Vec::new();
    for c in it: s.chars()
        invariant
            out@ == it.seq().take(it.index() as int),
    {
        out.push(c);
    }
    out
}

/// `s[from..to]`, counted in characters, as an owned string.
pub fn substring(s: &str, from: usize, to: usize) -> (out: String)
    requires
        from <= to <= s@.len(),
    ensures
        out@ == s@.subrange(from as int, to as int),
{
    s.substring_char(from, to).to_owned()
}

/// Equality of two string slices.
pub(crate) fn str_eq(a: &str, b: &str) -> (r: bool)
    ensures
        r == (a@ == b@),
{
    let x: String = a.to_owned();
    let y: String = b.to_owned();
    x == y
}

} // verus!

verus! {

broadcast use vstd::seq_lib::group_seq_properties;

/// Whether `p` is a prefix of `s`.
pub open spec fn is_prefix(p: Seq<char>, s: Seq<char>) -> bool {
    p.len() <= s.len() && s.take(p.len() as int) == p
}

/// Whether `p` is a prefix of `s`.
pub fn prefix_of(p: &Vec<char>, s: &Vec<char>) -> (r: bool)
    ensures
        r == is_prefix(p@, s@),
{
    if p.len() > s.len() {
        return false;
    }
    for i in 0..p.len()
        invariant
            p@.len() <= s@.len(),
            forall|j: int| 0 <= j < i ==> p@[j] == s@[j],
    {
        if p[i] != s[i] {
            assert(s@.take(p@.len() as int)[i as int] != p@[i as int]);
            return false;
        }
    }
    assert(s@.take(p@.len() as int) =~= p@);
    true
}

/// Whether `s` starts with `p`.
pub fn starts_with(s: &str, p: &str) -> (r: bool)
    ensures
        r == is_prefix(p@, s@),
{
    let sc = chars_of(s);
    let pc = chars_of(p);
    prefix_of(&pc, &sc)
}

/// Whether `c` has the Unicode White_Space property (what `char::is_whitespace`
/// tests).
pub open spec fn is_ws(c: char) -> bool {
    ||| ('\u{9}' <= c && c <= '\u{d}')
    ||| c == ' '
    ||| c == '\u{85}'
    ||| c == '\u{a0}'
    ||| c == '\u{1680}'
    ||| ('\u{2000}' <= c && c <= '\u{200a}')
    ||| c == '\u{2028}'
    ||| c == '\u{2029}'
    ||| c == '\u{202f}'
    ||| c == '\u{205f}'
    ||| c == '\u{3000}'
}

/// Whether `c` is white space.
pub fn is_whitespace(c: char) -> (r: bool)
    ensures
        r == is_ws(c),
{
    ('\u{9}' <= c && c <= '\u{d}') || c == ' ' || c == '\u{85}' || c == '\u{a0}' || c == '\u{1680}'
        || ('\u{2000}' <= c && c <= '\u{200a}') || c == '\u{2028}' || c == '\u{2029}' || c == '\u{202f}'
        || c == '\u{205f}' || c == '\u{3000}'
}

/// Number of white-space characters at the start of `s`.
pub open spec fn leading_ws(s: Seq<char>) -> nat
    decreases s.len(),
{
    if s.len() > 0 && is_ws(s[0]) { 1 + leading_ws(s.drop_first()) } else { 0 }
}

/// Number of white-space characters at the end of `s`.
pub open spec fn trailing_ws(s: Seq<char>) -> nat
    decreases s.len(),
{
    if s.len() > 0 && is_ws(s.last()) { 1 + trailing_ws(s.drop_last()) } else { 0 }
}

/// `s` without leading white space (`str::trim_start`).
pub open spec fn trim_start(s: Seq<char>) -> Seq<char> {
    s.skip(leading_ws(s) as int)
}

/// `s` without trailing white space (`str::trim_end`).
pub open spec fn trim_end(s: Seq<char>) -> Seq<char> {
    s.take(s.len() - trailing_ws(s))
}

/// `s` without leading or trailing white space (`str::trim`).
pub open spec fn trim(s: Seq<char>) -> Seq<char> {
    trim_end(trim_start(s))
}

/// Position of the first `c` in `s` (`str::find` with a character).
pub open spec fn find_char(s: Seq<char>, c: char) -> Option<nat>
    decreases s.len(),
{
    if s.len() == 0 {
        None
    } else if s[0] == c {
        Some(0)
    } else {
        match find_char(s.drop_first(), c) {
            Some(i) => Some(i + 1),
            None => None,
        }
    }
}

pub proof fn lemma_leading_ws(s: Seq<char>, k: int)
    requires
        0 <= k <= s.len(),
        forall|j: int| 0 <= j < k ==> is_ws(#[trigger] s[j]),
        k == s.len() || !is_ws(s[k]),
    ensures
        leading_ws(s) == k,
    decreases k,
{
    if k > 0 {
        lemma_leading_ws(s.drop_first(), k - 1);
    }
}

pub proof fn lemma_trailing_ws(s: Seq<char>, k: int)
    requires
        0 <= k <= s.len(),
        forall|j: int| s.len() - k <= j < s.len() ==> is_ws(#[trigger] s[j]),
        k == s.len() || !is_ws(s[s.len() - k - 1]),
    ensures
        trailing_ws(s) == k,
    decreases k,
{
    if k > 0 {
        lemma_trailing_ws(s.drop_last(), k - 1);
    }
}

pub proof fn lemma_find_char(s: Seq<char>, c: char, k: int)
    requires
        0 <= k <= s.len(),
        forall|j: int| 0 <= j < k ==> #[trigger] s[j] != c,
    ensures
        k == s.len() ==> find_char(s, c) is None,
        k < s.len() && s[k] == c ==> find_char(s, c) == Some(k as nat),
    decreases k,
{
    if k > 0 {
        lemma_find_char(s.drop_first(), c, k - 1);
    }
}

/// First position in `lo..hi` whose character is not white space (`hi` if none).
pub fn skip_ws(cs: &Vec<char>, lo: usize, hi: usize) -> (p: usize)
    requires
        lo <= hi <= cs@.len(),
    ensures
        lo <= p <= hi,
        p - lo == leading_ws(cs@.subrange(lo as int, hi as int)),
{
    let mut p = lo;
    while p < hi && is_whitespace(cs[p])
        invariant
            lo <= p <= hi <= cs@.len(),
            forall|j: int| lo <= j < p ==> is_ws(#[trigger] cs@[j]),
        decreases hi - p,
    {
        p = p + 1;
    }
    proof {
        let s = cs@.subrange(lo as int, hi as int);
        assert forall|j: int| 0 <= j < p - lo implies is_ws(#[trigger] s[j]) by {
            assert(s[j] == cs@[lo + j]);
        }
        lemma_leading_ws(s, p - lo);
    }
    p
}

/// End of `lo..hi` once trailing white space is cut off.
pub fn cut_ws(cs: &Vec<char>, lo: usize, hi: usize) -> (p: usize)
    requires
        lo <= hi <= cs@.len(),
    ensures
        lo <= p <= hi,
        hi - p == trailing_ws(cs@.subrange(lo as int, hi as int)),
{
    let mut p = hi;
    while p > lo && is_whitespace(cs[p - 1])
        invariant
            lo <= p <= hi <= cs@.len(),
            forall|j: int| p <= j < hi ==> is_ws(#[trigger] cs@[j]),
        decreases p - lo,
    {
        p = p - 1;
    }
    proof {
        let s = cs@.subrange(lo as int, hi as int);
        assert forall|j: int| s.len() - (hi - p) <= j < s.len() implies is_ws(#[trigger] s[j]) by {
            assert(s[j] == cs@[lo + j]);
        }
        if p > lo { assert(s[s.len() - (hi - p) - 1] == cs@[p - 1]); }
        lemma_trailing_ws(s, hi - p);
    }
    p
}

/// First position in `lo..hi` holding `c`, if any.
pub fn find_in(cs: &Vec<char>, lo: usize, hi: usize, c: char) -> (r: Option<usize>)
    requires
        lo <= hi <= cs@.len(),
    ensures
        match r {
            Some(p) => lo <= p < hi && find_char(cs@.subrange(lo as int, hi as int), c) == Some((p - lo) as nat),
            None => find_char(cs@.subrange(lo as int, hi as int), c) is None,
        },
{
    let mut p = lo;
    while p < hi
        invariant
            lo <= p <= hi <= cs@.len(),
            forall|j: int| lo <= j < p ==> #[trigger] cs@[j] != c,
        decreases hi - p,
    {
        if cs[p] == c {
            proof {
                let s = cs@.subrange(lo as int, hi as int);
                assert forall|j: int| 0 <= j < p - lo implies #[trigger] s[j] != c by {
                    assert(s[j] == cs@[lo + j]);
                }
                lemma_find_char(s, c, p - lo);
            }
            return Some(p);
        }
        p = p + 1;
    }
    proof {
        let s = cs@.subrange(lo as int, hi as int);
        assert forall|j: int| 0 <= j < p - lo implies #[trigger] s[j] != c by {
            assert(s[j] == cs@[lo + j]);
        }
        lemma_find_char(s, c, p - lo);
    }
    None
}

} // verus!

verus! {

/// Whether `c` is an ASCII decimal digit.
pub open spec fn is_digit(c: char) -> bool {
    '0' <= c && c <= '9'
}

/// The value of the ASCII digit `c`.
pub open spec fn digit_value(c: char) -> nat {
    ((c as int) - ('0' as int)) as nat
}

/// The value of a string of decimal digits.
pub open spec fn digits_value(s: Seq<char>) -> nat
    decreases s.len(),
{
    if s.len() == 0 { 0 } else { digits_value(s.drop_last()) * 10 + digit_value(s.last()) }
}

/// The digits of an unsigned decimal literal: one leading '+' is allowed.
pub open spec fn unsigned_body(s: Seq<char>) -> Seq<char> {
    if s.len() > 1 && s[0] == '+' { s.drop_first() } else { s }
}

/// The value of `s` read as an unsigned integer no greater than `max`, as
/// the standard library's `from_str` for unsigned integers reads it.
pub open spec fn parse_unsigned(s: Seq<char>, max: nat) -> Option<nat> {
    let b = unsigned_body(s);
    if b.len() > 0 && (forall|i: int| 0 <= i < b.len() ==> is_digit(#[trigger] b[i])) && digits_value(b) <= max {
        Some(digits_value(b))
    } else {
        None
    }
}

/// Reads `cs[lo..hi]` as an unsigned integer no greater than `max`.
pub fn read_unsigned(cs: &Vec<char>, lo: usize, hi: usize, max: u64) -> (r: Option<u64>)
    requires
        lo <= hi <= cs@.len(),
        max <= u32::MAX,
    ensures
        match r {
            Some(v) => parse_unsigned(cs@.subrange(lo as int, hi as int), max as nat) == Some(v as nat),
            None => parse_unsigned(cs@.subrange(lo as int, hi as int), max as nat) is None,
        },
{
    let ghost s = cs@.subrange(lo as int, hi as int);
    let mut start = lo;
    if hi - lo > 1 && cs[lo] == '+' {
        start = lo + 1;
    }
    let ghost b = cs@.subrange(start as int, hi as int);
    assert(b =~= unsigned_body(s));
    if start == hi {
        assert(unsigned_body(s).len() == 0);
        assert(parse_unsigned(s, max as nat) is None);
        return None;
    }
    let mut acc: u64 = 0;
    let mut i = start;
    while i < hi
        invariant
            lo <= start <= i <= hi <= cs@.len(),
            max <= u32::MAX,
            b == cs@.subrange(start as int, hi as int),
            b == unsigned_body(cs@.subrange(lo as int, hi as int)),
            forall|j: int| start <= j < i ==> is_digit(#[trigger] cs@[j]),
            acc == (if digits_value(cs@.subrange(start as int, i as int)) > max {
                max + 1
            } else {
                digits_value(cs@.subrange(start as int, i as int)) as int
            }),
        decreases hi - i,
    {
        let c = cs[i];
        if !('0' <= c && c <= '9') {
            assert(!is_digit(b[i - start]));
            return None;
        }
        let d = (c as u64) - ('0' as u64);
        proof {
            let p = cs@.subrange(start as int, i as int);
            let p2 = cs@.subrange(start as int, i + 1);
            assert(p2.drop_last() =~= p);
            assert(p2.last() == c);
            assert(digits_value(p2) == digits_value(p) * 10 + digit_value(c));
        }
        if acc > max {
            acc = max + 1;
        } else {
            acc = acc * 10 + d;
            if acc > max {
                acc = max + 1;
            }
        }
        i = i + 1;
    }
    assert(cs@.subrange(start as int, hi as int) =~= b);
    if acc > max {
        None
    } else {
        Some(acc)
    }
}


/// The text of `a` followed by that of `b`.
pub(crate) fn concat(a: &str, b: &str) -> (r: String)
    ensures
        r@ == a@ + b@,
{
    a.to_owned().concat(b)
}

/// The string made of the characters `cs` (`String: FromIterator<char>`).
#[verifier::external_body]
pub(crate) fn string_of(cs: &Vec<char>) -> (r: String)
    ensures
        r@ == cs@,
{
    cs.iter().collect()
}

/// The ASCII digit for `d` (below ten).
pub open spec fn digit_char(d: nat) -> char {
    ((d + 48) as u8) as char
}

/// The decimal digits of `n`, without leading zeros.
pub open spec fn decimal(n: nat) -> Seq<char>
    decreases n,
{
    if n < 10 { seq![digit_char(n)] } else { decimal(n / 10).push(digit_char(n % 10)) }
}

/// The decimal digits of `n`.
pub fn decimal_chars(n: u64) -> (r: Vec<char>)
    ensures
        r@ == decimal(n as nat),
    decreases n,
{
    let d: u8 = (n % 10) as u8;
    let c: char = (d + 48) as char;
    if n < 10 {
        let mut v: Vec<char> = Vec::new();
        v.push(c);
        assert(v@ =~= decimal(n as nat));
        v
    } else {
        let mut v = decimal_chars(n / 10);
        v.push(c);
        v
    }
}

/// The decimal text of `n`.
pub fn decimal_string(n: u64) -> (r: String)
    ensures
        r@ == decimal(n as nat),
{
    string_of(&decimal_chars(n))
}

/// The decimal text of a number is a non-empty string of digits whose value
/// is the number.
pub proof fn lemma_decimal(n: nat)
    ensures
        decimal(n).len() > 0,
        forall|i: int| 0 <= i < decimal(n).len() ==> is_digit(#[trigger] decimal(n)[i]),
        digits_value(decimal(n)) == n,
    decreases n,
{
    lemma_digit_char(n % 10);
    if n < 10 {
        let s = decimal(n);
        assert(s.drop_last() =~= Seq::<char>::empty());
        assert(n % 10 == n);
        assert(digits_value(s) == digits_value(s.drop_last()) * 10 + digit_value(s.last()));
    } else {
        lemma_decimal(n / 10);
        let s = decimal(n);
        assert(s.drop_last() =~= decimal(n / 10));
        assert(s.last() == digit_char(n % 10));
        assert(digits_value(s) == digits_value(decimal(n / 10)) * 10 + digit_value(digit_char(n % 10)));
        assert(n == (n / 10) * 10 + n % 10) by (nonlinear_arith);
    }
}

/// The digit for `d` is a digit, and its value is `d`.
pub proof fn lemma_digit_char(d: nat)
    requires
        d < 10,
    ensures
        is_digit(digit_char(d)),
        digit_value(digit_char(d)) == d,
{
    let b: u8 = (d + 48) as u8;
    assert(b == d + 48);
    assert((b as char) as int == b as int);
}

/// Reading the decimal text of `n` gives `n` back, when `n` is in range.
pub proof fn lemma_parse_decimal(n: nat, max: nat)
    requires
        n <= max,
    ensures
        parse_unsigned(decimal(n), max) == Some(n),
{
    lemma_decimal(n);
    assert(unsigned_body(decimal(n)) == decimal(n));
}


/// `s` with white space cut off at both ends.
pub fn trim_str(s: &str) -> (r: String)
    ensures
        r@ == trim(s@),
{
    let cs = chars_of(s);
    let n = cs.len();
    let a = skip_ws(&cs, 0, n);
    let b = cut_ws(&cs, a, n);
    assert(cs@.subrange(0, n as int) =~= s@);
    assert(trim_start(s@) =~= cs@.subrange(a as int, n as int));
    assert(trim(s@) =~= cs@.subrange(a as int, b as int));
    substring(s, a, b)
}

} // verus!
