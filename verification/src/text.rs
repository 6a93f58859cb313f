//! Character-level helpers shared by the URL, header and process-argument
//! builders: trimming by character class, prefix tests, decimal rendering and
//! UTF-16 encoding, each stated over `Seq<char>`.
use vstd::prelude::*;
use vstd::string::*;

verus! {

broadcast use vstd::string::group_string_axioms;

/// The classes of characters that the trimming helpers strip.
#[derive(Clone, Copy, PartialEq, Eq, Debug)]
pub enum CharClass {
    /// Unicode `White_Space`, as `char::is_whitespace` and `str::trim` use it.
    Whitespace,
    /// The single character `/`.
    Slash,
}

/// Unicode's `White_Space` property: the characters `char::is_whitespace`
/// accepts.
pub open spec fn is_whitespace(c: char) -> bool {
    let u = c as u32;
    ||| 0x09 <= u <= 0x0D
    ||| u == 0x20
    ||| u == 0x85
    ||| u == 0xA0
    ||| u == 0x1680
    ||| 0x2000 <= u <= 0x200A
    ||| u == 0x2028
    ||| u == 0x2029
    ||| u == 0x202F
    ||| u == 0x205F
    ||| u == 0x3000
}

pub open spec fn in_class(cls: CharClass, c: char) -> bool {
    match cls {
        CharClass::Whitespace => is_whitespace(c),
        CharClass::Slash => c == '/',
    }
}

/// `s` without its longest prefix of characters of class `cls`.
pub open spec fn trim_start(s: Seq<char>, cls: CharClass) -> Seq<char>
    decreases s.len(),
{
    if s.len() > 0 && in_class(cls, s[0]) {
        trim_start(s.drop_first(), cls)
    } else {
        s
    }
}

/// `s` without its longest suffix of characters of class `cls`.
pub open spec fn trim_end(s: Seq<char>, cls: CharClass) -> Seq<char>
    decreases s.len(),
{
    if s.len() > 0 && in_class(cls, s.last()) {
        trim_end(s.drop_last(), cls)
    } else {
        s
    }
}

/// `str::trim`: both ends stripped of whitespace.
pub open spec fn trim(s: Seq<char>) -> Seq<char> {
    trim_end(trim_start(s, CharClass::Whitespace), CharClass::Whitespace)
}

pub open spec fn starts_with(s: Seq<char>, p: Seq<char>) -> bool {
    p.len() <= s.len() && s.subrange(0, p.len() as int) == p
}

/// The character of the decimal digit `d` (`d < 10`).
pub open spec fn digit_char(d: nat) -> char {
    ((d + 48) as u8) as char
}

/// The decimal rendering of `n`, without sign or leading zeros.
pub open spec fn decimal(n: nat) -> Seq<char>
    decreases n,
{
    if n < 10 {
        seq![digit_char(n)]
    } else {
        decimal(n / 10).push(digit_char(n % 10))
    }
}

/// The number that a string of decimal digits reads as, most significant
/// digit first.
pub open spec fn digits_value(s: Seq<char>) -> int
    decreases s.len(),
{
    if s.len() == 0 {
        0
    } else {
        digits_value(s.drop_last()) * 10 + ((s.last() as u32) - ('0' as u32))
    }
}

/// The decimal rendering of `n` is made of the characters `0` to `9` only,
/// reads back as `n`, and starts with `0` only when it is the single digit
/// of zero.
pub proof fn law_decimal_reads_back(n: nat)
    ensures
        decimal(n).len() >= 1,
        forall|k: int| 0 <= k < decimal(n).len() ==> '0' <= #[trigger] decimal(n)[k] <= '9',
        digits_value(decimal(n)) == n,
        decimal(n)[0] == '0' ==> n == 0 && decimal(n).len() == 1,
    decreases n,
{
    if n < 10 {
        assert(decimal(n) == seq![digit_char(n)]);
        assert(seq![digit_char(n)].drop_last() =~= Seq::<char>::empty());
        assert((digit_char(n) as u32) == n + 48);
        assert(digits_value(Seq::<char>::empty()) == 0);
        assert(digits_value(decimal(n)) == digits_value(decimal(n).drop_last()) * 10 + ((decimal(n).last() as u32) - ('0' as u32)));
    } else {
        law_decimal_reads_back(n / 10);
        let p = decimal(n / 10);
        let d = digit_char(n % 10);
        assert((d as u32) == n % 10 + 48);
        assert(decimal(n) == p.push(d));
        assert(decimal(n).drop_last() =~= p);
        assert(decimal(n)[0] == p[0]);
        assert(digits_value(decimal(n)) == digits_value(p) * 10 + (n % 10));
        assert(n == (n / 10) * 10 + n % 10);
        assert forall|k: int| 0 <= k < decimal(n).len() implies '0' <= #[trigger] decimal(n)[k] <= '9' by {
            if k < p.len() {
                assert(decimal(n)[k] == p[k]);
            }
        }
    }
}

/// The UTF-16 code units of one character.
pub open spec fn utf16_of_char(c: char) -> Seq<u16> {
    let u = c as u32;
    if u < 0x10000 {
        seq![u as u16]
    } else {
        let v = (u - 0x10000) as nat;
        seq![(0xD800 + v / 0x400) as u16, (0xDC00 + v % 0x400) as u16]
    }
}

/// The UTF-16 encoding of a character sequence.
pub open spec fn utf16(s: Seq<char>) -> Seq<u16>
    decreases s.len(),
{
    if s.len() == 0 {
        Seq::empty()
    } else {
        utf16(s.drop_last()) + utf16_of_char(s.last())
    }
}

pub open spec fn is_high_surrogate(u: u16) -> bool {
    0xD800 <= u < 0xDC00
}

pub open spec fn is_low_surrogate(u: u16) -> bool {
    0xDC00 <= u < 0xE000
}

/// The characters a UTF-16 code unit sequence stands for, or `None` when it
/// is not well-formed (an unpaired surrogate). Decoded from the end: a
/// non-surrogate unit is a character of its own, and a high surrogate
/// followed by a low one is the supplementary character they encode.
pub open spec fn utf16_decode(u: Seq<u16>) -> Option<Seq<char>>
    decreases u.len(),
{
    if u.len() == 0 {
        Some(Seq::empty())
    } else if !is_high_surrogate(u.last()) && !is_low_surrogate(u.last()) {
        match utf16_decode(u.drop_last()) {
            Some(p) => Some(p.push((u.last() as u32) as char)),
            None => None,
        }
    } else if u.len() >= 2 && is_high_surrogate(u[u.len() - 2]) && is_low_surrogate(u.last()) {
        let cp = (0x10000 + (u[u.len() - 2] - 0xD800) * 0x400 + (u.last() - 0xDC00)) as u32;
        match utf16_decode(u.subrange(0, u.len() - 2)) {
            Some(p) => Some(p.push(cp as char)),
            None => None,
        }
    } else {
        None
    }
}

/// Decoding the UTF-16 encoding of a character sequence gives the sequence
/// back.
pub proof fn lemma_utf16_round_trip(s: Seq<char>)
    ensures
        utf16_decode(utf16(s)) == Some(s),
    decreases s.len(),
{
    if s.len() > 0 {
        let prev = s.drop_last();
        let c = s.last();
        let u = utf16(s);
        lemma_utf16_round_trip(prev);
        vstd::utf8::char_is_scalar(c);
        let x = c as u32;
        if x < 0x10000 {
            assert(u == utf16(prev).push(x as u16));
            assert(u.drop_last() == utf16(prev));
            assert((u.last() as u32) == x);
            vstd::utf8::char_u32_cast(c, x);
            assert(s == prev.push(c));
        } else {
            let v = (x - 0x10000) as nat;
            let hi = (0xD800 + v / 0x400) as u16;
            let lo = (0xDC00 + v % 0x400) as u16;
            assert(u == utf16(prev) + seq![hi, lo]);
            assert(u.subrange(0, u.len() - 2) == utf16(prev));
            assert(u[u.len() - 2] == hi);
            assert(u.last() == lo);
            assert(is_high_surrogate(hi) && is_low_surrogate(lo));
            assert((0x10000 + (hi - 0xD800) * 0x400 + (lo - 0xDC00)) == x);
            vstd::utf8::char_u32_cast(c, x);
            assert(s == prev.push(c));
        }
    }
}

/// Stripping a trailing run leaves a prefix of `s` that does not end in a
/// character of the class, and everything removed is of the class.
pub proof fn law_trim_end_characterized(s: Seq<char>, cls: CharClass)
    ensures
        trim_end(s, cls).len() <= s.len(),
        trim_end(s, cls) == s.subrange(0, trim_end(s, cls).len() as int),
        forall|k: int| trim_end(s, cls).len() <= k < s.len() ==> in_class(cls, #[trigger] s[k]),
        trim_end(s, cls).len() == 0 || !in_class(cls, trim_end(s, cls).last()),
    decreases s.len(),
{
    if s.len() > 0 && in_class(cls, s.last()) {
        let p = s.drop_last();
        law_trim_end_characterized(p, cls);
        assert(p.subrange(0, trim_end(p, cls).len() as int) =~= s.subrange(
            0,
            trim_end(p, cls).len() as int,
        ));
        assert forall|k: int| trim_end(s, cls).len() <= k < s.len() implies in_class(
            cls,
            #[trigger] s[k],
        ) by {
            if k < s.len() - 1 {
                assert(p[k] == s[k]);
            }
        }
    } else {
        assert(s.subrange(0, s.len() as int) =~= s);
    }
}

/// Stripping a leading run leaves a suffix of `s` that does not start with
/// a character of the class, and everything removed is of the class.
pub proof fn law_trim_start_characterized(s: Seq<char>, cls: CharClass)
    ensures
        trim_start(s, cls).len() <= s.len(),
        trim_start(s, cls) == s.skip(s.len() - trim_start(s, cls).len()),
        forall|k: int| 0 <= k < s.len() - trim_start(s, cls).len() ==> in_class(cls, #[trigger] s[k]),
        trim_start(s, cls).len() == 0 || !in_class(cls, trim_start(s, cls)[0]),
    decreases s.len(),
{
    if s.len() > 0 && in_class(cls, s[0]) {
        let p = s.drop_first();
        law_trim_start_characterized(p, cls);
        assert(p.skip(p.len() - trim_start(p, cls).len()) =~= s.skip(
            s.len() - trim_start(p, cls).len(),
        ));
        assert forall|k: int| 0 <= k < s.len() - trim_start(s, cls).len() implies in_class(
            cls,
            #[trigger] s[k],
        ) by {
            if k > 0 {
                assert(p[k - 1] == s[k]);
            }
        }
    } else {
        assert(s.skip(0) =~= s);
    }
}

/// `String::push`: appends one character to the string.
#[verifier::external_body]
pub(crate) fn push_char(s: &mut String, c: char)
    ensures
        final(s)@ == old(s)@.push(c),
{
    s.push(c)
}

pub fn in_class_exec(cls: CharClass, c: char) -> (r: bool)
    ensures
        r == in_class(cls, c),
{
    match cls {
        CharClass::Whitespace => {
            let u = c as u32;
            (0x09 <= u && u <= 0x0D) || u == 0x20 || u == 0x85 || u == 0xA0 || u == 0x1680 || (
            0x2000 <= u && u <= 0x200A) || u == 0x2028 || u == 0x2029 || u == 0x202F || u
                == 0x205F || u == 0x3000
        },
        CharClass::Slash => c == '/',
    }
}

/// The characters of `s`, in order.
pub fn chars_of(s: &str) -> (v: Vec<char>)
    ensures
        v@ == s@,
{
    let mut v: Vec<char> = Vec::new();
    for c in it: s.chars()
        invariant
            v@ == it.seq().take(it.index() as int),
            it.seq() == s@,
    {
        v.push(c);
    }
    v
}

/// Appends `v[lo..hi]` to `out`.
pub fn push_range(out: &mut String, v: &Vec<char>, lo: usize, hi: usize)
    requires
        lo <= hi <= v@.len(),
    ensures
        final(out)@ == old(out)@ + v@.subrange(lo as int, hi as int),
{
    let ghost start = out@;
    let mut i = lo;
    while i < hi
        invariant
            lo <= i <= hi <= v@.len(),
            out@ == start + v@.subrange(lo as int, i as int),
        decreases hi - i,
    {
        push_char(out, v[i]);
        assert(v@.subrange(lo as int, i + 1) == v@.subrange(lo as int, i as int).push(v@[i as int]));
        i = i + 1;
    }
}

proof fn lemma_trim_start_step(v: Seq<char>, r: int, hi: int, cls: CharClass)
    requires
        0 <= r < hi <= v.len(),
        in_class(cls, v[r]),
    ensures
        trim_start(v.subrange(r, hi), cls) == trim_start(v.subrange(r + 1, hi), cls),
{
    assert(v.subrange(r, hi).drop_first() == v.subrange(r + 1, hi));
}

proof fn lemma_trim_end_step(v: Seq<char>, lo: int, r: int, cls: CharClass)
    requires
        0 <= lo < r <= v.len(),
        in_class(cls, v[r - 1]),
    ensures
        trim_end(v.subrange(lo, r), cls) == trim_end(v.subrange(lo, r - 1), cls),
{
    assert(v.subrange(lo, r).drop_last() == v.subrange(lo, r - 1));
}

/// The index where `v[lo..hi]` starts once its leading run of `cls`
/// characters is skipped.
pub fn skip_leading(v: &Vec<char>, lo: usize, hi: usize, cls: CharClass) -> (r: usize)
    requires
        lo <= hi <= v@.len(),
    ensures
        lo <= r <= hi,
        v@.subrange(r as int, hi as int) == trim_start(v@.subrange(lo as int, hi as int), cls),
{
    let mut r = lo;
    while r < hi && in_class_exec(cls, v[r])
        invariant
            lo <= r <= hi <= v@.len(),
            trim_start(v@.subrange(r as int, hi as int), cls) == trim_start(
                v@.subrange(lo as int, hi as int),
                cls,
            ),
        decreases hi - r,
    {
        proof {
            lemma_trim_start_step(v@, r as int, hi as int, cls);
        }
        r = r + 1;
    }
    r
}

/// The index where `v[lo..hi]` ends once its trailing run of `cls`
/// characters is dropped.
pub fn skip_trailing(v: &Vec<char>, lo: usize, hi: usize, cls: CharClass) -> (r: usize)
    requires
        lo <= hi <= v@.len(),
    ensures
        lo <= r <= hi,
        v@.subrange(lo as int, r as int) == trim_end(v@.subrange(lo as int, hi as int), cls),
{
    let mut r = hi;
    while r > lo && in_class_exec(cls, v[r - 1])
        invariant
            lo <= r <= hi <= v@.len(),
            trim_end(v@.subrange(lo as int, r as int), cls) == trim_end(
                v@.subrange(lo as int, hi as int),
                cls,
            ),
        decreases r - lo,
    {
        proof {
            lemma_trim_end_step(v@, lo as int, r as int, cls);
        }
        r = r - 1;
    }
    r
}

/// Whether `v[lo..hi]` starts with `p`.
pub fn has_prefix_at(v: &Vec<char>, lo: usize, hi: usize, p: &Vec<char>) -> (r: bool)
    requires
        lo <= hi <= v@.len(),
    ensures
        r == starts_with(v@.subrange(lo as int, hi as int), p@),
{
    if p.len() > hi - lo {
        return false;
    }
    let mut i: usize = 0;
    while i < p.len()
        invariant
            lo <= hi <= v@.len(),
            p@.len() <= hi - lo,
            0 <= i <= p@.len(),
            forall|k: int| 0 <= k < i ==> v@[lo + k] == p@[k],
        decreases p@.len() - i,
    {
        if v[lo + i] != p[i] {
            assert(v@.subrange(lo as int, hi as int)[i as int] == v@[lo + i]);
            return false;
        }
        i = i + 1;
    }
    assert(v@.subrange(lo as int, hi as int).subrange(0, p@.len() as int) == p@);
    true
}

/// The decimal rendering of `n`.
pub fn decimal_u64(n: u64) -> (s: String)
    ensures
        s@ == decimal(n as nat),
{
    let mut digits: Vec<char> = Vec::new();
    let mut m = n;
    while m >= 10
        invariant
            decimal(n as nat) == decimal(m as nat) + digits@.reverse(),
        decreases m,
    {
        let d = (m % 10) as u8;
        let c = (d + 48) as char;
        proof {
            let old_digits = digits@;
            assert(decimal(m as nat) == decimal((m / 10) as nat).push(digit_char((m % 10) as nat)));
            assert(old_digits.push(c).reverse() == seq![c] + old_digits.reverse());
        }
        digits.push(c);
        m = m / 10;
    }
    let last = (m as u8 + 48) as char;
    digits.push(last);
    proof {
        assert(digits@.reverse() == seq![last] + digits@.drop_last().reverse());
        assert(decimal(m as nat) == seq![last]);
    }
    let mut s = String::new();
    let mut i = digits.len();
    while i > 0
        invariant
            i <= digits@.len(),
            s@ == digits@.subrange(i as int, digits@.len() as int).reverse(),
        decreases i,
    {
        i = i - 1;
        push_char(&mut s, digits[i]);
        assert(digits@.subrange(i as int, digits@.len() as int).reverse() == digits@.subrange(
            i + 1,
            digits@.len() as int,
        ).reverse().push(digits@[i as int]));
    }
    assert(digits@.subrange(0, digits@.len() as int) == digits@);
    s
}

} // verus!
