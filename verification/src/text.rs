//! Character-level helpers between `String` values and their `Seq<char>` views.

use vstd::prelude::*;
use vstd::string::{StrSliceExecFns, StringExecFns};

verus! {

/// Builds a `String` holding exactly the given characters.
#[verifier::external_body]
pub(crate) fn string_from_chars(chars: &Vec<char>) -> (s: String)
    ensures
        s@ == chars@,
{
    chars.iter().collect()
}

/// The characters of `s`, in order.
pub(crate) fn chars_of(s: &str) -> (v: Vec<char>)
    ensures
        v@ == s@,
{
    let mut v: Vec<char> = Vec::new();
    let n = s.unicode_len();
    let mut i: usize = 0;
    while i < n
        invariant
            n == s@.len(),
            i <= n,
            v@ == s@.take(i as int),
        decreases n - i,
    {
        let c = s.get_char(i);
        v.push(c);
        i = i + 1;
        assert(v@ =~= s@.take(i as int));
    }
    assert(s@.take(n as int) =~= s@);
    v
}

/// Appends one character to a `String`.
#[verifier::external_body]
pub(crate) fn push_char(s: &mut String, c: char)
    ensures
        final(s)@ == old(s)@.push(c),
{
    s.push(c)
}

/// Whether `c` has the Unicode `White_Space` property (the meaning of
/// `char::is_whitespace`): tab through carriage return, space, next line,
/// no-break space, ogham space mark, the spaces U+2000 to U+200A, line and
/// paragraph separators, narrow no-break space, medium mathematical space
/// and ideographic space.
pub open spec fn unicode_white_space(c: char) -> bool {
    let v = c as u32;
    ||| 0x09 <= v <= 0x0D
    ||| v == 0x20
    ||| v == 0x85
    ||| v == 0xA0
    ||| v == 0x1680
    ||| 0x2000 <= v <= 0x200A
    ||| v == 0x2028
    ||| v == 0x2029
    ||| v == 0x202F
    ||| v == 0x205F
    ||| v == 0x3000
}

/// Whether `c` has the Unicode `White_Space` property.
pub(crate) fn is_white_space(c: char) -> (b: bool)
    ensures
        b == unicode_white_space(c),
{
    let v = c as u32;
    (0x09 <= v && v <= 0x0D) || v == 0x20 || v == 0x85 || v == 0xA0 || v == 0x1680 || (0x2000 <= v
        && v <= 0x200A) || v == 0x2028 || v == 0x2029 || v == 0x202F || v == 0x205F || v == 0x3000
}

/// `s` without its leading white space.
pub open spec fn trim_start_chars(s: Seq<char>) -> Seq<char>
    decreases s.len(),
{
    if s.len() > 0 && unicode_white_space(s[0]) {
        trim_start_chars(s.drop_first())
    } else {
        s
    }
}

/// `s` without its trailing white space.
pub open spec fn trim_end_chars(s: Seq<char>) -> Seq<char>
    decreases s.len(),
{
    if s.len() > 0 && unicode_white_space(s.last()) {
        trim_end_chars(s.drop_last())
    } else {
        s
    }
}

/// `s` without leading and trailing white space (the meaning of `str::trim`).
pub open spec fn trim_chars(s: Seq<char>) -> Seq<char> {
    trim_end_chars(trim_start_chars(s))
}

/// `s` without leading and trailing white space.
pub(crate) fn trim_text(s: &str) -> (t: String)
    ensures
        t@ == trim_chars(s@),
{
    let chars = chars_of(s);
    let mut lo: usize = 0;
    assert(chars@.skip(0) =~= chars@);
    while lo < chars.len() && is_white_space(chars[lo])
        invariant
            lo <= chars@.len(),
            trim_start_chars(s@) == trim_start_chars(chars@.skip(lo as int)),
            chars@ == s@,
        decreases chars@.len() - lo,
    {
        assert(chars@.skip(lo as int).drop_first() =~= chars@.skip(lo + 1));
        lo = lo + 1;
    }
    assert(chars@.skip(0) =~= chars@);
    let ghost start = chars@.skip(lo as int);
    assert(trim_start_chars(s@) == start);
    let mut hi: usize = chars.len();
    assert(start.subrange(0, (hi - lo) as int) =~= start);
    while hi > lo && is_white_space(chars[hi - 1])
        invariant
            lo <= hi <= chars@.len(),
            start == chars@.skip(lo as int),
            trim_end_chars(start) == trim_end_chars(chars@.subrange(lo as int, hi as int)),
        decreases hi,
    {
        assert(chars@.subrange(lo as int, hi as int).drop_last() =~= chars@.subrange(
            lo as int,
            hi - 1,
        ));
        hi = hi - 1;
    }
    let mut out: Vec<char> = Vec::new();
    let mut i: usize = lo;
    while i < hi
        invariant
            lo <= i <= hi,
            hi <= chars@.len(),
            out@ == chars@.subrange(lo as int, i as int),
        decreases hi - i,
    {
        out.push(chars[i]);
        i = i + 1;
        assert(out@ =~= chars@.subrange(lo as int, i as int));
    }
    string_from_chars(&out)
}

/// Decimal digit character for `d < 10`.
pub open spec fn digit_char(d: int) -> char {
    ((d + 48) as u8) as char
}

/// Decimal representation of `n`, without leading zeros.
pub open spec fn decimal(n: nat) -> Seq<char>
    decreases n,
{
    if n < 10 {
        seq![digit_char(n as int)]
    } else {
        decimal(n / 10).push(digit_char((n % 10) as int))
    }
}

/// Decimal representation of an unsigned integer.
pub(crate) fn decimal_text(n: u64) -> (t: String)
    ensures
        t@ == decimal(n as nat),
{
    let mut digits: Vec<char> = Vec::new();
    let mut rest: u64 = n;
    let ghost mut tail: Seq<char> = Seq::empty();
    assert(decimal(n as nat) =~= decimal(n as nat) + tail);
    assert(digits@ =~= tail.reverse());
    loop
        invariant_except_break
            digits@ == tail.reverse(),
            decimal(n as nat) == decimal(rest as nat) + tail,
        ensures
            digits@ == tail.reverse(),
            decimal(n as nat) == tail,
        decreases rest,
    {
        let d = rest % 10;
        let c = ((d + 48) as u8) as char;
        assert(c == digit_char((rest % 10) as int));
        let ghost old_tail = tail;
        digits.push(c);
        proof {
            tail = seq![c] + tail;
            assert(digits@ =~= tail.reverse());
        }
        if rest < 10 {
            assert(decimal(rest as nat) == seq![c]);
            assert(decimal(n as nat) =~= tail);
            break;
        }
        assert(decimal(rest as nat) == decimal((rest / 10) as nat).push(c));
        assert(decimal(rest as nat) + old_tail =~= decimal((rest / 10) as nat) + tail);
        rest = rest / 10;
    }
    let mut out: Vec<char> = Vec::new();
    let mut i: usize = digits.len();
    while i > 0
        invariant
            i <= digits@.len(),
            digits@ == tail.reverse(),
            decimal(n as nat) == tail,
            out@ == tail.take((digits@.len() - i) as int),
        decreases i,
    {
        i = i - 1;
        out.push(digits[i]);
        assert(out@ =~= tail.take((digits@.len() - i) as int));
    }
    assert(tail.take(digits@.len() as int) =~= tail);
    string_from_chars(&out)
}

/// `a` followed by `b`.
pub(crate) fn concat_str(a: &str, b: &str) -> (s: String)
    ensures
        s@ == a@ + b@,
{
    let mut s = a.to_owned();
    s.append(b);
    s
}

/// Whether two texts are equal.
pub(crate) fn text_equals(a: &str, b: &str) -> (r: bool)
    ensures
        r == (a@ == b@),
{
    a.to_owned() == b.to_owned()
}

} // verus!
