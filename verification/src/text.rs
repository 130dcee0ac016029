//! Small pieces of text handling the rest of the library builds on.

use vstd::prelude::*;
use vstd::utf8::*;

verus! {

/// Appends `c` to `s`, through `String::push`.
///
/// Trusted: `String::push` is documented to append the character to the end
/// of the string, which is all this claims.
#[verifier::external_body]
pub(crate) fn push_char(s: &mut String, c: char)
    ensures
        final(s)@ == old(s)@.push(c),
{
    s.push(c);
}

/// The string `bytes` hold, if they are UTF-8, through `std::str::from_utf8`.
///
/// Trusted: `from_utf8` is documented to succeed exactly when the bytes are
/// valid UTF-8, and then to hand back the string they encode; the claim is
/// stated over vstd's model of UTF-8.
#[verifier::external_body]
pub(crate) fn utf8_str(bytes: &[u8]) -> (r: Option<&str>)
    ensures
        r is Some <==> valid_utf8(bytes@),
        r matches Some(s) ==> s@ == decode_utf8(bytes@),
{
    std::str::from_utf8(bytes).ok()
}

/// Whether `u` is a Unicode scalar value, the values a `char` can hold.
pub open spec fn is_scalar_value(u: u32) -> bool {
    u < 0xd800 || (0xe000 <= u && u <= 0x10ffff)
}

/// The character with code point `u`, if there is one.
pub open spec fn char_of(u: u32) -> Option<char> {
    if is_scalar_value(u) {
        Some(u as char)
    } else {
        None
    }
}

/// The character with code point `u`, through `char::from_u32`.
///
/// Trusted: `char::from_u32` is documented to return the character when `u`
/// is a Unicode scalar value and `None` otherwise.
#[verifier::external_body]
pub(crate) fn char_from_u32(u: u32) -> (r: Option<char>)
    ensures
        r == char_of(u),
{
    char::from_u32(u)
}

/// Whether two strings hold the same characters, compared byte by byte.
pub fn same_text(a: &str, b: &str) -> (r: bool)
    ensures
        r == (a@ == b@),
{
    let x = a.as_bytes();
    let y = b.as_bytes();
    proof {
        encode_utf8_decode_utf8(a@);
        encode_utf8_decode_utf8(b@);
    }
    if x.len() != y.len() {
        return false;
    }
    let mut i: usize = 0;
    while i < x.len()
        invariant
            x.len() == y.len(),
            x@ == encode_utf8(a@),
            y@ == encode_utf8(b@),
            i <= x.len(),
            forall|k: int| 0 <= k < i ==> x@[k] == y@[k],
        decreases x.len() - i,
    {
        if x[i] != y[i] {
            return false;
        }
        i = i + 1;
    }
    assert(x@ =~= y@);
    true
}


/// The digit `d` stands for, for `d` below ten.
pub open spec fn digit(d: nat) -> char {
    ((d + 48) as u8) as char
}

/// How `n` is written in decimal, with no leading zeros.
pub open spec fn decimal(n: nat) -> Seq<char>
    decreases n,
{
    if n < 10 {
        seq![digit(n)]
    } else {
        decimal(n / 10).push(digit(n % 10))
    }
}

/// Append `n`, written in decimal, to `s`.
pub fn push_decimal(s: &mut String, n: u64)
    ensures
        final(s)@ == old(s)@ + decimal(n as nat),
    decreases n,
{
    if n >= 10 {
        push_decimal(s, n / 10);
    }
    let d: u8 = (n % 10) as u8;
    push_char(s, (d + 48u8) as char);
    assert(s@ =~= old(s)@ + decimal(n as nat));
}


/// How `n` is written in decimal, with a minus sign when it is negative.
pub open spec fn signed_decimal(n: int) -> Seq<char> {
    if n < 0 {
        seq!['-'] + decimal((-n) as nat)
    } else {
        decimal(n as nat)
    }
}

/// Append `n`, written in decimal, to `s`.
pub fn push_signed_decimal(s: &mut String, n: i32)
    ensures
        final(s)@ == old(s)@ + signed_decimal(n as int),
{
    if n < 0 {
        push_char(s, '-');
        let magnitude: u32 = if n == i32::MIN {
            0x8000_0000u32
        } else {
            (-n) as u32
        };
        push_decimal(s, magnitude as u64);
        assert(s@ =~= old(s)@ + signed_decimal(n as int));
    } else {
        push_decimal(s, n as u64);
    }
}

/// The characters of `s`, one by one.
pub fn chars_of(s: &str) -> (r: Vec<char>)
    ensures
        r@ == s@,
{
    let mut chars: Vec<char> = Vec::new();
    for c in it: s.chars()
        invariant
            chars@ == it.seq().take(it.index() as int),
    {
        chars.push(c);
    }
    chars
}

/// The string the characters `chars[start..end]` make up.
pub fn string_of(chars: &Vec<char>, start: usize, end: usize) -> (r: String)
    requires
        start <= end <= chars@.len(),
    ensures
        r@ == chars@.subrange(start as int, end as int),
{
    let mut text = String::new();
    let mut i = start;
    while i < end
        invariant
            start <= i <= end <= chars@.len(),
            text@ == chars@.subrange(start as int, i as int),
        decreases end - i,
    {
        push_char(&mut text, chars[i]);
        assert(text@ =~= chars@.subrange(start as int, i + 1));
        i = i + 1;
    }
    text
}

/// Whether `c` has the Unicode White_Space property, as `char::is_whitespace`
/// is documented to test.
pub open spec fn is_white_space(c: char) -> bool {
    let u = c as u32;
    ||| 0x9 <= u <= 0xd
    ||| u == 0x20
    ||| u == 0x85
    ||| u == 0xa0
    ||| u == 0x1680
    ||| 0x2000 <= u <= 0x200a
    ||| u == 0x2028
    ||| u == 0x2029
    ||| u == 0x202f
    ||| u == 0x205f
    ||| u == 0x3000
}

pub fn white_space(c: char) -> (r: bool)
    ensures
        r == is_white_space(c),
{
    let u = c as u32;
    (0x9 <= u && u <= 0xd) || u == 0x20 || u == 0x85 || u == 0xa0 || u == 0x1680 || (0x2000 <= u && u
        <= 0x200a) || u == 0x2028 || u == 0x2029 || u == 0x202f || u == 0x205f || u == 0x3000
}

/// `s` without the white space it starts with.
pub open spec fn trim_start(s: Seq<char>) -> Seq<char>
    decreases s.len(),
{
    if s.len() > 0 && is_white_space(s[0]) {
        trim_start(s.drop_first())
    } else {
        s
    }
}

/// `s` without the white space it ends with.
pub open spec fn trim_end(s: Seq<char>) -> Seq<char>
    decreases s.len(),
{
    if s.len() > 0 && is_white_space(s.last()) {
        trim_end(s.drop_last())
    } else {
        s
    }
}

/// `s` without the white space it starts and ends with, as `str::trim`
/// is documented to give.
pub open spec fn trimmed(s: Seq<char>) -> Seq<char> {
    trim_end(trim_start(s))
}

/// Where `chars[start..end]` starts and ends once it is trimmed.
pub fn trim_range(chars: &Vec<char>, start: usize, end: usize) -> (r: (usize, usize))
    requires
        start <= end <= chars@.len(),
    ensures
        start <= r.0 <= r.1 <= end,
        chars@.subrange(r.0 as int, r.1 as int) == trimmed(chars@.subrange(start as int, end as int)),
{
    let mut a = start;
    while a < end && white_space(chars[a])
        invariant
            start <= a <= end <= chars@.len(),
            trim_start(chars@.subrange(start as int, end as int)) == trim_start(
                chars@.subrange(a as int, end as int),
            ),
        decreases end - a,
    {
        assert(chars@.subrange(a as int, end as int).drop_first() =~= chars@.subrange(a + 1, end as int));
        a = a + 1;
    }
    assert(trim_start(chars@.subrange(a as int, end as int)) == chars@.subrange(a as int, end as int));
    let mut b = end;
    while b > a && white_space(chars[b - 1])
        invariant
            start <= a <= b <= end <= chars@.len(),
            trim_end(chars@.subrange(a as int, end as int)) == trim_end(chars@.subrange(a as int, b as int)),
        decreases b - a,
    {
        assert(chars@.subrange(a as int, b as int).drop_last() =~= chars@.subrange(a as int, b - 1));
        b = b - 1;
    }
    (a, b)
}

/// Where `c` first occurs in `s` from `from` on.
pub open spec fn find_from(s: Seq<char>, c: char, from: int) -> Option<int>
    decreases s.len() - from,
{
    if from < 0 || from >= s.len() {
        None
    } else if s[from] == c {
        Some(from)
    } else {
        find_from(s, c, from + 1)
    }
}

/// Where `c` first occurs from `from` on is at or after `from`, and holds
/// `c`.
pub proof fn lemma_find_from_bounds(s: Seq<char>, c: char, from: int)
    ensures
        find_from(s, c, from) matches Some(i) ==> from <= i < s.len() && s[i] == c,
    decreases s.len() - from,
{
    if 0 <= from < s.len() && s[from] != c {
        lemma_find_from_bounds(s, c, from + 1);
    }
}

/// Where `c` first occurs in `chars[from..end]`.
pub fn find_char(chars: &Vec<char>, c: char, from: usize, end: usize) -> (r: Option<usize>)
    requires
        from <= end <= chars@.len(),
    ensures
        match r {
            Some(i) => find_from(chars@.subrange(0, end as int), c, from as int) == Some(i as int),
            None => find_from(chars@.subrange(0, end as int), c, from as int) is None,
        },
        r matches Some(i) ==> from <= i < end && chars@[i as int] == c,
{
    let ghost s = chars@.subrange(0, end as int);
    let mut i = from;
    while i < end
        invariant
            from <= i <= end <= chars@.len(),
            s == chars@.subrange(0, end as int),
            find_from(s, c, from as int) == find_from(s, c, i as int),
        decreases end - i,
    {
        if chars[i] == c {
            return Some(i);
        }
        i = i + 1;
    }
    proof {
        lemma_find_from_bounds(s, c, i as int);
    }
    None
}


/// The value the decimal digits `digits` stand for.
pub open spec fn digits_value(digits: Seq<char>) -> int
    decreases digits.len(),
{
    if digits.len() == 0 {
        0
    } else {
        digits_value(digits.drop_last()) * 10 + (digits.last() as int - '0' as int)
    }
}

/// The digits of a number that may start with a plus sign.
pub open spec fn unsigned_digits(s: Seq<char>) -> Seq<char> {
    if s.len() > 0 && s[0] == '+' {
        s.drop_first()
    } else {
        s
    }
}

/// Whether every character of `s` is a decimal digit.
pub open spec fn all_digits(s: Seq<char>) -> bool {
    forall|i: int| 0 <= i < s.len() ==> '0' <= #[trigger] s[i] <= '9'
}

/// Whether `str::parse::<u32>` takes `s`: an optional plus sign, then
/// decimal digits standing for a number a `u32` holds.
pub open spec fn is_u32_text(s: Seq<char>) -> bool {
    let digits = unsigned_digits(s);
    &&& digits.len() > 0
    &&& all_digits(digits)
    &&& digits_value(digits) <= u32::MAX
}

/// The number `chars[start..end]` stands for, as `str::parse::<u32>` reads
/// it.
pub fn parse_u32(chars: &Vec<char>, start: usize, end: usize) -> (r: Option<u32>)
    requires
        start <= end <= chars@.len(),
    ensures
        r is Some <==> is_u32_text(chars@.subrange(start as int, end as int)),
        r matches Some(value) ==> value == digits_value(unsigned_digits(chars@.subrange(start as int, end as int))),
{
    let ghost s = chars@.subrange(start as int, end as int);
    let first = if start < end && chars[start] == '+' {
        start + 1
    } else {
        start
    };
    let ghost digits = chars@.subrange(first as int, end as int);
    assert(digits =~= unsigned_digits(s));
    if first == end {
        return None;
    }
    let mut value: u64 = 0;
    let mut i = first;
    while i < end
        invariant
            first <= i <= end <= chars@.len(),
            digits == chars@.subrange(first as int, end as int),
            s == chars@.subrange(start as int, end as int),
            digits == unsigned_digits(s),
            value == digits_value(chars@.subrange(first as int, i as int)),
            value <= u32::MAX,
            forall|k: int| first <= k < i ==> '0' <= #[trigger] chars@[k] <= '9',
        decreases end - i,
    {
        let c = chars[i];
        if !('0' <= c && c <= '9') {
            assert(!('0' <= digits[i - first] <= '9'));
            assert(!all_digits(digits));
            return None;
        }
        assert(chars@.subrange(first as int, i + 1).drop_last() =~= chars@.subrange(first as int, i as int));
        value = value * 10 + (c as u64 - '0' as u64);
        if value > 0xffff_ffffu64 {
            proof {
                if all_digits(digits) {
                    lemma_digits_value_grows(digits, i + 1 - first);
                    assert(digits.subrange(0, i + 1 - first) =~= chars@.subrange(first as int, i + 1));
                }
            }
            return None;
        }
        i = i + 1;
    }
    assert(chars@.subrange(first as int, end as int) =~= digits);
    assert forall|k: int| 0 <= k < digits.len() implies '0' <= #[trigger] digits[k] <= '9' by {
        assert(digits[k] == chars@[first + k]);
    }
    assert(all_digits(digits));
    Some(value as u32)
}

/// A number only grows as digits are added to it.
proof fn lemma_digits_value_grows(digits: Seq<char>, n: int)
    requires
        0 <= n <= digits.len(),
        forall|i: int| 0 <= i < digits.len() ==> '0' <= #[trigger] digits[i] <= '9',
    ensures
        digits_value(digits.subrange(0, n)) <= digits_value(digits),
    decreases digits.len() - n,
{
    if n < digits.len() {
        lemma_digits_value_grows(digits, n + 1);
        assert(digits.subrange(0, n + 1).drop_last() =~= digits.subrange(0, n));
        assert(digits_value(digits.subrange(0, n)) >= 0) by {
            lemma_digits_value_nonnegative(digits.subrange(0, n));
        }
    } else {
        assert(digits.subrange(0, n) =~= digits);
    }
}

proof fn lemma_digits_value_nonnegative(digits: Seq<char>)
    requires
        forall|i: int| 0 <= i < digits.len() ==> '0' <= #[trigger] digits[i] <= '9',
    ensures
        digits_value(digits) >= 0,
    decreases digits.len(),
{
    if digits.len() > 0 {
        lemma_digits_value_nonnegative(digits.drop_last());
    }
}

} // verus!
