//! Text as a sequence of characters: searching, cutting, joining, numbers.
//!
//! A `String` is seen through its view, the sequence of its characters. The
//! specification functions of this module work on such sequences, and each
//! executable function is proved to compute the one it is named after.

use vstd::prelude::*;
use vstd::string::StringExecFns;
use vstd::utf8::{decode_utf8, is_ascii_chars, valid_utf8};

verus! {

/// `String::push`: the character goes to the end of the string, and nothing
/// else changes.
pub assume_specification[ String::push ](s: &mut String, c: char)
    ensures
        final(s)@ == old(s)@.push(c),
;

/// The text that `str::to_lowercase` makes of a text.
pub uninterp spec fn lowercased(s: Seq<char>) -> Seq<char>;

/// `str::to_lowercase`, under the name [`lowercased`]. Of the result the
/// contract says two more things that the Unicode mapping gives: it holds none
/// of the capital letters `A` to `Z`, and of a text of ASCII characters it
/// changes exactly those letters.
#[verifier::external_body]
fn std_to_lowercase(s: &str) -> (r: String)
    ensures
        r@ == lowercased(s@),
        forall|i: int| 0 <= i < r@.len() ==> !is_capital(#[trigger] r@[i]),
        is_ascii_chars(s@) ==> r@ == ascii_lowered(s@),
{
    s.to_lowercase()
}

/// Whether a character has the Unicode property `White_Space`.
pub open spec fn is_white(c: char) -> bool {
    let n = c as u32;
    ||| 0x9 <= n <= 0xD
    ||| n == 0x20
    ||| n == 0x85
    ||| n == 0xA0
    ||| n == 0x1680
    ||| 0x2000 <= n <= 0x200A
    ||| n == 0x2028
    ||| n == 0x2029
    ||| n == 0x202F
    ||| n == 0x205F
    ||| n == 0x3000
}

/// `char::is_whitespace`: whether the character has the property
/// `White_Space`, whose members [`is_white`] lists.
pub assume_specification[ char::is_whitespace ](c: char) -> (r: bool)
    ensures
        r == is_white(c),
;

pub open spec fn is_capital(c: char) -> bool {
    'A' <= c <= 'Z'
}

pub open spec fn is_digit(c: char) -> bool {
    '0' <= c <= '9'
}

/// A letter `a` to `z` or `A` to `Z`, or a digit.
pub open spec fn is_alphanumeric(c: char) -> bool {
    is_digit(c) || is_capital(c) || 'a' <= c <= 'z'
}

/// The small letter of a capital letter; any other character as it is.
pub open spec fn ascii_small(c: char) -> char {
    if is_capital(c) {
        (c as u32 + 32) as char
    } else {
        c
    }
}

/// A text with its capital letters `A` to `Z` made small.
pub open spec fn ascii_lowered(s: Seq<char>) -> Seq<char> {
    s.map_values(|c: char| ascii_small(c))
}

/// The characters of a text, one by one.
pub fn chars_of(s: &str) -> (r: Vec<char>)
    ensures
        r@ == s@,
{
    let mut out: Vec<char> = Vec::new();
    for c in it: s.chars()
        invariant
            it.seq() == s@,
            out@ == s@.take(it.index() as int),
    {
        out.push(c);
        assert(out@ == s@.take(it.index() + 1));
    }
    assert(s@.take(s@.len() as int) == s@);
    out
}

/// The text between two positions.
pub fn cut(chars: &Vec<char>, from: usize, to: usize) -> (r: String)
    requires
        from <= to <= chars@.len(),
    ensures
        r@ == chars@.subrange(from as int, to as int),
{
    let mut out = String::new();
    for i in from..to
        invariant
            from <= to <= chars@.len(),
            out@ == chars@.subrange(from as int, i as int),
    {
        out.push(chars[i]);
        assert(out@ == chars@.subrange(from as int, i + 1));
    }
    out
}

/// Whether two texts hold the same characters.
pub fn same(a: &str, b: &str) -> (r: bool)
    ensures
        r == (a@ == b@),
{
    a.to_owned() == b.to_owned()
}

/// A text in small letters.
pub fn lower(s: &str) -> (r: String)
    ensures
        r@ == lowercased(s@),
        forall|i: int| 0 <= i < r@.len() ==> !is_capital(#[trigger] r@[i]),
        is_ascii_chars(s@) ==> r@ == ascii_lowered(s@),
{
    std_to_lowercase(s)
}

// ---------------------------------------------------------------------------
// Numbers
// ---------------------------------------------------------------------------

/// The character of a decimal digit.
pub open spec fn digit(d: nat) -> char {
    (48 + d) as char
}

/// A number in decimal notation, without leading zeros.
pub open spec fn dec(n: nat) -> Seq<char>
    decreases n,
{
    if n < 10 {
        seq![digit(n)]
    } else {
        dec(n / 10).push(digit(n % 10))
    }
}

/// A number in decimal notation with at least two digits.
pub open spec fn dec2(n: nat) -> Seq<char> {
    if n < 10 {
        seq!['0'] + dec(n)
    } else {
        dec(n)
    }
}

fn digit_char(d: u8) -> (c: char)
    requires
        d < 10,
    ensures
        c == digit(d as nat),
{
    (48 + d) as char
}

/// Writes a number in decimal notation.
pub fn decimal(n: u128) -> (r: String)
    ensures
        r@ == dec(n as nat),
    decreases n,
{
    if n < 10 {
        let mut out = String::new();
        out.push(digit_char(n as u8));
        assert(out@ == seq![digit(n as nat)]);
        out
    } else {
        let mut out = decimal(n / 10);
        out.push(digit_char((n % 10) as u8));
        out
    }
}

/// Writes a number with at least two digits.
pub fn decimal2(n: u128) -> (r: String)
    ensures
        r@ == dec2(n as nat),
{
    let text = decimal(n);
    if n < 10 {
        let mut out = String::new();
        out.push('0');
        assert(out@ == seq!['0']);
        out.concat(text.as_str())
    } else {
        text
    }
}

/// The value of a run of decimal digits.
pub open spec fn value_of(s: Seq<char>) -> nat
    decreases s.len(),
{
    if s.len() == 0 {
        0
    } else {
        value_of(s.drop_last()) * 10 + (s.last() as nat - 48) as nat
    }
}

/// Whether every character is a decimal digit.
pub open spec fn all_digits(s: Seq<char>) -> bool {
    forall|i: int| 0 <= i < s.len() ==> is_digit(#[trigger] s[i])
}

/// The decimal notation of a number is one to it: digits only, at least one,
/// and their value is the number.
pub proof fn lemma_dec(n: nat)
    ensures
        dec(n).len() > 0,
        all_digits(dec(n)),
        value_of(dec(n)) == n,
        n >= 10 ==> dec(n)[0] != '0',
        n > 0 ==> dec(n)[0] != '0',
        n < 10 ==> dec(n).len() == 1,
        n >= 10 ==> dec(n).len() > 1,
    decreases n,
{
    reveal_with_fuel(value_of, 3);
    if n < 10 {
        assert(dec(n).drop_last() == Seq::<char>::empty());
    } else {
        lemma_dec(n / 10);
        assert(dec(n).drop_last() == dec(n / 10));
    }
}

/// Further digits never make a number smaller.
pub proof fn lemma_value_grows(s: Seq<char>, i: int)
    requires
        0 <= i <= s.len(),
        all_digits(s),
    ensures
        value_of(s.take(i)) <= value_of(s),
    decreases s.len(),
{
    if i == s.len() {
        assert(s.take(i) =~= s);
    } else {
        let q = s.drop_last();
        assert(all_digits(q)) by {
            assert forall|j: int| 0 <= j < q.len() implies is_digit(#[trigger] q[j]) by {
                assert(q[j] == s[j]);
            }
        }
        lemma_value_grows(q, i);
        assert(q.take(i) =~= s.take(i));
        assert(is_digit(s[s.len() - 1]));
    }
}

/// A number as `u16` reads it: digits, with a plus sign in front of them
/// allowed, and a value that fits.
pub open spec fn as_u16(s: Seq<char>) -> Option<u16> {
    let digits = if s.len() > 0 && s[0] == '+' {
        s.skip(1)
    } else {
        s
    };
    if digits.len() > 0 && all_digits(digits) && value_of(digits) <= 65535 {
        Some(value_of(digits) as u16)
    } else {
        None
    }
}

pub fn parse_u16(s: &str) -> (r: Option<u16>)
    ensures
        r == as_u16(s@),
{
    let chars = chars_of(s);
    let from: usize = if chars.len() > 0 && chars[0] == '+' {
        1
    } else {
        0
    };
    let ghost digits = chars@.skip(from as int);
    proof {
        assert(chars@.skip(0) =~= chars@);
    }
    if chars.len() == from {
        return None;
    }
    let mut value: u32 = 0;
    let mut i: usize = from;
    assert(digits.take(0) =~= Seq::<char>::empty());
    while i < chars.len()
        invariant
            from <= i <= chars@.len(),
            digits == chars@.skip(from as int),
            digits.len() > 0,
            value == value_of(digits.take(i - from)),
            value <= 65535,
            forall|j: int| 0 <= j < i - from ==> is_digit(#[trigger] digits[j]),
            as_u16(s@) is Some ==> all_digits(digits) && value_of(digits) <= 65535,
        decreases chars@.len() - i,
    {
        let c = chars[i];
        assert(digits[i - from] == c);
        if c < '0' || c > '9' {
            return None;
        }
        assert(digits.take(i - from + 1).drop_last() =~= digits.take(i - from));
        value = value * 10 + (c as u32 - 48);
        proof {
            assert(value == value_of(digits.take(i - from + 1)));
            if all_digits(digits) {
                lemma_value_grows(digits, i - from + 1);
            }
        }
        if value > 65535 {
            return None;
        }
        i += 1;
    }
    assert(digits.take(i - from) =~= digits);
    Some(value as u16)
}

/// The text that `String::from_utf8_lossy` makes of bytes.
pub uninterp spec fn lossy_text(bytes: Seq<u8>) -> Seq<char>;

/// `String::from_utf8_lossy`, under the name [`lossy_text`]. Bytes that are
/// valid UTF-8 become the text that they encode; how others are mended is left
/// to the name.
#[verifier::external_body]
pub(crate) fn from_utf8_lossy(bytes: &[u8]) -> (r: String)
    ensures
        r@ == lossy_text(bytes@),
        valid_utf8(bytes@) ==> r@ == decode_utf8(bytes@),
{
    String::from_utf8_lossy(bytes).into_owned()
}

/// Whether a text comes before another in the order of their characters.
pub open spec fn before(a: Seq<char>, b: Seq<char>) -> bool
    decreases a.len(),
{
    if b.len() == 0 {
        false
    } else if a.len() == 0 {
        true
    } else if a[0] != b[0] {
        (a[0] as int) < (b[0] as int)
    } else {
        before(a.drop_first(), b.drop_first())
    }
}

/// The order of texts is a strict total order.
pub proof fn lemma_before(a: Seq<char>, b: Seq<char>, c: Seq<char>)
    ensures
        !before(a, a),
        !(before(a, b) && before(b, a)),
        a != b ==> before(a, b) || before(b, a),
        before(a, b) && before(b, c) ==> before(a, c),
    decreases a.len(),
{
    if a.len() > 0 && b.len() > 0 {
        if c.len() > 0 {
            lemma_before(a.drop_first(), b.drop_first(), c.drop_first());
        } else {
            lemma_before(a.drop_first(), b.drop_first(), c);
        }
        if a[0] == b[0] && a != b {
            if a.drop_first() == b.drop_first() {
                assert forall|i: int| 0 <= i < a.len() implies a[i] == b[i] by {
                    if i > 0 {
                        assert(a.drop_first()[i - 1] == b.drop_first()[i - 1]);
                    }
                }
                assert(a.drop_first().len() == b.drop_first().len());
                assert(a =~= b);
            }
        }
    } else if a.len() > 0 {
        lemma_before(a.drop_first(), b, c);
    } else if a != b {
        assert(a =~= Seq::<char>::empty());
        assert(b.len() > 0) by {
            if b.len() == 0 {
                assert(b =~= a);
            }
        }
    }
}

pub fn comes_before(a: &str, b: &str) -> (r: bool)
    ensures
        r == before(a@, b@),
{
    let x = chars_of(a);
    let y = chars_of(b);
    let mut i: usize = 0;
    proof {
        assert(x@.skip(0) =~= x@);
        assert(y@.skip(0) =~= y@);
    }
    while i < x.len() && i < y.len()
        invariant
            i <= x@.len(),
            i <= y@.len(),
            before(x@.skip(i as int), y@.skip(i as int)) == before(x@, y@),
            x@ == a@,
            y@ == b@,
        decreases x@.len() - i,
    {
        proof {
            assert(x@.skip(i as int).drop_first() =~= x@.skip(i + 1));
            assert(y@.skip(i as int).drop_first() =~= y@.skip(i + 1));
        }
        let c = x[i];
        let d = y[i];
        if c != d {
            return c < d;
        }
        i += 1;
    }
    i < y.len()
}

/// A number is read from its digits, with or without a plus before them, where
/// it fits in sixteen bits; anything else is none.
pub proof fn numbers_are_read_back(n: u16)
    ensures
        as_u16(dec(n as nat)) == Some(n),
        as_u16(seq!['+'] + dec(n as nat)) == Some(n),
        as_u16(Seq::empty()) is None,
        as_u16(dec(n as nat + 65536)) is None,
        as_u16(seq!['-'] + dec(n as nat)) is None,
{
    lemma_dec(n as nat);
    lemma_dec(n as nat + 65536);
    let d = dec(n as nat);
    assert(is_digit(d[0]));
    assert((seq!['+'] + d).skip(1) =~= d);
    let big = dec(n as nat + 65536);
    assert(is_digit(big[0]));
    let minus = seq!['-'] + d;
    assert(minus[0] == '-');
    assert(!all_digits(minus)) by {
        assert(!is_digit(minus[0]));
    }
}

/// A text with anything but digits in it is no number.
pub proof fn only_digits_make_a_number(s: Seq<char>, i: int)
    requires
        0 < i < s.len(),
        !is_digit(s[i]),
    ensures
        as_u16(s) is None,
{
    let digits = if s[0] == '+' {
        s.skip(1)
    } else {
        s
    };
    if s[0] == '+' {
        assert(digits[i - 1] == s[i]);
    } else {
        assert(digits[i] == s[i]);
    }
    assert(!all_digits(digits));
}

/// Two digits at least: a zero stands before a single one.
pub proof fn two_digits_at_least(n: nat)
    ensures
        n < 10 ==> dec2(n).len() == 2 && dec2(n)[0] == '0' && dec2(n)[1] as nat == 48 + n,
        n >= 10 ==> dec2(n) == dec(n),
{
    lemma_dec(n);
}

/// Only capital letters of the Latin alphabet are made small; all else stays.
pub proof fn only_latin_capitals_are_lowered(s: Seq<char>)
    ensures
        ascii_lowered(s).len() == s.len(),
        forall|i: int|
            0 <= i < s.len() && 'A' <= s[i] <= 'Z' ==> #[trigger] ascii_lowered(s)[i] as int
                == s[i] as int + 32,
        forall|i: int|
            0 <= i < s.len() && !('A' <= s[i] <= 'Z') ==> #[trigger] ascii_lowered(s)[i] == s[i],
{
}

} // verus!
