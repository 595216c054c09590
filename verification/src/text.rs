//! Characters, digits and integer literals.

use vstd::prelude::*;

verus! {

/// `c` is one of the ten ASCII digits.
pub open spec fn is_digit(c: char) -> bool {
    48 <= c as u32 <= 57
}

/// The numeric value of an ASCII digit.
pub open spec fn digit_value(c: char) -> nat {
    (c as u32 - 48) as nat
}

/// Every character of `s` is an ASCII digit.
pub open spec fn all_digits(s: Seq<char>) -> bool {
    forall|i: int| 0 <= i < s.len() ==> is_digit(#[trigger] s[i])
}

/// The number written by the digit string `s`, most significant digit first.
/// The empty string denotes zero.
pub open spec fn digits_value(s: Seq<char>) -> nat
    decreases s.len(),
{
    if s.len() == 0 {
        0
    } else {
        digits_value(s.drop_last()) * 10 + digit_value(s.last())
    }
}

/// The ASCII digit for `d`, where `d < 10`.
pub open spec fn digit_char(d: nat) -> char {
    ((48 + d) as u8) as char
}

/// The decimal digits of `n`, most significant first, without leading zeros.
pub open spec fn nat_text(n: nat) -> Seq<char>
    decreases n,
{
    if n < 10 {
        seq![digit_char(n)]
    } else {
        nat_text(n / 10).push(digit_char(n % 10))
    }
}

/// The lowest `width` decimal digits of `n`, most significant first, with
/// leading zeros.
pub open spec fn padded_text(n: nat, width: nat) -> Seq<char>
    decreases width,
{
    if width == 0 {
        Seq::empty()
    } else {
        padded_text(n / 10, (width - 1) as nat).push(digit_char(n % 10))
    }
}

/// `c` is a blank: space, tab, line feed or carriage return.
pub open spec fn is_blank(c: char) -> bool {
    c == ' ' || c == '\t' || c == '\n' || c == '\r'
}

/// `c` is white space: one of the characters U+0009 to U+000D, U+0020,
/// U+0085, U+00A0, U+1680, U+2000 to U+200A, U+2028, U+2029, U+202F, U+205F
/// and U+3000.
pub open spec fn is_white_space(c: char) -> bool {
    let u = c as u32;
    (0x09 <= u <= 0x0d) || u == 0x20 || u == 0x85 || u == 0xa0 || u == 0x1680 || (0x2000 <= u <= 0x200a)
        || u == 0x2028 || u == 0x2029 || u == 0x202f || u == 0x205f || u == 0x3000
}

/// Whether `c` is white space.
pub fn white_space(c: char) -> (r: bool)
    ensures
        r == is_white_space(c),
{
    let u: u32 = c as u32;
    (0x09 <= u && u <= 0x0d) || u == 0x20 || u == 0x85 || u == 0xa0 || u == 0x1680 || (0x2000 <= u
        && u <= 0x200a) || u == 0x2028 || u == 0x2029 || u == 0x202f || u == 0x205f || u == 0x3000
}

/// std's `String::push`.  Trusted: the string afterwards is the string
/// before with the character behind it.
pub assume_specification[ String::push ](s: &mut String, c: char)
    ensures
        final(s)@ == old(s)@.push(c),
;

/// The characters of `s`, in order.
pub fn chars_of(s: &str) -> (v: Vec<char>)
    ensures
        v@ == s@,
{
    let mut v: Vec<char> = Vec::new();
    for c in it: s.chars()
        invariant
            v@ == it.seq().take(it.index()),
    {
        v.push(c);
    }
    v
}

/// A string made of the characters of `v`, in order.
pub fn string_of(v: &Vec<char>) -> (s: String)
    ensures
        s@ == v@,
{
    let mut s = String::new();
    let mut i: usize = 0;
    while i < v.len()
        invariant
            i <= v.len(),
            s@ == v@.take(i as int),
        decreases v.len() - i,
    {
        s.push(v[i]);
        i += 1;
        assert(v@.take(i as int) == v@.take(i - 1).push(v@[i - 1]));
    }
    assert(v@.take(v.len() as int) == v@);
    s
}

/// Whether `v` spells exactly the text `lit`.
pub fn spells(v: &Vec<char>, lit: &str) -> (r: bool)
    ensures
        r == (v@ == lit@),
{
    let w = chars_of(lit);
    if v.len() != w.len() {
        return false;
    }
    let mut i: usize = 0;
    while i < v.len()
        invariant
            i <= v.len(),
            v.len() == w.len(),
            w@ == lit@,
            v@.take(i as int) == w@.take(i as int),
        decreases v.len() - i,
    {
        if v[i] != w[i] {
            return false;
        }
        i += 1;
        assert(v@.take(i as int) == v@.take(i - 1).push(v@[i - 1]));
        assert(w@.take(i as int) == w@.take(i - 1).push(w@[i - 1]));
    }
    assert(v@.take(v.len() as int) == v@);
    assert(w@.take(w.len() as int) == w@);
    true
}

/// The value of `c` as a digit, if it is one.
pub fn digit_of(c: char) -> (r: Option<u8>)
    ensures
        r == if is_digit(c) { Some(digit_value(c) as u8) } else { None::<u8> },
{
    let u: u32 = c as u32;
    if u >= 48 && u <= 57 {
        Some((u - 48) as u8)
    } else {
        None
    }
}

/// The ASCII digit for `d`.
pub fn char_of_digit(d: u8) -> (c: char)
    requires
        d < 10,
    ensures
        c == digit_char(d as nat),
        is_digit(c),
        digit_value(c) == d,
{
    (48 + d) as char
}

/// Appends the decimal digits of `n` to `out`.
pub fn push_nat(out: &mut String, n: u64)
    ensures
        final(out)@ == old(out)@ + nat_text(n as nat),
    decreases n,
{
    if n >= 10 {
        push_nat(out, n / 10);
    }
    out.push(char_of_digit((n % 10) as u8));
}

/// Appends the lowest `width` digits of `n` to `out`, zero-padded.
pub fn push_padded(out: &mut String, n: u64, width: u8)
    ensures
        final(out)@ == old(out)@ + padded_text(n as nat, width as nat),
    decreases width,
{
    if width > 0 {
        push_padded(out, n / 10, width - 1);
        out.push(char_of_digit((n % 10) as u8));
    }
}

/// Appends the characters of `lit` to `out`.
pub fn push_str(out: &mut String, lit: &str)
    ensures
        final(out)@ == old(out)@ + lit@,
{
    let w = chars_of(lit);
    let ghost start = out@;
    let mut i: usize = 0;
    while i < w.len()
        invariant
            i <= w.len(),
            out@ == start + w@.take(i as int),
        decreases w.len() - i,
    {
        out.push(w[i]);
        i += 1;
        assert(w@.take(i as int) == w@.take(i - 1).push(w@[i - 1]));
    }
    assert(w@.take(w.len() as int) == w@);
}

/// Ten to the power `n`.
pub open spec fn pow10(n: nat) -> nat
    decreases n,
{
    if n == 0 {
        1
    } else {
        10 * pow10((n - 1) as nat)
    }
}

/// `count` zeros.
pub open spec fn zeros(count: nat) -> Seq<char> {
    Seq::new(count, |i: int| '0')
}

/// Why a string is not an integer literal of the wanted type.
#[derive(Clone, Copy, Debug, PartialEq, Eq, Structural)]
pub enum IntErrorKind {
    /// The string is empty.
    Empty,
    /// A character that is no digit, a sign without digits, or a minus sign
    /// before an unsigned number.
    InvalidDigit,
    /// The number is above the type's largest value.
    PosOverflow,
    /// The number is below the type's smallest value.
    NegOverflow,
}

/// What an integer literal denotes within the bounds `min ..= max`: an
/// optional sign followed by one or more digits.  A minus sign is only a sign
/// where the bounds admit negative numbers.
pub open spec fn int_literal(s: Seq<char>, min: int, max: int) -> Result<int, IntErrorKind> {
    if s.len() == 0 {
        Err(IntErrorKind::Empty)
    } else {
        let negative = s[0] == '-' && min < 0;
        let signed = s[0] == '+' || negative;
        let digits = if signed { s.skip(1) } else { s };
        let value = if negative { -(digits_value(digits) as int) } else { digits_value(digits) as int };
        if digits.len() == 0 || !all_digits(digits) {
            Err(IntErrorKind::InvalidDigit)
        } else if value > max {
            Err(IntErrorKind::PosOverflow)
        } else if value < min {
            Err(IntErrorKind::NegOverflow)
        } else {
            Ok(value)
        }
    }
}

/// Appending a digit multiplies the value by ten and adds the digit.
pub proof fn digits_value_push(s: Seq<char>, c: char)
    ensures
        digits_value(s.push(c)) == digits_value(s) * 10 + digit_value(c),
{
    assert(s.push(c).drop_last() == s);
}

/// The value of the first `n` digits of `s`, capped at `cap + 1` once it
/// exceeds `cap`, together with the index of the first non-digit (or
/// `s.len()`).
pub fn scan_digits(s: &Vec<char>, start: usize, cap: u64) -> (r: (u64, usize))
    requires
        start <= s.len(),
        cap < u64::MAX / 16,
    ensures
        start <= r.1 <= s.len(),
        all_digits(s@.subrange(start as int, r.1 as int)),
        r.1 < s.len() ==> !is_digit(s@[r.1 as int]),
        digits_value(s@.subrange(start as int, r.1 as int)) <= cap ==> r.0 == digits_value(
            s@.subrange(start as int, r.1 as int),
        ),
        digits_value(s@.subrange(start as int, r.1 as int)) > cap ==> r.0 == cap + 1,
{
    let mut acc: u64 = 0;
    let mut i: usize = start;
    assert(s@.subrange(start as int, start as int) == Seq::<char>::empty());
    while i < s.len()
        invariant
            start <= i <= s.len(),
            cap < u64::MAX / 16,
            all_digits(s@.subrange(start as int, i as int)),
            acc <= cap + 1,
            digits_value(s@.subrange(start as int, i as int)) <= cap ==> acc == digits_value(
                s@.subrange(start as int, i as int),
            ),
            digits_value(s@.subrange(start as int, i as int)) > cap ==> acc == cap + 1,
        decreases s.len() - i,
    {
        let d = match digit_of(s[i]) {
            Some(d) => d,
            None => {
                return (acc, i);
            },
        };
        proof {
            let before = s@.subrange(start as int, i as int);
            assert(s@.subrange(start as int, i + 1) == before.push(s@[i as int]));
            digits_value_push(before, s@[i as int]);
        }
        if acc > cap {
            acc = cap + 1;
        } else {
            let next: u64 = acc * 10 + d as u64;
            acc = if next > cap { cap + 1 } else { next };
        }
        i += 1;
    }
    (acc, i)
}

/// Reads an integer literal within `min ..= max`.
pub fn parse_int(s: &Vec<char>, min: i64, max: i64) -> (r: Result<i64, IntErrorKind>)
    requires
        -0x1_0000_0000 <= min <= 0 <= max <= 0x1_0000_0000,
    ensures
        match r {
            Ok(v) => int_literal(s@, min as int, max as int) == Ok::<int, IntErrorKind>(v as int),
            Err(e) => int_literal(s@, min as int, max as int) == Err::<int, IntErrorKind>(e),
        },
{
    if s.len() == 0 {
        return Err(IntErrorKind::Empty);
    }
    let negative = s[0] == '-' && min < 0;
    let signed = s[0] == '+' || negative;
    let start: usize = if signed { 1 } else { 0 };
    let (magnitude, end) = scan_digits(s, start, 0x1_0000_0000);
    proof {
        let digits = if signed { s@.skip(1) } else { s@ };
        assert(digits == s@.subrange(start as int, s.len() as int));
        if end < s.len() {
            assert(digits[end - start] == s@[end as int]);
            assert(!all_digits(digits));
        } else {
            assert(s@.subrange(start as int, end as int) == digits);
        }
    }
    if end < s.len() || end == start {
        return Err(IntErrorKind::InvalidDigit);
    }
    let value: i64 = if negative { -(magnitude as i64) } else { magnitude as i64 };
    if value > max {
        Err(IntErrorKind::PosOverflow)
    } else if value < min {
        Err(IntErrorKind::NegOverflow)
    } else {
        Ok(value)
    }
}

/// The message that goes with each kind of failure.
pub open spec fn int_error_text(kind: IntErrorKind) -> Seq<char> {
    match kind {
        IntErrorKind::Empty => "cannot parse integer from empty string"@,
        IntErrorKind::InvalidDigit => "invalid digit found in string"@,
        IntErrorKind::PosOverflow => "number too large to fit in target type"@,
        IntErrorKind::NegOverflow => "number too small to fit in target type"@,
    }
}

impl IntErrorKind {
    /// A one-line description of the failure.
    pub fn message(&self) -> (s: String)
        ensures
            s@ == int_error_text(*self),
    {
        let mut s = String::new();
        match self {
            IntErrorKind::Empty => push_str(&mut s, "cannot parse integer from empty string"),
            IntErrorKind::InvalidDigit => push_str(&mut s, "invalid digit found in string"),
            IntErrorKind::PosOverflow => push_str(&mut s, "number too large to fit in target type"),
            IntErrorKind::NegOverflow => push_str(&mut s, "number too small to fit in target type"),
        }
        s
    }
}

} // verus!
