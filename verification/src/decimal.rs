//! Decimal numbers with nine fractional digits.
//!
//! Every fractional quantity of an instrument description (times, levels,
//! gains in decibel, random thresholds) is held as a whole number of
//! billionths, so that range checks and comparisons are exact.

use vstd::prelude::*;
use crate::text::{
    all_digits, digit_of, digit_value, digits_value, digits_value_push, is_digit, nat_text,
    padded_text, pow10, push_nat, push_padded, push_str, zeros,
};

verus! {

/// The number of billionths in one.
pub const BILLION: i64 = 1_000_000_000;

/// A decimal number, counted in billionths.
#[derive(Clone, Copy, Debug, PartialEq, Eq, Structural)]
pub struct Decimal {
    pub billionths: i64,
}

/// Why a string is not a decimal literal.
#[derive(Clone, Copy, Debug, PartialEq, Eq, Structural)]
pub enum DecimalError {
    /// The string is empty.
    Empty,
    /// The string is not of the form sign, digits, point, digits,
    /// exponent.
    Invalid,
    /// The number does not fit into a [`Decimal`].
    TooLarge,
}

/// The number of digits at the start of `s`.
pub open spec fn digits_run(s: Seq<char>) -> int
    decreases s.len(),
{
    if s.len() > 0 && is_digit(s[0]) {
        1 + digits_run(s.skip(1))
    } else {
        0
    }
}

/// The first `count` digits of `digits`, filled up with zeros where there
/// are fewer, and no digit where `count` is not positive.
pub open spec fn shifted(digits: Seq<char>, count: int) -> Seq<char> {
    if count <= 0 {
        Seq::empty()
    } else if count <= digits.len() {
        digits.take(count)
    } else {
        digits + zeros((count - digits.len()) as nat)
    }
}

/// The exponent that `s` denotes: an optional sign and one or more digits.
pub open spec fn exponent_value(s: Seq<char>) -> Option<int> {
    if s.len() == 0 {
        None
    } else {
        let signed = s[0] == '+' || s[0] == '-';
        let digits = if signed { s.skip(1) } else { s };
        if digits.len() == 0 || !all_digits(digits) {
            None
        } else if s[0] == '-' {
            Some(-(digits_value(digits) as int))
        } else {
            Some(digits_value(digits) as int)
        }
    }
}

/// The literal without its sign.
pub open spec fn literal_body(s: Seq<char>) -> Seq<char> {
    if s.len() > 0 && (s[0] == '+' || s[0] == '-') {
        s.skip(1)
    } else {
        s
    }
}

/// The digits of the literal before its point.
pub open spec fn literal_whole(s: Seq<char>) -> Seq<char> {
    literal_body(s).take(digits_run(literal_body(s)))
}

/// What follows the point of the literal, or where it has no point, what
/// follows its first run of digits.
pub open spec fn literal_tail(s: Seq<char>) -> Seq<char> {
    let after_whole = literal_body(s).skip(digits_run(literal_body(s)));
    if after_whole.len() > 0 && after_whole[0] == '.' {
        after_whole.skip(1)
    } else {
        after_whole
    }
}

/// The literal has a point behind its first run of digits.
pub open spec fn literal_pointed(s: Seq<char>) -> bool {
    let after_whole = literal_body(s).skip(digits_run(literal_body(s)));
    after_whole.len() > 0 && after_whole[0] == '.'
}

/// The digits of the literal behind its point.
pub open spec fn literal_fraction(s: Seq<char>) -> Seq<char> {
    if literal_pointed(s) {
        literal_tail(s).take(digits_run(literal_tail(s)))
    } else {
        Seq::empty()
    }
}

/// What follows the digits of the literal.
pub open spec fn literal_rest(s: Seq<char>) -> Seq<char> {
    if literal_pointed(s) {
        literal_tail(s).skip(digits_run(literal_tail(s)))
    } else {
        literal_tail(s)
    }
}

/// The exponent of the literal: 0 where nothing follows the digits, and
/// what follows an `e` or `E` there.
pub open spec fn literal_exponent(s: Seq<char>) -> Option<int> {
    let rest = literal_rest(s);
    if rest.len() == 0 {
        Some(0int)
    } else if rest[0] == 'e' || rest[0] == 'E' {
        exponent_value(rest.skip(1))
    } else {
        None
    }
}

/// What a decimal literal denotes, in billionths.
///
/// A literal is an optional sign, digits, optionally a point followed by
/// digits, and optionally an `e` or `E` followed by an exponent; at least
/// one digit must stand before the exponent.  The number is the digits
/// with the point moved to the right by the exponent.  What lies beyond the
/// ninth fractional digit of the number is dropped.
pub open spec fn decimal_literal(s: Seq<char>) -> Result<int, DecimalError> {
    if s.len() == 0 {
        Err(DecimalError::Empty)
    } else if literal_whole(s).len() + literal_fraction(s).len() == 0 || literal_exponent(s) is None {
        Err(DecimalError::Invalid)
    } else {
        let magnitude = digits_value(
            shifted(
                literal_whole(s) + literal_fraction(s),
                literal_whole(s).len() + 9 + literal_exponent(s)->0,
            ),
        );
        if magnitude > i64::MAX {
            Err(DecimalError::TooLarge)
        } else if s[0] == '-' {
            Ok(-(magnitude as int))
        } else {
            Ok(magnitude as int)
        }
    }
}

/// The digits after the point for a fraction of `f` units of width `width`:
/// zero-padded at the front, without trailing zeros.
pub open spec fn fraction_text(f: nat, width: nat) -> Seq<char>
    decreases width,
{
    if width == 0 || f == 0 {
        Seq::empty()
    } else if f % 10 == 0 {
        fraction_text(f / 10, (width - 1) as nat)
    } else {
        padded_text(f, width)
    }
}

/// The shortest decimal text of `b` billionths: a minus sign where negative,
/// the whole part, and the fraction where there is one.
pub open spec fn decimal_text(b: int) -> Seq<char> {
    let magnitude = if b < 0 { -b } else { b };
    let whole = (magnitude / 1_000_000_000) as nat;
    let fraction = (magnitude % 1_000_000_000) as nat;
    let sign = if b < 0 { seq!['-'] } else { Seq::<char>::empty() };
    let tail = if fraction == 0 { Seq::<char>::empty() } else { seq!['.'] + fraction_text(fraction, 9) };
    sign + nat_text(whole) + tail
}

/// The message that goes with each kind of failure.
pub open spec fn decimal_error_text(kind: DecimalError) -> Seq<char> {
    match kind {
        DecimalError::Empty => "cannot parse float from empty string"@,
        DecimalError::Invalid => "invalid float literal"@,
        DecimalError::TooLarge => "number too large to fit in target type"@,
    }
}

proof fn pow10_table()
    ensures
        pow10(0) == 1,
        pow10(1) == 10,
        pow10(2) == 100,
        pow10(3) == 1_000,
        pow10(4) == 10_000,
        pow10(5) == 100_000,
        pow10(6) == 1_000_000,
        pow10(7) == 10_000_000,
        pow10(8) == 100_000_000,
        pow10(9) == 1_000_000_000,
        pow10(10) == 10_000_000_000,
        pow10(11) == 100_000_000_000,
        pow10(12) == 1_000_000_000_000,
        pow10(13) == 10_000_000_000_000,
        pow10(14) == 100_000_000_000_000,
        pow10(15) == 1_000_000_000_000_000,
        pow10(16) == 10_000_000_000_000_000,
        pow10(17) == 100_000_000_000_000_000,
        pow10(18) == 1_000_000_000_000_000_000,
        pow10(19) == 10_000_000_000_000_000_000,
{
    reveal_with_fuel(pow10, 20);
}

proof fn pow10_positive(n: nat)
    ensures
        pow10(n) > 0,
    decreases n,
{
    if n > 0 {
        pow10_positive((n - 1) as nat);
    }
}

proof fn pow10_grows(k: nat)
    requires
        k >= 19,
    ensures
        pow10(k) >= 10_000_000_000_000_000_000,
    decreases k,
{
    pow10_table();
    if k > 19 {
        pow10_grows((k - 1) as nat);
    }
}

/// Zeros behind a digit string multiply its value by a power of ten.
proof fn zeros_shift(s: Seq<char>, count: nat)
    ensures
        digits_value(s + zeros(count)) == digits_value(s) * pow10(count),
    decreases count,
{
    if count == 0 {
        assert(s + zeros(0) == s);
        assert(pow10(0) == 1);
    } else {
        zeros_shift(s, (count - 1) as nat);
        assert(s + zeros(count) == (s + zeros((count - 1) as nat)).push('0'));
        digits_value_push(s + zeros((count - 1) as nat), '0');
        assert(digit_value('0') == 0);
        assert(pow10(count) == 10 * pow10((count - 1) as nat));
        let value = digits_value(s);
        let lower = pow10((count - 1) as nat);
        assert(value * (10 * lower) == value * lower * 10) by (nonlinear_arith);
    }
}

/// A string that starts with `k` digits and goes on with none has a run of
/// `k` digits.
proof fn digits_run_is(s: Seq<char>, k: int)
    requires
        0 <= k <= s.len(),
        all_digits(s.take(k)),
        k < s.len() ==> !is_digit(s[k]),
    ensures
        digits_run(s) == k,
    decreases k,
{
    if k > 0 {
        assert(is_digit(s.take(k)[0]));
        let t = s.skip(1);
        assert forall|i: int| 0 <= i < k - 1 implies is_digit(#[trigger] t.take(k - 1)[i]) by {
            assert(is_digit(s.take(k)[i + 1]));
        }
        if k < s.len() {
            assert(t[k - 1] == s[k]);
        }
        digits_run_is(t, k - 1);
    }
}

/// `v`, or `cap + 1` where `v` is above `cap`.
pub open spec fn capped(v: int, cap: int) -> int {
    if v > cap {
        cap + 1
    } else {
        v
    }
}

/// The end of the run of digits that starts at `start`.
fn digits_end(s: &Vec<char>, start: usize) -> (end: usize)
    requires
        start <= s.len(),
    ensures
        start <= end <= s.len(),
        end - start == digits_run(s@.skip(start as int)),
        all_digits(s@.subrange(start as int, end as int)),
        end < s.len() ==> !is_digit(s@[end as int]),
{
    let mut i: usize = start;
    assert(s@.subrange(start as int, start as int) == Seq::<char>::empty());
    while i < s.len() && digit_of(s[i]).is_some()
        invariant
            start <= i <= s.len(),
            all_digits(s@.subrange(start as int, i as int)),
        decreases s.len() - i,
    {
        assert(s@.subrange(start as int, i + 1) == s@.subrange(start as int, i as int).push(s@[i as int]));
        i += 1;
    }
    proof {
        let t = s@.skip(start as int);
        assert(t.take(i - start) == s@.subrange(start as int, i as int));
        if i < s.len() {
            assert(t[i - start] == s@[i as int]);
        }
        digits_run_is(t, i - start);
    }
    i
}

/// The value of the digits from `from` to `to`, capped at `cap + 1`.
fn value_of(s: &Vec<char>, from: usize, to: usize, cap: u128) -> (r: u128)
    requires
        from <= to <= s.len(),
        all_digits(s@.subrange(from as int, to as int)),
        cap < 0x1_0000_0000_0000_0000_0000,
    ensures
        r == capped(digits_value(s@.subrange(from as int, to as int)) as int, cap as int),
{
    let mut acc: u128 = 0;
    let mut i: usize = from;
    assert(s@.subrange(from as int, from as int) == Seq::<char>::empty());
    while i < to
        invariant
            from <= i <= to <= s.len(),
            all_digits(s@.subrange(from as int, to as int)),
            cap < 0x1_0000_0000_0000_0000_0000,
            acc == capped(digits_value(s@.subrange(from as int, i as int)) as int, cap as int),
        decreases to - i,
    {
        proof {
            let before = s@.subrange(from as int, i as int);
            assert(s@.subrange(from as int, i + 1) == before.push(s@[i as int]));
            assert(s@.subrange(from as int, to as int)[i - from] == s@[i as int]);
            digits_value_push(before, s@[i as int]);
        }
        let d = match digit_of(s[i]) {
            Some(d) => d,
            None => 0,
        };
        if acc > cap {
            acc = cap + 1;
        } else {
            let next: u128 = acc * 10 + d as u128;
            acc = if next > cap { cap + 1 } else { next };
        }
        i += 1;
    }
    acc
}

/// The exponent that starts at `start` and runs to the end of `s`: whether
/// it has a minus sign, and its magnitude, capped at `cap + 1`.
fn scan_exponent(s: &Vec<char>, start: usize, cap: u128) -> (r: Option<(bool, u128)>)
    requires
        start <= s.len(),
        cap < 0x1_0000_0000_0000_0000_0000,
    ensures
        match r {
            None => exponent_value(s@.skip(start as int)) is None,
            Some((minus, magnitude)) => {
                let e = exponent_value(s@.skip(start as int));
                &&& e is Some
                &&& magnitude == capped(if e->0 < 0 { -(e->0) } else { e->0 }, cap as int)
                &&& e->0 < 0 ==> minus
                &&& e->0 > 0 ==> !minus
            },
        },
{
    if start == s.len() {
        return None;
    }
    let ghost t = s@.skip(start as int);
    let signed = s[start] == '+' || s[start] == '-';
    let minus = s[start] == '-';
    let from: usize = if signed { start + 1 } else { start };
    let end = digits_end(s, from);
    proof {
        assert(t[0] == s@[start as int]);
        let digits = if signed { t.skip(1) } else { t };
        assert(digits == s@.skip(from as int));
        if end < s.len() {
            assert(digits[end - from] == s@[end as int]);
        } else {
            assert(s@.subrange(from as int, end as int) == digits);
        }
    }
    if end < s.len() || end == from {
        return None;
    }
    let magnitude = value_of(s, from, end, cap);
    Some((minus, magnitude))
}

/// Ten to the power `k`.
fn power_of_ten(k: u8) -> (r: u128)
    requires
        k <= 18,
    ensures
        r == pow10(k as nat),
{
    proof {
        pow10_table();
    }
    let mut r: u128 = 1;
    let mut i: u8 = 0;
    while i < k
        invariant
            i <= k <= 18,
            r == pow10(i as nat),
            r <= 1_000_000_000_000_000_000,
        decreases k - i,
    {
        proof {
            pow10_table();
            assert(pow10((i + 1) as nat) == 10 * pow10(i as nat));
            assert(pow10((i + 1) as nat) <= 1_000_000_000_000_000_000) by {
                pow10_at_most((i + 1) as nat);
            }
        }
        r = r * 10;
        i += 1;
    }
    r
}

proof fn pow10_at_most(k: nat)
    requires
        k <= 18,
    ensures
        pow10(k) <= 1_000_000_000_000_000_000,
    decreases 18 - k,
{
    pow10_table();
    if k < 18 {
        pow10_at_most(k + 1);
        assert(pow10(k + 1) == 10 * pow10(k));
    }
}

/// Appends the characters from `from` to `to` of `s` to `out`.
fn append_range(out: &mut Vec<char>, s: &Vec<char>, from: usize, to: usize)
    requires
        from <= to <= s.len(),
    ensures
        final(out)@ == old(out)@ + s@.subrange(from as int, to as int),
{
    let ghost start = out@;
    let mut i: usize = from;
    assert(s@.subrange(from as int, from as int) == Seq::<char>::empty());
    assert(start + Seq::<char>::empty() == start);
    while i < to
        invariant
            from <= i <= to <= s.len(),
            out@ == start + s@.subrange(from as int, i as int),
        decreases to - i,
    {
        out.push(s[i]);
        i += 1;
        assert(s@.subrange(from as int, i as int) == s@.subrange(from as int, i - 1).push(s@[i - 1]));
    }
}

/// The value of the first `count` digits of `digits`, filled up with zeros
/// where there are fewer, capped above the largest decimal.  Where `far` is
/// set, `count` stands for any larger number.
fn shifted_value(digits: &Vec<char>, count: u128, far: bool) -> (r: u128)
    requires
        all_digits(digits@),
        far ==> count >= digits.len() + 19,
    ensures
        !far ==> r == capped(digits_value(shifted(digits@, count as int)) as int, i64::MAX as int),
        far ==> forall|more: int|
            more >= count ==> r == capped(
                digits_value(#[trigger] shifted(digits@, more)) as int,
                i64::MAX as int,
            ),
{
    let cap: u128 = i64::MAX as u128;
    let len = digits.len();
    if count == 0 {
        assert(digits_value(Seq::<char>::empty()) == 0);
        return 0;
    }
    if count <= len as u128 {
        assert(digits@.subrange(0, count as int) == digits@.take(count as int));
        return value_of(digits, 0, count as usize, cap);
    }
    assert(digits@.subrange(0, len as int) == digits@);
    let value = value_of(digits, 0, len, cap);
    let ghost exact = digits_value(digits@);
    proof {
        assert forall|more: int| more >= count implies digits_value(#[trigger] shifted(digits@, more)) == exact
            * pow10((more - len) as nat) by {
            zeros_shift(digits@, (more - len) as nat);
        }
    }
    if value == 0 {
        assert forall|more: int| more >= count implies digits_value(#[trigger] shifted(digits@, more)) == 0 by {
            assert(exact * pow10((more - len) as nat) == 0) by (nonlinear_arith)
                requires
                    exact == 0,
            ;
        }
        return 0;
    }
    let zeros_behind: u128 = count - len as u128;
    if value > cap || zeros_behind >= 19 {
        assert forall|more: int| more >= count implies digits_value(#[trigger] shifted(digits@, more))
            > i64::MAX by {
            let power = pow10((more - len) as nat);
            pow10_positive((more - len) as nat);
            if zeros_behind >= 19 {
                pow10_grows((more - len) as nat);
            }
            assert(exact * power >= exact && exact * power >= power) by (nonlinear_arith)
                requires
                    exact >= 1,
                    power >= 1,
            ;
        }
        return cap + 1;
    }
    let power = power_of_ten(zeros_behind as u8);
    proof {
        pow10_at_most(zeros_behind as nat);
    }
    assert(value * power <= 0x8000_0000_0000_0000 * 1_000_000_000_000_000_000) by (nonlinear_arith)
        requires
            0 <= value <= 0x8000_0000_0000_0000,
            0 <= power <= 1_000_000_000_000_000_000,
    ;
    let product: u128 = value * power;
    if product > cap {
        cap + 1
    } else {
        product
    }
}

impl DecimalError {
    /// A one-line description of the failure.
    pub fn message(&self) -> (s: String)
        ensures
            s@ == decimal_error_text(*self),
    {
        let mut s = String::new();
        match self {
            DecimalError::Empty => push_str(&mut s, "cannot parse float from empty string"),
            DecimalError::Invalid => push_str(&mut s, "invalid float literal"),
            DecimalError::TooLarge => push_str(&mut s, "number too large to fit in target type"),
        }
        s
    }
}

/// Appends the digits after the point for `f` units of width `width`.
fn push_fraction(out: &mut String, f: u64, width: u8)
    ensures
        final(out)@ == old(out)@ + fraction_text(f as nat, width as nat),
    decreases width,
{
    if width == 0 || f == 0 {
    } else if f % 10 == 0 {
        push_fraction(out, f / 10, width - 1);
    } else {
        push_padded(out, f, width);
    }
}

/// A hundredth of `b`, rounded towards zero.
pub open spec fn hundredth_of(b: int) -> int {
    if b >= 0 {
        b / 100
    } else {
        -((-b) / 100)
    }
}

/// Where the digits of a literal stand: the start and end of the digits
/// before the point, and the start and end of the digits behind it.
fn mantissa_of(s: &Vec<char>) -> (r: (usize, usize, usize, usize))
    requires
        s.len() > 0,
    ensures
        r.0 <= r.1 <= r.2 <= r.3 <= s.len(),
        literal_whole(s@) == s@.subrange(r.0 as int, r.1 as int),
        literal_fraction(s@) == s@.subrange(r.2 as int, r.3 as int),
        literal_rest(s@) == s@.skip(r.3 as int),
        all_digits(literal_whole(s@)),
        all_digits(literal_fraction(s@)),
{
    let signed = s[0] == '+' || s[0] == '-';
    let start: usize = if signed { 1 } else { 0 };
    let whole_end = digits_end(s, start);
    let pointed = whole_end < s.len() && s[whole_end] == '.';
    let point_end: usize = if pointed { whole_end + 1 } else { whole_end };
    let fraction_end = if pointed { digits_end(s, point_end) } else { whole_end };
    proof {
        let body = literal_body(s@);
        let after_whole = body.skip(digits_run(body));
        assert(body == s@.skip(start as int));
        assert(literal_whole(s@) == s@.subrange(start as int, whole_end as int));
        assert(after_whole == s@.skip(whole_end as int));
        if whole_end < s.len() {
            assert(after_whole[0] == s@[whole_end as int]);
        }
        assert(literal_pointed(s@) == pointed);
        assert(literal_tail(s@) == s@.skip(point_end as int));
        if pointed {
            assert(literal_fraction(s@) == s@.subrange(point_end as int, fraction_end as int));
        } else {
            assert(s@.subrange(point_end as int, fraction_end as int) == Seq::<char>::empty());
        }
        assert(literal_rest(s@) == s@.skip(fraction_end as int));
    }
    (start, whole_end, point_end, fraction_end)
}

/// The exponent of a literal whose digits end at `at`: whether it has a
/// minus sign, and its magnitude, capped at `cap + 1`.
fn exponent_of(s: &Vec<char>, at: usize, cap: u128) -> (r: Option<(bool, u128)>)
    requires
        at <= s.len(),
        literal_rest(s@) == s@.skip(at as int),
        cap < 0x1_0000_0000_0000_0000_0000,
    ensures
        match r {
            None => literal_exponent(s@) is None,
            Some((minus, magnitude)) => {
                let e = literal_exponent(s@);
                &&& e is Some
                &&& magnitude == capped(if e->0 < 0 { -(e->0) } else { e->0 }, cap as int)
                &&& e->0 < 0 ==> minus
                &&& e->0 > 0 ==> !minus
            },
        },
{
    if at == s.len() {
        return Some((false, 0));
    }
    proof {
        let rest = literal_rest(s@);
        assert(rest[0] == s@[at as int]);
        assert(rest.skip(1) == s@.skip(at + 1));
    }
    if s[at] == 'e' || s[at] == 'E' {
        scan_exponent(s, at + 1, cap)
    } else {
        None
    }
}

/// The magnitude of a literal with the digits `digits`, of which the first
/// `whole` stand before the point, and with the exponent `e`, which is
/// given by its sign and its magnitude capped at `cap + 1`.
fn magnitude_of(
    digits: &Vec<char>,
    whole: usize,
    minus: bool,
    exponent: u128,
    cap: u128,
    Ghost(e): Ghost<int>,
) -> (r: u128)
    requires
        all_digits(digits@),
        whole <= digits.len(),
        digits.len() + 40 <= cap < 0x1_0000_0000_0000_0000_0000,
        exponent == capped(if e < 0 { -e } else { e }, cap as int),
        e < 0 ==> minus,
        e > 0 ==> !minus,
    ensures
        r == capped(digits_value(shifted(digits@, whole + 9 + e)) as int, i64::MAX as int),
{
    let far = exponent > cap;
    if far && minus {
        assert(digits_value(Seq::<char>::empty()) == 0);
        0
    } else if far {
        shifted_value(digits, digits.len() as u128 + 19, true)
    } else if minus {
        let back: u128 = whole as u128 + 9;
        if exponent >= back {
            assert(digits_value(Seq::<char>::empty()) == 0);
            0
        } else {
            shifted_value(digits, back - exponent, false)
        }
    } else {
        shifted_value(digits, whole as u128 + 9 + exponent, false)
    }
}

impl Decimal {
    /// A hundredth of the decimal: a percentage as a fraction, cents as
    /// semitones.  What lies beyond the ninth fractional digit is dropped.
    pub fn hundredth(&self) -> (d: Decimal)
        ensures
            d.billionths == hundredth_of(self.billionths as int),
    {
        if self.billionths >= 0 {
            Decimal { billionths: self.billionths / 100 }
        } else {
            let magnitude: i128 = -(self.billionths as i128);
            Decimal { billionths: (-(magnitude / 100)) as i64 }
        }
    }

    /// The decimal with the given count of billionths.
    pub fn new(billionths: i64) -> (d: Decimal)
        ensures
            d.billionths == billionths,
    {
        Decimal { billionths }
    }

    /// The whole number `v`.
    pub fn from_int(v: i64) -> (d: Decimal)
        requires
            -0x1_0000_0000 <= v <= 0x1_0000_0000,
        ensures
            d.billionths == v * 1_000_000_000,
    {
        Decimal { billionths: v * BILLION }
    }

    /// Reads a decimal literal.
    pub fn parse(s: &Vec<char>) -> (r: Result<Decimal, DecimalError>)
        ensures
            match r {
                Ok(d) => decimal_literal(s@) == Ok::<int, DecimalError>(d.billionths as int),
                Err(e) => decimal_literal(s@) == Err::<int, DecimalError>(e),
            },
    {
        if s.len() == 0 {
            return Err(DecimalError::Empty);
        }
        let negative = s[0] == '-';
        let (start, whole_end, point_end, fraction_end) = mantissa_of(s);
        if (whole_end - start) + (fraction_end - point_end) == 0 {
            return Err(DecimalError::Invalid);
        }
        let exponent_cap: u128 = s.len() as u128 + 40;
        let (minus, exponent) = match exponent_of(s, fraction_end, exponent_cap) {
            Some(e) => e,
            None => {
                return Err(DecimalError::Invalid);
            },
        };
        let mut digits: Vec<char> = Vec::new();
        append_range(&mut digits, s, start, whole_end);
        append_range(&mut digits, s, point_end, fraction_end);
        proof {
            let whole = literal_whole(s@);
            let fraction = literal_fraction(s@);
            assert(digits@ == whole + fraction);
            assert forall|i: int| 0 <= i < digits@.len() implies is_digit(#[trigger] digits@[i]) by {
                if i < whole.len() {
                    assert(is_digit(whole[i]));
                } else {
                    assert(is_digit(fraction[i - whole.len()]));
                }
            }
        }
        let magnitude = magnitude_of(
            &digits,
            whole_end - start,
            minus,
            exponent,
            exponent_cap,
            Ghost(literal_exponent(s@)->0),
        );
        if magnitude > i64::MAX as u128 {
            return Err(DecimalError::TooLarge);
        }
        if negative {
            Ok(Decimal { billionths: -(magnitude as i64) })
        } else {
            Ok(Decimal { billionths: magnitude as i64 })
        }
    }

    /// Reads a decimal literal from a string slice.
    pub fn parse_str(s: &str) -> (r: Result<Decimal, DecimalError>)
        ensures
            match r {
                Ok(d) => decimal_literal(s@) == Ok::<int, DecimalError>(d.billionths as int),
                Err(e) => decimal_literal(s@) == Err::<int, DecimalError>(e),
            },
    {
        let chars = crate::text::chars_of(s);
        Decimal::parse(&chars)
    }

    /// Appends the shortest decimal text of `self` to `out`.
    pub fn push_to(&self, out: &mut String)
        ensures
            final(out)@ == old(out)@ + decimal_text(self.billionths as int),
    {
        let ghost start = out@;
        let magnitude: u64 = if self.billionths < 0 {
            out.push('-');
            (-(self.billionths as i128)) as u64
        } else {
            self.billionths as u64
        };
        let whole = magnitude / 1_000_000_000;
        let fraction = magnitude % 1_000_000_000;
        push_nat(out, whole);
        if fraction != 0 {
            out.push('.');
            push_fraction(out, fraction, 9);
        }
        proof {
            let sign = if self.billionths < 0 { seq!['-'] } else { Seq::<char>::empty() };
            let tail = if fraction == 0 {
                Seq::<char>::empty()
            } else {
                seq!['.'] + fraction_text(fraction as nat, 9)
            };
            assert(out@ == start + (sign + nat_text(whole as nat) + tail));
        }
    }

    /// The shortest decimal text of `self`.
    pub fn to_text(&self) -> (s: String)
        ensures
            s@ == decimal_text(self.billionths as int),
    {
        let mut s = String::new();
        self.push_to(&mut s);
        s
    }
}

} // verus!
