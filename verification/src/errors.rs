//! Errors raised when a parameter violates its range.

use vstd::prelude::*;
use crate::decimal::{decimal_text, Decimal};
use crate::text::push_str;

verus! {

/// A bound was set on the wrong side of the opposite bound.
#[derive(Clone, Copy, Debug)]
pub struct FlippedRangeError {
    pub key: &'static str,
    pub wrong: Decimal,
    pub other: Decimal,
}

/// A value lies outside the interval that its parameter admits.
#[derive(Clone, Copy, Debug)]
pub struct OutOfRangeError {
    pub key: &'static str,
    pub hi: Decimal,
    pub lo: Decimal,
    pub actual: Decimal,
}

/// A parameter that violates its range.
#[derive(Clone, Copy, Debug)]
pub enum RangeError {
    FlippedRange(FlippedRangeError),
    OutOfRange(OutOfRangeError),
}

/// The text of a flipped-range error.
pub open spec fn flipped_range_text(e: FlippedRangeError) -> Seq<char> {
    "Flipped range "@ + e.key@ + ": "@ + decimal_text(e.wrong.billionths as int) + " <-> "@
        + decimal_text(e.other.billionths as int)
}

/// The text of an out-of-range error.
pub open spec fn out_of_range_text(e: OutOfRangeError) -> Seq<char> {
    e.key@ + " out of range: "@ + decimal_text(e.lo.billionths as int) + " <= "@ + decimal_text(
        e.actual.billionths as int,
    ) + " <= "@ + decimal_text(e.hi.billionths as int)
}

/// The text of a range error.
pub open spec fn range_error_text(e: RangeError) -> Seq<char> {
    match e {
        RangeError::FlippedRange(f) => flipped_range_text(f),
        RangeError::OutOfRange(o) => out_of_range_text(o),
    }
}

impl FlippedRangeError {
    /// `Flipped range <key>: <wrong> <-> <other>`
    pub fn message(&self) -> (s: String)
        ensures
            s@ == flipped_range_text(*self),
    {
        let mut s = String::new();
        push_str(&mut s, "Flipped range ");
        push_str(&mut s, self.key);
        push_str(&mut s, ": ");
        self.wrong.push_to(&mut s);
        push_str(&mut s, " <-> ");
        self.other.push_to(&mut s);
        s
    }
}

impl OutOfRangeError {
    /// `<key> out of range: <lo> <= <actual> <= <hi>`
    pub fn message(&self) -> (s: String)
        ensures
            s@ == out_of_range_text(*self),
    {
        let mut s = String::new();
        push_str(&mut s, self.key);
        push_str(&mut s, " out of range: ");
        self.lo.push_to(&mut s);
        push_str(&mut s, " <= ");
        self.actual.push_to(&mut s);
        push_str(&mut s, " <= ");
        self.hi.push_to(&mut s);
        s
    }
}

impl RangeError {
    /// The error for a value `actual` of `key` outside `lo ..= hi`.
    pub fn out_of_range(key: &'static str, lo: Decimal, hi: Decimal, actual: Decimal) -> (e:
        RangeError)
        ensures
            e == RangeError::OutOfRange(OutOfRangeError { key, hi, lo, actual }),
    {
        RangeError::OutOfRange(OutOfRangeError { key, hi, lo, actual })
    }

    /// The error for a bound `wrong` of `key` that lies beyond the bound
    /// `other` on the opposite side.
    pub fn flipped_range(key: &'static str, wrong: Decimal, other: Decimal) -> (e: RangeError)
        ensures
            e == RangeError::FlippedRange(FlippedRangeError { key, wrong, other }),
    {
        RangeError::FlippedRange(FlippedRangeError { key, wrong, other })
    }

    /// The text shown to the user.
    pub fn message(&self) -> (s: String)
        ensures
            s@ == range_error_text(*self),
    {
        match self {
            RangeError::FlippedRange(f) => f.message(),
            RangeError::OutOfRange(o) => o.message(),
        }
    }
}

/// What [`range_check`] returns: the value itself where it lies within
/// `lo ..= hi`, else an out-of-range error that records all four arguments.
pub open spec fn range_checked(v: Decimal, lo: Decimal, hi: Decimal, name: &'static str) -> Result<
    Decimal,
    RangeError,
> {
    if lo.billionths <= v.billionths <= hi.billionths {
        Ok(v)
    } else {
        Err(RangeError::OutOfRange(OutOfRangeError { key: name, hi, lo, actual: v }))
    }
}

/// Accepts `v` where `lo <= v <= hi`.
pub fn range_check(v: Decimal, lo: Decimal, hi: Decimal, name: &'static str) -> (r: Result<
    Decimal,
    RangeError,
>)
    ensures
        r == range_checked(v, lo, hi, name),
{
    if v.billionths >= lo.billionths && v.billionths <= hi.billionths {
        Ok(v)
    } else {
        Err(RangeError::out_of_range(name, lo, hi, v))
    }
}

} // verus!
