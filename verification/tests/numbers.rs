//! Whole numbers, decimals, and the errors of ranges.

use soundfonts::decimal::{Decimal, DecimalError};
use soundfonts::errors::{range_check, RangeError};
use soundfonts::sfz::engine::{ControlValRange, NoteRange, RandomRange, VelRange};
use soundfonts::text::{chars_of, parse_int, string_of, IntErrorKind};

fn whole(s: &str, min: i64, max: i64) -> Result<i64, IntErrorKind> {
    parse_int(&chars_of(s), min, max)
}

fn dec(s: &str) -> Decimal {
    Decimal::parse_str(s).unwrap()
}

#[test]
fn characters_round_trip() {
    let chars = chars_of("lokey=c#4 // é");
    assert_eq!(chars.len(), 14);
    assert_eq!(chars[13], 'é');
    assert_eq!(string_of(&chars), "lokey=c#4 // é");
}

#[test]
fn whole_numbers() {
    assert_eq!(whole("42", i32::MIN as i64, i32::MAX as i64), Ok(42));
    assert_eq!(whole("-7", i32::MIN as i64, i32::MAX as i64), Ok(-7));
    assert_eq!(whole("+5", i32::MIN as i64, i32::MAX as i64), Ok(5));
    assert_eq!(whole("-0", i32::MIN as i64, i32::MAX as i64), Ok(0));
    assert_eq!(whole("0042", i32::MIN as i64, i32::MAX as i64), Ok(42));
    assert_eq!(whole("2147483647", i32::MIN as i64, i32::MAX as i64), Ok(2147483647));
    assert_eq!(whole("-2147483648", i32::MIN as i64, i32::MAX as i64), Ok(-2147483648));
    assert_eq!(whole("4294967295", 0, u32::MAX as i64), Ok(4294967295));
}

#[test]
fn whole_numbers_rejected() {
    let (lo, hi) = (i32::MIN as i64, i32::MAX as i64);
    assert_eq!(whole("", lo, hi), Err(IntErrorKind::Empty));
    assert_eq!(whole("-", lo, hi), Err(IntErrorKind::InvalidDigit));
    assert_eq!(whole("+", lo, hi), Err(IntErrorKind::InvalidDigit));
    assert_eq!(whole("x", lo, hi), Err(IntErrorKind::InvalidDigit));
    assert_eq!(whole("12a", lo, hi), Err(IntErrorKind::InvalidDigit));
    assert_eq!(whole("1.5", lo, hi), Err(IntErrorKind::InvalidDigit));
    assert_eq!(whole(" 1", lo, hi), Err(IntErrorKind::InvalidDigit));
    assert_eq!(whole("2147483648", lo, hi), Err(IntErrorKind::PosOverflow));
    assert_eq!(whole("-2147483649", lo, hi), Err(IntErrorKind::NegOverflow));
    assert_eq!(whole("99999999999999999999999999", lo, hi), Err(IntErrorKind::PosOverflow));
    assert_eq!(whole("-1", 0, u32::MAX as i64), Err(IntErrorKind::InvalidDigit));
    assert_eq!(whole("4294967296", 0, u32::MAX as i64), Err(IntErrorKind::PosOverflow));
}

#[test]
fn whole_number_messages() {
    assert_eq!(IntErrorKind::Empty.message(), "cannot parse integer from empty string");
    assert_eq!(IntErrorKind::InvalidDigit.message(), "invalid digit found in string");
    assert_eq!(IntErrorKind::PosOverflow.message(), "number too large to fit in target type");
    assert_eq!(IntErrorKind::NegOverflow.message(), "number too small to fit in target type");
}

#[test]
fn decimals() {
    assert_eq!(dec("105").billionths, 105_000_000_000);
    assert_eq!(dec("-20").billionths, -20_000_000_000);
    assert_eq!(dec("-144.6").billionths, -144_600_000_000);
    assert_eq!(dec("0.73").billionths, 730_000_000);
    assert_eq!(dec(".5").billionths, 500_000_000);
    assert_eq!(dec("5.").billionths, 5_000_000_000);
    assert_eq!(dec("+3.25").billionths, 3_250_000_000);
    assert_eq!(dec("-0").billionths, 0);
    assert_eq!(dec("0.000000001").billionths, 1);
    assert_eq!(dec("007.500").billionths, 7_500_000_000);
    assert_eq!(dec("9223372036.854775807").billionths, i64::MAX);
    assert_eq!(dec("-9223372036.854775807").billionths, -i64::MAX);
}

#[test]
fn decimals_drop_digits_beyond_the_ninth() {
    assert_eq!(dec("1.2345678919").billionths, 1_234_567_891);
    assert_eq!(dec("0.9999999999999").billionths, 999_999_999);
    assert_eq!(dec("-0.0000000009").billionths, 0);
}

#[test]
fn decimals_rejected() {
    assert_eq!(Decimal::parse_str(""), Err(DecimalError::Empty));
    assert_eq!(Decimal::parse_str("aa"), Err(DecimalError::Invalid));
    assert_eq!(Decimal::parse_str("."), Err(DecimalError::Invalid));
    assert_eq!(Decimal::parse_str("-"), Err(DecimalError::Invalid));
    assert_eq!(Decimal::parse_str("+."), Err(DecimalError::Invalid));
    assert_eq!(Decimal::parse_str("inf"), Err(DecimalError::Invalid));
    assert_eq!(Decimal::parse_str("-infinity"), Err(DecimalError::Invalid));
    assert_eq!(Decimal::parse_str("0x10"), Err(DecimalError::Invalid));
    assert_eq!(Decimal::parse_str("1.2.3"), Err(DecimalError::Invalid));
    assert_eq!(Decimal::parse_str(" 1"), Err(DecimalError::Invalid));
    assert_eq!(Decimal::parse_str("1,5"), Err(DecimalError::Invalid));
    assert_eq!(Decimal::parse_str("nan"), Err(DecimalError::Invalid));
    assert_eq!(Decimal::parse_str("9223372036.854775808"), Err(DecimalError::TooLarge));
    assert_eq!(Decimal::parse_str("99999999999"), Err(DecimalError::TooLarge));
    assert_eq!(Decimal::parse_str("-99999999999999999999999"), Err(DecimalError::TooLarge));
}

#[test]
fn decimals_with_exponents() {
    assert_eq!(dec("1e2").billionths, 100_000_000_000);
    assert_eq!(dec("1E2").billionths, 100_000_000_000);
    assert_eq!(dec("1e+2").billionths, 100_000_000_000);
    assert_eq!(dec("1e0").billionths, 1_000_000_000);
    assert_eq!(dec("1e-0").billionths, 1_000_000_000);
    assert_eq!(dec("1.5e-3").billionths, 1_500_000);
    assert_eq!(dec("-2.5e1").billionths, -25_000_000_000);
    assert_eq!(dec("12345e-2").billionths, 123_450_000_000);
    assert_eq!(dec("12345e-5").billionths, 123_450_000);
    assert_eq!(dec("12345e-13").billionths, 1);
    assert_eq!(dec("12345e-14").billionths, 0);
    assert_eq!(dec("0.0000000001e1").billionths, 1);
    assert_eq!(dec(".5e1").billionths, 5_000_000_000);
    assert_eq!(dec("5.e1").billionths, 50_000_000_000);
    assert_eq!(dec("1e9").billionths, 1_000_000_000_000_000_000);
    assert_eq!(dec("9.223372036854775807e9").billionths, i64::MAX);
    assert_eq!(dec("922337203685477580.7e-8").billionths, i64::MAX);
    assert_eq!(dec("0.000000000000000009223372036854775807e27").billionths, i64::MAX);
    assert_eq!(dec("1e-10").billionths, 0);
    assert_eq!(dec("1e-999999999999999999999999999999").billionths, 0);
    assert_eq!(dec("0e999999999999999999999999999999").billionths, 0);
    assert_eq!(dec("0.000e25").billionths, 0);
    assert_eq!(dec("-0.0e-25").billionths, 0);
    assert_eq!(dec("00012e00001").billionths, 120_000_000_000);
}

#[test]
fn decimals_with_exponents_rejected() {
    for literal in ["e5", "1e", "1e+", "1e-", "1e5x", "1e5.", "1e 5", ".e1", "1ee2", "1e--2", "1e+-2", "e", "-e1", "1.2.3e1", "1e1e1", "1e٣"] {
        assert_eq!(Decimal::parse_str(literal), Err(DecimalError::Invalid), "{}", literal);
    }
    for literal in ["1e10", "9.223372036854775808e9", "1e19", "0.1e11", "1e999999999999999999999999", "-1e40", "0.0000000000000000000000000001e50"] {
        assert_eq!(Decimal::parse_str(literal), Err(DecimalError::TooLarge), "{}", literal);
    }
}

#[test]
fn decimals_read_as_floats_do() {
    for literal in ["105", "-20", "0.73", "1e2", "1.5e-3", "-144.6", "12345e-5", ".5e1", "007.500", "2.5E+1", "6e0", "1200e-2"] {
        let d = dec(literal);
        let read: f64 = literal.parse().unwrap();
        assert!((d.billionths as f64 / 1e9 - read).abs() <= 1e-9, "{}", literal);
    }
}

#[test]
fn decimal_messages() {
    assert_eq!(DecimalError::Empty.message(), "cannot parse float from empty string");
    assert_eq!(DecimalError::Invalid.message(), "invalid float literal");
    assert_eq!(DecimalError::TooLarge.message(), "number too large to fit in target type");
}

#[test]
fn decimal_text() {
    assert_eq!(Decimal::new(0).to_text(), "0");
    assert_eq!(Decimal::new(105_000_000_000).to_text(), "105");
    assert_eq!(Decimal::new(-20_000_000_000).to_text(), "-20");
    assert_eq!(Decimal::new(-144_600_000_000).to_text(), "-144.6");
    assert_eq!(Decimal::new(730_000_000).to_text(), "0.73");
    assert_eq!(Decimal::new(1_500_000_000).to_text(), "1.5");
    assert_eq!(Decimal::new(1).to_text(), "0.000000001");
    assert_eq!(Decimal::new(-5).to_text(), "-0.000000005");
    assert_eq!(Decimal::new(10_000_000_010).to_text(), "10.00000001");
    assert_eq!(Decimal::new(i64::MAX).to_text(), "9223372036.854775807");
    assert_eq!(Decimal::new(i64::MIN).to_text(), "-9223372036.854775808");
    assert_eq!(Decimal::from_int(-4294967296).to_text(), "-4294967296");
}

#[test]
fn decimal_text_reads_back() {
    for billionths in [0, 1, -1, 999_999_999, 1_000_000_000, -144_600_000_000, 123_456_789_012, i64::MAX] {
        let d = Decimal::new(billionths);
        assert_eq!(Decimal::parse_str(&d.to_text()), Ok(d));
    }
}

#[test]
fn range_check_accepts_the_bounds() {
    let (lo, hi) = (Decimal::from_int(-3), Decimal::from_int(6));
    assert_eq!(range_check(lo, lo, hi, "volume").unwrap(), lo);
    assert_eq!(range_check(hi, lo, hi, "volume").unwrap(), hi);
    assert_eq!(range_check(dec("0.5"), lo, hi, "volume").unwrap(), dec("0.5"));
}

#[test]
fn range_check_rejects_what_lies_outside() {
    let (lo, hi) = (Decimal::from_int(-3), Decimal::from_int(6));
    match range_check(dec("6.000000001"), lo, hi, "volume") {
        Err(RangeError::OutOfRange(e)) => {
            assert_eq!(e.key, "volume");
            assert_eq!(e.lo, lo);
            assert_eq!(e.hi, hi);
            assert_eq!(e.actual, dec("6.000000001"));
            assert_eq!(e.message(), "volume out of range: -3 <= 6.000000001 <= 6");
        }
        _ => panic!("Not seen expected error"),
    }
    match range_check(dec("-3.5"), lo, hi, "volume") {
        Err(e) => assert_eq!(e.message(), "volume out of range: -3 <= -3.5 <= 6"),
        _ => panic!("Not seen expected error"),
    }
}

#[test]
fn range_error_messages() {
    let e = RangeError::out_of_range("tune", Decimal::from_int(-100), Decimal::from_int(100), Decimal::from_int(101));
    assert_eq!(e.message(), "tune out of range: -100 <= 101 <= 100");
    let e = RangeError::flipped_range("hivel", Decimal::from_int(10), Decimal::from_int(20));
    assert_eq!(e.message(), "Flipped range hivel: 10 <-> 20");
    match e {
        RangeError::FlippedRange(f) => assert_eq!(f.message(), "Flipped range hivel: 10 <-> 20"),
        _ => panic!("Not seen expected error"),
    }
}

#[test]
fn velocity_ranges() {
    let mut range = VelRange::default();
    assert_eq!((range.lo, range.hi), (0, 127));
    assert!(range.covering(0) && range.covering(127));

    range.set_lo(50).unwrap();
    range.set_hi(60).unwrap();
    assert!(!range.covering(49) && range.covering(50) && range.covering(60) && !range.covering(61));

    assert_eq!(range.set_hi(300).unwrap_err().message(), "hivel out of range: 0 <= 300 <= 127");
    assert_eq!(range.set_hi(-1).unwrap_err().message(), "hivel out of range: 0 <= -1 <= 127");
    assert_eq!(range.set_lo(128).unwrap_err().message(), "lovel out of range: 0 <= 128 <= 127");
    assert_eq!(range.set_hi(40).unwrap_err().message(), "Flipped range hivel: 40 <-> 50");
    assert_eq!(range.set_lo(61).unwrap_err().message(), "Flipped range lovel: 61 <-> 60");
    assert_eq!((range.lo, range.hi), (50, 60));

    range.set_hi(50).unwrap();
    assert!(range.covering(50) && !range.covering(51));
}

#[test]
fn note_ranges() {
    let mut range = NoteRange::default();
    assert_eq!((range.lo, range.hi), (Some(0), Some(127)));

    range.set_lo(20).unwrap();
    assert_eq!(range.set_hi(10).unwrap_err().message(), "Flipped range hikey: 10 <-> 20");
    range.set_hi(30).unwrap();
    assert_eq!(range.set_lo(31).unwrap_err().message(), "Flipped range lokey: 31 <-> 30");
    assert!(!range.covering(19) && range.covering(20) && range.covering(30) && !range.covering(31));

    assert_eq!(range.set_hi(128).unwrap_err().message(), "hikey out of range: -1 <= 128 <= 127");
    assert_eq!(range.set_lo(-2).unwrap_err().message(), "lokey out of range: -1 <= -2 <= 127");
    assert_eq!(range.set_lo(256).unwrap_err().message(), "lokey out of range: -1 <= 256 <= 127");

    range.set_lo(-1).unwrap();
    assert_eq!(range.lo, None);
    assert!(!range.covering(25));
    range.set_lo(25).unwrap();
    assert!(range.covering(25));
    range.set_hi(-1).unwrap();
    assert_eq!(range.hi, None);
    assert!(!range.covering(25));
}

#[test]
fn random_ranges() {
    let mut range = RandomRange::default();
    assert!(range.covering(dec("0")) && range.covering(dec("0.999999999")));

    range.set_lo(dec("0.5")).unwrap();
    range.set_hi(dec("1")).unwrap();
    assert!(!range.covering(dec("0.499999999")));
    assert!(range.covering(dec("0.5")));
    assert!(range.covering(dec("0.999999999")));
    assert!(!range.covering(dec("1")));

    assert_eq!(range.set_hi(dec("1.5")).unwrap_err().message(), "hirand out of range: 0 <= 1.5 <= 1");
    assert_eq!(range.set_lo(dec("-0.1")).unwrap_err().message(), "lorand out of range: 0 <= -0.1 <= 1");
    assert_eq!(range.set_hi(dec("0.25")).unwrap_err().message(), "Flipped range hirand: 0.25 <-> 0.5");
    range.set_hi(dec("0.75")).unwrap();
    assert_eq!(range.set_lo(dec("0.8")).unwrap_err().message(), "Flipped range lorand: 0.8 <-> 0.75");

    range.set_lo(dec("0.75")).unwrap();
    assert!(range.covering(dec("0.1")));
}

#[test]
fn controller_ranges() {
    let mut range = ControlValRange::default();
    assert_eq!((range.lo, range.hi), (None, None));
    assert!(!range.covering(0));

    range.set_hi(23).unwrap();
    assert!(!range.covering(23));
    range.set_lo(20).unwrap();
    assert!(!range.covering(19) && range.covering(20) && range.covering(23) && !range.covering(24));

    assert_eq!(range.set_lo(24).unwrap_err().message(), "Flipped range on_loccXX: 24 <-> 23");
    assert_eq!(range.set_hi(19).unwrap_err().message(), "Flipped range on_hiccXX: 19 <-> 20");
    assert_eq!(range.set_hi(128).unwrap_err().message(), "on_hiccXX out of range: -1 <= 128 <= 127");
    assert_eq!(range.set_lo(-2).unwrap_err().message(), "on_loccXX out of range: -1 <= -2 <= 127");

    range.set_lo(-1).unwrap();
    assert_eq!(range.lo, None);
    assert!(!range.covering(21));
}
