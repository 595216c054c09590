//! Cutting a host's block into pieces.

use soundfonts::host::{event_frame, piece_end};
use soundfonts::text::{char_of_digit, digit_of, push_nat, push_padded, push_str, spells, chars_of};

#[test]
fn events_take_effect_within_the_block() {
    assert_eq!(event_frame(0, 0, 64), 0);
    assert_eq!(event_frame(0, 17, 64), 17);
    assert_eq!(event_frame(17, 17, 64), 17);
    assert_eq!(event_frame(17, 64, 64), 64);
    assert_eq!(event_frame(17, 5, 64), 17);
    assert_eq!(event_frame(17, -5, 64), 17);
    assert_eq!(event_frame(17, i64::MIN, 64), 17);
    assert_eq!(event_frame(17, 65, 64), 64);
    assert_eq!(event_frame(17, i64::MAX, 64), 64);
    assert_eq!(event_frame(64, 3, 64), 64);
    assert_eq!(event_frame(0, 0, 0), 0);
}

#[test]
fn pieces_are_no_longer_than_the_largest_block() {
    assert_eq!(piece_end(0, 64, 16), 16);
    assert_eq!(piece_end(16, 64, 16), 32);
    assert_eq!(piece_end(48, 64, 16), 64);
    assert_eq!(piece_end(50, 64, 16), 64);
    assert_eq!(piece_end(47, 64, 16), 63);
    assert_eq!(piece_end(64, 64, 16), 64);
    assert_eq!(piece_end(0, 64, 64), 64);
    assert_eq!(piece_end(0, 64, 1000), 64);
    assert_eq!(piece_end(0, 64, 0), 0);
    assert_eq!(piece_end(usize::MAX - 3, usize::MAX, 2), usize::MAX - 1);
}

#[test]
fn pieces_tile_the_block() {
    for (frames, block) in [(0usize, 4usize), (1, 4), (4, 4), (5, 4), (64, 16), (100, 7), (3, 1)] {
        let mut offset = 0;
        let mut pieces = 0;
        while offset < frames {
            let end = piece_end(offset, frames, block);
            assert!(offset < end && end <= frames && end - offset <= block);
            offset = end;
            pieces += 1;
        }
        assert_eq!(offset, frames);
        assert_eq!(pieces, (frames + block - 1) / block);
    }
}

#[test]
fn digits() {
    for (d, c) in ('0'..='9').enumerate() {
        assert_eq!(digit_of(c), Some(d as u8));
        assert_eq!(char_of_digit(d as u8), c);
    }
    for c in ['/', ':', 'a', ' ', '٣', '-'] {
        assert_eq!(digit_of(c), None);
    }
}

#[test]
fn numbers_as_text() {
    let mut s = String::from("n=");
    push_nat(&mut s, 0);
    push_str(&mut s, ",");
    push_nat(&mut s, 7);
    push_str(&mut s, ",");
    push_nat(&mut s, 1205);
    push_str(&mut s, ",");
    push_nat(&mut s, u64::MAX);
    push_str(&mut s, ",");
    push_padded(&mut s, 42, 5);
    push_str(&mut s, ",");
    push_padded(&mut s, 123456, 3);
    push_str(&mut s, ",");
    push_padded(&mut s, 9, 0);
    assert_eq!(s, "n=0,7,1205,18446744073709551615,00042,456,");
}

#[test]
fn spelling() {
    assert!(spells(&chars_of("lokey"), "lokey"));
    assert!(!spells(&chars_of("lokey"), "hikey"));
    assert!(!spells(&chars_of("lokey"), "lokeys"));
    assert!(!spells(&chars_of("lokeys"), "lokey"));
    assert!(spells(&chars_of(""), ""));
    assert!(spells(&chars_of("é"), "é"));
}
