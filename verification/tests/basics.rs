use eva01::fixed_point::{I80F48, ONE_BITS};
use eva01::pubkey::Pubkey;
use eva01::text::{
    contains, join, parse_u64, split, starts_with, trim, trim_slashes, u64_text, word_at_end,
};
use eva01::time::{Duration, Instant};

#[test]
fn texts_are_trimmed_and_split() {
    assert_eq!(trim(" \t a b\u{3000}\n"), "a b");
    assert_eq!(trim("\u{a0}"), "");
    assert_eq!(trim_slashes("a//b///"), "a//b");
    assert_eq!(split("a,,b,", ','), vec!["a", "", "b", ""]);
    assert_eq!(split("", ','), vec![""]);
    let pieces: Vec<String> = ["x", "", "y"].iter().map(|s| s.to_string()).collect();
    assert_eq!(join(&pieces, ','), "x,,y");
    assert_eq!(split(&join(&pieces, ','), ','), pieces);
    assert_eq!(word_at_end("Lookup Table Address: abc"), "abc");
    assert_eq!(word_at_end("abc"), "abc");
    assert!(starts_with("abc", "ab") && !starts_with("ab", "abc") && starts_with("", ""));
}

#[test]
fn texts_contain_their_parts() {
    for hay in ["", "a", "aab", "abab", "x aaab", "NO_ROUTES_FOUND"] {
        for needle in ["", "a", "ab", "aab", "bab", "abc", "aaab", "ROUTES", "FOUND!"] {
            assert_eq!(contains(hay, needle), hay.contains(needle));
        }
    }
}

#[test]
fn white_space_is_that_of_unicode() {
    for n in 0..=0x3100u32 {
        if let Some(c) = char::from_u32(n) {
            assert_eq!(trim(&c.to_string()).is_empty(), c.is_whitespace());
        }
    }
}

#[test]
fn numbers_are_printed_and_read() {
    for n in [0, 9, 10, 1908764533, u64::MAX] {
        assert_eq!(u64_text(n), n.to_string());
        assert_eq!(parse_u64(&n.to_string()), Some(n));
    }
    for text in ["", "+", "-", "+5", "-5", "007", "1 ", "18446744073709551616", "\u{661}", "++1"] {
        assert_eq!(parse_u64(text), text.parse::<u64>().ok());
    }
}

#[test]
fn addresses_are_printed_and_read() {
    for seed in 0..20u8 {
        let bytes = [seed.wrapping_mul(31); 32];
        let key = Pubkey::new_from_array(bytes);
        let text = key.to_text();
        assert_eq!(text, solana_sdk::pubkey::Pubkey::new_from_array(bytes).to_string());
        assert_eq!(Pubkey::from_text(&text).unwrap(), key);
    }
    for bad in ["", "0", "l", "111", "TokenkegQfeZyiNwAJbNbGKPFXCWuBvf9Ss623VQ5DA11111111111"] {
        let known = bad.parse::<solana_sdk::pubkey::Pubkey>().unwrap_err();
        assert_eq!(Pubkey::from_text(bad).unwrap_err(), known.to_string());
    }
    assert!(Pubkey::new_from_array([0; 32]).is_unset());
    let mut bytes = [0; 32];
    bytes[31] = 1;
    assert!(!Pubkey::new_from_array(bytes).is_unset());
}

#[test]
fn fixed_point_numbers_compute_as_their_crate_does() {
    let values = [0, 1, -1, ONE_BITS, -ONE_BITS, 12345678901234567, -987654321, i128::MAX, i128::MIN];
    for a in values {
        let (x, known) = (I80F48::from_bits(a), fixed::types::I80F48::from_bits(a));
        assert_eq!(x.half().bits, (known / 2).to_bits());
        for b in values {
            let y = fixed::types::I80F48::from_bits(b);
            let product = x.checked_mul(I80F48::from_bits(b)).map(|p| p.bits);
            assert_eq!(product, known.checked_mul(y).map(|p| p.to_bits()));
            assert_eq!(x.exceeds(I80F48::from_bits(b)), known > y);
        }
    }
    let product = |a: i128, b: i128| I80F48::from_bits(a).checked_mul(I80F48::from_bits(b));
    assert_eq!(product(3 * ONE_BITS, 5 * ONE_BITS).unwrap().bits, 15 * ONE_BITS);
    assert_eq!(product(3, ONE_BITS / 2).unwrap().bits, 1);
    assert_eq!(product(-3, ONE_BITS / 2).unwrap().bits, -2);
    // Products are rounded down.
    let third = I80F48::from_bits(-ONE_BITS / 3);
    assert_eq!(third.checked_mul(I80F48::from_bits(1)).unwrap().bits, -1);
    assert!(I80F48::from_bits(i128::MAX).checked_mul(I80F48::from_bits(2 * ONE_BITS)).is_none());
}

#[test]
fn whole_parts() {
    let x = I80F48::from_bits(7 * ONE_BITS + ONE_BITS - 1);
    assert!(x.is_u64());
    assert_eq!(x.to_u64(), 7);
    assert_eq!(fixed::types::I80F48::from_bits(x.bits).to_num::<u64>(), 7);
    let largest = I80F48::from_bits(u64::MAX as i128 * ONE_BITS + ONE_BITS - 1);
    assert!(largest.is_u64());
    assert_eq!(largest.to_u64(), u64::MAX);
    assert!(!I80F48::from_bits(largest.bits + 1).is_u64());
    assert!(!I80F48::from_bits(-1).is_u64());
    assert_eq!(I80F48::from_bits(5).minus(I80F48::from_bits(7)).bits, -2);
}

#[test]
fn time_goes_on() {
    let start = Instant { nanos: 5 };
    let later = start.plus(Duration::from_secs(2));
    assert_eq!(later.nanos, 2_000_000_005);
    assert!(start.is_before(later) && !later.is_before(start) && !start.is_before(start));
    assert_eq!(later.duration_since(start).as_secs(), 2);
    assert_eq!(start.duration_since(later).nanos, 0);
}
