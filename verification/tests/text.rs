use matrix_quant::text::{
    chars_of, contains, ends_with, number_text, padded_text, parse_u32, parse_u64, parse_usize,
    remove_char, starts_with, strip_prefixes, strip_suffixes, text_of, trim, words,
};

#[test]
fn numerals_are_read_back() {
    for n in [0u64, 7, 10, 60000, 18446744073709551615] {
        let s = number_text(n as u128);
        assert_eq!(s, n.to_string());
        assert_eq!(parse_u64(&s), Some(n));
    }
}

#[test]
fn numbers_are_parsed_like_the_standard_library_does() {
    for s in ["", "+", "+5", "-1", "007", "18446744073709551616", "1 ", "1_0", "4294967296", "99"] {
        assert_eq!(parse_u64(s), s.parse::<u64>().ok(), "{}", s);
        assert_eq!(parse_u32(s), s.parse::<u32>().ok(), "{}", s);
        assert_eq!(parse_usize(s), s.parse::<usize>().ok(), "{}", s);
    }
}

#[test]
fn numerals_are_padded() {
    assert_eq!(padded_text(7, 2), "07");
    assert_eq!(padded_text(2025, 4), "2025");
    assert_eq!(padded_text(123, 2), "123");
    assert_eq!(padded_text(0, 3), "000");
}

#[test]
fn words_are_split_like_the_standard_library_does() {
    for s in ["", "  ", "a", " a  b\tc\n", "\u{a0}x\u{3000}y\u{2003}", "btc 1 2"] {
        let want: Vec<&str> = s.split_whitespace().collect();
        assert_eq!(words(s), want);
        assert_eq!(trim(s), s.trim());
    }
}

#[test]
fn white_space_is_the_unicode_one() {
    let mut n: u32 = 0;
    while n < 0x3100 {
        if let Some(c) = char::from_u32(n) {
            let s: String = c.to_string();
            assert_eq!(words(&s).is_empty(), c.is_whitespace(), "{:x}", n);
        }
        n += 1;
    }
}

#[test]
fn parts_of_texts_are_found() {
    assert!(contains("abc-4046x", "-4046"));
    assert!(!contains("abc", "abcd"));
    assert!(contains("abc", ""));
    assert!(starts_with("XAUUSDT", "XAU"));
    assert!(!starts_with("XA", "XAU"));
    assert!(ends_with("BTCUSDT", "USDT"));
    assert!(!ends_with("USD", "USDT"));
}

#[test]
fn parts_of_texts_are_taken_off() {
    assert_eq!(strip_prefixes("GUARD_OPENED_BTC", "GUARD_OPENED_"), "BTC");
    assert_eq!(strip_prefixes("aaab", "a"), "b");
    assert_eq!(strip_prefixes("b", "a"), "b");
    assert_eq!(strip_suffixes("ACTUSDT", "USDT"), "ACT");
    assert_eq!(strip_suffixes("1.500", "0"), "1.5");
    assert_eq!(strip_suffixes("USDTUSDT", "USDT"), "");
    assert_eq!(remove_char("1m0m", 'm'), "10");
}

#[test]
fn characters_make_texts() {
    let v = chars_of("añ好");
    assert_eq!(v, vec!['a', 'ñ', '好']);
    assert_eq!(text_of(&v), "añ好");
}
