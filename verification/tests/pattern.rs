use solana_vanity::pattern::{expected_attempts, first_non_base58_char, VanityPattern};

#[test]
fn new_trims_prefix_and_suffix() {
    let p = VanityPattern::new("  BRON\t", " COOL\n", true);
    assert_eq!(p.prefix, "BRON");
    assert_eq!(p.suffix, "COOL");
    assert!(p.case_insensitive);
    assert!(!p.blank());
    assert!(VanityPattern::new(" ", "", false).blank());
}

#[test]
fn exact_prefix_and_suffix() {
    let p = VanityPattern::new("BRON", "COOL", false);
    assert!(p.matches("BRONxyzCOOL"));
    assert!(p.matches("BRONCOOL"));
    assert!(!p.matches("BRONCOO"));
    assert!(!p.matches("bronxyzCOOL"));
    assert!(!p.matches("BRONxyzcool"));
    assert!(!p.matches("BRO"));
}

#[test]
fn overlapping_prefix_and_suffix() {
    let p = VanityPattern::new("abc", "bcd", false);
    assert!(p.matches("abcd"));
    assert!(!p.matches("abc"));
}

#[test]
fn case_insensitive_prefix() {
    let p = VanityPattern::new("bron", "", true);
    assert!(p.matches("BRONabc"));
    assert!(p.matches("bRoNabc"));
    assert!(!p.matches("BROXabc"));
    let exact = VanityPattern::new("bron", "", false);
    assert!(!exact.matches("BRONabc"));
}

#[test]
fn blank_pattern_matches_everything() {
    let p = VanityPattern::new("", "", false);
    assert!(p.matches(""));
    assert!(p.matches("anything"));
    let q = VanityPattern::new("", "", true);
    assert!(q.matches("ANYTHING"));
}

#[test]
fn non_base58_chars() {
    // The README's own example holds an `O`: exactly, it can never match.
    assert_eq!(first_non_base58_char("BRON"), Some(2));
    assert_eq!(first_non_base58_char("BRN"), None);
    assert_eq!(first_non_base58_char("B0N"), Some(1));
    assert_eq!(first_non_base58_char("Oops"), Some(0));
    assert_eq!(first_non_base58_char("aIb"), Some(1));
    assert_eq!(first_non_base58_char("hello"), Some(2));
    assert_eq!(first_non_base58_char("a-b"), Some(1));
    assert_eq!(first_non_base58_char("\u{212a}"), Some(0));
    assert_eq!(first_non_base58_char(""), None);
    assert_eq!(first_non_base58_char("123456789ABCDEFGHJKLMNPQRSTUVWXYZabcdefghijkmnopqrstuvwxyz"), None);
}

#[test]
fn trimming_uses_unicode_white_space() {
    let p = VanityPattern::new("\u{3000}\u{85}Abc\u{a0}\u{2009}", "\u{200b}x ", false);
    assert_eq!(p.prefix, "Abc");
    // U+200B ZERO WIDTH SPACE is not White_Space: trim keeps it.
    assert_eq!(p.suffix, "\u{200b}x");
    assert_eq!(p.prefix, "\u{3000}\u{85}Abc\u{a0}\u{2009}".trim());
    let q = VanityPattern::new(" \t\n\r\u{b}\u{c} ", "", true);
    assert!(q.blank());
}

#[test]
fn expected_attempts_exact_values() {
    assert_eq!(expected_attempts(1), Some(29));
    assert_eq!(expected_attempts(2), Some(1682));
    assert_eq!(expected_attempts(3), Some(97556));
    assert_eq!(expected_attempts(4), Some(5658248));
    assert_eq!(expected_attempts(5), Some(328178384));
    assert_eq!(expected_attempts(6), Some(19034346272));
    assert_eq!(expected_attempts(7), Some(1103992083776));
    assert_eq!(expected_attempts(8), Some(64031540859008));
    assert_eq!(expected_attempts(0), Some(0));
}

#[test]
fn expected_attempts_readme_table() {
    // The README's table of average attempts, to its rounding.
    let table: [(u32, f64); 8] = [
        (1, 29.0),
        (2, 1_700.0),
        (3, 97_000.0),
        (4, 5.6e6),
        (5, 324e6),
        (6, 18.8e9),
        (7, 1.1e12),
        (8, 63e12),
    ];
    for (len, approx) in table {
        let n = expected_attempts(len).unwrap() as f64;
        assert!((n - approx).abs() / approx < 0.02, "length {}: {} vs {}", len, n, approx);
    }
}

#[test]
fn each_char_multiplies_by_58() {
    for len in 1..21u32 {
        let a = expected_attempts(len).unwrap();
        let b = expected_attempts(len + 1).unwrap();
        assert_eq!(b, 58 * a);
    }
}

#[test]
fn expected_attempts_overflow() {
    assert!(expected_attempts(21).is_some());
    assert_eq!(expected_attempts(22), None);
    assert_eq!(expected_attempts(1000), None);
}
