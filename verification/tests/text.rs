use fapiao::geometry::{floor_of, gap_of};
use fapiao::order::{rank, sort_by_keys};
use fapiao::pattern::{hits, pattern_ready};
use fapiao::text::{
    chars_of, contains_char, contains_colon, contains_str, decimal_chars, starts_with_char, str_eq,
    string_of, strip_currency_chars, trim_chars,
};

fn s(chars: Vec<char>) -> String {
    chars.into_iter().collect()
}

#[test]
fn patterns_are_evaluated_by_the_engine() {
    assert!(hits(r"^\d+$", "123"));
    assert!(!hits(r"^\d+$", "12a"));
    assert!(!hits(r"^\d+$", ""));
    assert!(hits(r"^\d+$", "１２３"));
    assert!(hits("a", "banana"));
    assert!(!hits("^a", "banana"));
    assert!(hits("", ""));
    assert!(!hits("(", "("));
    assert!(hits(r"电[⼦子]\S*", "电子发票"));
    assert!(hits(r"电[⼦子]\S*", "电⼦发票"));
    assert!(!hits(r"电[⼦子]\S*", "电话"));
    assert!(hits(r"^[¥￥]?-?[\d.]+$", "¥-1.5"));
    assert!(hits(r"^[¥￥]?-?[\d.]+$", "..."));
    assert!(!hits(r"^[¥￥]?-?[\d.]+$", "1,5"));
    assert!(hits(r"^[¥￥]?\d+(\.\d+)?$", "￥12.50"));
    assert!(!hits(r"^[¥￥]?\d+(\.\d+)?$", "12."));
    assert!(hits(r"^开票.{0,1}[:：]$", "开票人："));
    assert!(hits(r"^开票.{0,1}[:：]$", "开票:"));
    assert!(!hits(r"^开票.{0,1}[:：]$", "开票日期："));
    assert!(hits(r"^校验码[:：]|^码[:：]", "码:123"));
    assert!(!hits(r"^校验码[:：]|^码[:：]", "校验码"));
    assert!(hits(r"称[:：]?$", "名称"));
    assert!(!hits(r"称[:：]?$", "名称: x"));
}

#[test]
fn patterns_are_accepted_or_not() {
    assert!(pattern_ready("a+"));
    assert!(pattern_ready(""));
    assert!(!pattern_ready("("));
    assert!(!pattern_ready("a{2,1}"));
}

#[test]
fn strings_and_characters_convert_both_ways() {
    assert_eq!(chars_of("a¥发"), vec!['a', '¥', '发']);
    assert_eq!(chars_of(""), Vec::<char>::new());
    assert_eq!(string_of(&vec!['a', '¥', '发']), "a¥发");
    assert_eq!(string_of(&Vec::new()), "");
}

#[test]
fn strings_are_compared_by_their_characters() {
    assert!(str_eq("", ""));
    assert!(str_eq("购", "购"));
    assert!(!str_eq("方", "⽅"));
    assert!(!str_eq("ab", "abc"));
    assert!(!str_eq("abc", "abd"));
}

#[test]
fn characters_and_parts_are_found() {
    assert!(contains_char("13%", '%'));
    assert!(!contains_char("13", '%'));
    assert!(contains_colon("a:b"));
    assert!(contains_colon("a：b"));
    assert!(!contains_colon("a;b"));
    assert!(starts_with_char("*a", '*'));
    assert!(!starts_with_char("a*", '*'));
    assert!(!starts_with_char("", '*'));
    assert!(contains_str("货物或应税劳务", "货物"));
    assert!(contains_str("应税劳务货物", "货物"));
    assert!(!contains_str("货 物", "货物"));
    assert!(contains_str("abc", ""));
    assert!(contains_str("", ""));
    assert!(!contains_str("", "a"));
    assert!(!contains_str("ab", "abc"));
    assert!(contains_str("aab", "ab"));
}

#[test]
fn whitespace_is_trimmed_at_both_ends() {
    assert_eq!(s(trim_chars(&chars_of("  a b \t\n"))), "a b");
    assert_eq!(s(trim_chars(&chars_of("\u{3000}a\u{a0}"))), "a");
    assert_eq!(s(trim_chars(&chars_of("   "))), "");
    assert_eq!(s(trim_chars(&chars_of(""))), "");
    assert_eq!(s(trim_chars(&chars_of("a"))), "a");
    assert_eq!(s(trim_chars(&chars_of("_a_"))), "_a_");
}

#[test]
fn currency_signs_are_stripped() {
    assert_eq!(s(strip_currency_chars(&chars_of("¥1,2￥"))), "1,2");
    assert_eq!(s(strip_currency_chars(&chars_of("$1"))), "$1");
}

#[test]
fn numbers_are_written_in_decimal() {
    assert_eq!(s(decimal_chars(0)), "0");
    assert_eq!(s(decimal_chars(7)), "7");
    assert_eq!(s(decimal_chars(10)), "10");
    assert_eq!(s(decimal_chars(1234567890)), "1234567890");
    assert_eq!(s(decimal_chars(u128::MAX)), "340282366920938463463374607431768211455");
}

#[test]
fn distances_and_floors_are_exact() {
    assert_eq!(gap_of(3, 10), 7);
    assert_eq!(gap_of(10, 3), 7);
    assert_eq!(gap_of(i64::MIN, i64::MAX), u64::MAX as i128);
    assert_eq!(floor_of(20_500), 20_000);
    assert_eq!(floor_of(20_000), 20_000);
    assert_eq!(floor_of(999), 0);
    assert_eq!(floor_of(0), 0);
    assert_eq!(floor_of(-1), -1000);
    assert_eq!(floor_of(-1000), -1000);
    assert_eq!(floor_of(-1001), -2000);
    assert_eq!(floor_of(i64::MIN), -9_223_372_036_854_776_000);
    assert_eq!(floor_of(i64::MAX), 9_223_372_036_854_775_000);
}

#[test]
fn ranking_is_stable() {
    assert_eq!(rank(&vec![3, 1, 2, 1, 3, 0]), vec![5, 1, 3, 2, 0, 4]);
    assert_eq!(rank(&Vec::new()), Vec::<usize>::new());
    assert_eq!(sort_by_keys(&vec!['a', 'b', 'c', 'd'], &vec![2, 1, 2, 1]), vec!['b', 'd', 'a', 'c']);
}

#[test]
fn every_white_space_character_is_trimmed_and_no_other() {
    let white: Vec<u32> = vec![
        0x9, 0xA, 0xB, 0xC, 0xD, 0x20, 0x85, 0xA0, 0x1680, 0x2000, 0x2001, 0x2002, 0x2003, 0x2004,
        0x2005, 0x2006, 0x2007, 0x2008, 0x2009, 0x200A, 0x2028, 0x2029, 0x202F, 0x205F, 0x3000,
    ];
    assert_eq!(white.len(), 25);
    for n in 0..0x3100u32 {
        let Some(c) = char::from_u32(n) else { continue };
        let trimmed = trim_chars(&vec![c, 'a', c]);
        if white.contains(&n) {
            assert_eq!(trimmed, vec!['a'], "U+{:04X}", n);
        } else {
            assert_eq!(trimmed, vec![c, 'a', c], "U+{:04X}", n);
        }
    }
    for n in [0x180Eu32, 0x200B, 0x2060, 0xFEFF, 0x1F600] {
        let c = char::from_u32(n).unwrap();
        assert_eq!(trim_chars(&vec![c, 'a', c]), vec![c, 'a', c]);
    }
}
