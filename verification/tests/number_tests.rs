use pill_uml::number::parse_integer;
use pill_uml::text::{
    chars_of, contains, ends_with, equals, find, find_char, find_either, find_from, matches_at,
    next_line, remove_all, starts_with, string_of, strip_prefix, trim, trim_char, trim_end_char,
    trim_end_unit, words,
};
use pill_uml::Num;

fn text(v: i64) -> String {
    Num::from_milli(v).to_text()
}

fn read(s: &str) -> Option<i64> {
    Num::parse(&chars_of(s)).map(|n| n.milli)
}

#[test]
fn numbers_are_written_without_needless_places() {
    assert_eq!(text(0), "0");
    assert_eq!(text(30_000), "30");
    assert_eq!(text(37_500), "37.5");
    assert_eq!(text(1_250), "1.25");
    assert_eq!(text(1_005), "1.005");
    assert_eq!(text(50), "0.05");
    assert_eq!(text(-250), "-0.25");
    assert_eq!(text(-12_000), "-12");
    assert_eq!(text(i64::MAX), "9223372036854775.807");
    assert_eq!(text(i64::MIN), "-9223372036854775.808");
    let mut out = String::from("x=");
    Num::from_int(7).write_to(&mut out);
    assert_eq!(out, "x=7");
}

#[test]
fn numerals_are_read() {
    assert_eq!(read("4"), Some(4_000));
    assert_eq!(read("4.5"), Some(4_500));
    assert_eq!(read("-2.25"), Some(-2_250));
    assert_eq!(read("+3"), Some(3_000));
    assert_eq!(read(".5"), Some(500));
    assert_eq!(read("5."), Some(5_000));
    assert_eq!(read("0.3"), Some(300));
    assert_eq!(read("1.23456"), Some(1_234));
    assert_eq!(read("007"), Some(7_000));
    assert_eq!(read("9223372036854775.807"), Some(i64::MAX));
    assert_eq!(read("9223372036854775.808"), None);
    assert_eq!(read("99999999999999999999"), None);
    assert_eq!(read(""), None);
    assert_eq!(read("-"), None);
    assert_eq!(read("."), None);
    assert_eq!(read("1e3"), None);
    assert_eq!(read("1.2.3"), None);
    assert_eq!(read(" 1"), None);
    assert_eq!(read("12px"), None);
}

#[test]
fn what_is_written_is_read_back() {
    for v in [0, 1, -1, 999, 1_000, -1_001, 37_500, 120_000, i64::MAX, -i64::MAX] {
        assert_eq!(read(&text(v)), Some(v));
    }
}

#[test]
fn whole_numbers_are_read() {
    let read = |s: &str| parse_integer(&chars_of(s));
    assert_eq!(read("0"), Some(0));
    assert_eq!(read("42"), Some(42));
    assert_eq!(read("-7"), Some(-7));
    assert_eq!(read("+7"), Some(7));
    assert_eq!(read("2147483647"), Some(i32::MAX));
    assert_eq!(read("-2147483648"), Some(i32::MIN));
    assert_eq!(read("2147483648"), None);
    assert_eq!(read("-2147483649"), None);
    assert_eq!(read(""), None);
    assert_eq!(read("+"), None);
    assert_eq!(read("1.0"), None);
    assert_eq!(read("x"), None);
}

#[test]
fn arithmetic_stays_in_range() {
    let max = Num::from_milli(i64::MAX);
    let min = Num::from_milli(i64::MIN);
    let one = Num::from_milli(1);
    assert_eq!(Num::from_int(2).plus(Num::from_milli(500)), Num::from_milli(2_500));
    assert_eq!(max.plus(one), max);
    assert_eq!(min.minus(one), min);
    assert_eq!(Num::from_int(2).minus(Num::from_int(5)), Num::from_int(-3));
    assert_eq!(Num::from_int(7).times(3), Num::from_int(21));
    assert_eq!(Num::from_int(-7).times(3), Num::from_int(-21));
    assert_eq!(Num::from_int(7).times(0), Num::zero());
    assert_eq!(max.times(2), max);
    assert_eq!(min.times(2), min);
    assert_eq!(Num::from_milli(-1).times(usize::MAX), Num::from_milli(-(usize::MAX as i128).min(-(i64::MIN as i128)) as i64));
    assert_eq!(Num::from_int(5).twice(), Num::from_int(10));
    assert_eq!(max.twice(), max);
    assert_eq!(Num::from_int(5).half(), Num::from_milli(2_500));
    assert_eq!(Num::from_milli(3).half(), Num::from_milli(1));
    assert_eq!(Num::from_milli(-3).half(), Num::from_milli(-2));
    assert_eq!(Num::from_milli(-4).half(), Num::from_milli(-2));
    assert_eq!(min.half(), Num::from_milli(i64::MIN / 2));
    assert_eq!(Num::from_int(-5).abs(), Num::from_int(5));
    assert_eq!(min.abs(), max);
    assert_eq!(Num::from_int(3).max(Num::from_int(4)), Num::from_int(4));
    assert_eq!(Num::from_int(3).min(Num::from_int(4)), Num::from_int(3));
    assert!(Num::from_int(4).above(Num::from_int(3)));
    assert!(!Num::from_int(3).above(Num::from_int(3)));
    assert!(Num::from_int(3).below(Num::from_int(4)));
    assert!(Num::zero().is_zero());
    assert!(!one.is_zero());
}

fn s(cs: &[char]) -> String {
    string_of(cs)
}

#[test]
fn white_space_is_trimmed() {
    assert_eq!(s(trim(&chars_of("  \t hello world \r\n"))), "hello world");
    assert_eq!(s(trim(&chars_of("\u{a0}\u{3000}x\u{2003}"))), "x");
    assert_eq!(s(trim(&chars_of("   "))), "");
    assert_eq!(s(trim(&chars_of(""))), "");
    assert_eq!(s(trim(&chars_of("\u{200b}x"))), "\u{200b}x");
    assert_eq!(s(trim_char(&chars_of("...a.b.."), '.')), "a.b");
    assert_eq!(s(trim_char(&chars_of("..."), '.')), "");
    assert_eq!(s(trim_end_char(&chars_of("4;;"), ';')), "4");
    assert_eq!(s(trim_end_unit(&chars_of("4pxpx"), "px")), "4");
    assert_eq!(s(trim_end_unit(&chars_of("4p"), "px")), "4p");
    assert_eq!(s(trim_end_unit(&chars_of("px"), "px")), "");
}

#[test]
fn patterns_are_found_at_their_first_place() {
    let line = chars_of("a--b--|>c");
    assert_eq!(find(&line, "--"), Some(1));
    assert_eq!(find(&line, "--|>"), Some(4));
    assert_eq!(find(&line, "x"), None);
    assert_eq!(find(&line, ""), Some(0));
    assert_eq!(find(&chars_of(""), ""), Some(0));
    assert_eq!(find(&chars_of("ab"), "abc"), None);
    assert_eq!(find_from(&line, 2, "--"), Some(4));
    assert_eq!(find_from(&line, 9, ""), Some(9));
    assert_eq!(find_from(&line, 10, ""), None);
    assert_eq!(find_char(&line, 'b'), Some(3));
    assert_eq!(find_char(&line, 'z'), None);
    assert_eq!(find_either(&chars_of(".a b{"), ' ', '{'), Some(2));
    assert_eq!(find_either(&chars_of(".ab{"), ' ', '{'), Some(3));
    assert_eq!(find_either(&chars_of(".ab"), ' ', '{'), None);
    assert!(matches_at(&line, 4, "--|>"));
    assert!(!matches_at(&line, 5, "--|>"));
    assert!(!matches_at(&line, 8, "cc"));
    assert!(contains(&line, "|>"));
    assert!(starts_with(&line, "a-"));
    assert!(!starts_with(&line, "-"));
    assert!(ends_with(&line, ">c"));
    assert!(!ends_with(&line, "abcdefghijklmnop"));
    assert!(equals(&line, "a--b--|>c"));
    assert!(!equals(&line, "a--b--|>"));
    assert_eq!(strip_prefix(&line, "a--").map(s), Some("b--|>c".to_string()));
    assert_eq!(strip_prefix(&line, "b").map(s), None);
}

#[test]
fn occurrences_are_taken_out_from_left_to_right() {
    assert_eq!(s(&remove_all(&chars_of("x {static} y {static}"), "{static}")), "x  y ");
    assert_eq!(s(&remove_all(&chars_of("aaa"), "aa")), "a");
    assert_eq!(s(&remove_all(&chars_of("abc"), "")), "abc");
    assert_eq!(s(&remove_all(&chars_of("abab"), "ab")), "");
    assert_eq!(s(&remove_all(&chars_of(""), "ab")), "");
}

#[test]
fn a_text_falls_into_lines_and_words() {
    let text = chars_of("one\r\ntwo\n\nlast\r");
    let mut lines = Vec::new();
    let mut pos = 0;
    while pos < text.len() {
        let (end, next) = next_line(&text, pos);
        lines.push(s(&text[pos..end]));
        pos = next;
    }
    assert_eq!(lines, vec!["one", "two", "", "last\r"]);
    let line = chars_of("  Alice\t order  7 ");
    let parts: Vec<String> = words(&line).into_iter().map(|(a, b)| s(&line[a..b])).collect();
    assert_eq!(parts, vec!["Alice", "order", "7"]);
    assert!(words(&chars_of(" \t ")).is_empty());
}
