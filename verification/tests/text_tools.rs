use verilib_structure::lines::extract_lines;
use verilib_structure::lines::line_spans;
use verilib_structure::scan::decimal_string;
use verilib_structure::scan::ends_with;
use verilib_structure::scan::find;
use verilib_structure::scan::join;
use verilib_structure::scan::matches_at;
use verilib_structure::scan::parse_decimal;
use verilib_structure::scan::replace;
use verilib_structure::scan::rfind;
use verilib_structure::scan::slice;
use verilib_structure::scan::split;
use verilib_structure::scan::starts_with;
use verilib_structure::scan::trim;
use verilib_structure::scan::CharClass;
use verilib_structure::scan::Piece;

fn chars(s: &str) -> Vec<char> {
    s.chars().collect()
}

fn cut(text: &str, pieces: &[Piece]) -> Vec<String> {
    let all = chars(text);
    pieces.iter().map(|p| all[p.start..p.end].iter().collect()).collect()
}

fn lines(text: &str) -> Vec<String> {
    cut(text, &line_spans(&chars(text)))
}

#[test]
fn find_first_and_last() {
    let hay = chars("abcabcab");
    assert_eq!(find(&hay, &chars("bc")), Some(1));
    assert_eq!(rfind(&hay, &chars("bc")), Some(4));
    assert_eq!(find(&hay, &chars("ab")), Some(0));
    assert_eq!(rfind(&hay, &chars("ab")), Some(6));
    assert_eq!(find(&hay, &chars("x")), None);
    assert_eq!(rfind(&hay, &chars("x")), None);
    assert_eq!(find(&hay, &chars("abcabcabc")), None);
    assert_eq!(find(&hay, &chars("")), Some(0));
    assert_eq!(rfind(&hay, &chars("")), Some(8));
    assert_eq!(find(&chars(""), &chars("")), Some(0));
    assert_eq!(find(&chars(""), &chars("a")), None);
}

#[test]
fn find_counts_characters_not_bytes() {
    let hay = chars("é日x日");
    assert_eq!(find(&hay, &chars("日")), Some(1));
    assert_eq!(rfind(&hay, &chars("日")), Some(3));
    assert_eq!(slice("é日x日", 1, 3), "日x");
}

#[test]
fn matching_at_a_position() {
    let hay = chars("hello");
    assert!(matches_at(&hay, 1, &chars("ell")));
    assert!(!matches_at(&hay, 2, &chars("ell")));
    assert!(!matches_at(&hay, 3, &chars("loo")));
    assert!(matches_at(&hay, 5, &chars("")));
    assert!(!matches_at(&hay, 6, &chars("")));
    assert!(starts_with(&hay, &chars("he")));
    assert!(!starts_with(&hay, &chars("el")));
    assert!(starts_with(&hay, &chars("")));
    assert!(ends_with(&hay, &chars("llo")));
    assert!(!ends_with(&hay, &chars("hell")));
    assert!(!ends_with(&hay, &chars("xhello")));
}

#[test]
fn decimal_numerals_with_a_limit() {
    let s = chars("x123y");
    assert_eq!(parse_decimal(&s, 1, 4, 1000), Some(123));
    assert_eq!(parse_decimal(&s, 1, 4, 123), Some(123));
    assert_eq!(parse_decimal(&s, 1, 4, 122), None);
    assert_eq!(parse_decimal(&s, 1, 5, 1000), None);
    assert_eq!(parse_decimal(&s, 2, 2, 1000), None);
    let big = chars("18446744073709551615");
    assert_eq!(parse_decimal(&big, 0, big.len(), u64::MAX), Some(u64::MAX));
    let bigger = chars("18446744073709551616");
    assert_eq!(parse_decimal(&bigger, 0, bigger.len(), u64::MAX), None);
}

#[test]
fn decimal_strings() {
    assert_eq!(decimal_string(0), "0");
    assert_eq!(decimal_string(7), "7");
    assert_eq!(decimal_string(10), "10");
    assert_eq!(decimal_string(4096), "4096");
    assert_eq!(decimal_string(usize::MAX), usize::MAX.to_string());
}

#[test]
fn replace_all_occurrences() {
    assert_eq!(replace("a::b::c", "::", "."), "a.b.c");
    assert_eq!(replace("a:::b", "::", "."), "a.:b");
    assert_eq!(replace("::", "::", "."), ".");
    assert_eq!(replace("abc", "::", "."), "abc");
    assert_eq!(replace("", "::", "."), "");
    assert_eq!(replace("aaa", "aa", "b"), "ba");
    assert_eq!(replace("abc", "", "x"), "abc");
    assert_eq!(replace("a\nb", "\n", "\\n"), "a\\nb");
    assert_eq!(replace("日é日", "日", "xy"), "xyéxy");
}

#[test]
fn join_with_separator() {
    let parts = vec!["a".to_string(), "b".to_string(), "".to_string(), "c".to_string()];
    assert_eq!(join(&parts, ", "), "a, b, , c");
    assert_eq!(join(&vec!["a".to_string()], ", "), "a");
    assert_eq!(join(&Vec::new(), ", "), "");
}

#[test]
fn split_at_a_character() {
    let text = "a,b,,c";
    let all = chars(text);
    assert_eq!(cut(text, &split(&all, 0, all.len(), ',')), vec!["a", "b", "", "c"]);
    assert_eq!(cut(text, &split(&all, 2, 5, ',')), vec!["b", "", ""]);
    assert_eq!(cut("", &split(&chars(""), 0, 0, ',')), vec![""]);
    assert_eq!(cut(",", &split(&chars(","), 0, 1, ',')), vec!["", ""]);
    assert_eq!(cut("abc", &split(&chars("abc"), 0, 3, ',')), vec!["abc"]);
}

#[test]
fn trim_white_space_brackets_and_quotes() {
    let t = |s: &str, class: CharClass| {
        let all = chars(s);
        let p = trim(&all, 0, all.len(), class);
        cut(s, &[p])[0].clone()
    };
    assert_eq!(t("  a b \t\n", CharClass::Space), "a b");
    assert_eq!(t("\u{a0}\u{3000}x\u{2003}\u{85}", CharClass::Space), "x");
    assert_eq!(t("\u{200b}x", CharClass::Space), "\u{200b}x");
    assert_eq!(t("   ", CharClass::Space), "");
    assert_eq!(t("", CharClass::Space), "");
    assert_eq!(t("[[a]b]", CharClass::Brackets), "a]b");
    assert_eq!(t("\"'a'\"", CharClass::Quotes), "a");
    assert_eq!(t(" \"a\" ", CharClass::Quotes), " \"a\" ");
}

#[test]
fn white_space_agrees_with_the_standard_library() {
    for code in 0..0x3100u32 {
        if let Some(c) = char::from_u32(code) {
            assert_eq!(CharClass::Space.contains(c), c.is_whitespace());
        }
    }
}

#[test]
fn lines_of_a_text() {
    assert_eq!(lines("a\nb\nc"), vec!["a", "b", "c"]);
    assert_eq!(lines("a\nb\n"), vec!["a", "b"]);
    assert_eq!(lines("a\r\nb\r\n"), vec!["a", "b"]);
    assert_eq!(lines("a\rb\n"), vec!["a\rb"]);
    assert_eq!(lines("a\n\nb"), vec!["a", "", "b"]);
    assert_eq!(lines("\n"), vec![""]);
    assert_eq!(lines(""), Vec::<String>::new());
    assert_eq!(lines("a\r"), vec!["a\r"]);
    assert_eq!(lines("a\r\r\n"), vec!["a\r"]);
}

#[test]
fn lines_agree_with_the_standard_library() {
    for text in ["", "\n", "\r\n", "a", "a\n", "a\r\nb", "a\n\n", "\r", "x\r\ny\rz\n\r\n", "é\n日\n"] {
        let expected: Vec<String> = text.lines().map(|l| l.to_string()).collect();
        assert_eq!(lines(text), expected);
    }
}

#[test]
fn extract_lines_of_a_source() {
    let source = "one\ntwo\nthree\nfour\n";
    assert_eq!(extract_lines(source, 2, 3), Some("two\nthree".to_string()));
    assert_eq!(extract_lines(source, 1, 1), Some("one".to_string()));
    assert_eq!(extract_lines(source, 1, 4), Some("one\ntwo\nthree\nfour".to_string()));
    assert_eq!(extract_lines(source, 4, 4), Some("four".to_string()));
    assert_eq!(extract_lines(source, 3, 2), Some("".to_string()));
    assert_eq!(extract_lines(source, 0, 2), None);
    assert_eq!(extract_lines(source, 1, 5), None);
    assert_eq!(extract_lines(source, 4, 2), None);
    assert_eq!(extract_lines("", 1, 1), None);
    assert_eq!(extract_lines("a\r\nb\r\n", 1, 2), Some("a\nb".to_string()));
}
