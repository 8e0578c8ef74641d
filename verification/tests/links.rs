use verilib_structure::links::get_display_name;
use verilib_structure::links::parse_github_link;
use verilib_structure::scan::parse_u32;
use verilib_structure::structure::StructureForm;
use verilib_structure::structure::StructureType;

fn parsed(path: &str, line: u32) -> Option<(String, u32)> {
    Some((path.to_string(), line))
}

fn number(s: &str) -> Option<u32> {
    let chars: Vec<char> = s.chars().collect();
    parse_u32(&chars, 0)
}

#[test]
fn link_with_line() {
    assert_eq!(
        parse_github_link("https://github.com/o/r/blob/main/src/scalar.rs#L120"),
        parsed("src/scalar.rs", 120)
    );
}

#[test]
fn link_without_line() {
    assert_eq!(
        parse_github_link("https://github.com/o/r/blob/main/src/scalar.rs"),
        parsed("src/scalar.rs", 0)
    );
}

#[test]
fn link_without_marker_or_empty() {
    assert_eq!(parse_github_link(""), None);
    assert_eq!(parse_github_link("https://github.com/o/r/tree/main/src/a.rs#L1"), None);
    assert_eq!(parse_github_link("/blob/main"), None);
}

#[test]
fn link_with_bad_line() {
    assert_eq!(parse_github_link("x/blob/main/a.rs#Labc"), None);
    assert_eq!(parse_github_link("x/blob/main/a.rs#L"), None);
    assert_eq!(parse_github_link("x/blob/main/a.rs#L-3"), None);
    assert_eq!(parse_github_link("x/blob/main/a.rs#L12-L14"), None);
    assert_eq!(parse_github_link("x/blob/main/a.rs#L4294967296"), None);
    assert_eq!(parse_github_link("x/blob/main/a.rs#L 7"), None);
}

#[test]
fn link_line_limits() {
    assert_eq!(parse_github_link("x/blob/main/a.rs#L4294967295"), parsed("a.rs", 4294967295));
    assert_eq!(parse_github_link("x/blob/main/a.rs#L0"), parsed("a.rs", 0));
    assert_eq!(parse_github_link("x/blob/main/a.rs#L007"), parsed("a.rs", 7));
    assert_eq!(parse_github_link("x/blob/main/a.rs#L+7"), parsed("a.rs", 7));
}

#[test]
fn link_takes_the_last_line_mark() {
    assert_eq!(parse_github_link("x/blob/main/a#L1.rs#L22"), parsed("a#L1.rs", 22));
}

#[test]
fn link_stops_at_a_second_marker() {
    assert_eq!(parse_github_link("x/blob/main/a.rs/blob/main/b.rs#L5"), parsed("a.rs", 0));
    assert_eq!(parse_github_link("x/blob/main/a.rs#L3/blob/main/b.rs#L5"), parsed("a.rs", 3));
}

#[test]
fn link_with_empty_target() {
    assert_eq!(parse_github_link("x/blob/main/"), parsed("", 0));
    assert_eq!(parse_github_link("x/blob/main/#L9"), parsed("", 9));
}

#[test]
fn link_with_unicode_path() {
    assert_eq!(parse_github_link("hé/blob/main/naïve/ü.rs#L3"), parsed("naïve/ü.rs", 3));
}

#[test]
fn numerals() {
    assert_eq!(number("0"), Some(0));
    assert_eq!(number("42"), Some(42));
    assert_eq!(number("+42"), Some(42));
    assert_eq!(number("4294967295"), Some(4294967295));
    assert_eq!(number("4294967296"), None);
    assert_eq!(number("99999999999999999999999999"), None);
    assert_eq!(number(""), None);
    assert_eq!(number("+"), None);
    assert_eq!(number("-1"), None);
    assert_eq!(number("++1"), None);
    assert_eq!(number("1_000"), None);
    assert_eq!(number("12 "), None);
    assert_eq!(number("١٢"), None);
}

#[test]
fn numerals_agree_with_the_standard_parser() {
    for s in ["0", "7", "+7", "-7", "", "+", "00012", "4294967295", "4294967296", "1a", " 1"] {
        assert_eq!(number(s), s.parse::<u32>().ok());
    }
}

#[test]
fn display_name_of_a_blueprint_name() {
    assert_eq!(get_display_name("veri:thm-main"), "thm-main");
    assert_eq!(get_display_name("veri:"), "");
    assert_eq!(get_display_name("veri:a#b()"), "a#b()");
}

#[test]
fn display_name_of_a_symbol() {
    assert_eq!(get_display_name("probe:curve/4.1/scalar/Scalar#from_bytes()"), "from_bytes");
    assert_eq!(get_display_name("a#b#c"), "c");
    assert_eq!(get_display_name("a#f()()"), "f");
    assert_eq!(get_display_name("a#()"), "");
    assert_eq!(get_display_name("a#"), "");
    assert_eq!(get_display_name("a#f(x)"), "f(x)");
    assert_eq!(get_display_name("a#f()x"), "f()x");
    assert_eq!(get_display_name("a#)("), ")(");
}

#[test]
fn display_name_of_a_plain_name() {
    assert_eq!(get_display_name("plain"), "plain");
    assert_eq!(get_display_name("call()"), "call()");
    assert_eq!(get_display_name(""), "");
    assert_eq!(get_display_name("veri"), "veri");
    assert_eq!(get_display_name("ünï#cödé()"), "cödé");
}

#[test]
fn structure_type_names() {
    assert_eq!(StructureType::DalekLite.name(), "dalek-lite");
    assert_eq!(StructureType::Blueprint.name(), "blueprint");
    assert_eq!(StructureType::DalekLite.name_field(), "code-name");
    assert_eq!(StructureType::Blueprint.name_field(), "veri-name");
}

#[test]
fn structure_form_names() {
    assert_eq!(StructureForm::Json.name(), "json");
    assert_eq!(StructureForm::Files.name(), "files");
}
