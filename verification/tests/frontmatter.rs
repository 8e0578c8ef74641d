use verilib_structure::frontmatter::body_after_frontmatter;
use verilib_structure::frontmatter::format_yaml_value;
use verilib_structure::frontmatter::parse_frontmatter;
use verilib_structure::frontmatter::write_frontmatter_file;
use verilib_structure::frontmatter::MetaValue;
use verilib_structure::name_map::NameMap;

fn text(s: &str) -> MetaValue {
    MetaValue::Text(s.to_string())
}

fn formatted(v: MetaValue) -> Option<String> {
    format_yaml_value(&v)
}

fn some(s: &str) -> Option<String> {
    Some(s.to_string())
}

#[test]
fn frontmatter_between_fences() {
    assert_eq!(parse_frontmatter("---\na: 1\nb: 2\n---\nbody\n"), some("a: 1\nb: 2"));
    assert_eq!(parse_frontmatter("---\r\na: 1\r\n---\r\nbody"), some("a: 1"));
    assert_eq!(parse_frontmatter("---\n---\n"), some(""));
    assert_eq!(parse_frontmatter("---\n"), some(""));
    assert_eq!(parse_frontmatter("---"), some(""));
}

#[test]
fn frontmatter_without_closing_fence() {
    assert_eq!(parse_frontmatter("---\na: 1\nb: 2\n"), some("a: 1\nb: 2"));
    assert_eq!(parse_frontmatter("---\na\n--- \nb\n"), some("a\n--- \nb"));
}

#[test]
fn no_frontmatter() {
    assert_eq!(parse_frontmatter(""), None);
    assert_eq!(parse_frontmatter("# title\n---\na: 1\n---\n"), None);
    assert_eq!(parse_frontmatter("\n---\na: 1\n---\n"), None);
    assert_eq!(parse_frontmatter("--- \na: 1\n---\n"), None);
    assert_eq!(parse_frontmatter("----\n"), None);
}

#[test]
fn body_after_two_fences() {
    assert_eq!(body_after_frontmatter("x\n---\ny\n---\nbody\n"), some("body\n"));
    assert_eq!(body_after_frontmatter("---\na: 1\n---\n\nbody\n"), None);
    assert_eq!(body_after_frontmatter("---\na: 1\n---\n\nbody\n---\nmore"), some("more"));
    assert_eq!(body_after_frontmatter("no fences"), None);
    assert_eq!(body_after_frontmatter("\n---\n\n---\n"), some(""));
    assert_eq!(body_after_frontmatter("\n---\n---\n"), None);
}

#[test]
fn plain_scalars() {
    assert_eq!(formatted(MetaValue::Null), some("null"));
    assert_eq!(formatted(MetaValue::Bool(true)), some("true"));
    assert_eq!(formatted(MetaValue::Bool(false)), some("false"));
    assert_eq!(formatted(MetaValue::Number("42".to_string())), some("42"));
    assert_eq!(formatted(MetaValue::Number("-1.5e3".to_string())), some("-1.5e3"));
    assert_eq!(formatted(text("plain text")), some("plain text"));
    assert_eq!(formatted(text("src/a.rs")), some("src/a.rs"));
}

#[test]
fn quoted_scalars() {
    assert_eq!(formatted(text("")), some("\"\""));
    assert_eq!(formatted(text("null")), some("\"null\""));
    assert_eq!(formatted(text("true")), some("\"true\""));
    assert_eq!(formatted(text("false")), some("\"false\""));
    assert_eq!(formatted(text("~")), some("\"~\""));
    assert_eq!(formatted(text("Null")), some("Null"));
    for first in ["{", "[", "'", "\"", "|", ">", "*", "&", "!"] {
        let s = format!("{}x", first);
        let escaped = s.replace('"', "\\\"");
        assert_eq!(formatted(text(&s)), Some(format!("\"{}\"", escaped)));
    }
    assert_eq!(formatted(text("x{")), some("x{"));
    assert_eq!(formatted(text("a: b")), some("\"a: b\""));
    assert_eq!(formatted(text("probe:x/y#f()")), some("\"probe:x/y#f()\""));
    assert_eq!(formatted(text("a #b")), some("\"a #b\""));
    assert_eq!(formatted(text("a\nb")), some("\"a\\nb\""));
}

#[test]
fn escapes_in_quoted_scalars() {
    assert_eq!(formatted(text("a\\b: \"c\"\n")), some("\"a\\\\b: \\\"c\\\"\\n\""));
    assert_eq!(formatted(text("a\\b")), some("a\\b"));
    assert_eq!(formatted(text("say \"hi\"")), some("say \"hi\""));
}

#[test]
fn lists() {
    assert_eq!(formatted(MetaValue::List(Vec::new())), some("[]"));
    assert_eq!(
        formatted(MetaValue::List(vec![text("a"), text("b: c"), MetaValue::Null, MetaValue::Bool(true)])),
        some("[a, \"b: c\", null, true]")
    );
    assert_eq!(
        formatted(MetaValue::List(vec![MetaValue::List(vec![text("x")]), text("y")])),
        some("[[x], y]")
    );
}

#[test]
fn values_that_cannot_be_written() {
    assert_eq!(formatted(MetaValue::Object), None);
    assert_eq!(formatted(MetaValue::List(vec![text("a"), MetaValue::Object, text("b")])), None);
    assert_eq!(
        formatted(MetaValue::List(vec![MetaValue::List(vec![MetaValue::Object])])),
        None
    );
}

#[test]
fn document_with_frontmatter() {
    let mut metadata = NameMap::new();
    metadata.insert("code-path".to_string(), text("src/a.rs"));
    metadata.insert("code-line".to_string(), MetaValue::Number("5".to_string()));
    metadata.insert("code-name".to_string(), MetaValue::Null);
    assert_eq!(
        write_frontmatter_file(&metadata, &some("The body.")),
        some("---\ncode-line: 5\ncode-name: null\ncode-path: src/a.rs\n---\n\nThe body.\n")
    );
    assert_eq!(
        write_frontmatter_file(&metadata, &None),
        some("---\ncode-line: 5\ncode-name: null\ncode-path: src/a.rs\n---\n\n")
    );
    assert_eq!(write_frontmatter_file(&NameMap::new(), &None), some("---\n---\n\n"));
    metadata.insert("nested".to_string(), MetaValue::Object);
    assert_eq!(write_frontmatter_file(&metadata, &None), None);
}

#[test]
fn written_frontmatter_is_read_back() {
    let mut metadata = NameMap::new();
    metadata.insert("a".to_string(), text("x"));
    metadata.insert("b".to_string(), text("y: z"));
    let document = write_frontmatter_file(&metadata, &some("body")).unwrap();
    assert_eq!(parse_frontmatter(&document), some("a: x\nb: \"y: z\""));
}
