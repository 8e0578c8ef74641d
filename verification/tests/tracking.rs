use verilib_structure::name_map::NameMap;
use verilib_structure::structure::Entry;
use verilib_structure::tracking::read_tracked_csv;
use verilib_structure::tracking::tracked_from_row;
use verilib_structure::tracking::tracked_from_rows;
use verilib_structure::tracking::tracked_to_structure;
use verilib_structure::tracking::tweak_disambiguate;
use verilib_structure::tracking::TrackedFunction;

fn row(fields: &[&str]) -> Vec<String> {
    fields.iter().map(|s| s.to_string()).collect()
}

fn function(name: &str, module: &str, link: &str) -> TrackedFunction {
    tracked_from_row(&row(&[name, module, link, "yes", "yes"])).1
}

#[test]
fn row_gives_a_function() {
    let (key, f) = tracked_from_row(&row(&[
        "Scalar::invert",
        "scalar",
        "https://github.com/o/r/blob/main/src/scalar.rs#L77",
        "yes",
        "no",
    ]));
    assert_eq!(key, "Scalar::invert::scalar");
    assert_eq!(
        f,
        TrackedFunction {
            has_spec: true,
            has_proof: false,
            is_external_body: false,
            line_number: 77,
            link: "https://github.com/o/r/blob/main/src/scalar.rs#L77".to_string(),
            function: "Scalar::invert".to_string(),
            module: "scalar".to_string(),
            qualified_name: "Scalar::invert".to_string(),
        }
    );
}

#[test]
fn row_marks() {
    let ext = tracked_from_row(&row(&["f", "m", "l", "ext", "yes"])).1;
    assert!(ext.has_spec && ext.is_external_body && ext.has_proof);
    let none = tracked_from_row(&row(&["f", "m", "l", "", ""])).1;
    assert!(!none.has_spec && !none.is_external_body && !none.has_proof);
    let odd = tracked_from_row(&row(&["f", "m", "l", "Yes", "YES"])).1;
    assert!(!odd.has_spec && !odd.has_proof);
}

#[test]
fn row_line_number() {
    assert_eq!(tracked_from_row(&row(&["f", "m", "x#L12"])).1.line_number, 12);
    assert_eq!(tracked_from_row(&row(&["f", "m", "x#L1#L2"])).1.line_number, 2);
    assert_eq!(tracked_from_row(&row(&["f", "m", "x#Lfoo"])).1.line_number, 0);
    assert_eq!(tracked_from_row(&row(&["f", "m", "x"])).1.line_number, 0);
    assert_eq!(tracked_from_row(&row(&["f", "m", "x#L99999999999"])).1.line_number, 0);
}

#[test]
fn short_row_has_empty_fields() {
    let (key, f) = tracked_from_row(&row(&["f"]));
    assert_eq!(key, "f::");
    assert_eq!(f.module, "");
    assert_eq!(f.link, "");
    assert!(!f.has_spec);
    let (key, _) = tracked_from_row(&Vec::new());
    assert_eq!(key, "::");
}

#[test]
fn later_row_with_the_same_key_counts() {
    let table = tracked_from_rows(&vec![
        row(&["f", "m", "first", "yes", ""]),
        row(&["g", "m", "other", "", ""]),
        row(&["f", "m", "second", "", ""]),
    ]);
    assert_eq!(table.len(), 2);
    assert_eq!(table.get("f::m").unwrap().link, "second");
    assert!(!table.get("f::m").unwrap().has_spec);
}

#[test]
fn csv_document_with_header() {
    let table = read_tracked_csv(
        "function,module,link,has_spec,has_proof\nf,m,x/blob/main/a.rs#L3,yes,yes\n\"g,h\",\"m\"\"q\",,ext,\n",
    )
    .unwrap();
    assert_eq!(table.len(), 2);
    assert_eq!(table.get("f::m").unwrap().line_number, 3);
    let quoted = table.get("g,h::m\"q").unwrap();
    assert_eq!(quoted.function, "g,h");
    assert_eq!(quoted.module, "m\"q");
    assert!(quoted.is_external_body);
}

#[test]
fn csv_document_without_rows() {
    assert_eq!(read_tracked_csv("function,module\n").unwrap().len(), 0);
    assert_eq!(read_tracked_csv("").unwrap().len(), 0);
}

#[test]
fn malformed_csv_document() {
    assert_eq!(read_tracked_csv("a,b\n1,2,3\n"), None);
}

#[test]
fn disambiguation_numbers_shared_names() {
    let mut table = NameMap::new();
    table.insert("new::a".to_string(), function("new", "a", "l"));
    table.insert("new::b".to_string(), function("new", "b", "l"));
    table.insert("only::a".to_string(), function("only", "a", "l"));
    table.insert("new::c".to_string(), function("new", "c", "l"));
    let r = tweak_disambiguate(&table);
    assert_eq!(r.len(), 4);
    assert_eq!(r.get("new::a").unwrap().qualified_name, "new_0");
    assert_eq!(r.get("new::b").unwrap().qualified_name, "new_1");
    assert_eq!(r.get("new::c").unwrap().qualified_name, "new_2");
    assert_eq!(r.get("only::a").unwrap().qualified_name, "only");
    assert_eq!(r.get("new::b").unwrap().function, "new");
    assert_eq!(r.get("new::b").unwrap().module, "b");
}

#[test]
fn disambiguation_leaves_distinct_names() {
    let mut table = NameMap::new();
    table.insert("f::a".to_string(), function("f", "a", "l"));
    table.insert("g::a".to_string(), function("g", "a", "l"));
    assert_eq!(tweak_disambiguate(&table), table);
    let none: NameMap<TrackedFunction> = NameMap::new();
    assert_eq!(tweak_disambiguate(&none), none);
}

#[test]
fn disambiguation_with_many_functions_of_one_name() {
    let mut table = NameMap::new();
    for i in 0..12 {
        let module = format!("m{:02}", i);
        table.insert(format!("f::{}", module), function("f", &module, "l"));
    }
    let r = tweak_disambiguate(&table);
    assert_eq!(r.get("f::m00").unwrap().qualified_name, "f_0");
    assert_eq!(r.get("f::m09").unwrap().qualified_name, "f_9");
    assert_eq!(r.get("f::m10").unwrap().qualified_name, "f_10");
    assert_eq!(r.get("f::m11").unwrap().qualified_name, "f_11");
}

#[test]
fn structure_of_a_table() {
    let mut table = NameMap::new();
    table.insert(
        "Scalar::invert::scalar".to_string(),
        function("Scalar::invert", "scalar", "https://g/o/r/blob/main/src/scalar.rs#L77"),
    );
    table.insert("nolink::m".to_string(), function("nolink", "m", ""));
    table.insert("nopath::m".to_string(), function("nopath", "m", "x/blob/main/#L4"));
    table.insert("noline::m".to_string(), function("noline", "m", "x/blob/main/src/a.rs"));
    table.insert("badline::m".to_string(), function("badline", "m", "x/blob/main/src/a.rs#Lx"));
    let structure = tracked_to_structure(&table);
    assert_eq!(structure.len(), 2);
    assert_eq!(
        structure.get("src/scalar.rs/Scalar.invert.md"),
        Some(&Entry {
            code_path: Some("src/scalar.rs".to_string()),
            code_line: Some(77),
            ..Entry::empty()
        })
    );
    assert_eq!(
        structure.get("src/a.rs/noline.md"),
        Some(&Entry { code_path: Some("src/a.rs".to_string()), code_line: Some(0), ..Entry::empty() })
    );
}
