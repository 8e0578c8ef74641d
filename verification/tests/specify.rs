use verilib_structure::name_map::NameMap;
use verilib_structure::name_set::NameSet;
use verilib_structure::specify::collect_certifications;
use verilib_structure::specify::find_uncertified_functions;
use verilib_structure::specify::get_structure_names;
use verilib_structure::specify::incorporate_spec_text;
use verilib_structure::specify::update_stubs_specification_status;
use verilib_structure::specify::Candidate;
use verilib_structure::specify::SpecInfo;
use verilib_structure::structure::Entry;
use verilib_structure::structure::SpecText;

fn names(list: &[&str]) -> Vec<String> {
    list.iter().map(|s| s.to_string()).collect()
}

fn named(name: &str) -> Entry {
    Entry { code_name: Some(name.to_string()), ..Entry::empty() }
}

fn spec_text(line: u64) -> SpecText {
    SpecText { lines_start: Some(line), body: format!("{{\"lines-start\":{}}}", line) }
}

fn with_text(name: &str, line: u64) -> Entry {
    Entry { spec_text: Some(spec_text(line)), ..named(name) }
}

fn stubs(entries: &[(&str, Entry)]) -> NameMap<Entry> {
    let mut m = NameMap::new();
    for (k, e) in entries {
        m.insert(k.to_string(), e.clone());
    }
    m
}

#[test]
fn spec_text_comes_from_specified_symbols_only() {
    let mut specs = NameMap::new();
    specs.insert("f".to_string(), SpecInfo { specified: Some(true), spec_text: Some(spec_text(3)) });
    specs.insert("g".to_string(), SpecInfo { specified: Some(false), spec_text: Some(spec_text(4)) });
    specs.insert("h".to_string(), SpecInfo { specified: None, spec_text: Some(spec_text(5)) });
    specs.insert("i".to_string(), SpecInfo { specified: Some(true), spec_text: None });
    let mut data = stubs(&[
        ("a", named("f")),
        ("b", named("g")),
        ("c", named("h")),
        ("d", named("i")),
        ("e", named("unknown")),
        ("x", Entry::empty()),
        ("z", with_text("g", 9)),
    ]);
    let before = data.clone();
    assert_eq!(incorporate_spec_text(&mut data, &specs), 1);
    assert_eq!(data.get("a"), Some(&with_text("f", 3)));
    for key in ["b", "c", "d", "e", "x", "z"] {
        assert_eq!(data.get(key), before.get(key));
    }
}

#[test]
fn spec_text_for_the_empty_name() {
    let mut specs = NameMap::new();
    specs.insert("".to_string(), SpecInfo { specified: Some(true), spec_text: Some(spec_text(1)) });
    let mut data = stubs(&[("a", Entry::empty()), ("b", named("f"))]);
    assert_eq!(incorporate_spec_text(&mut data, &specs), 1);
    assert_eq!(data.get("a").unwrap().spec_text, Some(spec_text(1)));
    assert_eq!(data.get("b").unwrap().spec_text, None);
}

#[test]
fn uncertified_are_those_with_text_and_without_certificate() {
    let data = stubs(&[
        ("d", with_text("certified", 1)),
        ("c", with_text("waiting", 2)),
        ("b", named("no_text")),
        ("a", with_text("also_waiting", 3)),
        ("e", Entry { spec_text: Some(spec_text(4)), ..Entry::empty() }),
    ]);
    let certs = NameSet::from_names(&names(&["certified", "other"]));
    let found = find_uncertified_functions(&data, &certs);
    let keys: Vec<&str> = found.iter().map(|c| c.key.as_str()).collect();
    assert_eq!(keys, vec!["a", "c", "e"]);
    assert_eq!(found[0].entry, with_text("also_waiting", 3));
    let with_empty = NameSet::from_names(&names(&[""]));
    let found = find_uncertified_functions(&data, &with_empty);
    let keys: Vec<&str> = found.iter().map(|c| c.key.as_str()).collect();
    assert_eq!(keys, vec!["a", "c", "d"]);
}

#[test]
fn certifying_the_chosen_candidates() {
    let candidates = vec![
        Candidate { key: "a".to_string(), entry: with_text("m#f()", 1) },
        Candidate { key: "b".to_string(), entry: with_text("m#g()", 2) },
        Candidate { key: "c".to_string(), entry: Entry { spec_text: Some(spec_text(3)), ..Entry::empty() } },
    ];
    let r = collect_certifications(&candidates, &vec![1, 0, 1, 7]);
    assert_eq!(r.newly_certified.to_names(), names(&["m#f()", "m#g()"]));
    assert_eq!(r.cert_files, names(&["m%23g%28%29.json", "m%23f%28%29.json", "m%23g%28%29.json"]));
    let r = collect_certifications(&candidates, &vec![2]);
    assert_eq!(r.newly_certified.to_names(), names(&[""]));
    assert_eq!(r.cert_files, names(&[".json"]));
    let r = collect_certifications(&candidates, &Vec::new());
    assert_eq!(r.newly_certified.len(), 0);
    assert_eq!(r.cert_files, Vec::<String>::new());
}

#[test]
fn specified_status_follows_the_certificates() {
    let mut data = stubs(&[
        ("a", named("f")),
        ("b", Entry { specified: Some(true), ..named("g") }),
        ("c", Entry { specified: Some(true), ..Entry::empty() }),
    ]);
    update_stubs_specification_status(&mut data, &NameSet::from_names(&names(&["f", ""])));
    assert_eq!(data.get("a").unwrap().specified, Some(true));
    assert_eq!(data.get("b").unwrap().specified, Some(false));
    assert_eq!(data.get("c").unwrap().specified, Some(false));
    assert_eq!(data.get("a").unwrap().code_name, Some("f".to_string()));
}

#[test]
fn names_of_a_structure() {
    let data = stubs(&[("a", named("f")), ("b", Entry::empty()), ("c", named("g")), ("d", named("f"))]);
    assert_eq!(get_structure_names(&data).to_names(), names(&["f", "g"]));
    assert_eq!(get_structure_names(&NameMap::new()).len(), 0);
}
