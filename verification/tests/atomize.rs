use verilib_structure::atomize::filter_probe_atoms;
use verilib_structure::atomize::populate_structure_files_metadata;
use verilib_structure::atomize::run;
use verilib_structure::atoms::Atom;
use verilib_structure::enrich::enrich_structure_json;
use verilib_structure::enrich::generate_enriched_entry;
use verilib_structure::enrich::Enrichment;
use verilib_structure::line_index::LineIndex;
use verilib_structure::resolver::Outcome;
use verilib_structure::name_map::NameMap;
use verilib_structure::structure::Entry;
use verilib_structure::structure::LineRange;

fn atom(path: &str, start: u64, end: u64) -> Atom {
    Atom {
        code_path: Some(path.to_string()),
        lines_start: Some(start),
        lines_end: Some(end),
        ..Atom::empty()
    }
}

fn store(atoms: &[(&str, Atom)]) -> NameMap<Atom> {
    let mut m = NameMap::new();
    for (id, a) in atoms {
        m.insert(id.to_string(), a.clone());
    }
    m
}

fn full_atom() -> Atom {
    Atom {
        code_path: Some("src/scalar.rs".to_string()),
        lines_start: Some(12),
        lines_end: Some(40),
        code_module: Some("scalar".to_string()),
        dependencies: Some(vec!["dep#a()".to_string(), "dep#b()".to_string(), "dep#a()".to_string()]),
        display_name: Some("from_bytes".to_string()),
    }
}

#[test]
fn enriched_entry_carries_what_the_atom_knows() {
    let atoms = store(&[("m#f()", full_atom())]);
    let e = generate_enriched_entry("m#f()", &atoms).unwrap();
    assert_eq!(e.code_name, Some("m#f()".to_string()));
    assert_eq!(e.code_path, Some("src/scalar.rs".to_string()));
    assert_eq!(e.code_lines, Some(LineRange { start: 12, end: 40 }));
    assert_eq!(e.code_module, Some("scalar".to_string()));
    assert_eq!(
        e.dependencies,
        Some(vec!["dep#a()".to_string(), "dep#b()".to_string(), "dep#a()".to_string()])
    );
    assert_eq!(e.display_name, Some("from_bytes".to_string()));
    assert_eq!(e.code_line, None);
    assert_eq!(e.verified, None);
    assert_eq!(e.specified, None);
    assert_eq!(e.spec_text, None);
}

#[test]
fn enriched_entry_fills_missing_optional_fields_with_nothing() {
    let atoms = store(&[("f", atom("a.rs", 5, 9))]);
    let e = generate_enriched_entry("f", &atoms).unwrap();
    assert_eq!(e.code_module, Some(String::new()));
    assert_eq!(e.dependencies, Some(Vec::new()));
    assert_eq!(e.display_name, Some(String::new()));
}

#[test]
fn enriched_entry_keeps_line_numbers_as_they_are() {
    let atoms = store(&[("f", atom("a.rs", 0x1_0000_0005, 0x1_0000_0009))]);
    let e = generate_enriched_entry("f", &atoms).unwrap();
    assert_eq!(e.code_lines, Some(LineRange { start: 0x1_0000_0005, end: 0x1_0000_0009 }));
}

#[test]
fn enriched_entry_needs_a_complete_atom() {
    let mut no_path = atom("a.rs", 5, 9);
    no_path.code_path = None;
    let mut no_start = atom("a.rs", 5, 9);
    no_start.lines_start = None;
    let mut no_end = atom("a.rs", 5, 9);
    no_end.lines_end = None;
    let atoms = store(&[("p", no_path), ("s", no_start), ("e", no_end)]);
    assert_eq!(generate_enriched_entry("p", &atoms), None);
    assert_eq!(generate_enriched_entry("s", &atoms), None);
    assert_eq!(generate_enriched_entry("e", &atoms), None);
    assert_eq!(generate_enriched_entry("unknown", &atoms), None);
}

#[test]
fn enrichment_leaves_what_it_cannot_enrich() {
    let atoms = store(&[("f", atom("a.rs", 5, 9))]);
    let mut structure = NameMap::new();
    let named = Entry { code_name: Some("f".to_string()), verified: Some(true), ..Entry::empty() };
    let stale = Entry {
        code_name: Some("gone".to_string()),
        display_name: Some("kept".to_string()),
        ..Entry::empty()
    };
    let bare = Entry { code_path: Some("a.rs".to_string()), ..Entry::empty() };
    structure.insert("a".to_string(), named);
    structure.insert("b".to_string(), stale.clone());
    structure.insert("c".to_string(), bare.clone());
    let report = enrich_structure_json(&structure, &atoms);
    assert_eq!(report.enriched, 1);
    assert_eq!(report.skipped, 2);
    assert_eq!(
        report.details,
        vec![Enrichment::Enriched, Enrichment::MissingAtom, Enrichment::MissingName]
    );
    assert_eq!(report.structure.get("a"), generate_enriched_entry("f", &atoms).as_ref());
    assert_eq!(report.structure.get("b"), Some(&stale));
    assert_eq!(report.structure.get("c"), Some(&bare));
}

#[test]
fn enrichment_twice_is_enrichment_once() {
    let atoms = store(&[("f", full_atom())]);
    let mut structure = NameMap::new();
    structure.insert("a".to_string(), Entry { code_name: Some("f".to_string()), ..Entry::empty() });
    let once = enrich_structure_json(&structure, &atoms);
    let twice = enrich_structure_json(&once.structure, &atoms);
    assert_eq!(once.structure, twice.structure);
}

#[test]
fn end_to_end_scenario() {
    let atoms = store(&[("f1", atom("a.rs", 5, 9))]);
    let mut structure = NameMap::new();
    structure.insert(
        "doc/f1.md".to_string(),
        Entry { code_path: Some("a.rs".to_string()), code_line: Some(5), ..Entry::empty() },
    );
    let report = run(&atoms, &structure);
    let record = report.enrich.structure.get("doc/f1.md").unwrap();
    assert_eq!(record.code_name, Some("f1".to_string()));
    assert_eq!(record.code_lines, Some(LineRange { start: 5, end: 9 }));
    assert_eq!(record.code_path, Some("a.rs".to_string()));
    assert_eq!(report.sync.resolved, 1);
    assert_eq!(report.enrich.enriched, 1);
    assert_eq!(report.enrich.skipped, 0);
}

#[test]
fn atomize_keeps_entries_that_resolve_to_nothing() {
    let atoms = store(&[("f1", atom("a.rs", 5, 9))]);
    let mut structure = NameMap::new();
    let lost = Entry {
        code_path: Some("a.rs".to_string()),
        code_line: Some(77),
        display_name: Some("old".to_string()),
        ..Entry::empty()
    };
    structure.insert("doc/lost.md".to_string(), lost.clone());
    let report = run(&atoms, &structure);
    assert_eq!(report.enrich.structure.get("doc/lost.md"), Some(&lost));
    assert_eq!(report.sync.no_match, 1);
    assert_eq!(report.enrich.enriched, 0);
    assert_eq!(report.enrich.skipped, 1);
}

#[test]
fn filter_keeps_the_atoms_of_the_project() {
    let atoms = store(&[
        ("probe:curve/1.0/a#f()", atom("a.rs", 1, 2)),
        ("probe:curve", atom("b.rs", 1, 2)),
        ("probe:curvex/1.0/a#f()", atom("c.rs", 1, 2)),
        ("probe:other/1.0/a#f()", atom("d.rs", 1, 2)),
        ("scip:curve/1.0/a#f()", atom("e.rs", 1, 2)),
        ("probe:curve/", atom("f.rs", 1, 2)),
    ]);
    let kept = filter_probe_atoms(&atoms, "curve");
    assert_eq!(kept.len(), 2);
    assert_eq!(kept.get("probe:curve/1.0/a#f()"), atoms.get("probe:curve/1.0/a#f()"));
    assert_eq!(kept.get("probe:curve/"), atoms.get("probe:curve/"));
    assert_eq!(filter_probe_atoms(&atoms, "none").len(), 0);
}

#[test]
fn metadata_of_the_files_of_a_structure() {
    let atoms = store(&[("f1", atom("a.rs", 5, 9)), ("f2", full_atom())]);
    let index = LineIndex::build(&atoms);
    let entries = vec![
        Entry { code_path: Some("a.rs".to_string()), code_line: Some(5), ..Entry::empty() },
        Entry { code_name: Some("f2".to_string()), ..Entry::empty() },
        Entry { code_name: Some("gone".to_string()), ..Entry::empty() },
        Entry { code_path: Some("a.rs".to_string()), code_line: Some(50), ..Entry::empty() },
    ];
    let report = populate_structure_files_metadata(&atoms, &index, &entries);
    assert_eq!((report.created, report.skipped), (2, 2));
    assert_eq!(report.records[0], generate_enriched_entry("f1", &atoms));
    assert_eq!(report.records[1], generate_enriched_entry("f2", &atoms));
    assert_eq!(report.records[2], None);
    assert_eq!(report.records[3], None);
    let outcomes: Vec<Outcome> = report.details.iter().map(|d| d.outcome).collect();
    assert_eq!(
        outcomes,
        vec![Outcome::ByPosition, Outcome::ById, Outcome::MissingInfo, Outcome::NoMatch]
    );
    let none = populate_structure_files_metadata(&atoms, &index, &Vec::new());
    assert_eq!((none.created, none.skipped), (0, 0));
}
