use verilib_structure::atoms::Atom;
use verilib_structure::line_index::LineIndex;
use verilib_structure::name_map::NameMap;
use verilib_structure::resolver::sync_structure_json_with_atoms;
use verilib_structure::resolver::update_entry_from_atoms;
use verilib_structure::resolver::Bucket;
use verilib_structure::resolver::Outcome;
use verilib_structure::resolver::Warning;
use verilib_structure::structure::Entry;

fn atom(path: &str, start: u64, end: u64) -> Atom {
    Atom {
        code_path: Some(path.to_string()),
        lines_start: Some(start),
        lines_end: Some(end),
        ..Atom::empty()
    }
}

fn store(atoms: &[(&str, Atom)]) -> NameMap<Atom> {
    let mut m = NameMap::new();
    for (id, a) in atoms {
        m.insert(id.to_string(), a.clone());
    }
    m
}

fn by_name(name: &str) -> Entry {
    Entry { code_name: Some(name.to_string()), ..Entry::empty() }
}

fn by_position(path: &str, line: u64) -> Entry {
    Entry { code_path: Some(path.to_string()), code_line: Some(line), ..Entry::empty() }
}

#[test]
fn known_symbol_resolves_by_id() {
    let atoms = store(&[("X", atom("a.rs", 5, 9))]);
    let index = LineIndex::build(&atoms);
    let r = update_entry_from_atoms(&by_name("X"), &index, &atoms);
    assert_eq!(r.outcome, Outcome::ById);
    assert_eq!(r.symbol_id, Some("X".to_string()));
    assert_eq!(r.entry.code_name, Some("X".to_string()));
    assert_eq!(r.entry.code_path, Some("a.rs".to_string()));
    assert_eq!(r.entry.code_line, Some(5));
    assert_eq!(r.warnings, Vec::new());
}

#[test]
fn known_symbol_wins_over_a_stale_position() {
    let atoms = store(&[("X", atom("a.rs", 5, 9)), ("Y", atom("old.rs", 40, 50))]);
    let index = LineIndex::build(&atoms);
    let mut entry = by_position("old.rs", 40);
    entry.code_name = Some("X".to_string());
    let r = update_entry_from_atoms(&entry, &index, &atoms);
    assert_eq!(r.outcome, Outcome::ById);
    assert_eq!(r.symbol_id, Some("X".to_string()));
    assert_eq!(r.entry.code_path, Some("a.rs".to_string()));
    assert_eq!(r.entry.code_line, Some(5));
    assert_eq!(r.warnings, vec![Warning::PositionMismatch]);
}

#[test]
fn mismatch_is_reported_once_when_only_the_line_differs() {
    let atoms = store(&[("X", atom("a.rs", 5, 9))]);
    let index = LineIndex::build(&atoms);
    let mut entry = by_position("a.rs", 6);
    entry.code_name = Some("X".to_string());
    let r = update_entry_from_atoms(&entry, &index, &atoms);
    assert_eq!(r.warnings, vec![Warning::PositionMismatch]);
    assert_eq!(r.entry.code_line, Some(5));
}

#[test]
fn matching_position_gives_no_warning() {
    let atoms = store(&[("X", atom("a.rs", 5, 9))]);
    let index = LineIndex::build(&atoms);
    let mut entry = by_position("a.rs", 5);
    entry.code_name = Some("X".to_string());
    let r = update_entry_from_atoms(&entry, &index, &atoms);
    assert_eq!(r.outcome, Outcome::ById);
    assert_eq!(r.warnings, Vec::new());
    assert_eq!(r.entry, entry);
}

#[test]
fn unknown_symbol_falls_back_to_the_position() {
    let atoms = store(&[("X", atom("a.rs", 5, 9))]);
    let index = LineIndex::build(&atoms);
    let mut entry = by_position("a.rs", 5);
    entry.code_name = Some("gone".to_string());
    let r = update_entry_from_atoms(&entry, &index, &atoms);
    assert_eq!(r.outcome, Outcome::ByPosition);
    assert_eq!(r.symbol_id, Some("X".to_string()));
    assert_eq!(r.entry.code_name, Some("X".to_string()));
    assert_eq!(r.warnings, vec![Warning::UnknownSymbol]);
}

#[test]
fn unknown_symbol_without_position_lacks_information() {
    let atoms = store(&[("X", atom("a.rs", 5, 9))]);
    let index = LineIndex::build(&atoms);
    let entry = by_name("gone");
    let r = update_entry_from_atoms(&entry, &index, &atoms);
    assert_eq!(r.outcome, Outcome::MissingInfo);
    assert_eq!(r.symbol_id, None);
    assert_eq!(r.entry, entry);
    assert_eq!(r.warnings, vec![Warning::UnknownSymbol, Warning::MissingPosition]);
}

#[test]
fn position_resolves_through_the_index() {
    let atoms = store(&[("f1", atom("a.rs", 5, 9))]);
    let index = LineIndex::build(&atoms);
    let r = update_entry_from_atoms(&by_position("a.rs", 5), &index, &atoms);
    assert_eq!(r.outcome, Outcome::ByPosition);
    assert_eq!(r.entry.code_name, Some("f1".to_string()));
    assert_eq!(r.entry.code_path, Some("a.rs".to_string()));
    assert_eq!(r.entry.code_line, Some(5));
    assert_eq!(r.warnings, Vec::new());
}

#[test]
fn ambiguous_position_resolves_and_is_flagged() {
    let atoms = store(&[("B", atom("a.rs", 10, 15)), ("A", atom("a.rs", 10, 20))]);
    let index = LineIndex::build(&atoms);
    let r = update_entry_from_atoms(&by_position("a.rs", 10), &index, &atoms);
    assert_eq!(r.outcome, Outcome::ByPosition);
    assert_eq!(r.symbol_id, Some("A".to_string()));
    assert_eq!(r.warnings, vec![Warning::AmbiguousMatch]);
}

#[test]
fn entry_without_line_or_without_file_lacks_information() {
    let atoms = store(&[("f1", atom("a.rs", 5, 9))]);
    let index = LineIndex::build(&atoms);
    let no_line = Entry { code_path: Some("a.rs".to_string()), ..Entry::empty() };
    let r = update_entry_from_atoms(&no_line, &index, &atoms);
    assert_eq!(r.outcome, Outcome::MissingInfo);
    assert_eq!(r.warnings, vec![Warning::MissingPosition]);
    assert_eq!(r.entry, no_line);
    let no_file = Entry { code_line: Some(5), ..Entry::empty() };
    let r = update_entry_from_atoms(&no_file, &index, &atoms);
    assert_eq!(r.outcome, Outcome::MissingInfo);
    let nothing = update_entry_from_atoms(&Entry::empty(), &index, &atoms);
    assert_eq!(nothing.outcome, Outcome::MissingInfo);
}

#[test]
fn unknown_file_and_empty_line_are_told_apart() {
    let atoms = store(&[("f1", atom("a.rs", 5, 9))]);
    let index = LineIndex::build(&atoms);
    let elsewhere = by_position("b.rs", 5);
    let r = update_entry_from_atoms(&elsewhere, &index, &atoms);
    assert_eq!(r.outcome, Outcome::NoCoverage);
    assert_eq!(r.entry, elsewhere);
    assert_eq!(r.symbol_id, None);
    let off = by_position("a.rs", 50);
    let r = update_entry_from_atoms(&off, &index, &atoms);
    assert_eq!(r.outcome, Outcome::NoMatch);
    assert_eq!(r.entry, off);
}

#[test]
fn symbol_without_position_leaves_the_recorded_one() {
    let atoms = store(&[("X", Atom::empty())]);
    let index = LineIndex::build(&atoms);
    let mut entry = by_position("a.rs", 5);
    entry.code_name = Some("X".to_string());
    let r = update_entry_from_atoms(&entry, &index, &atoms);
    assert_eq!(r.outcome, Outcome::ById);
    assert_eq!(r.entry, entry);
    assert_eq!(r.warnings, vec![Warning::PositionMismatch]);
}

#[test]
fn resolution_keeps_the_other_fields() {
    let atoms = store(&[("f1", atom("a.rs", 5, 9))]);
    let index = LineIndex::build(&atoms);
    let mut entry = by_position("a.rs", 5);
    entry.verified = Some(true);
    entry.display_name = Some("shown".to_string());
    let r = update_entry_from_atoms(&entry, &index, &atoms);
    assert_eq!(r.entry.verified, Some(true));
    assert_eq!(r.entry.display_name, Some("shown".to_string()));
}

#[test]
fn outcomes_fall_into_three_buckets() {
    assert_eq!(Outcome::ById.bucket(), Bucket::Resolved);
    assert_eq!(Outcome::ByPosition.bucket(), Bucket::Resolved);
    assert_eq!(Outcome::MissingInfo.bucket(), Bucket::MissingInfo);
    assert_eq!(Outcome::NoCoverage.bucket(), Bucket::NoMatch);
    assert_eq!(Outcome::NoMatch.bucket(), Bucket::NoMatch);
}

#[test]
fn sync_resolves_a_batch_and_counts_the_buckets() {
    let atoms = store(&[("f1", atom("a.rs", 5, 9)), ("f2", atom("a.rs", 20, 30))]);
    let index = LineIndex::build(&atoms);
    let mut structure = NameMap::new();
    structure.insert("doc/f1.md".to_string(), by_position("a.rs", 5));
    structure.insert("doc/f2.md".to_string(), by_name("f2"));
    structure.insert("doc/lost.md".to_string(), by_position("a.rs", 100));
    structure.insert("doc/other.md".to_string(), by_position("z.rs", 1));
    structure.insert("doc/bare.md".to_string(), Entry::empty());
    let report = sync_structure_json_with_atoms(&structure, &index, &atoms);
    assert_eq!(report.resolved, 2);
    assert_eq!(report.missing_info, 1);
    assert_eq!(report.no_match, 2);
    assert_eq!(report.structure.len(), 5);
    assert_eq!(report.details.len(), 5);
    assert_eq!(report.structure.get("doc/f1.md").unwrap().code_name, Some("f1".to_string()));
    assert_eq!(report.structure.get("doc/f2.md").unwrap().code_path, Some("a.rs".to_string()));
    assert_eq!(report.structure.get("doc/f2.md").unwrap().code_line, Some(20));
    assert_eq!(report.structure.get("doc/lost.md"), structure.get("doc/lost.md"));
    assert_eq!(report.structure.get("doc/other.md"), structure.get("doc/other.md"));
    assert_eq!(report.structure.get("doc/bare.md"), structure.get("doc/bare.md"));
    let outcomes: Vec<Outcome> = report.details.iter().map(|d| d.outcome).collect();
    assert_eq!(
        outcomes,
        vec![
            Outcome::MissingInfo,
            Outcome::ByPosition,
            Outcome::ById,
            Outcome::NoMatch,
            Outcome::NoCoverage
        ]
    );
}

#[test]
fn sync_of_an_empty_structure() {
    let atoms = store(&[("f1", atom("a.rs", 5, 9))]);
    let index = LineIndex::build(&atoms);
    let report = sync_structure_json_with_atoms(&NameMap::new(), &index, &atoms);
    assert_eq!(report.resolved + report.missing_info + report.no_match, 0);
    assert_eq!(report.structure.len(), 0);
}
