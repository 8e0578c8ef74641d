use verilib_structure::name_set::NameSet;
use verilib_structure::reconcile::plan;
use verilib_structure::reconcile::record;
use verilib_structure::reconcile::settle;
use verilib_structure::reconcile::Action;
use verilib_structure::reconcile::Change;
use verilib_structure::reconcile::Summary;
use verilib_structure::verify::run;

fn names(list: &[&str]) -> Vec<String> {
    list.iter().map(|s| s.to_string()).collect()
}

fn set(list: &[&str]) -> NameSet {
    NameSet::from_names(&names(list))
}

fn change(symbol: &str, file: &str, action: Action) -> Change {
    Change { symbol_id: symbol.to_string(), cert_file: file.to_string(), action }
}

#[test]
fn first_run_creates_and_second_run_does_nothing() {
    let target = set(&["B", "A"]);
    let universe = set(&["A", "B"]);
    let mut existing = NameSet::new();
    let first = plan(&target, &existing, &universe);
    assert_eq!(first.to_create.to_names(), names(&["A", "B"]));
    assert_eq!(first.to_delete.len(), 0);
    assert!(!first.is_empty());
    let changes = first.changes();
    assert_eq!(
        changes,
        vec![change("A", "A.json", Action::Created), change("B", "B.json", Action::Created)]
    );
    let summary = settle(&mut existing, &changes, &vec![true, true]);
    assert_eq!(
        summary,
        Summary { planned: 2, created: 2, deleted: 0, failed: 0, before: 0, after: 2 }
    );
    assert_eq!(existing.to_names(), names(&["A", "B"]));
    let second = plan(&target, &existing, &universe);
    assert!(second.is_empty());
    assert_eq!(second.changes(), Vec::new());
}

#[test]
fn plan_does_no_more_than_needed() {
    let target = set(&["A", "C"]);
    let existing = set(&["A", "B"]);
    let universe = set(&["A", "B", "C"]);
    let p = plan(&target, &existing, &universe);
    assert_eq!(p.to_create.to_names(), names(&["C"]));
    assert_eq!(p.to_delete.to_names(), names(&["B"]));
}

#[test]
fn plan_leaves_certificates_outside_the_universe() {
    let target = set(&["A"]);
    let existing = set(&["A", "old", "stale"]);
    let universe = set(&["A", "stale"]);
    let p = plan(&target, &existing, &universe);
    assert_eq!(p.to_create.len(), 0);
    assert_eq!(p.to_delete.to_names(), names(&["stale"]));
}

#[test]
fn changes_come_sorted_with_creations_first() {
    let target = set(&["z#f()", "m/a", "b"]);
    let existing = set(&["y", "c", "b"]);
    let universe = set(&["y", "c", "b", "m/a", "z#f()"]);
    let changes = plan(&target, &existing, &universe).changes();
    assert_eq!(
        changes,
        vec![
            change("m/a", "m%2Fa.json", Action::Created),
            change("z#f()", "z%23f%28%29.json", Action::Created),
            change("c", "c.json", Action::Deleted),
            change("y", "y.json", Action::Deleted),
        ]
    );
}

#[test]
fn record_applies_one_change() {
    let mut certs = set(&["a"]);
    record(&mut certs, &change("b", "b.json", Action::Created), true);
    assert_eq!(certs.to_names(), names(&["a", "b"]));
    record(&mut certs, &change("a", "a.json", Action::Deleted), true);
    assert_eq!(certs.to_names(), names(&["b"]));
    record(&mut certs, &change("c", "c.json", Action::Created), false);
    record(&mut certs, &change("b", "b.json", Action::Deleted), false);
    assert_eq!(certs.to_names(), names(&["b"]));
}

#[test]
fn settle_tells_planned_from_applied() {
    let target = set(&["A", "C", "D"]);
    let mut existing = set(&["A", "B", "E"]);
    let universe = set(&["A", "B", "C", "D", "E"]);
    let changes = plan(&target, &existing, &universe).changes();
    assert_eq!(changes.len(), 4);
    let summary = settle(&mut existing, &changes, &vec![true, false, false, true]);
    assert_eq!(
        summary,
        Summary { planned: 4, created: 1, deleted: 1, failed: 2, before: 3, after: 3 }
    );
    assert_eq!(existing.to_names(), names(&["A", "B", "C"]));
    let again = plan(&target, &existing, &universe);
    assert_eq!(again.to_create.to_names(), names(&["D"]));
    assert_eq!(again.to_delete.to_names(), names(&["B"]));
}

#[test]
fn settle_of_nothing() {
    let mut existing = set(&["A"]);
    let summary = settle(&mut existing, &Vec::new(), &Vec::new());
    assert_eq!(
        summary,
        Summary { planned: 0, created: 0, deleted: 0, failed: 0, before: 1, after: 1 }
    );
}

#[test]
fn verification_certifies_verified_tracked_symbols() {
    let verified = set(&["a", "b", "untracked_ok"]);
    let failed = set(&["c", "d", "untracked_bad"]);
    let followed = set(&["a", "b", "c", "d", "e"]);
    let existing = set(&["a", "c", "e", "untracked_bad", "foreign"]);
    let r = run(&verified, &failed, &followed, &existing);
    assert_eq!(r.verified_in_structure.to_names(), names(&["a", "b"]));
    assert_eq!(r.failed_in_structure.to_names(), names(&["c", "d"]));
    assert_eq!(r.plan.to_create.to_names(), names(&["b"]));
    assert_eq!(r.plan.to_delete.to_names(), names(&["c"]));
}

#[test]
fn verification_keeps_the_certificate_of_a_symbol_reported_both_ways() {
    let verified = set(&["a"]);
    let failed = set(&["a"]);
    let followed = set(&["a"]);
    let existing = set(&["a"]);
    let r = run(&verified, &failed, &followed, &existing);
    assert!(r.plan.is_empty());
}
