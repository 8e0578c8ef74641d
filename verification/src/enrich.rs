//! Stub enrichment: the canonical record of a resolved symbol.

use crate::atoms::Atom;
use crate::atoms::AtomView;
use crate::atoms::copy_text;
use crate::atoms::store_view;
use crate::name_map::NameMap;
use crate::name_set::copy_names;
use crate::name_set::names_view;
use crate::structure::Entry;
use crate::structure::EntryView;
use crate::structure::LineRange;
use vstd::prelude::*;

verus! {

/// The text of an optional field, empty where the field is missing.
pub open spec fn text_or_empty(s: Option<Seq<char>>) -> Seq<char> {
    match s {
        Some(s) => s,
        None => Seq::empty(),
    }
}

/// The names of an optional list, none where the list is missing.
pub open spec fn names_or_empty(v: Option<Seq<Seq<char>>>) -> Seq<Seq<char>> {
    match v {
        Some(v) => v,
        None => Seq::empty(),
    }
}

/// Whether an atom has what the canonical record cannot do without: its file
/// and both ends of its line range.
pub open spec fn complete(a: AtomView) -> bool {
    a.code_path is Some && a.lines_start is Some && a.lines_end is Some
}

/// The canonical record of the symbol `id` with the atom `a`.
pub open spec fn canonical(id: Seq<char>, a: AtomView) -> EntryView {
    EntryView {
        code_name: Some(id),
        code_path: a.code_path,
        code_line: None,
        code_lines: Some(LineRange { start: a.lines_start->0, end: a.lines_end->0 }),
        code_module: Some(text_or_empty(a.code_module)),
        dependencies: Some(names_or_empty(a.dependencies)),
        display_name: Some(text_or_empty(a.display_name)),
        verified: None,
        specified: None,
        spec_text: None,
    }
}

/// The canonical record of the symbol `id`, if the atom store knows the
/// symbol and its atom is complete.
pub open spec fn enriched(id: Seq<char>, store: Map<Seq<char>, AtomView>) -> Option<EntryView> {
    if store.contains_key(id) && complete(store[id]) {
        Some(canonical(id, store[id]))
    } else {
        None
    }
}

/// Produces the canonical record of a symbol from its atom: its file, its
/// line range, its identifier, its module, its dependencies and its display
/// name. A module, a list of dependencies or a display name that the atom
/// lacks is empty in the record.
pub fn generate_enriched_entry(probe_name: &str, probe_atoms: &NameMap<Atom>) -> (r: Option<Entry>)
    requires
        probe_atoms.wf(),
    ensures
        r is Some <==> enriched(probe_name@, store_view(probe_atoms@)) is Some,
        r matches Some(e) ==> Some(e@) == enriched(probe_name@, store_view(probe_atoms@)),
{
    let atom = match probe_atoms.get(probe_name) {
        Some(a) => a,
        None => {
            return None;
        },
    };
    let code_path = match &atom.code_path {
        Some(p) => copy_text(p),
        None => {
            return None;
        },
    };
    let lines_start = match atom.lines_start {
        Some(n) => n,
        None => {
            return None;
        },
    };
    let lines_end = match atom.lines_end {
        Some(n) => n,
        None => {
            return None;
        },
    };
    let code_module = match &atom.code_module {
        Some(m) => copy_text(m),
        None => String::new(),
    };
    let dependencies = match &atom.dependencies {
        Some(d) => copy_names(d),
        None => {
            let v: Vec<String> = Vec::new();
            assert(names_view(v@) =~= Seq::<Seq<char>>::empty());
            v
        },
    };
    let display_name = match &atom.display_name {
        Some(d) => copy_text(d),
        None => String::new(),
    };
    Some(
        Entry {
            code_name: Some(probe_name.to_owned()),
            code_path: Some(code_path),
            code_line: None,
            code_lines: Some(LineRange { start: lines_start, end: lines_end }),
            code_module: Some(code_module),
            dependencies: Some(dependencies),
            display_name: Some(display_name),
            verified: None,
            specified: None,
            spec_text: None,
        },
    )
}

/// What became of one entry in enrichment.
#[derive(Clone, Copy, Debug, PartialEq, Eq, Structural)]
pub enum Enrichment {
    /// The entry was replaced by the canonical record of its symbol.
    Enriched,
    /// The entry carries no symbol identifier; it was kept as it is.
    MissingName,
    /// The atom store does not know the symbol of the entry, or its atom is
    /// incomplete; the entry was kept as it is.
    MissingAtom,
}

/// What enrichment does with one entry.
pub open spec fn enrichment_of(entry: EntryView, store: Map<Seq<char>, AtomView>) -> (
    EntryView,
    Enrichment,
) {
    match entry.code_name {
        None => (entry, Enrichment::MissingName),
        Some(id) => match enriched(id, store) {
            Some(record) => (record, Enrichment::Enriched),
            None => (entry, Enrichment::MissingAtom),
        },
    }
}

/// How many of the first `upto` entries enrichment replaces.
pub open spec fn enriched_count(
    entries: Seq<Entry>,
    store: Map<Seq<char>, AtomView>,
    upto: int,
) -> nat
    decreases upto,
{
    if upto <= 0 {
        0
    } else {
        let rest = enriched_count(entries, store, upto - 1);
        if enrichment_of(entries[upto - 1]@, store).1 == Enrichment::Enriched {
            rest + 1
        } else {
            rest
        }
    }
}

/// The result of enriching a structure.
#[derive(Clone, Debug, PartialEq, Eq)]
pub struct EnrichReport {
    /// The structure after enrichment.
    pub structure: NameMap<Entry>,
    /// What became of each entry, in the order of the keys of the structure.
    pub details: Vec<Enrichment>,
    /// The number of entries that were replaced by a canonical record.
    pub enriched: usize,
    /// The number of entries that were kept as they are.
    pub skipped: usize,
}

/// Replaces every entry whose symbol the atom store knows by the canonical
/// record of that symbol. An entry without a symbol identifier, or whose
/// symbol has no complete atom, is kept as it is.
pub fn enrich_structure_json(structure: &NameMap<Entry>, probe_atoms: &NameMap<Atom>) -> (report:
    EnrichReport)
    requires
        structure.wf(),
        probe_atoms.wf(),
    ensures
        report.structure.wf(),
        report.structure.keys() == structure.keys(),
        report.details@.len() == structure.keys().len(),
        forall|i: int|
            0 <= i < structure.keys().len() ==> {
                let e = enrichment_of((#[trigger] structure.values()[i])@, store_view(probe_atoms@));
                &&& report.structure.values()[i]@ == e.0
                &&& report.details@[i] == e.1
            },
        report.enriched == enriched_count(
            structure.values(),
            store_view(probe_atoms@),
            structure.keys().len() as int,
        ),
        report.enriched + report.skipped == structure.keys().len(),
{
    let ghost store = store_view(probe_atoms@);
    let ghost entries = structure.values();
    let mut result: Vec<Entry> = Vec::new();
    let mut details: Vec<Enrichment> = Vec::new();
    let mut enriched_entries: usize = 0;
    let mut skipped: usize = 0;
    let mut i: usize = 0;
    while i < structure.len()
        invariant
            i <= structure.keys().len(),
            structure.wf(),
            probe_atoms.wf(),
            store == store_view(probe_atoms@),
            entries == structure.values(),
            result@.len() == i,
            details@.len() == i,
            forall|j: int|
                0 <= j < i ==> {
                    let e = enrichment_of((#[trigger] entries[j])@, store);
                    &&& result@[j]@ == e.0
                    &&& details@[j] == e.1
                },
            enriched_entries == enriched_count(entries, store, i as int),
            enriched_entries + skipped == i,
        decreases structure.keys().len() - i,
    {
        let entry = structure.value_at(i);
        match &entry.code_name {
            None => {
                skipped = skipped + 1;
                result.push(entry.copy());
                details.push(Enrichment::MissingName);
            },
            Some(name) => match generate_enriched_entry(name.as_str(), probe_atoms) {
                Some(record) => {
                    enriched_entries = enriched_entries + 1;
                    result.push(record);
                    details.push(Enrichment::Enriched);
                },
                None => {
                    skipped = skipped + 1;
                    result.push(entry.copy());
                    details.push(Enrichment::MissingAtom);
                },
            },
        }
        i = i + 1;
    }
    EnrichReport { structure: structure.with_values(result), details, enriched: enriched_entries, skipped }
}

/// Enrichment leaves an entry that it cannot enrich exactly as it was.
pub proof fn lemma_skipped_is_untouched(entry: EntryView, store: Map<Seq<char>, AtomView>)
    requires
        enrichment_of(entry, store).1 != Enrichment::Enriched,
    ensures
        enrichment_of(entry, store).0 == entry,
{
}

/// Enriching an enriched entry again, against the same atom store, changes
/// nothing.
pub proof fn lemma_enrichment_is_idempotent(entry: EntryView, store: Map<Seq<char>, AtomView>)
    ensures
        enrichment_of(enrichment_of(entry, store).0, store).0 == enrichment_of(entry, store).0,
{
}

} // verus!
