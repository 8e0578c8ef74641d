//! Atomizing a structure: every entry is resolved to its symbol and then
//! replaced by the canonical record of that symbol.

use crate::atoms::Atom;
use crate::atoms::AtomView;
use crate::atoms::store_view;
use crate::enrich::EnrichReport;
use crate::enrich::enrich_structure_json;
use crate::enrich::enriched;
use crate::enrich::enriched_count;
use crate::enrich::enrichment_of;
use crate::enrich::generate_enriched_entry;
use crate::line_index::LineIndex;
use crate::line_index::Span;
use crate::line_index::spans_of;
use crate::name_map::NameMap;
use crate::resolver::Bucket;
use crate::resolver::EntryReport;
use crate::resolver::SyncReport;
use crate::resolver::bucket_count;
use crate::resolver::lemma_buckets_cover;
use crate::resolver::report_of;
use crate::resolver::resolved;
use crate::resolver::sync_structure_json_with_atoms;
use crate::resolver::update_entry_from_atoms;
use crate::scan::starts_with;
use crate::structure::Entry;
use crate::structure::EntryView;
use crate::text::chars_of;
use vstd::prelude::*;
use vstd::string::*;

verus! {

/// The beginning of the symbol identifiers that belong to the project
/// `prefix`.
pub open spec fn uri_prefix(prefix: Seq<char>) -> Seq<char> {
    "probe:"@ + prefix + "/"@
}

/// The atoms of a store whose symbol identifier begins with `probe:`, the
/// project prefix and `/`.
pub open spec fn filtered(store: Map<Seq<char>, AtomView>, prefix: Seq<char>) -> Map<
    Seq<char>,
    AtomView,
> {
    store.restrict(Set::new(|id: Seq<char>| uri_prefix(prefix).is_prefix_of(id)))
}

/// Keeps the atoms of the project `prefix` and drops all others.
pub fn filter_probe_atoms(probe_atoms: &NameMap<Atom>, prefix: &str) -> (kept: NameMap<Atom>)
    requires
        probe_atoms.wf(),
    ensures
        kept.wf(),
        store_view(kept@) == filtered(store_view(probe_atoms@), prefix@),
{
    let mut start = "probe:".to_owned();
    start.append(prefix);
    start.append("/");
    let wanted = chars_of(start.as_str());
    let ghost all = store_view(probe_atoms@);
    let ghost keys = probe_atoms.keys();
    let mut kept: NameMap<Atom> = NameMap::new();
    let mut i: usize = 0;
    assert(store_view(kept@) =~= filtered(all, prefix@).restrict(keys.take(0).to_set()));
    while i < probe_atoms.len()
        invariant
            i <= keys.len(),
            probe_atoms.wf(),
            keys == probe_atoms.keys(),
            all == store_view(probe_atoms@),
            wanted@ == uri_prefix(prefix@),
            kept.wf(),
            store_view(kept@) == filtered(all, prefix@).restrict(keys.take(i as int).to_set()),
        decreases keys.len() - i,
    {
        let key = probe_atoms.key_at(i);
        let ghost before = store_view(kept@);
        proof {
            probe_atoms.lemma_value_at(i as int);
            keys.take(i as int).lemma_push_to_set_commute(keys[i as int]);
            assert(keys.take(i + 1) =~= keys.take(i as int).push(keys[i as int]));
        }
        let name = chars_of(key.as_str());
        if starts_with(&name, &wanted) {
            let atom = probe_atoms.value_at(i).copy();
            kept.insert(key.clone(), atom);
            assert(store_view(kept@) =~= before.insert(key@, atom@));
            assert(store_view(kept@) =~= filtered(all, prefix@).restrict(
                keys.take(i + 1).to_set(),
            ));
        } else {
            assert(before =~= filtered(all, prefix@).restrict(keys.take(i + 1).to_set()));
        }
        i = i + 1;
    }
    proof {
        assert(keys.take(keys.len() as int) =~= keys);
        assert(store_view(kept@) =~= filtered(all, prefix@)) by {
            assert forall|k: Seq<char>| filtered(all, prefix@).contains_key(k) implies keys.to_set().contains(
                k,
            ) by {
                assert(probe_atoms@.contains_key(k));
                assert(keys.contains(k));
            }
        }
    }
    kept
}

/// The canonical record of the symbol that an entry resolves to, if it
/// resolves to one and the atom of that symbol is complete.
pub open spec fn metadata_of(
    entry: EntryView,
    spans: Set<Span>,
    store: Map<Seq<char>, AtomView>,
) -> Option<EntryView> {
    match resolved(entry, spans, store).symbol_id {
        Some(id) => enriched(id, store),
        None => None,
    }
}

/// How many of the first `upto` entries have a canonical record.
pub open spec fn metadata_count(
    entries: Seq<Entry>,
    spans: Set<Span>,
    store: Map<Seq<char>, AtomView>,
    upto: int,
) -> nat
    decreases upto,
{
    if upto <= 0 {
        0
    } else {
        let rest = metadata_count(entries, spans, store, upto - 1);
        if metadata_of(entries[upto - 1]@, spans, store) is Some {
            rest + 1
        } else {
            rest
        }
    }
}

/// The canonical record of an optional entry.
pub open spec fn opt_entry(e: Option<Entry>) -> Option<EntryView> {
    match e {
        Some(e) => Some(e@),
        None => None,
    }
}

/// The metadata of the entries of a structure that is stored as files.
#[derive(Clone, Debug, PartialEq, Eq)]
pub struct MetadataReport {
    /// For each entry its canonical record, if it has one.
    pub records: Vec<Option<Entry>>,
    /// How each entry was resolved.
    pub details: Vec<EntryReport>,
    /// The number of entries with a canonical record.
    pub created: usize,
    /// The number of entries without one.
    pub skipped: usize,
}

/// Produces the metadata of the entries of a structure that is stored as
/// files, one entry for each file: every entry is resolved to its symbol, and
/// the metadata of the entry is the canonical record of that symbol.
pub fn populate_structure_files_metadata(
    probe_atoms: &NameMap<Atom>,
    probe_index: &LineIndex,
    entries: &Vec<Entry>,
) -> (report: MetadataReport)
    requires
        probe_atoms.wf(),
        probe_index.wf(),
    ensures
        report.records@.len() == entries@.len(),
        report.details@.len() == entries@.len(),
        forall|i: int|
            0 <= i < entries@.len() ==> {
                &&& opt_entry(#[trigger] report.records@[i]) == metadata_of(
                    entries@[i]@,
                    probe_index.spans(),
                    store_view(probe_atoms@),
                )
                &&& report.details@[i]@ == report_of(
                    resolved(entries@[i]@, probe_index.spans(), store_view(probe_atoms@)),
                )
            },
        report.created == metadata_count(
            entries@,
            probe_index.spans(),
            store_view(probe_atoms@),
            entries@.len() as int,
        ),
        report.created + report.skipped == entries@.len(),
{
    let ghost store = store_view(probe_atoms@);
    let ghost spans = probe_index.spans();
    let mut records: Vec<Option<Entry>> = Vec::new();
    let mut details: Vec<EntryReport> = Vec::new();
    let mut created: usize = 0;
    let mut skipped: usize = 0;
    let mut i: usize = 0;
    while i < entries.len()
        invariant
            i <= entries@.len(),
            probe_atoms.wf(),
            probe_index.wf(),
            spans == probe_index.spans(),
            store == store_view(probe_atoms@),
            records@.len() == i,
            details@.len() == i,
            forall|j: int|
                0 <= j < i ==> {
                    &&& opt_entry(#[trigger] records@[j]) == metadata_of(entries@[j]@, spans, store)
                    &&& details@[j]@ == report_of(resolved(entries@[j]@, spans, store))
                },
            created == metadata_count(entries@, spans, store, i as int),
            created + skipped == i,
        decreases entries@.len() - i,
    {
        let r = update_entry_from_atoms(&entries[i], probe_index, probe_atoms);
        let record = match &r.symbol_id {
            Some(id) => generate_enriched_entry(id.as_str(), probe_atoms),
            None => None,
        };
        if record.is_some() {
            created = created + 1;
        } else {
            skipped = skipped + 1;
        }
        records.push(record);
        details.push(
            EntryReport { symbol_id: r.symbol_id, outcome: r.outcome, warnings: r.warnings },
        );
        i = i + 1;
    }
    MetadataReport { records, details, created, skipped }
}

/// What atomizing makes of one entry: the entry is resolved against the atom
/// store and its line index, and what comes out of that is enriched.
pub open spec fn atomized(entry: EntryView, store: Map<Seq<char>, AtomView>) -> EntryView {
    enrichment_of(resolved(entry, spans_of(store), store).entry, store).0
}

/// The result of atomizing a structure.
#[derive(Clone, Debug, PartialEq, Eq)]
pub struct AtomizeReport {
    /// The report of the resolution.
    pub sync: SyncReport,
    /// The report of the enrichment; its structure is the atomized structure.
    pub enrich: EnrichReport,
}

/// Atomizes a structure against an atom store: builds the line index of the
/// store, resolves every entry to its symbol, and replaces every resolved
/// entry by the canonical record of its symbol. Entries that cannot be
/// resolved or enriched are kept.
pub fn run(probe_atoms: &NameMap<Atom>, structure: &NameMap<Entry>) -> (report: AtomizeReport)
    requires
        probe_atoms.wf(),
        structure.wf(),
    ensures
        report.sync.structure.wf(),
        report.enrich.structure.wf(),
        report.sync.structure.keys() == structure.keys(),
        report.enrich.structure.keys() == structure.keys(),
        report.sync.details@.len() == structure.keys().len(),
        report.enrich.details@.len() == structure.keys().len(),
        forall|i: int|
            0 <= i < structure.keys().len() ==> {
                let store = store_view(probe_atoms@);
                let r = resolved((#[trigger] structure.values()[i])@, spans_of(store), store);
                &&& report.sync.structure.values()[i]@ == r.entry
                &&& report.sync.details@[i]@ == report_of(r)
                &&& report.enrich.structure.values()[i]@ == atomized(structure.values()[i]@, store)
                &&& report.enrich.details@[i] == enrichment_of(r.entry, store).1
            },
        report.sync.resolved == bucket_count(
            structure.values(),
            spans_of(store_view(probe_atoms@)),
            store_view(probe_atoms@),
            Bucket::Resolved,
            structure.keys().len() as int,
        ),
        report.sync.missing_info == bucket_count(
            structure.values(),
            spans_of(store_view(probe_atoms@)),
            store_view(probe_atoms@),
            Bucket::MissingInfo,
            structure.keys().len() as int,
        ),
        report.sync.no_match == bucket_count(
            structure.values(),
            spans_of(store_view(probe_atoms@)),
            store_view(probe_atoms@),
            Bucket::NoMatch,
            structure.keys().len() as int,
        ),
        report.sync.resolved + report.sync.missing_info + report.sync.no_match
            == structure.keys().len(),
        report.enrich.enriched == enriched_count(
            report.sync.structure.values(),
            store_view(probe_atoms@),
            structure.keys().len() as int,
        ),
        report.enrich.enriched + report.enrich.skipped == structure.keys().len(),
{
    let index = LineIndex::build(probe_atoms);
    let sync = sync_structure_json_with_atoms(structure, &index, probe_atoms);
    let enrich = enrich_structure_json(&sync.structure, probe_atoms);
    proof {
        let store = store_view(probe_atoms@);
        assert forall|i: int| 0 <= i < structure.keys().len() implies {
            let r = resolved((#[trigger] structure.values()[i])@, spans_of(store), store);
            &&& sync.structure.values()[i]@ == r.entry
            &&& sync.details@[i]@ == report_of(r)
            &&& enrich.structure.values()[i]@ == atomized(structure.values()[i]@, store)
            &&& enrich.details@[i] == enrichment_of(r.entry, store).1
        } by {
            assert(enrich.structure.values()[i]@ == enrichment_of(
                sync.structure.values()[i]@,
                store,
            ).0);
        }
        lemma_buckets_cover(
            structure.values(),
            index.spans(),
            store_view(probe_atoms@),
            structure.keys().len() as int,
        );
    }
    AtomizeReport { sync, enrich }
}

} // verus!
