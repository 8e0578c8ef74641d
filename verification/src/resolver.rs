//! The symbol resolver: from a structure entry to the symbol it stands for.
//!
//! An entry is resolved by the symbol identifier it carries, if the atom
//! store knows that identifier, and otherwise by its recorded file and line
//! through the line index.

use crate::atoms::Atom;
use crate::atoms::AtomView;
use crate::atoms::opt_text;
use crate::atoms::store_view;
use crate::line_index::LineIndex;
use crate::line_index::Lookup;
use crate::line_index::LookupView;
use crate::line_index::Span;
use crate::line_index::line_number;
use crate::line_index::lookup_spec;
use crate::line_index::truncate_line;
use crate::name_map::NameMap;
use crate::structure::Entry;
use crate::structure::EntryView;
use vstd::prelude::*;

verus! {

/// How the resolution of an entry ended.
#[derive(Clone, Copy, Debug, PartialEq, Eq, Structural)]
pub enum Outcome {
    /// The entry carried a symbol identifier that the atom store knows.
    ById,
    /// The entry was resolved through the line index by its file and line.
    ByPosition,
    /// The entry has neither a known symbol identifier nor both a file and a
    /// line.
    MissingInfo,
    /// The line index holds nothing for the file of the entry.
    NoCoverage,
    /// No symbol of the file covers the line of the entry.
    NoMatch,
}

/// The three buckets into which a batch of resolutions falls.
#[derive(Clone, Copy, Debug, PartialEq, Eq, Structural)]
pub enum Bucket {
    /// The entry was resolved to a symbol.
    Resolved,
    /// The entry lacks the information by which it could be resolved.
    MissingInfo,
    /// The entry has a position, but no symbol was found there.
    NoMatch,
}

impl Outcome {
    /// The bucket that an outcome falls into.
    pub open spec fn spec_bucket(self) -> Bucket {
        match self {
            Outcome::ById => Bucket::Resolved,
            Outcome::ByPosition => Bucket::Resolved,
            Outcome::MissingInfo => Bucket::MissingInfo,
            Outcome::NoCoverage => Bucket::NoMatch,
            Outcome::NoMatch => Bucket::NoMatch,
        }
    }

    /// The bucket that an outcome falls into.
    pub fn bucket(self) -> (b: Bucket)
        ensures
            b == self.spec_bucket(),
    {
        match self {
            Outcome::ById => Bucket::Resolved,
            Outcome::ByPosition => Bucket::Resolved,
            Outcome::MissingInfo => Bucket::MissingInfo,
            Outcome::NoCoverage => Bucket::NoMatch,
            Outcome::NoMatch => Bucket::NoMatch,
        }
    }
}

/// What a resolution has to tell besides its outcome.
#[derive(Clone, Copy, Debug, PartialEq, Eq, Structural)]
pub enum Warning {
    /// The recorded file or line differs from that of the symbol; the entry
    /// now carries the symbol's.
    PositionMismatch,
    /// The atom store does not know the symbol identifier of the entry; the
    /// recorded position was tried instead.
    UnknownSymbol,
    /// The entry lacks a file or a line.
    MissingPosition,
    /// Two or more symbols start at the recorded line.
    AmbiguousMatch,
}

/// The result of resolving one entry.
#[derive(Clone, Debug, PartialEq, Eq)]
pub struct Resolution {
    /// The entry as it stands after the resolution.
    pub entry: Entry,
    /// The symbol that the entry was resolved to.
    pub symbol_id: Option<String>,
    /// How the resolution ended.
    pub outcome: Outcome,
    /// What the resolution has to tell, in the order in which it came up.
    pub warnings: Vec<Warning>,
}

/// The result of a resolution as plain values.
pub struct ResolutionView {
    pub entry: EntryView,
    pub symbol_id: Option<Seq<char>>,
    pub outcome: Outcome,
    pub warnings: Seq<Warning>,
}

impl View for Resolution {
    type V = ResolutionView;

    open spec fn view(&self) -> ResolutionView {
        ResolutionView {
            entry: self.entry@,
            symbol_id: opt_text(self.symbol_id),
            outcome: self.outcome,
            warnings: self.warnings@,
        }
    }
}

/// The line at which an atom starts, as the index counts lines.
pub open spec fn atom_line(atom: AtomView) -> Option<u64> {
    match atom.lines_start {
        Some(n) => Some(line_number(n)),
        None => None,
    }
}

/// Whether an entry records a file or a line that is not that of the atom.
pub open spec fn recorded_differs(entry: EntryView, atom: AtomView) -> bool {
    ||| entry.code_path is Some && entry.code_path != atom.code_path
    ||| entry.code_line is Some && Some(line_number(entry.code_line->0)) != atom_line(atom)
}

/// The entry with the file and the line of the atom in place of its own, as
/// far as the atom has them.
pub open spec fn with_position(entry: EntryView, atom: AtomView) -> EntryView {
    EntryView {
        code_path: if atom.code_path is Some {
            atom.code_path
        } else {
            entry.code_path
        },
        code_line: if atom.lines_start is Some {
            atom_line(atom)
        } else {
            entry.code_line
        },
        ..entry
    }
}

/// What the resolver makes of an entry that carries a symbol identifier known
/// to the atom store.
pub open spec fn resolved_by_id(entry: EntryView, atom: AtomView) -> ResolutionView {
    ResolutionView {
        entry: with_position(entry, atom),
        symbol_id: entry.code_name,
        outcome: Outcome::ById,
        warnings: if recorded_differs(entry, atom) {
            seq![Warning::PositionMismatch]
        } else {
            seq![]
        },
    }
}

/// What the resolver makes of an entry that has to be found by its position.
/// `stale` holds the warning of a symbol identifier that was not known.
pub open spec fn resolved_by_position(
    entry: EntryView,
    spans: Set<Span>,
    stale: Seq<Warning>,
) -> ResolutionView {
    if entry.code_path is None || entry.code_line is None {
        ResolutionView {
            entry,
            symbol_id: None,
            outcome: Outcome::MissingInfo,
            warnings: stale.push(Warning::MissingPosition),
        }
    } else {
        match lookup_spec(spans, entry.code_path->0, line_number(entry.code_line->0)) {
            LookupView::NoCoverage => ResolutionView {
                entry,
                symbol_id: None,
                outcome: Outcome::NoCoverage,
                warnings: stale,
            },
            LookupView::NoMatch => ResolutionView {
                entry,
                symbol_id: None,
                outcome: Outcome::NoMatch,
                warnings: stale,
            },
            LookupView::Match { symbol_id, exact, ambiguous } => ResolutionView {
                entry: EntryView { code_name: Some(symbol_id), ..entry },
                symbol_id: Some(symbol_id),
                outcome: Outcome::ByPosition,
                warnings: if ambiguous {
                    stale.push(Warning::AmbiguousMatch)
                } else {
                    stale
                },
            },
        }
    }
}

/// What the resolver makes of an entry, given what the line index holds and
/// the atom store.
pub open spec fn resolved(
    entry: EntryView,
    spans: Set<Span>,
    store: Map<Seq<char>, AtomView>,
) -> ResolutionView {
    if entry.code_name is Some && store.contains_key(entry.code_name->0) {
        resolved_by_id(entry, store[entry.code_name->0])
    } else if entry.code_name is Some {
        resolved_by_position(entry, spans, seq![Warning::UnknownSymbol])
    } else {
        resolved_by_position(entry, spans, seq![])
    }
}

/// How often a warning occurs in a list of warnings.
pub open spec fn occurrences(warnings: Seq<Warning>, w: Warning) -> nat {
    warnings.filter(|x: Warning| x == w).len()
}

/// An entry whose symbol identifier the atom store knows resolves to that
/// symbol, whatever file and line it records. It then carries the file and
/// the line of the symbol, and the mismatch is reported exactly once if the
/// recorded position differs, and not at all if it does not.
pub proof fn lemma_known_symbol_wins(
    entry: EntryView,
    spans: Set<Span>,
    store: Map<Seq<char>, AtomView>,
)
    requires
        entry.code_name is Some,
        store.contains_key(entry.code_name->0),
    ensures
        ({
            let r = resolved(entry, spans, store);
            let atom = store[entry.code_name->0];
            &&& r.outcome == Outcome::ById
            &&& r.symbol_id == entry.code_name
            &&& r.entry.code_name == entry.code_name
            &&& atom.code_path is Some ==> r.entry.code_path == atom.code_path
            &&& atom.lines_start is Some ==> r.entry.code_line == atom_line(atom)
            &&& occurrences(r.warnings, Warning::PositionMismatch) == (if recorded_differs(
                entry,
                atom,
            ) {
                1nat
            } else {
                0nat
            })
        }),
{
    let r = resolved(entry, spans, store);
    let f = |x: Warning| x == Warning::PositionMismatch;
    reveal_with_fuel(Seq::filter, 2);
    if recorded_differs(entry, store[entry.code_name->0]) {
        let s = seq![Warning::PositionMismatch];
        assert(s.drop_last() =~= Seq::<Warning>::empty());
        assert(s.filter(f) =~= seq![Warning::PositionMismatch]);
    } else {
        assert(r.warnings.filter(f) =~= Seq::<Warning>::empty());
    }
}

/// Whether the recorded file of an entry differs from that of an atom.
fn path_differs(recorded: &Option<String>, actual: &Option<String>) -> (b: bool)
    ensures
        b == (recorded is Some && opt_text(*recorded) != opt_text(*actual)),
{
    match recorded {
        None => false,
        Some(r) => match actual {
            None => true,
            Some(a) => !(*r == *a),
        },
    }
}

/// Resolves one structure entry against the line index and the atom store.
pub fn update_entry_from_atoms(entry: &Entry, index: &LineIndex, atoms: &NameMap<Atom>) -> (r:
    Resolution)
    requires
        index.wf(),
        atoms.wf(),
    ensures
        r@ == resolved(entry@, index.spans(), store_view(atoms@)),
{
    let mut warnings: Vec<Warning> = Vec::new();
    let mut updated = entry.copy();
    if let Some(name) = &entry.code_name {
        if let Some(atom) = atoms.get(name.as_str()) {
            let line_differs = match entry.code_line {
                None => false,
                Some(line) => match atom.lines_start {
                    None => true,
                    Some(n) => truncate_line(line) != truncate_line(n),
                },
            };
            if path_differs(&entry.code_path, &atom.code_path) || line_differs {
                warnings.push(Warning::PositionMismatch);
            }
            if let Some(p) = &atom.code_path {
                updated.code_path = Some(p.clone());
            }
            if let Some(n) = atom.lines_start {
                updated.code_line = Some(truncate_line(n) as u64);
            }
            let r = Resolution {
                entry: updated,
                symbol_id: Some(name.clone()),
                outcome: Outcome::ById,
                warnings,
            };
            proof {
                let e = entry@;
                let a = store_view(atoms@)[e.code_name->0];
                assert(a == atom@);
                assert(r@.warnings =~= resolved_by_id(e, a).warnings);
                assert(r@ == resolved_by_id(e, a));
            }
            return r;
        }
        warnings.push(Warning::UnknownSymbol);
    }
    let ghost stale = warnings@;
    assert(stale =~= if entry@.code_name is Some {
        seq![Warning::UnknownSymbol]
    } else {
        seq![]
    });
    match (&entry.code_path, entry.code_line) {
        (Some(path), Some(line)) => {
            match index.lookup(path.as_str(), truncate_line(line)) {
                Lookup::NoCoverage => Resolution {
                    entry: updated,
                    symbol_id: None,
                    outcome: Outcome::NoCoverage,
                    warnings,
                },
                Lookup::NoMatch => Resolution {
                    entry: updated,
                    symbol_id: None,
                    outcome: Outcome::NoMatch,
                    warnings,
                },
                Lookup::Match { symbol_id, exact, ambiguous } => {
                    if ambiguous {
                        warnings.push(Warning::AmbiguousMatch);
                    }
                    updated.code_name = Some(symbol_id.clone());
                    Resolution {
                        entry: updated,
                        symbol_id: Some(symbol_id),
                        outcome: Outcome::ByPosition,
                        warnings,
                    }
                },
            }
        },
        _ => {
            warnings.push(Warning::MissingPosition);
            Resolution { entry: updated, symbol_id: None, outcome: Outcome::MissingInfo, warnings }
        },
    }
}

/// What the resolution of one entry of a batch reports.
#[derive(Clone, Debug, PartialEq, Eq)]
pub struct EntryReport {
    /// The symbol that the entry was resolved to.
    pub symbol_id: Option<String>,
    /// How the resolution ended.
    pub outcome: Outcome,
    /// What the resolution has to tell.
    pub warnings: Vec<Warning>,
}

/// The report on one entry as plain values.
pub struct EntryReportView {
    pub symbol_id: Option<Seq<char>>,
    pub outcome: Outcome,
    pub warnings: Seq<Warning>,
}

impl View for EntryReport {
    type V = EntryReportView;

    open spec fn view(&self) -> EntryReportView {
        EntryReportView {
            symbol_id: opt_text(self.symbol_id),
            outcome: self.outcome,
            warnings: self.warnings@,
        }
    }
}

/// The report that a resolution gives.
pub open spec fn report_of(r: ResolutionView) -> EntryReportView {
    EntryReportView { symbol_id: r.symbol_id, outcome: r.outcome, warnings: r.warnings }
}

/// How many of the first `upto` entries fall into `bucket` when they are
/// resolved.
pub open spec fn bucket_count(
    entries: Seq<Entry>,
    spans: Set<Span>,
    store: Map<Seq<char>, AtomView>,
    bucket: Bucket,
    upto: int,
) -> nat
    decreases upto,
{
    if upto <= 0 {
        0
    } else {
        let rest = bucket_count(entries, spans, store, bucket, upto - 1);
        if resolved(entries[upto - 1]@, spans, store).outcome.spec_bucket() == bucket {
            rest + 1
        } else {
            rest
        }
    }
}

/// Every entry falls into exactly one bucket.
pub proof fn lemma_buckets_cover(
    entries: Seq<Entry>,
    spans: Set<Span>,
    store: Map<Seq<char>, AtomView>,
    upto: int,
)
    requires
        0 <= upto,
    ensures
        bucket_count(entries, spans, store, Bucket::Resolved, upto) + bucket_count(
            entries,
            spans,
            store,
            Bucket::MissingInfo,
            upto,
        ) + bucket_count(entries, spans, store, Bucket::NoMatch, upto) == upto,
    decreases upto,
{
    if upto > 0 {
        lemma_buckets_cover(entries, spans, store, upto - 1);
    }
}

/// The result of resolving every entry of a structure.
#[derive(Clone, Debug, PartialEq, Eq)]
pub struct SyncReport {
    /// The structure after the resolution: every entry that was resolved
    /// carries its symbol, every other entry is as it was.
    pub structure: NameMap<Entry>,
    /// The report on each entry, in the order of the keys of the structure.
    pub details: Vec<EntryReport>,
    /// The number of entries that were resolved to a symbol.
    pub resolved: usize,
    /// The number of entries that lack the information to be resolved.
    pub missing_info: usize,
    /// The number of entries at whose position no symbol was found.
    pub no_match: usize,
}

/// Resolves every entry of a structure against the line index and the atom
/// store. An entry that cannot be resolved is kept as it is.
pub fn sync_structure_json_with_atoms(
    structure: &NameMap<Entry>,
    index: &LineIndex,
    atoms: &NameMap<Atom>,
) -> (report: SyncReport)
    requires
        structure.wf(),
        index.wf(),
        atoms.wf(),
    ensures
        report.structure.wf(),
        report.structure.keys() == structure.keys(),
        report.details@.len() == structure.keys().len(),
        forall|i: int|
            0 <= i < structure.keys().len() ==> {
                let r = resolved(
                    (#[trigger] structure.values()[i])@,
                    index.spans(),
                    store_view(atoms@),
                );
                &&& report.structure.values()[i]@ == r.entry
                &&& report.details@[i]@ == report_of(r)
            },
        report.resolved == bucket_count(
            structure.values(),
            index.spans(),
            store_view(atoms@),
            Bucket::Resolved,
            structure.keys().len() as int,
        ),
        report.missing_info == bucket_count(
            structure.values(),
            index.spans(),
            store_view(atoms@),
            Bucket::MissingInfo,
            structure.keys().len() as int,
        ),
        report.no_match == bucket_count(
            structure.values(),
            index.spans(),
            store_view(atoms@),
            Bucket::NoMatch,
            structure.keys().len() as int,
        ),
{
    let ghost spans = index.spans();
    let ghost store = store_view(atoms@);
    let ghost entries = structure.values();
    let mut updated: Vec<Entry> = Vec::new();
    let mut details: Vec<EntryReport> = Vec::new();
    let mut resolved_count: usize = 0;
    let mut missing_info: usize = 0;
    let mut no_match: usize = 0;
    let mut i: usize = 0;
    while i < structure.len()
        invariant
            i <= structure.keys().len(),
            structure.wf(),
            index.wf(),
            atoms.wf(),
            spans == index.spans(),
            store == store_view(atoms@),
            entries == structure.values(),
            updated@.len() == i,
            details@.len() == i,
            forall|j: int|
                0 <= j < i ==> {
                    let r = resolved((#[trigger] entries[j])@, spans, store);
                    &&& updated@[j]@ == r.entry
                    &&& details@[j]@ == report_of(r)
                },
            resolved_count == bucket_count(entries, spans, store, Bucket::Resolved, i as int),
            missing_info == bucket_count(entries, spans, store, Bucket::MissingInfo, i as int),
            no_match == bucket_count(entries, spans, store, Bucket::NoMatch, i as int),
            resolved_count + missing_info + no_match == i,
        decreases structure.keys().len() - i,
    {
        let r = update_entry_from_atoms(structure.value_at(i), index, atoms);
        match r.outcome.bucket() {
            Bucket::Resolved => {
                resolved_count = resolved_count + 1;
            },
            Bucket::MissingInfo => {
                missing_info = missing_info + 1;
            },
            Bucket::NoMatch => {
                no_match = no_match + 1;
            },
        }
        updated.push(r.entry);
        details.push(
            EntryReport { symbol_id: r.symbol_id, outcome: r.outcome, warnings: r.warnings },
        );
        i = i + 1;
    }
    SyncReport {
        structure: structure.with_values(updated),
        details,
        resolved: resolved_count,
        missing_info,
        no_match,
    }
}

/// An entry that could not be resolved comes out of the resolution as it
/// went in.
pub proof fn lemma_unresolved_is_untouched(
    entry: EntryView,
    spans: Set<Span>,
    store: Map<Seq<char>, AtomView>,
)
    requires
        resolved(entry, spans, store).outcome.spec_bucket() != Bucket::Resolved,
    ensures
        resolved(entry, spans, store).entry == entry,
        resolved(entry, spans, store).symbol_id is None,
{
}

} // verus!
