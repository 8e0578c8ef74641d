//! Specification certificates: which tracked symbols have a specification
//! that waits for certification, and which are certified.

use crate::atoms::opt_text;
use crate::certs::cert_file_name;
use crate::certs::cert_file_of;
use crate::enrich::text_or_empty;
use crate::name_map::NameMap;
use crate::name_set::NameSet;
use crate::name_set::names_view;
use crate::structure::Entry;
use crate::structure::EntryView;
use crate::structure::SpecText;
use crate::structure::SpecTextView;
use crate::structure::opt_spec_text;
use vstd::prelude::*;

verus! {

/// What the analyser reports of the specification of one symbol.
#[derive(Clone, Debug, PartialEq, Eq)]
pub struct SpecInfo {
    /// Whether the symbol has a specification.
    pub specified: Option<bool>,
    /// The specification text.
    pub spec_text: Option<SpecText>,
}

/// A report on a specification as plain values.
pub struct SpecInfoView {
    pub specified: Option<bool>,
    pub spec_text: Option<SpecTextView>,
}

impl View for SpecInfo {
    type V = SpecInfoView;

    open spec fn view(&self) -> SpecInfoView {
        SpecInfoView { specified: self.specified, spec_text: opt_spec_text(self.spec_text) }
    }
}

/// The reports on specifications as plain values, by symbol.
pub open spec fn specs_view(specs: Map<Seq<char>, SpecInfo>) -> Map<Seq<char>, SpecInfoView> {
    specs.map_values(|s: SpecInfo| s@)
}

/// The symbol under which an entry is looked up: its symbol identifier, or
/// the empty name where it has none.
pub open spec fn lookup_name(entry: EntryView) -> Seq<char> {
    text_or_empty(entry.code_name)
}

/// Whether the analyser reports a specification with its text for the symbol
/// of an entry.
pub open spec fn has_reported_spec(entry: EntryView, specs: Map<Seq<char>, SpecInfoView>) -> bool {
    let name = lookup_name(entry);
    &&& specs.contains_key(name)
    &&& specs[name].specified == Some(true)
    &&& specs[name].spec_text is Some
}

/// The entry with the specification text that the analyser reports for its
/// symbol, if it reports one.
pub open spec fn with_spec_text(entry: EntryView, specs: Map<Seq<char>, SpecInfoView>) -> EntryView {
    if has_reported_spec(entry, specs) {
        EntryView { spec_text: specs[lookup_name(entry)].spec_text, ..entry }
    } else {
        entry
    }
}

/// How many of the first `upto` entries get a specification text.
pub open spec fn reported_count(
    entries: Seq<Entry>,
    specs: Map<Seq<char>, SpecInfoView>,
    upto: int,
) -> nat
    decreases upto,
{
    if upto <= 0 {
        0
    } else {
        let rest = reported_count(entries, specs, upto - 1);
        if has_reported_spec(entries[upto - 1]@, specs) {
            rest + 1
        } else {
            rest
        }
    }
}

/// The symbol under which an entry is looked up.
fn name_of(entry: &Entry) -> (name: String)
    ensures
        name@ == lookup_name(entry@),
{
    match &entry.code_name {
        Some(n) => n.clone(),
        None => String::new(),
    }
}

/// Gives every entry the specification text that the analyser reports for
/// its symbol. Only a symbol that is reported as specified gets one. Returns
/// the number of entries that got a text.
pub fn incorporate_spec_text(stubs_data: &mut NameMap<Entry>, specs_data: &NameMap<SpecInfo>) -> (count:
    usize)
    requires
        old(stubs_data).wf(),
        specs_data.wf(),
    ensures
        final(stubs_data).wf(),
        final(stubs_data).keys() == old(stubs_data).keys(),
        forall|i: int|
            0 <= i < old(stubs_data).keys().len() ==> (#[trigger] final(stubs_data).values()[i])@
                == with_spec_text(old(stubs_data).values()[i]@, specs_view(specs_data@)),
        count == reported_count(
            old(stubs_data).values(),
            specs_view(specs_data@),
            old(stubs_data).keys().len() as int,
        ),
{
    let ghost specs = specs_view(specs_data@);
    let ghost entries = stubs_data.values();
    let mut count: usize = 0;
    let mut i: usize = 0;
    while i < stubs_data.len()
        invariant
            i <= entries.len(),
            stubs_data.wf(),
            specs_data.wf(),
            specs == specs_view(specs_data@),
            entries == old(stubs_data).values(),
            stubs_data.keys() == old(stubs_data).keys(),
            stubs_data.values().len() == entries.len(),
            forall|j: int| 0 <= j < i ==> (#[trigger] stubs_data.values()[j])@ == with_spec_text(
                entries[j]@,
                specs,
            ),
            forall|j: int| i <= j < entries.len() ==> stubs_data.values()[j] == entries[j],
            count == reported_count(entries, specs, i as int),
            count <= i,
        decreases entries.len() - i,
    {
        let entry = stubs_data.value_at(i);
        let name = name_of(entry);
        let mut found: Option<SpecText> = None;
        match specs_data.get(name.as_str()) {
            Some(info) => match info.specified {
                Some(true) => match &info.spec_text {
                    Some(text) => {
                        found = Some(text.copy());
                    },
                    None => {},
                },
                _ => {},
            },
            None => {},
        }
        match found {
            Some(text) => {
                let mut updated = entry.copy();
                updated.spec_text = Some(text);
                stubs_data.set_value_at(i, updated);
                count = count + 1;
            },
            None => {},
        }
        i = i + 1;
    }
    count
}

/// Whether an entry waits for certification: it has a specification text,
/// and its symbol has no certificate.
pub open spec fn is_uncertified(entry: EntryView, certs: Set<Seq<char>>) -> bool {
    entry.spec_text is Some && !certs.contains(lookup_name(entry))
}

/// The positions of the entries that wait for certification among the first
/// `upto` entries, in ascending order.
pub open spec fn uncertified_positions(entries: Seq<Entry>, certs: Set<Seq<char>>, upto: int) -> Seq<
    int,
>
    decreases upto,
{
    if upto <= 0 {
        Seq::empty()
    } else {
        let rest = uncertified_positions(entries, certs, upto - 1);
        if is_uncertified(entries[upto - 1]@, certs) {
            rest.push(upto - 1)
        } else {
            rest
        }
    }
}

/// An entry of the structure that waits for certification.
#[derive(Clone, Debug, PartialEq, Eq)]
pub struct Candidate {
    /// The key of the entry in the structure.
    pub key: String,
    /// The entry.
    pub entry: Entry,
}

/// Finds the entries that have a specification text and whose symbol has no
/// certificate yet. They come in the order of their keys.
pub fn find_uncertified_functions(stubs_data: &NameMap<Entry>, existing_certs: &NameSet) -> (found:
    Vec<Candidate>)
    requires
        stubs_data.wf(),
        existing_certs.wf(),
    ensures
        found@.len() == uncertified_positions(
            stubs_data.values(),
            existing_certs@,
            stubs_data.keys().len() as int,
        ).len(),
        forall|k: int|
            0 <= k < found@.len() ==> {
                let at = uncertified_positions(
                    stubs_data.values(),
                    existing_certs@,
                    stubs_data.keys().len() as int,
                )[k];
                &&& 0 <= at < stubs_data.keys().len()
                &&& (#[trigger] found@[k]).key@ == stubs_data.keys()[at]
                &&& found@[k].entry@ == stubs_data.values()[at]@
            },
{
    let ghost entries = stubs_data.values();
    let ghost certs = existing_certs@;
    let mut found: Vec<Candidate> = Vec::new();
    let mut i: usize = 0;
    while i < stubs_data.len()
        invariant
            i <= stubs_data.keys().len(),
            stubs_data.wf(),
            existing_certs.wf(),
            entries == stubs_data.values(),
            certs == existing_certs@,
            found@.len() == uncertified_positions(entries, certs, i as int).len(),
            forall|k: int|
                0 <= k < found@.len() ==> {
                    let at = uncertified_positions(entries, certs, i as int)[k];
                    &&& 0 <= at < i
                    &&& (#[trigger] found@[k]).key@ == stubs_data.keys()[at]
                    &&& found@[k].entry@ == entries[at]@
                },
        decreases stubs_data.keys().len() - i,
    {
        let entry = stubs_data.value_at(i);
        if entry.spec_text.is_some() {
            let name = name_of(entry);
            if !existing_certs.contains(name.as_str()) {
                found.push(Candidate { key: stubs_data.key_at(i).clone(), entry: entry.copy() });
            }
        }
        i = i + 1;
    }
    found
}

/// The symbols of the chosen candidates, in the order in which they were
/// chosen. A choice that names no candidate is passed over.
pub open spec fn chosen_names(candidates: Seq<Candidate>, selected: Seq<usize>, upto: int) -> Seq<
    Seq<char>,
>
    decreases upto,
{
    if upto <= 0 {
        Seq::empty()
    } else {
        let rest = chosen_names(candidates, selected, upto - 1);
        let at = selected[upto - 1];
        if at < candidates.len() {
            rest.push(lookup_name(candidates[at as int].entry@))
        } else {
            rest
        }
    }
}

/// The names of the certificate files of a list of symbols.
pub open spec fn cert_files_of(names: Seq<Seq<char>>) -> Seq<Seq<char>> {
    Seq::new(names.len(), |i: int| cert_file_of(names[i]))
}

/// What certifying the chosen candidates asks for.
#[derive(Clone, Debug, PartialEq, Eq)]
pub struct Certification {
    /// The symbols that are newly certified.
    pub newly_certified: NameSet,
    /// The names of the certificate files to write, one for each valid
    /// choice, in the order of the choices.
    pub cert_files: Vec<String>,
}

/// Certifies the candidates that were chosen. `selected` holds positions in
/// `uncertified`; a position beyond its end is passed over.
pub fn collect_certifications(uncertified: &Vec<Candidate>, selected: &Vec<usize>) -> (r:
    Certification)
    ensures
        r.newly_certified.wf(),
        r.newly_certified@ == chosen_names(uncertified@, selected@, selected@.len() as int).to_set(),
        names_view(r.cert_files@) == cert_files_of(
            chosen_names(uncertified@, selected@, selected@.len() as int),
        ),
{
    let mut newly_certified = NameSet::new();
    let mut cert_files: Vec<String> = Vec::new();
    let mut i: usize = 0;
    assert(chosen_names(uncertified@, selected@, 0).to_set() =~= Set::<Seq<char>>::empty());
    while i < selected.len()
        invariant
            i <= selected@.len(),
            newly_certified.wf(),
            newly_certified@ == chosen_names(uncertified@, selected@, i as int).to_set(),
            names_view(cert_files@) == cert_files_of(
                chosen_names(uncertified@, selected@, i as int),
            ),
        decreases selected@.len() - i,
    {
        let at = selected[i];
        let ghost before = chosen_names(uncertified@, selected@, i as int);
        if at < uncertified.len() {
            let name = name_of(&uncertified[at].entry);
            let file = cert_file_name(name.as_str());
            let ghost files_before = names_view(cert_files@);
            proof {
                before.lemma_push_to_set_commute(name@);
                assert(chosen_names(uncertified@, selected@, i + 1) == before.push(name@));
            }
            newly_certified.insert(name);
            cert_files.push(file);
            assert(names_view(cert_files@) =~= files_before.push(file@));
            assert(names_view(cert_files@) =~= cert_files_of(
                chosen_names(uncertified@, selected@, i + 1),
            ));
        }
        i = i + 1;
    }
    Certification { newly_certified, cert_files }
}

/// The entry with its `specified` flag set: an entry is specified if it has a
/// symbol identifier and that symbol is certified.
pub open spec fn with_status(entry: EntryView, certified: Set<Seq<char>>) -> EntryView {
    EntryView {
        specified: Some(entry.code_name is Some && certified.contains(entry.code_name->0)),
        ..entry
    }
}

/// Sets the `specified` flag of every entry from the certified symbols.
pub fn update_stubs_specification_status(stubs_data: &mut NameMap<Entry>, certified_names: &NameSet)
    requires
        old(stubs_data).wf(),
        certified_names.wf(),
    ensures
        final(stubs_data).wf(),
        final(stubs_data).keys() == old(stubs_data).keys(),
        forall|i: int|
            0 <= i < old(stubs_data).keys().len() ==> (#[trigger] final(stubs_data).values()[i])@
                == with_status(old(stubs_data).values()[i]@, certified_names@),
{
    let ghost entries = stubs_data.values();
    let mut i: usize = 0;
    while i < stubs_data.len()
        invariant
            i <= entries.len(),
            stubs_data.wf(),
            certified_names.wf(),
            entries == old(stubs_data).values(),
            stubs_data.keys() == old(stubs_data).keys(),
            stubs_data.values().len() == entries.len(),
            forall|j: int| 0 <= j < i ==> (#[trigger] stubs_data.values()[j])@ == with_status(
                entries[j]@,
                certified_names@,
            ),
            forall|j: int| i <= j < entries.len() ==> stubs_data.values()[j] == entries[j],
        decreases entries.len() - i,
    {
        let entry = stubs_data.value_at(i);
        let specified = match &entry.code_name {
            Some(name) => certified_names.contains(name.as_str()),
            None => false,
        };
        let mut updated = entry.copy();
        updated.specified = Some(specified);
        stubs_data.set_value_at(i, updated);
        i = i + 1;
    }
}

/// The symbol identifiers that the first `upto` entries carry.
pub open spec fn names_among(entries: Seq<Entry>, upto: int) -> Set<Seq<char>> {
    Set::new(
        |name: Seq<char>|
            exists|i: int| 0 <= i < upto && #[trigger] opt_text(entries[i].code_name) == Some(name),
    )
}

/// Gets the set of the symbol identifiers that the entries of a structure
/// carry.
pub fn get_structure_names(structure: &NameMap<Entry>) -> (names: NameSet)
    requires
        structure.wf(),
    ensures
        names.wf(),
        names@ == names_among(structure.values(), structure.keys().len() as int),
{
    let ghost entries = structure.values();
    let mut names = NameSet::new();
    let mut i: usize = 0;
    assert(names@ =~= names_among(entries, 0));
    while i < structure.len()
        invariant
            i <= structure.keys().len(),
            structure.wf(),
            entries == structure.values(),
            names.wf(),
            names@ == names_among(entries, i as int),
        decreases structure.keys().len() - i,
    {
        let ghost before = names@;
        match &structure.value_at(i).code_name {
            Some(name) => {
                names.insert(name.clone());
            },
            None => {},
        }
        proof {
            assert(names@ =~= names_among(entries, i + 1)) by {
                assert forall|x: Seq<char>| names@.contains(x) implies names_among(
                    entries,
                    i + 1,
                ).contains(x) by {
                    if before.contains(x) {
                        let k = choose|k: int|
                            0 <= k < i && #[trigger] opt_text(entries[k].code_name) == Some(x);
                        assert(opt_text(entries[k].code_name) == Some(x));
                    } else {
                        assert(opt_text(entries[i as int].code_name) == Some(x));
                    }
                }
                assert forall|x: Seq<char>| names_among(entries, i + 1).contains(
                    x,
                ) implies names@.contains(x) by {
                    let k = choose|k: int|
                        0 <= k < i + 1 && #[trigger] opt_text(entries[k].code_name) == Some(x);
                    if k < i {
                        assert(before.contains(x));
                    }
                }
            }
        }
        i = i + 1;
    }
    names
}

} // verus!
