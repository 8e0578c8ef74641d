//! The functions of a project that are followed, as the
//! project lists them in a CSV table.

use crate::links::parse_github_link;
use crate::links::parsed_link;
use crate::name_map::NameMap;
use crate::name_set::names_view;
use crate::scan::contains_text;
use crate::scan::decimal_string;
use crate::scan::decimal_text;
use crate::scan::last_occurrence;
use crate::scan::occurs_at;
use crate::scan::parse_u32;
use crate::scan::parsed_u32;
use crate::scan::replace;
use crate::scan::replaced;
use crate::scan::rfind;
use crate::structure::Entry;
use crate::structure::EntryView;
use crate::text::chars_of;
use crate::text::str_eq;
use vstd::prelude::*;
use vstd::string::*;

verus! {

/// One table function.
#[derive(Clone, Debug, PartialEq, Eq)]
pub struct TrackedFunction {
    /// Whether the function has a specification.
    pub has_spec: bool,
    /// Whether the function has a proof.
    pub has_proof: bool,
    /// Whether the body of the function is taken on trust.
    pub is_external_body: bool,
    /// The line of the function in its source file, 0 if it is not known.
    pub line_number: u32,
    /// The link to the source of the function.
    pub link: String,
    /// The name of the function.
    pub function: String,
    /// The module of the function.
    pub module: String,
    /// The name under which the function is filed.
    pub qualified_name: String,
}

/// A table function as plain values.
pub struct TrackedView {
    pub has_spec: bool,
    pub has_proof: bool,
    pub is_external_body: bool,
    pub line_number: u32,
    pub link: Seq<char>,
    pub function: Seq<char>,
    pub module: Seq<char>,
    pub qualified_name: Seq<char>,
}

impl View for TrackedFunction {
    type V = TrackedView;

    open spec fn view(&self) -> TrackedView {
        TrackedView {
            has_spec: self.has_spec,
            has_proof: self.has_proof,
            is_external_body: self.is_external_body,
            line_number: self.line_number,
            link: self.link@,
            function: self.function@,
            module: self.module@,
            qualified_name: self.qualified_name@,
        }
    }
}

impl TrackedFunction {
    /// A copy of the record.
    pub fn copy(&self) -> (r: TrackedFunction)
        ensures
            r@ == self@,
    {
        TrackedFunction {
            has_spec: self.has_spec,
            has_proof: self.has_proof,
            is_external_body: self.is_external_body,
            line_number: self.line_number,
            link: self.link.clone(),
            function: self.function.clone(),
            module: self.module.clone(),
            qualified_name: self.qualified_name.clone(),
        }
    }
}

/// The rows of a table as plain values.
pub open spec fn rows_view(rows: Seq<Vec<String>>) -> Seq<Seq<Seq<char>>> {
    Seq::new(rows.len(), |i: int| names_view(rows[i]@))
}

/// The rows of an optional table as plain values.
pub open spec fn opt_rows_view(rows: Option<Vec<Vec<String>>>) -> Option<Seq<Seq<Seq<char>>>> {
    match rows {
        Some(rows) => Some(rows_view(rows@)),
        None => None,
    }
}

/// The records of a CSV document after its header row, each with its fields,
/// or nothing where the document is malformed.
pub uninterp spec fn csv_records(content: Seq<char>) -> Option<Seq<Seq<Seq<char>>>>;

/// Reads a CSV document with `csv::Reader::from_reader` and collects what
/// `records` yields.
///
/// Trusted: the result is a function of the document alone; it is `None`
/// where the reader reports an error.
#[verifier::external_body]
fn csv_rows(content: &str) -> (rows: Option<Vec<Vec<String>>>)
    ensures
        opt_rows_view(rows) == csv_records(content@),
{
    let mut reader = csv::Reader::from_reader(content.as_bytes());
    let rows: Result<Vec<Vec<String>>, csv::Error> = reader.records().map(
        |r| r.map(|record| record.iter().map(|field| field.to_string()).collect()),
    ).collect();
    rows.ok()
}

/// The field at position `i` of a row, empty where the row is shorter.
pub open spec fn field_of(row: Seq<Seq<char>>, i: int) -> Seq<char> {
    if 0 <= i < row.len() {
        row[i]
    } else {
        Seq::empty()
    }
}

/// The line that a link names after its last `#L`, 0 where it names none.
pub open spec fn link_line(link: Seq<char>) -> u32 {
    let mark = "#L"@;
    if contains_text(link, mark) {
        match parsed_u32(link.skip(last_occurrence(link, mark) + mark.len())) {
            Some(n) => n,
            None => 0,
        }
    } else {
        0
    }
}

/// The key under which the function of a row is filed: its name, `::` and
/// its module.
pub open spec fn row_key(row: Seq<Seq<char>>) -> Seq<char> {
    field_of(row, 0) + "::"@ + field_of(row, 1)
}

/// The table function that a row describes. The columns are: function,
/// module, link, specification (`yes`, or `ext` for a function whose body is
/// taken on trust), proof (`yes`).
pub open spec fn row_function(row: Seq<Seq<char>>) -> TrackedView {
    let spec_mark = field_of(row, 3);
    TrackedView {
        has_spec: spec_mark == "yes"@ || spec_mark == "ext"@,
        has_proof: field_of(row, 4) == "yes"@,
        is_external_body: spec_mark == "ext"@,
        line_number: link_line(field_of(row, 2)),
        link: field_of(row, 2),
        function: field_of(row, 0),
        module: field_of(row, 1),
        qualified_name: field_of(row, 0),
    }
}

/// The table functions of the first `upto` rows, each under its key. Of
/// two rows with one key the later counts.
pub open spec fn tracked_of(rows: Seq<Seq<Seq<char>>>, upto: int) -> Map<Seq<char>, TrackedView>
    decreases upto,
{
    if upto <= 0 {
        Map::empty()
    } else {
        tracked_of(rows, upto - 1).insert(row_key(rows[upto - 1]), row_function(rows[upto - 1]))
    }
}

/// The table functions as plain values, by key.
pub open spec fn tracked_view(m: Map<Seq<char>, TrackedFunction>) -> Map<Seq<char>, TrackedView> {
    m.map_values(|t: TrackedFunction| t@)
}

/// The field at position `i` of a row.
fn field(row: &Vec<String>, i: usize) -> (r: String)
    ensures
        r@ == field_of(names_view(row@), i as int),
{
    if i < row.len() {
        row[i].clone()
    } else {
        String::new()
    }
}

/// The line that a link names.
fn line_of_link(link: &str) -> (line: u32)
    ensures
        line == link_line(link@),
{
    let chars = chars_of(link);
    let mark = chars_of("#L");
    match rfind(&chars, &mark) {
        Some(at) => {
            assert(occurs_at(chars@, at as int, mark@));
            let n = chars.len();
            assert(chars@.skip(at + mark@.len()) =~= chars@.subrange(
                at + mark@.len(),
                chars@.len() as int,
            ));
            match parse_u32(&chars, at + mark.len()) {
                Some(n) => n,
                None => 0,
            }
        },
        None => 0,
    }
}

/// The table function that a row of the table describes, with its key.
pub fn tracked_from_row(row: &Vec<String>) -> (r: (String, TrackedFunction))
    ensures
        r.0@ == row_key(names_view(row@)),
        r.1@ == row_function(names_view(row@)),
{
    let function = field(row, 0);
    let module = field(row, 1);
    let link = field(row, 2);
    let spec_mark = field(row, 3);
    let proof_mark = field(row, 4);
    let is_external_body = str_eq(spec_mark.as_str(), "ext");
    let has_spec = str_eq(spec_mark.as_str(), "yes") || is_external_body;
    let has_proof = str_eq(proof_mark.as_str(), "yes");
    let line_number = line_of_link(link.as_str());
    let mut key = function.clone();
    key.append("::");
    key.append(module.as_str());
    (
        key,
        TrackedFunction {
            has_spec,
            has_proof,
            is_external_body,
            line_number,
            link,
            function: function.clone(),
            module,
            qualified_name: function,
        },
    )
}

/// The table functions that the rows of a table describe.
pub fn tracked_from_rows(rows: &Vec<Vec<String>>) -> (table: NameMap<TrackedFunction>)
    ensures
        table.wf(),
        tracked_view(table@) == tracked_of(rows_view(rows@), rows@.len() as int),
{
    let ghost all = rows_view(rows@);
    let mut table: NameMap<TrackedFunction> = NameMap::new();
    let mut i: usize = 0;
    assert(tracked_view(table@) =~= tracked_of(all, 0));
    while i < rows.len()
        invariant
            i <= rows@.len(),
            all == rows_view(rows@),
            table.wf(),
            tracked_view(table@) == tracked_of(all, i as int),
        decreases rows@.len() - i,
    {
        let ghost before = tracked_view(table@);
        let (key, function) = tracked_from_row(&rows[i]);
        table.insert(key, function);
        assert(tracked_view(table@) =~= before.insert(key@, function@));
        i = i + 1;
    }
    table
}

/// The table functions of a CSV document, if the document is well formed.
pub open spec fn tracked_csv(content: Seq<char>) -> Option<Map<Seq<char>, TrackedView>> {
    match csv_records(content) {
        Some(rows) => Some(tracked_of(rows, rows.len() as int)),
        None => None,
    }
}

/// The table functions of an optional table as plain values.
pub open spec fn opt_tracked_view(t: Option<NameMap<TrackedFunction>>) -> Option<
    Map<Seq<char>, TrackedView>,
> {
    match t {
        Some(t) => Some(tracked_view(t@)),
        None => None,
    }
}

/// Reads the table of table functions from a CSV document. The first row
/// of the document holds the column titles. The result is `None` where the
/// document is no well-formed CSV.
pub fn read_tracked_csv(content: &str) -> (table: Option<NameMap<TrackedFunction>>)
    ensures
        opt_tracked_view(table) == tracked_csv(content@),
        table matches Some(t) ==> t.wf(),
{
    match csv_rows(content) {
        Some(rows) => Some(tracked_from_rows(&rows)),
        None => None,
    }
}

/// How many of the first `upto` functions are filed under `name`.
pub open spec fn filed_under(functions: Seq<TrackedFunction>, name: Seq<char>, upto: int) -> nat
    decreases upto,
{
    if upto <= 0 {
        0
    } else {
        let rest = filed_under(functions, name, upto - 1);
        if functions[upto - 1].qualified_name@ == name {
            rest + 1
        } else {
            rest
        }
    }
}

/// The name under which the function at position `at` is filed after
/// disambiguation: where several functions share a name, each gets the name
/// followed by `_` and the number of functions with that name before it.
pub open spec fn disambiguated_name(functions: Seq<TrackedFunction>, at: int) -> Seq<char> {
    let name = functions[at].qualified_name@;
    if filed_under(functions, name, functions.len() as int) > 1 {
        name + "_"@ + decimal_text(filed_under(functions, name, at))
    } else {
        name
    }
}

/// Counts one more function under `name` and returns how many were counted
/// under it before.
fn count_one(counts: &mut NameMap<usize>, name: &str, Ghost(functions): Ghost<Seq<TrackedFunction>>, Ghost(
    upto,
): Ghost<int>) -> (before: usize)
    requires
        old(counts).wf(),
        0 <= upto < functions.len(),
        upto < usize::MAX,
        functions[upto].qualified_name@ == name@,
        counted(old(counts)@, functions, upto),
    ensures
        final(counts).wf(),
        counted(final(counts)@, functions, upto + 1),
        before == filed_under(functions, name@, upto),
{
    let before = match counts.get(name) {
        Some(n) => *n,
        None => 0,
    };
    proof {
        lemma_filed_under_bound(functions, name@, upto);
    }
    counts.insert(name.to_owned(), before + 1);
    before
}

/// Whether `counts` says of every name how many of the first `upto`
/// functions are filed under it.
pub open spec fn counted(counts: Map<Seq<char>, usize>, functions: Seq<TrackedFunction>, upto: int) -> bool {
    forall|name: Seq<char>|
        #![trigger counts.contains_key(name)]
        #![trigger filed_under(functions, name, upto)]
        {
            &&& counts.contains_key(name) <==> filed_under(functions, name, upto) > 0
            &&& counts.contains_key(name) ==> counts[name] == filed_under(functions, name, upto)
        }
}

/// No more functions are filed under a name than there are functions.
pub proof fn lemma_filed_under_bound(functions: Seq<TrackedFunction>, name: Seq<char>, upto: int)
    requires
        0 <= upto,
    ensures
        filed_under(functions, name, upto) <= upto,
    decreases upto,
{
    if upto > 0 {
        lemma_filed_under_bound(functions, name, upto - 1);
    }
}

/// Counts for every name how many functions are filed under it.
fn count_names(table: &NameMap<TrackedFunction>) -> (counts: NameMap<usize>)
    requires
        table.wf(),
    ensures
        counts.wf(),
        counted(counts@, table.values(), table.keys().len() as int),
{
    let ghost functions = table.values();
    let mut counts: NameMap<usize> = NameMap::new();
    let mut i: usize = 0;
    while i < table.len()
        invariant
            i <= table.keys().len(),
            table.wf(),
            functions == table.values(),
            counts.wf(),
            counted(counts@, functions, i as int),
        decreases table.keys().len() - i,
    {
        count_one(&mut counts, table.value_at(i).qualified_name.as_str(), Ghost(functions), Ghost(i as int));
        i = i + 1;
    }
    counts
}

/// Disambiguates the functions that are filed under one name: each of them
/// gets the name followed by `_` and its rank among the functions of that
/// name, in the order of the keys. A function whose name is its own keeps it.
pub fn tweak_disambiguate(table: &NameMap<TrackedFunction>) -> (r: NameMap<TrackedFunction>)
    requires
        table.wf(),
    ensures
        r.wf(),
        r.keys() == table.keys(),
        forall|i: int|
            0 <= i < table.keys().len() ==> (#[trigger] r.values()[i])@ == (TrackedView {
                qualified_name: disambiguated_name(table.values(), i),
                ..table.values()[i]@
            }),
{
    let ghost functions = table.values();
    let totals = count_names(table);
    let mut ranks: NameMap<usize> = NameMap::new();
    let mut result: Vec<TrackedFunction> = Vec::new();
    let mut i: usize = 0;
    while i < table.len()
        invariant
            i <= table.keys().len(),
            table.wf(),
            functions == table.values(),
            functions.len() == table.keys().len(),
            totals.wf(),
            counted(totals@, functions, functions.len() as int),
            ranks.wf(),
            counted(ranks@, functions, i as int),
            result@.len() == i,
            forall|j: int|
                0 <= j < i ==> (#[trigger] result@[j])@ == (TrackedView {
                    qualified_name: disambiguated_name(functions, j),
                    ..functions[j]@
                }),
        decreases table.keys().len() - i,
    {
        let function = table.value_at(i);
        let mut renamed = function.copy();
        let name = function.qualified_name.as_str();
        let total = match totals.get(name) {
            Some(n) => *n,
            None => 0,
        };
        let rank = count_one(&mut ranks, name, Ghost(functions), Ghost(i as int));
        if total > 1 {
            let mut qualified = function.qualified_name.clone();
            qualified.append("_");
            let number = decimal_string(rank);
            qualified.append(number.as_str());
            renamed.qualified_name = qualified;
        }
        result.push(renamed);
        i = i + 1;
    }
    table.with_values(result)
}

/// The key of the structure entry of a function: the file of the function,
/// `/`, the name under which the function is filed with `.` for every `::`,
/// and `.md`.
pub open spec fn entry_key(code_path: Seq<char>, qualified_name: Seq<char>) -> Seq<char> {
    code_path + "/"@ + replaced(qualified_name, "::"@, "."@) + ".md"@
}

/// The structure entry of a function whose link names a file: the file and
/// the line of the link, and no symbol yet.
pub open spec fn entry_of(code_path: Seq<char>, line: u32) -> EntryView {
    EntryView {
        code_name: None,
        code_path: Some(code_path),
        code_line: Some(line as u64),
        code_lines: None,
        code_module: None,
        dependencies: None,
        display_name: None,
        verified: None,
        specified: None,
        spec_text: None,
    }
}

/// The structure of the first `upto` functions: one entry for each function
/// whose link names a file. Of two functions with one key the later counts.
pub open spec fn structure_of(functions: Seq<TrackedFunction>, upto: int) -> Map<
    Seq<char>,
    EntryView,
>
    decreases upto,
{
    if upto <= 0 {
        Map::empty()
    } else {
        let rest = structure_of(functions, upto - 1);
        let f = functions[upto - 1]@;
        match parsed_link(f.link) {
            Some((path, line)) => if path.len() > 0 {
                rest.insert(entry_key(path, f.qualified_name), entry_of(path, line))
            } else {
                rest
            },
            None => rest,
        }
    }
}

/// A structure as plain values, by key.
pub open spec fn structure_view(m: Map<Seq<char>, Entry>) -> Map<Seq<char>, EntryView> {
    m.map_values(|e: Entry| e@)
}

/// Makes the structure of a table of table functions: one entry for each
/// function whose link names a file.
pub fn tracked_to_structure(table: &NameMap<TrackedFunction>) -> (structure: NameMap<Entry>)
    requires
        table.wf(),
    ensures
        structure.wf(),
        structure_view(structure@) == structure_of(table.values(), table.keys().len() as int),
{
    let ghost functions = table.values();
    let mut structure: NameMap<Entry> = NameMap::new();
    let mut i: usize = 0;
    assert(structure_view(structure@) =~= structure_of(functions, 0));
    while i < table.len()
        invariant
            i <= table.keys().len(),
            table.wf(),
            functions == table.values(),
            structure.wf(),
            structure_view(structure@) == structure_of(functions, i as int),
        decreases table.keys().len() - i,
    {
        let function = table.value_at(i);
        let ghost before = structure_view(structure@);
        match parse_github_link(function.link.as_str()) {
            Some(found) => {
                let (code_path, line) = found;
                if code_path.as_str().unicode_len() > 0 {
                    let mut key = code_path.clone();
                    key.append("/");
                    let name = replace(function.qualified_name.as_str(), "::", ".");
                    key.append(name.as_str());
                    key.append(".md");
                    let mut entry = Entry::empty();
                    entry.code_line = Some(line as u64);
                    entry.code_path = Some(code_path);
                    structure.insert(key, entry);
                    assert(structure_view(structure@) =~= before.insert(key@, entry@));
                }
            },
            None => {},
        }
        i = i + 1;
    }
    structure
}

} // verus!
