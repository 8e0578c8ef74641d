//! The tracked structure: one entry for each artifact that is followed.

use crate::atoms::copy_opt_text;
use crate::atoms::opt_names;
use crate::atoms::opt_text;
use crate::name_set::copy_names;
use vstd::prelude::*;

verus! {

/// The kind of project that a structure describes.
#[derive(Clone, Copy, Debug, PartialEq, Eq, Structural)]
pub enum StructureType {
    /// A Rust project analysed symbol by symbol.
    DalekLite,
    /// A blueprint project with a dependency graph of statements.
    Blueprint,
}

impl StructureType {
    /// The name of the kind as it is written in configuration and on the
    /// command line.
    pub open spec fn spec_name(self) -> Seq<char> {
        match self {
            StructureType::DalekLite => "dalek-lite"@,
            StructureType::Blueprint => "blueprint"@,
        }
    }

    /// The name of the kind as it is written in configuration and on the
    /// command line.
    pub fn name(self) -> (r: String)
        ensures
            r@ == self.spec_name(),
    {
        match self {
            StructureType::DalekLite => "dalek-lite".to_owned(),
            StructureType::Blueprint => "blueprint".to_owned(),
        }
    }

    /// The field of a structure entry that holds its identifier.
    pub open spec fn spec_name_field(self) -> Seq<char> {
        match self {
            StructureType::DalekLite => "code-name"@,
            StructureType::Blueprint => "veri-name"@,
        }
    }

    /// The field of a structure entry that holds its identifier.
    pub fn name_field(self) -> (r: String)
        ensures
            r@ == self.spec_name_field(),
    {
        match self {
            StructureType::DalekLite => "code-name".to_owned(),
            StructureType::Blueprint => "veri-name".to_owned(),
        }
    }
}

/// The form in which a structure is stored.
#[derive(Clone, Copy, Debug, PartialEq, Eq, Structural)]
pub enum StructureForm {
    /// One JSON document for the whole structure.
    Json,
    /// One markdown file for each entry.
    Files,
}

impl StructureForm {
    /// The name of the form as it is written in configuration and on the
    /// command line.
    pub open spec fn spec_name(self) -> Seq<char> {
        match self {
            StructureForm::Json => "json"@,
            StructureForm::Files => "files"@,
        }
    }

    /// The name of the form as it is written in configuration and on the
    /// command line.
    pub fn name(self) -> (r: String)
        ensures
            r@ == self.spec_name(),
    {
        match self {
            StructureForm::Json => "json".to_owned(),
            StructureForm::Files => "files".to_owned(),
        }
    }
}

/// A range of lines, both ends inclusive.
#[derive(Clone, Copy, Debug, PartialEq, Eq, Structural)]
pub struct LineRange {
    /// The first line.
    pub start: u64,
    /// The last line.
    pub end: u64,
}

/// The specification text that the analyser found for a symbol.
#[derive(Clone, Debug, PartialEq, Eq)]
pub struct SpecText {
    /// The line at which the specification starts.
    pub lines_start: Option<u64>,
    /// The analyser's record of the specification, as JSON text.
    pub body: String,
}

/// A specification text as plain values.
pub struct SpecTextView {
    pub lines_start: Option<u64>,
    pub body: Seq<char>,
}

impl View for SpecText {
    type V = SpecTextView;

    open spec fn view(&self) -> SpecTextView {
        SpecTextView { lines_start: self.lines_start, body: self.body@ }
    }
}

/// The specification text of an optional record.
pub open spec fn opt_spec_text(s: Option<SpecText>) -> Option<SpecTextView> {
    match s {
        Some(s) => Some(s@),
        None => None,
    }
}

/// One entry of the structure: the bookkeeping record of a tracked artifact.
///
/// Before it is resolved an entry carries a symbol identifier, or a file and
/// a line by which one can be found. Enrichment adds what the analyser knows
/// of the symbol; later steps add the certification flags.
#[derive(Clone, Debug, PartialEq, Eq)]
pub struct Entry {
    /// The symbol identifier.
    pub code_name: Option<String>,
    /// The source file of the symbol.
    pub code_path: Option<String>,
    /// The line at which the symbol starts.
    pub code_line: Option<u64>,
    /// The line range of the symbol.
    pub code_lines: Option<LineRange>,
    /// The module of the symbol.
    pub code_module: Option<String>,
    /// The symbols that the symbol depends on.
    pub dependencies: Option<Vec<String>>,
    /// The name under which the symbol is shown.
    pub display_name: Option<String>,
    /// Whether the symbol has a verification certificate.
    pub verified: Option<bool>,
    /// Whether the symbol has a specification certificate.
    pub specified: Option<bool>,
    /// The specification text of the symbol.
    pub spec_text: Option<SpecText>,
}

/// An entry as plain values.
pub struct EntryView {
    pub code_name: Option<Seq<char>>,
    pub code_path: Option<Seq<char>>,
    pub code_line: Option<u64>,
    pub code_lines: Option<LineRange>,
    pub code_module: Option<Seq<char>>,
    pub dependencies: Option<Seq<Seq<char>>>,
    pub display_name: Option<Seq<char>>,
    pub verified: Option<bool>,
    pub specified: Option<bool>,
    pub spec_text: Option<SpecTextView>,
}

impl View for Entry {
    type V = EntryView;

    open spec fn view(&self) -> EntryView {
        EntryView {
            code_name: opt_text(self.code_name),
            code_path: opt_text(self.code_path),
            code_line: self.code_line,
            code_lines: self.code_lines,
            code_module: opt_text(self.code_module),
            dependencies: opt_names(self.dependencies),
            display_name: opt_text(self.display_name),
            verified: self.verified,
            specified: self.specified,
            spec_text: opt_spec_text(self.spec_text),
        }
    }
}

/// A copy of an optional list of names.
pub fn copy_opt_names(v: &Option<Vec<String>>) -> (r: Option<Vec<String>>)
    ensures
        opt_names(r) == opt_names(*v),
{
    match v {
        Some(v) => Some(copy_names(v)),
        None => None,
    }
}

impl SpecText {
    /// A copy of the specification text.
    pub fn copy(&self) -> (r: SpecText)
        ensures
            r@ == self@,
    {
        SpecText { lines_start: self.lines_start, body: self.body.clone() }
    }
}

impl Entry {
    /// An entry that carries nothing.
    pub fn empty() -> (r: Entry)
        ensures
            r@ == (EntryView {
                code_name: None,
                code_path: None,
                code_line: None,
                code_lines: None,
                code_module: None,
                dependencies: None,
                display_name: None,
                verified: None,
                specified: None,
                spec_text: None,
            }),
    {
        Entry {
            code_name: None,
            code_path: None,
            code_line: None,
            code_lines: None,
            code_module: None,
            dependencies: None,
            display_name: None,
            verified: None,
            specified: None,
            spec_text: None,
        }
    }

    /// A copy of the entry.
    pub fn copy(&self) -> (r: Entry)
        ensures
            r@ == self@,
    {
        Entry {
            code_name: copy_opt_text(&self.code_name),
            code_path: copy_opt_text(&self.code_path),
            code_line: self.code_line,
            code_lines: self.code_lines,
            code_module: copy_opt_text(&self.code_module),
            dependencies: copy_opt_names(&self.dependencies),
            display_name: copy_opt_text(&self.display_name),
            verified: self.verified,
            specified: self.specified,
            spec_text: match &self.spec_text {
                Some(s) => Some(s.copy()),
                None => None,
            },
        }
    }
}

} // verus!
