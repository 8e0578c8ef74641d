//! Atoms: what the analyser reports of each symbol.

use crate::name_set::copy_names;
use crate::name_set::names_view;
use vstd::prelude::*;

verus! {

/// The record of one analysed symbol.
///
/// The analyser's output is taken as it comes: a field that a record lacks is
/// `None` here.
#[derive(Clone, Debug, PartialEq, Eq)]
pub struct Atom {
    /// The source file of the symbol, relative to the project root.
    pub code_path: Option<String>,
    /// The first line of the symbol, counted from one.
    pub lines_start: Option<u64>,
    /// The last line of the symbol, inclusive.
    pub lines_end: Option<u64>,
    /// The module of the symbol.
    pub code_module: Option<String>,
    /// The symbols that this one depends on, in the analyser's order.
    pub dependencies: Option<Vec<String>>,
    /// The name under which the symbol is shown.
    pub display_name: Option<String>,
}

/// The text of an optional string.
pub open spec fn opt_text(s: Option<String>) -> Option<Seq<char>> {
    match s {
        Some(s) => Some(s@),
        None => None,
    }
}

/// The names of an optional list of strings.
pub open spec fn opt_names(v: Option<Vec<String>>) -> Option<Seq<Seq<char>>> {
    match v {
        Some(v) => Some(names_view(v@)),
        None => None,
    }
}

/// An atom as plain values.
pub struct AtomView {
    pub code_path: Option<Seq<char>>,
    pub lines_start: Option<u64>,
    pub lines_end: Option<u64>,
    pub code_module: Option<Seq<char>>,
    pub dependencies: Option<Seq<Seq<char>>>,
    pub display_name: Option<Seq<char>>,
}

impl View for Atom {
    type V = AtomView;

    open spec fn view(&self) -> AtomView {
        AtomView {
            code_path: opt_text(self.code_path),
            lines_start: self.lines_start,
            lines_end: self.lines_end,
            code_module: opt_text(self.code_module),
            dependencies: opt_names(self.dependencies),
            display_name: opt_text(self.display_name),
        }
    }
}

/// The atom store as plain values: the record of each symbol identifier.
pub open spec fn store_view(store: Map<Seq<char>, Atom>) -> Map<Seq<char>, AtomView> {
    store.map_values(|a: Atom| a@)
}

/// A copy of a string.
pub fn copy_text(s: &String) -> (r: String)
    ensures
        r@ == s@,
{
    s.clone()
}

/// A copy of an optional string.
pub fn copy_opt_text(s: &Option<String>) -> (r: Option<String>)
    ensures
        opt_text(r) == opt_text(*s),
{
    match s {
        Some(s) => Some(s.clone()),
        None => None,
    }
}

impl Atom {
    /// An atom that carries nothing.
    pub fn empty() -> (r: Atom)
        ensures
            r@ == (AtomView {
                code_path: None,
                lines_start: None,
                lines_end: None,
                code_module: None,
                dependencies: None,
                display_name: None,
            }),
    {
        Atom {
            code_path: None,
            lines_start: None,
            lines_end: None,
            code_module: None,
            dependencies: None,
            display_name: None,
        }
    }

    /// A copy of the atom.
    pub fn copy(&self) -> (r: Atom)
        ensures
            r@ == self@,
    {
        Atom {
            code_path: copy_opt_text(&self.code_path),
            lines_start: self.lines_start,
            lines_end: self.lines_end,
            code_module: copy_opt_text(&self.code_module),
            dependencies: match &self.dependencies {
                Some(d) => Some(copy_names(d)),
                None => None,
            },
            display_name: copy_opt_text(&self.display_name),
        }
    }
}

} // verus!
