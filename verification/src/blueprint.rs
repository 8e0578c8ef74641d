//! Blueprints: the dependency graph of the statements of a blueprint
//! project, as the blueprint tool draws it in the DOT language.

use crate::name_map::NameMap;
use crate::name_set::copy_names;
use crate::name_set::names_view;
use crate::scan::CharClass;
use crate::scan::Piece;
use crate::scan::contains_text;
use crate::scan::cut;
use crate::scan::find;
use crate::scan::find_char;
use crate::scan::first_index;
use crate::scan::first_occurrence;
use crate::scan::last_occurrence;
use crate::scan::occurs_at;
use crate::scan::parts;
use crate::scan::pieces_within;
use crate::scan::rfind;
use crate::scan::slice;
use crate::scan::split;
use crate::scan::trim;
use crate::scan::trimmed;
use crate::text::chars_of;
use crate::text::str_eq;
use vstd::prelude::*;
use vstd::string::*;

verus! {

/// A map from names to texts as plain values.
pub open spec fn texts_view(m: Map<Seq<char>, String>) -> Map<Seq<char>, Seq<char>> {
    m.map_values(|s: String| s@)
}

/// A text without the white space around it and, after that, without the
/// quotation marks around it.
pub open spec fn unquoted(s: Seq<char>) -> Seq<char> {
    trimmed(trimmed(s, CharClass::Space), CharClass::Quotes)
}

/// Takes the white space and then the quotation marks from both ends of the
/// part `from..to` of a text.
fn unquote(text: &Vec<char>, from: usize, to: usize) -> (r: Piece)
    requires
        from <= to <= text@.len(),
    ensures
        from <= r.start <= r.end <= to,
        text@.subrange(r.start as int, r.end as int) == unquoted(
            text@.subrange(from as int, to as int),
        ),
{
    let inner = trim(text, from, to, CharClass::Space);
    trim(text, inner.start, inner.end, CharClass::Quotes)
}

/// The attribute that one part of an attribute list gives: what stands
/// before its first `=` is the key, what stands after it the value. White
/// space around the part, the key and the value does not count, nor do
/// quotation marks around the value. A part without `=` gives nothing.
pub open spec fn attribute_of(part: Seq<char>) -> Option<(Seq<char>, Seq<char>)> {
    let attr = trimmed(part, CharClass::Space);
    let at = first_index(attr, '=') as int;
    if at < attr.len() {
        Some((trimmed(attr.take(at), CharClass::Space), unquoted(attr.skip(at + 1))))
    } else {
        None
    }
}

/// The attributes that the first `upto` parts of an attribute list give. Of
/// two attributes with one key the later counts.
pub open spec fn attributes_among(list: Seq<Seq<char>>, upto: int) -> Map<Seq<char>, Seq<char>>
    decreases upto,
{
    if upto <= 0 {
        Map::empty()
    } else {
        let rest = attributes_among(list, upto - 1);
        match attribute_of(list[upto - 1]) {
            Some((key, value)) => rest.insert(key, value),
            None => rest,
        }
    }
}

/// The attributes of an attribute list such as `[color=red, shape=box]`: the
/// square brackets at its ends are dropped, and commas divide what is left.
pub open spec fn attributes_of(s: Seq<char>) -> Map<Seq<char>, Seq<char>> {
    let list = parts(trimmed(s, CharClass::Brackets), ',');
    attributes_among(list, list.len() as int)
}

/// Parses an attribute list such as `[color=red, shape=box]`.
pub fn parse_attributes(attr_string: &str) -> (attrs: NameMap<String>)
    ensures
        attrs.wf(),
        texts_view(attrs@) == attributes_of(attr_string@),
{
    let text = chars_of(attr_string);
    let whole = trim(&text, 0, text.len(), CharClass::Brackets);
    assert(text@.subrange(0, text@.len() as int) =~= text@);
    let pieces = split(&text, whole.start, whole.end, ',');
    let ghost list = parts(trimmed(attr_string@, CharClass::Brackets), ',');
    let mut attrs: NameMap<String> = NameMap::new();
    let mut i: usize = 0;
    assert(texts_view(attrs@) =~= attributes_among(list, 0));
    while i < pieces.len()
        invariant
            i <= pieces@.len(),
            text@ == attr_string@,
            whole.end <= text@.len(),
            pieces_within(pieces@, whole.start as int, whole.end as int),
            cut(text@, pieces@) == list,
            attrs.wf(),
            texts_view(attrs@) == attributes_among(list, i as int),
        decreases pieces@.len() - i,
    {
        let piece = pieces[i];
        let ghost before = texts_view(attrs@);
        assert(list[i as int] == text@.subrange(piece.start as int, piece.end as int));
        let attr = trim(&text, piece.start, piece.end, CharClass::Space);
        let at = find_char(&text, attr.start, attr.end, '=');
        if at < attr.end {
            let key_piece = trim(&text, attr.start, at, CharClass::Space);
            let value_piece = unquote(&text, at + 1, attr.end);
            proof {
                let a = text@.subrange(attr.start as int, attr.end as int);
                assert(a.take(at - attr.start) =~= text@.subrange(attr.start as int, at as int));
                assert(a.skip(at - attr.start + 1) =~= text@.subrange(at + 1, attr.end as int));
            }
            let key = slice(attr_string, key_piece.start, key_piece.end);
            let value = slice(attr_string, value_piece.start, value_piece.end);
            attrs.insert(key, value);
            assert(texts_view(attrs@) =~= before.insert(key@, value@));
        }
        i = i + 1;
    }
    attrs
}

/// One statement of a blueprint.
#[derive(Clone, Debug, PartialEq, Eq)]
pub struct BlueprintNode {
    /// Whether the statement is a theorem or a definition.
    pub kind: String,
    /// The text of the statement.
    pub content: String,
    /// How far the statement is stated.
    pub type_status: String,
    /// How far the statement is proved.
    pub term_status: String,
    /// The statements that the statement of this one depends on.
    pub type_dependencies: Vec<String>,
    /// The statements that the proof of this one depends on.
    pub term_dependencies: Vec<String>,
}

/// A statement of a blueprint as plain values.
pub struct NodeView {
    pub kind: Seq<char>,
    pub content: Seq<char>,
    pub type_status: Seq<char>,
    pub term_status: Seq<char>,
    pub type_dependencies: Seq<Seq<char>>,
    pub term_dependencies: Seq<Seq<char>>,
}

impl View for BlueprintNode {
    type V = NodeView;

    open spec fn view(&self) -> NodeView {
        NodeView {
            kind: self.kind@,
            content: self.content@,
            type_status: self.type_status@,
            term_status: self.term_status@,
            type_dependencies: names_view(self.type_dependencies@),
            term_dependencies: names_view(self.term_dependencies@),
        }
    }
}

impl BlueprintNode {
    /// A copy of the statement.
    pub fn copy(&self) -> (r: BlueprintNode)
        ensures
            r@ == self@,
    {
        BlueprintNode {
            kind: self.kind.clone(),
            content: self.content.clone(),
            type_status: self.type_status.clone(),
            term_status: self.term_status.clone(),
            type_dependencies: copy_names(&self.type_dependencies),
            term_dependencies: copy_names(&self.term_dependencies),
        }
    }
}

/// The value of an attribute, if the attribute is given.
pub open spec fn attribute(attrs: Map<Seq<char>, Seq<char>>, key: Seq<char>) -> Option<Seq<char>> {
    if attrs.contains_key(key) {
        Some(attrs[key])
    } else {
        None
    }
}

/// The kind of statement that a shape stands for, if it stands for one.
pub open spec fn kind_of(shape: Option<Seq<char>>) -> Option<Seq<char>> {
    match shape {
        None => Some(Seq::empty()),
        Some(s) => if s == "ellipse"@ {
            Some("theorem"@)
        } else if s == "box"@ {
            Some("definition"@)
        } else {
            None
        },
    }
}

/// How far a statement is stated, by the colour of its border.
pub open spec fn type_status_of(color: Option<Seq<char>>) -> Seq<char> {
    match color {
        None => "unknown"@,
        Some(c) => if c == "green"@ {
            "stated"@
        } else if c == "blue"@ {
            "can-state"@
        } else if c == "#FFAA33"@ {
            "not-ready"@
        } else if c == "darkgreen"@ {
            "mathlib"@
        } else {
            "unrecognized"@
        },
    }
}

/// How far a statement is proved, by the colour of its filling.
pub open spec fn term_status_of(fillcolor: Option<Seq<char>>) -> Seq<char> {
    match fillcolor {
        None => "unknown"@,
        Some(c) => if c == "#9CEC8B"@ {
            "proved"@
        } else if c == "#B0ECA3"@ {
            "defined"@
        } else if c == "#A3D6FF"@ {
            "can-prove"@
        } else if c == "#1CAC78"@ {
            "fully-proved"@
        } else {
            "unrecognized"@
        },
    }
}

/// The statement that a node of the graph describes, with its identifier.
///
/// The identifier stands before the first `[`; the attributes stand from
/// there to the last `]`. A line without `[`, without a `]` after it, or with
/// a shape that is neither `ellipse` nor `box`, describes no statement.
pub open spec fn node_of(line: Seq<char>) -> Option<(Seq<char>, NodeView)> {
    let open = first_index(line, '[') as int;
    let close_mark = seq![']'];
    if open >= line.len() || !contains_text(line, close_mark) || last_occurrence(line, close_mark)
        < open {
        None
    } else {
        let attrs = attributes_of(line.subrange(open, last_occurrence(line, close_mark) + 1));
        match kind_of(attribute(attrs, "shape"@)) {
            None => None,
            Some(kind) => Some(
                (
                    unquoted(line.take(open)),
                    NodeView {
                        kind,
                        content: Seq::empty(),
                        type_status: type_status_of(attribute(attrs, "color"@)),
                        term_status: term_status_of(attribute(attrs, "fillcolor"@)),
                        type_dependencies: Seq::empty(),
                        term_dependencies: Seq::empty(),
                    },
                ),
            ),
        }
    }
}

/// The text of an optional string.
pub open spec fn opt_ref_text(s: Option<&String>) -> Option<Seq<char>> {
    match s {
        Some(s) => Some(s@),
        None => None,
    }
}

/// The value of an attribute.
fn attribute_value<'a>(attrs: &'a NameMap<String>, key: &str) -> (r: Option<&'a String>)
    requires
        attrs.wf(),
    ensures
        opt_ref_text(r) == attribute(texts_view(attrs@), key@),
{
    attrs.get(key)
}

/// Parses the description of a node of the graph.
pub fn parse_node_element(line: &str) -> (r: Option<(String, BlueprintNode)>)
    ensures
        r is Some <==> node_of(line@) is Some,
        r matches Some(found) ==> node_of(line@) == Some((found.0@, found.1@)),
{
    let text = chars_of(line);
    let n = text.len();
    assert(text@.subrange(0, n as int) =~= text@);
    let open = find_char(&text, 0, n, '[');
    if open >= n {
        return None;
    }
    let mut close_mark: Vec<char> = Vec::new();
    close_mark.push(']');
    assert(close_mark@ =~= seq![']']);
    let close = match rfind(&text, &close_mark) {
        Some(c) => c,
        None => {
            return None;
        },
    };
    if close < open {
        return None;
    }
    assert(occurs_at(text@, close as int, close_mark@));
    let attr_text = slice(line, open, close + 1);
    let attrs = parse_attributes(attr_text.as_str());
    let kind = match attribute_value(&attrs, "shape") {
        None => String::new(),
        Some(shape) => if str_eq(shape.as_str(), "ellipse") {
            "theorem".to_owned()
        } else if str_eq(shape.as_str(), "box") {
            "definition".to_owned()
        } else {
            return None;
        },
    };
    let type_status = match attribute_value(&attrs, "color") {
        None => "unknown".to_owned(),
        Some(c) => if str_eq(c.as_str(), "green") {
            "stated".to_owned()
        } else if str_eq(c.as_str(), "blue") {
            "can-state".to_owned()
        } else if str_eq(c.as_str(), "#FFAA33") {
            "not-ready".to_owned()
        } else if str_eq(c.as_str(), "darkgreen") {
            "mathlib".to_owned()
        } else {
            "unrecognized".to_owned()
        },
    };
    let term_status = match attribute_value(&attrs, "fillcolor") {
        None => "unknown".to_owned(),
        Some(c) => if str_eq(c.as_str(), "#9CEC8B") {
            "proved".to_owned()
        } else if str_eq(c.as_str(), "#B0ECA3") {
            "defined".to_owned()
        } else if str_eq(c.as_str(), "#A3D6FF") {
            "can-prove".to_owned()
        } else if str_eq(c.as_str(), "#1CAC78") {
            "fully-proved".to_owned()
        } else {
            "unrecognized".to_owned()
        },
    };
    let id_piece = unquote(&text, 0, open);
    assert(text@.take(open as int) =~= text@.subrange(0, open as int));
    let id = slice(line, id_piece.start, id_piece.end);
    let type_dependencies: Vec<String> = Vec::new();
    let term_dependencies: Vec<String> = Vec::new();
    assert(names_view(type_dependencies@) =~= Seq::<Seq<char>>::empty());
    assert(names_view(term_dependencies@) =~= Seq::<Seq<char>>::empty());
    Some(
        (
            id,
            BlueprintNode {
                kind,
                content: String::new(),
                type_status,
                term_status,
                type_dependencies,
                term_dependencies,
            },
        ),
    )
}

/// One edge of the graph: `source` depends on `target`.
#[derive(Clone, Debug, PartialEq, Eq)]
pub struct Edge {
    /// The statement that depends.
    pub source: String,
    /// The statement that it depends on.
    pub target: String,
    /// The attributes of the edge.
    pub attributes: NameMap<String>,
}

/// An edge as plain values: source, target, attributes.
pub type EdgeView = (Seq<char>, Seq<char>, Map<Seq<char>, Seq<char>>);

impl View for Edge {
    type V = EdgeView;

    open spec fn view(&self) -> EdgeView {
        (self.source@, self.target@, texts_view(self.attributes@))
    }
}

/// The text of the attributes of an edge: what stands from the first `[` to
/// the last `]` after it, or to the end where no `]` follows.
pub open spec fn edge_attribute_text(remaining: Seq<char>) -> Seq<char> {
    let open = first_index(remaining, '[') as int;
    let close_mark = seq![']'];
    if contains_text(remaining, close_mark) && last_occurrence(remaining, close_mark) > open {
        remaining.subrange(open, last_occurrence(remaining, close_mark) + 1)
    } else {
        remaining.skip(open)
    }
}

/// The edge that a line of the graph describes.
///
/// The source stands before the first `->`, the target after it. Attributes
/// in square brackets may follow the target. A line without `->` describes
/// no edge.
pub open spec fn edge_of(line: Seq<char>) -> Option<EdgeView> {
    let arrow = "->"@;
    if !contains_text(line, arrow) {
        None
    } else {
        let at = first_occurrence(line, arrow);
        let remaining = trimmed(line.skip(at + arrow.len()), CharClass::Space);
        let open = first_index(remaining, '[') as int;
        if open < remaining.len() {
            Some(
                (
                    unquoted(line.take(at)),
                    unquoted(remaining.take(open)),
                    attributes_of(edge_attribute_text(remaining)),
                ),
            )
        } else {
            Some(
                (unquoted(line.take(at)), trimmed(remaining, CharClass::Quotes), Map::empty()),
            )
        }
    }
}

/// Parses the description of an edge of the graph.
pub fn parse_edge_element(line: &str) -> (r: Option<Edge>)
    ensures
        r is Some <==> edge_of(line@) is Some,
        r matches Some(edge) ==> edge_of(line@) == Some(edge@),
        r matches Some(edge) ==> edge.attributes.wf(),
{
    let text = chars_of(line);
    let n = text.len();
    let arrow = chars_of("->");
    let at = match find(&text, &arrow) {
        Some(at) => at,
        None => {
            return None;
        },
    };
    assert(occurs_at(text@, at as int, arrow@));
    let source_piece = unquote(&text, 0, at);
    assert(text@.take(at as int) =~= text@.subrange(0, at as int));
    let source = slice(line, source_piece.start, source_piece.end);
    let rest = trim(&text, at + arrow.len(), n, CharClass::Space);
    assert(text@.skip(at + arrow@.len()) =~= text@.subrange(at + arrow@.len(), n as int));
    let ghost remaining = text@.subrange(rest.start as int, rest.end as int);
    let open = find_char(&text, rest.start, rest.end, '[');
    if open < rest.end {
        let target_piece = unquote(&text, rest.start, open);
        assert(remaining.take(open - rest.start) =~= text@.subrange(
            rest.start as int,
            open as int,
        ));
        let target = slice(line, target_piece.start, target_piece.end);
        let inner = slice(line, rest.start, rest.end);
        let inner_chars = chars_of(inner.as_str());
        let mut close_mark: Vec<char> = Vec::new();
        close_mark.push(']');
        assert(close_mark@ =~= seq![']']);
        let from = open - rest.start;
        let attr_text = match rfind(&inner_chars, &close_mark) {
            Some(close) => {
                assert(occurs_at(inner_chars@, close as int, close_mark@));
                if close > from {
                    slice(inner.as_str(), from, close + 1)
                } else {
                    assert(inner@.skip(from as int) =~= inner@.subrange(
                        from as int,
                        inner@.len() as int,
                    ));
                    slice(inner.as_str(), from, inner_chars.len())
                }
            },
            None => {
                assert(inner@.skip(from as int) =~= inner@.subrange(
                    from as int,
                    inner@.len() as int,
                ));
                slice(inner.as_str(), from, inner_chars.len())
            },
        };
        let attributes = parse_attributes(attr_text.as_str());
        Some(Edge { source, target, attributes })
    } else {
        let target_piece = trim(&text, rest.start, rest.end, CharClass::Quotes);
        let target = slice(line, target_piece.start, target_piece.end);
        let attributes: NameMap<String> = NameMap::new();
        assert(texts_view(attributes@) =~= Map::<Seq<char>, Seq<char>>::empty());
        Some(Edge { source, target, attributes })
    }
}

} // verus!
