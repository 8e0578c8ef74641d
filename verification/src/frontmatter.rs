//! Frontmatter: the metadata block at the head of a markdown file.
//!
//! The block stands between two lines `---`. Its lines are YAML; this module
//! frames and writes the block and leaves the reading of the YAML itself to
//! the caller.

use crate::atoms::opt_text;
use crate::lines::join_lines;
use crate::lines::joined;
use crate::lines::line_spans;
use crate::lines::lines_of;
use crate::name_map::NameMap;
use crate::name_set::names_view;
use crate::scan::Piece;
use crate::scan::contains_text;
use crate::scan::cut;
use crate::scan::find;
use crate::scan::find_char;
use crate::scan::first_index;
use crate::scan::first_occurrence;
use crate::scan::join;
use crate::scan::joined_with;
use crate::scan::matches_at;
use crate::scan::occurs_at;
use crate::scan::replace;
use crate::scan::replaced;
use crate::scan::slice;
use crate::scan::spans_within;
use crate::text::chars_of;
use crate::text::str_eq;
use vstd::prelude::*;
use vstd::string::*;

verus! {

/// The position of the first line `---` from line `from` on, or the number
/// of lines if there is none.
pub open spec fn first_fence(lines: Seq<Seq<char>>, from: int) -> int
    decreases lines.len() - from,
{
    if from < 0 || from >= lines.len() {
        lines.len() as int
    } else if lines[from] == "---"@ {
        from
    } else {
        first_fence(lines, from + 1)
    }
}

/// The frontmatter of a document: the lines between its first line, which
/// has to be `---`, and the next line `---`, joined by line feeds. Where no
/// second line `---` follows, all lines after the first belong to it. A
/// document that does not begin with a line `---` has no frontmatter.
pub open spec fn frontmatter_of(content: Seq<char>) -> Option<Seq<char>> {
    let lines = lines_of(content);
    if lines.len() > 0 && lines[0] == "---"@ {
        Some(joined(lines.subrange(1, first_fence(lines, 1))))
    } else {
        None
    }
}

/// Whether a piece of a text is the text `needle`.
fn piece_is(text: &Vec<char>, piece: Piece, needle: &Vec<char>) -> (b: bool)
    requires
        piece.start <= piece.end <= text@.len(),
    ensures
        b == (text@.subrange(piece.start as int, piece.end as int) == needle@),
{
    if piece.end - piece.start != needle.len() {
        return false;
    }
    matches_at(text, piece.start, needle)
}

/// Extracts the frontmatter of a markdown document.
pub fn parse_frontmatter(content: &str) -> (r: Option<String>)
    ensures
        opt_text(r) == frontmatter_of(content@),
{
    let text = chars_of(content);
    let spans = line_spans(&text);
    let fence = chars_of("---");
    let n = spans.len();
    let ghost lines = lines_of(content@);
    if n == 0 {
        return None;
    }
    assert(lines[0] == text@.subrange(spans@[0].start as int, spans@[0].end as int));
    if !piece_is(&text, spans[0], &fence) {
        return None;
    }
    let mut end: usize = 1;
    while end < n && !piece_is(&text, spans[end], &fence)
        invariant
            1 <= end <= n,
            n == spans@.len(),
            spans_within(spans@, text@.len()),
            cut(text@, spans@) == lines,
            fence@ == "---"@,
            first_fence(lines, 1) == first_fence(lines, end as int),
        decreases n - end,
    {
        assert(lines[end as int] == text@.subrange(
            spans@[end as int].start as int,
            spans@[end as int].end as int,
        ));
        end = end + 1;
    }
    proof {
        if end < n {
            assert(lines[end as int] == text@.subrange(
                spans@[end as int].start as int,
                spans@[end as int].end as int,
            ));
        }
        assert(first_fence(lines, end as int) == end);
    }
    Some(join_lines(content, &text, &spans, 1, end))
}

/// The body of a document that is kept when its frontmatter is written
/// anew: what follows the second `---` that stands on a line of its own
/// between two line feeds. A document with fewer than two such lines keeps
/// no body.
pub open spec fn kept_body(content: Seq<char>) -> Option<Seq<char>> {
    let fence = "\n---\n"@;
    if !contains_text(content, fence) {
        None
    } else {
        let rest = content.skip(first_occurrence(content, fence) + fence.len());
        if !contains_text(rest, fence) {
            None
        } else {
            Some(rest.skip(first_occurrence(rest, fence) + fence.len()))
        }
    }
}

/// Extracts the body of a document that is kept when its frontmatter is
/// written anew.
pub fn body_after_frontmatter(content: &str) -> (r: Option<String>)
    ensures
        opt_text(r) == kept_body(content@),
{
    let text = chars_of(content);
    let fence = chars_of("\n---\n");
    let n = text.len();
    let first = match find(&text, &fence) {
        Some(i) => i,
        None => {
            return None;
        },
    };
    assert(occurs_at(text@, first as int, fence@));
    let from = first + fence.len();
    let rest_text = slice(content, from, n);
    assert(content@.skip(from as int) =~= content@.subrange(from as int, n as int));
    let rest = chars_of(rest_text.as_str());
    let second = match find(&rest, &fence) {
        Some(j) => j,
        None => {
            return None;
        },
    };
    assert(occurs_at(rest@, second as int, fence@));
    let m = rest.len();
    assert(rest@.skip(second + fence@.len()) =~= rest@.subrange(
        second + fence@.len(),
        m as int,
    ));
    Some(slice(rest_text.as_str(), second + fence.len(), m))
}

/// A value of the metadata of a document.
#[derive(Debug)]
pub enum MetaValue {
    /// No value.
    Null,
    /// A truth value.
    Bool(bool),
    /// A number, as it is written.
    Number(String),
    /// A text.
    Text(String),
    /// A list of values.
    List(Vec<MetaValue>),
    /// A value with fields of its own.
    Object,
}

/// A value of the metadata as plain values.
pub enum MetaView {
    Null,
    Bool(bool),
    Number(Seq<char>),
    Text(Seq<char>),
    List(Seq<MetaView>),
    Object,
}

impl View for MetaValue {
    type V = MetaView;

    open spec fn view(&self) -> MetaView
        decreases self,
    {
        match self {
            MetaValue::Null => MetaView::Null,
            MetaValue::Bool(b) => MetaView::Bool(*b),
            MetaValue::Number(n) => MetaView::Number(n@),
            MetaValue::Text(s) => MetaView::Text(s@),
            MetaValue::List(items) => MetaView::List(
                Seq::new(
                    items@.len(),
                    |i: int|
                        if 0 <= i < items@.len() {
                            items@[i]@
                        } else {
                            MetaView::Null
                        },
                ),
            ),
            MetaValue::Object => MetaView::Object,
        }
    }
}

/// Whether a character at the start of a text makes YAML read the text as
/// something other than a plain text.
pub open spec fn is_indicator(c: char) -> bool {
    c == '{' || c == '[' || c == '\'' || c == '"' || c == '|' || c == '>' || c == '*' || c == '&'
        || c == '!'
}

/// Whether a text has to be written in quotation marks: it is empty, it is a
/// word of YAML, it begins with an indicator, or it holds a colon, a hash or
/// a line feed.
pub open spec fn needs_quotes(s: Seq<char>) -> bool {
    ||| s.len() == 0
    ||| s == "null"@
    ||| s == "true"@
    ||| s == "false"@
    ||| s == "~"@
    ||| is_indicator(s[0])
    ||| first_index(s, ':') < s.len()
    ||| first_index(s, '#') < s.len()
    ||| first_index(s, '\n') < s.len()
}

/// A text with its backslashes, quotation marks and line feeds escaped.
pub open spec fn escaped_text(s: Seq<char>) -> Seq<char> {
    replaced(replaced(replaced(s, "\\"@, "\\\\"@), "\""@, "\\\""@), "\n"@, "\\n"@)
}

/// A text as a YAML scalar.
pub open spec fn formatted_text(s: Seq<char>) -> Seq<char> {
    if needs_quotes(s) {
        "\""@ + escaped_text(s) + "\""@
    } else {
        s
    }
}

/// The first `upto` values of a list as YAML scalars, if each of them can be
/// written as one.
pub open spec fn formatted_items(items: Seq<MetaView>, upto: int) -> Option<Seq<Seq<char>>>
    decreases items, upto,
{
    if upto <= 0 || upto > items.len() {
        Some(Seq::empty())
    } else {
        match formatted_items(items, upto - 1) {
            None => None,
            Some(texts) => match formatted(items[upto - 1]) {
                None => None,
                Some(text) => Some(texts.push(text)),
            },
        }
    }
}

/// A value as a YAML scalar. A list is written in square brackets with `, `
/// between its values. A value with fields of its own cannot be written,
/// nor can a list that holds one.
pub open spec fn formatted(value: MetaView) -> Option<Seq<char>>
    decreases value,
{
    match value {
        MetaView::Null => Some("null"@),
        MetaView::Bool(b) => Some(
            if b {
                "true"@
            } else {
                "false"@
            },
        ),
        MetaView::Number(n) => Some(n),
        MetaView::Text(s) => Some(formatted_text(s)),
        MetaView::List(items) => match formatted_items(items, items.len() as int) {
            Some(texts) => Some("["@ + joined_with(texts, ", "@) + "]"@),
            None => None,
        },
        MetaView::Object => None,
    }
}

/// Whether a text has to be written in quotation marks.
fn text_needs_quotes(s: &str) -> (b: bool)
    ensures
        b == needs_quotes(s@),
{
    let chars = chars_of(s);
    let n = chars.len();
    if n == 0 {
        return true;
    }
    if str_eq(s, "null") || str_eq(s, "true") || str_eq(s, "false") || str_eq(s, "~") {
        return true;
    }
    let c = chars[0];
    if c == '{' || c == '[' || c == '\'' || c == '"' || c == '|' || c == '>' || c == '*' || c
        == '&' || c == '!' {
        return true;
    }
    assert(chars@.subrange(0, n as int) =~= chars@);
    find_char(&chars, 0, n, ':') < n || find_char(
        &chars,
        0,
        n,
        '#',
    ) < n || find_char(&chars, 0, n, '\n') < n
}

/// Writes a text as a YAML scalar.
fn format_text(s: &str) -> (r: String)
    ensures
        r@ == formatted_text(s@),
{
    if text_needs_quotes(s) {
        let a = replace(s, "\\", "\\\\");
        let b = replace(a.as_str(), "\"", "\\\"");
        let c = replace(b.as_str(), "\n", "\\n");
        let mut out = "\"".to_owned();
        out.append(c.as_str());
        out.append("\"");
        out
    } else {
        s.to_owned()
    }
}

/// Writes a value of the metadata as a YAML scalar. The result is `None` for
/// a value that cannot be written as one.
pub fn format_yaml_value(value: &MetaValue) -> (r: Option<String>)
    ensures
        opt_text(r) == formatted(value@),
    decreases value,
{
    match value {
        MetaValue::Null => Some("null".to_owned()),
        MetaValue::Bool(b) => Some(
            if *b {
                "true".to_owned()
            } else {
                "false".to_owned()
            },
        ),
        MetaValue::Number(n) => Some(n.clone()),
        MetaValue::Text(s) => Some(format_text(s.as_str())),
        MetaValue::List(items) => {
            let ghost views = value@->List_0;
            let mut texts: Vec<String> = Vec::new();
            let mut i: usize = 0;
            assert(names_view(texts@) =~= Seq::<Seq<char>>::empty());
            while i < items.len()
                invariant
                    i <= items@.len(),
                    value == MetaValue::List(*items),
                    views == value@->List_0,
                    views.len() == items@.len(),
                    formatted_items(views, i as int) == Some(names_view(texts@)),
                decreases items@.len() - i,
            {
                let ghost before = names_view(texts@);
                assert(views[i as int] == items@[i as int]@);
                match format_yaml_value(&items[i]) {
                    Some(text) => {
                        texts.push(text);
                        assert(names_view(texts@) =~= before.push(text@));
                    },
                    None => {
                        proof {
                            lemma_unwritable_stays(views, i + 1, items@.len() as int);
                        }
                        return None;
                    },
                }
                i = i + 1;
            }
            let mut out = "[".to_owned();
            let inner = join(&texts, ", ");
            out.append(inner.as_str());
            out.append("]");
            Some(out)
        },
        MetaValue::Object => None,
    }
}

/// A list with a value that cannot be written cannot be written, whatever
/// follows that value.
pub proof fn lemma_unwritable_stays(items: Seq<MetaView>, at: int, upto: int)
    requires
        0 <= at <= upto <= items.len(),
        formatted_items(items, at) is None,
    ensures
        formatted_items(items, upto) is None,
    decreases upto - at,
{
    if at < upto {
        lemma_unwritable_stays(items, at, upto - 1);
    }
}

/// The lines of the metadata of the first `upto` keys: for each key a line
/// with the key, `: ` and the value as a YAML scalar. There are none if one
/// of the values cannot be written.
pub open spec fn metadata_lines(keys: Seq<Seq<char>>, values: Seq<MetaValue>, upto: int) -> Option<
    Seq<char>,
>
    decreases upto,
{
    if upto <= 0 {
        Some(Seq::empty())
    } else {
        match metadata_lines(keys, values, upto - 1) {
            None => None,
            Some(lines) => match formatted(values[upto - 1]@) {
                None => None,
                Some(text) => Some(lines + keys[upto - 1] + ": "@ + text + "\n"@),
            },
        }
    }
}

/// The body of a document as it is written after the frontmatter: the body
/// and a line feed, or nothing.
pub open spec fn body_lines(body: Option<Seq<char>>) -> Seq<char> {
    match body {
        Some(b) => b + "\n"@,
        None => Seq::empty(),
    }
}

/// A markdown document with frontmatter: a line `---`, the lines of the
/// metadata in the order of their keys, a line `---`, an empty line, and the
/// body.
pub open spec fn document_of(
    keys: Seq<Seq<char>>,
    values: Seq<MetaValue>,
    body: Option<Seq<char>>,
) -> Option<Seq<char>> {
    match metadata_lines(keys, values, keys.len() as int) {
        None => None,
        Some(lines) => Some("---\n"@ + lines + "---\n"@ + "\n"@ + body_lines(body)),
    }
}

/// A part of the metadata that cannot be written stays so.
pub proof fn lemma_unwritable_lines_stay(
    keys: Seq<Seq<char>>,
    values: Seq<MetaValue>,
    at: int,
    upto: int,
)
    requires
        0 <= at <= upto,
        metadata_lines(keys, values, at) is None,
    ensures
        metadata_lines(keys, values, upto) is None,
    decreases upto - at,
{
    if at < upto {
        lemma_unwritable_lines_stay(keys, values, at, upto - 1);
    }
}

/// Writes a markdown document with frontmatter. The result is `None` if a
/// value of the metadata cannot be written as a YAML scalar.
pub fn write_frontmatter_file(metadata: &NameMap<MetaValue>, body: &Option<String>) -> (r: Option<
    String,
>)
    requires
        metadata.wf(),
    ensures
        opt_text(r) == document_of(
            metadata.keys(),
            metadata.values(),
            opt_text(*body),
        ),
{
    let ghost keys = metadata.keys();
    let ghost values = metadata.values();
    let mut lines = String::new();
    let mut i: usize = 0;
    while i < metadata.len()
        invariant
            i <= keys.len(),
            metadata.wf(),
            keys == metadata.keys(),
            values == metadata.values(),
            metadata_lines(keys, values, i as int) == Some(lines@),
        decreases keys.len() - i,
    {
        match format_yaml_value(metadata.value_at(i)) {
            Some(text) => {
                lines.append(metadata.key_at(i).as_str());
                lines.append(": ");
                lines.append(text.as_str());
                lines.append("\n");
            },
            None => {
                proof {
                    lemma_unwritable_lines_stay(keys, values, i + 1, keys.len() as int);
                }
                return None;
            },
        }
        i = i + 1;
    }
    let mut out = "---\n".to_owned();
    out.append(lines.as_str());
    out.append("---\n");
    out.append("\n");
    match body {
        Some(b) => {
            out.append(b.as_str());
            out.append("\n");
        },
        None => {
            assert(out@ + Seq::<char>::empty() =~= out@);
        },
    }
    Some(out)
}

} // verus!
