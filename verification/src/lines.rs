//! The lines of a text.

use crate::scan::Piece;
use crate::scan::cut;
use crate::scan::first_index;
use crate::scan::joined_with;
use crate::scan::lemma_first_index_at;
use crate::scan::slice;
use crate::scan::spans_within;
use crate::text::chars_of;
use vstd::prelude::*;
use vstd::string::*;

verus! {

/// The line without the carriage return at its end, if it has one.
pub open spec fn without_cr(line: Seq<char>) -> Seq<char> {
    if line.len() > 0 && line.last() == '\r' {
        line.drop_last()
    } else {
        line
    }
}

/// The lines of a text. A line ends with a line feed, or with a carriage
/// return and a line feed; neither belongs to the line. The last line needs
/// no line ending, and a text that ends with a line ending has no empty line
/// after it.
pub open spec fn lines_of(s: Seq<char>) -> Seq<Seq<char>>
    decreases s.len(),
{
    if s.len() == 0 {
        Seq::empty()
    } else {
        let i = first_index(s, '\n') as int;
        if i < s.len() {
            seq![without_cr(s.take(i))] + lines_of(s.skip(i + 1))
        } else {
            seq![s]
        }
    }
}

/// Finds the lines of a text.
pub fn line_spans(text: &Vec<char>) -> (spans: Vec<Piece>)
    ensures
        spans_within(spans@, text@.len()),
        cut(text@, spans@) == lines_of(text@),
{
    let n = text.len();
    let mut spans: Vec<Piece> = Vec::new();
    let mut start: usize = 0;
    let mut pos: usize = 0;
    assert(text@.skip(0) =~= text@);
    assert(cut(text@, spans@) =~= Seq::<Seq<char>>::empty());
    while pos < n
        invariant
            start <= pos <= n,
            n == text@.len(),
            spans_within(spans@, text@.len()),
            lines_of(text@) == cut(text@, spans@) + lines_of(text@.skip(start as int)),
            forall|j: int| start <= j < pos ==> text@[j] != '\n',
        decreases n - pos,
    {
        if text[pos] == '\n' {
            let end = if pos > start && text[pos - 1] == '\r' {
                pos - 1
            } else {
                pos
            };
            proof {
                let rest = text@.skip(start as int);
                lemma_first_index_at(rest, '\n', pos - start);
                let line = rest.take(pos - start);
                assert(line =~= text@.subrange(start as int, pos as int));
                assert(without_cr(line) =~= text@.subrange(start as int, end as int));
                assert(rest.skip(pos - start + 1) =~= text@.skip(pos + 1));
                let before = cut(text@, spans@);
                let span = Piece { start, end };
                assert(cut(text@, spans@.push(span)) =~= before.push(
                    text@.subrange(start as int, end as int),
                ));
                assert(lines_of(rest) == seq![without_cr(line)] + lines_of(text@.skip(pos + 1)));
                assert(before + lines_of(rest) =~= before.push(without_cr(line)) + lines_of(
                    text@.skip(pos + 1),
                ));
            }
            spans.push(Piece { start, end });
            start = pos + 1;
        }
        pos = pos + 1;
    }
    proof {
        let rest = text@.skip(start as int);
        let before = cut(text@, spans@);
        if start < n {
            lemma_first_index_at(rest, '\n', n - start);
            assert(lines_of(rest) == seq![rest]);
            assert(rest =~= text@.subrange(start as int, n as int));
            let span = Piece { start, end: n };
            assert(cut(text@, spans@.push(span)) =~= before.push(rest));
            assert(before + seq![rest] =~= before.push(rest));
        } else {
            assert(lines_of(rest) =~= Seq::<Seq<char>>::empty());
            assert(before + lines_of(rest) =~= before);
        }
    }
    if start < n {
        spans.push(Piece { start, end: n });
    }
    spans
}

/// The lines joined into one text, with a line feed between each two.
pub open spec fn joined(lines: Seq<Seq<char>>) -> Seq<char> {
    joined_with(lines, seq!['\n'])
}

/// Joins the lines `from` up to `to` of a text by line feeds.
pub fn join_lines(source: &str, text: &Vec<char>, spans: &Vec<Piece>, from: usize, to: usize) -> (r:
    String)
    requires
        text@ == source@,
        spans_within(spans@, text@.len()),
        from <= to <= spans@.len(),
    ensures
        r@ == joined(cut(text@, spans@).subrange(from as int, to as int)),
{
    let ghost lines = cut(text@, spans@);
    let ghost wanted = lines.subrange(from as int, to as int);
    let mut out = String::new();
    let mut i: usize = from;
    proof {
        reveal_strlit("\n");
        assert("\n"@ =~= seq!['\n']);
        assert(wanted.take(0) =~= Seq::<Seq<char>>::empty());
    }
    while i < to
        invariant
            from <= i <= to <= spans@.len(),
            text@ == source@,
            spans_within(spans@, text@.len()),
            cut(text@, spans@) == lines,
            wanted == lines.subrange(from as int, to as int),
            out@ == joined(wanted.take(i - from)),
            "\n"@ == seq!['\n'],
        decreases to - i,
    {
        let span = spans[i];
        let ghost seen = wanted.take(i - from);
        let ghost next = wanted.take(i - from + 1);
        proof {
            assert(next.drop_last() =~= seen);
            assert(next.last() == lines[i as int]);
            assert(lines[i as int] == text@.subrange(span.start as int, span.end as int));
        }
        if i > from {
            out.append("\n");
        }
        let piece = slice(source, span.start, span.end);
        out.append(piece.as_str());
        proof {
            if i == from {
                assert(seen =~= Seq::<Seq<char>>::empty());
                assert(out@ =~= lines[i as int]);
            }
        }
        i = i + 1;
    }
    assert(wanted.take(to - from) =~= wanted);
    out
}

/// The lines `first` to `last` of a text, counted from one and both
/// inclusive, joined by line feeds. There are no such lines if `first` is 0,
/// if the text has fewer than `last` lines, or if `last` is less than
/// `first - 1`.
pub open spec fn extracted(source: Seq<char>, first: u64, last: u64) -> Option<Seq<char>> {
    let lines = lines_of(source);
    if first > 0 && last <= lines.len() && first - 1 <= last {
        Some(joined(lines.subrange(first - 1, last as int)))
    } else {
        None
    }
}

/// Extracts the lines `first` to `last` of a source text.
pub fn extract_lines(source: &str, first: u64, last: u64) -> (r: Option<String>)
    ensures
        r is Some <==> extracted(source@, first, last) is Some,
        r matches Some(text) ==> Some(text@) == extracted(source@, first, last),
{
    let text = chars_of(source);
    let spans = line_spans(&text);
    let count = spans.len();
    if first == 0 || last > count as u64 || first - 1 > last {
        return None;
    }
    let from = (first - 1) as usize;
    let to = last as usize;
    Some(join_lines(source, &text, &spans, from, to))
}

} // verus!
