//! Selections: which of a numbered list of candidates the user has chosen.

use crate::scan::CharClass;
use crate::scan::Piece;
use crate::scan::cut;
use crate::scan::find_char;
use crate::scan::first_index;
use crate::scan::is_whitespace;
use crate::scan::parse_decimal;
use crate::scan::parsed_decimal;
use crate::scan::pieces_within;
use crate::scan::slice;
use crate::scan::trim;
use crate::scan::trimmed;
use crate::text::chars_of;
use crate::text::str_eq;
use vstd::prelude::*;
use vstd::string::*;

verus! {

/// Whether a character divides the words of a selection: white space and
/// the comma do.
pub open spec fn is_separator(c: char) -> bool {
    is_whitespace(c) || c == ','
}

/// The words of a text, given the word that is being read: `current` holds
/// the characters of it that came before the text.
pub open spec fn words_from(s: Seq<char>, current: Seq<char>) -> Seq<Seq<char>>
    decreases s.len(),
{
    let done = if current.len() > 0 {
        seq![current]
    } else {
        Seq::empty()
    };
    if s.len() == 0 {
        done
    } else if is_separator(s[0]) {
        done + words_from(s.drop_first(), Seq::empty())
    } else {
        words_from(s.drop_first(), current.push(s[0]))
    }
}

/// The words of a selection: what stands between white space and commas.
pub open spec fn words_of(s: Seq<char>) -> Seq<Seq<char>> {
    words_from(s, Seq::empty())
}

/// Finds the words of a selection.
pub fn words(text: &Vec<char>) -> (spans: Vec<Piece>)
    ensures
        pieces_within(spans@, 0, text@.len() as int),
        cut(text@, spans@) == words_of(text@),
{
    let n = text.len();
    let mut spans: Vec<Piece> = Vec::new();
    let mut start: usize = 0;
    let mut pos: usize = 0;
    assert(text@.skip(0) =~= text@);
    assert(text@.subrange(0, 0) =~= Seq::<char>::empty());
    assert(cut(text@, spans@) =~= Seq::<Seq<char>>::empty());
    assert(Seq::<Seq<char>>::empty() + words_of(text@) =~= words_of(text@));
    while pos < n
        invariant
            start <= pos <= n,
            n == text@.len(),
            pieces_within(spans@, 0, n as int),
            words_of(text@) == cut(text@, spans@) + words_from(
                text@.skip(pos as int),
                text@.subrange(start as int, pos as int),
            ),
        decreases n - pos,
    {
        let c = text[pos];
        let ghost rest = text@.skip(pos as int);
        let ghost current = text@.subrange(start as int, pos as int);
        let ghost before = cut(text@, spans@);
        proof {
            assert(rest[0] == c);
            assert(rest.drop_first() =~= text@.skip(pos + 1));
        }
        if CharClass::Space.contains(c) || c == ',' {
            if pos > start {
                spans.push(Piece { start, end: pos });
                proof {
                    assert(cut(text@, spans@) =~= before.push(current));
                    assert(before + (seq![current] + words_from(
                        text@.skip(pos + 1),
                        Seq::empty(),
                    )) =~= before.push(current) + words_from(text@.skip(pos + 1), Seq::empty()));
                }
            } else {
                proof {
                    assert(Seq::<Seq<char>>::empty() + words_from(
                        text@.skip(pos + 1),
                        Seq::empty(),
                    ) =~= words_from(text@.skip(pos + 1), Seq::empty()));
                }
            }
            start = pos + 1;
            assert(text@.subrange(start as int, start as int) =~= Seq::<char>::empty());
        } else {
            assert(text@.subrange(start as int, pos + 1) =~= current.push(c));
        }
        pos = pos + 1;
    }
    proof {
        let current = text@.subrange(start as int, n as int);
        let before = cut(text@, spans@);
        assert(text@.skip(n as int) =~= Seq::<char>::empty());
        if start < n {
            let span = Piece { start, end: n };
            assert(cut(text@, spans@.push(span)) =~= before.push(current));
            assert(before + seq![current] =~= before.push(current));
        } else {
            assert(before + Seq::<Seq<char>>::empty() =~= before);
        }
    }
    if start < n {
        spans.push(Piece { start, end: n });
    }
    spans
}

/// The largest number that a word may denote: the largest index of the
/// machine.
pub open spec fn max_number() -> int {
    usize::MAX as int
}

/// The candidates that one word of a selection picks, as positions from 0.
///
/// A word with `-` is a range: what stands before its first `-` and what
/// stands after it are the numbers of the first and of the last candidate. Any
/// other word is the number of one candidate. Candidates are numbered from 1
/// to `count`; numbers beyond that pick nothing, nor do words that are no
/// numbers.
pub open spec fn picks_of(word: Seq<char>, count: int) -> Set<int> {
    let dash = first_index(word, '-') as int;
    if dash < word.len() {
        match (
            parsed_decimal(word.take(dash), max_number()),
            parsed_decimal(word.skip(dash + 1), max_number()),
        ) {
            (Some(first), Some(last)) => Set::new(
                |k: int| first <= k + 1 <= last && 0 <= k < count,
            ),
            _ => Set::empty(),
        }
    } else {
        match parsed_decimal(word, max_number()) {
            Some(number) => Set::new(|k: int| k + 1 == number && 0 <= k < count),
            None => Set::empty(),
        }
    }
}

/// The candidates that the first `upto` words pick.
pub open spec fn picks_among(words: Seq<Seq<char>>, count: int, upto: int) -> Set<int> {
    Set::new(|k: int| exists|i: int| 0 <= i < upto && #[trigger] picks_of(words[i], count).contains(k))
}

/// The candidates that a selection picks. `input` is the selection as the
/// user gave it, without the white space around it and in lower case.
///
/// Nothing, or the word `none`, picks no candidate; the word `all` picks all
/// of them; anything else is a list of numbers and ranges.
pub open spec fn selection(input: Seq<char>, count: int) -> Set<int> {
    if input.len() == 0 || input == "none"@ {
        Set::empty()
    } else if input == "all"@ {
        Set::new(|k: int| 0 <= k < count)
    } else {
        picks_among(words_of(input), count, words_of(input).len() as int)
    }
}

/// Whether a list of positions is in ascending order without repetition.
pub open spec fn increasing(s: Seq<usize>) -> bool {
    forall|i: int, j: int| 0 <= i < j < s.len() ==> s[i] < s[j]
}

/// The positions of a list as a set of numbers.
pub open spec fn positions(s: Seq<usize>) -> Set<int> {
    Set::new(|k: int| exists|i: int| 0 <= i < s.len() && #[trigger] s[i] == k)
}

/// Marks the candidates that one word picks.
fn mark_word(marks: &mut Vec<bool>, text: &Vec<char>, piece: Piece, Ghost(before): Ghost<Set<int>>)
    requires
        piece.start <= piece.end <= text@.len(),
        forall|k: int| 0 <= k < old(marks)@.len() ==> (old(marks)@[k] <==> before.contains(k)),
    ensures
        final(marks)@.len() == old(marks)@.len(),
        forall|k: int|
            0 <= k < final(marks)@.len() ==> (final(marks)@[k] <==> (before.contains(k) || picks_of(
                text@.subrange(piece.start as int, piece.end as int),
                old(marks)@.len() as int,
            ).contains(k))),
{
    let count = marks.len();
    let ghost word = text@.subrange(piece.start as int, piece.end as int);
    let ghost picks = picks_of(word, count as int);
    let dash = find_char(text, piece.start, piece.end, '-');
    let (first, last) = if dash < piece.end {
        proof {
            assert(word.take(dash - piece.start) =~= text@.subrange(
                piece.start as int,
                dash as int,
            ));
            assert(word.skip(dash - piece.start + 1) =~= text@.subrange(
                dash + 1,
                piece.end as int,
            ));
        }
        let a = parse_decimal(text, piece.start, dash, usize::MAX as u64);
        let b = parse_decimal(text, dash + 1, piece.end, usize::MAX as u64);
        match (a, b) {
            (Some(a), Some(b)) => (a, b),
            _ => {
                return ;
            },
        }
    } else {
        match parse_decimal(text, piece.start, piece.end, usize::MAX as u64) {
            Some(v) => (v, v),
            None => {
                return ;
            },
        }
    };
    assert(forall|k: int| picks.contains(k) <==> (first <= k + 1 <= last && 0 <= k < count));
    if first > last || last == 0 || first > count as u64 {
        return ;
    }
    let from: usize = if first == 0 {
        0
    } else {
        (first - 1) as usize
    };
    let to: usize = if last > count as u64 {
        count
    } else {
        last as usize
    };
    let mut k: usize = from;
    while k < to
        invariant
            from <= k <= to <= count,
            count == marks@.len(),
            count == old(marks)@.len(),
            piece.start <= piece.end <= text@.len(),
            picks == picks_of(
                text@.subrange(piece.start as int, piece.end as int),
                old(marks)@.len() as int,
            ),
            forall|j: int|
                #![trigger picks.contains(j)]
                0 <= j < count ==> ((from <= j < to) <==> picks.contains(j)),
            forall|j: int|
                #![trigger marks@[j]]
                0 <= j < count ==> (marks@[j] <==> (before.contains(j) || (from <= j < k))),
        decreases to - k,
    {
        marks.set(k, true);
        k = k + 1;
    }
}

/// Reads a selection. `input` is the selection without the white space
/// around it and in lower case; `count` is the number of candidates. The
/// result holds the positions of the chosen candidates, counted from 0, in
/// ascending order and each once.
pub fn select(input: &str, count: usize) -> (chosen: Vec<usize>)
    ensures
        increasing(chosen@),
        positions(chosen@) == selection(input@, count as int),
{
    let mut marks: Vec<bool> = Vec::new();
    let mut c: usize = 0;
    while c < count
        invariant
            c <= count,
            marks@.len() == c,
            forall|k: int| 0 <= k < c ==> !marks@[k],
        decreases count - c,
    {
        marks.push(false);
        c = c + 1;
    }
    let text = chars_of(input);
    let ghost wanted = selection(input@, count as int);
    if text.len() == 0 || str_eq(input, "none") {
    } else if str_eq(input, "all") {
        let mut k: usize = 0;
        while k < count
            invariant
                k <= count,
                marks@.len() == count,
                forall|j: int| 0 <= j < count ==> (marks@[j] <==> j < k),
            decreases count - k,
        {
            marks.set(k, true);
            k = k + 1;
        }
    } else {
        let spans = words(&text);
        let ghost list = words_of(input@);
        let mut i: usize = 0;
        while i < spans.len()
            invariant
                i <= spans@.len(),
                text@ == input@,
                marks@.len() == count,
                pieces_within(spans@, 0, text@.len() as int),
                cut(text@, spans@) == list,
                forall|k: int|
                    0 <= k < count ==> (marks@[k] <==> picks_among(list, count as int, i as int).contains(
                        k,
                    )),
            decreases spans@.len() - i,
        {
            let piece = spans[i];
            assert(list[i as int] == text@.subrange(piece.start as int, piece.end as int));
            let ghost before = picks_among(list, count as int, i as int);
            mark_word(&mut marks, &text, piece, Ghost(before));
            proof {
                assert forall|k: int| 0 <= k < count implies (marks@[k] <==> picks_among(
                    list,
                    count as int,
                    i + 1,
                ).contains(k)) by {
                    if picks_among(list, count as int, i + 1).contains(k) {
                        let w = choose|w: int|
                            0 <= w < i + 1 && #[trigger] picks_of(list[w], count as int).contains(k);
                        if w < i {
                            assert(before.contains(k));
                        }
                    }
                    if before.contains(k) {
                        let w = choose|w: int|
                            0 <= w < i && #[trigger] picks_of(list[w], count as int).contains(k);
                        assert(picks_of(list[w], count as int).contains(k));
                    }
                }
            }
            i = i + 1;
        }
    }
    proof {
        assert(forall|k: int| 0 <= k < count ==> (marks@[k] <==> wanted.contains(k)));
        assert forall|k: int| wanted.contains(k) implies 0 <= k < count by {
            if !(input@.len() == 0 || input@ == "none"@ || input@ == "all"@) {
                let list = words_of(input@);
                let w = choose|w: int|
                    0 <= w < list.len() && #[trigger] picks_of(list[w], count as int).contains(k);
            }
        }
    }
    let mut chosen: Vec<usize> = Vec::new();
    let mut k: usize = 0;
    while k < count
        invariant
            k <= count,
            marks@.len() == count,
            increasing(chosen@),
            forall|i: int| 0 <= i < chosen@.len() ==> chosen@[i] < k,
            forall|j: int| 0 <= j < k ==> (marks@[j] <==> positions(chosen@).contains(j)),
            forall|j: int| positions(chosen@).contains(j) ==> 0 <= j < k,
        decreases count - k,
    {
        let ghost before = chosen@;
        if marks[k] {
            chosen.push(k);
            proof {
                assert(chosen@[before.len() as int] == k);
                assert forall|j: int| 0 <= j < k + 1 implies (marks@[j] <==> positions(
                    chosen@,
                ).contains(j)) by {
                    if j < k {
                        if positions(before).contains(j) {
                            let i = choose|i: int| 0 <= i < before.len() && #[trigger] before[i] == j;
                            assert(chosen@[i] == j);
                        }
                        if positions(chosen@).contains(j) {
                            let i = choose|i: int|
                                0 <= i < chosen@.len() && #[trigger] chosen@[i] == j;
                            assert(before[i] == j);
                        }
                    }
                }
                assert forall|j: int| positions(chosen@).contains(j) implies 0 <= j < k + 1 by {
                    let i = choose|i: int| 0 <= i < chosen@.len() && #[trigger] chosen@[i] == j;
                }
            }
        } else {
            proof {
                assert forall|j: int| 0 <= j < k + 1 implies (marks@[j] <==> positions(
                    chosen@,
                ).contains(j)) by {
                    if j == k && positions(chosen@).contains(j) {
                        let i = choose|i: int|
                            0 <= i < chosen@.len() && #[trigger] chosen@[i] == j;
                    }
                }
            }
        }
        k = k + 1;
    }
    assert(positions(chosen@) =~= wanted);
    chosen
}

/// The text in lower case.
pub uninterp spec fn lowercase_of(s: Seq<char>) -> Seq<char>;

/// Calls `str::to_lowercase`.
///
/// Trusted: the result is a function of the text alone.
#[verifier::external_body]
fn to_lowercase(s: &str) -> (r: String)
    ensures
        r@ == lowercase_of(s@),
{
    s.to_lowercase()
}

/// Reads the selection that the user typed: the white space around it is
/// dropped, it is put in lower case, and then it is read as `select` says.
pub fn parse_selection(input: &str, count: usize) -> (chosen: Vec<usize>)
    ensures
        increasing(chosen@),
        positions(chosen@) == selection(
            lowercase_of(trimmed(input@, CharClass::Space)),
            count as int,
        ),
{
    let text = chars_of(input);
    let n = text.len();
    assert(text@.subrange(0, n as int) =~= text@);
    let inner = trim(&text, 0, n, CharClass::Space);
    let stripped = slice(input, inner.start, inner.end);
    let lowered = to_lowercase(stripped.as_str());
    select(lowered.as_str(), count)
}

} // verus!
