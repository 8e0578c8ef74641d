//! Searching in texts.
//!
//! A text is handled as the sequence of its characters; positions count
//! characters, not bytes.

use crate::name_set::names_view;
use crate::text::chars_of;
use vstd::prelude::*;
use vstd::string::*;

verus! {

/// Whether `needle` stands in `hay` at position `at`.
pub open spec fn occurs_at(hay: Seq<char>, at: int, needle: Seq<char>) -> bool {
    &&& 0 <= at
    &&& at + needle.len() <= hay.len()
    &&& hay.subrange(at, at + needle.len()) == needle
}

/// Whether `needle` stands somewhere in `hay`.
pub open spec fn contains_text(hay: Seq<char>, needle: Seq<char>) -> bool {
    exists|i: int| occurs_at(hay, i, needle)
}

/// Whether `at` is the first position at which `needle` stands in `hay`.
pub open spec fn is_first_occurrence(hay: Seq<char>, needle: Seq<char>, at: int) -> bool {
    &&& occurs_at(hay, at, needle)
    &&& forall|j: int| 0 <= j < at ==> !occurs_at(hay, j, needle)
}

/// Whether `at` is the last position at which `needle` stands in `hay`.
pub open spec fn is_last_occurrence(hay: Seq<char>, needle: Seq<char>, at: int) -> bool {
    &&& occurs_at(hay, at, needle)
    &&& forall|j: int| at < j ==> !occurs_at(hay, j, needle)
}

/// The first position at which `needle` stands in `hay`, where it stands in
/// it at all.
pub open spec fn first_occurrence(hay: Seq<char>, needle: Seq<char>) -> int {
    choose|at: int| is_first_occurrence(hay, needle, at)
}

/// The last position at which `needle` stands in `hay`, where it stands in
/// it at all.
pub open spec fn last_occurrence(hay: Seq<char>, needle: Seq<char>) -> int {
    choose|at: int| is_last_occurrence(hay, needle, at)
}

/// There is only one first position.
pub proof fn lemma_first_occurrence(hay: Seq<char>, needle: Seq<char>, at: int)
    requires
        is_first_occurrence(hay, needle, at),
    ensures
        first_occurrence(hay, needle) == at,
        contains_text(hay, needle),
{
    let c = first_occurrence(hay, needle);
    assert(is_first_occurrence(hay, needle, c));
    if c < at {
        assert(!occurs_at(hay, c, needle));
    }
    if at < c {
        assert(!occurs_at(hay, at, needle));
    }
}

/// There is only one last position.
pub proof fn lemma_last_occurrence(hay: Seq<char>, needle: Seq<char>, at: int)
    requires
        is_last_occurrence(hay, needle, at),
    ensures
        last_occurrence(hay, needle) == at,
        contains_text(hay, needle),
{
    let c = last_occurrence(hay, needle);
    assert(is_last_occurrence(hay, needle, c));
    if c < at {
        assert(!occurs_at(hay, at, needle));
    }
    if at < c {
        assert(!occurs_at(hay, c, needle));
    }
}

/// Whether `needle` stands in `hay` at position `at`.
pub fn matches_at(hay: &Vec<char>, at: usize, needle: &Vec<char>) -> (b: bool)
    ensures
        b == occurs_at(hay@, at as int, needle@),
{
    let n = hay.len();
    let m = needle.len();
    if at > n || m > n - at {
        return false;
    }
    let mut k: usize = 0;
    while k < m
        invariant
            k <= m,
            m == needle@.len(),
            n == hay@.len(),
            at + m <= n,
            forall|j: int| 0 <= j < k ==> hay@[at + j] == needle@[j],
        decreases m - k,
    {
        if hay[at + k] != needle[k] {
            proof {
                if occurs_at(hay@, at as int, needle@) {
                    assert(hay@.subrange(at as int, at + m)[k as int] == needle@[k as int]);
                }
            }
            return false;
        }
        k = k + 1;
    }
    assert(hay@.subrange(at as int, at + m) =~= needle@);
    true
}

/// The first position at which `needle` stands in `hay`.
pub fn find(hay: &Vec<char>, needle: &Vec<char>) -> (r: Option<usize>)
    ensures
        r is Some <==> contains_text(hay@, needle@),
        r matches Some(at) ==> is_first_occurrence(hay@, needle@, at as int) && at
            == first_occurrence(hay@, needle@),
{
    let n = hay.len();
    let m = needle.len();
    if m > n {
        return None;
    }
    let last = n - m;
    let mut i: usize = 0;
    loop
        invariant
            n == hay@.len(),
            m == needle@.len(),
            last == n - m,
            i <= last,
            forall|j: int| 0 <= j < i ==> !occurs_at(hay@, j, needle@),
        decreases last - i,
    {
        if matches_at(hay, i, needle) {
            proof {
                lemma_first_occurrence(hay@, needle@, i as int);
            }
            return Some(i);
        }
        if i == last {
            return None;
        }
        i = i + 1;
    }
}

/// The last position at which `needle` stands in `hay`.
pub fn rfind(hay: &Vec<char>, needle: &Vec<char>) -> (r: Option<usize>)
    ensures
        r is Some <==> contains_text(hay@, needle@),
        r matches Some(at) ==> is_last_occurrence(hay@, needle@, at as int) && at
            == last_occurrence(hay@, needle@),
{
    let n = hay.len();
    let m = needle.len();
    if m > n {
        return None;
    }
    let mut i: usize = n - m;
    loop
        invariant
            n == hay@.len(),
            m == needle@.len(),
            i <= n - m,
            forall|j: int| i < j ==> !occurs_at(hay@, j, needle@),
        decreases i,
    {
        if matches_at(hay, i, needle) {
            proof {
                lemma_last_occurrence(hay@, needle@, i as int);
            }
            return Some(i);
        }
        if i == 0 {
            return None;
        }
        i = i - 1;
    }
}

/// Whether `s` begins with `prefix`.
pub fn starts_with(s: &Vec<char>, prefix: &Vec<char>) -> (b: bool)
    ensures
        b == prefix@.is_prefix_of(s@),
{
    let b = matches_at(s, 0, prefix);
    proof {
        if prefix@.len() <= s@.len() {
            assert(s@.subrange(0, 0int + prefix@.len()) == s@.subrange(0, prefix@.len() as int));
        }
    }
    b
}

/// Whether `s` ends with `suffix`.
pub fn ends_with(s: &Vec<char>, suffix: &Vec<char>) -> (b: bool)
    ensures
        b == suffix@.is_suffix_of(s@),
{
    if suffix.len() > s.len() {
        return false;
    }
    let at = s.len() - suffix.len();
    let b = matches_at(s, at, suffix);
    proof {
        assert(s@.subrange(at as int, at + suffix@.len()) == s@.subrange(
            s@.len() - suffix@.len(),
            s@.len() as int,
        ));
    }
    b
}

/// The part of a string from character `from` up to character `to`.
pub fn slice(s: &str, from: usize, to: usize) -> (r: String)
    requires
        from <= to <= s@.len(),
    ensures
        r@ == s@.subrange(from as int, to as int),
{
    s.substring_char(from, to).to_owned()
}

/// The value of a decimal digit.
pub open spec fn digit_value(c: char) -> int {
    c as int - '0' as int
}

/// Whether a character is a decimal digit.
pub open spec fn is_digit(c: char) -> bool {
    '0' <= c <= '9'
}

/// The number that a sequence of decimal digits denotes.
pub open spec fn decimal_value(digits: Seq<char>) -> int
    decreases digits.len(),
{
    if digits.len() == 0 {
        0
    } else {
        decimal_value(digits.drop_last()) * 10 + digit_value(digits.last())
    }
}

/// Whether every character of a text is a decimal digit.
pub open spec fn all_digits(s: Seq<char>) -> bool {
    forall|i: int| 0 <= i < s.len() ==> is_digit(#[trigger] s[i])
}

/// The digits of a decimal numeral: what follows its sign, if it has one.
pub open spec fn numeral_digits(s: Seq<char>) -> Seq<char> {
    if s.len() > 0 && s[0] == '+' {
        s.drop_first()
    } else {
        s
    }
}

/// The 32-bit number that a text denotes: the text is a decimal numeral, that
/// is one or more decimal digits, before which a `+` may stand, and its value
/// is below 2^32. Any other text denotes no number.
pub open spec fn parsed_u32(s: Seq<char>) -> Option<u32> {
    let digits = numeral_digits(s);
    if digits.len() > 0 && all_digits(digits) && decimal_value(digits) <= u32::MAX {
        Some(decimal_value(digits) as u32)
    } else {
        None
    }
}

/// The value of a numeral does not get smaller when digits are appended.
pub proof fn lemma_decimal_value_grows(digits: Seq<char>, k: int)
    requires
        all_digits(digits),
        0 <= k <= digits.len(),
    ensures
        0 <= decimal_value(digits.take(k)) <= decimal_value(digits),
    decreases digits.len() - k,
{
    if k == digits.len() {
        assert(digits.take(k) =~= digits);
        lemma_decimal_value_nonnegative(digits);
    } else {
        lemma_decimal_value_grows(digits, k + 1);
        let longer = digits.take(k + 1);
        assert(longer.drop_last() =~= digits.take(k));
        assert(is_digit(digits[k]));
        assert(longer.last() == digits[k]);
        lemma_decimal_value_nonnegative(digits.take(k));
    }
}

/// The value of a numeral is not negative.
pub proof fn lemma_decimal_value_nonnegative(digits: Seq<char>)
    requires
        all_digits(digits),
    ensures
        0 <= decimal_value(digits),
    decreases digits.len(),
{
    if digits.len() > 0 {
        assert(all_digits(digits.drop_last())) by {
            assert forall|i: int| 0 <= i < digits.drop_last().len() implies is_digit(
                #[trigger] digits.drop_last()[i],
            ) by {
                assert(is_digit(digits[i]));
            }
        }
        lemma_decimal_value_nonnegative(digits.drop_last());
        assert(is_digit(digits.last()));
    }
}

/// The number that a text denotes, if the text is a decimal numeral and its
/// value is at most `max`.
pub open spec fn parsed_decimal(s: Seq<char>, max: int) -> Option<int> {
    let digits = numeral_digits(s);
    if digits.len() > 0 && all_digits(digits) && decimal_value(digits) <= max {
        Some(decimal_value(digits))
    } else {
        None
    }
}

/// The number of an optional 64-bit value.
pub open spec fn opt_int(v: Option<u64>) -> Option<int> {
    match v {
        Some(v) => Some(v as int),
        None => None,
    }
}

/// Reads the characters from `from` up to `to` as a decimal numeral whose
/// value is at most `max`.
pub fn parse_decimal(s: &Vec<char>, from: usize, to: usize, max: u64) -> (r: Option<u64>)
    requires
        from <= to <= s@.len(),
    ensures
        opt_int(r) == parsed_decimal(s@.subrange(from as int, to as int), max as int),
{
    let n = to;
    let ghost text = s@.subrange(from as int, n as int);
    let mut i: usize = from;
    if i < n && s[i] == '+' {
        i = i + 1;
    }
    let start = i;
    let ghost digits = numeral_digits(text);
    assert(digits =~= s@.subrange(start as int, n as int)) by {
        if from < n {
            assert(text[0] == s@[from as int]);
        }
    }
    if start == n {
        return None;
    }
    let mut value: u128 = 0;
    while i < n
        invariant
            from <= start <= i <= n <= s@.len(),
            start < n,
            n == to,
            text == s@.subrange(from as int, n as int),
            digits == numeral_digits(text),
            digits == s@.subrange(start as int, n as int),
            all_digits(digits.take(i - start)),
            value == decimal_value(digits.take(i - start)),
            value <= max,
        decreases n - i,
    {
        let c = s[i];
        let ghost seen = digits.take(i - start);
        let ghost next = digits.take(i - start + 1);
        proof {
            assert(next.drop_last() =~= seen);
            assert(next.last() == c);
            assert(digits[i - start] == c);
        }
        if c < '0' || c > '9' {
            assert(!all_digits(digits));
            return None;
        }
        let d: u128 = (c as u32 - '0' as u32) as u128;
        assert(d == digit_value(c));
        value = value * 10 + d;
        proof {
            assert(all_digits(next)) by {
                assert forall|k: int| 0 <= k < next.len() implies is_digit(#[trigger] next[k]) by {
                    if k < seen.len() {
                        assert(seen[k] == next[k]);
                    }
                }
            }
        }
        if value > max as u128 {
            proof {
                if all_digits(digits) {
                    lemma_decimal_value_grows(digits, i - start + 1);
                }
            }
            return None;
        }
        i = i + 1;
    }
    assert(digits.take(n - start) =~= digits);
    Some(value as u64)
}

/// Reads the characters from `from` on as a 32-bit decimal numeral.
pub fn parse_u32(s: &Vec<char>, from: usize) -> (r: Option<u32>)
    requires
        from <= s@.len(),
    ensures
        r == parsed_u32(s@.subrange(from as int, s@.len() as int)),
{
    match parse_decimal(s, from, s.len(), 0xffff_ffff) {
        Some(v) => Some(v as u32),
        None => None,
    }
}

/// The number of characters before the first `c` of a text, or the length
/// of the text if `c` does not stand in it.
pub open spec fn first_index(s: Seq<char>, c: char) -> nat
    decreases s.len(),
{
    if s.len() == 0 || s[0] == c {
        0
    } else {
        1 + first_index(s.drop_first(), c)
    }
}

/// The first `c` of a text stands where `first_index` says, and no `c`
/// stands before it.
pub proof fn lemma_first_index(s: Seq<char>, c: char)
    ensures
        first_index(s, c) <= s.len(),
        first_index(s, c) < s.len() ==> s[first_index(s, c) as int] == c,
        forall|j: int| 0 <= j < first_index(s, c) ==> s[j] != c,
    decreases s.len(),
{
    if s.len() == 0 || s[0] == c {
    } else {
        lemma_first_index(s.drop_first(), c);
        assert forall|j: int| 0 <= j < first_index(s, c) implies s[j] != c by {
            if j > 0 {
                assert(s.drop_first()[j - 1] == s[j]);
            }
        }
    }
}

/// A position that holds `c`, before which no `c` stands, is the position of
/// the first `c`; so is the end of a text without `c`.
pub proof fn lemma_first_index_at(s: Seq<char>, c: char, at: int)
    requires
        0 <= at <= s.len(),
        at < s.len() ==> s[at] == c,
        forall|j: int| 0 <= j < at ==> s[j] != c,
    ensures
        first_index(s, c) == at,
{
    lemma_first_index(s, c);
    let f = first_index(s, c) as int;
    if f < at {
        assert(s[f] == c);
    }
    if at < f {
        assert(s[at] != c);
    }
}

/// The position of the first `c` in the part `from..to` of a text, or `to`
/// if `c` does not stand in that part.
pub fn find_char(text: &Vec<char>, from: usize, to: usize, c: char) -> (at: usize)
    requires
        from <= to <= text@.len(),
    ensures
        from <= at <= to,
        at - from == first_index(text@.subrange(from as int, to as int), c),
{
    let mut at: usize = from;
    while at < to && text[at] != c
        invariant
            from <= at <= to <= text@.len(),
            forall|j: int| from <= j < at ==> text@[j] != c,
        decreases to - at,
    {
        at = at + 1;
    }
    proof {
        let part = text@.subrange(from as int, to as int);
        assert forall|j: int| 0 <= j < at - from implies part[j] != c by {
            assert(part[j] == text@[from + j]);
        }
        if at < to {
            assert(part[at - from] == text@[at as int]);
        }
        lemma_first_index_at(part, c, at - from);
    }
    at
}

/// Where in a text a piece of it stands: from `start` up to `end`.
#[derive(Clone, Copy, Debug, PartialEq, Eq, Structural)]
pub struct Piece {
    /// The position of the first character of the piece.
    pub start: usize,
    /// The position after the last character of the piece.
    pub end: usize,
}

/// The texts that a list of pieces cuts out of a text.
pub open spec fn cut(text: Seq<char>, spans: Seq<Piece>) -> Seq<Seq<char>> {
    Seq::new(spans.len(), |i: int| text.subrange(spans[i].start as int, spans[i].end as int))
}

/// Whether every piece lies within `from..to`.
pub open spec fn pieces_within(spans: Seq<Piece>, from: int, to: int) -> bool {
    forall|i: int| 0 <= i < spans.len() ==> from <= (#[trigger] spans[i]).start <= spans[i].end <= to
}

/// Whether every piece lies within a text of the given length.
pub open spec fn spans_within(spans: Seq<Piece>, len: nat) -> bool {
    pieces_within(spans, 0, len as int)
}

/// The parts into which the character `c` divides a text. A text without `c`
/// is one part; so is the empty text.
pub open spec fn parts(s: Seq<char>, c: char) -> Seq<Seq<char>>
    decreases s.len(),
{
    let i = first_index(s, c) as int;
    if i < s.len() {
        seq![s.take(i)] + parts(s.skip(i + 1), c)
    } else {
        seq![s]
    }
}

/// Divides the part `from..to` of a text at every `c`.
pub fn split(text: &Vec<char>, from: usize, to: usize, c: char) -> (spans: Vec<Piece>)
    requires
        from <= to <= text@.len(),
    ensures
        pieces_within(spans@, from as int, to as int),
        cut(text@, spans@) == parts(text@.subrange(from as int, to as int), c),
{
    let ghost whole = text@.subrange(from as int, to as int);
    let mut spans: Vec<Piece> = Vec::new();
    let mut start: usize = from;
    let mut pos: usize = from;
    assert(whole.skip(0) =~= whole);
    assert(cut(text@, spans@) =~= Seq::<Seq<char>>::empty());
    while pos < to
        invariant
            from <= start <= pos <= to <= text@.len(),
            whole == text@.subrange(from as int, to as int),
            pieces_within(spans@, from as int, to as int),
            parts(whole, c) == cut(text@, spans@) + parts(whole.skip(start - from), c),
            forall|j: int| start <= j < pos ==> text@[j] != c,
        decreases to - pos,
    {
        if text[pos] == c {
            proof {
                let rest = whole.skip(start - from);
                assert forall|j: int| 0 <= j < pos - start implies rest[j] != c by {
                    assert(rest[j] == text@[start + j]);
                }
                assert(rest[pos - start] == text@[pos as int]);
                lemma_first_index_at(rest, c, pos - start);
                let part = rest.take(pos - start);
                assert(part =~= text@.subrange(start as int, pos as int));
                assert(rest.skip(pos - start + 1) =~= whole.skip(pos + 1 - from));
                let before = cut(text@, spans@);
                let span = Piece { start, end: pos };
                assert(cut(text@, spans@.push(span)) =~= before.push(part));
                assert(before + (seq![part] + parts(whole.skip(pos + 1 - from), c)) =~= before.push(
                    part,
                ) + parts(whole.skip(pos + 1 - from), c));
            }
            spans.push(Piece { start, end: pos });
            start = pos + 1;
        }
        pos = pos + 1;
    }
    proof {
        let rest = whole.skip(start - from);
        assert forall|j: int| 0 <= j < to - start implies rest[j] != c by {
            assert(rest[j] == text@[start + j]);
        }
        lemma_first_index_at(rest, c, to - start);
        assert(rest =~= text@.subrange(start as int, to as int));
        let before = cut(text@, spans@);
        let span = Piece { start, end: to };
        assert(cut(text@, spans@.push(span)) =~= before.push(rest));
        assert(before + seq![rest] =~= before.push(rest));
    }
    spans.push(Piece { start, end: to });
    spans
}

/// A set of characters that are trimmed from the ends of a text.
#[derive(Clone, Copy, Debug, PartialEq, Eq, Structural)]
pub enum CharClass {
    /// The white space of Unicode.
    Space,
    /// The square brackets `[` and `]`.
    Brackets,
    /// The quotation marks `"` and `'`.
    Quotes,
}

/// Whether a character is white space: a character with the Unicode property
/// `White_Space`.
pub open spec fn is_whitespace(c: char) -> bool {
    ||| '\u{9}' <= c <= '\u{d}'
    ||| c == ' '
    ||| c == '\u{85}'
    ||| c == '\u{a0}'
    ||| c == '\u{1680}'
    ||| '\u{2000}' <= c <= '\u{200a}'
    ||| c == '\u{2028}'
    ||| c == '\u{2029}'
    ||| c == '\u{202f}'
    ||| c == '\u{205f}'
    ||| c == '\u{3000}'
}

impl CharClass {
    /// Whether a character belongs to the class.
    pub open spec fn has(self, c: char) -> bool {
        match self {
            CharClass::Space => is_whitespace(c),
            CharClass::Brackets => c == '[' || c == ']',
            CharClass::Quotes => c == '"' || c == '\'',
        }
    }

    /// Whether a character belongs to the class.
    pub fn contains(self, c: char) -> (b: bool)
        ensures
            b == self.has(c),
    {
        match self {
            CharClass::Space => ('\u{9}' <= c && c <= '\u{d}') || c == ' ' || c == '\u{85}' || c
                == '\u{a0}' || c == '\u{1680}' || ('\u{2000}' <= c && c <= '\u{200a}') || c
                == '\u{2028}' || c == '\u{2029}' || c == '\u{202f}' || c == '\u{205f}' || c
                == '\u{3000}',
            CharClass::Brackets => c == '[' || c == ']',
            CharClass::Quotes => c == '"' || c == '\'',
        }
    }
}

/// The text without the characters of a class at its start.
pub open spec fn trim_start(s: Seq<char>, class: CharClass) -> Seq<char>
    decreases s.len(),
{
    if s.len() > 0 && class.has(s[0]) {
        trim_start(s.drop_first(), class)
    } else {
        s
    }
}

/// The text without the characters of a class at its end.
pub open spec fn trim_end(s: Seq<char>, class: CharClass) -> Seq<char>
    decreases s.len(),
{
    if s.len() > 0 && class.has(s.last()) {
        trim_end(s.drop_last(), class)
    } else {
        s
    }
}

/// The text without the characters of a class at its start and at its end.
pub open spec fn trimmed(s: Seq<char>, class: CharClass) -> Seq<char> {
    trim_end(trim_start(s, class), class)
}

/// Trims the part `from..to` of a text: finds the part of it that is left
/// when the characters of a class are taken from its start and from its end.
pub fn trim(text: &Vec<char>, from: usize, to: usize, class: CharClass) -> (r: Piece)
    requires
        from <= to <= text@.len(),
    ensures
        from <= r.start <= r.end <= to,
        text@.subrange(r.start as int, r.end as int) == trimmed(
            text@.subrange(from as int, to as int),
            class,
        ),
{
    let ghost whole = text@.subrange(from as int, to as int);
    let mut start: usize = from;
    while start < to && class.contains(text[start])
        invariant
            from <= start <= to <= text@.len(),
            whole == text@.subrange(from as int, to as int),
            trim_start(whole, class) == trim_start(text@.subrange(start as int, to as int), class),
        decreases to - start,
    {
        proof {
            let now = text@.subrange(start as int, to as int);
            assert(now[0] == text@[start as int]);
            assert(now.drop_first() =~= text@.subrange(start + 1, to as int));
        }
        start = start + 1;
    }
    let ghost front = text@.subrange(start as int, to as int);
    proof {
        if front.len() > 0 {
            assert(front[0] == text@[start as int]);
        }
        assert(trim_start(whole, class) == front);
    }
    let mut end: usize = to;
    while end > start && class.contains(text[end - 1])
        invariant
            start <= end <= to <= text@.len(),
            front == text@.subrange(start as int, to as int),
            trim_end(front, class) == trim_end(text@.subrange(start as int, end as int), class),
        decreases end,
    {
        proof {
            let now = text@.subrange(start as int, end as int);
            assert(now.last() == text@[end - 1]);
            assert(now.drop_last() =~= text@.subrange(start as int, end - 1));
        }
        end = end - 1;
    }
    proof {
        let now = text@.subrange(start as int, end as int);
        if now.len() > 0 {
            assert(now.last() == text@[end - 1]);
        }
    }
    Piece { start, end }
}

/// The texts joined into one, with `sep` between each two.
pub open spec fn joined_with(texts: Seq<Seq<char>>, sep: Seq<char>) -> Seq<char>
    decreases texts.len(),
{
    if texts.len() == 0 {
        Seq::empty()
    } else if texts.len() == 1 {
        texts[0]
    } else {
        joined_with(texts.drop_last(), sep) + sep + texts.last()
    }
}

/// Joins a list of strings into one, with `sep` between each two.
pub fn join(texts: &Vec<String>, sep: &str) -> (r: String)
    ensures
        r@ == joined_with(names_view(texts@), sep@),
{
    let ghost all = names_view(texts@);
    let mut out = String::new();
    let mut i: usize = 0;
    assert(all.take(0) =~= Seq::<Seq<char>>::empty());
    while i < texts.len()
        invariant
            i <= texts@.len(),
            all == names_view(texts@),
            out@ == joined_with(all.take(i as int), sep@),
        decreases texts@.len() - i,
    {
        let ghost seen = all.take(i as int);
        let ghost next = all.take(i + 1);
        proof {
            assert(next.drop_last() =~= seen);
            assert(next.last() == texts@[i as int]@);
        }
        if i > 0 {
            out.append(sep);
        }
        out.append(texts[i].as_str());
        proof {
            if i == 0 {
                assert(seen =~= Seq::<Seq<char>>::empty());
                assert(out@ =~= texts@[i as int]@);
            }
        }
        i = i + 1;
    }
    assert(all.take(texts@.len() as int) =~= all);
    out
}

/// The character of a decimal digit.
pub open spec fn digit_char(d: nat) -> char {
    ((0x30 + d) as u8) as char
}

/// The decimal numeral of a number, without sign and without leading zeros.
pub open spec fn decimal_text(n: nat) -> Seq<char>
    decreases n,
{
    if n < 10 {
        seq![digit_char(n)]
    } else {
        decimal_text(n / 10).push(digit_char(n % 10))
    }
}

/// The text of one decimal digit.
fn digit_text(d: usize) -> (r: &'static str)
    requires
        d < 10,
    ensures
        r@ == seq![digit_char(d as nat)],
{
    proof {
        reveal_strlit("0");
        reveal_strlit("1");
        reveal_strlit("2");
        reveal_strlit("3");
        reveal_strlit("4");
        reveal_strlit("5");
        reveal_strlit("6");
        reveal_strlit("7");
        reveal_strlit("8");
        reveal_strlit("9");
    }
    let r = if d == 0 {
        "0"
    } else if d == 1 {
        "1"
    } else if d == 2 {
        "2"
    } else if d == 3 {
        "3"
    } else if d == 4 {
        "4"
    } else if d == 5 {
        "5"
    } else if d == 6 {
        "6"
    } else if d == 7 {
        "7"
    } else if d == 8 {
        "8"
    } else {
        "9"
    };
    assert(r@ =~= seq![digit_char(d as nat)]);
    r
}

/// Writes a number as a decimal numeral.
pub fn decimal_string(n: usize) -> (r: String)
    ensures
        r@ == decimal_text(n as nat),
    decreases n,
{
    if n < 10 {
        digit_text(n).to_owned()
    } else {
        let mut r = decimal_string(n / 10);
        r.append(digit_text(n % 10));
        r
    }
}

/// The text in which every occurrence of `from` is replaced by `to`.
/// Occurrences are taken from left to right and do not overlap. An empty
/// `from` occurs nowhere.
pub open spec fn replaced(s: Seq<char>, from: Seq<char>, to: Seq<char>) -> Seq<char>
    decreases s.len(),
{
    if from.len() == 0 || s.len() < from.len() {
        s
    } else if s.subrange(0, from.len() as int) == from {
        to + replaced(s.skip(from.len() as int), from, to)
    } else {
        seq![s[0]] + replaced(s.skip(1), from, to)
    }
}

/// Replaces every occurrence of `from` in `s` by `to`.
pub fn replace(s: &str, from: &str, to: &str) -> (r: String)
    ensures
        r@ == replaced(s@, from@, to@),
{
    let chars = chars_of(s);
    let pattern = chars_of(from);
    let n = chars.len();
    let m = pattern.len();
    if m == 0 {
        return s.to_owned();
    }
    let mut out = String::new();
    let mut run: usize = 0;
    let mut i: usize = 0;
    assert(s@.skip(0) =~= s@);
    assert(s@.subrange(0, 0) =~= Seq::<char>::empty());
    while i < n
        invariant
            run <= i <= n,
            n == chars@.len(),
            m == pattern@.len(),
            m > 0,
            chars@ == s@,
            pattern@ == from@,
            replaced(s@, from@, to@) == out@ + s@.subrange(run as int, i as int) + replaced(
                s@.skip(i as int),
                from@,
                to@,
            ),
        decreases n - i,
    {
        let ghost rest = s@.skip(i as int);
        if matches_at(&chars, i, &pattern) {
            proof {
                assert(rest.subrange(0, m as int) =~= s@.subrange(i as int, i + m));
                assert(rest.skip(m as int) =~= s@.skip(i + m));
                assert(s@.subrange((i + m) as int, (i + m) as int) =~= Seq::<char>::empty());
            }
            let piece = slice(s, run, i);
            out.append(piece.as_str());
            out.append(to);
            i = i + m;
            run = i;
        } else {
            proof {
                if rest.len() >= m {
                    assert(rest.subrange(0, m as int) =~= s@.subrange(i as int, i + m));
                    assert(rest.skip(1) =~= s@.skip(i + 1));
                    assert(s@.subrange(run as int, i + 1) =~= s@.subrange(run as int, i as int)
                        + seq![rest[0]]);
                } else {
                    assert(replaced(rest, from@, to@) == rest);
                    lemma_replaced_short(s@.skip(i + 1), from@, to@);
                    assert(s@.subrange(run as int, i + 1) + s@.skip(i + 1) =~= s@.subrange(
                        run as int,
                        i as int,
                    ) + rest);
                }
            }
            i = i + 1;
        }
    }
    proof {
        assert(s@.skip(n as int) =~= Seq::<char>::empty());
    }
    let piece = slice(s, run, n);
    out.append(piece.as_str());
    out
}

/// A text that is shorter than `from` holds no occurrence of it.
proof fn lemma_replaced_short(s: Seq<char>, from: Seq<char>, to: Seq<char>)
    requires
        s.len() < from.len(),
    ensures
        replaced(s, from, to) == s,
{
}

} // verus!
