//! Links to source lines and the names under which symbols are shown.

use crate::scan::contains_text;
use crate::scan::find;
use crate::scan::first_occurrence;
use crate::scan::last_occurrence;
use crate::scan::occurs_at;
use crate::scan::parse_u32;
use crate::scan::parsed_u32;
use crate::scan::rfind;
use crate::scan::slice;
use crate::scan::starts_with;
use crate::text::chars_of;
use vstd::prelude::*;
use vstd::string::*;

verus! {

/// The characters of `v` from position `from` up to position `to`.
pub fn sub_vec(v: &Vec<char>, from: usize, to: usize) -> (r: Vec<char>)
    requires
        from <= to <= v@.len(),
    ensures
        r@ == v@.subrange(from as int, to as int),
{
    let mut r: Vec<char> = Vec::new();
    let mut i: usize = from;
    while i < to
        invariant
            from <= i <= to <= v@.len(),
            r@ == v@.subrange(from as int, i as int),
        decreases to - i,
    {
        r.push(v[i]);
        assert(v@.subrange(from as int, i + 1) =~= v@.subrange(from as int, i as int).push(
            v@[i as int],
        ));
        i = i + 1;
    }
    r
}

/// The part of a link that names the file and the line: what follows the
/// first `/blob/main/`, up to the next one if there is another.
pub open spec fn link_target(link: Seq<char>) -> Seq<char> {
    let sep = "/blob/main/"@;
    let rest = link.skip(first_occurrence(link, sep) + sep.len());
    if contains_text(rest, sep) {
        rest.take(first_occurrence(rest, sep))
    } else {
        rest
    }
}

/// The file and the line that a link points to.
///
/// A link without `/blob/main/` points nowhere. What follows the last `#L` of
/// the target is the line, and has to be a 32-bit decimal numeral; a target
/// without `#L` names the file alone, and the line is 0.
pub open spec fn parsed_link(link: Seq<char>) -> Option<(Seq<char>, u32)> {
    let sep = "/blob/main/"@;
    let mark = "#L"@;
    if !contains_text(link, sep) {
        None
    } else {
        let target = link_target(link);
        if contains_text(target, mark) {
            let at = last_occurrence(target, mark);
            match parsed_u32(target.skip(at + mark.len())) {
                Some(line) => Some((target.take(at), line)),
                None => None,
            }
        } else {
            Some((target, 0u32))
        }
    }
}

/// Extracts the file and the line number from a link to a source line.
pub fn parse_github_link(github_link: &str) -> (r: Option<(String, u32)>)
    ensures
        r is Some <==> parsed_link(github_link@) is Some,
        r matches Some(found) ==> parsed_link(github_link@) == Some((found.0@, found.1)),
{
    let link = chars_of(github_link);
    let sep = chars_of("/blob/main/");
    let mark = chars_of("#L");
    let first = match find(&link, &sep) {
        Some(i) => i,
        None => {
            return None;
        },
    };
    let n = link.len();
    assert(occurs_at(link@, first as int, sep@));
    let from = first + sep.len();
    let rest = sub_vec(&link, from, link.len());
    let to = match find(&rest, &sep) {
        Some(j) => from + j,
        None => link.len(),
    };
    let target = sub_vec(&link, from, to);
    proof {
        assert(rest@ =~= link@.skip(first + sep@.len()));
        assert(target@ =~= link_target(link@)) by {
            if contains_text(rest@, sep@) {
                assert(target@ =~= rest@.take(to - from));
            } else {
                assert(target@ =~= rest@);
            }
        }
    }
    match rfind(&target, &mark) {
        Some(at) => {
            assert(target@.skip(at + mark@.len()) =~= target@.subrange(
                at + mark@.len(),
                target@.len() as int,
            ));
            match parse_u32(&target, at + mark.len()) {
                Some(line) => {
                    let path = slice(github_link, from, from + at);
                    assert(path@ =~= target@.take(at as int));
                    Some((path, line))
                },
                None => None,
            }
        },
        None => {
            let path = slice(github_link, from, to);
            Some((path, 0))
        },
    }
}

/// The text without the pairs of brackets `()` at its end.
pub open spec fn without_call_marks(s: Seq<char>) -> Seq<char>
    decreases s.len(),
{
    if s.len() >= 2 && s[s.len() - 2] == '(' && s[s.len() - 1] == ')' {
        without_call_marks(s.take(s.len() - 2))
    } else {
        s
    }
}

/// The name under which a symbol is shown.
///
/// For an identifier that begins with `veri:` it is what follows that
/// prefix. For any other identifier with a `#` it is what follows the last
/// `#`, without the pairs of brackets at its end. An identifier of neither
/// kind is shown as it is.
pub open spec fn display_name(name: Seq<char>) -> Seq<char> {
    let prefix = "veri:"@;
    let hash = seq!['#'];
    if prefix.is_prefix_of(name) {
        name.skip(prefix.len() as int)
    } else if contains_text(name, hash) {
        without_call_marks(name.skip(last_occurrence(name, hash) + 1))
    } else {
        name
    }
}

/// Gets the name under which a symbol is shown from its identifier.
pub fn get_display_name(name: &str) -> (r: String)
    ensures
        r@ == display_name(name@),
{
    let chars = chars_of(name);
    let prefix = chars_of("veri:");
    let n = chars.len();
    if starts_with(&chars, &prefix) {
        assert(name@.skip(prefix@.len() as int) =~= name@.subrange(
            prefix@.len() as int,
            n as int,
        ));
        return slice(name, prefix.len(), n);
    }
    let mut hash: Vec<char> = Vec::new();
    hash.push('#');
    assert(hash@ =~= seq!['#']);
    match rfind(&chars, &hash) {
        Some(at) => {
            let from = at + 1;
            let ghost tail = name@.skip(from as int);
            let mut end: usize = n;
            assert(occurs_at(chars@, at as int, hash@));
            assert(tail.take(n - from) =~= tail);
            while end - from >= 2 && chars[end - 2] == '(' && chars[end - 1] == ')'
                invariant
                    from <= end <= n,
                    n == chars@.len(),
                    chars@ == name@,
                    tail == name@.skip(from as int),
                    without_call_marks(tail) == without_call_marks(tail.take(end - from)),
                decreases end,
            {
                proof {
                    let now = tail.take(end - from);
                    assert(now[now.len() - 2] == chars@[end - 2]);
                    assert(now[now.len() - 1] == chars@[end - 1]);
                    assert(now.take(now.len() - 2) =~= tail.take(end - 2 - from));
                }
                end = end - 2;
            }
            proof {
                let now = tail.take(end - from);
                if now.len() >= 2 {
                    assert(now[now.len() - 2] == chars@[end - 2]);
                    assert(now[now.len() - 1] == chars@[end - 1]);
                }
                assert(without_call_marks(now) == now);
                assert(now =~= name@.subrange(from as int, end as int));
            }
            slice(name, from, end)
        },
        None => name.to_owned(),
    }
}

} // verus!
