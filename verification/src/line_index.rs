//! The line index: for each source file, the line ranges of its symbols.
//!
//! The index answers which symbols cover a given line of a given file. It is
//! built once from the atom store and never changed.

use crate::atoms::Atom;
use crate::atoms::AtomView;
use crate::atoms::store_view;
use crate::name_map::NameMap;
use crate::name_set::ascending;
use crate::name_set::is_least;
use crate::name_set::least_name;
use crate::name_set::NameSet;
use crate::name_set::lemma_least_unique;
use crate::text::NameOrder;
use crate::text::lemma_name_lt_asymmetric;
use crate::text::lemma_name_lt_transitive;
use crate::text::name_le;
use crate::text::str_order;
use intervaltree::IntervalTree;
use vstd::multiset::Multiset;
use vstd::prelude::*;

verus! {

/// The interval tree of the crate `intervaltree`, opaque to the verifier.
#[verifier::external_type_specification]
#[verifier::external_body]
#[verifier::reject_recursive_types(K)]
#[verifier::reject_recursive_types(V)]
pub struct ExIntervalTree<K, V>(IntervalTree<K, V>);

/// A half-open range of lines `start..end` that belongs to a symbol.
#[derive(Clone, Debug, PartialEq, Eq)]
pub struct Interval {
    /// The first line of the range.
    pub start: u64,
    /// The line after the last line of the range.
    pub end: u64,
    /// The symbol that the range belongs to.
    pub symbol_id: String,
}

/// An interval as plain values: first line, line after the last, symbol.
pub type Item = (u64, u64, Seq<char>);

impl View for Interval {
    type V = Item;

    open spec fn view(&self) -> Item {
        (self.start, self.end, self.symbol_id@)
    }
}

/// The intervals that a vector holds, each as plain values.
pub open spec fn intervals_view(v: Seq<Interval>) -> Seq<Item> {
    Seq::new(v.len(), |i: int| v[i]@)
}

/// The intervals that a tree holds, each as often as it was inserted.
pub uninterp spec fn tree_items(tree: IntervalTree<u64, String>) -> Multiset<Item>;

/// Whether the interval `item` overlaps the query range `start..end`.
pub open spec fn overlaps(item: Item, start: u64, end: u64) -> bool {
    end > item.0 && start < item.1
}

/// Builds a tree with `IntervalTree::from_iter`.
///
/// Trusted: the tree holds exactly the intervals handed in, each as often as
/// it occurs among them.
#[verifier::external_body]
fn tree_from_intervals(items: &Vec<Interval>) -> (tree: IntervalTree<u64, String>)
    ensures
        tree_items(tree) == intervals_view(items@).to_multiset(),
{
    items.iter().map(|item| (item.start..item.end, item.symbol_id.clone())).collect()
}

/// Queries a tree with `IntervalTree::query`.
///
/// Trusted: the result holds, in an order that is not stated, exactly the
/// intervals of the tree that overlap `start..end`, each as often as the tree
/// holds it. An interval overlaps the range if it starts before the range
/// ends and ends after the range starts.
#[verifier::external_body]
fn tree_query(tree: &IntervalTree<u64, String>, start: u64, end: u64) -> (hits: Vec<Interval>)
    ensures
        intervals_view(hits@).to_multiset() == tree_items(*tree).filter(
            |item: Item| overlaps(item, start, end),
        ),
{
    tree.query(start..end).map(
        |e| Interval { start: e.range.start, end: e.range.end, symbol_id: e.value.clone() },
    ).collect()
}

/// The line number that the index uses for a number of the analyser: its low
/// 32 bits.
pub open spec fn line_number(n: u64) -> u64 {
    n % 0x1_0000_0000
}

/// The line number that the index uses for a number of the analyser.
pub fn truncate_line(n: u64) -> (line: u32)
    ensures
        line == line_number(n),
{
    (n % 0x1_0000_0000) as u32
}

/// Whether an atom can be filed in the index: it names its file and both
/// ends of its line range.
pub open spec fn indexable(a: AtomView) -> bool {
    a.code_path is Some && a.lines_start is Some && a.lines_end is Some
}

/// The interval under which an indexable atom is filed. The last line is
/// inclusive in the atom, so the interval ends one line after it.
pub open spec fn interval_of(id: Seq<char>, a: AtomView) -> Item {
    (line_number(a.lines_start->0), (line_number(a.lines_end->0) + 1) as u64, id)
}

/// A file together with an interval filed under it.
pub type Span = (Seq<char>, Item);

/// What an index built from `store` holds: for each indexable atom its file
/// and its interval.
pub open spec fn spans_of(store: Map<Seq<char>, AtomView>) -> Set<Span> {
    Set::new(
        |s: Span|
            {
                let id = s.1.2;
                &&& store.contains_key(id)
                &&& indexable(store[id])
                &&& s.0 == store[id].code_path->0
                &&& s.1 == interval_of(id, store[id])
            },
    )
}

/// Whether the index knows the file `path` at all.
pub open spec fn covered(spans: Set<Span>, path: Seq<char>) -> bool {
    exists|s: Span| #[trigger] spans.contains(s) && s.0 == path
}

/// The intervals of `path` that contain `line`.
pub open spec fn hits_at(spans: Set<Span>, path: Seq<char>, line: u64) -> Set<Item> {
    Set::new(|item: Item| spans.contains((path, item)) && item.0 <= line < item.1)
}

/// The symbols of a set of intervals.
pub open spec fn symbols_of(items: Set<Item>) -> Set<Seq<char>> {
    Set::new(|id: Seq<char>| exists|item: Item| #[trigger] items.contains(item) && item.2 == id)
}

/// The intervals of a set that start at `line`.
pub open spec fn starting_at(items: Set<Item>, line: u64) -> Set<Item> {
    Set::new(|item: Item| items.contains(item) && item.0 == line)
}

/// Whether a set holds two different names.
pub open spec fn has_two(names: Set<Seq<char>>) -> bool {
    exists|a: Seq<char>, b: Seq<char>| #[trigger]
        names.contains(a) && #[trigger] names.contains(b) && a != b
}

/// The answer of the index to a query.
#[derive(Clone, Debug, PartialEq, Eq)]
pub enum Lookup {
    /// The index holds no interval at all for the file.
    NoCoverage,
    /// The index knows the file, but none of its intervals contains the line.
    NoMatch,
    /// At least one interval of the file contains the line.
    Match {
        /// The preferred symbol: the first in the order on names among the
        /// symbols whose interval starts at the line, or, where there is none
        /// such, among all symbols whose interval contains the line.
        symbol_id: String,
        /// Whether the interval of the preferred symbol starts at the line.
        exact: bool,
        /// Whether the intervals of two or more symbols start at the line.
        ambiguous: bool,
    },
}

/// The answer of the index as plain values.
pub enum LookupView {
    NoCoverage,
    NoMatch,
    Match { symbol_id: Seq<char>, exact: bool, ambiguous: bool },
}

impl View for Lookup {
    type V = LookupView;

    open spec fn view(&self) -> LookupView {
        match self {
            Lookup::NoCoverage => LookupView::NoCoverage,
            Lookup::NoMatch => LookupView::NoMatch,
            Lookup::Match { symbol_id, exact, ambiguous } => LookupView::Match {
                symbol_id: symbol_id@,
                exact: *exact,
                ambiguous: *ambiguous,
            },
        }
    }
}

/// The preferred match among the intervals that contain `line`.
pub open spec fn preferred(hits: Set<Item>, line: u64) -> LookupView {
    let exact = symbols_of(starting_at(hits, line));
    if hits =~= Set::<Item>::empty() {
        LookupView::NoMatch
    } else if exact =~= Set::<Seq<char>>::empty() {
        LookupView::Match { symbol_id: least_name(symbols_of(hits)), exact: false, ambiguous: false }
    } else {
        LookupView::Match { symbol_id: least_name(exact), exact: true, ambiguous: has_two(exact) }
    }
}

/// What the index answers for `line` of `path`.
pub open spec fn lookup_spec(spans: Set<Span>, path: Seq<char>, line: u64) -> LookupView {
    if !covered(spans, path) {
        LookupView::NoCoverage
    } else {
        preferred(hits_at(spans, path, line), line)
    }
}

/// Picks the preferred match among the intervals that a query returned.
pub fn pick_preferred(hits: &Vec<Interval>, line: u64) -> (r: Lookup)
    ensures
        r@ == preferred(intervals_view(hits@).to_set(), line),
{
    let ghost items = intervals_view(hits@);
    let mut best: Option<usize> = None;
    let mut best_exact: Option<usize> = None;
    let mut ambiguous = false;
    let mut i: usize = 0;
    while i < hits.len()
        invariant
            i <= hits.len(),
            items == intervals_view(hits@),
            best is None <==> i == 0,
            best matches Some(b) ==> b < i && forall|j: int|
                0 <= j < i ==> name_le(items[b as int].2, #[trigger] items[j].2),
            best_exact is None <==> forall|j: int| 0 <= j < i ==> (#[trigger] items[j]).0 != line,
            best_exact matches Some(b) ==> b < i && items[b as int].0 == line && forall|j: int|
                0 <= j < i && (#[trigger] items[j]).0 == line ==> name_le(
                    items[b as int].2,
                    items[j].2,
                ),
            ambiguous <==> exists|j: int, k: int|
                0 <= j < i && 0 <= k < i && (#[trigger] items[j]).0 == line && (
                #[trigger] items[k]).0 == line && items[j].2 != items[k].2,
        decreases hits.len() - i,
    {
        let id = hits[i].symbol_id.as_str();
        assert(items[i as int] == hits@[i as int]@);
        match best {
            None => {
                best = Some(i);
            },
            Some(b) => {
                let ghost old_best = items[b as int].2;
                match str_order(id, hits[b].symbol_id.as_str()) {
                    NameOrder::Before => {
                        proof {
                            assert forall|j: int| 0 <= j < i + 1 implies name_le(
                                items[i as int].2,
                                #[trigger] items[j].2,
                            ) by {
                                if j < i {
                                    assert(name_le(old_best, items[j].2));
                                    if old_best != items[j].2 {
                                        lemma_name_lt_transitive(id@, old_best, items[j].2);
                                    }
                                }
                            }
                        }
                        best = Some(i);
                    },
                    _ => {},
                }
            },
        }
        if hits[i].start == line {
            match best_exact {
                None => {
                    proof {
                        assert forall|j: int, k: int|
                            0 <= j < i + 1 && 0 <= k < i + 1 && (#[trigger] items[j]).0 == line && (
                            #[trigger] items[k]).0 == line implies items[j].2 == items[k].2 by {
                            assert(j == i && k == i);
                        }
                    }
                    best_exact = Some(i);
                },
                Some(b) => {
                    let ghost old_best = items[b as int].2;
                    let ghost old_ambiguous = ambiguous;
                    let order = str_order(id, hits[b].symbol_id.as_str());
                    proof {
                        if order != NameOrder::Same {
                            assert(items[i as int].0 == line && items[b as int].0 == line
                                && items[i as int].2 != items[b as int].2) by {
                                if order == NameOrder::Before {
                                    lemma_name_lt_asymmetric(id@, old_best);
                                } else {
                                    lemma_name_lt_asymmetric(old_best, id@);
                                }
                            }
                        } else if !old_ambiguous {
                            assert forall|j: int, k: int|
                                0 <= j < i + 1 && 0 <= k < i + 1 && (#[trigger] items[j]).0 == line
                                    && (#[trigger] items[k]).0 == line implies items[j].2
                                == items[k].2 by {
                                if j < i && k < i {
                                } else if j == i && k < i {
                                    assert(items[b as int].0 == line && items[k].0 == line);
                                } else if k == i && j < i {
                                    assert(items[j].0 == line && items[b as int].0 == line);
                                }
                            }
                        }
                    }
                    match order {
                        NameOrder::Same => {},
                        NameOrder::Before => {
                            proof {
                                assert forall|j: int|
                                    0 <= j < i + 1 && (#[trigger] items[j]).0 == line implies name_le(
                                    items[i as int].2,
                                    items[j].2,
                                ) by {
                                    if j < i {
                                        assert(name_le(old_best, items[j].2));
                                        if old_best != items[j].2 {
                                            lemma_name_lt_transitive(id@, old_best, items[j].2);
                                        }
                                    }
                                }
                            }
                            ambiguous = true;
                            best_exact = Some(i);
                        },
                        NameOrder::After => {
                            ambiguous = true;
                        },
                    }
                },
            }
        }
        i = i + 1;
    }
    let ghost set = items.to_set();
    let ghost exact = symbols_of(starting_at(set, line));
    match best {
        None => {
            assert(set =~= Set::<Item>::empty());
            Lookup::NoMatch
        },
        Some(b) => {
            assert(set.contains(items[b as int]));
            match best_exact {
                Some(e) => {
                    proof {
                        let id = items[e as int].2;
                        assert(starting_at(set, line).contains(items[e as int]));
                        assert(exact.contains(id));
                        assert(is_least(exact, id)) by {
                            assert forall|other: Seq<char>| exact.contains(other) implies name_le(
                                id,
                                other,
                            ) by {
                                let item = choose|item: Item| #[trigger]
                                    starting_at(set, line).contains(item) && item.2 == other;
                                let j = choose|j: int| 0 <= j < items.len() && items[j] == item;
                                assert(items[j].0 == line);
                            }
                        }
                        lemma_least_unique(exact, id, least_name(exact));
                        if ambiguous {
                            let (j, k) = choose|j: int, k: int|
                                0 <= j < i && 0 <= k < i && (#[trigger] items[j]).0 == line && (
                                #[trigger] items[k]).0 == line && items[j].2 != items[k].2;
                            assert(starting_at(set, line).contains(items[j]));
                            assert(starting_at(set, line).contains(items[k]));
                            assert(exact.contains(items[j].2));
                            assert(exact.contains(items[k].2));
                        }
                        if has_two(exact) {
                            let (x, y) = choose|x: Seq<char>, y: Seq<char>| #[trigger]
                                exact.contains(x) && #[trigger] exact.contains(y) && x != y;
                            let ix = choose|item: Item| #[trigger]
                                starting_at(set, line).contains(item) && item.2 == x;
                            let iy = choose|item: Item| #[trigger]
                                starting_at(set, line).contains(item) && item.2 == y;
                            let j = choose|j: int| 0 <= j < items.len() && items[j] == ix;
                            let k = choose|k: int| 0 <= k < items.len() && items[k] == iy;
                            assert(items[j].0 == line && items[k].0 == line && items[j].2
                                != items[k].2);
                        }
                    }
                    Lookup::Match {
                        symbol_id: hits[e].symbol_id.clone(),
                        exact: true,
                        ambiguous,
                    }
                },
                None => {
                    proof {
                        let all = symbols_of(set);
                        let id = items[b as int].2;
                        assert(all.contains(id));
                        assert(is_least(all, id)) by {
                            assert forall|other: Seq<char>| all.contains(other) implies name_le(
                                id,
                                other,
                            ) by {
                                let item = choose|item: Item| #[trigger]
                                    set.contains(item) && item.2 == other;
                                let j = choose|j: int| 0 <= j < items.len() && items[j] == item;
                                assert(name_le(id, items[j].2));
                            }
                        }
                        lemma_least_unique(all, id, least_name(all));
                        assert(exact =~= Set::<Seq<char>>::empty()) by {
                            assert forall|x: Seq<char>| !exact.contains(x) by {
                                if exact.contains(x) {
                                    let item = choose|item: Item| #[trigger]
                                        starting_at(set, line).contains(item) && item.2 == x;
                                    let j = choose|j: int| 0 <= j < items.len() && items[j] == item;
                                    assert(items[j].0 == line);
                                }
                            }
                        }
                    }
                    Lookup::Match {
                        symbol_id: hits[b].symbol_id.clone(),
                        exact: false,
                        ambiguous: false,
                    }
                },
            }
        },
    }
}

/// Whether the atom at position `j` of the store is filed under `path` as
/// `item`.
pub open spec fn filed_at(store: &NameMap<Atom>, j: int, path: Seq<char>, item: Item) -> bool {
    let a = store.values()[j]@;
    &&& indexable(a)
    &&& a.code_path->0 == path
    &&& item == interval_of(store.keys()[j], a)
}

/// Whether one of the first `upto` atoms of the store is filed under `path`
/// as `item`.
pub open spec fn filed(store: &NameMap<Atom>, upto: int, path: Seq<char>, item: Item) -> bool {
    exists|j: int| 0 <= j < upto && #[trigger] filed_at(store, j, path, item)
}

/// What is filed from the whole store is what an index of the store holds.
proof fn lemma_filed_is_spans(store: &NameMap<Atom>, path: Seq<char>, item: Item)
    requires
        store.wf(),
    ensures
        filed(store, store.keys().len() as int, path, item) <==> spans_of(
            store_view(store@),
        ).contains((path, item)),
{
    let atoms = store_view(store@);
    if filed(store, store.keys().len() as int, path, item) {
        let j = choose|j: int| 0 <= j < store.keys().len() && #[trigger] filed_at(store, j, path, item);
        store.lemma_value_at(j);
        assert(atoms.contains_key(store.keys()[j]));
    }
    if spans_of(atoms).contains((path, item)) {
        let id = item.2;
        assert(store@.contains_key(id));
        assert(store.keys().contains(id));
        let j = choose|j: int| 0 <= j < store.keys().len() && store.keys()[j] == id;
        store.lemma_value_at(j);
        assert(filed_at(store, j, path, item));
    }
}

/// Whether `item` is among the intervals that `groups` holds for `path`.
pub open spec fn grouped(groups: Map<Seq<char>, Vec<Interval>>, path: Seq<char>, item: Item) -> bool {
    groups.contains_key(path) && intervals_view(groups[path]@).contains(item)
}

/// One more atom has been looked at: what is filed from the first `i + 1`
/// atoms is what was filed from the first `i` and what the atom at `i` files.
proof fn lemma_filed_step(store: &NameMap<Atom>, i: int, path: Seq<char>, item: Item)
    requires
        0 <= i,
    ensures
        filed(store, i + 1, path, item) <==> filed(store, i, path, item) || filed_at(
            store,
            i,
            path,
            item,
        ),
{
    if filed(store, i + 1, path, item) {
        let j = choose|j: int| 0 <= j < i + 1 && #[trigger] filed_at(store, j, path, item);
        if j < i {
            assert(filed(store, i, path, item));
        }
    }
    if filed(store, i, path, item) {
        let j = choose|j: int| 0 <= j < i && #[trigger] filed_at(store, j, path, item);
        assert(filed_at(store, j, path, item));
    }
}

/// Pushing an interval adds it to what a list of intervals holds.
proof fn lemma_push_contains(items: Seq<Item>, it: Item, x: Item)
    ensures
        items.push(it).contains(x) <==> items.contains(x) || x == it,
{
    let now = items.push(it);
    if now.contains(x) {
        let k = choose|k: int| 0 <= k < now.len() && now[k] == x;
        if k < items.len() {
            assert(items[k] == x);
        }
    }
    if items.contains(x) {
        let k = choose|k: int| 0 <= k < items.len() && items[k] == x;
        assert(now[k] == x);
    }
    assert(now[items.len() as int] == it);
}

/// Files the intervals of the atoms of a store by source file.
fn group_by_file(store: &NameMap<Atom>) -> (groups: NameMap<Vec<Interval>>)
    requires
        store.wf(),
    ensures
        groups.wf(),
        forall|p: Seq<char>| #[trigger] groups@.contains_key(p) ==> groups@[p]@.len() > 0,
        forall|p: Seq<char>, item: Item|
            #![trigger grouped(groups@, p, item)]
            #![trigger filed(store, store.keys().len() as int, p, item)]
            grouped(groups@, p, item) <==> filed(store, store.keys().len() as int, p, item),
{
    let mut groups: NameMap<Vec<Interval>> = NameMap::new();
    let mut i: usize = 0;
    while i < store.len()
        invariant
            i <= store.keys().len(),
            store.wf(),
            groups.wf(),
            forall|p: Seq<char>| #[trigger] groups@.contains_key(p) ==> groups@[p]@.len() > 0,
            forall|p: Seq<char>, item: Item|
                #![trigger grouped(groups@, p, item)]
                #![trigger filed(store, i as int, p, item)]
                grouped(groups@, p, item) <==> filed(store, i as int, p, item),
        decreases store.keys().len() - i,
    {
        let atom = store.value_at(i);
        let ghost before = groups@;
        let ghost a = atom@;
        let ghost id = store.keys()[i as int];
        match (&atom.code_path, atom.lines_start, atom.lines_end) {
            (Some(path), Some(first), Some(last)) => {
                let item = Interval {
                    start: first % 0x1_0000_0000,
                    end: last % 0x1_0000_0000 + 1,
                    symbol_id: store.key_at(i).clone(),
                };
                let ghost it = item@;
                let ghost own = path@;
                assert(it == interval_of(id, a));
                assert(filed_at(store, i as int, own, it));
                let ghost old_items: Seq<Item>;
                match groups.position(path.as_str()) {
                    Some(g) => {
                        let mut v = groups.replace_value_at(g, Vec::new());
                        proof {
                            old_items = intervals_view(v@);
                            assert(v == before[own]);
                        }
                        v.push(item);
                        assert(intervals_view(v@) =~= old_items.push(it));
                        groups.replace_value_at(g, v);
                        assert(groups@ =~= before.insert(own, v));
                    },
                    None => {
                        let mut v: Vec<Interval> = Vec::new();
                        proof {
                            old_items = intervals_view(v@);
                            assert(old_items =~= Seq::<Item>::empty());
                        }
                        v.push(item);
                        assert(intervals_view(v@) =~= old_items.push(it));
                        groups.insert(path.clone(), v);
                    },
                }
                proof {
                    assert(groups@.contains_key(own));
                    assert(intervals_view(groups@[own]@) == old_items.push(it));
                    assert forall|x: Item| old_items.contains(x) <==> filed(
                        store,
                        i as int,
                        own,
                        x,
                    ) by {
                        assert(grouped(before, own, x) <==> filed(store, i as int, own, x));
                    }
                    assert forall|p: Seq<char>, x: Item|
                        #![trigger grouped(groups@, p, x)]
                        #![trigger filed(store, i + 1, p, x)]
                        grouped(groups@, p, x) <==> filed(store, i + 1, p, x) by {
                        lemma_filed_step(store, i as int, p, x);
                        if p == own {
                            lemma_push_contains(old_items, it, x);
                        } else {
                            assert(grouped(before, p, x) <==> filed(store, i as int, p, x));
                            assert(grouped(groups@, p, x) <==> grouped(before, p, x));
                        }
                    }
                }
            },
            _ => {
                proof {
                    assert forall|p: Seq<char>, x: Item|
                        #![trigger grouped(groups@, p, x)]
                        #![trigger filed(store, i + 1, p, x)]
                        grouped(groups@, p, x) <==> filed(store, i + 1, p, x) by {
                        lemma_filed_step(store, i as int, p, x);
                        assert(grouped(before, p, x) <==> filed(store, i as int, p, x));
                    }
                }
            },
        }
        i = i + 1;
    }
    groups
}

/// The index from source files to the line ranges of their symbols.
pub struct LineIndex {
    trees: NameMap<IntervalTree<u64, String>>,
}

impl LineIndex {
    /// What the index holds: each file with each interval filed under it.
    pub closed spec fn spans(&self) -> Set<Span> {
        Set::new(
            |s: Span| self.trees@.contains_key(s.0) && tree_items(self.trees@[s.0]).contains(s.1),
        )
    }

    /// The invariant of the representation: the files are in order, and each
    /// file of the index has at least one interval.
    pub closed spec fn wf(&self) -> bool {
        &&& self.trees.wf()
        &&& forall|p: Seq<char>| #[trigger]
            self.trees@.contains_key(p) ==> tree_items(self.trees@[p]).len() > 0
    }

    /// Builds the index of an atom store: every atom that names its file and
    /// both ends of its line range is filed under that file.
    pub fn build(store: &NameMap<Atom>) -> (index: LineIndex)
        requires
            store.wf(),
        ensures
            index.wf(),
            index.spans() == spans_of(store_view(store@)),
    {
        let groups = group_by_file(store);
        let mut trees: NameMap<IntervalTree<u64, String>> = NameMap::new();
        let mut g: usize = 0;
        while g < groups.len()
            invariant
                g <= groups.keys().len(),
                groups.wf(),
                trees.wf(),
                forall|p: Seq<char>| #[trigger] groups@.contains_key(p) ==> groups@[p]@.len() > 0,
                forall|p: Seq<char>| #[trigger]
                    trees@.contains_key(p) <==> exists|j: int|
                        0 <= j < g && #[trigger] groups.keys()[j] == p,
                forall|p: Seq<char>| #[trigger]
                    trees@.contains_key(p) ==> groups@.contains_key(p) && tree_items(trees@[p])
                        == intervals_view(groups@[p]@).to_multiset(),
            decreases groups.keys().len() - g,
        {
            let tree = tree_from_intervals(groups.value_at(g));
            let ghost before = trees@;
            let ghost key = groups.keys()[g as int];
            proof {
                groups.lemma_value_at(g as int);
            }
            trees.insert(groups.key_at(g).clone(), tree);
            proof {
                assert forall|p: Seq<char>| #[trigger]
                    trees@.contains_key(p) <==> exists|j: int|
                        0 <= j < g + 1 && #[trigger] groups.keys()[j] == p by {
                    if trees@.contains_key(p) {
                        if p == key {
                            assert(groups.keys()[g as int] == p);
                        } else {
                            assert(before.contains_key(p));
                            let j = choose|j: int| 0 <= j < g && #[trigger] groups.keys()[j] == p;
                            assert(groups.keys()[j] == p);
                        }
                    }
                    if exists|j: int| 0 <= j < g + 1 && #[trigger] groups.keys()[j] == p {
                        let j = choose|j: int| 0 <= j < g + 1 && #[trigger] groups.keys()[j] == p;
                        if j < g {
                            assert(before.contains_key(p));
                        }
                    }
                }
            }
            g = g + 1;
        }
        let index = LineIndex { trees };
        proof {
            assert forall|p: Seq<char>| #[trigger]
                index.trees@.contains_key(p) implies tree_items(index.trees@[p]).len() > 0 by {
                let items = intervals_view(groups@[p]@);
                items.to_multiset_ensures();
            }
            assert(index.spans() =~= spans_of(store_view(store@))) by {
                assert forall|s: Span|
                    index.spans().contains(s) <==> spans_of(store_view(store@)).contains(s) by {
                    let p = s.0;
                    lemma_filed_is_spans(store, p, s.1);
                    assert(grouped(groups@, p, s.1) <==> filed(
                        store,
                        store.keys().len() as int,
                        p,
                        s.1,
                    ));
                    if index.trees@.contains_key(p) {
                        let items = intervals_view(groups@[p]@);
                        items.to_multiset_ensures();
                        assert(items.contains(s.1) <==> items.to_multiset().count(s.1) > 0);
                    }
                    if groups@.contains_key(p) {
                        assert(groups.keys().contains(p));
                        let j = choose|j: int| 0 <= j < groups.keys().len() && groups.keys()[j] == p;
                        assert(groups.keys()[j] == p);
                        assert(index.trees@.contains_key(p));
                    }
                }
            }
        }
        index
    }

    /// The files that the index covers, in ascending order.
    pub closed spec fn files(&self) -> Seq<Seq<char>> {
        self.trees.keys()
    }

    /// The files of the index are those for which it holds an interval.
    pub proof fn lemma_files_are_covered(&self, path: Seq<char>)
        requires
            self.wf(),
        ensures
            self.files().contains(path) <==> covered(self.spans(), path),
            ascending(self.files()),
    {
        if self.files().contains(path) {
            assert(self.trees@.contains_key(path));
            let held = tree_items(self.trees@[path]);
            assert(held.len() > 0);
            let w = held.choose();
            assert(held.contains(w));
            assert(self.spans().contains((path, w)));
        }
        if covered(self.spans(), path) {
            let s = choose|s: Span| #[trigger] self.spans().contains(s) && s.0 == path;
            assert(self.trees@.contains_key(s.0));
        }
    }

    /// The number of files that the index covers.
    pub fn file_count(&self) -> (n: usize)
        requires
            self.wf(),
        ensures
            n == self.files().len(),
    {
        self.trees.len()
    }

    /// The intervals of the file `path` that contain `line`, in no stated
    /// order; `None` if the index does not know the file.
    fn hits(&self, path: &str, line: u32) -> (r: Option<Vec<Interval>>)
        requires
            self.wf(),
        ensures
            r is None <==> !covered(self.spans(), path@),
            r matches Some(hits) ==> intervals_view(hits@).to_set() == hits_at(
                self.spans(),
                path@,
                line as u64,
            ),
    {
        match self.trees.get(path) {
            None => {
                assert(!covered(self.spans(), path@));
                None
            },
            Some(tree) => {
                let start = line as u64;
                let hits = tree_query(tree, start, start + 1);
                proof {
                    let items = intervals_view(hits@);
                    let held = tree_items(*tree);
                    let f = |item: Item| overlaps(item, start, (start + 1) as u64);
                    items.to_multiset_ensures();
                    assert(held.len() > 0);
                    let w = held.choose();
                    assert(held.contains(w));
                    assert(self.spans().contains((path@, w)));
                    assert(covered(self.spans(), path@));
                    assert(items.to_set() =~= hits_at(self.spans(), path@, start)) by {
                        assert forall|item: Item|
                            items.to_set().contains(item) <==> hits_at(
                                self.spans(),
                                path@,
                                start,
                            ).contains(item) by {
                            vstd::multiset::axiom_filter_count(held, f, item);
                            assert(items.contains(item) <==> items.to_multiset().count(item) > 0);
                        }
                    }
                }
                Some(hits)
            },
        }
    }

    /// Which symbol the index prefers for `line` of the file `path`.
    pub fn lookup(&self, path: &str, line: u32) -> (r: Lookup)
        requires
            self.wf(),
        ensures
            r@ == lookup_spec(self.spans(), path@, line as u64),
    {
        match self.hits(path, line) {
            None => Lookup::NoCoverage,
            Some(hits) => pick_preferred(&hits, line as u64),
        }
    }

    /// The symbols of the file `path` whose line range contains `line`;
    /// `None` if the index does not know the file.
    pub fn candidates(&self, path: &str, line: u32) -> (r: Option<NameSet>)
        requires
            self.wf(),
        ensures
            r is None <==> !covered(self.spans(), path@),
            r matches Some(names) ==> names.wf() && names@ == symbols_of(
                hits_at(self.spans(), path@, line as u64),
            ),
    {
        let hits = match self.hits(path, line) {
            None => {
                return None;
            },
            Some(hits) => hits,
        };
        let ghost items = intervals_view(hits@);
        let mut names = NameSet::new();
        let mut i: usize = 0;
        assert(names@ =~= symbols_of(items.take(0).to_set()));
        while i < hits.len()
            invariant
                i <= hits@.len(),
                items == intervals_view(hits@),
                names.wf(),
                names@ == symbols_of(items.take(i as int).to_set()),
            decreases hits@.len() - i,
        {
            let ghost before = items.take(i as int).to_set();
            let ghost now = items.take(i + 1).to_set();
            names.insert(hits[i].symbol_id.clone());
            proof {
                assert(items.take(i + 1) =~= items.take(i as int).push(items[i as int]));
                items.take(i as int).lemma_push_to_set_commute(items[i as int]);
                assert(names@ =~= symbols_of(now)) by {
                    assert forall|id: Seq<char>| symbols_of(now).contains(id) implies names@.contains(
                        id,
                    ) by {
                        let item = choose|item: Item| #[trigger] now.contains(item) && item.2 == id;
                        if item != items[i as int] {
                            assert(before.contains(item));
                            assert(symbols_of(before).contains(id));
                        }
                    }
                    assert forall|id: Seq<char>| names@.contains(id) implies symbols_of(
                        now,
                    ).contains(id) by {
                        if symbols_of(before).contains(id) {
                            let item = choose|item: Item| #[trigger]
                                before.contains(item) && item.2 == id;
                            assert(now.contains(item));
                        } else {
                            assert(now.contains(items[i as int]));
                        }
                    }
                }
            }
            i = i + 1;
        }
        assert(items.take(hits@.len() as int) =~= items);
        Some(names)
    }
}

} // verus!
