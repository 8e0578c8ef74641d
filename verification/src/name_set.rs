//! Sets of names, kept in ascending name order.

use crate::text::NameOrder;
use crate::text::lemma_name_lt_asymmetric;
use crate::text::lemma_name_lt_transitive;
use crate::text::name_le;
use crate::text::name_lt;
use crate::text::str_order;
use vstd::prelude::*;

verus! {

/// The names that a vector of strings holds, in the vector's order.
pub open spec fn names_view(v: Seq<String>) -> Seq<Seq<char>> {
    Seq::new(v.len(), |i: int| v[i]@)
}

/// Every name comes strictly before the names that follow it.
pub open spec fn ascending(s: Seq<Seq<char>>) -> bool {
    forall|i: int, j: int| 0 <= i < j < s.len() ==> name_lt(#[trigger] s[i], #[trigger] s[j])
}

/// An ascending sequence holds no name twice.
pub proof fn lemma_ascending_no_duplicates(s: Seq<Seq<char>>)
    requires
        ascending(s),
    ensures
        s.no_duplicates(),
{
    assert forall|i: int, j: int| 0 <= i < s.len() && 0 <= j < s.len() && i != j implies s[i]
        != s[j] by {
        if i < j {
            lemma_name_lt_asymmetric(s[i], s[j]);
        } else {
            lemma_name_lt_asymmetric(s[j], s[i]);
        }
    }
}

/// Two ascending sequences that hold the same names are the same sequence.
pub proof fn lemma_ascending_unique(a: Seq<Seq<char>>, b: Seq<Seq<char>>)
    requires
        ascending(a),
        ascending(b),
        a.to_set() == b.to_set(),
    ensures
        a == b,
    decreases a.len(),
{
    if a.len() == 0 {
        if b.len() > 0 {
            assert(b.to_set().contains(b[0]));
            assert(a.to_set().contains(b[0]));
        }
        assert(a =~= b);
    } else {
        assert(a.to_set().contains(a[0]));
        assert(b.to_set().contains(a[0]));
        assert(b.len() > 0);
        assert(b.to_set().contains(b[0]));
        assert(a.to_set().contains(b[0]));
        let i = choose|i: int| 0 <= i < b.len() && b[i] == a[0];
        let j = choose|j: int| 0 <= j < a.len() && a[j] == b[0];
        if i > 0 {
            // b[0] < b[i] == a[0] <= a[j] == b[0]
            assert(name_lt(b[0], b[i]));
            if j > 0 {
                assert(name_lt(a[0], a[j]));
                lemma_name_lt_transitive(b[0], a[0], b[0]);
            }
            lemma_name_lt_asymmetric(b[0], a[0]);
        }
        assert(a[0] == b[0]);
        let a1 = a.drop_first();
        let b1 = b.drop_first();
        assert(ascending(a1)) by {
            assert forall|p: int, q: int| 0 <= p < q < a1.len() implies name_lt(
                #[trigger] a1[p],
                #[trigger] a1[q],
            ) by {
                assert(name_lt(a[p + 1], a[q + 1]));
            }
        }
        assert(ascending(b1)) by {
            assert forall|p: int, q: int| 0 <= p < q < b1.len() implies name_lt(
                #[trigger] b1[p],
                #[trigger] b1[q],
            ) by {
                assert(name_lt(b[p + 1], b[q + 1]));
            }
        }
        assert(a1.to_set() =~= b1.to_set()) by {
            assert forall|x: Seq<char>| a1.to_set().contains(x) implies b1.to_set().contains(
                x,
            ) by {
                let p = choose|p: int| 0 <= p < a1.len() && a1[p] == x;
                assert(a[p + 1] == x);
                assert(name_lt(a[0], a[p + 1]));
                lemma_name_lt_asymmetric(a[0], x);
                assert(a.to_set().contains(x));
                assert(b.to_set().contains(x));
                let q = choose|q: int| 0 <= q < b.len() && b[q] == x;
                assert(q != 0);
                assert(b1[q - 1] == x);
            }
            assert forall|x: Seq<char>| b1.to_set().contains(x) implies a1.to_set().contains(
                x,
            ) by {
                let p = choose|p: int| 0 <= p < b1.len() && b1[p] == x;
                assert(b[p + 1] == x);
                assert(name_lt(b[0], b[p + 1]));
                lemma_name_lt_asymmetric(b[0], x);
                assert(b.to_set().contains(x));
                assert(a.to_set().contains(x));
                let q = choose|q: int| 0 <= q < a.len() && a[q] == x;
                assert(q != 0);
                assert(a1[q - 1] == x);
            }
        }
        lemma_ascending_unique(a1, b1);
        assert(a =~= seq![a[0]] + a1);
        assert(b =~= seq![b[0]] + b1);
    }
}

/// Whether `name` is in the set and no name of the set comes before it.
pub open spec fn is_least(names: Set<Seq<char>>, name: Seq<char>) -> bool {
    &&& names.contains(name)
    &&& forall|other: Seq<char>| names.contains(other) ==> name_le(name, other)
}

/// The name of a set that comes first in the order on names.
pub open spec fn least_name(names: Set<Seq<char>>) -> Seq<char> {
    choose|name: Seq<char>| is_least(names, name)
}

/// A set has at most one least name.
pub proof fn lemma_least_unique(names: Set<Seq<char>>, a: Seq<char>, b: Seq<char>)
    requires
        is_least(names, a),
        is_least(names, b),
    ensures
        a == b,
{
    if a != b {
        assert(name_le(a, b));
        assert(name_le(b, a));
        lemma_name_lt_asymmetric(a, b);
    }
}

/// Looks `name` up in an ascending vector of names.
///
/// Returns whether the name is there, together with its position, or with the
/// position at which it would have to be inserted.
pub fn search(names: &Vec<String>, name: &str) -> (r: (bool, usize))
    requires
        ascending(names_view(names@)),
    ensures
        r.1 <= names.len(),
        r.0 <==> names_view(names@).contains(name@),
        r.0 ==> r.1 < names.len() && names_view(names@)[r.1 as int] == name@,
        forall|i: int| 0 <= i < r.1 ==> name_lt(#[trigger] names_view(names@)[i], name@),
        forall|i: int|
            r.1 <= i < names.len() && !(r.0 && i == r.1) ==> name_lt(
                name@,
                #[trigger] names_view(names@)[i],
            ),
{
    let ghost ks = names_view(names@);
    let mut lo: usize = 0;
    let mut hi: usize = names.len();
    while lo < hi
        invariant
            ks == names_view(names@),
            ascending(ks),
            lo <= hi <= names.len(),
            forall|i: int| 0 <= i < lo ==> name_lt(#[trigger] ks[i], name@),
            forall|i: int| hi <= i < names.len() ==> name_lt(name@, #[trigger] ks[i]),
        decreases hi - lo,
    {
        let mid = lo + (hi - lo) / 2;
        match str_order(names[mid].as_str(), name) {
            NameOrder::Same => {
                proof {
                    assert(ks[mid as int] == name@);
                    assert forall|i: int| 0 <= i < mid implies name_lt(#[trigger] ks[i], name@) by {
                        assert(name_lt(ks[i], ks[mid as int]));
                    }
                    assert forall|i: int| mid < i < names.len() implies name_lt(
                        name@,
                        #[trigger] ks[i],
                    ) by {
                        assert(name_lt(ks[mid as int], ks[i]));
                    }
                }
                return (true, mid);
            },
            NameOrder::Before => {
                proof {
                    assert forall|i: int| 0 <= i < mid + 1 implies name_lt(
                        #[trigger] ks[i],
                        name@,
                    ) by {
                        if i < mid {
                            assert(name_lt(ks[i], ks[mid as int]));
                            lemma_name_lt_transitive(ks[i], ks[mid as int], name@);
                        }
                    }
                }
                lo = mid + 1;
            },
            NameOrder::After => {
                proof {
                    assert forall|i: int| mid <= i < names.len() implies name_lt(
                        name@,
                        #[trigger] ks[i],
                    ) by {
                        if mid < i {
                            assert(name_lt(ks[mid as int], ks[i]));
                            lemma_name_lt_transitive(name@, ks[mid as int], ks[i]);
                        }
                    }
                }
                hi = mid;
            },
        }
    }
    proof {
        if ks.contains(name@) {
            let i = choose|i: int| 0 <= i < ks.len() && ks[i] == name@;
            if i < lo {
                lemma_name_lt_asymmetric(ks[i], name@);
            } else {
                lemma_name_lt_asymmetric(name@, ks[i]);
            }
        }
    }
    (false, lo)
}

/// Inserting a name at the position that `search` gives keeps the order.
pub proof fn lemma_insert_keeps_ascending(ks: Seq<Seq<char>>, at: int, name: Seq<char>)
    requires
        ascending(ks),
        0 <= at <= ks.len(),
        forall|i: int| 0 <= i < at ==> name_lt(#[trigger] ks[i], name),
        forall|i: int| at <= i < ks.len() ==> name_lt(name, #[trigger] ks[i]),
    ensures
        ascending(ks.insert(at, name)),
        ks.insert(at, name).to_set() == ks.to_set().insert(name),
{
    let r = ks.insert(at, name);
    assert forall|i: int, j: int| 0 <= i < j < r.len() implies name_lt(
        #[trigger] r[i],
        #[trigger] r[j],
    ) by {
        if i < at {
            assert(r[i] == ks[i]);
            if j == at {
            } else if j < at {
                assert(r[j] == ks[j]);
            } else {
                assert(r[j] == ks[j - 1]);
                if i < j - 1 {
                } else {
                    lemma_name_lt_transitive(ks[i], name, ks[j - 1]);
                }
            }
        } else if i == at {
            assert(r[j] == ks[j - 1]);
        } else {
            assert(r[i] == ks[i - 1]);
            assert(r[j] == ks[j - 1]);
        }
    }
    assert(r.to_set() =~= ks.to_set().insert(name)) by {
        assert forall|x: Seq<char>| r.to_set().contains(x) implies ks.to_set().insert(
            name,
        ).contains(x) by {
            let p = choose|p: int| 0 <= p < r.len() && r[p] == x;
            if p < at {
                assert(ks[p] == x);
            } else if p > at {
                assert(ks[p - 1] == x);
            }
        }
        assert forall|x: Seq<char>| ks.to_set().insert(name).contains(x) implies r.to_set().contains(
            x,
        ) by {
            if x == name {
                assert(r[at] == x);
            } else {
                let p = choose|p: int| 0 <= p < ks.len() && ks[p] == x;
                if p < at {
                    assert(r[p] == x);
                } else {
                    assert(r[p + 1] == x);
                }
            }
        }
    }
}

/// A copy of a list of strings.
pub fn copy_names(v: &Vec<String>) -> (r: Vec<String>)
    ensures
        names_view(r@) == names_view(v@),
{
    let mut r: Vec<String> = Vec::new();
    let mut i: usize = 0;
    while i < v.len()
        invariant
            i <= v.len(),
            r@.len() == i,
            forall|j: int| 0 <= j < i ==> r@[j]@ == v@[j]@,
        decreases v.len() - i,
    {
        r.push(v[i].clone());
        i = i + 1;
    }
    assert(names_view(r@) =~= names_view(v@));
    r
}

/// A finite set of names.
#[derive(Clone, Debug, PartialEq, Eq)]
pub struct NameSet {
    names: Vec<String>,
}

impl NameSet {
    /// The names of the set in ascending order.
    pub closed spec fn listing(&self) -> Seq<Seq<char>> {
        names_view(self.names@)
    }

    /// The invariant of the representation: the listing is ascending.
    pub open spec fn wf(&self) -> bool {
        ascending(self.listing())
    }

    /// The set of names held.
    pub open spec fn view(&self) -> Set<Seq<char>> {
        self.listing().to_set()
    }

    /// The empty set.
    pub fn new() -> (s: NameSet)
        ensures
            s.wf(),
            s.listing() == Seq::<Seq<char>>::empty(),
            s@ == Set::<Seq<char>>::empty(),
    {
        let s = NameSet { names: Vec::new() };
        assert(s.listing() =~= Seq::<Seq<char>>::empty());
        assert(s@ =~= Set::<Seq<char>>::empty());
        s
    }

    /// The number of names in the set.
    pub fn len(&self) -> (n: usize)
        ensures
            n == self.listing().len(),
    {
        self.names.len()
    }

    /// The `i`-th name in ascending order.
    pub fn get(&self, i: usize) -> (name: &String)
        requires
            i < self.listing().len(),
        ensures
            name@ == self.listing()[i as int],
    {
        &self.names[i]
    }

    /// Whether `name` is in the set.
    pub fn contains(&self, name: &str) -> (b: bool)
        requires
            self.wf(),
        ensures
            b == self@.contains(name@),
    {
        let r = search(&self.names, name);
        r.0
    }

    /// Adds `name` to the set; returns whether it was new.
    pub fn insert(&mut self, name: String) -> (added: bool)
        requires
            old(self).wf(),
        ensures
            final(self).wf(),
            final(self)@ == old(self)@.insert(name@),
            added == !old(self)@.contains(name@),
    {
        let r = search(&self.names, name.as_str());
        if r.0 {
            assert(self@ =~= old(self)@.insert(name@));
            false
        } else {
            proof {
                lemma_insert_keeps_ascending(self.listing(), r.1 as int, name@);
            }
            self.names.insert(r.1, name);
            assert(self.listing() =~= old(self).listing().insert(r.1 as int, name@));
            true
        }
    }

    /// Takes `name` out of the set; returns whether it was there.
    pub fn remove(&mut self, name: &str) -> (removed: bool)
        requires
            old(self).wf(),
        ensures
            final(self).wf(),
            final(self)@ == old(self)@.remove(name@),
            removed == old(self)@.contains(name@),
    {
        let r = search(&self.names, name);
        if r.0 {
            let ghost ks = self.listing();
            self.names.remove(r.1);
            proof {
                let at = r.1 as int;
                let now = self.listing();
                assert(now =~= ks.remove(at));
                lemma_ascending_no_duplicates(ks);
                assert forall|i: int, j: int| 0 <= i < j < now.len() implies name_lt(
                    #[trigger] now[i],
                    #[trigger] now[j],
                ) by {
                    let from_i = if i < at { i } else { i + 1 };
                    let from_j = if j < at { j } else { j + 1 };
                    assert(now[i] == ks[from_i]);
                    assert(now[j] == ks[from_j]);
                }
                assert(now.to_set() =~= ks.to_set().remove(name@)) by {
                    assert forall|x: Seq<char>| now.to_set().contains(x) implies ks.to_set().remove(
                        name@,
                    ).contains(x) by {
                        let p = choose|p: int| 0 <= p < now.len() && now[p] == x;
                        let shifted = if p < at { p } else { p + 1 };
                        assert(ks[shifted] == x);
                    }
                    assert forall|x: Seq<char>| ks.to_set().remove(name@).contains(
                        x,
                    ) implies now.to_set().contains(x) by {
                        let p = choose|p: int| 0 <= p < ks.len() && ks[p] == x;
                        if p < at {
                            assert(now[p] == x);
                        } else {
                            assert(now[p - 1] == x);
                        }
                    }
                }
            }
            true
        } else {
            assert(self@ =~= old(self)@.remove(name@));
            false
        }
    }

    /// The set of the names that `names` holds, whatever their order and
    /// however often each occurs.
    pub fn from_names(names: &Vec<String>) -> (s: NameSet)
        ensures
            s.wf(),
            s@ == names_view(names@).to_set(),
    {
        let mut s = NameSet::new();
        let mut i: usize = 0;
        while i < names.len()
            invariant
                i <= names.len(),
                s.wf(),
                s@ == names_view(names@).take(i as int).to_set(),
            decreases names.len() - i,
        {
            s.insert(names[i].clone());
            proof {
                let ks = names_view(names@);
                assert(ks.take(i + 1) =~= ks.take(i as int).push(ks[i as int]));
                assert(ks.take(i + 1).to_set() =~= ks.take(i as int).to_set().insert(ks[i as int]))
                    by {
                    ks.take(i as int).lemma_push_to_set_commute(ks[i as int]);
                }
            }
            i = i + 1;
        }
        assert(names_view(names@).take(names.len() as int) =~= names_view(names@));
        s
    }

    /// The names of the set in ascending order, as owned strings.
    pub fn to_names(&self) -> (names: Vec<String>)
        ensures
            names_view(names@) == self.listing(),
    {
        let names = self.names.clone();
        assert(names_view(names@) =~= self.listing());
        names
    }

    /// The names of `self` that are not in `other`.
    pub fn difference(&self, other: &NameSet) -> (s: NameSet)
        requires
            self.wf(),
            other.wf(),
        ensures
            s.wf(),
            s@ == self@.difference(other@),
    {
        let mut out: Vec<String> = Vec::new();
        let mut i: usize = 0;
        let ghost ks = self.listing();
        while i < self.names.len()
            invariant
                i <= self.names.len(),
                ks == self.listing(),
                self.wf(),
                other.wf(),
                ascending(names_view(out@)),
                names_view(out@).to_set() == ks.take(i as int).to_set().difference(other@),
                forall|p: int|
                    0 <= p < out@.len() ==> exists|q: int|
                        0 <= q < i && #[trigger] names_view(out@)[p] == ks[q],
            decreases self.names.len() - i,
        {
            let ghost before = names_view(out@);
            proof {
                ks.take(i as int).lemma_push_to_set_commute(ks[i as int]);
                assert(ks.take(i + 1) =~= ks.take(i as int).push(ks[i as int]));
            }
            if !other.contains(self.names[i].as_str()) {
                out.push(self.names[i].clone());
                proof {
                    let after = names_view(out@);
                    assert(after =~= before.push(ks[i as int]));
                    before.lemma_push_to_set_commute(ks[i as int]);
                    assert forall|p: int, q: int| 0 <= p < q < after.len() implies name_lt(
                        #[trigger] after[p],
                        #[trigger] after[q],
                    ) by {
                        if q == after.len() - 1 {
                            let w = choose|w: int| 0 <= w < i && before[p] == ks[w];
                            assert(name_lt(ks[w], ks[i as int]));
                        } else {
                            assert(name_lt(before[p], before[q]));
                        }
                    }
                    assert forall|p: int| 0 <= p < after.len() implies exists|q: int|
                        0 <= q < i + 1 && #[trigger] after[p] == ks[q] by {
                        if p == after.len() - 1 {
                            assert(after[p] == ks[i as int]);
                        } else {
                            let w = choose|w: int| 0 <= w < i && before[p] == ks[w];
                            assert(after[p] == ks[w]);
                        }
                    }
                    assert(after.to_set() =~= ks.take(i + 1).to_set().difference(other@));
                }
            } else {
                proof {
                    assert(before.to_set() =~= ks.take(i + 1).to_set().difference(other@));
                }
            }
            i = i + 1;
        }
        assert(ks.take(self.names.len() as int) =~= ks);
        NameSet { names: out }
    }

    /// The names that are in both `self` and `other`.
    pub fn intersection(&self, other: &NameSet) -> (s: NameSet)
        requires
            self.wf(),
            other.wf(),
        ensures
            s.wf(),
            s@ == self@.intersect(other@),
    {
        let mut out: Vec<String> = Vec::new();
        let mut i: usize = 0;
        let ghost ks = self.listing();
        while i < self.names.len()
            invariant
                i <= self.names.len(),
                ks == self.listing(),
                self.wf(),
                other.wf(),
                ascending(names_view(out@)),
                names_view(out@).to_set() == ks.take(i as int).to_set().intersect(other@),
                forall|p: int|
                    0 <= p < out@.len() ==> exists|q: int|
                        0 <= q < i && #[trigger] names_view(out@)[p] == ks[q],
            decreases self.names.len() - i,
        {
            let ghost before = names_view(out@);
            proof {
                ks.take(i as int).lemma_push_to_set_commute(ks[i as int]);
                assert(ks.take(i + 1) =~= ks.take(i as int).push(ks[i as int]));
            }
            if other.contains(self.names[i].as_str()) {
                out.push(self.names[i].clone());
                proof {
                    let after = names_view(out@);
                    assert(after =~= before.push(ks[i as int]));
                    before.lemma_push_to_set_commute(ks[i as int]);
                    assert forall|p: int, q: int| 0 <= p < q < after.len() implies name_lt(
                        #[trigger] after[p],
                        #[trigger] after[q],
                    ) by {
                        if q == after.len() - 1 {
                            let w = choose|w: int| 0 <= w < i && before[p] == ks[w];
                            assert(name_lt(ks[w], ks[i as int]));
                        } else {
                            assert(name_lt(before[p], before[q]));
                        }
                    }
                    assert forall|p: int| 0 <= p < after.len() implies exists|q: int|
                        0 <= q < i + 1 && #[trigger] after[p] == ks[q] by {
                        if p == after.len() - 1 {
                            assert(after[p] == ks[i as int]);
                        } else {
                            let w = choose|w: int| 0 <= w < i && before[p] == ks[w];
                            assert(after[p] == ks[w]);
                        }
                    }
                    assert(after.to_set() =~= ks.take(i + 1).to_set().intersect(other@));
                }
            } else {
                proof {
                    assert(before.to_set() =~= ks.take(i + 1).to_set().intersect(other@));
                }
            }
            i = i + 1;
        }
        assert(ks.take(self.names.len() as int) =~= ks);
        NameSet { names: out }
    }

    /// The names that are in `self`, in `other`, or in both.
    pub fn union(&self, other: &NameSet) -> (s: NameSet)
        requires
            self.wf(),
            other.wf(),
        ensures
            s.wf(),
            s@ == self@.union(other@),
    {
        let mut s = NameSet { names: self.names.clone() };
        assert(s.listing() =~= self.listing());
        let mut i: usize = 0;
        let ghost ks = other.listing();
        while i < other.names.len()
            invariant
                i <= other.names.len(),
                ks == other.listing(),
                s.wf(),
                s@ == self@.union(ks.take(i as int).to_set()),
            decreases other.names.len() - i,
        {
            proof {
                ks.take(i as int).lemma_push_to_set_commute(ks[i as int]);
                assert(ks.take(i + 1) =~= ks.take(i as int).push(ks[i as int]));
            }
            s.insert(other.names[i].clone());
            assert(s@ =~= self@.union(ks.take(i + 1).to_set()));
            i = i + 1;
        }
        assert(ks.take(other.names.len() as int) =~= ks);
        s
    }
}

} // verus!
