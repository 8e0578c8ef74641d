//! Maps keyed by name, kept in ascending order of their keys.

use crate::name_set::ascending;
use crate::name_set::copy_names;
use crate::name_set::lemma_ascending_no_duplicates;
use crate::name_set::lemma_insert_keeps_ascending;
use crate::name_set::names_view;
use crate::name_set::search;
use vstd::prelude::*;

verus! {

/// A finite map from names to values of type `V`.
#[derive(Clone, Debug, PartialEq, Eq)]
pub struct NameMap<V> {
    names: Vec<String>,
    items: Vec<V>,
}

impl<V> NameMap<V> {
    /// The keys of the map in ascending order.
    pub closed spec fn keys(&self) -> Seq<Seq<char>> {
        names_view(self.names@)
    }

    /// The values of the map, each at the position of its key in `keys`.
    pub closed spec fn values(&self) -> Seq<V> {
        self.items@
    }

    /// The invariant of the representation: one value for each key, and the
    /// keys in ascending order.
    pub open spec fn wf(&self) -> bool {
        &&& self.keys().len() == self.values().len()
        &&& ascending(self.keys())
    }

    /// The map held.
    pub open spec fn view(&self) -> Map<Seq<char>, V> {
        Map::new(
            |k: Seq<char>| self.keys().contains(k),
            |k: Seq<char>| self.values()[self.keys().index_of(k)],
        )
    }

    /// The value at a position is the value of the key at that position.
    pub proof fn lemma_value_at(&self, i: int)
        requires
            self.wf(),
            0 <= i < self.keys().len(),
        ensures
            self@.contains_key(self.keys()[i]),
            self@[self.keys()[i]] == self.values()[i],
    {
        lemma_ascending_no_duplicates(self.keys());
        let k = self.keys()[i];
        assert(self.keys().contains(k));
        let j = self.keys().index_of(k);
        assert(self.keys()[j] == k);
    }

    /// The empty map.
    pub fn new() -> (m: NameMap<V>)
        ensures
            m.wf(),
            m.keys() == Seq::<Seq<char>>::empty(),
            m@ == Map::<Seq<char>, V>::empty(),
    {
        let m = NameMap { names: Vec::new(), items: Vec::new() };
        assert(m.keys() =~= Seq::<Seq<char>>::empty());
        assert(m@ =~= Map::<Seq<char>, V>::empty());
        m
    }

    /// A map with the keys of this one and the given values, each value for
    /// the key at its position.
    pub fn with_values<W>(&self, values: Vec<W>) -> (m: NameMap<W>)
        requires
            self.wf(),
            values@.len() == self.keys().len(),
        ensures
            m.wf(),
            m.keys() == self.keys(),
            m.values() == values@,
    {
        let names = copy_names(&self.names);
        let m = NameMap { names, items: values };
        assert(m.keys() =~= self.keys());
        m
    }

    /// The number of entries.
    pub fn len(&self) -> (n: usize)
        ensures
            n == self.keys().len(),
    {
        self.names.len()
    }

    /// The key at position `i` in ascending order.
    pub fn key_at(&self, i: usize) -> (name: &String)
        requires
            i < self.keys().len(),
        ensures
            name@ == self.keys()[i as int],
    {
        &self.names[i]
    }

    /// The value of the key at position `i`.
    pub fn value_at(&self, i: usize) -> (value: &V)
        requires
            self.wf(),
            i < self.keys().len(),
        ensures
            *value == self.values()[i as int],
            *value == self@[self.keys()[i as int]],
    {
        proof {
            self.lemma_value_at(i as int);
        }
        &self.items[i]
    }

    /// The position of `name` among the keys, if it is one.
    pub fn position(&self, name: &str) -> (r: Option<usize>)
        requires
            self.wf(),
        ensures
            r is Some <==> self@.contains_key(name@),
            r matches Some(i) ==> i < self.keys().len() && self.keys()[i as int] == name@,
    {
        let r = search(&self.names, name);
        if r.0 {
            Some(r.1)
        } else {
            None
        }
    }

    /// Whether `name` is a key of the map.
    pub fn contains_key(&self, name: &str) -> (b: bool)
        requires
            self.wf(),
        ensures
            b == self@.contains_key(name@),
    {
        let r = search(&self.names, name);
        r.0
    }

    /// The value of `name`, if it is a key.
    pub fn get(&self, name: &str) -> (r: Option<&V>)
        requires
            self.wf(),
        ensures
            r is Some <==> self@.contains_key(name@),
            r matches Some(v) ==> *v == self@[name@],
    {
        let r = search(&self.names, name);
        if r.0 {
            proof {
                self.lemma_value_at(r.1 as int);
            }
            Some(&self.items[r.1])
        } else {
            None
        }
    }

    /// Gives `name` the value `value`, whether or not it had one.
    pub fn insert(&mut self, name: String, value: V)
        requires
            old(self).wf(),
        ensures
            final(self).wf(),
            final(self)@ == old(self)@.insert(name@, value),
    {
        let r = search(&self.names, name.as_str());
        let ghost old_keys = self.keys();
        let ghost old_values = self.values();
        proof {
            lemma_ascending_no_duplicates(old_keys);
        }
        if r.0 {
            self.items.set(r.1, value);
            proof {
                assert(self.keys() == old_keys);
                assert(self@ =~= old(self)@.insert(name@, value)) by {
                    assert forall|k: Seq<char>| self@.contains_key(k) implies #[trigger] self@[k]
                        == old(self)@.insert(name@, value)[k] by {
                        let j = old_keys.index_of(k);
                        assert(old_keys[j] == k);
                        if k == name@ {
                            assert(j == r.1);
                        }
                    }
                }
            }
        } else {
            proof {
                lemma_insert_keeps_ascending(old_keys, r.1 as int, name@);
            }
            self.names.insert(r.1, name);
            self.items.insert(r.1, value);
            proof {
                let at = r.1 as int;
                assert(self.keys() =~= old_keys.insert(at, name@));
                lemma_ascending_no_duplicates(self.keys());
                assert(self@ =~= old(self)@.insert(name@, value)) by {
                    assert forall|k: Seq<char>| self@.contains_key(k) <==> old(self)@.insert(
                        name@,
                        value,
                    ).contains_key(k) by {
                        assert(self.keys().to_set().contains(k) <==> old_keys.to_set().insert(
                            name@,
                        ).contains(k));
                    }
                    assert forall|k: Seq<char>| self@.contains_key(k) implies #[trigger] self@[k]
                        == old(self)@.insert(name@, value)[k] by {
                        let j = self.keys().index_of(k);
                        assert(self.keys()[j] == k);
                        if k == name@ {
                            assert(self.keys()[at] == name@);
                            assert(j == at);
                        } else {
                            assert(old_keys.to_set().contains(k));
                            let p = old_keys.index_of(k);
                            assert(old_keys[p] == k);
                            if p < at {
                                assert(self.keys()[p] == k);
                                assert(j == p);
                            } else {
                                assert(self.keys()[p + 1] == k);
                                assert(j == p + 1);
                            }
                        }
                    }
                }
            }
        }
    }

    /// Puts `value` in the place of the value of the key at position `i`, and
    /// returns the value that was there.
    pub fn replace_value_at(&mut self, i: usize, value: V) -> (previous: V)
        requires
            old(self).wf(),
            i < old(self).keys().len(),
        ensures
            final(self).wf(),
            final(self).keys() == old(self).keys(),
            final(self).values() == old(self).values().update(i as int, value),
            final(self)@ == old(self)@.insert(old(self).keys()[i as int], value),
            previous == old(self).values()[i as int],
            previous == old(self)@[old(self).keys()[i as int]],
    {
        let ghost old_keys = self.keys();
        proof {
            self.lemma_value_at(i as int);
        }
        self.items.push(value);
        let previous = self.items.swap_remove(i);
        proof {
            assert(self.values() =~= old(self).values().update(i as int, value));
            lemma_ascending_no_duplicates(old_keys);
            assert(self@ =~= old(self)@.insert(old_keys[i as int], value)) by {
                assert(old_keys.contains(old_keys[i as int]));
                assert forall|k: Seq<char>| self@.contains_key(k) implies #[trigger] self@[k]
                    == old(self)@.insert(old_keys[i as int], value)[k] by {
                    let j = old_keys.index_of(k);
                    assert(old_keys[j] == k);
                }
            }
        }
        previous
    }

    /// Replaces the value of the key at position `i`.
    pub fn set_value_at(&mut self, i: usize, value: V)
        requires
            old(self).wf(),
            i < old(self).keys().len(),
        ensures
            final(self).wf(),
            final(self).keys() == old(self).keys(),
            final(self).values() == old(self).values().update(i as int, value),
            final(self)@ == old(self)@.insert(old(self).keys()[i as int], value),
    {
        let ghost old_keys = self.keys();
        self.items.set(i, value);
        proof {
            lemma_ascending_no_duplicates(old_keys);
            assert(self@ =~= old(self)@.insert(old_keys[i as int], value)) by {
                assert(old_keys.contains(old_keys[i as int]));
                assert forall|k: Seq<char>| self@.contains_key(k) implies #[trigger] self@[k]
                    == old(self)@.insert(old_keys[i as int], value)[k] by {
                    let j = old_keys.index_of(k);
                    assert(old_keys[j] == k);
                }
            }
        }
    }
}

} // verus!
