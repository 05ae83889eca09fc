//! Maps with texts for keys, kept in the order of their keys.

use crate::order::{self, comes_before};
use crate::text::same_text;
use vstd::prelude::*;

verus! {

/// A map from texts, in the order of its keys.
pub struct TextMap<V> {
    entries: Vec<(String, V)>,
}

impl<V> TextMap<V> {
    /// The entries in order.
    pub closed spec fn entries(self) -> Seq<(String, V)> {
        self.entries@
    }

    /// The keys in order.
    pub open spec fn keys(self) -> Seq<Seq<char>> {
        self.entries().map_values(|e: (String, V)| e.0@)
    }

    /// The keys are in order, each one once: this holds of every map.
    #[verifier::type_invariant]
    pub open spec fn wf(self) -> bool {
        order::strictly_sorted(self.keys())
    }

    /// Does the map hold `key`?
    pub open spec fn has(self, key: Seq<char>) -> bool {
        self.keys().contains(key)
    }

    /// What the map holds under `key`.
    pub open spec fn at(self, key: Seq<char>) -> V {
        self.entries()[self.keys().index_of(key)].1
    }

    /// The entry at position `i` is what the map holds under its key.
    pub proof fn lemma_at(self, i: int)
        requires
            self.wf(),
            0 <= i < self.entries().len(),
        ensures
            self.keys()[i] == self.entries()[i].0@,
            self.has(self.keys()[i]),
            self.at(self.keys()[i]) == self.entries()[i].1,
    {
        let key = self.keys()[i];
        let j = self.keys().index_of(key);
        assert(self.keys().contains(key));
        assert(0 <= j < self.keys().len() && self.keys()[j] == key);
        if i < j {
            assert(order::text_less(self.keys()[i], self.keys()[j]));
            order::lemma_text_less_asymmetric(key, key);
        } else if j < i {
            assert(order::text_less(self.keys()[j], self.keys()[i]));
            order::lemma_text_less_asymmetric(key, key);
        }
    }

    /// The map without entries.
    pub fn new() -> (map: Self)
        ensures
            map.wf(),
            map.entries() == Seq::<(String, V)>::empty(),
            forall|key: Seq<char>| !map.has(key),
    {
        TextMap { entries: Vec::new() }
    }

    /// How many entries there are.
    pub fn len(&self) -> (n: usize)
        ensures
            n == self.entries().len(),
    {
        self.entries.len()
    }

    /// The entry at position `i` of the order.
    pub fn entry(&self, i: usize) -> (entry: &(String, V))
        requires
            i < self.entries().len(),
        ensures
            *entry == self.entries()[i as int],
    {
        &self.entries[i]
    }

    /// The first position whose key does not come before `key`.
    fn slot(&self, key: &str) -> (i: usize)
        ensures
            i <= self.entries().len(),
            forall|k: int| 0 <= k < i ==> order::text_less(#[trigger] self.keys()[k], key@),
            i < self.entries().len() ==> !order::text_less(self.keys()[i as int], key@),
    {
        proof {
            use_type_invariant(self);
        }
        let mut lo: usize = 0;
        let mut hi: usize = self.entries.len();
        while lo < hi
            invariant
                self.wf(),
                lo <= hi <= self.entries().len(),
                forall|k: int| 0 <= k < lo ==> order::text_less(#[trigger] self.keys()[k], key@),
                forall|k: int|
                    hi <= k < self.keys().len() ==> !order::text_less(
                        #[trigger] self.keys()[k],
                        key@,
                    ),
            decreases hi - lo,
        {
            let mid: usize = lo + (hi - lo) / 2;
            let ghost pivot = self.keys()[mid as int];
            assert(pivot == self.entries()[mid as int].0@);
            if comes_before(self.entries[mid].0.as_str(), key) {
                assert forall|k: int| 0 <= k < mid + 1 implies order::text_less(
                    #[trigger] self.keys()[k],
                    key@,
                ) by {
                    if k < mid {
                        assert(order::text_less(self.keys()[k], pivot));
                        order::lemma_text_less_transitive(self.keys()[k], pivot, key@);
                    }
                }
                lo = mid + 1;
            } else {
                assert forall|k: int| mid <= k < self.keys().len() implies !order::text_less(
                    #[trigger] self.keys()[k],
                    key@,
                ) by {
                    if k > mid && order::text_less(self.keys()[k], key@) {
                        assert(order::text_less(pivot, self.keys()[k]));
                        order::lemma_text_less_transitive(pivot, self.keys()[k], key@);
                    }
                }
                hi = mid;
            }
        }
        lo
    }

    /// A key that is missing at its slot is missing altogether.
    proof fn lemma_missing(self, i: int, key: Seq<char>)
        requires
            self.wf(),
            0 <= i <= self.entries().len(),
            forall|k: int| 0 <= k < i ==> order::text_less(#[trigger] self.keys()[k], key),
            i < self.entries().len() ==> order::text_less(key, self.keys()[i]),
        ensures
            !self.has(key),
    {
        assert forall|k: int| 0 <= k < self.keys().len() implies self.keys()[k] != key by {
            order::lemma_text_less_asymmetric(key, key);
            if k < i {
                assert(order::text_less(self.keys()[k], key));
            } else if k > i {
                assert(order::text_less(self.keys()[i], self.keys()[k]));
                order::lemma_text_less_transitive(key, self.keys()[i], self.keys()[k]);
            }
        }
    }

    /// What the map holds under `key`.
    pub fn get(&self, key: &str) -> (value: Option<&V>)
        ensures
            match value {
                Some(v) => self.has(key@) && *v == self.at(key@),
                None => !self.has(key@),
            },
    {
        proof {
            use_type_invariant(self);
        }
        let i: usize = self.slot(key);
        if i < self.entries.len() && same_text(self.entries[i].0.as_str(), key) {
            proof {
                self.lemma_at(i as int);
            }
            Some(&self.entries[i].1)
        } else {
            proof {
                if i < self.entries().len() {
                    assert(self.keys()[i as int] == self.entries()[i as int].0@);
                    order::lemma_text_less_total(self.keys()[i as int], key@);
                }
                self.lemma_missing(i as int, key@);
            }
            None
        }
    }

    /// Puts `value` under `key`, in place of what was there.
    pub fn set(&mut self, key: String, value: V)
        ensures
            final(self).wf(),
            final(self).has(key@),
            final(self).at(key@) == value,
            forall|other: Seq<char>| #![trigger final(self).has(other)] #![trigger old(self).has(other)]
                other != key@ ==> final(self).has(other) == old(self).has(other) && (old(self).has(
                    other,
                ) ==> final(self).at(other) == old(self).at(other)),
    {
        proof {
            use_type_invariant(&*self);
        }
        let i: usize = self.slot(key.as_str());
        let ghost before = *self;
        let present: bool = i < self.entries.len() && same_text(
            self.entries[i].0.as_str(),
            key.as_str(),
        );
        let ghost entry = (key, value);
        let mut entries: Vec<(String, V)> = Vec::new();
        std::mem::swap(&mut entries, &mut self.entries);
        if present {
            entries.set(i, (key, value));
        } else {
            entries.insert(i, (key, value));
        }
        let ghost after = TextMap { entries };
        proof {
            if present {
                assert(after.keys() =~= before.keys());
            } else {
                assert(after.keys() =~= before.keys().insert(i as int, entry.0@));
                if i < before.entries().len() {
                    assert(before.keys()[i as int] == before.entries()[i as int].0@);
                    order::lemma_text_less_total(before.keys()[i as int], entry.0@);
                }
                before.lemma_missing(i as int, entry.0@);
                lemma_sorted_insert(before.keys(), i as int, entry.0@);
            }
            after.lemma_at(i as int);
            let shift = if present {
                0int
            } else {
                1int
            };
            assert forall|other: Seq<char>| other != entry.0@ implies after.has(other)
                == before.has(other) && (before.has(other) ==> after.at(other) == before.at(
                other,
            )) by {
                if before.has(other) {
                    let j = before.keys().index_of(other);
                    before.lemma_at(j);
                    let k = if j < i {
                        j
                    } else {
                        j + shift
                    };
                    assert(after.entries()[k] == before.entries()[j]);
                    after.lemma_at(k);
                }
                if after.has(other) {
                    let j = after.keys().index_of(other);
                    after.lemma_at(j);
                    let k = if j < i {
                        j
                    } else {
                        j - shift
                    };
                    assert(j != i);
                    assert(after.entries()[j] == before.entries()[k]);
                    before.lemma_at(k);
                }
            }
        }
        self.entries = entries;
    }

    /// Takes out what the map holds under `key`.
    pub fn remove(&mut self, key: &str) -> (value: Option<V>)
        ensures
            final(self).wf(),
            match value {
                Some(v) => old(self).has(key@) && v == old(self).at(key@),
                None => !old(self).has(key@),
            },
            !final(self).has(key@),
            forall|other: Seq<char>| #![trigger final(self).has(other)] #![trigger old(self).has(other)]
                other != key@ ==> final(self).has(other) == old(self).has(other) && (old(self).has(
                    other,
                ) ==> final(self).at(other) == old(self).at(other)),
    {
        proof {
            use_type_invariant(&*self);
        }
        let i: usize = self.slot(key);
        let ghost before = *self;
        if !(i < self.entries.len() && same_text(self.entries[i].0.as_str(), key)) {
            proof {
                if i < self.entries().len() {
                    assert(self.keys()[i as int] == self.entries()[i as int].0@);
                    order::lemma_text_less_total(self.keys()[i as int], key@);
                }
                self.lemma_missing(i as int, key@);
            }
            return None;
        }
        proof {
            self.lemma_at(i as int);
        }
        let mut entries: Vec<(String, V)> = Vec::new();
        std::mem::swap(&mut entries, &mut self.entries);
        let (_, value) = entries.remove(i);
        let ghost after = TextMap { entries };
        proof {
            assert(after.keys() =~= before.keys().remove(i as int));
            assert forall|a: int, b: int| 0 <= a < b < after.keys().len() implies order::text_less(
                after.keys()[a],
                after.keys()[b],
            ) by {
                let x = if a < i {
                    a
                } else {
                    a + 1
                };
                let y = if b < i {
                    b
                } else {
                    b + 1
                };
                assert(order::text_less(before.keys()[x], before.keys()[y]));
            }
            assert forall|k: int| 0 <= k < after.keys().len() implies after.keys()[k] != key@ by {
                let x = if k < i {
                    k
                } else {
                    k + 1
                };
                assert(after.keys()[k] == before.keys()[x]);
                order::lemma_text_less_asymmetric(key@, key@);
                if x < i {
                    assert(order::text_less(before.keys()[x], before.keys()[i as int]));
                } else {
                    assert(order::text_less(before.keys()[i as int], before.keys()[x]));
                }
            }
            assert forall|other: Seq<char>| other != key@ implies after.has(other) == before.has(
                other,
            ) && (before.has(other) ==> after.at(other) == before.at(other)) by {
                if before.has(other) {
                    let j = before.keys().index_of(other);
                    before.lemma_at(j);
                    let k = if j < i {
                        j
                    } else {
                        j - 1
                    };
                    assert(after.entries()[k] == before.entries()[j]);
                    after.lemma_at(k);
                }
                if after.has(other) {
                    let j = after.keys().index_of(other);
                    after.lemma_at(j);
                    let k = if j < i {
                        j
                    } else {
                        j + 1
                    };
                    assert(after.entries()[j] == before.entries()[k]);
                    before.lemma_at(k);
                }
            }
        }
        self.entries = entries;
        Some(value)
    }
}

/// Inserting a key between those before it and those behind it keeps the order.
proof fn lemma_sorted_insert(keys: Seq<Seq<char>>, i: int, key: Seq<char>)
    requires
        order::strictly_sorted(keys),
        0 <= i <= keys.len(),
        forall|k: int| 0 <= k < i ==> order::text_less(#[trigger] keys[k], key),
        i < keys.len() ==> order::text_less(key, keys[i]),
    ensures
        order::strictly_sorted(keys.insert(i, key)),
{
    let out = keys.insert(i, key);
    assert forall|a: int, b: int| 0 <= a < b < out.len() implies order::text_less(
        out[a],
        out[b],
    ) by {
        if b < i {
            assert(out[a] == keys[a] && out[b] == keys[b]);
        } else if b == i {
            assert(out[a] == keys[a]);
        } else {
            assert(out[b] == keys[b - 1]);
            if a < i {
                assert(out[a] == keys[a]);
            } else if a == i {
                if b - 1 > i {
                    assert(order::text_less(keys[i], keys[b - 1]));
                    order::lemma_text_less_transitive(key, keys[i], keys[b - 1]);
                }
            } else {
                assert(out[a] == keys[a - 1]);
            }
        }
    }
}

} // verus!
