//! A map from names to values that keeps the order in which the names came.

use crate::text::{first_index, is_first_index, lemma_first_index, str_eq};
use vstd::prelude::*;

verus! {

/// A map keyed by name. The entries stand in the order in which their names
/// were first put in; a name that is put in again keeps its place.
#[derive(Debug)]
pub struct NameMap<V> {
    names: Vec<String>,
    values: Vec<V>,
}

impl<V> NameMap<V> {
    /// The names, in their order.
    pub closed spec fn names(&self) -> Seq<Seq<char>> {
        self.names.deep_view()
    }

    /// The values, each at the index of its name.
    pub closed spec fn values(&self) -> Seq<V> {
        self.values@
    }

    /// There is a value for each name, and no name stands twice.
    pub open spec fn wf(&self) -> bool {
        &&& self.names().len() == self.values().len()
        &&& self.names().no_duplicates()
    }

    /// The value under `name`, if the map has one.
    pub open spec fn lookup(&self, name: Seq<char>) -> Option<V> {
        match first_index(self.names(), name) {
            Some(i) => Some(self.values()[i]),
            None => None,
        }
    }

    /// Whether the map has a value under `name`.
    pub open spec fn has(&self, name: Seq<char>) -> bool {
        self.names().contains(name)
    }

    /// An empty map.
    pub fn new() -> (r: Self)
        ensures
            r.wf(),
            r.names().len() == 0,
            r.values().len() == 0,
    {
        let r = NameMap { names: Vec::new(), values: Vec::new() };
        assert(r.names() =~= Seq::empty());
        r
    }

    /// The number of entries.
    pub fn len(&self) -> (n: usize)
        requires
            self.wf(),
        ensures
            n == self.names().len(),
    {
        self.values.len()
    }

    /// Whether the map has no entry.
    pub fn is_empty(&self) -> (b: bool)
        requires
            self.wf(),
        ensures
            b == (self.names().len() == 0),
    {
        self.values.len() == 0
    }

    /// The index of the entry under `name`.
    pub fn index_of(&self, name: &str) -> (r: Option<usize>)
        ensures
            match r {
                Some(i) => is_first_index(self.names(), name@, i as int),
                None => !self.has(name@),
            },
    {
        let mut i: usize = 0;
        while i < self.names.len()
            invariant
                i <= self.names.len(),
                forall|j: int| 0 <= j < i ==> self.names()[j] != name@,
            decreases self.names.len() - i,
        {
            if str_eq(self.names[i].as_str(), name) {
                return Some(i);
            }
            i += 1;
        }
        None
    }

    /// Whether the map has a value under `name`.
    pub fn contains_key(&self, name: &str) -> (b: bool)
        ensures
            b == self.has(name@),
    {
        self.index_of(name).is_some()
    }

    /// The value under `name`.
    pub fn get(&self, name: &str) -> (r: Option<&V>)
        requires
            self.wf(),
        ensures
            match r {
                Some(v) => self.lookup(name@) == Some(*v),
                None => self.lookup(name@) is None,
            },
    {
        match self.index_of(name) {
            Some(i) => {
                proof {
                    lemma_first_index(self.names(), name@, i as int);
                }
                Some(&self.values[i])
            },
            None => None,
        }
    }

    /// The name of the entry at index `i`.
    pub fn name_at(&self, i: usize) -> (r: &String)
        requires
            i < self.names().len(),
        ensures
            r@ == self.names()[i as int],
    {
        &self.names[i]
    }

    /// The value of the entry at index `i`.
    pub fn value_at(&self, i: usize) -> (r: &V)
        requires
            self.wf(),
            i < self.names().len(),
        ensures
            *r == self.values()[i as int],
    {
        &self.values[i]
    }

    /// Puts `value` under `name`. A name that the map has keeps its place and
    /// gets the new value, and the old one is handed back; a new name goes to
    /// the end.
    pub fn insert(&mut self, name: String, value: V) -> (r: Option<V>)
        requires
            old(self).wf(),
        ensures
            final(self).wf(),
            match first_index(old(self).names(), name@) {
                Some(i) => {
                    &&& final(self).names() == old(self).names()
                    &&& final(self).values() == old(self).values().update(i, value)
                    &&& r == Some(old(self).values()[i])
                },
                None => {
                    &&& final(self).names() == old(self).names().push(name@)
                    &&& final(self).values() == old(self).values().push(value)
                    &&& r is None
                },
            },
            final(self).lookup(name@) == Some(value),
            forall|other: Seq<char>|
                other != name@ ==> final(self).lookup(other) == old(self).lookup(other),
    {
        match self.index_of(name.as_str()) {
            Some(i) => {
                proof {
                    lemma_first_index(self.names(), name@, i as int);
                }
                let mut slot = value;
                std::mem::swap(&mut self.values[i], &mut slot);
                proof {
                    assert(self.values() =~= old(self).values().update(i as int, value));
                    assert forall|other: Seq<char>| other != name@ implies self.lookup(other)
                        == old(self).lookup(other) by {
                        match first_index(self.names(), other) {
                            Some(j) => {
                                assert(self.names().contains(other));
                                let w = choose|w: int| is_first_index(self.names(), other, w);
                                assert(j == w);
                                if is_first_index(self.names(), other, j) {
                                    assert(j != i);
                                } else {
                                    lemma_contains_has_first(self.names(), other);
                                }
                            },
                            None => {},
                        }
                    }
                }
                Some(slot)
            },
            None => {
                let ghost before = self.names();
                self.names.push(name);
                self.values.push(value);
                proof {
                    assert(self.names() =~= before.push(name@));
                    let n = before.len() as int;
                    assert(is_first_index(self.names(), name@, n)) by {
                        assert forall|j: int| 0 <= j < n implies self.names()[j] != name@ by {
                            assert(before.contains(before[j]));
                        }
                    }
                    lemma_first_index(self.names(), name@, n);
                    assert forall|a: int, b: int|
                        0 <= a < self.names().len() && 0 <= b < self.names().len() && a
                            != b implies self.names()[a] != self.names()[b] by {
                        if a < n && b < n {
                            assert(before[a] != before[b]);
                        } else if a < n {
                            assert(before.contains(before[a]));
                        } else {
                            assert(before.contains(before[b]));
                        }
                    }
                    assert forall|other: Seq<char>| other != name@ implies self.lookup(other)
                        == old(self).lookup(other) by {
                        if before.contains(other) {
                            lemma_contains_has_first(before, other);
                            let j = choose|j: int| is_first_index(before, other, j);
                            assert(is_first_index(self.names(), other, j));
                            lemma_first_index(self.names(), other, j);
                            lemma_first_index(before, other, j);
                        } else {
                            if self.names().contains(other) {
                                let j = choose|j: int|
                                    0 <= j < self.names().len() && self.names()[j] == other;
                                assert(j < n);
                                assert(before[j] == other);
                            }
                        }
                    }
                }
                None
            },
        }
    }
}

impl<V> NameMap<V> {
    /// The entry at index `i` is what the map has under its name.
    pub proof fn lemma_lookup_at(&self, i: int)
        requires
            self.wf(),
            0 <= i < self.names().len(),
        ensures
            self.lookup(self.names()[i]) == Some(self.values()[i]),
    {
        assert(is_first_index(self.names(), self.names()[i], i));
        lemma_first_index(self.names(), self.names()[i], i);
    }

    /// A map that has no value under any name has no entry.
    pub proof fn lemma_nothing_held(&self)
        requires
            self.wf(),
            forall|name: Seq<char>| self.lookup(name) is None,
        ensures
            self.names().len() == 0,
    {
        if self.names().len() > 0 {
            self.lemma_lookup_at(0);
        }
    }

    /// The map has a value under exactly the names that stand in it.
    pub proof fn lemma_lookup_some(&self, name: Seq<char>)
        ensures
            self.lookup(name) is Some <==> self.has(name),
    {
    }
}

impl<V: Copy> NameMap<V> {
    /// Takes over every entry of `other`: where both maps have a name, the
    /// value of `other` stands.
    pub fn merge(&mut self, other: &Self)
        requires
            old(self).wf(),
            other.wf(),
        ensures
            final(self).wf(),
            forall|name: Seq<char>|
                #![auto]
                final(self).lookup(name) == if other.has(name) {
                    other.lookup(name)
                } else {
                    old(self).lookup(name)
                },
    {
        let mut k: usize = 0;
        while k < other.len()
            invariant
                self.wf(),
                other.wf(),
                k <= other.names().len(),
                forall|name: Seq<char>|
                    #![auto]
                    self.lookup(name) == if other.names().take(k as int).contains(name) {
                        other.lookup(name)
                    } else {
                        old(self).lookup(name)
                    },
            decreases other.names().len() - k,
        {
            let name = other.name_at(k).clone();
            let value = *other.value_at(k);
            let ghost before = *self;
            self.insert(name, value);
            proof {
                other.lemma_lookup_at(k as int);
                assert forall|n: Seq<char>|
                    #![auto]
                    self.lookup(n) == if other.names().take(k + 1).contains(n) {
                        other.lookup(n)
                    } else {
                        old(self).lookup(n)
                    } by {
                    lemma_take_contains(other.names(), k as int, n);
                }
            }
            k += 1;
        }
        assert(other.names().take(other.names().len() as int) =~= other.names());
    }

    /// Takes over the entries of `other` under names that this map lacks.
    pub fn merge_only_new(&mut self, other: &Self)
        requires
            old(self).wf(),
            other.wf(),
        ensures
            final(self).wf(),
            forall|name: Seq<char>|
                #![auto]
                final(self).lookup(name) == if old(self).has(name) {
                    old(self).lookup(name)
                } else {
                    other.lookup(name)
                },
    {
        let mut k: usize = 0;
        while k < other.len()
            invariant
                self.wf(),
                other.wf(),
                k <= other.names().len(),
                forall|name: Seq<char>|
                    #![auto]
                    self.lookup(name) == if old(self).has(name) {
                        old(self).lookup(name)
                    } else if other.names().take(k as int).contains(name) {
                        other.lookup(name)
                    } else {
                        None
                    },
            decreases other.names().len() - k,
        {
            let name = other.name_at(k);
            proof {
                other.lemma_lookup_at(k as int);
                self.lemma_lookup_some(name@);
                old(self).lemma_lookup_some(name@);
            }
            if !self.contains_key(name.as_str()) {
                let value = *other.value_at(k);
                self.insert(name.clone(), value);
            }
            proof {
                assert forall|n: Seq<char>|
                    #![auto]
                    self.lookup(n) == if old(self).has(n) {
                        old(self).lookup(n)
                    } else if other.names().take(k + 1).contains(n) {
                        other.lookup(n)
                    } else {
                        None
                    } by {
                    lemma_take_contains(other.names(), k as int, n);
                    old(self).lemma_lookup_some(n);
                }
            }
            k += 1;
        }
        proof {
            assert(other.names().take(other.names().len() as int) =~= other.names());
            assert forall|n: Seq<char>|
                #![auto]
                self.lookup(n) == if old(self).has(n) {
                    old(self).lookup(n)
                } else {
                    other.lookup(n)
                } by {
                other.lemma_lookup_some(n);
            }
        }
    }
}

/// The first `k + 1` elements hold what the first `k` hold, and the element
/// at index `k`.
pub proof fn lemma_take_contains<T>(s: Seq<T>, k: int, x: T)
    requires
        0 <= k < s.len(),
    ensures
        s.take(k + 1).contains(x) <==> s.take(k).contains(x) || s[k] == x,
{
    let longer = s.take(k + 1);
    let shorter = s.take(k);
    if longer.contains(x) {
        let i = choose|i: int| 0 <= i < longer.len() && longer[i] == x;
        if i < k {
            assert(shorter[i] == x);
        }
    }
    if shorter.contains(x) {
        let i = choose|i: int| 0 <= i < shorter.len() && shorter[i] == x;
        assert(longer[i] == x);
    }
    if s[k] == x {
        assert(longer[k] == x);
    }
}

/// An element that stands in a sequence has a first index there.
pub proof fn lemma_contains_has_first<T>(s: Seq<T>, needle: T)
    requires
        s.contains(needle),
    ensures
        exists|i: int| is_first_index(s, needle, i),
        first_index(s, needle) is Some,
        is_first_index(s, needle, first_index(s, needle).unwrap()),
    decreases s.len(),
{
    let k = choose|k: int| 0 <= k < s.len() && s[k] == needle;
    if exists|j: int| 0 <= j < k && s[j] == needle {
        let j = choose|j: int| 0 <= j < k && s[j] == needle;
        let shorter = s.take(k);
        assert(shorter[j] == needle);
        lemma_contains_has_first(shorter, needle);
        let i = choose|i: int| is_first_index(shorter, needle, i);
        assert(is_first_index(s, needle, i)) by {
            assert(s[i] == shorter[i]);
            assert forall|x: int| 0 <= x < i implies s[x] != needle by {
                assert(shorter[x] == s[x]);
            }
        }
    } else {
        assert(is_first_index(s, needle, k));
    }
}

} // verus!
