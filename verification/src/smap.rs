//! A small map kept as a list of entries, in the order in which the keys
//! were first written.

use vstd::prelude::*;

verus! {

/// A key of a map: two keys are the same where their views
/// are.
pub trait MapKey: View + Sized {
    /// Whether `self` and `other` are the same key.
    fn same(&self, other: &Self) -> (b: bool)
        ensures
            b == (self@ == other@),
    ;
}

impl MapKey for String {
    fn same(&self, other: &Self) -> (b: bool) {
        self.eq(other)
    }
}

/// A map backed by a list: good for a handful of entries. A key is held
/// once, at the place where it was first written; writing it again
/// replaces its value.
#[derive(Debug, PartialEq, Eq)]
pub struct StaticMap<K: MapKey, V>(Vec<(K, V)>);

/// The position of the first entry of `entries` under the key `key`; their
/// number where there is none.
pub open spec fn position<K: MapKey, V>(entries: Seq<(K, V)>, key: K::V) -> int
    decreases entries.len(),
{
    if entries.len() == 0 {
        0
    } else if entries[0].0@ == key {
        0
    } else {
        1 + position(entries.skip(1), key)
    }
}

/// `position` is the first place where the key stands.
pub proof fn lemma_position<K: MapKey, V>(entries: Seq<(K, V)>, key: K::V)
    ensures
        0 <= position(entries, key) <= entries.len(),
        forall|i: int| 0 <= i < position(entries, key) ==> (#[trigger] entries[i]).0@ != key,
        position(entries, key) < entries.len() ==> entries[position(entries, key)].0@ == key,
    decreases entries.len(),
{
    if entries.len() == 0 {
    } else if entries[0].0@ == key {
    } else {
        let rest = entries.skip(1);
        lemma_position(rest, key);
        assert forall|i: int| 0 <= i < position(entries, key) implies (#[trigger] entries[i]).0@
            != key by {
            if i > 0 {
                assert(entries[i] == rest[i - 1]);
            }
        }
        if position(entries, key) < entries.len() {
            assert(entries[position(entries, key)] == rest[position(rest, key)]);
        }
    }
}

/// Whether no key stands twice in `entries`.
pub open spec fn distinct<K: MapKey, V>(entries: Seq<(K, V)>) -> bool {
    forall|i: int, j: int|
        0 <= i < j < entries.len() ==> (#[trigger] entries[i]).0@ != (#[trigger] entries[j]).0@
}

impl<K: MapKey, V> StaticMap<K, V> {
    /// The entries, in the order in which their keys were first written.
    pub closed spec fn entries(&self) -> Seq<(K, V)> {
        self.0@
    }

    /// Whether the map holds `key`.
    pub open spec fn has(&self, key: K::V) -> bool {
        position(self.entries(), key) < self.entries().len()
    }

    /// The value under `key`, which the map holds.
    pub open spec fn value(&self, key: K::V) -> V
        recommends
            self.has(key),
    {
        self.entries()[position(self.entries(), key)].1
    }

    /// An empty map.
    pub fn new() -> (map: Self)
        ensures
            map.entries() == Seq::<(K, V)>::empty(),
    {
        StaticMap(Vec::new())
    }

    /// Where the first entry under `key` stands; the number of entries
    /// where there is none.
    fn find(&self, key: &K) -> (at: usize)
        ensures
            at == position(self.entries(), key@),
            at <= self.entries().len(),
    {
        let mut i: usize = 0;
        proof {
            lemma_position(self.0@, key@);
            assert(self.0@.skip(0) =~= self.0@);
        }
        while i < self.0.len()
            invariant
                i <= self.0.len(),
                position(self.0@, key@) == i + position(self.0@.skip(i as int), key@),
            decreases self.0.len() - i,
        {
            if self.0[i].0.same(key) {
                return i;
            }
            assert(self.0@.skip(i as int).skip(1) =~= self.0@.skip(i + 1));
            i += 1;
        }
        i
    }

    /// Writes `value` under `key`. Where the map held the key, the value it
    /// had is handed back and its place is kept; else the entry is added
    /// at the end.
    pub fn insert(&mut self, key: K, value: V) -> (previous: Option<V>)
        ensures
            previous == if old(self).has(key@) {
                Some(old(self).value(key@))
            } else {
                None
            },
            final(self).entries() == if old(self).has(key@) {
                old(self).entries().update(
                    position(old(self).entries(), key@),
                    (old(self).entries()[position(old(self).entries(), key@)].0, value),
                )
            } else {
                old(self).entries().push((key, value))
            },
            distinct(old(self).entries()) ==> distinct(final(self).entries()),
    {
        let at = self.find(&key);
        proof {
            lemma_position(self.0@, key@);
        }
        if at < self.0.len() {
            let mut value = value;
            let (held, mut previous) = self.0.remove(at);
            self.0.insert(at, (held, value));
            assert(self.0@ =~= old(self).0@.update(at as int, (held, value)));
            Some(previous)
        } else {
            self.0.push((key, value));
            None
        }
    }

    /// The value under `key`.
    pub fn get(&self, key: &K) -> (value: Option<&V>)
        ensures
            value == if self.has(key@) {
                Some(&self.value(key@))
            } else {
                None
            },
    {
        let at = self.find(key);
        if at < self.0.len() {
            Some(&self.0[at].1)
        } else {
            None
        }
    }

    /// The value under `key`, to be changed in place.
    pub fn get_mut(&mut self, key: &K) -> (value: Option<&mut V>)
        ensures
            match value {
                Some(v) => {
                    &&& old(self).has(key@)
                    &&& *v == old(self).value(key@)
                    &&& final(self).entries() == old(self).entries().update(
                        position(old(self).entries(), key@),
                        (old(self).entries()[position(old(self).entries(), key@)].0, *final(v)),
                    )
                },
                None => !old(self).has(key@) && final(self).entries() == old(self).entries(),
            },
    {
        let at = self.find(key);
        if at < self.0.len() {
            let entry = &mut self.0[at];
            Some(&mut entry.1)
        } else {
            None
        }
    }

    /// Whether the map holds `key`.
    pub fn contains(&self, key: &K) -> (b: bool)
        ensures
            b == self.has(key@),
    {
        let at = self.find(key);
        at < self.0.len()
    }

    /// How many entries the map holds.
    pub fn len(&self) -> (n: usize)
        ensures
            n == self.entries().len(),
    {
        self.0.len()
    }

    /// The entry at position `i`, in the order in which the keys were
    /// first written.
    pub fn entry(&self, i: usize) -> (entry: &(K, V))
        requires
            i < self.entries().len(),
        ensures
            *entry == self.entries()[i as int],
    {
        &self.0[i]
    }
}

impl<K: MapKey, V> Default for StaticMap<K, V> {
    fn default() -> (map: Self)
        ensures
            map.entries() == Seq::<(K, V)>::empty(),
    {
        StaticMap(Vec::new())
    }
}

} // verus!
