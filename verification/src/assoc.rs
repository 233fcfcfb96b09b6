//! Association lists: small maps whose contracts speak of mathematical maps.

use vstd::prelude::*;

verus! {

/// A value that can key an [`AssocMap`]: it is identified by its view.
pub trait Key: View + Sized {
    /// Whether two keys are the same key.
    fn same(&self, other: &Self) -> (r: bool)
        ensures
            r == (self@ == other@),
    ;
}

impl Key for u64 {
    fn same(&self, other: &Self) -> (r: bool) {
        *self == *other
    }
}

impl Key for String {
    fn same(&self, other: &Self) -> (r: bool) {
        *self == *other
    }
}

/// A value that an [`AssocMap`] can hold: it has an invariant of its own.
pub trait Held: View + Sized {
    /// What holds of every value that is in use.
    spec fn valid(&self) -> bool;
}

impl Held for u64 {
    open spec fn valid(&self) -> bool {
        true
    }
}

impl Held for () {
    open spec fn valid(&self) -> bool {
        true
    }
}

impl Held for String {
    open spec fn valid(&self) -> bool {
        true
    }
}

impl Held for Vec<u8> {
    open spec fn valid(&self) -> bool {
        true
    }
}

/// A map held as a list of entries, each key at most once.
pub struct AssocMap<K, V> {
    entries: Vec<(K, V)>,
}

/// The map that a list of entries stands for.
pub open spec fn entries_map<K: Key, V: Held>(entries: Seq<(K, V)>) -> Map<K::V, V::V> {
    Map::new(
        |k: K::V| exists|i: int| 0 <= i < entries.len() && (#[trigger] entries[i]).0@ == k,
        |k: K::V|
            {
                let i = choose|i: int|
                    0 <= i < entries.len() && (#[trigger] entries[i]).0@ == k;
                entries[i].1@
            },
    )
}

/// No key stands twice in a list of entries.
pub open spec fn keys_distinct<K: Key, V: Held>(entries: Seq<(K, V)>) -> bool {
    forall|i: int, j: int|
        0 <= i < j < entries.len() ==> (#[trigger] entries[i]).0@ != (#[trigger] entries[j]).0@
}

impl<K: Key, V: Held> View for AssocMap<K, V> {
    type V = Map<K::V, V::V>;

    open spec fn view(&self) -> Map<K::V, V::V> {
        entries_map(self.items())
    }
}

impl<K: Key, V: Held> AssocMap<K, V> {
    /// The entries in the order in which they are held.
    pub closed spec fn items(&self) -> Seq<(K, V)> {
        self.entries@
    }

    /// Every key occurs once, and every value is valid.
    pub open spec fn wf(&self) -> bool {
        &&& keys_distinct(self.items())
        &&& forall|i: int| 0 <= i < self.items().len() ==> (#[trigger] self.items()[i]).1.valid()
    }

    pub fn new() -> (r: Self)
        ensures
            r.wf(),
            r.items() == Seq::<(K, V)>::empty(),
            r@ == Map::<K::V, V::V>::empty(),
    {
        let r = AssocMap { entries: Vec::new() };
        r
    }

    pub fn len(&self) -> (r: usize)
        ensures
            r == self.items().len(),
    {
        self.entries.len()
    }

    /// The key of the entry at a position.
    pub fn key_at(&self, i: usize) -> (r: &K)
        requires
            i < self.items().len(),
        ensures
            *r == self.items()[i as int].0,
    {
        &self.entries[i].0
    }

    /// The value of the entry at a position.
    pub fn value_at(&self, i: usize) -> (r: &V)
        requires
            i < self.items().len(),
        ensures
            *r == self.items()[i as int].1,
    {
        &self.entries[i].1
    }

    fn position(&self, key: &K) -> (r: Option<usize>)
        ensures
            match r {
                Some(i) => i < self.entries@.len() && self.entries@[i as int].0@ == key@,
                None => forall|i: int|
                    0 <= i < self.entries@.len() ==> (#[trigger] self.entries@[i]).0@ != key@,
            },
    {
        let mut i: usize = 0;
        while i < self.entries.len()
            invariant
                i <= self.entries@.len(),
                forall|j: int| 0 <= j < i ==> (#[trigger] self.entries@[j]).0@ != key@,
            decreases self.entries@.len() - i,
        {
            if self.entries[i].0.same(key) {
                return Some(i);
            }
            i += 1;
        }
        None
    }

    pub fn contains_key(&self, key: &K) -> (r: bool)
        ensures
            r == self@.contains_key(key@),
    {
        self.position(key).is_some()
    }

    pub fn get(&self, key: &K) -> (r: Option<&V>)
        requires
            self.wf(),
        ensures
            match r {
                Some(v) => self@.contains_key(key@) && self@[key@] == v@ && v.valid(),
                None => !self@.contains_key(key@),
            },
    {
        match self.position(key) {
            Some(i) => {
                proof {
                    lemma_entry(self.entries@, i as int);
                }
                Some(&self.entries[i].1)
            },
            None => None,
        }
    }

    /// A place to change the value of a key that is present.
    pub fn get_mut(&mut self, key: &K) -> (r: Option<&mut V>)
        requires
            old(self).wf(),
        ensures
            match r {
                Some(v) => {
                    &&& old(self)@.contains_key(key@)
                    &&& old(self)@[key@] == v@
                    &&& v.valid()
                    &&& final(self)@ == old(self)@.insert(key@, final(v)@)
                    &&& final(v).valid() ==> final(self).wf()
                },
                None => !old(self)@.contains_key(key@) && *final(self) == *old(self),
            },
    {
        match self.position(key) {
            Some(i) => {
                proof {
                    lemma_entry(self.entries@, i as int);
                    lemma_replace::<K, V>(self.entries@, i as int);
                }
                Some(&mut self.entries[i].1)
            },
            None => None,
        }
    }

    /// Sets the value of a key, handing back what it was.
    pub fn insert(&mut self, key: K, value: V) -> (r: Option<V>)
        requires
            old(self).wf(),
            value.valid(),
        ensures
            final(self).wf(),
            final(self)@ == old(self)@.insert(key@, value@),
            match r {
                Some(v) => old(self)@.contains_key(key@) && old(self)@[key@] == v@ && v.valid(),
                None => !old(self)@.contains_key(key@),
            },
    {
        match self.position(&key) {
            Some(i) => {
                proof {
                    lemma_entry(self.entries@, i as int);
                    lemma_replace::<K, V>(self.entries@, i as int);
                }
                let mut slot = value;
                std::mem::swap(&mut slot, &mut self.entries[i].1);
                Some(slot)
            },
            None => {
                let ghost before = self.entries@;
                self.entries.push((key, value));
                proof {
                    lemma_push(before, key, value);
                }
                None
            },
        }
    }

    /// Takes a key out, with its value.
    pub fn remove(&mut self, key: &K) -> (r: Option<V>)
        requires
            old(self).wf(),
        ensures
            final(self).wf(),
            final(self)@ == old(self)@.remove(key@),
            match r {
                Some(v) => old(self)@.contains_key(key@) && old(self)@[key@] == v@ && v.valid(),
                None => !old(self)@.contains_key(key@),
            },
    {
        match self.position(key) {
            Some(i) => {
                let ghost before = self.entries@;
                let entry = self.entries.remove(i);
                proof {
                    lemma_entry(before, i as int);
                    lemma_remove(before, i as int);
                }
                Some(entry.1)
            },
            None => {
                None
            },
        }
    }
}

impl<K: Key, V: Held> Held for AssocMap<K, V> {
    open spec fn valid(&self) -> bool {
        self.wf()
    }
}

/// An entry of a list without doubled keys is in the list's map.
pub proof fn lemma_entry<K: Key, V: Held>(entries: Seq<(K, V)>, i: int)
    requires
        keys_distinct(entries),
        0 <= i < entries.len(),
    ensures
        entries_map(entries).contains_key(entries[i].0@),
        entries_map(entries)[entries[i].0@] == entries[i].1@,
{
    let k = entries[i].0@;
    let j = choose|j: int| 0 <= j < entries.len() && (#[trigger] entries[j]).0@ == k;
}

/// A key of the map has an entry.
pub proof fn lemma_entry_of<K: Key, V: Held>(entries: Seq<(K, V)>, k: K::V) -> (i: int)
    requires
        keys_distinct(entries),
        entries_map(entries).contains_key(k),
    ensures
        0 <= i < entries.len(),
        entries[i].0@ == k,
        entries_map(entries)[k] == entries[i].1@,
{
    let i = choose|i: int| 0 <= i < entries.len() && (#[trigger] entries[i]).0@ == k;
    lemma_entry(entries, i);
    i
}

/// The map of a list has as many keys as the list has entries.
pub proof fn lemma_entries_len<K: Key, V: Held>(entries: Seq<(K, V)>)
    requires
        keys_distinct(entries),
    ensures
        entries_map(entries).dom().finite(),
        entries_map(entries).dom().len() == entries.len(),
    decreases entries.len(),
{
    if entries.len() == 0 {
        assert(entries_map(entries).dom() =~= Set::<K::V>::empty());
    } else {
        let n = entries.len() - 1;
        lemma_remove(entries, n);
        lemma_entries_len(entries.remove(n));
    }
}

/// Changing a value in place changes the map at that key alone.
proof fn lemma_replace<K: Key, V: Held>(entries: Seq<(K, V)>, i: int)
    requires
        keys_distinct(entries),
        0 <= i < entries.len(),
    ensures
        forall|v: V| #![trigger entries.update(i, (entries[i].0, v))]
            {
                let after = entries.update(i, (entries[i].0, v));
                &&& keys_distinct(after)
                &&& entries_map(after) == entries_map(entries).insert(entries[i].0@, v@)
            },
{
    assert forall|v: V| #![trigger entries.update(i, (entries[i].0, v))] {
        let after = entries.update(i, (entries[i].0, v));
        &&& keys_distinct(after)
        &&& entries_map(after) == entries_map(entries).insert(entries[i].0@, v@)
    } by {
        let after = entries.update(i, (entries[i].0, v));
        assert forall|k: K::V| #[trigger] entries_map(entries).contains_key(
            k,
        ) implies entries_map(after).contains_key(k) by {
            let j = choose|j: int| 0 <= j < entries.len() && (#[trigger] entries[j]).0@ == k;
            assert(after[j].0@ == k);
        }
        lemma_entry(after, i);
    }
}

/// Appending an entry with a new key adds it to the map.
proof fn lemma_push<K: Key, V: Held>(entries: Seq<(K, V)>, key: K, value: V)
    requires
        keys_distinct(entries),
        !entries_map(entries).contains_key(key@),
    ensures
        keys_distinct(entries.push((key, value))),
        entries_map(entries.push((key, value))) == entries_map(entries).insert(key@, value@),
{
    let after = entries.push((key, value));
    assert forall|i: int, j: int| 0 <= i < j < after.len() implies (#[trigger] after[i]).0@ != (
    #[trigger] after[j]).0@ by {}
    lemma_entry(after, entries.len() as int);
    assert forall|k: K::V| #[trigger] entries_map(entries).contains_key(k) implies entries_map(
        after,
    ).contains_key(k) by {
        let j = choose|j: int| 0 <= j < entries.len() && (#[trigger] entries[j]).0@ == k;
        assert(after[j].0@ == k);
    }
}

/// Dropping an entry takes its key out of the map.
proof fn lemma_remove<K: Key, V: Held>(entries: Seq<(K, V)>, i: int)
    requires
        keys_distinct(entries),
        0 <= i < entries.len(),
    ensures
        keys_distinct(entries.remove(i)),
        entries_map(entries.remove(i)) == entries_map(entries).remove(entries[i].0@),
{
    let after = entries.remove(i);
    assert forall|a: int, b: int| 0 <= a < b < after.len() implies (#[trigger] after[a]).0@ != (
    #[trigger] after[b]).0@ by {}
    assert forall|k: K::V| #[trigger] entries_map(entries).contains_key(k) && k
        != entries[i].0@ implies entries_map(after).contains_key(k) by {
        let j = choose|j: int| 0 <= j < entries.len() && (#[trigger] entries[j]).0@ == k;
        let j1 = if j < i { j } else { j - 1 };
        assert(after[j1] == entries[j]);
    }
}

} // verus!
