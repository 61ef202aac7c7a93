//! Maps from 32-byte keys to plain values.
use crate::bytes::bytes_eq;
use vstd::prelude::*;

verus! {

/// A 32-byte key: a transaction id or a bond.
pub type Key = [u8; 32];

/// No key occurs twice.
pub open spec fn keys_distinct<V>(e: Seq<(Key, V)>) -> bool {
    forall|i: int, j: int| 0 <= i < j < e.len() ==> #[trigger] e[i].0 != #[trigger] e[j].0
}

/// The place of a key, or the length where there is none.
pub open spec fn key_index<V>(e: Seq<(Key, V)>, k: Key) -> int
    decreases e.len(),
{
    if e.len() == 0 {
        0
    } else if e[0].0 == k {
        0
    } else {
        1 + key_index(e.skip(1), k)
    }
}

/// Entries as a map.
pub open spec fn entries_map<V>(e: Seq<(Key, V)>) -> Map<Key, V>
    decreases e.len(),
{
    if e.len() == 0 {
        Map::empty()
    } else {
        entries_map(e.drop_last()).insert(e.last().0, e.last().1)
    }
}

/// Entries with one more: in the place of the entry with its key, or behind all.
pub open spec fn with_entry<V>(e: Seq<(Key, V)>, k: Key, v: V) -> Seq<(Key, V)> {
    let i = key_index(e, k);
    if i < e.len() {
        e.update(i, (k, v))
    } else {
        e.push((k, v))
    }
}

/// Where a key is, and that it is nowhere before.
pub proof fn lemma_key_index<V>(e: Seq<(Key, V)>, k: Key)
    ensures
        0 <= key_index(e, k) <= e.len(),
        key_index(e, k) < e.len() ==> e[key_index(e, k)].0 == k,
        forall|i: int| 0 <= i < key_index(e, k) ==> #[trigger] e[i].0 != k,
    decreases e.len(),
{
    if e.len() > 0 && e[0].0 != k {
        let t = e.skip(1);
        lemma_key_index(t, k);
        assert forall|i: int| 0 <= i < key_index(e, k) implies #[trigger] e[i].0 != k by {
            if i > 0 {
                assert(t[i - 1] == e[i]);
            }
        }
    }
}

/// A place with the key and none before it is the key's place.
pub proof fn lemma_key_index_is<V>(e: Seq<(Key, V)>, k: Key, n: int)
    requires
        0 <= n <= e.len(),
        n < e.len() ==> e[n].0 == k,
        forall|i: int| 0 <= i < n ==> #[trigger] e[i].0 != k,
    ensures
        key_index(e, k) == n,
{
    lemma_key_index(e, k);
    let m = key_index(e, k);
    if m < n {
        assert(e[m].0 != k);
    }
    if n < m {
        assert(e[n].0 != k);
    }
}

/// The map of distinct entries holds each of them and nothing else.
pub proof fn lemma_entries_map<V>(e: Seq<(Key, V)>)
    requires
        keys_distinct(e),
    ensures
        forall|i: int|
            0 <= i < e.len() ==> entries_map(e).contains_key(#[trigger] e[i].0) && entries_map(
                e,
            )[e[i].0] == e[i].1,
        forall|k: Key| #[trigger]
            entries_map(e).contains_key(k) ==> key_index(e, k) < e.len(),
    decreases e.len(),
{
    if e.len() > 0 {
        let f = e.drop_last();
        lemma_entries_map(f);
        assert forall|i: int| 0 <= i < e.len() implies entries_map(e).contains_key(
            #[trigger] e[i].0,
        ) && entries_map(e)[e[i].0] == e[i].1 by {
            if i < f.len() {
                assert(f[i] == e[i]);
                assert(e[i].0 != e[e.len() - 1].0);
            }
        }
        assert forall|k: Key| #[trigger] entries_map(e).contains_key(k) implies key_index(e, k)
            < e.len() by {
            lemma_key_index(e, k);
            if key_index(e, k) == e.len() {
                assert(e[e.len() - 1].0 != k);
                assert(entries_map(f).contains_key(k));
                let j = key_index(f, k);
                lemma_key_index(f, k);
                assert(f[j] == e[j]);
            }
        }
    }
}

/// An entry put in changes the map at its key and keeps the keys distinct.
pub proof fn lemma_with_entry<V>(e: Seq<(Key, V)>, k: Key, v: V)
    requires
        keys_distinct(e),
    ensures
        keys_distinct(with_entry(e, k, v)),
        entries_map(with_entry(e, k, v)) == entries_map(e).insert(k, v),
{
    lemma_key_index(e, k);
    let i = key_index(e, k);
    let f = with_entry(e, k, v);
    if i < e.len() {
        assert(keys_distinct(f)) by {
            assert forall|a: int, b: int| 0 <= a < b < f.len() implies #[trigger] f[a].0
                != #[trigger] f[b].0 by {
                assert(e[a].0 != e[b].0);
            }
        }
    }
    lemma_entries_map(e);
    lemma_entries_map(f);
    assert forall|x: Key| #[trigger] entries_map(f).contains_key(x) == entries_map(e).insert(
        k,
        v,
    ).contains_key(x) by {
        lemma_key_index(e, x);
        lemma_key_index(f, x);
        if entries_map(f).contains_key(x) {
            let j = key_index(f, x);
            if x != k {
                assert(e[j].0 == x);
            }
        }
        if entries_map(e).contains_key(x) {
            let j = key_index(e, x);
            assert(f[j].0 == x);
        }
        if x == k {
            assert(f[i].0 == k);
        }
    }
    assert forall|x: Key| #[trigger] entries_map(f).contains_key(x) implies entries_map(f)[x]
        == entries_map(e).insert(k, v)[x] by {
        lemma_key_index(f, x);
        let j = key_index(f, x);
        if x == k {
            assert(f[i] == (k, v));
        } else {
            assert(f[j] == e[j]);
            assert(e[j].0 == x);
        }
    }
    assert(entries_map(f) =~= entries_map(e).insert(k, v));
}

/// Entries made of pairs put in one after the other.
pub open spec fn collect_entries<V>(pairs: Seq<(Key, V)>) -> Seq<(Key, V)>
    decreases pairs.len(),
{
    if pairs.len() == 0 {
        seq![]
    } else {
        with_entry(collect_entries(pairs.drop_last()), pairs.last().0, pairs.last().1)
    }
}

/// Distinct entries are collected as they are.
pub proof fn lemma_collect_distinct<V>(e: Seq<(Key, V)>)
    requires
        keys_distinct(e),
    ensures
        collect_entries(e) == e,
    decreases e.len(),
{
    if e.len() > 0 {
        let f = e.drop_last();
        assert(keys_distinct(f)) by {
            assert forall|a: int, b: int| 0 <= a < b < f.len() implies #[trigger] f[a].0
                != #[trigger] f[b].0 by {
                assert(e[a].0 != e[b].0);
            }
        }
        lemma_collect_distinct(f);
        assert forall|i: int| 0 <= i < f.len() implies #[trigger] f[i].0 != e.last().0 by {
            assert(e[i].0 != e[e.len() - 1].0);
        }
        lemma_key_index_is(f, e.last().0, f.len() as int);
        assert(f.push(e.last()) =~= e);
    } else {
        assert(e =~= seq![]);
    }
}

/// A map from 32-byte keys to plain values, in the order in which the keys came.
#[derive(Debug)]
pub struct ByteMap<V> {
    pub entries: Vec<(Key, V)>,
}

impl<V> View for ByteMap<V> {
    type V = Map<Key, V>;

    open spec fn view(&self) -> Map<Key, V> {
        entries_map(self.entries@)
    }
}

impl<V: Copy> ByteMap<V> {
    /// No key occurs twice.
    pub open spec fn wf(&self) -> bool {
        keys_distinct(self.entries@)
    }

    pub fn new() -> (r: ByteMap<V>)
        ensures
            r.wf(),
            r.entries@ == Seq::<(Key, V)>::empty(),
            r@ == Map::<Key, V>::empty(),
    {
        ByteMap { entries: Vec::new() }
    }

    fn position(&self, k: &Key) -> (i: usize)
        ensures
            i == key_index(self.entries@, *k),
            i <= self.entries@.len(),
    {
        let mut i: usize = 0;
        while i < self.entries.len()
            invariant
                i <= self.entries@.len(),
                forall|j: int| 0 <= j < i ==> #[trigger] self.entries@[j].0 != *k,
            decreases self.entries.len() - i,
        {
            if bytes_eq(&self.entries[i].0, k) {
                proof {
                    lemma_key_index_is(self.entries@, *k, i as int);
                }
                return i;
            }
            i += 1;
        }
        proof {
            lemma_key_index_is(self.entries@, *k, i as int);
        }
        i
    }

    pub fn get(&self, k: &Key) -> (r: Option<V>)
        requires
            self.wf(),
        ensures
            r == (if self@.contains_key(*k) {
                Some(self@[*k])
            } else {
                None
            }),
    {
        let i: usize = self.position(k);
        proof {
            lemma_key_index(self.entries@, *k);
            lemma_entries_map(self.entries@);
        }
        if i < self.entries.len() {
            Some(self.entries[i].1)
        } else {
            None
        }
    }

    /// Puts a value under a key, in the place of the one that was there.
    pub fn insert(&mut self, k: Key, v: V)
        requires
            old(self).wf(),
        ensures
            final(self).wf(),
            final(self).entries@ == with_entry(old(self).entries@, k, v),
            final(self)@ == old(self)@.insert(k, v),
    {
        let i: usize = self.position(&k);
        proof {
            lemma_with_entry(self.entries@, k, v);
        }
        if i < self.entries.len() {
            self.entries.set(i, (k, v));
        } else {
            self.entries.push((k, v));
        }
    }

    /// Whether a key is there.
    pub fn contains(&self, k: &Key) -> (r: bool)
        requires
            self.wf(),
        ensures
            r == self@.contains_key(*k),
    {
        self.get(k).is_some()
    }
}

} // verus!
