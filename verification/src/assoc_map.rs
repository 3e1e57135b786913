//! A map kept as a list of entries with distinct keys.

use vstd::prelude::*;

use crate::ip::{IpAddr, Ipv4Addr};

verus! {

/// A key of a map: two keys are the same when their views are equal.
pub trait Key: View + Sized {
    /// Tells whether two keys are the same.
    fn same(&self, other: &Self) -> (r: bool)
        ensures
            r == (self@ == other@),
    ;
}

impl Key for String {
    fn same(&self, other: &Self) -> (r: bool) {
        *self == *other
    }
}

impl View for Ipv4Addr {
    type V = Ipv4Addr;

    open spec fn view(&self) -> Ipv4Addr {
        *self
    }
}

impl Key for Ipv4Addr {
    fn same(&self, other: &Self) -> (r: bool) {
        *self == *other
    }
}

impl Key for IpAddr {
    fn same(&self, other: &Self) -> (r: bool) {
        self.is_same(other)
    }
}

/// A map from keys to values.
#[derive(Debug)]
pub struct AssocMap<K: Key, V> {
    entries: Vec<(K, V)>,
}

/// A map whose keys are strings.
pub type StringMap<V> = AssocMap<String, V>;

/// A map whose keys are IPv4 or IPv6 addresses.
pub type AddressMap<V> = AssocMap<IpAddr, V>;

/// A map whose keys are IPv4 addresses.
pub type IpMap<V> = AssocMap<Ipv4Addr, V>;

/// The keys of the entries, in the order in which they stand.
spec fn keys_of<K: Key, V>(entries: Seq<(K, V)>) -> Seq<K::V> {
    entries.map_values(|e: (K, V)| e.0@)
}

/// The map that entries stand for; a later entry overrides an earlier one.
spec fn table_of<K: Key, V>(entries: Seq<(K, V)>) -> Map<K::V, V>
    decreases entries.len(),
{
    if entries.len() == 0 {
        Map::empty()
    } else {
        table_of(entries.drop_last()).insert(entries.last().0@, entries.last().1)
    }
}

impl<K: Key, V> View for AssocMap<K, V> {
    type V = Map<K::V, V>;

    closed spec fn view(&self) -> Map<K::V, V> {
        table_of(self.entries@)
    }
}

/// With distinct keys the map holds exactly the entries.
proof fn lemma_table<K: Key, V>(entries: Seq<(K, V)>)
    requires
        keys_of(entries).no_duplicates(),
    ensures
        forall|i: int|
            0 <= i < entries.len() ==> table_of(entries).contains_key(#[trigger] entries[i].0@)
                && table_of(entries)[entries[i].0@] == entries[i].1,
        forall|k: K::V| #[trigger]
            table_of(entries).contains_key(k) ==> exists|i: int|
                0 <= i < entries.len() && #[trigger] entries[i].0@ == k,
        table_of(entries).dom().finite(),
    decreases entries.len(),
{
    if entries.len() > 0 {
        let front = entries.drop_last();
        let n = entries.len() - 1;
        assert(keys_of(front) == keys_of(entries).drop_last());
        assert forall|i: int, j: int|
            0 <= i < front.len() && 0 <= j < front.len() && i != j implies keys_of(front)[i]
            != keys_of(front)[j] by {
            assert(keys_of(entries)[i] != keys_of(entries)[j]);
        }
        lemma_table(front);
        assert forall|i: int| 0 <= i < entries.len() implies table_of(entries).contains_key(
            #[trigger] entries[i].0@,
        ) && table_of(entries)[entries[i].0@] == entries[i].1 by {
            if i < n {
                assert(front[i].0@ == entries[i].0@);
                assert(keys_of(entries)[i] != keys_of(entries)[n]);
            }
        }
        assert forall|k: K::V| #[trigger] table_of(entries).contains_key(k) implies exists|
            i: int,
        |
            0 <= i < entries.len() && #[trigger] entries[i].0@ == k by {
            if k == entries[n].0@ {
            } else {
                assert(table_of(front).contains_key(k));
                let i = choose|i: int| 0 <= i < front.len() && #[trigger] front[i].0@ == k;
                assert(entries[i].0@ == k);
            }
        }
    }
}

impl<K: Key, V> AssocMap<K, V> {
    #[verifier::type_invariant]
    closed spec fn distinct(self) -> bool {
        keys_of(self.entries@).no_duplicates()
    }

    /// The keys that the map holds, each once.
    pub closed spec fn keys(self) -> Seq<K::V> {
        keys_of(self.entries@)
    }

    /// An empty map.
    pub fn new() -> (r: Self)
        ensures
            r@ == Map::<K::V, V>::empty(),
    {
        AssocMap { entries: Vec::new() }
    }

    /// The number of entries.
    pub fn len(&self) -> (n: usize)
        ensures
            n == self.keys().len(),
            self.keys().no_duplicates(),
            self.keys().to_set() == self@.dom(),
    {
        proof {
            use_type_invariant(self);
            lemma_table(self.entries@);
            assert forall|k: K::V| self.keys().to_set().contains(k)
                == self@.dom().contains(k) by {
                if self.keys().to_set().contains(k) {
                    let i = choose|i: int| 0 <= i < self.keys().len() && self.keys()[i] == k;
                    assert(self.entries@[i].0@ == k);
                }
                if self@.contains_key(k) {
                    let i = choose|i: int|
                        0 <= i < self.entries@.len() && #[trigger] self.entries@[i].0@ == k;
                    assert(self.keys()[i] == k);
                }
            }
        }
        self.entries.len()
    }

    /// The entry at a position.
    pub fn entry(&self, i: usize) -> (r: (&K, &V))
        requires
            i < self.keys().len(),
        ensures
            r.0@ == self.keys()[i as int],
            self@.contains_key(r.0@),
            self@[r.0@] == *r.1,
    {
        proof {
            use_type_invariant(self);
            lemma_table(self.entries@);
        }
        let e = &self.entries[i];
        (&e.0, &e.1)
    }

    /// The position of a key, if the map holds it.
    fn position(&self, key: &K) -> (r: Option<usize>)
        ensures
            match r {
                Some(i) => i < self.entries@.len() && self.entries@[i as int].0@ == key@,
                None => !self@.contains_key(key@),
            },
    {
        proof {
            use_type_invariant(self);
            lemma_table(self.entries@);
        }
        let mut i: usize = 0;
        while i < self.entries.len()
            invariant
                i <= self.entries@.len(),
                forall|k: int| 0 <= k < i ==> #[trigger] self.entries@[k].0@ != key@,
            decreases self.entries.len() - i,
        {
            if self.entries[i].0.same(key) {
                return Some(i);
            }
            i += 1;
        }
        None
    }

    /// The value of a key, if the map holds it.
    pub fn get(&self, key: &K) -> (r: Option<&V>)
        ensures
            match r {
                Some(v) => self@.contains_key(key@) && *v == self@[key@],
                None => !self@.contains_key(key@),
            },
    {
        proof {
            use_type_invariant(self);
            lemma_table(self.entries@);
        }
        match self.position(key) {
            Some(i) => Some(&self.entries[i].1),
            None => None,
        }
    }

    /// Removes a key, if the map holds it.
    pub fn remove(&mut self, key: &K)
        ensures
            final(self)@ == old(self)@.remove(key@),
    {
        proof {
            use_type_invariant(&*self);
            lemma_table(self.entries@);
        }
        match self.position(key) {
            Some(i) => {
                let ghost before = self.entries@;
                let mut entries: Vec<(K, V)> = Vec::new();
                std::mem::swap(&mut self.entries, &mut entries);
                let _ = entries.remove(i);
                proof {
                    lemma_removed(before, i as int);
                }
                self.entries = entries;
            },
            None => {
                proof {
                    assert(self@.remove(key@) == self@);
                }
            },
        }
    }

    /// Sets the value of a key, in place of an earlier value.
    pub fn insert(&mut self, key: K, value: V)
        ensures
            final(self)@ == old(self)@.insert(key@, value),
    {
        let ghost before = self@;
        self.remove(&key);
        proof {
            use_type_invariant(&*self);
            lemma_table(self.entries@);
            assert(self@ == before.remove(key@));
        }
        let ghost kept = self.entries@;
        let mut entries: Vec<(K, V)> = Vec::new();
        std::mem::swap(&mut self.entries, &mut entries);
        entries.push((key, value));
        proof {
            let all = entries@;
            assert(all.drop_last() == kept);
            assert(keys_of(all) == keys_of(kept).push(key@));
            assert forall|i: int, j: int|
                0 <= i < all.len() && 0 <= j < all.len() && i != j implies keys_of(all)[i]
                != keys_of(all)[j] by {
                if i < kept.len() && j < kept.len() {
                    assert(keys_of(kept)[i] != keys_of(kept)[j]);
                } else if i < kept.len() {
                    assert(table_of(kept).contains_key(kept[i].0@));
                } else {
                    assert(table_of(kept).contains_key(kept[j].0@));
                }
            }
            assert(table_of(all) == before.insert(key@, value));
        }
        self.entries = entries;
    }
}

/// Dropping one entry removes its key from the map.
proof fn lemma_removed<K: Key, V>(entries: Seq<(K, V)>, i: int)
    requires
        0 <= i < entries.len(),
        keys_of(entries).no_duplicates(),
    ensures
        keys_of(entries.remove(i)).no_duplicates(),
        table_of(entries.remove(i)) == table_of(entries).remove(entries[i].0@),
{
    let rest = entries.remove(i);
    let key = entries[i].0@;
    assert(keys_of(rest) == keys_of(entries).remove(i));
    assert forall|a: int, b: int|
        0 <= a < rest.len() && 0 <= b < rest.len() && a != b implies keys_of(rest)[a] != keys_of(
        rest,
    )[b] by {
        let a2 = if a < i { a } else { a + 1 };
        let b2 = if b < i { b } else { b + 1 };
        assert(keys_of(entries)[a2] != keys_of(entries)[b2]);
    }
    lemma_table(entries);
    lemma_table(rest);
    assert forall|k: K::V|
        table_of(rest).contains_key(k) == table_of(entries).remove(key).contains_key(k) && (
        table_of(rest).contains_key(k) ==> table_of(rest)[k] == table_of(entries)[k]) by {
        if table_of(rest).contains_key(k) {
            let a = choose|a: int| 0 <= a < rest.len() && #[trigger] rest[a].0@ == k;
            let a2 = if a < i { a } else { a + 1 };
            assert(entries[a2] == rest[a]);
            assert(keys_of(entries)[a2] != keys_of(entries)[i]);
            assert(table_of(entries).contains_key(entries[a2].0@));
        }
        if table_of(entries).remove(key).contains_key(k) {
            let a = choose|a: int| 0 <= a < entries.len() && #[trigger] entries[a].0@ == k;
            assert(a != i);
            let a2 = if a < i { a } else { a - 1 };
            assert(rest[a2] == entries[a]);
        }
    }
    assert(table_of(rest) =~= table_of(entries).remove(key));
}

/// The part of a map whose values exceed a bound.
pub open spec fn above(m: Map<Seq<char>, u128>, bound: int) -> Map<Seq<char>, u128> {
    Map::new(|k: Seq<char>| m.contains_key(k) && bound < m[k], |k: Seq<char>| m[k])
}

impl StringMap<u128> {
    /// Keeps the entries whose value exceeds `bound`.
    pub fn keep_above(&mut self, bound: u64)
        ensures
            final(self)@ == above(old(self)@, bound as int),
    {
        let ghost before = self@;
        proof {
            use_type_invariant(&*self);
            lemma_table(self.entries@);
        }
        let n: usize = self.entries.len();
        let mut kept: StringMap<u128> = StringMap::new();
        let mut i: usize = 0;
        while i < n
            invariant
                i <= n == self.entries@.len(),
                self@ == before,
                keys_of(self.entries@).no_duplicates(),
                forall|k: int|
                    0 <= k < self.entries@.len() ==> before.contains_key(
                        #[trigger] self.entries@[k].0@,
                    ) && before[self.entries@[k].0@] == self.entries@[k].1,
                forall|k: int|
                    0 <= k < i && bound < self.entries@[k].1 ==> #[trigger] kept@.contains_key(
                        self.entries@[k].0@,
                    ),
                forall|k: Seq<char>| #[trigger]
                    kept@.contains_key(k) ==> before.contains_key(k) && bound < before[k]
                        && kept@[k] == before[k],
            decreases n - i,
        {
            let v: u128 = self.entries[i].1;
            if (bound as u128) < v {
                kept.insert(self.entries[i].0.clone(), v);
            }
            i += 1;
        }
        proof {
            assert forall|k: Seq<char>| #[trigger]
                above(before, bound as int).contains_key(k) implies kept@.contains_key(k) by {
                let j = choose|j: int|
                    0 <= j < self.entries@.len() && #[trigger] self.entries@[j].0@ == k;
                assert(kept@.contains_key(self.entries@[j].0@));
            }
            assert(kept@ =~= above(before, bound as int));
        }
        *self = kept;
    }
}

} // verus!
