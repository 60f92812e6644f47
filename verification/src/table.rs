//! Small association lists and sets over copyable keys.
use vstd::prelude::*;

verus! {

/// A key that can be compared for equality.
pub trait Key: Copy {
    fn equal(&self, other: &Self) -> (res: bool)
        ensures
            res == (*self == *other),
    ;
}

impl Key for usize {
    fn equal(&self, other: &Self) -> (res: bool) {
        *self == *other
    }
}

impl Key for i64 {
    fn equal(&self, other: &Self) -> (res: bool) {
        *self == *other
    }
}

/// The position of the first entry with the key, or the length.
pub open spec fn position<K, V>(entries: Seq<(K, V)>, key: K) -> int
    decreases entries.len(),
{
    if entries.len() == 0 {
        0
    } else if entries[0].0 == key {
        0
    } else {
        1 + position(entries.subrange(1, entries.len() as int), key)
    }
}

proof fn lemma_position<K, V>(entries: Seq<(K, V)>, key: K, at: int)
    requires
        0 <= at <= entries.len(),
        forall|i: int| 0 <= i < at ==> (#[trigger] entries[i]).0 != key,
        at < entries.len() ==> entries[at].0 == key,
    ensures
        position(entries, key) == at,
    decreases entries.len(),
{
    if entries.len() > 0 && at > 0 {
        assert(entries[0].0 != key);
        let rest = entries.subrange(1, entries.len() as int);
        assert forall|i: int| 0 <= i < at - 1 implies (#[trigger] rest[i]).0 != key by {
            assert(rest[i] == entries[i + 1]);
        }
        lemma_position(rest, key, at - 1);
    }
}

proof fn lemma_position_bounds<K, V>(entries: Seq<(K, V)>, key: K)
    ensures
        0 <= position(entries, key) <= entries.len(),
        position(entries, key) < entries.len() ==> entries[position(entries, key)].0 == key,
        forall|i: int| 0 <= i < position(entries, key) ==> (#[trigger] entries[i]).0 != key,
    decreases entries.len(),
{
    if entries.len() > 0 && entries[0].0 != key {
        let rest = entries.subrange(1, entries.len() as int);
        lemma_position_bounds(rest, key);
        assert forall|i: int| 0 <= i < position(entries, key) implies (#[trigger] entries[i]).0
            != key by {
            if i > 0 {
                assert(rest[i - 1] == entries[i]);
            }
        }
    }
}

/// A map from keys to values.
pub struct Table<K, V> {
    entries: Vec<(K, V)>,
}

impl<K, V> View for Table<K, V> {
    type V = Map<K, V>;

    closed spec fn view(&self) -> Map<K, V> {
        Map::new(
            |k: K| position(self.entries@, k) < self.entries@.len(),
            |k: K| self.entries@[position(self.entries@, k)].1,
        )
    }
}

impl<K: Key, V> Table<K, V> {
    pub fn new() -> (res: Self)
        ensures
            res@ == Map::<K, V>::empty(),
    {
        let res = Table { entries: Vec::new() };
        assert(res@ =~= Map::<K, V>::empty());
        res
    }

    fn find(&self, key: K) -> (res: usize)
        ensures
            res == position(self.entries@, key),
            res <= self.entries@.len(),
    {
        let mut i: usize = 0;
        while i < self.entries.len()
            invariant
                i <= self.entries@.len(),
                forall|j: int| 0 <= j < i ==> (#[trigger] self.entries@[j]).0 != key,
            decreases self.entries@.len() - i,
        {
            if self.entries[i].0.equal(&key) {
                proof {
                    lemma_position(self.entries@, key, i as int);
                }
                return i;
            }
            i = i + 1;
        }
        proof {
            lemma_position(self.entries@, key, i as int);
        }
        i
    }

    pub fn get(&self, key: K) -> (res: Option<&V>)
        ensures
            match res {
                Some(value) => self@.dom().contains(key) && *value == self@[key],
                None => !self@.dom().contains(key),
            },
    {
        let i: usize = self.find(key);
        if i < self.entries.len() {
            Some(&self.entries[i].1)
        } else {
            None
        }
    }

    pub fn contains(&self, key: K) -> (res: bool)
        ensures
            res == self@.dom().contains(key),
    {
        self.find(key) < self.entries.len()
    }

    /// The keys that have a value.
    pub fn keys(&self) -> (res: Vec<K>)
        ensures
            forall|k: K| #[trigger] res@.contains(k) <==> self@.dom().contains(k),
    {
        let mut res: Vec<K> = Vec::new();
        let mut i: usize = 0;
        while i < self.entries.len()
            invariant
                i <= self.entries@.len(),
                res@.len() == i,
                forall|j: int| 0 <= j < i ==> #[trigger] res@[j] == self.entries@[j].0,
            decreases self.entries@.len() - i,
        {
            res.push(self.entries[i].0);
            i = i + 1;
        }
        proof {
            assert forall|k: K| #[trigger] res@.contains(k) <==> self@.dom().contains(k) by {
                lemma_position_bounds(self.entries@, k);
                if res@.contains(k) {
                    let j = choose|j: int| 0 <= j < res@.len() && res@[j] == k;
                    assert(self.entries@[j].0 == k);
                }
                if self@.dom().contains(k) {
                    assert(res@[position(self.entries@, k)] == k);
                }
            }
        }
        res
    }

    pub fn insert(&mut self, key: K, value: V)
        ensures
            final(self)@ == old(self)@.insert(key, value),
    {
        let i: usize = self.find(key);
        proof {
            lemma_position_bounds(self.entries@, key);
        }
        let ghost before = self.entries@;
        if i < self.entries.len() {
            self.entries.set(i, (key, value));
            proof {
                assert forall|k: K| #[trigger] position(self.entries@, k) == position(
                    before,
                    k,
                ) by {
                    lemma_position_bounds(before, k);
                    lemma_position(self.entries@, k, position(before, k));
                }
            }
        } else {
            self.entries.push((key, value));
            proof {
                assert forall|k: K|
                    k != key && position(before, k) < before.len() implies #[trigger] position(
                    self.entries@,
                    k,
                ) == position(before, k) by {
                    lemma_position_bounds(before, k);
                    lemma_position(self.entries@, k, position(before, k));
                }
                assert forall|k: K|
                    k != key && position(before, k) >= before.len() implies #[trigger] position(
                    self.entries@,
                    k,
                ) == before.len() + 1 by {
                    lemma_position_bounds(before, k);
                    assert forall|j: int| 0 <= j < before.len() + 1 implies (
                    #[trigger] self.entries@[j]).0 != k by {
                        if j < before.len() {
                            assert(self.entries@[j] == before[j]);
                        }
                    }
                    lemma_position(self.entries@, k, before.len() as int + 1);
                }
                assert forall|j: int| 0 <= j < before.len() implies (
                #[trigger] self.entries@[j]).0 != key by {
                    assert(self.entries@[j] == before[j]);
                }
                lemma_position(self.entries@, key, before.len() as int);
            }
        }
        proof {
            let after = self.entries@;
            assert forall|k: K| #[trigger] self@.dom().contains(k) == old(self)@.insert(
                key,
                value,
            ).dom().contains(k) by {
                assert(self@.dom().contains(k) == (position(after, k) < after.len()));
                assert(old(self)@.dom().contains(k) == (position(before, k) < before.len()));
                lemma_position_bounds(before, k);
            }
            assert forall|k: K| #[trigger] self@.dom().contains(k) implies self@[k] == old(
                self,
            )@.insert(key, value)[k] by {
                assert(position(after, k) < after.len());
                lemma_position_bounds(before, k);
                lemma_position_bounds(after, k);
                if k != key {
                    assert(position(before, k) < before.len());
                }
            }
            assert(self@ =~= old(self)@.insert(key, value));
        }
    }
}

/// A set of keys.
pub struct KeySet<K> {
    items: Vec<K>,
}

impl<K> View for KeySet<K> {
    type V = Set<K>;

    closed spec fn view(&self) -> Set<K> {
        Set::new(|k: K| self.items@.contains(k))
    }
}

impl<K: Key> KeySet<K> {
    pub fn new() -> (res: Self)
        ensures
            res@ == Set::<K>::empty(),
    {
        let res = KeySet { items: Vec::new() };
        assert(res@ =~= Set::<K>::empty());
        res
    }

    pub fn contains(&self, key: K) -> (res: bool)
        ensures
            res == self@.contains(key),
    {
        let mut i: usize = 0;
        while i < self.items.len()
            invariant
                i <= self.items@.len(),
                forall|j: int| 0 <= j < i ==> self.items@[j] != key,
            decreases self.items@.len() - i,
        {
            if self.items[i].equal(&key) {
                assert(self.items@.contains(key));
                return true;
            }
            i = i + 1;
        }
        false
    }

    /// Adds the key, and says whether it was absent.
    pub fn insert(&mut self, key: K) -> (res: bool)
        ensures
            final(self)@ == old(self)@.insert(key),
            res == !old(self)@.contains(key),
    {
        if self.contains(key) {
            assert(self@ =~= old(self)@.insert(key));
            return false;
        }
        let ghost before = self.items@;
        self.items.push(key);
        proof {
            assert(self.items@[before.len() as int] == key);
            assert forall|k: K| before.contains(k) implies #[trigger] self.items@.contains(k) by {
                let j = choose|j: int| 0 <= j < before.len() && before[j] == k;
                assert(self.items@[j] == k);
            }
            assert forall|k: K| #[trigger] self.items@.contains(
                k,
            ) && k != key implies before.contains(
            k) by {
                let j = choose|j: int| 0 <= j < self.items@.len() && self.items@[j] == k;
                assert(before[j] == k);
            }
        }
        assert(self@ =~= old(self)@.insert(key));
        true
    }

    /// A set with the same members.
    pub fn copied(&self) -> (res: Self)
        ensures
            res@ == self@,
    {
        let mut items: Vec<K> = Vec::new();
        let mut i: usize = 0;
        while i < self.items.len()
            invariant
                i <= self.items@.len(),
                items@ == self.items@.subrange(0, i as int),
            decreases self.items@.len() - i,
        {
            items.push(self.items[i]);
            i = i + 1;
            assert(items@ =~= self.items@.subrange(0, i as int));
        }
        assert(items@ =~= self.items@);
        KeySet { items }
    }

    /// The members, in the order in which they came.
    pub fn items(&self) -> (res: &Vec<K>)
        ensures
            forall|k: K| self@.contains(k) <==> #[trigger] res@.contains(k),
    {
        &self.items
    }

    pub fn is_disjoint(&self, other: &Self) -> (res: bool)
        ensures
            res == self@.disjoint(other@),
    {
        let mut i: usize = 0;
        while i < self.items.len()
            invariant
                i <= self.items@.len(),
                forall|j: int| 0 <= j < i ==> !other@.contains(#[trigger] self.items@[j]),
            decreases self.items@.len() - i,
        {
            if other.contains(self.items[i]) {
                assert(self@.contains(self.items@[i as int]));
                return false;
            }
            i = i + 1;
        }
        true
    }
}

} // verus!
