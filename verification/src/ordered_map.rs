//! A map from text to values, kept and walked in the order of its keys.
use crate::text;
use vstd::prelude::*;

verus! {

/// Keys with their values, in the order of a walk.
pub type Entries<V> = Seq<(Seq<char>, V)>;

/// The number of leading entries whose keys come before `key`.
pub open spec fn rank<V>(entries: Entries<V>, key: Seq<char>) -> nat
    decreases entries.len(),
{
    if entries.len() == 0 || !text::precedes(entries[0].0, key) {
        0
    } else {
        1 + rank(entries.drop_first(), key)
    }
}

/// Every key comes before the keys that follow it.
pub open spec fn ascending<V>(entries: Entries<V>) -> bool {
    forall|i: int, j: int|
        0 <= i < j < entries.len() ==> text::precedes(
            (#[trigger] entries[i]).0,
            (#[trigger] entries[j]).0,
        )
}

/// Whether `key` is one of the keys.
pub open spec fn holds<V>(entries: Entries<V>, key: Seq<char>) -> bool {
    exists|i: int| 0 <= i < entries.len() && (#[trigger] entries[i]).0 == key
}

/// The value kept under `key`.
pub open spec fn lookup<V>(entries: Entries<V>, key: Seq<char>) -> Option<V> {
    if holds(entries, key) {
        Some(entries[choose|i: int| 0 <= i < entries.len() && (#[trigger] entries[i]).0 == key].1)
    } else {
        None
    }
}

/// The entries after `value` is kept under `key`, in place of what stood there.
pub open spec fn put<V>(entries: Entries<V>, key: Seq<char>, value: V) -> Entries<V> {
    let at = rank(entries, key) as int;
    if holds(entries, key) {
        entries.update(at, (key, value))
    } else {
        entries.insert(at, (key, value))
    }
}

/// The entries without the one under `key`.
pub open spec fn without<V>(entries: Entries<V>, key: Seq<char>) -> Entries<V> {
    if holds(entries, key) {
        entries.remove(rank(entries, key) as int)
    } else {
        entries
    }
}

/// The rank is the one position that splits the keys before `key` from the rest.
proof fn rank_splits<V>(entries: Entries<V>, key: Seq<char>, at: int)
    requires
        0 <= at <= entries.len(),
        forall|i: int| 0 <= i < at ==> text::precedes((#[trigger] entries[i]).0, key),
        at < entries.len() ==> !text::precedes(entries[at].0, key),
    ensures
        rank(entries, key) == at,
    decreases entries.len(),
{
    if at > 0 {
        let rest = entries.drop_first();
        assert forall|i: int| 0 <= i < at - 1 implies text::precedes(
            (#[trigger] rest[i]).0,
            key,
        ) by {
            assert(rest[i] == entries[i + 1]);
        }
        assert(text::precedes(entries[0].0, key));
        rank_splits(rest, key, at - 1);
    }
}

/// Below its rank all keys come before `key`, and the key at the rank does not.
proof fn rank_bounds<V>(entries: Entries<V>, key: Seq<char>)
    ensures
        rank(entries, key) <= entries.len(),
        forall|i: int|
            0 <= i < rank(entries, key) ==> text::precedes((#[trigger] entries[i]).0, key),
        rank(entries, key) < entries.len() ==> !text::precedes(
            entries[rank(entries, key) as int].0,
            key,
        ),
    decreases entries.len(),
{
    if entries.len() > 0 && text::precedes(entries[0].0, key) {
        let rest = entries.drop_first();
        rank_bounds(rest, key);
        assert forall|i: int| 0 <= i < rank(entries, key) implies text::precedes(
            (#[trigger] entries[i]).0,
            key,
        ) by {
            if i > 0 {
                assert(rest[i - 1] == entries[i]);
            }
        }
    }
}

/// A rank is a position or the end.
pub proof fn rank_is_bounded<V>(entries: Entries<V>, key: Seq<char>)
    ensures
        rank(entries, key) <= entries.len(),
{
    rank_bounds(entries, key);
}

/// A key that is present stands at its rank.
pub proof fn present_at_rank<V>(entries: Entries<V>, key: Seq<char>)
    requires
        ascending(entries),
        holds(entries, key),
    ensures
        rank(entries, key) < entries.len(),
        entries[rank(entries, key) as int].0 == key,
        lookup(entries, key) == Some(entries[rank(entries, key) as int].1),
{
    let at = choose|i: int| 0 <= i < entries.len() && (#[trigger] entries[i]).0 == key;
    text::precedes_is_asymmetric(key, key);
    rank_splits(entries, key, at);
}

/// Keeping a value leaves the order intact, answers for its key and changes no other key.
pub proof fn put_is_a_map_update<V>(entries: Entries<V>, key: Seq<char>, value: V)
    requires
        ascending(entries),
    ensures
        ascending(put(entries, key, value)),
        lookup(put(entries, key, value), key) == Some(value),
        forall|k: Seq<char>|
            k != key ==> #[trigger] lookup(put(entries, key, value), k) == lookup(entries, k),
        forall|k: Seq<char>|
            #[trigger] holds(put(entries, key, value), k) <==> k == key || holds(entries, k),
{
    let new = put(entries, key, value);
    let at = rank(entries, key) as int;
    rank_bounds(entries, key);
    if holds(entries, key) {
        present_at_rank(entries, key);
        assert forall|i: int, j: int| 0 <= i < j < new.len() implies text::precedes(
            (#[trigger] new[i]).0,
            (#[trigger] new[j]).0,
        ) by {
            assert(new[i].0 == entries[i].0 && new[j].0 == entries[j].0);
        }
        assert forall|k: Seq<char>| #[trigger] holds(new, k) implies k == key || holds(entries, k) by {
            let i = choose|i: int| 0 <= i < new.len() && (#[trigger] new[i]).0 == k;
            assert(entries[i].0 == k);
        }
        assert forall|k: Seq<char>| k == key || holds(entries, k) implies #[trigger] holds(new, k) by {
            let i = choose|i: int| 0 <= i < entries.len() && (#[trigger] entries[i]).0 == k;
            assert(new[i].0 == k);
        }
    } else {
        assert forall|i: int| at <= i < entries.len() implies text::precedes(
            key,
            (#[trigger] entries[i]).0,
        ) by {
            assert(entries[i].0 != key);
            text::precedes_is_total(entries[at].0, key);
            assert(entries[at].0 != key);
            if i > at {
                text::precedes_is_transitive(key, entries[at].0, entries[i].0);
            }
        }
        assert forall|i: int, j: int| 0 <= i < j < new.len() implies text::precedes(
            (#[trigger] new[i]).0,
            (#[trigger] new[j]).0,
        ) by {
            if i < at {
                assert(new[i] == entries[i]);
            } else if i > at {
                assert(new[i] == entries[i - 1]);
            }
            if j < at {
                assert(new[j] == entries[j]);
            } else if j > at {
                assert(new[j] == entries[j - 1]);
            }
        }
        assert(new[at] == (key, value));
        assert forall|k: Seq<char>| #[trigger] holds(new, k) implies k == key || holds(entries, k) by {
            let i = choose|i: int| 0 <= i < new.len() && (#[trigger] new[i]).0 == k;
            if i < at {
                assert(entries[i] == new[i]);
            } else if i > at {
                assert(entries[i - 1] == new[i]);
            }
        }
        assert forall|k: Seq<char>| k == key || holds(entries, k) implies #[trigger] holds(new, k) by {
            if k == key {
                assert(new[at].0 == k);
            } else {
                let i = choose|i: int| 0 <= i < entries.len() && (#[trigger] entries[i]).0 == k;
                if i < at {
                    assert(new[i] == entries[i]);
                } else {
                    assert(new[i + 1] == entries[i]);
                }
            }
        }
    }
    assert(holds(new, key));
    present_at_rank(new, key);
    assert(new[at].0 == key);
    unique_key(new, key, at);
    assert forall|k: Seq<char>| k != key implies #[trigger] lookup(new, k) == lookup(entries, k) by {
        if holds(entries, k) {
            present_at_rank(entries, k);
            let i = rank(entries, k) as int;
            if holds(entries, key) {
                assert(new[i] == entries[i]);
                unique_key(new, k, i);
            } else if i < at {
                assert(new[i] == entries[i]);
                unique_key(new, k, i);
            } else {
                assert(new[i + 1] == entries[i]);
                unique_key(new, k, i + 1);
            }
        }
    }
}

/// Keeping the value that a key already has changes nothing.
pub proof fn put_same<V>(entries: Entries<V>, key: Seq<char>, value: V)
    requires
        ascending(entries),
        lookup(entries, key) == Some(value),
    ensures
        put(entries, key, value) == entries,
{
    present_at_rank(entries, key);
    assert(put(entries, key, value) =~= entries);
}

/// A key stands at one position only, and its value is found there.
pub proof fn unique_key<V>(entries: Entries<V>, key: Seq<char>, at: int)
    requires
        ascending(entries),
        0 <= at < entries.len(),
        entries[at].0 == key,
    ensures
        rank(entries, key) == at,
        holds(entries, key),
        lookup(entries, key) == Some(entries[at].1),
{
    text::precedes_is_asymmetric(key, key);
    rank_splits(entries, key, at);
    present_at_rank(entries, key);
}

/// Removing a key leaves the order intact, forgets that key and changes no other key.
pub proof fn without_is_a_map_removal<V>(entries: Entries<V>, key: Seq<char>)
    requires
        ascending(entries),
    ensures
        ascending(without(entries, key)),
        !holds(without(entries, key), key),
        lookup(without(entries, key), key) is None,
        forall|k: Seq<char>|
            k != key ==> #[trigger] lookup(without(entries, key), k) == lookup(entries, k),
        forall|k: Seq<char>|
            #[trigger] holds(without(entries, key), k) <==> k != key && holds(entries, k),
{
    let new = without(entries, key);
    if holds(entries, key) {
        let at = rank(entries, key) as int;
        present_at_rank(entries, key);
        assert forall|i: int, j: int| 0 <= i < j < new.len() implies text::precedes(
            (#[trigger] new[i]).0,
            (#[trigger] new[j]).0,
        ) by {
            let a = if i < at { i } else { i + 1 };
            let b = if j < at { j } else { j + 1 };
            assert(new[i] == entries[a] && new[j] == entries[b]);
        }
        assert forall|k: Seq<char>| #[trigger] holds(new, k) implies k != key && holds(entries, k) by {
            let i = choose|i: int| 0 <= i < new.len() && (#[trigger] new[i]).0 == k;
            let a = if i < at { i } else { i + 1 };
            assert(entries[a] == new[i]);
            text::precedes_is_asymmetric(entries[a].0, entries[at].0);
            text::precedes_is_asymmetric(entries[at].0, entries[a].0);
        }
        assert forall|k: Seq<char>| k != key && holds(entries, k) implies #[trigger] holds(new, k) by {
            let i = choose|i: int| 0 <= i < entries.len() && (#[trigger] entries[i]).0 == k;
            let a = if i < at { i } else { i - 1 };
            assert(new[a] == entries[i]);
        }
        assert forall|k: Seq<char>| k != key implies #[trigger] lookup(new, k) == lookup(
            entries,
            k,
        ) by {
            if holds(entries, k) {
                present_at_rank(entries, k);
                let i = rank(entries, k) as int;
                let a = if i < at { i } else { i - 1 };
                assert(new[a] == entries[i]);
                unique_key(new, k, a);
            }
        }
    }
}

/// A map from text to values that is walked in the order of its keys.
pub struct OrderedMap<V> {
    keys: Vec<String>,
    values: Vec<V>,
}

impl<V: View> View for OrderedMap<V> {
    type V = Entries<V::V>;

    closed spec fn view(&self) -> Entries<V::V> {
        Seq::new(self.keys@.len(), |i: int| (self.keys@[i]@, self.values@[i]@))
    }
}

impl<V: View> OrderedMap<V> {
    /// Each key has its value, and the keys ascend.
    pub closed spec fn wf(&self) -> bool {
        self.keys@.len() == self.values@.len() && ascending(self@)
    }

    /// A well-formed map walks its keys in ascending order.
    pub proof fn wf_ascends(&self)
        requires
            self.wf(),
        ensures
            ascending(self@),
    {
    }

    /// An empty map.
    pub fn new() -> (map: Self)
        ensures
            map.wf(),
            map@ == Seq::<(Seq<char>, V::V)>::empty(),
    {
        let map = OrderedMap { keys: Vec::new(), values: Vec::new() };
        assert(map@ =~= Seq::<(Seq<char>, V::V)>::empty());
        map
    }

    /// The number of keys.
    pub fn len(&self) -> (n: usize)
        requires
            self.wf(),
        ensures
            n == self@.len(),
    {
        self.keys.len()
    }

    /// Whether no key is held.
    pub fn is_empty(&self) -> (empty: bool)
        requires
            self.wf(),
        ensures
            empty == (self@.len() == 0),
    {
        self.keys.len() == 0
    }

    /// The position at which `key` stands or would stand.
    fn position(&self, key: &str) -> (at: usize)
        requires
            self.wf(),
        ensures
            at == rank(self@, key@),
            at <= self@.len(),
    {
        let mut low: usize = 0;
        let mut high: usize = self.keys.len();
        while low < high
            invariant
                self.wf(),
                low <= high <= self@.len(),
                forall|i: int| 0 <= i < low ==> text::precedes((#[trigger] self@[i]).0, key@),
                forall|i: int|
                    high <= i < self@.len() ==> !text::precedes((#[trigger] self@[i]).0, key@),
            decreases high - low,
        {
            let middle: usize = low + (high - low) / 2;
            let less = text::is_before(self.keys[middle].as_str(), key);
            assert(self@[middle as int].0 == self.keys@[middle as int]@);
            if less {
                assert forall|i: int| 0 <= i < middle + 1 implies text::precedes(
                    (#[trigger] self@[i]).0,
                    key@,
                ) by {
                    if i < middle {
                        text::precedes_is_transitive(self@[i].0, self@[middle as int].0, key@);
                    }
                }
                low = middle + 1;
            } else {
                assert forall|i: int| middle <= i < self@.len() implies !text::precedes(
                    (#[trigger] self@[i]).0,
                    key@,
                ) by {
                    if i > middle && text::precedes(self@[i].0, key@) {
                        text::precedes_is_transitive(self@[middle as int].0, self@[i].0, key@);
                    }
                }
                high = middle;
            }
        }
        proof {
            rank_splits(self@, key@, low as int);
        }
        low
    }

    /// The position of `key`, where it is held.
    pub fn find(&self, key: &str) -> (found: Option<usize>)
        requires
            self.wf(),
        ensures
            found is Some == holds(self@, key@),
            found matches Some(i) ==> i < self@.len() && self@[i as int].0 == key@ && lookup(
                self@,
                key@,
            ) == Some(self@[i as int].1) && i == rank(self@, key@),
    {
        let at = self.position(key);
        if at < self.keys.len() && !text::is_before(key, self.keys[at].as_str()) {
            proof {
                rank_bounds(self@, key@);
                text::precedes_is_total(self@[at as int].0, key@);
                assert(self@[at as int].0 == self.keys@[at as int]@);
                unique_key(self@, key@, at as int);
            }
            Some(at)
        } else {
            proof {
                if holds(self@, key@) {
                    present_at_rank(self@, key@);
                    assert(self@[at as int].0 == self.keys@[at as int]@);
                    text::precedes_is_asymmetric(key@, key@);
                }
            }
            None
        }
    }

    /// Whether `key` is held.
    pub fn contains_key(&self, key: &str) -> (held: bool)
        requires
            self.wf(),
        ensures
            held == holds(self@, key@),
    {
        self.find(key).is_some()
    }

    /// The value under `key`.
    pub fn get(&self, key: &str) -> (found: Option<&V>)
        requires
            self.wf(),
        ensures
            found is Some == holds(self@, key@),
            found matches Some(value) ==> lookup(self@, key@) == Some(value@),
    {
        match self.find(key) {
            Some(at) => Some(&self.values[at]),
            None => None,
        }
    }

    /// The key at a position of the walk.
    pub fn key_at(&self, at: usize) -> (key: &String)
        requires
            self.wf(),
            at < self@.len(),
        ensures
            key@ == self@[at as int].0,
    {
        &self.keys[at]
    }

    /// The value at a position of the walk.
    pub fn value_at(&self, at: usize) -> (value: &V)
        requires
            self.wf(),
            at < self@.len(),
        ensures
            value@ == self@[at as int].1,
    {
        &self.values[at]
    }

    /// Keeps `value` under `key`, in place of what stood there.
    pub fn insert(&mut self, key: String, value: V)
        requires
            old(self).wf(),
        ensures
            final(self).wf(),
            final(self)@ == put(old(self)@, key@, value@),
    {
        let ghost before = self@;
        let at = self.position(key.as_str());
        proof {
            put_is_a_map_update(before, key@, value@);
        }
        match self.find(key.as_str()) {
            Some(i) => {
                self.values.set(i, value);
                assert(self@ =~= put(before, key@, value@));
            },
            None => {
                self.keys.insert(at, key);
                self.values.insert(at, value);
                assert(self@ =~= put(before, key@, value@));
            },
        }
    }

    /// Takes out the value under `key`.
    pub fn remove(&mut self, key: &str) -> (taken: Option<V>)
        requires
            old(self).wf(),
        ensures
            final(self).wf(),
            final(self)@ == without(old(self)@, key@),
            taken is Some == holds(old(self)@, key@),
            taken matches Some(value) ==> lookup(old(self)@, key@) == Some(value@),
    {
        let ghost before = self@;
        proof {
            without_is_a_map_removal(before, key@);
        }
        match self.find(key) {
            Some(at) => {
                let ghost taken_value = self.values@[at as int];
                let _gone = self.keys.remove(at);
                let value = self.values.remove(at);
                assert(self@ =~= without(before, key@));
                assert(value@ == before[at as int].1);
                Some(value)
            },
            None => None,
        }
    }

    /// Forgets the key at a position of the walk.
    pub fn remove_at(&mut self, at: usize)
        requires
            old(self).wf(),
            at < old(self)@.len(),
        ensures
            final(self).wf(),
            final(self)@ == old(self)@.remove(at as int),
    {
        let ghost before = self@;
        let _key = self.keys.remove(at);
        let _value = self.values.remove(at);
        assert(self@ =~= before.remove(at as int));
        assert forall|i: int, j: int| 0 <= i < j < self@.len() implies text::precedes(
            (#[trigger] self@[i]).0,
            (#[trigger] self@[j]).0,
        ) by {
            let a = if i < at { i } else { i + 1 };
            let b = if j < at { j } else { j + 1 };
            assert(self@[i] == before[a] && self@[j] == before[b]);
        }
    }

    /// Forgets every key.
    pub fn clear(&mut self)
        ensures
            final(self).wf(),
            final(self)@ == Seq::<(Seq<char>, V::V)>::empty(),
    {
        self.keys.clear();
        self.values.clear();
        assert(self@ =~= Seq::<(Seq<char>, V::V)>::empty());
    }
}

} // verus!
