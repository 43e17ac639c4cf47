//! A small set and a small map that keep their keys in ascending order.

use vstd::prelude::*;

verus! {

/// The keys ascend, and so none occurs twice.
pub open spec fn ascending(keys: Seq<u32>) -> bool {
    forall|i: int, j: int| 0 <= i < j < keys.len() ==> keys[i] < keys[j]
}

/// An ascending sequence is known by its elements alone.
pub proof fn lemma_ascending_unique(a: Seq<u32>, b: Seq<u32>)
    requires
        ascending(a),
        ascending(b),
        a.to_set() == b.to_set(),
    ensures
        a == b,
    decreases a.len(),
{
    if a.len() == 0 {
        if b.len() > 0 {
            assert(b.to_set().contains(b[0]));
            assert(a.to_set().contains(b[0]));
        }
        assert(a =~= b);
    } else {
        assert(a.to_set().contains(a.last()));
        assert(b.to_set().contains(a.last()));
        let i = choose|i: int| 0 <= i < b.len() && b[i] == a.last();
        assert(b.to_set().contains(b.last()));
        assert(a.to_set().contains(b.last()));
        let j = choose|j: int| 0 <= j < a.len() && a[j] == b.last();
        assert(a.last() == b.last());
        lemma_without_last(a);
        lemma_without_last(b);
        lemma_ascending_unique(a.drop_last(), b.drop_last());
        assert(a =~= a.drop_last().push(a.last()));
        assert(b =~= b.drop_last().push(b.last()));
    }
}

proof fn lemma_without_last(a: Seq<u32>)
    requires
        ascending(a),
        a.len() > 0,
    ensures
        a.drop_last().to_set() == a.to_set().remove(a.last()),
{
    let init = a.drop_last();
    assert forall|k: u32| init.to_set().contains(k) <==> a.to_set().remove(a.last()).contains(
        k,
    ) by {
        if init.to_set().contains(k) {
            let i = choose|i: int| 0 <= i < init.len() && init[i] == k;
            assert(a[i] == k);
        }
        if a.to_set().remove(a.last()).contains(k) {
            let i = choose|i: int| 0 <= i < a.len() && a[i] == k;
            assert(init[i] == k);
        }
    }
    assert(init.to_set() =~= a.to_set().remove(a.last()));
}

/// The elements of `set` in ascending order.
pub open spec fn listing_of(set: Set<u32>) -> Seq<u32> {
    choose|keys: Seq<u32>| ascending(keys) && #[trigger] keys.to_set() == set
}

/// A sequence that ascends is the listing of its elements.
pub proof fn lemma_listing_of(keys: Seq<u32>)
    requires
        ascending(keys),
    ensures
        listing_of(keys.to_set()) == keys,
{
    lemma_ascending_unique(listing_of(keys.to_set()), keys);
}

/// The place of `key` in `keys`: of the key itself, or where it would stand.
fn place(keys: &Vec<u32>, key: u32) -> (r: usize)
    requires
        ascending(keys@),
    ensures
        r <= keys@.len(),
        forall|i: int| 0 <= i < r ==> (#[trigger] keys@[i]) < key,
        forall|i: int| r <= i < keys@.len() ==> (#[trigger] keys@[i]) >= key,
{
    let mut at: usize = keys.len();
    while at > 0 && keys[at - 1] >= key
        invariant
            at <= keys@.len(),
            ascending(keys@),
            forall|i: int| at <= i < keys@.len() ==> (#[trigger] keys@[i]) >= key,
        decreases at,
    {
        at -= 1;
    }
    at
}

/// A set of keys. Its view lists them in ascending order.
pub struct OrderedSet {
    keys: Vec<u32>,
}

impl View for OrderedSet {
    type V = Seq<u32>;

    closed spec fn view(&self) -> Seq<u32> {
        self.keys@
    }
}

impl OrderedSet {
    #[verifier::type_invariant]
    spec fn inv(self) -> bool {
        ascending(self.keys@)
    }

    /// The keys without their order.
    pub open spec fn set(&self) -> Set<u32> {
        self@.to_set()
    }

    pub fn new() -> (r: Self)
        ensures
            r@ == Seq::<u32>::empty(),
            r.set() == Set::<u32>::empty(),
    {
        let r = OrderedSet { keys: Vec::new() };
        assert(r.set() =~= Set::<u32>::empty());
        r
    }

    pub fn len(&self) -> (r: usize)
        ensures
            r == self@.len(),
    {
        self.keys.len()
    }

    /// The key at `index` of the listing, which ascends.
    pub fn get(&self, index: usize) -> (r: u32)
        requires
            index < self@.len(),
        ensures
            r == self@[index as int],
            ascending(self@),
    {
        proof {
            use_type_invariant(self);
        }
        self.keys[index]
    }

    pub fn contains(&self, key: u32) -> (r: bool)
        ensures
            r == self.set().contains(key),
    {
        proof {
            use_type_invariant(self);
        }
        let at = place(&self.keys, key);
        let found = at < self.keys.len() && self.keys[at] == key;
        proof {
            if self.set().contains(key) {
                let i = choose|i: int| 0 <= i < self@.len() && self@[i] == key;
                assert(i >= at);
            }
            if found {
                assert(self@[at as int] == key);
            }
        }
        found
    }

    /// Adds `key`; `true` where it is new.
    pub fn insert(&mut self, key: u32) -> (r: bool)
        ensures
            ascending(final(self)@),
            final(self).set() == old(self).set().insert(key),
            r == !old(self).set().contains(key),
    {
        proof {
            use_type_invariant(&*self);
        }
        let ghost before = self.keys@;
        let at = place(&self.keys, key);
        if at < self.keys.len() && self.keys[at] == key {
            proof {
                assert(before[at as int] == key);
                assert(before.to_set() =~= before.to_set().insert(key));
            }
            return false;
        }
        let mut keys: Vec<u32> = Vec::new();
        core::mem::swap(&mut keys, &mut self.keys);
        keys.insert(at, key);
        proof {
            let after = keys@;
            assert(after == before.insert(at as int, key));
            assert forall|k: u32| after.to_set().contains(k) <==> before.to_set().insert(
                key,
            ).contains(k) by {
                if after.to_set().contains(k) {
                    let i = choose|i: int| 0 <= i < after.len() && after[i] == k;
                    if i < at {
                        assert(before[i] == k);
                    } else if i > at {
                        assert(before[i - 1] == k);
                    }
                }
                if before.to_set().contains(k) {
                    let i = choose|i: int| 0 <= i < before.len() && before[i] == k;
                    if i < at {
                        assert(after[i] == k);
                    } else {
                        assert(after[i + 1] == k);
                    }
                }
                assert(after[at as int] == key);
            }
            assert(after.to_set() =~= before.to_set().insert(key));
            if before.to_set().contains(key) {
                let i = choose|i: int| 0 <= i < before.len() && before[i] == key;
                assert(i == at);
            }
        }
        self.keys = keys;
        true
    }

    /// Takes `key` out; `true` where it was there.
    pub fn remove(&mut self, key: u32) -> (r: bool)
        ensures
            ascending(final(self)@),
            final(self).set() == old(self).set().remove(key),
            r == old(self).set().contains(key),
    {
        proof {
            use_type_invariant(&*self);
        }
        let ghost before = self.keys@;
        let at = place(&self.keys, key);
        if at < self.keys.len() && self.keys[at] == key {
            let mut keys: Vec<u32> = Vec::new();
            core::mem::swap(&mut keys, &mut self.keys);
            let _ = keys.remove(at);
            proof {
                let after = keys@;
                assert(before[at as int] == key);
                assert forall|k: u32| after.to_set().contains(k) <==> before.to_set().remove(
                    key,
                ).contains(k) by {
                    if after.to_set().contains(k) {
                        let i = choose|i: int| 0 <= i < after.len() && after[i] == k;
                        if i < at {
                            assert(before[i] == k);
                        } else {
                            assert(before[i + 1] == k);
                        }
                    }
                    if before.to_set().remove(key).contains(k) {
                        let i = choose|i: int| 0 <= i < before.len() && before[i] == k;
                        if i < at {
                            assert(after[i] == k);
                        } else {
                            assert(after[i - 1] == k);
                        }
                    }
                }
                assert(after.to_set() =~= before.to_set().remove(key));
            }
            self.keys = keys;
            return true;
        }
        proof {
            if before.to_set().contains(key) {
                let i = choose|i: int| 0 <= i < before.len() && before[i] == key;
                assert(i >= at);
            }
            assert(before.to_set() =~= before.to_set().remove(key));
        }
        false
    }

    pub fn clear(&mut self)
        ensures
            final(self)@ == Seq::<u32>::empty(),
            final(self).set() == Set::<u32>::empty(),
    {
        self.keys = Vec::new();
        assert(self.set() =~= Set::<u32>::empty());
    }

    /// The keys in ascending order.
    pub fn listing(&self) -> (r: Vec<u32>)
        ensures
            r@ == self@,
            ascending(r@),
            r@ == listing_of(self.set()),
    {
        proof {
            use_type_invariant(self);
            lemma_listing_of(self.keys@);
        }
        self.keys.clone()
    }
}

/// The keys of `entries`, in order.
pub open spec fn keys_of<V>(entries: Seq<(u32, V)>) -> Seq<u32> {
    Seq::new(entries.len(), |i: int| entries[i].0)
}

/// What `entries` maps each of its keys to.
pub open spec fn map_of<V>(entries: Seq<(u32, V)>) -> Map<u32, V> {
    Map::new(
        |key: u32| keys_of(entries).contains(key),
        |key: u32| entries[keys_of(entries).index_of(key)].1,
    )
}

/// The entry at `i` is what its key is mapped to.
pub proof fn lemma_map_of<V>(entries: Seq<(u32, V)>, i: int)
    requires
        ascending(keys_of(entries)),
        0 <= i < entries.len(),
    ensures
        map_of(entries).contains_key(entries[i].0),
        map_of(entries)[entries[i].0] == entries[i].1,
{
    let keys = keys_of(entries);
    assert(keys[i] == entries[i].0);
    assert(keys.contains(keys[i]));
    let j = keys.index_of(keys[i]);
    assert(keys[j] == keys[i]);
}

proof fn lemma_map_insert<V>(before: Seq<(u32, V)>, after: Seq<(u32, V)>, at: int, value: (u32, V))
    requires
        ascending(keys_of(before)),
        ascending(keys_of(after)),
        0 <= at <= before.len(),
        after == before.insert(at, value),
    ensures
        map_of(after) == map_of(before).insert(value.0, value.1),
        !map_of(before).contains_key(value.0),
{
    assert forall|k: u32| map_of(after).contains_key(k) <==> map_of(before).insert(
        value.0,
        value.1,
    ).contains_key(k) by {
        if keys_of(after).contains(k) {
            let i = keys_of(after).index_of(k);
            assert(keys_of(after)[i] == k);
            if i < at {
                assert(keys_of(before)[i] == k);
            } else if i > at {
                assert(keys_of(before)[i - 1] == k);
            }
        }
        if keys_of(before).contains(k) {
            let i = keys_of(before).index_of(k);
            assert(keys_of(before)[i] == k);
            if i < at {
                assert(keys_of(after)[i] == k);
            } else {
                assert(keys_of(after)[i + 1] == k);
            }
        }
        assert(keys_of(after)[at] == value.0);
    }
    if keys_of(before).contains(value.0) {
        let i = keys_of(before).index_of(value.0);
        assert(keys_of(before)[i] == value.0);
        if i < at {
            assert(keys_of(after)[i] == value.0);
        } else {
            assert(keys_of(after)[i + 1] == value.0);
        }
        assert(keys_of(after)[at] == value.0);
    }
    assert forall|k: u32| #[trigger] map_of(after).contains_key(k) implies map_of(after)[k]
        == map_of(before).insert(value.0, value.1)[k] by {
        let i = keys_of(after).index_of(k);
        assert(keys_of(after)[i] == k);
        lemma_map_of(after, i);
        if i < at {
            lemma_map_of(before, i);
        } else if i > at {
            lemma_map_of(before, i - 1);
        }
    }
    assert(map_of(after) =~= map_of(before).insert(value.0, value.1));
}

proof fn lemma_map_remove<V>(before: Seq<(u32, V)>, after: Seq<(u32, V)>, at: int)
    requires
        ascending(keys_of(before)),
        0 <= at < before.len(),
        after == before.remove(at),
    ensures
        ascending(keys_of(after)),
        map_of(after) == map_of(before).remove(before[at].0),
{
    let key = before[at].0;
    assert forall|i: int, j: int| 0 <= i < j < keys_of(after).len() implies keys_of(after)[i]
        < keys_of(after)[j] by {
        let a = if i < at {
            i
        } else {
            i + 1
        };
        let b = if j < at {
            j
        } else {
            j + 1
        };
        assert(keys_of(before)[a] < keys_of(before)[b]);
    }
    assert(before == after.insert(at, before[at]));
    lemma_map_insert(after, before, at, before[at]);
    assert(map_of(after) =~= map_of(before).remove(key));
}

/// A map whose view lists its entries by ascending key.
pub struct OrderedMap<V> {
    entries: Vec<(u32, V)>,
}

impl<V> View for OrderedMap<V> {
    type V = Seq<(u32, V)>;

    closed spec fn view(&self) -> Seq<(u32, V)> {
        self.entries@
    }
}

impl<V> OrderedMap<V> {
    #[verifier::type_invariant]
    spec fn inv(self) -> bool {
        ascending(keys_of(self.entries@))
    }

    /// What each key is mapped to.
    pub open spec fn map(&self) -> Map<u32, V> {
        map_of(self@)
    }

    pub fn new() -> (r: Self)
        ensures
            r@ == Seq::<(u32, V)>::empty(),
            r.map() == Map::<u32, V>::empty(),
    {
        let r = OrderedMap { entries: Vec::new() };
        assert(r.map() =~= Map::<u32, V>::empty());
        r
    }

    pub fn len(&self) -> (r: usize)
        ensures
            r == self@.len(),
    {
        self.entries.len()
    }

    /// The entry at `index` of the listing, whose keys ascend.
    pub fn get(&self, index: usize) -> (r: &(u32, V))
        requires
            index < self@.len(),
        ensures
            *r == self@[index as int],
    {
        &self.entries[index]
    }

    fn place(&self, key: u32) -> (r: usize)
        requires
            ascending(keys_of(self.entries@)),
        ensures
            r <= self.entries@.len(),
            forall|i: int| 0 <= i < r ==> (#[trigger] self.entries@[i]).0 < key,
            forall|i: int|
                r <= i < self.entries@.len() ==> (#[trigger] self.entries@[i]).0 >= key,
    {
        let mut at: usize = self.entries.len();
        while at > 0 && self.entries[at - 1].0 >= key
            invariant
                at <= self.entries@.len(),
                forall|i: int|
                    at <= i < self.entries@.len() ==> (#[trigger] self.entries@[i]).0 >= key,
            decreases at,
        {
            at -= 1;
        }
        proof {
            let keys = keys_of(self.entries@);
            assert forall|i: int| 0 <= i < at implies (#[trigger] self.entries@[i]).0 < key by {
                assert(keys[i] == self.entries@[i].0);
                assert(keys[at - 1] == self.entries@[at - 1].0);
            }
        }
        at
    }

    /// Takes the entry of `key` out, if there is one.
    pub fn remove(&mut self, key: u32) -> (r: Option<V>)
        ensures
            ascending(keys_of(final(self)@)),
            final(self).map() == old(self).map().remove(key),
            r is Some <==> old(self).map().contains_key(key),
            r matches Some(value) ==> value == old(self).map()[key],
    {
        proof {
            use_type_invariant(&*self);
        }
        let ghost before = self.entries@;
        let at = self.place(key);
        if at < self.entries.len() && self.entries[at].0 == key {
            let mut entries: Vec<(u32, V)> = Vec::new();
            core::mem::swap(&mut entries, &mut self.entries);
            proof {
                lemma_map_of(before, at as int);
            }
            let (_, value) = entries.remove(at);
            proof {
                lemma_map_remove(before, entries@, at as int);
            }
            self.entries = entries;
            return Some(value);
        }
        proof {
            if keys_of(before).contains(key) {
                let i = keys_of(before).index_of(key);
                assert(keys_of(before)[i] == before[i].0);
                if i > at {
                    assert(keys_of(before)[at as int] == before[at as int].0);
                }
            }
            assert(map_of(before) =~= map_of(before).remove(key));
        }
        None
    }

    /// Maps `key`, which must be free, to `value`.
    pub fn insert(&mut self, key: u32, value: V)
        requires
            !old(self).map().contains_key(key),
        ensures
            ascending(keys_of(final(self)@)),
            final(self).map() == old(self).map().insert(key, value),
    {
        proof {
            use_type_invariant(&*self);
        }
        let ghost before = self.entries@;
        let at = self.place(key);
        let mut entries: Vec<(u32, V)> = Vec::new();
        core::mem::swap(&mut entries, &mut self.entries);
        entries.insert(at, (key, value));
        proof {
            if at < before.len() && before[at as int].0 == key {
                lemma_map_of(before, at as int);
            }
            let keys = keys_of(entries@);
            assert forall|i: int, j: int| 0 <= i < j < keys.len() implies keys[i] < keys[j] by {
                let old_keys = keys_of(before);
                if i < at && j < at {
                    assert(old_keys[i] < old_keys[j]);
                } else if i < at && j == at {
                    assert(before[i].0 < key);
                } else if i < at {
                    assert(old_keys[i] < old_keys[j - 1]);
                } else if i == at {
                    assert(before[j - 1].0 >= key);
                    assert(old_keys[at as int] <= old_keys[j - 1]);
                } else {
                    assert(old_keys[i - 1] < old_keys[j - 1]);
                }
            }
            lemma_map_insert(before, entries@, at as int, (key, value));
        }
        self.entries = entries;
    }

    /// All entries, by ascending key.
    pub fn into_entries(self) -> (r: Vec<(u32, V)>)
        ensures
            r@ == self@,
            ascending(keys_of(r@)),
    {
        proof {
            use_type_invariant(&self);
        }
        self.entries
    }

    /// The map that lists `entries`, whose keys ascend.
    pub fn from_entries(entries: Vec<(u32, V)>) -> (r: Self)
        requires
            ascending(keys_of(entries@)),
        ensures
            r@ == entries@,
    {
        OrderedMap { entries }
    }
}

} // verus!
