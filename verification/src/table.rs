//! A small map that is searched from front to back.

use vstd::prelude::*;

use crate::config::InputKey;

verus! {

/// What a list of entries comes to: a later one replaces an earlier one.
pub open spec fn map_of<K, V>(entries: Seq<(K, V)>) -> Map<K, V>
    decreases entries.len(),
{
    if entries.len() == 0 {
        Map::empty()
    } else {
        map_of(entries.drop_last()).insert(entries.last().0, entries.last().1)
    }
}

/// No key is listed twice.
pub open spec fn keys_once<K, V>(entries: Seq<(K, V)>) -> bool {
    forall|i: int, j: int|
        0 <= i < j < entries.len() ==> (#[trigger] entries[i]).0 != (#[trigger] entries[j]).0
}

proof fn lemma_map<K, V>(entries: Seq<(K, V)>)
    requires
        keys_once(entries),
    ensures
        forall|i: int|
            0 <= i < entries.len() ==> map_of(entries).contains_key((#[trigger] entries[i]).0)
                && map_of(entries)[entries[i].0] == entries[i].1,
        forall|key: K| #[trigger]
            map_of(entries).contains_key(key) ==> exists|i: int|
                0 <= i < entries.len() && (#[trigger] entries[i]).0 == key,
    decreases entries.len(),
{
    if entries.len() > 0 {
        let init = entries.drop_last();
        lemma_map(init);
        assert forall|i: int| 0 <= i < entries.len() implies map_of(entries).contains_key(
            (#[trigger] entries[i]).0,
        ) && map_of(entries)[entries[i].0] == entries[i].1 by {
            if i < init.len() {
                assert(init[i] == entries[i]);
                assert(entries[i].0 != entries[entries.len() - 1].0);
            }
        }
        assert forall|key: K| #[trigger] map_of(entries).contains_key(key) implies exists|i: int|
            0 <= i < entries.len() && (#[trigger] entries[i]).0 == key by {
            if key == entries.last().0 {
                assert(entries[entries.len() - 1].0 == key);
            } else {
                assert(map_of(init).contains_key(key));
                let i = choose|i: int| 0 <= i < init.len() && (#[trigger] init[i]).0 == key;
                assert(entries[i].0 == key);
            }
        }
    }
}

proof fn lemma_map_removed<K, V>(entries: Seq<(K, V)>, at: int)
    requires
        keys_once(entries),
        0 <= at < entries.len(),
    ensures
        keys_once(entries.remove(at)),
        map_of(entries.remove(at)) == map_of(entries).remove(entries[at].0),
{
    let rest = entries.remove(at);
    assert forall|i: int, j: int| 0 <= i < j < rest.len() implies (#[trigger] rest[i]).0 != (
    #[trigger] rest[j]).0 by {
        assert(rest[i] == entries[if i < at { i } else { i + 1 }]);
        assert(rest[j] == entries[if j < at { j } else { j + 1 }]);
    }
    lemma_map(entries);
    lemma_map(rest);
    let whole = map_of(entries).remove(entries[at].0);
    assert forall|key: K| #[trigger] map_of(rest).contains_key(key) implies {
        &&& whole.contains_key(key)
        &&& whole[key] == map_of(rest)[key]
    } by {
        let i = choose|i: int| 0 <= i < rest.len() && (#[trigger] rest[i]).0 == key;
        let a = if i < at {
            i
        } else {
            i + 1
        };
        assert(rest[i] == entries[a]);
        assert(entries[a].0 != entries[at].0);
    }
    assert forall|key: K| #[trigger] whole.contains_key(key) implies map_of(rest).contains_key(
        key,
    ) by {
        let a = choose|a: int| 0 <= a < entries.len() && (#[trigger] entries[a]).0 == key;
        assert(a != at);
        assert(rest[if a < at { a } else { a - 1 }] == entries[a]);
    }
    assert(map_of(rest) =~= whole);
}

proof fn lemma_map_updated<K, V>(entries: Seq<(K, V)>, at: int, value: V)
    requires
        keys_once(entries),
        0 <= at < entries.len(),
    ensures
        keys_once(entries.update(at, (entries[at].0, value))),
        map_of(entries.update(at, (entries[at].0, value))) == map_of(entries).insert(
            entries[at].0,
            value,
        ),
{
    let key = entries[at].0;
    let next = entries.update(at, (key, value));
    assert forall|i: int, j: int| 0 <= i < j < next.len() implies (#[trigger] next[i]).0 != (
    #[trigger] next[j]).0 by {
        assert(entries[i].0 != entries[j].0);
    }
    lemma_map(entries);
    lemma_map(next);
    let whole = map_of(entries).insert(key, value);
    assert forall|k: K| #[trigger] map_of(next).contains_key(k) implies {
        &&& whole.contains_key(k)
        &&& whole[k] == map_of(next)[k]
    } by {
        let i = choose|i: int| 0 <= i < next.len() && (#[trigger] next[i]).0 == k;
        if i != at {
            assert(next[i] == entries[i]);
            assert(entries[i].0 != key) by {
                if i < at {
                    assert(entries[i].0 != entries[at].0);
                } else {
                    assert(entries[at].0 != entries[i].0);
                }
            }
        }
    }
    assert forall|k: K| #[trigger] whole.contains_key(k) implies map_of(next).contains_key(k) by {
        if k == key {
            assert(next[at].0 == k);
        } else {
            let i = choose|i: int| 0 <= i < entries.len() && (#[trigger] entries[i]).0 == k;
            assert(next[i] == entries[i]);
        }
    }
    assert(map_of(next) =~= whole);
}

/// What one more element adds to the front of a list.
pub(crate) proof fn lemma_take_contains<T>(list: Seq<T>, at: int)
    requires
        0 <= at < list.len(),
        list.no_duplicates(),
    ensures
        forall|x: T| #[trigger]
            list.take(at + 1).contains(x) <==> (list.take(at).contains(x) || x == list[at]),
        !list.take(at).contains(list[at]),
{
    let seen = list.take(at);
    let next = list.take(at + 1);
    assert forall|x: T| #[trigger] next.contains(x) <==> (seen.contains(x) || x == list[at]) by {
        if seen.contains(x) {
            let i = choose|i: int| 0 <= i < seen.len() && seen[i] == x;
            assert(next[i] == x);
        }
        if x == list[at] {
            assert(next[at] == x);
        }
        if next.contains(x) && x != list[at] {
            let i = choose|i: int| 0 <= i < next.len() && next[i] == x;
            assert(seen[i] == x);
        }
    }
    if seen.contains(list[at]) {
        let i = choose|i: int| 0 <= i < seen.len() && seen[i] == list[at];
        assert(list[i] == list[at]);
    }
}

/// What one more element adds to a list.
pub(crate) proof fn lemma_push_contains<T>(list: Seq<T>, element: T)
    ensures
        forall|x: T| #[trigger]
            list.push(element).contains(x) <==> (list.contains(x) || x == element),
        list.no_duplicates() && !list.contains(element) ==> list.push(element).no_duplicates(),
{
    let next = list.push(element);
    assert forall|x: T| #[trigger] next.contains(x) <==> (list.contains(x) || x == element) by {
        if list.contains(x) {
            let i = choose|i: int| 0 <= i < list.len() && list[i] == x;
            assert(next[i] == x);
        }
        if x == element {
            assert(next[list.len() as int] == x);
        }
        if next.contains(x) && x != element {
            let i = choose|i: int| 0 <= i < next.len() && next[i] == x;
            assert(list[i] == x);
        }
    }
}

/// A map for few keys.
pub struct Table<K: InputKey, V: Copy> {
    entries: Vec<(K, V)>,
}

impl<K: InputKey, V: Copy> View for Table<K, V> {
    type V = Map<K, V>;

    closed spec fn view(&self) -> Map<K, V> {
        map_of(self.entries@)
    }
}

impl<K: InputKey, V: Copy> Table<K, V> {
    #[verifier::type_invariant]
    closed spec fn inv(&self) -> bool {
        keys_once(self.entries@)
    }

    pub fn new() -> (r: Self)
        ensures
            r@ == Map::<K, V>::empty(),
    {
        Table { entries: Vec::new() }
    }

    fn find(&self, key: K) -> (r: Option<usize>)
        ensures
            (match r {
                Some(at) => at < self.entries@.len() && self.entries@[at as int].0 == key
                    && self@.contains_key(key) && self@[key] == self.entries@[at as int].1,
                None => !self@.contains_key(key),
            }),
    {
        proof {
            use_type_invariant(self);
            lemma_map(self.entries@);
        }
        for index in 0..self.entries.len()
            invariant
                keys_once(self.entries@),
                forall|i: int| 0 <= i < index ==> (#[trigger] self.entries@[i]).0 != key,
        {
            if self.entries[index].0.same(key) {
                proof {
                    lemma_map(self.entries@);
                }
                return Some(index);
            }
        }
        None
    }

    /// What `key` is mapped to.
    pub fn get(&self, key: K) -> (r: Option<V>)
        ensures
            r == if self@.contains_key(key) {
                Some(self@[key])
            } else {
                None
            },
    {
        match self.find(key) {
            Some(at) => Some(self.entries[at].1),
            None => None,
        }
    }

    /// Maps `key` to `value`, in place of what it was mapped to.
    pub fn insert(&mut self, key: K, value: V)
        ensures
            final(self)@ == old(self)@.insert(key, value),
    {
        let found = self.find(key);
        let mut entries: Vec<(K, V)> = Vec::new();
        proof {
            use_type_invariant(&*self);
            lemma_map(self.entries@);
        }
        let ghost whole = self@;
        std::mem::swap(&mut entries, &mut self.entries);
        let ghost before = entries@;
        match found {
            Some(at) => {
                proof {
                    lemma_map_updated(before, at as int, value);
                }
                entries.set(at, (key, value));
            },
            None => {
                entries.push((key, value));
                assert(entries@.drop_last() =~= before);
                assert(keys_once(entries@)) by {
                    assert forall|i: int, j: int| 0 <= i < j < entries@.len() implies (
                    #[trigger] entries@[i]).0 != (#[trigger] entries@[j]).0 by {
                        assert(entries@[i] == before[i]);
                        assert(whole.contains_key(before[i].0));
                        if j < before.len() {
                            assert(entries@[j] == before[j]);
                        }
                    }
                }
            },
        }
        self.entries = entries;
    }

    /// Forgets `key`.
    pub fn remove(&mut self, key: K)
        ensures
            final(self)@ == old(self)@.remove(key),
    {
        let Some(at) = self.find(key) else {
            assert(self@.remove(key) =~= self@);
            return;
        };
        let mut entries: Vec<(K, V)> = Vec::new();
        proof {
            use_type_invariant(&*self);
            lemma_map_removed(self.entries@, at as int);
        }
        std::mem::swap(&mut entries, &mut self.entries);
        entries.remove(at);
        self.entries = entries;
    }

    /// The keys, each once.
    pub fn keys(&self) -> (r: Vec<K>)
        ensures
            r@.no_duplicates(),
            forall|key: K| #[trigger] r@.contains(key) <==> self@.contains_key(key),
    {
        proof {
            use_type_invariant(self);
            lemma_map(self.entries@);
        }
        let mut keys: Vec<K> = Vec::new();
        for index in 0..self.entries.len()
            invariant
                keys@.len() == index,
                forall|i: int| 0 <= i < index ==> keys@[i] == (#[trigger] self.entries@[i]).0,
        {
            keys.push(self.entries[index].0);
        }
        proof {
            assert forall|i: int, j: int| 0 <= i < keys@.len() && 0 <= j < keys@.len() && i
                != j implies keys@[i] != keys@[j] by {
                assert(keys@[i] == self.entries@[i].0);
                assert(keys@[j] == self.entries@[j].0);
            }
            assert forall|key: K| #[trigger] keys@.contains(key) <==> self@.contains_key(key) by {
                if keys@.contains(key) {
                    let i = choose|i: int| 0 <= i < keys@.len() && keys@[i] == key;
                    assert(self.entries@[i].0 == key);
                }
                if self@.contains_key(key) {
                    let i = choose|i: int|
                        0 <= i < self.entries@.len() && (#[trigger] self.entries@[i]).0 == key;
                    assert(keys@[i] == key);
                }
            }
        }
        keys
    }
}

} // verus!
