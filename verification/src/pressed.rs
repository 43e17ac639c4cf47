//! Which inputs are held down, and which phone keys they hold. Several inputs may
//! hold one key: it goes down with the first and up with the last.

use vstd::prelude::*;

use crate::config::InputKey;
use crate::keys::KeyCode;
use crate::table::Table;

verus! {

/// What reaches the phone.
#[derive(Clone, Copy, Debug, PartialEq, Eq, Structural)]
pub enum Event {
    Keydown(KeyCode),
    Keyup(KeyCode),
    Keyrepeat(KeyCode),
    Redraw,
}

/// Some input holds `key`.
pub open spec fn is_held<S>(sources: Map<S, KeyCode>, key: KeyCode) -> bool {
    exists|source: S| #[trigger] sources.contains_key(source) && sources[source] == key
}

/// The inputs that are held down, each with the phone key that it holds.
pub struct PressedKeys<S: InputKey> {
    sources: Table<S, KeyCode>,
}

impl<S: InputKey> View for PressedKeys<S> {
    type V = Map<S, KeyCode>;

    closed spec fn view(&self) -> Map<S, KeyCode> {
        self.sources@
    }
}

impl<S: InputKey> PressedKeys<S> {
    pub fn new() -> (r: Self)
        ensures
            r@ == Map::<S, KeyCode>::empty(),
    {
        PressedKeys { sources: Table::new() }
    }

    /// Whether `source` is held down.
    pub fn contains(&self, source: S) -> (r: bool)
        ensures
            r == self@.contains_key(source),
    {
        self.sources.get(source).is_some()
    }

    /// Whether some input holds `key`.
    pub fn holds(&self, key: KeyCode) -> (r: bool)
        ensures
            r == is_held(self@, key),
    {
        let sources = self.sources.keys();
        for index in 0..sources.len()
            invariant
                forall|source: S| #[trigger]
                    sources@.contains(source) <==> self@.contains_key(source),
                forall|i: int|
                    0 <= i < index ==> self@[#[trigger] sources@[i]] != key,
        {
            let source = sources[index];
            assert(sources@.contains(source));
            if let Some(held) = self.sources.get(source) {
                if held == key {
                    return true;
                }
            }
        }
        proof {
            if is_held(self@, key) {
                let source = choose|source: S| #[trigger]
                    self@.contains_key(source) && self@[source] == key;
                assert(sources@.contains(source));
            }
        }
        false
    }

    /// `source` goes down and holds `key`. True where the key goes down with it. An
    /// input that is down already changes nothing.
    pub fn press(&mut self, source: S, key: KeyCode) -> (r: bool)
        ensures
            old(self)@.contains_key(source) ==> !r && final(self)@ == old(self)@,
            !old(self)@.contains_key(source) ==> {
                &&& final(self)@ == old(self)@.insert(source, key)
                &&& r == !is_held(old(self)@, key)
            },
    {
        if self.contains(source) {
            return false;
        }
        let first = !self.holds(key);
        self.sources.insert(source, key);
        first
    }

    /// `source` goes up. The key that it held, where no other input holds it.
    pub fn release(&mut self, source: S) -> (r: Option<KeyCode>)
        ensures
            !old(self)@.contains_key(source) ==> r is None && final(self)@ == old(self)@,
            old(self)@.contains_key(source) ==> {
                &&& final(self)@ == old(self)@.remove(source)
                &&& r == if is_held(final(self)@, old(self)@[source]) {
                    None
                } else {
                    Some(old(self)@[source])
                }
            },
    {
        let Some(key) = self.sources.get(source) else {
            return None;
        };
        self.sources.remove(source);
        if self.holds(key) {
            None
        } else {
            Some(key)
        }
    }
}

/// A key goes down exactly when the first input takes hold of it.
pub proof fn lemma_press_is_an_edge<S>(sources: Map<S, KeyCode>, source: S, key: KeyCode)
    requires
        !sources.contains_key(source),
    ensures
        is_held(sources.insert(source, key), key),
        forall|other: KeyCode|
            other != key ==> #[trigger] is_held(sources.insert(source, key), other) == is_held(
                sources,
                other,
            ),
{
    let after = sources.insert(source, key);
    assert(after.contains_key(source));
    assert forall|other: KeyCode| other != key implies #[trigger] is_held(after, other)
        == is_held(sources, other) by {
        if is_held(after, other) {
            let s = choose|s: S| #[trigger] after.contains_key(s) && after[s] == other;
            assert(sources.contains_key(s));
        }
        if is_held(sources, other) {
            let s = choose|s: S| #[trigger] sources.contains_key(s) && sources[s] == other;
            assert(after.contains_key(s));
        }
    }
}

/// A key goes up exactly when the last input lets go of it: no other key changes.
pub proof fn lemma_release_is_an_edge<S>(sources: Map<S, KeyCode>, source: S)
    requires
        sources.contains_key(source),
    ensures
        is_held(sources, sources[source]),
        forall|other: KeyCode|
            other != sources[source] ==> #[trigger] is_held(sources.remove(source), other)
                == is_held(sources, other),
{
    let after = sources.remove(source);
    assert forall|other: KeyCode| other != sources[source] implies #[trigger] is_held(after, other)
        == is_held(sources, other) by {
        if is_held(after, other) {
            let s = choose|s: S| #[trigger] after.contains_key(s) && after[s] == other;
            assert(sources.contains_key(s));
        }
        if is_held(sources, other) {
            let s = choose|s: S| #[trigger] sources.contains_key(s) && sources[s] == other;
            assert(after.contains_key(s));
        }
    }
}

} // verus!
