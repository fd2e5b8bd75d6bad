//! Source metadata: a small map from text keys to text values.
//!
//! The entries keep the order in which their keys were first inserted, and no
//! key occurs twice.

use crate::text::same_text;
use vstd::prelude::*;

verus! {

/// Key/value pairs that describe where a piece of content came from.
#[derive(Debug, PartialEq, Eq)]
pub struct Metadata {
    entries: Vec<(String, String)>,
}

impl View for Metadata {
    type V = Seq<(Seq<char>, Seq<char>)>;

    closed spec fn view(&self) -> Seq<(Seq<char>, Seq<char>)> {
        self.entries@.map_values(|e: (String, String)| (e.0@, e.1@))
    }
}

/// The position of `key` among `entries`, if it occurs.
pub open spec fn position_of(entries: Seq<(Seq<char>, Seq<char>)>, key: Seq<char>) -> Option<int> {
    if exists|i: int| 0 <= i < entries.len() && entries[i].0 == key {
        Some(choose|i: int| 0 <= i < entries.len() && entries[i].0 == key)
    } else {
        None
    }
}

/// No key occurs twice.
pub open spec fn keys_distinct(entries: Seq<(Seq<char>, Seq<char>)>) -> bool {
    forall|i: int, j: int|
        0 <= i < j < entries.len() ==> (#[trigger] entries[i]).0 != (#[trigger] entries[j]).0
}

/// The value stored under `key`, if any.
pub open spec fn lookup(entries: Seq<(Seq<char>, Seq<char>)>, key: Seq<char>) -> Option<
    Seq<char>,
> {
    match position_of(entries, key) {
        Some(i) => Some(entries[i].1),
        None => None,
    }
}

/// `entries` after `key` is set to `value`: an existing entry keeps its place,
/// a new key goes to the end.
pub open spec fn with_entry(
    entries: Seq<(Seq<char>, Seq<char>)>,
    key: Seq<char>,
    value: Seq<char>,
) -> Seq<(Seq<char>, Seq<char>)> {
    match position_of(entries, key) {
        Some(i) => entries.update(i, (key, value)),
        None => entries.push((key, value)),
    }
}

impl Metadata {
    #[verifier::type_invariant]
    spec fn inv(self) -> bool {
        keys_distinct(self@)
    }

    /// Metadata without entries.
    pub fn new() -> (m: Metadata)
        ensures
            m@ == Seq::<(Seq<char>, Seq<char>)>::empty(),
    {
        let m = Metadata { entries: Vec::new() };
        assert(m@ =~= Seq::<(Seq<char>, Seq<char>)>::empty());
        m
    }

    /// How many keys are set.
    pub fn len(&self) -> (n: usize)
        ensures
            n == self@.len(),
    {
        self.entries.len()
    }

    fn find(&self, key: &str) -> (r: Option<usize>)
        ensures
            keys_distinct(self@),
            match r {
                Some(i) => i < self@.len() && self@[i as int].0 == key@ && position_of(
                    self@,
                    key@,
                ) == Some(i as int),
                None => position_of(self@, key@) is None,
            },
    {
        proof {
            use_type_invariant(self);
        }
        let mut i: usize = 0;
        while i < self.entries.len()
            invariant
                i <= self.entries.len(),
                keys_distinct(self@),
                forall|j: int| 0 <= j < i ==> (#[trigger] self@[j]).0 != key@,
            decreases self.entries.len() - i,
        {
            let found = same_text(self.entries[i].0.as_str(), key);
            assert(self@[i as int].0 == self.entries@[i as int].0@);
            if found {
                proof {
                    let p = choose|p: int| 0 <= p < self@.len() && self@[p].0 == key@;
                    assert(p == i) by {
                        if p < i {
                            assert(self@[p].0 != self@[i as int].0);
                        } else if p > i {
                            assert(self@[i as int].0 != self@[p].0);
                        }
                    }
                }
                return Some(i);
            }
            i += 1;
        }
        None
    }

    /// The value stored under `key`.
    pub fn get(&self, key: &str) -> (r: Option<&String>)
        ensures
            match r {
                Some(v) => lookup(self@, key@) == Some(v@),
                None => lookup(self@, key@) is None,
            },
    {
        match self.find(key) {
            Some(i) => Some(&self.entries[i].1),
            None => None,
        }
    }

    /// Sets `key` to `value`, replacing the value that `key` had.
    pub fn insert(&mut self, key: String, value: String)
        ensures
            final(self)@ == with_entry(old(self)@, key@, value@),
    {
        let ghost before = self@;
        let ghost k = key@;
        let ghost v = value@;
        let place = self.find(key.as_str());
        let mut entries: Vec<(String, String)> = Vec::new();
        core::mem::swap(&mut self.entries, &mut entries);
        assert(entries@.map_values(|e: (String, String)| (e.0@, e.1@)) == before);
        match place {
            Some(i) => {
                entries.set(i, (key, value));
                proof {
                    let now = entries@.map_values(|e: (String, String)| (e.0@, e.1@));
                    assert(now =~= before.update(i as int, (k, v)));
                    assert forall|a: int, b: int| 0 <= a < b < now.len() implies (
                    #[trigger] now[a]).0 != (#[trigger] now[b]).0 by {
                        assert(before[a].0 != before[b].0);
                    }
                }
            },
            None => {
                entries.push((key, value));
                proof {
                    let now = entries@.map_values(|e: (String, String)| (e.0@, e.1@));
                    assert(now =~= before.push((k, v)));
                    assert forall|a: int, b: int| 0 <= a < b < now.len() implies (
                    #[trigger] now[a]).0 != (#[trigger] now[b]).0 by {
                        if b < before.len() {
                            assert(before[a].0 != before[b].0);
                        } else {
                            assert(before[a].0 != k);
                        }
                    }
                }
            },
        }
        self.entries = entries;
    }

    /// The entries as pairs of owned strings, in insertion order.
    pub fn to_pairs(&self) -> (pairs: Vec<(String, String)>)
        ensures
            pairs@.map_values(|e: (String, String)| (e.0@, e.1@)) == self@,
    {
        let mut pairs: Vec<(String, String)> = Vec::new();
        let mut i: usize = 0;
        while i < self.entries.len()
            invariant
                i <= self.entries.len(),
                pairs@.len() == i,
                forall|j: int|
                    0 <= j < i ==> (#[trigger] pairs@[j]).0@ == self.entries@[j].0@
                        && pairs@[j].1@ == self.entries@[j].1@,
            decreases self.entries.len() - i,
        {
            let k = self.entries[i].0.clone();
            let v = self.entries[i].1.clone();
            pairs.push((k, v));
            i += 1;
        }
        assert(pairs@.map_values(|e: (String, String)| (e.0@, e.1@)) =~= self@);
        pairs
    }
}

impl Clone for Metadata {
    fn clone(&self) -> (m: Metadata)
        ensures
            m@ == self@,
    {
        proof {
            use_type_invariant(self);
        }
        let entries = self.to_pairs();
        let m = Metadata { entries };
        assert(m@ =~= self@);
        m
    }
}

} // verus!
