//! The shared key-value store: a flat mapping from byte-string key to
//! byte-string value with unique keys, modelled as a `Map`. The counter
//! operation reads the stored text as a signed integer; a value that is not
//! one, or one that would overflow the wire integer, fails the whole
//! operation and leaves the store untouched.

use vstd::prelude::*;

use crate::num::int_dec;
use crate::num::parse_i64;
use crate::num::push_dec_i64;
use crate::num::read_i64;
use crate::codec::D1;
use crate::value::clone_bytes;
use crate::value::bytes_eq;

verus! {

/// Why a counter operation was refused.
#[derive(Clone, Copy, PartialEq, Eq, Debug)]
pub enum IncrError {
    /// The stored value is not the decimal text of a signed integer.
    NotAnInteger,
    /// The stored value is the largest wire integer already.
    Overflow,
}

/// The mapping denoted by an entry list, later entries shadowing earlier.
pub open spec fn map_of(entries: Seq<(Vec<u8>, Vec<u8>)>) -> Map<Seq<u8>, Seq<u8>>
    decreases entries.len(),
{
    if entries.len() == 0 {
        Map::empty()
    } else {
        map_of(entries.drop_last()).insert(entries.last().0@, entries.last().1@)
    }
}

/// Entry keys are pairwise distinct.
pub open spec fn unique_keys(entries: Seq<(Vec<u8>, Vec<u8>)>) -> bool {
    forall|i: int, j: int|
        0 <= i < j < entries.len() ==> (#[trigger] entries[i]).0@ != (#[trigger] entries[j]).0@
}

/// The key at a live entry is in the map, with that entry's value.
pub proof fn lemma_map_of_key_at(entries: Seq<(Vec<u8>, Vec<u8>)>, i: int)
    requires
        unique_keys(entries),
        0 <= i < entries.len(),
    ensures
        map_of(entries).contains_key(entries[i].0@),
        map_of(entries)[entries[i].0@] == entries[i].1@,
    decreases entries.len(),
{
    if i < entries.len() - 1 {
        let dl = entries.drop_last();
        assert(entries[i].0@ != entries.last().0@);
        assert(dl[i] == entries[i]);
        lemma_map_of_key_at(dl, i);
    }
}

/// A key held by no entry is not in the map.
pub proof fn lemma_map_of_absent(entries: Seq<(Vec<u8>, Vec<u8>)>, k: Seq<u8>)
    requires
        forall|i: int| 0 <= i < entries.len() ==> (#[trigger] entries[i]).0@ != k,
    ensures
        !map_of(entries).contains_key(k),
    decreases entries.len(),
{
    if entries.len() > 0 {
        let dl = entries.drop_last();
        assert(forall|i: int| 0 <= i < dl.len() ==> (#[trigger] dl[i]) == entries[i]);
        lemma_map_of_absent(dl, k);
    }
}

/// Replacing the value at a live entry inserts over its key.
pub proof fn lemma_map_of_update(entries: Seq<(Vec<u8>, Vec<u8>)>, i: int, e: (Vec<u8>, Vec<u8>))
    requires
        unique_keys(entries),
        0 <= i < entries.len(),
        e.0@ == entries[i].0@,
    ensures
        map_of(entries.update(i, e)) == map_of(entries).insert(e.0@, e.1@),
        unique_keys(entries.update(i, e)),
    decreases entries.len(),
{
    let w = entries.update(i, e);
    assert(forall|j: int|
        0 <= j < entries.len() && j != i ==> #[trigger] w[j] == entries[j]);
    assert(w[i] == e);
    if i == entries.len() - 1 {
        assert(w.drop_last() =~= entries.drop_last());
        assert(w.last() == e);
        assert(map_of(w) =~= map_of(entries).insert(e.0@, e.1@));
    } else {
        let dl = entries.drop_last();
        assert(forall|j: int| 0 <= j < dl.len() ==> (#[trigger] dl[j]) == entries[j]);
        assert(w.drop_last() =~= dl.update(i, e));
        lemma_map_of_update(dl, i, e);
        assert(entries.last().0@ != e.0@);
        assert(w.last() == entries.last());
        assert(map_of(w) =~= map_of(entries).insert(e.0@, e.1@));
    }
}

/// The flat, single-namespace store shared by every session. The entry
/// list is reached through the methods below, which keep `wf`.
pub struct Store {
    pub entries: Vec<(Vec<u8>, Vec<u8>)>,
}

impl View for Store {
    type V = Map<Seq<u8>, Seq<u8>>;

    open spec fn view(&self) -> Map<Seq<u8>, Seq<u8>> {
        map_of(self.entries@)
    }
}

impl Store {
    /// Keys are unique, so each lookup has one answer.
    pub open spec fn wf(&self) -> bool {
        unique_keys(self.entries@)
    }

    /// An empty store.
    pub fn new() -> (s: Store)
        ensures
            s.wf(),
            s@ == Map::<Seq<u8>, Seq<u8>>::empty(),
    {
        Store { entries: Vec::new() }
    }

    fn find_key(&self, key: &Vec<u8>) -> (r: Option<usize>)
        ensures
            match r {
                Some(i) => i < self.entries@.len() && self.entries@[i as int].0@ == key@,
                None => forall|i: int|
                    0 <= i < self.entries@.len() ==> (#[trigger] self.entries@[i]).0@ != key@,
            },
    {
        let mut i: usize = 0;
        while i < self.entries.len()
            invariant
                i <= self.entries@.len(),
                forall|j: int| 0 <= j < i ==> (#[trigger] self.entries@[j]).0@ != key@,
            decreases self.entries@.len() - i,
        {
            if bytes_eq(&self.entries[i].0, key) {
                return Some(i);
            }
            i = i + 1;
        }
        None
    }

    /// Looks a key up, handing back a copy of the stored value.
    pub fn get(&self, key: &Vec<u8>) -> (r: Option<Vec<u8>>)
        requires
            self.wf(),
        ensures
            match r {
                Some(v) => self@.contains_key(key@) && v@ == self@[key@],
                None => !self@.contains_key(key@),
            },
    {
        match self.find_key(key) {
            Some(i) => {
                proof {
                    lemma_map_of_key_at(self.entries@, i as int);
                }
                Some(clone_bytes(&self.entries[i].1))
            },
            None => {
                proof {
                    lemma_map_of_absent(self.entries@, key@);
                }
                None
            },
        }
    }

    /// Stores a value under a key, handing back the value it replaced.
    pub fn set(&mut self, key: Vec<u8>, val: Vec<u8>) -> (prev: Option<Vec<u8>>)
        requires
            old(self).wf(),
        ensures
            final(self).wf(),
            final(self)@ == old(self)@.insert(key@, val@),
            match prev {
                Some(p) => old(self)@.contains_key(key@) && p@ == old(self)@[key@],
                None => !old(self)@.contains_key(key@),
            },
    {
        match self.find_key(&key) {
            Some(i) => {
                let prev = clone_bytes(&self.entries[i].1);
                proof {
                    lemma_map_of_key_at(self.entries@, i as int);
                }
                let ghost before = self.entries@;
                self.entries.set(i, (key, val));
                proof {
                    lemma_map_of_update(before, i as int, self.entries@[i as int]);
                }
                Some(prev)
            },
            None => {
                proof {
                    lemma_map_of_absent(self.entries@, key@);
                }
                let ghost before = self.entries@;
                self.entries.push((key, val));
                proof {
                    assert(self.entries@.drop_last() =~= before);
                    assert(forall|i: int|
                        0 <= i < before.len() ==> #[trigger] self.entries@[i] == before[i]);
                }
                None
            },
        }
    }

    /// Steps the counter held under a key: an absent key starts at one, a
    /// stored integer below the wire maximum goes up by one, and anything
    /// else fails without touching the store.
    pub fn increment(&mut self, key: Vec<u8>) -> (r: Result<i64, IncrError>)
        requires
            old(self).wf(),
        ensures
            final(self).wf(),
            match r {
                Ok(n) => incr_new_value(old(self)@, key@) == Some(n as int) && final(self)@
                    == old(self)@.insert(key@, int_dec(n as int)),
                Err(e) => incr_new_value(old(self)@, key@) is None && final(self)@ == old(
                    self,
                )@ && old(self)@.contains_key(key@) && (e == IncrError::NotAnInteger <==>
                parse_i64(old(self)@[key@]) is None),
            },
    {
        match self.find_key(&key) {
            None => {
                proof {
                    lemma_map_of_absent(self.entries@, key@);
                }
                let mut one: Vec<u8> = Vec::new();
                one.push(D1);
                proof {
                    assert(one@ =~= int_dec(1));
                }
                self.set(key, one);
                Ok(1)
            },
            Some(i) => {
                proof {
                    lemma_map_of_key_at(self.entries@, i as int);
                }
                let cur = &self.entries[i].1;
                let ghost cur_seq = cur@;
                proof {
                    assert(cur_seq.subrange(0, cur_seq.len() as int) =~= cur_seq);
                }
                match read_i64(cur, 0, cur.len()) {
                    None => Err(IncrError::NotAnInteger),
                    Some(n) => {
                        if n == i64::MAX {
                            Err(IncrError::Overflow)
                        } else {
                            let mut txt: Vec<u8> = Vec::new();
                            push_dec_i64(&mut txt, n + 1);
                            self.set(key, txt);
                            Ok(n + 1)
                        }
                    },
                }
            },
        }
    }
}

/// What the counter operation will yield on a store: the new value, or
/// nothing where the stored text is not an integer below the wire maximum.
pub open spec fn incr_new_value(m: Map<Seq<u8>, Seq<u8>>, k: Seq<u8>) -> Option<int> {
    if !m.contains_key(k) {
        Some(1)
    } else {
        match parse_i64(m[k]) {
            Some(i) => if i < i64::MAX {
                Some(i + 1)
            } else {
                None
            },
            None => None,
        }
    }
}


/// A serialized counter step never loses an update: on a key the counter
/// itself last wrote — the decimal text of `j` — the next step yields
/// exactly `j + 1`, and on a fresh key it yields one. Each exec `increment`
/// runs under the store's exclusive critical section, so any interleaving of
/// sessions applies their increments one at a time through this law.
pub proof fn lemma_incr_serialized(m: Map<Seq<u8>, Seq<u8>>, k: Seq<u8>, j: int)
    requires
        1 <= j < i64::MAX,
    ensures
        m.contains_key(k) && m[k] == int_dec(j) ==> incr_new_value(m, k) == Some(j + 1int),
        !m.contains_key(k) ==> incr_new_value(m, k) == Some(1int),
{
    crate::num::lemma_parse_int_dec(j);
}

} // verus!
