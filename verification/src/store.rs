//! The in-memory store: a mapping from key to value, read and written only
//! under exclusive access.
//!
//! The store is modelled as a `Map` from key characters to value characters.
//! Keys are pairwise distinct and every key and value is a token (non-empty,
//! whitespace-free), which is exactly what parsing admits and what the
//! durable log can carry. The surrounding process wraps one `Store` in a
//! single exclusive lock; each operation here is the whole critical section,
//! pure in-memory work with no I/O.

use crate::command::is_token;
use vstd::pervasive::VecAdditionalExecFns;
use vstd::prelude::*;
use vstd::string::StrSliceExecFns;

verus! {

/// Compare two strings character by character.
pub fn str_eq(a: &str, b: &str) -> (r: bool)
    ensures
        r == (a@ == b@),
{
    let an = a.unicode_len();
    let bn = b.unicode_len();
    if an != bn {
        return false;
    }
    let mut i: usize = 0;
    while i < an
        invariant
            an == a@.len(),
            an == b@.len(),
            i <= an,
            forall|k: int| 0 <= k < i ==> a@[k] == b@[k],
        decreases an - i,
    {
        if a.get_char(i) != b.get_char(i) {
            return false;
        }
        i = i + 1;
    }
    proof {
        assert(a@ =~= b@);
    }
    true
}

/// The mapping an association list denotes: later entries win.
pub open spec fn map_of(es: Seq<(String, String)>) -> Map<Seq<char>, Seq<char>>
    decreases es.len(),
{
    if es.len() == 0 {
        Map::empty()
    } else {
        map_of(es.drop_last()).insert(es.last().0@, es.last().1@)
    }
}

/// No two entries share a key.
pub open spec fn unique_keys(es: Seq<(String, String)>) -> bool {
    forall|i: int, j: int| 0 <= i < j < es.len() ==> (#[trigger] es[i]).0@ != (#[trigger] es[j]).0@
}

/// Every key and value in the list is a token.
pub open spec fn token_entries(es: Seq<(String, String)>) -> bool {
    forall|i: int|
        0 <= i < es.len() ==> is_token((#[trigger] es[i]).0@) && is_token(es[i].1@)
}

/// A key is in the denoted map exactly when some entry holds it.
pub proof fn lemma_map_of_contains(es: Seq<(String, String)>, k: Seq<char>)
    ensures
        map_of(es).contains_key(k) <==> exists|i: int| 0 <= i < es.len() && (#[trigger] es[i]).0@ == k,
    decreases es.len(),
{
    if es.len() > 0 {
        let prefix = es.drop_last();
        lemma_map_of_contains(prefix, k);
        if es.last().0@ == k {
            assert(es[es.len() - 1].0@ == k);
        } else {
            if map_of(es).contains_key(k) {
                let i = choose|i: int| 0 <= i < prefix.len() && (#[trigger] prefix[i]).0@ == k;
                assert(es[i].0@ == k);
            }
            if exists|i: int| 0 <= i < es.len() && (#[trigger] es[i]).0@ == k {
                let i = choose|i: int| 0 <= i < es.len() && (#[trigger] es[i]).0@ == k;
                assert(prefix[i].0@ == k);
            }
        }
    }
}

/// With unique keys, the denoted map sends each entry's key to that entry's
/// value.
pub proof fn lemma_map_of_value(es: Seq<(String, String)>, i: int)
    requires
        unique_keys(es),
        0 <= i < es.len(),
    ensures
        map_of(es).contains_key(es[i].0@),
        map_of(es)[es[i].0@] == es[i].1@,
    decreases es.len(),
{
    let prefix = es.drop_last();
    if i < es.len() - 1 {
        lemma_map_of_value(prefix, i);
        assert(es.last().0@ != es[i].0@);
    }
}

/// The store. The process holds exactly one, behind one exclusive lock.
pub struct Store {
    /// One entry per live key, in no particular order.
    pub entries: Vec<(String, String)>,
}

impl View for Store {
    type V = Map<Seq<char>, Seq<char>>;

    open spec fn view(&self) -> Map<Seq<char>, Seq<char>> {
        map_of(self.entries@)
    }
}

impl Store {
    /// Internal shape: keys unique, and every key and value a token.
    pub open spec fn wf(self) -> bool {
        unique_keys(self.entries@) && token_entries(self.entries@)
    }

    /// A fresh, empty store.
    pub fn new() -> (s: Store)
        ensures
            s.wf(),
            s@ == Map::<Seq<char>, Seq<char>>::empty(),
            s.entries@.len() == 0,
    {
        Store { entries: Vec::new() }
    }

    /// The position of `key`'s entry, if the key is live.
    fn find(&self, key: &str) -> (r: Option<usize>)
        ensures
            match r {
                Some(i) => i < self.entries@.len() && self.entries@[i as int].0@ == key@,
                None => forall|i: int|
                    0 <= i < self.entries@.len() ==> (#[trigger] self.entries@[i]).0@ != key@,
            },
    {
        let mut i: usize = 0;
        while i < self.entries.len()
            invariant
                i <= self.entries@.len(),
                forall|k: int| 0 <= k < i ==> (#[trigger] self.entries@[k]).0@ != key@,
            decreases self.entries@.len() - i,
        {
            if str_eq(self.entries[i].0.as_str(), key) {
                return Some(i);
            }
            i = i + 1;
        }
        None
    }

    /// Read the value bound to `key`, or nothing when the key is absent.
    pub fn get(&self, key: &str) -> (r: Option<&String>)
        requires
            self.wf(),
        ensures
            match r {
                Some(v) => self@.contains_key(key@) && self@[key@] == v@,
                None => !self@.contains_key(key@),
            },
    {
        match self.find(key) {
            Some(i) => {
                proof {
                    lemma_map_of_value(self.entries@, i as int);
                }
                Some(&self.entries[i].1)
            },
            None => {
                proof {
                    lemma_map_of_contains(self.entries@, key@);
                }
                None
            },
        }
    }

    /// Bind `key` to `value`, inserting it or overwriting the old value.
    pub fn set(&mut self, key: String, value: String)
        requires
            old(self).wf(),
            is_token(key@),
            is_token(value@),
        ensures
            final(self).wf(),
            final(self)@ == old(self)@.insert(key@, value@),
    {
        let ghost es = self.entries@;
        match self.find(key.as_str()) {
            Some(i) => {
                proof {
                    lemma_map_of_update(es, i as int, key@, value@);
                }
                self.entries.set(i, (key, value));
            },
            None => {
                self.entries.push((key, value));
                proof {
                    assert(self.entries@.drop_last() =~= es);
                    lemma_map_of_contains(es, key@);
                }
            },
        }
    }

    /// Unbind `key`. Reports whether a binding was actually removed.
    pub fn delete(&mut self, key: &str) -> (removed: bool)
        requires
            old(self).wf(),
        ensures
            final(self).wf(),
            removed == old(self)@.contains_key(key@),
            final(self)@ == old(self)@.remove(key@),
    {
        let ghost es = self.entries@;
        proof {
            lemma_map_of_contains(es, key@);
        }
        match self.find(key) {
            Some(i) => {
                proof {
                    lemma_map_of_remove(es, i as int, key@);
                }
                let _ = self.entries.remove(i);
                true
            },
            None => {
                proof {
                    assert(map_of(es).remove(key@) =~= map_of(es));
                }
                false
            },
        }
    }

    /// Copy the current contents, for the closing compaction. The caller
    /// takes the lock once, copies, and releases.
    pub fn snapshot(&self) -> (s: Store)
        requires
            self.wf(),
        ensures
            s.wf(),
            s@ == self@,
            s.entries@ == self.entries@,
    {
        let mut es: Vec<(String, String)> = Vec::new();
        let mut i: usize = 0;
        while i < self.entries.len()
            invariant
                i <= self.entries@.len(),
                es@.len() == i,
                forall|k: int| 0 <= k < i ==> #[trigger] es@[k] == self.entries@[k],
            decreases self.entries@.len() - i,
        {
            let p = &self.entries[i];
            es.push((p.0.clone(), p.1.clone()));
            i = i + 1;
        }
        proof {
            assert(es@ =~= self.entries@);
        }
        Store { entries: es }
    }

    /// The number of live keys.
    pub fn len(&self) -> (n: usize)
        ensures
            n == self.entries@.len(),
    {
        self.entries.len()
    }
}

/// Overwriting the entry that holds key `k` updates the denoted map at `k`.
proof fn lemma_map_of_update(es: Seq<(String, String)>, i: int, k: Seq<char>, v: Seq<char>)
    requires
        unique_keys(es),
        0 <= i < es.len(),
        es[i].0@ == k,
    ensures
        forall|p: (String, String)|
            p.0@ == k && p.1@ == v ==> map_of(#[trigger] es.update(i, p)) == map_of(es).insert(k, v),
    decreases es.len(),
{
    let prefix = es.drop_last();
    assert forall|p: (String, String)|
        p.0@ == k && p.1@ == v implies map_of(#[trigger] es.update(i, p)) == map_of(es).insert(
        k,
        v,
    ) by {
        let updated = es.update(i, p);
        if i == es.len() - 1 {
            assert(updated.drop_last() =~= prefix);
            assert(map_of(updated) == map_of(prefix).insert(k, v));
            assert(map_of(prefix).insert(es.last().0@, es.last().1@).insert(k, v) =~= map_of(
                prefix,
            ).insert(k, v));
        } else {
            lemma_map_of_update(prefix, i, k, v);
            assert(updated.drop_last() =~= prefix.update(i, p));
            assert(updated.last() == es.last());
            assert(es.last().0@ != k);
            assert(map_of(updated) == map_of(prefix).insert(k, v).insert(
                es.last().0@,
                es.last().1@,
            ));
            assert(map_of(prefix).insert(k, v).insert(es.last().0@, es.last().1@) =~= map_of(
                prefix,
            ).insert(es.last().0@, es.last().1@).insert(k, v));
        }
    }
}

/// Removing the entry that holds key `k` removes `k` from the denoted map.
proof fn lemma_map_of_remove(es: Seq<(String, String)>, i: int, k: Seq<char>)
    requires
        unique_keys(es),
        0 <= i < es.len(),
        es[i].0@ == k,
    ensures
        map_of(es.remove(i)) == map_of(es).remove(k),
        unique_keys(es.remove(i)),
        token_entries(es) ==> token_entries(es.remove(i)),
    decreases es.len(),
{
    let prefix = es.drop_last();
    let shorter = es.remove(i);
    assert(forall|a: int| 0 <= a < i ==> #[trigger] shorter[a] == es[a]);
    assert(forall|a: int| i <= a < shorter.len() ==> #[trigger] shorter[a] == es[a + 1]);
    if i == es.len() - 1 {
        assert(shorter =~= prefix);
        lemma_map_of_contains(prefix, k);
        assert(!map_of(prefix).contains_key(k));
        assert(map_of(es).remove(k) =~= map_of(prefix));
    } else {
        lemma_map_of_remove(prefix, i, k);
        assert(shorter.drop_last() =~= prefix.remove(i));
        assert(shorter.last() == es.last());
        assert(map_of(shorter) == map_of(prefix).remove(k).insert(es.last().0@, es.last().1@));
        assert(es.last().0@ != k);
        assert(map_of(prefix).remove(k).insert(es.last().0@, es.last().1@) =~= map_of(
            prefix,
        ).insert(es.last().0@, es.last().1@).remove(k));
    }
}

} // verus!
