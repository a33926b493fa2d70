//! The UTXO store: a mapping from 32-byte output identifiers to output
//! records, the ledger's sole mutable state besides the reward accumulator.
//!
//! The store is a dumb map: it performs no validation of its own, and
//! `insert` overwrites a present key — callers guarantee collision-freedom
//! before mutating. Its model is a `Map` from key bytes to output models.

use vstd::prelude::*;

use crate::types::{bytes32_eq, OutputModel, TransactionOutput};

verus! {

/// Whether some entry of `s` carries the key `k`.
spec fn seq_has_key(s: Seq<([u8; 32], TransactionOutput)>, k: Seq<u8>) -> bool {
    exists|i: int| 0 <= i < s.len() && s[i].0@ == k
}

/// The position of the entry carrying `k` (unique when keys are unique).
spec fn seq_index_of(s: Seq<([u8; 32], TransactionOutput)>, k: Seq<u8>) -> int {
    choose|i: int| 0 <= i < s.len() && s[i].0@ == k
}

/// Whether no two entries of `s` carry the same key.
spec fn unique_keys(s: Seq<([u8; 32], TransactionOutput)>) -> bool {
    forall|i: int, j: int| 0 <= i < j < s.len() ==> s[i].0@ != s[j].0@
}

/// A mapping from output identifier to output record, keys unique.
pub struct UtxoStore {
    entries: Vec<([u8; 32], TransactionOutput)>,
}

impl View for UtxoStore {
    type V = Map<Seq<u8>, OutputModel>;

    closed spec fn view(&self) -> Map<Seq<u8>, OutputModel> {
        Map::new(
            |k: Seq<u8>| seq_has_key(self.entries@, k),
            |k: Seq<u8>| self.entries@[seq_index_of(self.entries@, k)].1@,
        )
    }
}

impl UtxoStore {
    #[verifier::type_invariant]
    spec fn wf(&self) -> bool {
        unique_keys(self.entries@)
    }

    /// An empty store.
    pub fn new() -> (store: UtxoStore)
        ensures
            store@ == Map::<Seq<u8>, OutputModel>::empty(),
    {
        let store = UtxoStore { entries: Vec::new() };
        proof {
            assert(store@ =~= Map::<Seq<u8>, OutputModel>::empty());
        }
        store
    }

    /// The position of `key` among the entries, if present.
    fn find(&self, key: &[u8; 32]) -> (r: Option<usize>)
        ensures
            match r {
                Some(i) => i < self.entries@.len() && self.entries@[i as int].0@ == key@,
                None => !seq_has_key(self.entries@, key@),
            },
    {
        let mut i: usize = 0;
        while i < self.entries.len()
            invariant
                i <= self.entries@.len(),
                forall|k: int| 0 <= k < i ==> self.entries@[k].0@ != key@,
            decreases self.entries@.len() - i,
        {
            if bytes32_eq(&self.entries[i].0, key) {
                return Some(i);
            }
            i += 1;
        }
        None
    }

    /// Looks an output up by its identifier.
    pub fn get(&self, key: &[u8; 32]) -> (r: Option<&TransactionOutput>)
        ensures
            match r {
                Some(output) => self@.contains_key(key@) && output@ == self@[key@],
                None => !self@.contains_key(key@),
            },
    {
        proof {
            use_type_invariant(&*self);
        }
        match self.find(key) {
            Some(i) => {
                proof {
                    lemma_index_determined(self.entries@, key@, i as int);
                }
                Some(&self.entries[i].1)
            },
            None => None,
        }
    }

    /// Whether an output with this identifier is present.
    pub fn contains_key(&self, key: &[u8; 32]) -> (r: bool)
        ensures
            r == self@.contains_key(key@),
    {
        self.get(key).is_some()
    }

    /// How many outputs the store holds.
    pub fn len(&self) -> (n: usize)
        ensures
            n == self@.dom().len(),
            self@.dom().finite(),
    {
        proof {
            use_type_invariant(&*self);
            lemma_key_count(self.entries@);
            assert(self@.dom() =~= key_set(self.entries@));
        }
        self.entries.len()
    }

    /// Inserts an output under the given identifier, overwriting a present
    /// entry with that identifier.
    pub fn insert(&mut self, key: [u8; 32], output: TransactionOutput)
        ensures
            final(self)@ == old(self)@.insert(key@, output@),
    {
        proof {
            use_type_invariant(&*self);
        }
        self.remove(&key);
        proof {
            use_type_invariant(&*self);
        }
        let ghost pre = self.entries@;
        proof {
            assert(!self@.contains_key(key@));
            assert(!seq_has_key(pre, key@));
            lemma_view_after_push(pre, key, output);
        }
        let mut entries: Vec<([u8; 32], TransactionOutput)> = Vec::new();
        core::mem::swap(&mut entries, &mut self.entries);
        entries.push((key, output));
        self.entries = entries;
        proof {
            assert(self@ =~= old(self)@.remove(key@).insert(key@, output@));
            assert(old(self)@.remove(key@).insert(key@, output@) =~= old(self)@.insert(
                key@,
                output@,
            ));
        }
    }

    /// Removes the output with this identifier, if present.
    pub fn remove(&mut self, key: &[u8; 32])
        ensures
            final(self)@ == old(self)@.remove(key@),
    {
        proof {
            use_type_invariant(&*self);
        }
        let ghost pre = self.entries@;
        match self.find(key) {
            Some(i) => {
                let mut entries: Vec<([u8; 32], TransactionOutput)> = Vec::new();
                core::mem::swap(&mut entries, &mut self.entries);
                entries.remove(i);
                proof {
                    lemma_unique_after_remove(pre, i as int);
                }
                self.entries = entries;
                proof {
                    lemma_view_after_remove(pre, key@, i as int);
                    assert(self@ =~= old(self)@.remove(key@));
                }
            },
            None => {
                proof {
                    assert(self@ =~= old(self)@.remove(key@));
                }
            },
        }
    }
}

/// With unique keys, any position holding `k` is the chosen one.
proof fn lemma_index_determined(s: Seq<([u8; 32], TransactionOutput)>, k: Seq<u8>, i: int)
    requires
        unique_keys(s),
        0 <= i < s.len(),
        s[i].0@ == k,
    ensures
        seq_index_of(s, k) == i,
{
    assert(seq_has_key(s, k));
    let w = seq_index_of(s, k);
    assert(0 <= w < s.len() && s[w].0@ == k);
    if w < i {
        assert(s[w].0@ != s[i].0@);
    } else if i < w {
        assert(s[i].0@ != s[w].0@);
    }
}

/// The set of keys carried by the entries.
spec fn key_set(s: Seq<([u8; 32], TransactionOutput)>) -> Set<Seq<u8>> {
    Set::new(|k: Seq<u8>| seq_has_key(s, k))
}

/// With unique keys, there are exactly as many keys as entries.
proof fn lemma_key_count(s: Seq<([u8; 32], TransactionOutput)>)
    requires
        unique_keys(s),
    ensures
        key_set(s).finite(),
        key_set(s).len() == s.len(),
    decreases s.len(),
{
    if s.len() == 0 {
        assert(key_set(s) =~= Set::<Seq<u8>>::empty());
    } else {
        let front = s.drop_last();
        let last = s.last();
        assert(unique_keys(front));
        lemma_key_count(front);
        assert forall|k: Seq<u8>| seq_has_key(s, k) implies seq_has_key(front, k) || k
            == last.0@ by {
            let i = choose|i: int| 0 <= i < s.len() && s[i].0@ == k;
            if i < s.len() - 1 {
                assert(front[i].0@ == k);
            }
        }
        assert forall|k: Seq<u8>| seq_has_key(front, k) implies seq_has_key(s, k) by {
            let i = choose|i: int| 0 <= i < front.len() && front[i].0@ == k;
            assert(s[i].0@ == k);
        }
        assert(key_set(s) =~= key_set(front).insert(last.0@));
        assert(!seq_has_key(front, last.0@)) by {
            if seq_has_key(front, last.0@) {
                let i = choose|i: int| 0 <= i < front.len() && front[i].0@ == last.0@;
                assert(s[i].0@ != s[s.len() - 1].0@);
            }
        }
    }
}

/// Removing an entry keeps the remaining keys unique.
proof fn lemma_unique_after_remove(s: Seq<([u8; 32], TransactionOutput)>, i: int)
    requires
        unique_keys(s),
        0 <= i < s.len(),
    ensures
        unique_keys(s.remove(i)),
{
    let t = s.remove(i);
    assert forall|a: int, b: int| 0 <= a < b < t.len() implies t[a].0@ != t[b].0@ by {
        let a0 = if a < i {
            a
        } else {
            a + 1
        };
        let b0 = if b < i {
            b
        } else {
            b + 1
        };
        assert(t[a] == s[a0]);
        assert(t[b] == s[b0]);
        assert(s[a0].0@ != s[b0].0@);
    }
}

/// The view of entries after removing position `i` is the old view without
/// that entry's key.
proof fn lemma_view_after_remove(s: Seq<([u8; 32], TransactionOutput)>, k: Seq<u8>, i: int)
    requires
        unique_keys(s),
        0 <= i < s.len(),
        s[i].0@ == k,
    ensures
        Map::new(
            |q: Seq<u8>| seq_has_key(s.remove(i), q),
            |q: Seq<u8>| s.remove(i)[seq_index_of(s.remove(i), q)].1@,
        ) == Map::new(
            |q: Seq<u8>| seq_has_key(s, q),
            |q: Seq<u8>| s[seq_index_of(s, q)].1@,
        ).remove(k),
{
    let t = s.remove(i);
    lemma_unique_after_remove(s, i);
    let m_t = Map::new(|q: Seq<u8>| seq_has_key(t, q), |q: Seq<u8>| t[seq_index_of(t, q)].1@);
    let m_s = Map::new(|q: Seq<u8>| seq_has_key(s, q), |q: Seq<u8>| s[seq_index_of(s, q)].1@);
    assert forall|q: Seq<u8>| seq_has_key(t, q) implies seq_has_key(s, q) && q != k by {
        let a = choose|a: int| 0 <= a < t.len() && t[a].0@ == q;
        let a0 = if a < i {
            a
        } else {
            a + 1
        };
        assert(t[a] == s[a0]);
        assert(s[a0].0@ == q);
        if a0 != i {
            assert(s[a0].0@ != s[i].0@);
        }
    }
    assert forall|q: Seq<u8>| seq_has_key(s, q) && q != k implies seq_has_key(t, q) by {
        let a = choose|a: int| 0 <= a < s.len() && s[a].0@ == q;
        if a != i {
            let a1 = if a < i {
                a
            } else {
                a - 1
            };
            assert(t[a1] == s[a]);
        }
    }
    assert forall|q: Seq<u8>| seq_has_key(t, q) implies m_t[q] == m_s[q] by {
        let a = choose|a: int| 0 <= a < t.len() && t[a].0@ == q;
        let a0 = if a < i {
            a
        } else {
            a + 1
        };
        assert(t[a] == s[a0]);
        lemma_index_determined(t, q, a);
        lemma_index_determined(s, q, a0);
    }
    assert(m_t =~= m_s.remove(k));
}

/// The view of entries after pushing a fresh key is the old view with that
/// binding inserted.
proof fn lemma_view_after_push(
    s: Seq<([u8; 32], TransactionOutput)>,
    key: [u8; 32],
    output: TransactionOutput,
)
    requires
        unique_keys(s),
        !seq_has_key(s, key@),
    ensures
        unique_keys(s.push((key, output))),
        Map::new(
            |q: Seq<u8>| seq_has_key(s.push((key, output)), q),
            |q: Seq<u8>|
                s.push((key, output))[seq_index_of(s.push((key, output)), q)].1@,
        ) == Map::new(
            |q: Seq<u8>| seq_has_key(s, q),
            |q: Seq<u8>| s[seq_index_of(s, q)].1@,
        ).insert(key@, output@),
{
    let t = s.push((key, output));
    let m_t = Map::new(|q: Seq<u8>| seq_has_key(t, q), |q: Seq<u8>| t[seq_index_of(t, q)].1@);
    let m_s = Map::new(|q: Seq<u8>| seq_has_key(s, q), |q: Seq<u8>| s[seq_index_of(s, q)].1@);
    assert(unique_keys(t)) by {
        assert forall|a: int, b: int| 0 <= a < b < t.len() implies t[a].0@ != t[b].0@ by {
            if b < t.len() - 1 {
                assert(s[a].0@ != s[b].0@);
            } else {
                assert(t[a] == s[a]);
            }
        }
    }
    assert forall|q: Seq<u8>| seq_has_key(t, q) implies seq_has_key(s, q) || q == key@ by {
        let a = choose|a: int| 0 <= a < t.len() && t[a].0@ == q;
        if a < t.len() - 1 {
            assert(s[a].0@ == q);
        }
    }
    assert forall|q: Seq<u8>| seq_has_key(s, q) implies seq_has_key(t, q) by {
        let a = choose|a: int| 0 <= a < s.len() && s[a].0@ == q;
        assert(t[a] == s[a]);
    }
    assert(t[t.len() - 1].0@ == key@);
    lemma_index_determined(t, key@, t.len() - 1);
    assert forall|q: Seq<u8>| seq_has_key(s, q) implies m_t[q] == m_s[q] by {
        let a = choose|a: int| 0 <= a < s.len() && s[a].0@ == q;
        assert(t[a] == s[a]);
        lemma_index_determined(t, q, a);
        lemma_index_determined(s, q, a);
    }
    assert(m_t =~= m_s.insert(key@, output@));
}

} // verus!
