//! The asset-balance table: an association list from asset symbol (bytes) to a
//! fixed-point amount, with unique keys and insertion order kept. It serves
//! both as the shared accumulator the two subsystem validators fold into, and
//! as the categorized table of the committed output.
use crate::amount::{add_clamped, clamp_add};
use crate::text::bytes_eq;
use vstd::prelude::*;

verus! {

pub struct BalanceTable {
    entries: Vec<(Vec<u8>, i128)>,
}

/// The index of the first entry with the given key.
pub open spec fn key_index(es: Seq<(Seq<u8>, int)>, k: Seq<u8>) -> Option<int>
    decreases es.len(),
{
    if es.len() == 0 {
        None
    } else if es[0].0 == k {
        Some(0)
    } else {
        match key_index(es.drop_first(), k) {
            Some(i) => Some(i + 1),
            None => None,
        }
    }
}

/// The value stored under a key, if any.
pub open spec fn table_lookup(es: Seq<(Seq<u8>, int)>, k: Seq<u8>) -> Option<int> {
    match key_index(es, k) {
        Some(i) => Some(es[i].1),
        None => None,
    }
}

/// Crediting a key: adds to the existing entry, clamped, or appends a new one.
pub open spec fn spec_credit(es: Seq<(Seq<u8>, int)>, k: Seq<u8>, d: int) -> Seq<(Seq<u8>, int)> {
    match key_index(es, k) {
        Some(i) => es.update(i, (k, clamp_add(es[i].1, d))),
        None => es.push((k, d)),
    }
}

/// Storing a key: overwrites the existing entry, or appends a new one.
pub open spec fn spec_store(es: Seq<(Seq<u8>, int)>, k: Seq<u8>, v: int) -> Seq<(Seq<u8>, int)> {
    match key_index(es, k) {
        Some(i) => es.update(i, (k, v)),
        None => es.push((k, v)),
    }
}

/// No two entries share a key.
pub open spec fn unique_keys(es: Seq<(Seq<u8>, int)>) -> bool {
    forall|i: int, j: int| 0 <= i < j < es.len() ==> (#[trigger] es[i]).0 != (#[trigger] es[j]).0
}

/// Crediting keeps keys unique.
pub proof fn lemma_credit_keeps_unique(es: Seq<(Seq<u8>, int)>, k: Seq<u8>, d: int)
    requires
        unique_keys(es),
    ensures
        unique_keys(spec_credit(es, k, d)),
{
    lemma_key_index_props(es, k);
    let es2 = spec_credit(es, k, d);
    match key_index(es, k) {
        Some(i) => {
            assert forall|m: int, n: int| 0 <= m < n < es2.len() implies (#[trigger] es2[m]).0 != (
            #[trigger] es2[n]).0 by {
                assert(es2[m].0 == es[m].0);
                assert(es2[n].0 == es[n].0);
            }
        },
        None => {
            assert forall|m: int, n: int| 0 <= m < n < es2.len() implies (#[trigger] es2[m]).0 != (
            #[trigger] es2[n]).0 by {
                if n == es.len() {
                    assert(es2[m].0 == es[m].0);
                }
            }
        },
    }
}

pub proof fn lemma_key_index_props(es: Seq<(Seq<u8>, int)>, k: Seq<u8>)
    ensures
        match key_index(es, k) {
            Some(i) => 0 <= i < es.len() && es[i].0 == k && forall|j: int|
                0 <= j < i ==> (#[trigger] es[j]).0 != k,
            None => forall|j: int| 0 <= j < es.len() ==> (#[trigger] es[j]).0 != k,
        },
    decreases es.len(),
{
    if es.len() > 0 && es[0].0 != k {
        let t = es.drop_first();
        lemma_key_index_props(t, k);
        assert(forall|j: int| 0 <= j < t.len() ==> #[trigger] t[j] == es[j + 1]);
        match key_index(t, k) {
            Some(i) => {
                assert(es[i + 1].0 == k);
                assert forall|j: int| 0 <= j < i + 1 implies (#[trigger] es[j]).0 != k by {
                    if j > 0 {
                        assert(t[j - 1].0 != k);
                    }
                }
            },
            None => {
                assert forall|j: int| 0 <= j < es.len() implies (#[trigger] es[j]).0 != k by {
                    if j > 0 {
                        assert(t[j - 1].0 != k);
                    }
                }
            },
        }
    }
}

/// A position holding the key, with none before it, is what `key_index` finds.
pub proof fn lemma_key_index_at(es: Seq<(Seq<u8>, int)>, k: Seq<u8>, i: int)
    requires
        0 <= i < es.len(),
        es[i].0 == k,
        forall|j: int| 0 <= j < i ==> (#[trigger] es[j]).0 != k,
    ensures
        key_index(es, k) == Some(i),
    decreases i,
{
    if i > 0 {
        lemma_key_index_at(es.drop_first(), k, i - 1);
    }
}

impl BalanceTable {
    /// The mathematical content: a sequence of (symbol, amount) pairs.
    pub closed spec fn entries(self) -> Seq<(Seq<u8>, int)> {
        self.entries@.map_values(|e: (Vec<u8>, i128)| (e.0@, e.1 as int))
    }

    /// Keys are unique.
    pub open spec fn wf(self) -> bool {
        unique_keys(self.entries())
    }

    pub fn new() -> (r: Self)
        ensures
            r.entries() == Seq::<(Seq<u8>, int)>::empty(),
            r.wf(),
    {
        let r = BalanceTable { entries: Vec::new() };
        proof {
            assert(r.entries() =~= Seq::<(Seq<u8>, int)>::empty());
        }
        r
    }

    fn find_key(&self, k: &Vec<u8>) -> (r: Option<usize>)
        ensures
            match r {
                Some(i) => key_index(self.entries(), k@) == Some(i as int),
                None => key_index(self.entries(), k@) is None,
            },
    {
        let mut i: usize = 0;
        while i < self.entries.len()
            invariant
                i <= self.entries@.len(),
                forall|j: int| 0 <= j < i ==> (#[trigger] self.entries()[j]).0 != k@,
            decreases self.entries@.len() - i,
        {
            if bytes_eq(&self.entries[i].0, k) {
                proof {
                    lemma_key_index_at(self.entries(), k@, i as int);
                }
                return Some(i);
            }
            i += 1;
        }
        proof {
            lemma_key_index_props(self.entries(), k@);
            if key_index(self.entries(), k@) is Some {
                let w = key_index(self.entries(), k@).unwrap();
                assert(self.entries()[w].0 == k@);
            }
        }
        None
    }

    pub fn len(&self) -> (n: usize)
        ensures
            n == self.entries().len(),
    {
        self.entries.len()
    }

    pub fn key_at(&self, i: usize) -> (k: &Vec<u8>)
        requires
            i < self.entries().len(),
        ensures
            k@ == self.entries()[i as int].0,
    {
        &self.entries[i].0
    }

    pub fn amount_at(&self, i: usize) -> (v: i128)
        requires
            i < self.entries().len(),
        ensures
            v as int == self.entries()[i as int].1,
    {
        self.entries[i].1
    }

    /// Looks a key up.
    pub fn lookup(&self, k: &Vec<u8>) -> (r: Option<i128>)
        ensures
            match r {
                Some(v) => table_lookup(self.entries(), k@) == Some(v as int),
                None => table_lookup(self.entries(), k@) is None,
            },
    {
        proof {
            lemma_key_index_props(self.entries(), k@);
        }
        match self.find_key(k) {
            Some(i) => Some(self.entries[i].1),
            None => None,
        }
    }

    /// Adds `delta` to the running amount under `key`, creating the entry
    /// from zero where the key is new.
    pub fn credit(&mut self, key: Vec<u8>, delta: i128)
        requires
            old(self).wf(),
        ensures
            final(self).wf(),
            final(self).entries() == spec_credit(old(self).entries(), key@, delta as int),
    {
        proof {
            lemma_key_index_props(self.entries(), key@);
        }
        match self.find_key(&key) {
            Some(i) => {
                let cur = self.entries[i].1;
                self.entries[i] = (key, add_clamped(cur, delta));
                proof {
                    assert(self.entries() =~= spec_credit(old(self).entries(), key@,
                    delta as int));
                }
            },
            None => {
                self.entries.push((key, delta));
                proof {
                    assert(self.entries() =~= spec_credit(old(self).entries(), key@,
                    delta as int));
                }
            },
        }
    }

    /// Stores `v` under `key`, overwriting any existing entry.
    pub fn store(&mut self, key: Vec<u8>, v: i128)
        requires
            old(self).wf(),
        ensures
            final(self).wf(),
            final(self).entries() == spec_store(old(self).entries(), key@, v as int),
    {
        proof {
            lemma_key_index_props(self.entries(), key@);
        }
        match self.find_key(&key) {
            Some(i) => {
                self.entries[i] = (key, v);
                proof {
                    assert(self.entries() =~= spec_store(old(self).entries(), key@, v as int));
                }
            },
            None => {
                self.entries.push((key, v));
                proof {
                    assert(self.entries() =~= spec_store(old(self).entries(), key@, v as int));
                }
            },
        }
    }
}

/// Appending an entry changes no existing key's lookup, and gives the new
/// key its value where it was absent.
pub proof fn lemma_lookup_push(es: Seq<(Seq<u8>, int)>, e: (Seq<u8>, int), k: Seq<u8>)
    ensures
        table_lookup(es.push(e), k) == (if table_lookup(es, k) is Some {
            table_lookup(es, k)
        } else if e.0 == k {
            Some(e.1)
        } else {
            None::<int>
        }),
{
    lemma_key_index_props(es, k);
    let es2 = es.push(e);
    match key_index(es, k) {
        Some(i) => {
            lemma_key_index_at(es2, k, i);
        },
        None => {
            if e.0 == k {
                lemma_key_index_at(es2, k, es.len() as int);
            } else {
                lemma_key_index_props(es2, k);
                if key_index(es2, k) is Some {
                    let w = key_index(es2, k).unwrap();
                    assert(es2[w].0 == k);
                }
            }
        },
    }
}

/// After a store, the stored key holds the stored value, and every other key
/// is unchanged.
pub proof fn lemma_store_lookup(es: Seq<(Seq<u8>, int)>, k: Seq<u8>, v: int, q: Seq<u8>)
    ensures
        table_lookup(spec_store(es, k, v), k) == Some(v),
        q != k ==> table_lookup(spec_store(es, k, v), q) == table_lookup(es, q),
{
    lemma_key_index_props(es, k);
    let es2 = spec_store(es, k, v);
    match key_index(es, k) {
        Some(i) => {
            assert(es2[i].0 == k);
            assert(forall|j: int| 0 <= j < es2.len() && j != i ==> es2[j] == es[j]);
            lemma_key_index_at(es2, k, i);
            if q != k {
                lemma_key_index_props(es, q);
                match key_index(es, q) {
                    Some(m) => {
                        lemma_key_index_at(es2, q, m);
                    },
                    None => {
                        lemma_key_index_props(es2, q);
                        if key_index(es2, q) is Some {
                            let w = key_index(es2, q).unwrap();
                            assert(es2[w].0 == q);
                        }
                    },
                }
            }
        },
        None => {
            lemma_key_index_at(es2, k, es.len() as int);
            if q != k {
                lemma_key_index_props(es, q);
                match key_index(es, q) {
                    Some(m) => {
                        lemma_key_index_at(es2, q, m);
                    },
                    None => {
                        lemma_key_index_props(es2, q);
                        if key_index(es2, q) is Some {
                            let w = key_index(es2, q).unwrap();
                            assert(es2[w].0 == q);
                        }
                    },
                }
            }
        },
    }
}

/// The amount under a key, taking zero for an absent key.
pub open spec fn amount_or_zero(es: Seq<(Seq<u8>, int)>, k: Seq<u8>) -> int {
    match table_lookup(es, k) {
        Some(v) => v,
        None => 0,
    }
}

/// After a credit, the credited key holds the clamped sum of its old amount
/// (zero where absent) and the delta, and every other key is unchanged.
pub proof fn lemma_credit_lookup(es: Seq<(Seq<u8>, int)>, k: Seq<u8>, d: int, q: Seq<u8>)
    requires
        unique_keys(es),
        i128::MIN <= d <= i128::MAX,
    ensures
        table_lookup(spec_credit(es, k, d), k) == Some(clamp_add(amount_or_zero(es, k), d)),
        q != k ==> table_lookup(spec_credit(es, k, d), q) == table_lookup(es, q),
{
    lemma_key_index_props(es, k);
    let es2 = spec_credit(es, k, d);
    match key_index(es, k) {
        Some(i) => {
            assert(es2[i].0 == k);
            assert(forall|j: int| 0 <= j < es2.len() && j != i ==> es2[j] == es[j]);
            lemma_key_index_at(es2, k, i);
            if q != k {
                lemma_key_index_props(es, q);
                match key_index(es, q) {
                    Some(m) => {
                        lemma_key_index_at(es2, q, m);
                    },
                    None => {
                        lemma_key_index_props(es2, q);
                        if key_index(es2, q) is Some {
                            let w = key_index(es2, q).unwrap();
                            assert(es2[w].0 == q);
                        }
                    },
                }
            }
        },
        None => {
            assert(es2 == es.push((k, d)));
            lemma_key_index_at(es2, k, es.len() as int);
            if q != k {
                lemma_key_index_props(es, q);
                match key_index(es, q) {
                    Some(m) => {
                        lemma_key_index_at(es2, q, m);
                    },
                    None => {
                        lemma_key_index_props(es2, q);
                        if key_index(es2, q) is Some {
                            let w = key_index(es2, q).unwrap();
                            assert(es2[w].0 == q);
                        }
                    },
                }
            }
        },
    }
}

} // verus!
