//! The per-side pending map of the engine: fingerprint to row, keys
//! unique, insertion order kept. A vector of pairs backs it, so that the
//! held rows can be walked in a deterministic order when the outcome is
//! formatted.

use crate::row::Row;
use vstd::prelude::*;

verus! {

/// Whether no two entries share a key.
pub open spec fn unique_keys(es: Seq<(u64, Row)>) -> bool {
    forall|i: int, j: int| 0 <= i < j < es.len() ==> (#[trigger] es[i]).0 != (#[trigger] es[j]).0
}

/// Whether some entry has the key.
pub open spec fn has_key(es: Seq<(u64, Row)>, h: u64) -> bool {
    exists|k: int| 0 <= k < es.len() && (#[trigger] es[k]).0 == h
}

/// The index of the first entry with the key, or -1 when there is none.
pub open spec fn find_key(es: Seq<(u64, Row)>, h: u64) -> int
    decreases es.len(),
{
    if es.len() == 0 {
        -1
    } else if es[0].0 == h {
        0
    } else {
        let r = find_key(es.drop_first(), h);
        if r < 0 {
            -1
        } else {
            r + 1
        }
    }
}

/// `find_key` finds the first entry with the key, exactly when one exists.
pub proof fn lemma_find_key(es: Seq<(u64, Row)>, h: u64)
    ensures
        (find_key(es, h) >= 0) <==> has_key(es, h),
        find_key(es, h) >= 0 ==> {
            let i = find_key(es, h);
            &&& 0 <= i < es.len()
            &&& es[i].0 == h
            &&& forall|k: int| 0 <= k < i ==> (#[trigger] es[k]).0 != h
        },
    decreases es.len(),
{
    if es.len() == 0 {
    } else if es[0].0 == h {
    } else {
        lemma_find_key(es.drop_first(), h);
        assert(forall|k: int|
            1 <= k < es.len() ==> (#[trigger] es[k]) == es.drop_first()[k - 1]);
        if has_key(es, h) {
            let w = choose|k: int| 0 <= k < es.len() && (#[trigger] es[k]).0 == h;
            assert(es.drop_first()[w - 1].0 == h);
        }
    }
}

/// The entries after inserting `(h, r)`: an existing entry with the key
/// leaves its place and the pair goes to the end, holding the latest row.
pub open spec fn pending_insert(es: Seq<(u64, Row)>, h: u64, r: Row) -> Seq<(u64, Row)> {
    let i = find_key(es, h);
    if i >= 0 {
        es.remove(i).push((h, r))
    } else {
        es.push((h, r))
    }
}

/// The entries after removing the key: the entry with the key leaves, the
/// others keep their order; nothing changes when the key is absent.
pub open spec fn pending_remove(es: Seq<(u64, Row)>, h: u64) -> Seq<(u64, Row)> {
    let i = find_key(es, h);
    if i >= 0 {
        es.remove(i)
    } else {
        es
    }
}

/// Inserting keeps the keys unique; an absent key is simply appended.
pub proof fn lemma_pending_insert(es: Seq<(u64, Row)>, h: u64, r: Row)
    requires
        unique_keys(es),
    ensures
        unique_keys(pending_insert(es, h, r)),
        !has_key(es, h) ==> pending_insert(es, h, r) == es.push((h, r)),
        has_key(pending_insert(es, h, r), h),
{
    lemma_find_key(es, h);
    let i = find_key(es, h);
    if i >= 0 {
        let cut = es.remove(i);
        assert(forall|k: int|
            0 <= k < cut.len() ==> (#[trigger] cut[k]) == (if k < i {
                es[k]
            } else {
                es[k + 1]
            }));
        assert(forall|k: int| 0 <= k < cut.len() ==> (#[trigger] cut[k]).0 != h);
        let out = cut.push((h, r));
        assert(forall|a: int, b: int|
            0 <= a < b < out.len() ==> (#[trigger] out[a]).0 != (#[trigger] out[b]).0);
        assert(out[out.len() - 1].0 == h);
    } else {
        let out = es.push((h, r));
        assert(forall|k: int| 0 <= k < es.len() ==> (#[trigger] es[k]).0 != h);
        assert(forall|a: int, b: int|
            0 <= a < b < out.len() ==> (#[trigger] out[a]).0 != (#[trigger] out[b]).0);
        assert(out[out.len() - 1].0 == h);
    }
}

/// Removing keeps the keys unique and removes the key entirely.
pub proof fn lemma_pending_remove(es: Seq<(u64, Row)>, h: u64)
    requires
        unique_keys(es),
    ensures
        unique_keys(pending_remove(es, h)),
        !has_key(pending_remove(es, h), h),
        has_key(es, h) ==> pending_remove(es, h).len() == es.len() - 1,
        !has_key(es, h) ==> pending_remove(es, h) == es,
{
    lemma_find_key(es, h);
    let i = find_key(es, h);
    if i >= 0 {
        let cut = es.remove(i);
        assert(forall|k: int|
            0 <= k < cut.len() ==> (#[trigger] cut[k]) == (if k < i {
                es[k]
            } else {
                es[k + 1]
            }));
        assert(forall|k: int| 0 <= k < cut.len() ==> (#[trigger] cut[k]).0 != h);
        assert(forall|a: int, b: int|
            0 <= a < b < cut.len() ==> (#[trigger] cut[a]).0 != (#[trigger] cut[b]).0);
    }
}

/// One side's pending rows: a fingerprint-keyed map with unique keys and
/// insertion order kept.
pub struct PendingMap {
    entries: Vec<(u64, Row)>,
}

impl PendingMap {
    /// The entries, in insertion order.
    pub closed spec fn entries(self) -> Seq<(u64, Row)> {
        self.entries@
    }

    /// The map's invariant: no two entries share a fingerprint.
    pub open spec fn inv(self) -> bool {
        unique_keys(self.entries())
    }

    /// Creates an empty map.
    pub fn new() -> (r: PendingMap)
        ensures
            r.entries() == Seq::<(u64, Row)>::empty(),
            r.inv(),
    {
        PendingMap { entries: Vec::new() }
    }

    /// The number of held rows.
    pub fn len(&self) -> (n: usize)
        ensures
            n == self.entries().len(),
    {
        self.entries.len()
    }

    /// The index of the entry with the fingerprint, if one is held.
    fn find(&self, h: u64) -> (r: Option<usize>)
        ensures
            match r {
                Option::Some(i) => find_key(self.entries(), h) == i,
                Option::None => !has_key(self.entries(), h),
            },
    {
        proof {
            lemma_find_key(self.entries(), h);
        }
        let mut i: usize = 0;
        while i < self.entries.len()
            invariant
                i <= self.entries@.len(),
                forall|k: int| 0 <= k < i ==> (#[trigger] self.entries@[k]).0 != h,
            decreases self.entries@.len() - i,
        {
            if self.entries[i].0 == h {
                proof {
                    lemma_find_key(self.entries(), h);
                }
                return Some(i);
            }
            i += 1;
        }
        None
    }

    /// Whether a row with the fingerprint is held.
    pub fn contains_key(&self, h: u64) -> (r: bool)
        ensures
            r == has_key(self.entries(), h),
    {
        proof {
            lemma_find_key(self.entries(), h);
        }
        self.find(h).is_some()
    }

    /// Inserts a row under its fingerprint, replacing any held row with
    /// the same fingerprint.
    pub fn insert(&mut self, h: u64, row: Row)
        requires
            old(self).inv(),
        ensures
            final(self).inv(),
            final(self).entries() == pending_insert(old(self).entries(), h, row),
    {
        proof {
            lemma_find_key(self.entries(), h);
            lemma_pending_insert(self.entries(), h, row);
        }
        match self.find(h) {
            Option::Some(i) => {
                self.entries.remove(i);
                self.entries.push((h, row));
            },
            Option::None => {
                self.entries.push((h, row));
            },
        }
    }

    /// Removes the row with the fingerprint, if one is held.
    pub fn remove(&mut self, h: u64)
        requires
            old(self).inv(),
        ensures
            final(self).inv(),
            final(self).entries() == pending_remove(old(self).entries(), h),
    {
        proof {
            lemma_find_key(self.entries(), h);
            lemma_pending_remove(self.entries(), h);
        }
        match self.find(h) {
            Option::Some(i) => {
                self.entries.remove(i);
            },
            Option::None => {},
        }
    }

    /// The entry at one position, in insertion order.
    pub fn entry_at(&self, i: usize) -> (r: &(u64, Row))
        requires
            i < self.entries().len(),
        ensures
            *r == self.entries()[i as int],
    {
        &self.entries[i]
    }
}

} // verus!
