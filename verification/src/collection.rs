//! The indexed collection: an ordered, append-only sequence of records that
//! underlies every durable region of the marketplace — the catalog of a
//! category, the one-slot aggregate of an item, and both sides of the
//! participant ledger.

use vstd::prelude::*;
use crate::seq_facts::lemma_swap_remove_to_multiset;

verus! {

/// An append-only sequence of records with positional read and overwrite,
/// pop, and O(1) unordered removal (the last record is swapped into the
/// removed slot, so the relative order of the survivors is not preserved).
pub struct IndexedCollection<T> {
    records: Vec<T>,
}

impl<T> View for IndexedCollection<T> {
    type V = Seq<T>;

    closed spec fn view(&self) -> Seq<T> {
        self.records@
    }
}

impl<T> IndexedCollection<T> {
    pub fn new() -> (r: IndexedCollection<T>)
        ensures
            r@ == Seq::<T>::empty(),
    {
        IndexedCollection { records: Vec::new() }
    }

    pub fn len(&self) -> (n: usize)
        ensures
            n == self@.len(),
    {
        self.records.len()
    }

    /// Appends a record at the end.
    pub fn push(&mut self, rec: T)
        ensures
            final(self)@ == old(self)@.push(rec),
    {
        self.records.push(rec);
    }

    pub fn get_at(&self, i: usize) -> (r: &T)
        requires
            i < self@.len(),
        ensures
            *r == self@[i as int],
    {
        &self.records[i]
    }

    /// Overwrites the record at position `i` in place.
    pub fn set_at(&mut self, i: usize, rec: T)
        requires
            i < old(self)@.len(),
        ensures
            final(self)@ == old(self)@.update(i as int, rec),
    {
        self.records[i] = rec;
    }

    /// Removes and returns the last record. On an empty collection this is a
    /// no-op that reports success by returning `None`.
    pub fn pop(&mut self) -> (r: Option<T>)
        ensures
            old(self)@.len() == 0 ==> r is None && final(self)@ == old(self)@,
            old(self)@.len() > 0 ==> r == Some(old(self)@.last()) && final(self)@ == old(
                self,
            )@.drop_last(),
    {
        if self.records.len() == 0 {
            None
        } else {
            let r = self.records.pop();
            proof {
                assert(old(self)@.subrange(0, old(self)@.len() - 1) =~= old(self)@.drop_last());
            }
            r
        }
    }

    /// Unordered removal: the last record is swapped into slot `i` and the
    /// length shrinks by one. Exactly the removed record leaves the
    /// collection; every other record is still present.
    pub fn remove_at(&mut self, i: usize) -> (r: T)
        requires
            i < old(self)@.len(),
        ensures
            r == old(self)@[i as int],
            final(self)@ == old(self)@.update(i as int, old(self)@.last()).drop_last(),
            final(self)@.len() == old(self)@.len() - 1,
            final(self)@.to_multiset() == old(self)@.to_multiset().remove(old(self)@[i as int]),
    {
        let r = self.records.swap_remove(i);
        proof {
            lemma_swap_remove_to_multiset(old(self)@, i as int);
        }
        r
    }
}

} // verus!
