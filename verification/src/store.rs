//! A flat family of indexed collections, each stored under a namespace made
//! of a category-level prefix and a per-item or per-account key. Regions are
//! created lazily on first append, as the underlying storage primitive
//! creates a collection on first attach.

use vstd::prelude::*;
use crate::collection::IndexedCollection;
use crate::seq_facts::{seq_sum, lemma_seq_sum_nonneg};
use crate::utils::str_eq;

verus! {

/// One namespaced region and its records.
pub struct Region<T> {
    prefix: String,
    key: String,
    col: IndexedCollection<T>,
}

/// The mathematical image of one region.
pub ghost struct RegionModel<T> {
    pub prefix: Seq<char>,
    pub key: Seq<char>,
    pub records: Seq<T>,
}

/// A set of regions with pairwise distinct namespaces.
pub struct Store<T> {
    regions: Vec<Region<T>>,
}

impl<T> View for Store<T> {
    type V = Seq<RegionModel<T>>;

    closed spec fn view(&self) -> Seq<RegionModel<T>> {
        self.regions@.map(
            |i: int, r: Region<T>|
                RegionModel { prefix: r.prefix@, key: r.key@, records: r.col@ },
        )
    }
}

pub open spec fn is_region<T>(r: RegionModel<T>, p: Seq<char>, k: Seq<char>) -> bool {
    r.prefix == p && r.key == k
}

pub open spec fn has_region<T>(v: Seq<RegionModel<T>>, p: Seq<char>, k: Seq<char>) -> bool {
    exists|i: int| 0 <= i < v.len() && #[trigger] is_region(v[i], p, k)
}

pub open spec fn region_index<T>(v: Seq<RegionModel<T>>, p: Seq<char>, k: Seq<char>) -> int {
    choose|i: int| 0 <= i < v.len() && #[trigger] is_region(v[i], p, k)
}

/// The records under namespace `(p, k)`; an absent region reads as empty.
pub open spec fn recs<T>(v: Seq<RegionModel<T>>, p: Seq<char>, k: Seq<char>) -> Seq<T> {
    if has_region(v, p, k) {
        v[region_index(v, p, k)].records
    } else {
        Seq::empty()
    }
}

/// Namespaces are pairwise distinct.
pub open spec fn store_wf<T>(v: Seq<RegionModel<T>>) -> bool {
    forall|i: int, j: int|
        #![trigger v[i], v[j]]
        0 <= i < j < v.len() ==> !(v[i].prefix == v[j].prefix && v[i].key == v[j].key)
}

/// The store after the records under `(p, k)` are replaced by `rs`,
/// creating the region if it was absent.
pub open spec fn with_region_records<T>(
    v: Seq<RegionModel<T>>,
    p: Seq<char>,
    k: Seq<char>,
    rs: Seq<T>,
) -> Seq<RegionModel<T>> {
    if has_region(v, p, k) {
        v.update(region_index(v, p, k), RegionModel { prefix: p, key: k, records: rs })
    } else {
        v.push(RegionModel { prefix: p, key: k, records: rs })
    }
}

/// Sum of `f` over every record of every region with prefix `pf`.
pub open spec fn regions_sum<T>(
    v: Seq<RegionModel<T>>,
    pf: Seq<char>,
    f: spec_fn(T) -> int,
) -> int
    decreases v.len(),
{
    if v.len() == 0 {
        0
    } else {
        regions_sum(v.drop_last(), pf, f) + if v.last().prefix == pf {
            seq_sum(v.last().records, f)
        } else {
            0
        }
    }
}

pub proof fn lemma_region_index_unique<T>(v: Seq<RegionModel<T>>, p: Seq<char>, k: Seq<char>, i: int)
    requires
        store_wf(v),
        0 <= i < v.len(),
        is_region(v[i], p, k),
    ensures
        has_region(v, p, k),
        region_index(v, p, k) == i,
{
    assert(has_region(v, p, k));
    let j = region_index(v, p, k);
    assert(0 <= j < v.len() && is_region(v[j], p, k));
    if i < j {
        assert(!(v[i].prefix == v[j].prefix && v[i].key == v[j].key));
    } else if j < i {
        assert(!(v[j].prefix == v[i].prefix && v[j].key == v[i].key));
    }
}

/// What replacing one region's records does to every namespace's view of
/// the store.
pub proof fn lemma_with_region_records_effect<T>(
    v: Seq<RegionModel<T>>,
    p: Seq<char>,
    k: Seq<char>,
    rs: Seq<T>,
)
    requires
        store_wf(v),
    ensures
        store_wf(with_region_records(v, p, k, rs)),
        has_region(with_region_records(v, p, k, rs), p, k),
        recs(with_region_records(v, p, k, rs), p, k) == rs,
        forall|p2: Seq<char>, k2: Seq<char>|
            !(p2 == p && k2 == k) ==> #[trigger] recs(with_region_records(v, p, k, rs), p2, k2)
                == recs(v, p2, k2),
{
    let v2 = with_region_records(v, p, k, rs);
    let nr = RegionModel { prefix: p, key: k, records: rs };
    if has_region(v, p, k) {
        let i = region_index(v, p, k);
        assert(0 <= i < v.len() && is_region(v[i], p, k));
        assert(forall|j: int| 0 <= j < v2.len() && j != i ==> v2[j] == v[j]);
        assert(v2[i] == nr);
        assert(store_wf(v2));
        lemma_region_index_unique(v2, p, k, i);
        assert(forall|p2: Seq<char>, k2: Seq<char>|
            !(p2 == p && k2 == k) ==> #[trigger] recs(v2, p2, k2) == recs(v, p2, k2)) by {
            assert forall|p2: Seq<char>, k2: Seq<char>| !(p2 == p && k2 == k) implies #[trigger] recs(
                v2,
                p2,
                k2,
            ) == recs(v, p2, k2) by {
                lemma_other_region_unchanged(v, v2, i, p2, k2);
            }
        }
    } else {
        assert(v2 == v.push(nr));
        assert(forall|j: int| 0 <= j < v.len() ==> v2[j] == v[j]);
        assert(v2[v.len() as int] == nr);
        assert forall|i: int, j: int| 0 <= i < j < v2.len() implies !(#[trigger] v2[i].prefix
            == #[trigger] v2[j].prefix && v2[i].key == v2[j].key) by {
            if j == v.len() {
                if v2[i].prefix == p && v2[i].key == k {
                    assert(is_region(v[i], p, k));
                    assert(has_region(v, p, k));
                }
            }
        }
        lemma_region_index_unique(v2, p, k, v.len() as int);
        assert forall|p2: Seq<char>, k2: Seq<char>| !(p2 == p && k2 == k) implies #[trigger] recs(
            v2,
            p2,
            k2,
        ) == recs(v, p2, k2) by {
            lemma_other_region_unchanged_push(v, v2, p2, k2);
        }
    }
}

proof fn lemma_other_region_unchanged<T>(
    v: Seq<RegionModel<T>>,
    v2: Seq<RegionModel<T>>,
    i: int,
    p2: Seq<char>,
    k2: Seq<char>,
)
    requires
        store_wf(v),
        store_wf(v2),
        v.len() == v2.len(),
        0 <= i < v.len(),
        forall|j: int| 0 <= j < v.len() && j != i ==> v2[j] == v[j],
        !(v2[i].prefix == p2 && v2[i].key == k2),
        !(v[i].prefix == p2 && v[i].key == k2),
    ensures
        recs(v2, p2, k2) == recs(v, p2, k2),
{
    if has_region(v, p2, k2) {
        let j = region_index(v, p2, k2);
        assert(0 <= j < v.len() && is_region(v[j], p2, k2));
        assert(j != i);
        assert(is_region(v2[j], p2, k2));
        lemma_region_index_unique(v2, p2, k2, j);
    } else {
        if has_region(v2, p2, k2) {
            let j = region_index(v2, p2, k2);
            assert(0 <= j < v2.len() && is_region(v2[j], p2, k2));
            assert(j != i);
            assert(is_region(v[j], p2, k2));
            assert(has_region(v, p2, k2));
        }
    }
}

proof fn lemma_other_region_unchanged_push<T>(
    v: Seq<RegionModel<T>>,
    v2: Seq<RegionModel<T>>,
    p2: Seq<char>,
    k2: Seq<char>,
)
    requires
        store_wf(v),
        store_wf(v2),
        v2.len() == v.len() + 1,
        forall|j: int| 0 <= j < v.len() ==> v2[j] == v[j],
        !(v2[v.len() as int].prefix == p2 && v2[v.len() as int].key == k2),
    ensures
        recs(v2, p2, k2) == recs(v, p2, k2),
{
    if has_region(v, p2, k2) {
        let j = region_index(v, p2, k2);
        assert(0 <= j < v.len() && is_region(v[j], p2, k2));
        assert(is_region(v2[j], p2, k2));
        lemma_region_index_unique(v2, p2, k2, j);
    } else {
        if has_region(v2, p2, k2) {
            let j = region_index(v2, p2, k2);
            assert(0 <= j < v2.len() && is_region(v2[j], p2, k2));
            assert(j != v.len());
            assert(is_region(v[j], p2, k2));
            assert(has_region(v, p2, k2));
        }
    }
}

/// Replacing one region's records moves the per-prefix sum by exactly the
/// change of that region's own sum.
pub proof fn lemma_regions_sum_with_records<T>(
    v: Seq<RegionModel<T>>,
    p: Seq<char>,
    k: Seq<char>,
    rs: Seq<T>,
    pf: Seq<char>,
    f: spec_fn(T) -> int,
)
    requires
        store_wf(v),
    ensures
        regions_sum(with_region_records(v, p, k, rs), pf, f) == regions_sum(v, pf, f) + if p
            == pf {
            seq_sum(rs, f) - seq_sum(recs(v, p, k), f)
        } else {
            0
        },
{
    if has_region(v, p, k) {
        let i = region_index(v, p, k);
        assert(0 <= i < v.len() && is_region(v[i], p, k));
        lemma_regions_sum_update(v, i, RegionModel { prefix: p, key: k, records: rs }, pf, f);
    } else {
        let nr = RegionModel { prefix: p, key: k, records: rs };
        assert(v.push(nr).drop_last() =~= v);
        assert(v.push(nr).last() == nr);
    }
}

proof fn lemma_regions_sum_update<T>(
    v: Seq<RegionModel<T>>,
    i: int,
    r: RegionModel<T>,
    pf: Seq<char>,
    f: spec_fn(T) -> int,
)
    requires
        0 <= i < v.len(),
    ensures
        regions_sum(v.update(i, r), pf, f) == regions_sum(v, pf, f) - (if v[i].prefix == pf {
            seq_sum(v[i].records, f)
        } else {
            0
        }) + (if r.prefix == pf {
            seq_sum(r.records, f)
        } else {
            0
        }),
    decreases v.len(),
{
    if i == v.len() - 1 {
        assert(v.update(i, r).drop_last() =~= v.drop_last());
        assert(v.update(i, r).last() == r);
    } else {
        assert(v.update(i, r).drop_last() =~= v.drop_last().update(i, r));
        assert(v.update(i, r).last() == v.last());
        lemma_regions_sum_update(v.drop_last(), i, r, pf, f);
        assert(v.drop_last()[i] == v[i]);
    }
}

/// With only non-negative contributions, the per-prefix sum is at least any
/// single region's own sum.
pub proof fn lemma_regions_sum_at_least_region<T>(
    v: Seq<RegionModel<T>>,
    pf: Seq<char>,
    f: spec_fn(T) -> int,
    i: int,
)
    requires
        forall|t: T| #[trigger] f(t) >= 0,
        0 <= i < v.len(),
        v[i].prefix == pf,
    ensures
        regions_sum(v, pf, f) >= seq_sum(v[i].records, f),
    decreases v.len(),
{
    lemma_regions_sum_nonneg(v.drop_last(), pf, f);
    lemma_seq_sum_nonneg(v.last().records, f);
    if i < v.len() - 1 {
        lemma_regions_sum_at_least_region(v.drop_last(), pf, f, i);
        assert(v.drop_last()[i] == v[i]);
    }
}

pub proof fn lemma_regions_sum_nonneg<T>(v: Seq<RegionModel<T>>, pf: Seq<char>, f: spec_fn(T) -> int)
    requires
        forall|t: T| #[trigger] f(t) >= 0,
    ensures
        regions_sum(v, pf, f) >= 0,
    decreases v.len(),
{
    if v.len() > 0 {
        lemma_regions_sum_nonneg(v.drop_last(), pf, f);
        lemma_seq_sum_nonneg(v.last().records, f);
    }
}

/// If no record stored under prefix `pf` contributes, the sum is zero.
pub proof fn lemma_regions_sum_zero<T>(v: Seq<RegionModel<T>>, pf: Seq<char>, f: spec_fn(T) -> int)
    requires
        forall|j: int, l: int|
            0 <= j < v.len() && v[j].prefix == pf && 0 <= l < v[j].records.len() ==> #[trigger] f(
                v[j].records[l],
            ) == 0,
    ensures
        regions_sum(v, pf, f) == 0,
    decreases v.len(),
{
    if v.len() > 0 {
        assert forall|j: int, l: int|
            0 <= j < v.drop_last().len() && v.drop_last()[j].prefix == pf && 0 <= l
                < v.drop_last()[j].records.len() implies #[trigger] f(
            v.drop_last()[j].records[l],
        ) == 0 by {
            assert(v.drop_last()[j] == v[j]);
        }
        lemma_regions_sum_zero(v.drop_last(), pf, f);
        if v.last().prefix == pf {
            let n = v.len() - 1;
            assert forall|l: int| 0 <= l < v[n].records.len() implies #[trigger] f(
                v[n].records[l],
            ) == 0 by {}
            crate::seq_facts::lemma_seq_sum_zero(v.last().records, f);
        }
    }
}

impl<T> Store<T> {
    pub fn new() -> (r: Store<T>)
        ensures
            r@ == Seq::<RegionModel<T>>::empty(),
            store_wf(r@),
    {
        let r = Store { regions: Vec::new() };
        proof {
            assert(r@ =~= Seq::<RegionModel<T>>::empty());
        }
        r
    }

    fn find_region(&self, p: &str, k: &str) -> (r: Option<usize>)
        ensures
            match r {
                Some(i) => 0 <= i < self@.len() && is_region(self@[i as int], p@, k@)
                    && has_region(self@, p@, k@) && (store_wf(self@) ==> i as int == region_index(
                    self@,
                    p@,
                    k@,
                )),
                None => !has_region(self@, p@, k@),
            },
    {
        let n = self.regions.len();
        let mut i: usize = 0;
        while i < n
            invariant
                0 <= i <= n,
                n == self.regions@.len(),
                self@.len() == n,
                forall|j: int| 0 <= j < i ==> !#[trigger] is_region(self@[j], p@, k@),
            decreases n - i,
        {
            let rg = &self.regions[i];
            if str_eq(rg.prefix.as_str(), p) && str_eq(rg.key.as_str(), k) {
                proof {
                    assert(self@[i as int].prefix == p@ && self@[i as int].key == k@);
                    assert(is_region(self@[i as int], p@, k@));
                    assert(has_region(self@, p@, k@));
                    if store_wf(self@) {
                        lemma_region_index_unique(self@, p@, k@, i as int);
                    }
                }
                return Some(i);
            }
            proof {
                assert(!is_region(self@[i as int], p@, k@));
            }
            i += 1;
        }
        proof {
            if has_region(self@, p@, k@) {
                let j = region_index(self@, p@, k@);
                assert(0 <= j < self@.len() && is_region(self@[j], p@, k@));
            }
        }
        None
    }

    /// How many records the namespace holds; an absent region counts as
    /// empty.
    pub fn len_of(&self, p: &str, k: &str) -> (n: usize)
        requires
            store_wf(self@),
        ensures
            n == recs(self@, p@, k@).len(),
    {
        match self.find_region(p, k) {
            Some(i) => self.regions[i].col.len(),
            None => 0,
        }
    }

    pub fn get_from(&self, p: &str, k: &str, i: usize) -> (r: &T)
        requires
            store_wf(self@),
            i < recs(self@, p@, k@).len(),
        ensures
            *r == recs(self@, p@, k@)[i as int],
    {
        match self.find_region(p, k) {
            Some(ri) => self.regions[ri].col.get_at(i),
            None => unreached(),
        }
    }

    /// Appends a record under the namespace, creating the region lazily.
    pub fn push_to(&mut self, p: &str, k: &str, rec: T)
        requires
            store_wf(old(self)@),
        ensures
            final(self)@ == with_region_records(
                old(self)@,
                p@,
                k@,
                recs(old(self)@, p@, k@).push(rec),
            ),
            store_wf(final(self)@),
            has_region(final(self)@, p@, k@),
            recs(final(self)@, p@, k@) == recs(old(self)@, p@, k@).push(rec),
            forall|p2: Seq<char>, k2: Seq<char>|
                !(p2 == p@ && k2 == k@) ==> #[trigger] recs(final(self)@, p2, k2) == recs(
                    old(self)@,
                    p2,
                    k2,
                ),
    {
        let ghost v0 = self@;
        let ghost target = recs(v0, p@, k@).push(rec);
        match self.find_region(p, k) {
            Some(i) => {
                self.regions[i].col.push(rec);
                proof {
                    assert(self@ =~= with_region_records(v0, p@, k@, target));
                    lemma_with_region_records_effect(v0, p@, k@, target);
                }
            },
            None => {
                let mut col = IndexedCollection::new();
                col.push(rec);
                self.regions.push(Region { prefix: p.to_owned(), key: k.to_owned(), col });
                proof {
                    assert(recs(v0, p@, k@) =~= Seq::<T>::empty());
                    assert(self@ =~= with_region_records(v0, p@, k@, target));
                    lemma_with_region_records_effect(v0, p@, k@, target);
                }
            },
        }
    }

    /// Overwrites the record at position `i` under the namespace.
    pub fn set_in(&mut self, p: &str, k: &str, i: usize, rec: T)
        requires
            store_wf(old(self)@),
            i < recs(old(self)@, p@, k@).len(),
        ensures
            final(self)@ == with_region_records(
                old(self)@,
                p@,
                k@,
                recs(old(self)@, p@, k@).update(i as int, rec),
            ),
            store_wf(final(self)@),
            has_region(final(self)@, p@, k@),
            recs(final(self)@, p@, k@) == recs(old(self)@, p@, k@).update(i as int, rec),
            forall|p2: Seq<char>, k2: Seq<char>|
                !(p2 == p@ && k2 == k@) ==> #[trigger] recs(final(self)@, p2, k2) == recs(
                    old(self)@,
                    p2,
                    k2,
                ),
    {
        let ghost v0 = self@;
        let ghost target = recs(v0, p@, k@).update(i as int, rec);
        match self.find_region(p, k) {
            Some(ri) => {
                self.regions[ri].col.set_at(i, rec);
                proof {
                    assert(self@ =~= with_region_records(v0, p@, k@, target));
                    lemma_with_region_records_effect(v0, p@, k@, target);
                }
            },
            None => unreached(),
        }
    }

    /// Unordered removal of the record at position `i` under the namespace:
    /// the region's last record is swapped into its place.
    pub fn remove_in(&mut self, p: &str, k: &str, i: usize) -> (r: T)
        requires
            store_wf(old(self)@),
            i < recs(old(self)@, p@, k@).len(),
        ensures
            r == recs(old(self)@, p@, k@)[i as int],
            final(self)@ == with_region_records(
                old(self)@,
                p@,
                k@,
                recs(old(self)@, p@, k@).update(
                    i as int,
                    recs(old(self)@, p@, k@).last(),
                ).drop_last(),
            ),
            store_wf(final(self)@),
            has_region(final(self)@, p@, k@),
            recs(final(self)@, p@, k@) == recs(old(self)@, p@, k@).update(
                i as int,
                recs(old(self)@, p@, k@).last(),
            ).drop_last(),
            recs(final(self)@, p@, k@).to_multiset() == recs(old(self)@, p@, k@).to_multiset()
                .remove(recs(old(self)@, p@, k@)[i as int]),
            forall|p2: Seq<char>, k2: Seq<char>|
                !(p2 == p@ && k2 == k@) ==> #[trigger] recs(final(self)@, p2, k2) == recs(
                    old(self)@,
                    p2,
                    k2,
                ),
    {
        let ghost v0 = self@;
        let ghost target = recs(v0, p@, k@).update(
            i as int,
            recs(v0, p@, k@).last(),
        ).drop_last();
        match self.find_region(p, k) {
            Some(ri) => {
                let r = self.regions[ri].col.remove_at(i);
                proof {
                    assert(self@ =~= with_region_records(v0, p@, k@, target));
                    lemma_with_region_records_effect(v0, p@, k@, target);
                }
                r
            },
            None => unreached(),
        }
    }

    /// Removes the last record under the namespace; on an empty or absent
    /// region this is a no-op that reports success by returning `None`.
    pub fn pop_from(&mut self, p: &str, k: &str) -> (r: Option<T>)
        requires
            store_wf(old(self)@),
        ensures
            store_wf(final(self)@),
            recs(old(self)@, p@, k@).len() == 0 ==> r is None && final(self)@ == old(self)@,
            recs(old(self)@, p@, k@).len() > 0 ==> {
                &&& r == Some(recs(old(self)@, p@, k@).last())
                &&& final(self)@ == with_region_records(
                    old(self)@,
                    p@,
                    k@,
                    recs(old(self)@, p@, k@).drop_last(),
                )
                &&& recs(final(self)@, p@, k@) == recs(old(self)@, p@, k@).drop_last()
            },
            forall|p2: Seq<char>, k2: Seq<char>|
                !(p2 == p@ && k2 == k@) ==> #[trigger] recs(final(self)@, p2, k2) == recs(
                    old(self)@,
                    p2,
                    k2,
                ),
    {
        let ghost v0 = self@;
        match self.find_region(p, k) {
            Some(ri) => {
                let r = self.regions[ri].col.pop();
                proof {
                    if recs(v0, p@, k@).len() > 0 {
                        let target = recs(v0, p@, k@).drop_last();
                        assert(self@ =~= with_region_records(v0, p@, k@, target));
                        lemma_with_region_records_effect(v0, p@, k@, target);
                    } else {
                        assert(self@ =~= v0);
                    }
                }
                r
            },
            None => {
                proof {
                    assert(recs(v0, p@, k@) =~= Seq::<T>::empty());
                }
                None
            },
        }
    }
}

} // verus!
