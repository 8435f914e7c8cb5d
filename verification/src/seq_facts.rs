//! Facts about sums, counts and multisets of sequences, used to relate the
//! per-record operations of the storage layer to the aggregate quantities
//! that the settlement invariants speak about.

use vstd::prelude::*;

verus! {

/// Sum of `f` over all records of `s`.
pub open spec fn seq_sum<T>(s: Seq<T>, f: spec_fn(T) -> int) -> int
    decreases s.len(),
{
    if s.len() == 0 {
        0
    } else {
        seq_sum(s.drop_last(), f) + f(s.last())
    }
}

/// How many records of `s` satisfy `p`.
pub open spec fn count_matching<T>(s: Seq<T>, p: spec_fn(T) -> bool) -> int
    decreases s.len(),
{
    if s.len() == 0 {
        0
    } else {
        count_matching(s.drop_last(), p) + if p(s.last()) {
            1int
        } else {
            0int
        }
    }
}

pub proof fn lemma_seq_sum_push<T>(s: Seq<T>, f: spec_fn(T) -> int, x: T)
    ensures
        seq_sum(s.push(x), f) == seq_sum(s, f) + f(x),
{
    assert(s.push(x).drop_last() =~= s);
}

pub proof fn lemma_count_push<T>(s: Seq<T>, p: spec_fn(T) -> bool, x: T)
    ensures
        count_matching(s.push(x), p) == count_matching(s, p) + if p(x) {
            1int
        } else {
            0int
        },
{
    assert(s.push(x).drop_last() =~= s);
}

pub proof fn lemma_seq_sum_update<T>(s: Seq<T>, f: spec_fn(T) -> int, i: int, x: T)
    requires
        0 <= i < s.len(),
    ensures
        seq_sum(s.update(i, x), f) == seq_sum(s, f) - f(s[i]) + f(x),
    decreases s.len(),
{
    if i == s.len() - 1 {
        assert(s.update(i, x).drop_last() =~= s.drop_last());
        assert(s.update(i, x).last() == x);
    } else {
        assert(s.update(i, x).drop_last() =~= s.drop_last().update(i, x));
        assert(s.update(i, x).last() == s.last());
        lemma_seq_sum_update(s.drop_last(), f, i, x);
        assert(s.drop_last()[i] == s[i]);
    }
}

pub proof fn lemma_count_update<T>(s: Seq<T>, p: spec_fn(T) -> bool, i: int, x: T)
    requires
        0 <= i < s.len(),
    ensures
        count_matching(s.update(i, x), p) == count_matching(s, p) - (if p(s[i]) {
            1int
        } else {
            0int
        }) + (if p(x) {
            1int
        } else {
            0int
        }),
    decreases s.len(),
{
    if i == s.len() - 1 {
        assert(s.update(i, x).drop_last() =~= s.drop_last());
        assert(s.update(i, x).last() == x);
    } else {
        assert(s.update(i, x).drop_last() =~= s.drop_last().update(i, x));
        assert(s.update(i, x).last() == s.last());
        lemma_count_update(s.drop_last(), p, i, x);
        assert(s.drop_last()[i] == s[i]);
    }
}

/// Swap-removal of index `i`: the sum loses exactly the removed record's
/// contribution.
pub proof fn lemma_seq_sum_swap_remove<T>(s: Seq<T>, f: spec_fn(T) -> int, i: int)
    requires
        0 <= i < s.len(),
    ensures
        seq_sum(s.update(i, s.last()).drop_last(), f) == seq_sum(s, f) - f(s[i]),
{
    if i == s.len() - 1 {
        assert(s.update(i, s.last()) =~= s);
    } else {
        lemma_seq_sum_update(s, f, i, s.last());
        assert(s.update(i, s.last()).last() == s.last());
    }
}

pub proof fn lemma_count_swap_remove<T>(s: Seq<T>, p: spec_fn(T) -> bool, i: int)
    requires
        0 <= i < s.len(),
    ensures
        count_matching(s.update(i, s.last()).drop_last(), p) == count_matching(s, p) - if p(
            s[i],
        ) {
            1int
        } else {
            0int
        },
{
    if i == s.len() - 1 {
        assert(s.update(i, s.last()) =~= s);
    } else {
        lemma_count_update(s, p, i, s.last());
        assert(s.update(i, s.last()).last() == s.last());
    }
}

/// A sum of non-negative contributions is at least any single contribution.
pub proof fn lemma_seq_sum_at_least_element<T>(s: Seq<T>, f: spec_fn(T) -> int, i: int)
    requires
        0 <= i < s.len(),
        forall|j: int| 0 <= j < s.len() ==> #[trigger] f(s[j]) >= 0,
    ensures
        seq_sum(s, f) >= f(s[i]),
    decreases s.len(),
{
    lemma_seq_sum_nonneg(s.drop_last(), f);
    if i < s.len() - 1 {
        lemma_seq_sum_at_least_element(s.drop_last(), f, i);
    }
}

pub proof fn lemma_seq_sum_nonneg<T>(s: Seq<T>, f: spec_fn(T) -> int)
    requires
        forall|j: int| 0 <= j < s.len() ==> #[trigger] f(s[j]) >= 0,
    ensures
        seq_sum(s, f) >= 0,
    decreases s.len(),
{
    if s.len() > 0 {
        lemma_seq_sum_nonneg(s.drop_last(), f);
    }
}

/// If no record contributes, the sum is zero.
pub proof fn lemma_seq_sum_zero<T>(s: Seq<T>, f: spec_fn(T) -> int)
    requires
        forall|j: int| 0 <= j < s.len() ==> #[trigger] f(s[j]) == 0,
    ensures
        seq_sum(s, f) == 0,
    decreases s.len(),
{
    if s.len() > 0 {
        lemma_seq_sum_zero(s.drop_last(), f);
    }
}

/// A positive count yields a witness index.
pub proof fn lemma_count_pos_witness<T>(s: Seq<T>, p: spec_fn(T) -> bool) -> (i: int)
    requires
        count_matching(s, p) > 0,
    ensures
        0 <= i < s.len() && p(s[i]),
    decreases s.len(),
{
    lemma_count_nonneg(s, p);
    if p(s.last()) {
        s.len() - 1
    } else {
        lemma_count_pos_witness(s.drop_last(), p)
    }
}

pub proof fn lemma_count_nonneg<T>(s: Seq<T>, p: spec_fn(T) -> bool)
    ensures
        count_matching(s, p) >= 0,
    decreases s.len(),
{
    if s.len() > 0 {
        lemma_count_nonneg(s.drop_last(), p);
    }
}

/// A matching record witnesses a positive count.
pub proof fn lemma_count_at_least_one<T>(s: Seq<T>, p: spec_fn(T) -> bool, i: int)
    requires
        0 <= i < s.len(),
        p(s[i]),
    ensures
        count_matching(s, p) >= 1,
    decreases s.len(),
{
    lemma_count_nonneg(s.drop_last(), p);
    if i < s.len() - 1 {
        lemma_count_at_least_one(s.drop_last(), p, i);
    }
}

/// Two distinct matching records witness a count of at least two.
pub proof fn lemma_count_at_least_two<T>(s: Seq<T>, p: spec_fn(T) -> bool, i: int, j: int)
    requires
        0 <= i < s.len(),
        0 <= j < s.len(),
        i != j,
        p(s[i]),
        p(s[j]),
    ensures
        count_matching(s, p) >= 2,
    decreases s.len(),
{
    let hi = if i > j {
        i
    } else {
        j
    };
    let lo = if i > j {
        j
    } else {
        i
    };
    if hi == s.len() - 1 {
        lemma_count_at_least_one(s.drop_last(), p, lo);
    } else {
        lemma_count_at_least_two(s.drop_last(), p, i, j);
    }
}

/// When the count is exactly one, every two matching indices coincide.
pub proof fn lemma_count_one_unique<T>(s: Seq<T>, p: spec_fn(T) -> bool, i: int, j: int)
    requires
        count_matching(s, p) <= 1,
        0 <= i < s.len(),
        0 <= j < s.len(),
        p(s[i]),
        p(s[j]),
    ensures
        i == j,
{
    if i != j {
        lemma_count_at_least_two(s, p, i, j);
    }
}

/// If no record matches, the count is zero.
pub proof fn lemma_count_zero<T>(s: Seq<T>, p: spec_fn(T) -> bool)
    requires
        forall|j: int| 0 <= j < s.len() ==> !#[trigger] p(s[j]),
    ensures
        count_matching(s, p) == 0,
    decreases s.len(),
{
    if s.len() > 0 {
        lemma_count_zero(s.drop_last(), p);
    }
}

/// Overwriting record `i` with `x` swaps one copy of the old record for one
/// copy of `x` in the multiset of stored records.
pub proof fn lemma_update_to_multiset<T>(s: Seq<T>, i: int, x: T)
    requires
        0 <= i < s.len(),
    ensures
        s.update(i, x).to_multiset() =~= s.to_multiset().remove(s[i]).insert(x),
    decreases s.len(),
{
    broadcast use vstd::seq_lib::group_to_multiset_ensures;

    if i == s.len() - 1 {
        let t = s.update(i, x);
        assert(t =~= s.drop_last().push(x));
        assert(s =~= s.drop_last().push(s.last()));
        assert(s.drop_last().push(s.last()).to_multiset() =~= s.drop_last().to_multiset().insert(
            s.last(),
        ));
        assert(t.to_multiset() =~= s.drop_last().to_multiset().insert(x));
        assert(s.to_multiset().remove(s[i]) =~= s.drop_last().to_multiset());
    } else {
        let t = s.update(i, x);
        assert(t =~= s.drop_last().update(i, x).push(s.last()));
        lemma_update_to_multiset(s.drop_last(), i, x);
        assert(s =~= s.drop_last().push(s.last()));
        assert(s.drop_last()[i] == s[i]);
        assert(t.to_multiset() =~= s.drop_last().update(i, x).to_multiset().insert(s.last()));
        assert(s.to_multiset() =~= s.drop_last().to_multiset().insert(s.last()));
    }
}

/// Swap-removal drops exactly one copy of the removed record from the
/// multiset of stored records.
pub proof fn lemma_swap_remove_to_multiset<T>(s: Seq<T>, i: int)
    requires
        0 <= i < s.len(),
    ensures
        s.update(i, s.last()).drop_last().to_multiset() =~= s.to_multiset().remove(s[i]),
{
    broadcast use vstd::seq_lib::group_to_multiset_ensures;

    let t = s.update(i, s.last());
    if i == s.len() - 1 {
        assert(t =~= s);
        assert(t.drop_last() =~= t.remove(s.len() - 1));
        assert(t.remove(s.len() - 1).to_multiset() =~= t.to_multiset().remove(t[s.len() - 1]));
    } else {
        lemma_update_to_multiset(s, i, s.last());
        assert(t.drop_last() =~= t.remove(s.len() - 1));
        assert(t[s.len() - 1] == s.last());
        assert(t.remove(s.len() - 1).to_multiset() =~= t.to_multiset().remove(s.last()));
    }
}

/// Some index whose record satisfies `p`; meaningful when one exists.
pub open spec fn match_index<T>(s: Seq<T>, p: spec_fn(T) -> bool) -> int {
    choose|i: int| 0 <= i < s.len() && #[trigger] p(s[i])
}

/// With a positive count, `match_index` picks a real match.
pub proof fn lemma_match_index_valid<T>(s: Seq<T>, p: spec_fn(T) -> bool)
    requires
        count_matching(s, p) >= 1,
    ensures
        0 <= match_index(s, p) < s.len(),
        p(s[match_index(s, p)]),
{
    let w = lemma_count_pos_witness(s, p);
    assert(0 <= w < s.len() && p(s[w]));
}

/// Swap-removing a non-matching record keeps the count, and when there is
/// exactly one match it keeps the matched record's value.
pub proof fn lemma_unique_match_swap_remove<T>(s: Seq<T>, ci: int, p: spec_fn(T) -> bool)
    requires
        0 <= ci < s.len(),
        !p(s[ci]),
    ensures
        count_matching(s.update(ci, s.last()).drop_last(), p) == count_matching(s, p),
        count_matching(s, p) == 1 ==> {
            let t = s.update(ci, s.last()).drop_last();
            t[match_index(t, p)] == s[match_index(s, p)]
        },
{
    let t = s.update(ci, s.last()).drop_last();
    lemma_count_swap_remove(s, p, ci);
    if count_matching(s, p) == 1 {
        lemma_match_index_valid(s, p);
        let mi = match_index(s, p);
        assert(mi != ci);
        let j = if mi == s.len() - 1 {
            ci
        } else {
            mi
        };
        assert(0 <= j < t.len() && t[j] == s[mi]);
        assert(p(t[j]));
        lemma_match_index_valid(t, p);
        let mj = match_index(t, p);
        assert(p(t[mj]));
        lemma_count_one_unique(t, p, j, mj);
    }
}

/// With a zero count, no record matches.
pub proof fn lemma_count_zero_no_match<T>(s: Seq<T>, p: spec_fn(T) -> bool)
    requires
        count_matching(s, p) == 0,
    ensures
        forall|j: int| 0 <= j < s.len() ==> !#[trigger] p(s[j]),
{
    assert forall|j: int| 0 <= j < s.len() implies !#[trigger] p(s[j]) by {
        if p(s[j]) {
            lemma_count_at_least_one(s, p, j);
        }
    }
}

/// Appending a non-matching record keeps the count, and when there is
/// exactly one match it keeps the matched record's value.
pub proof fn lemma_unique_match_push<T>(s: Seq<T>, x: T, p: spec_fn(T) -> bool)
    requires
        !p(x),
    ensures
        count_matching(s.push(x), p) == count_matching(s, p),
        count_matching(s, p) == 1 ==> s.push(x)[match_index(s.push(x), p)] == s[match_index(
            s,
            p,
        )],
{
    lemma_count_push(s, p, x);
    if count_matching(s, p) == 1 {
        let t = s.push(x);
        lemma_match_index_valid(s, p);
        let mi = match_index(s, p);
        assert(t[mi] == s[mi]);
        assert(p(t[mi]));
        lemma_match_index_valid(t, p);
        let mj = match_index(t, p);
        lemma_count_one_unique(t, p, mi, mj);
    }
}

/// Appending the first matching record makes it the unique match.
pub proof fn lemma_match_push_new<T>(s: Seq<T>, x: T, p: spec_fn(T) -> bool)
    requires
        count_matching(s, p) == 0,
        p(x),
    ensures
        count_matching(s.push(x), p) == 1,
        s.push(x)[match_index(s.push(x), p)] == x,
{
    lemma_count_push(s, p, x);
    let t = s.push(x);
    assert(t[s.len() as int] == x);
    lemma_match_index_valid(t, p);
    let mj = match_index(t, p);
    lemma_count_one_unique(t, p, s.len() as int, mj);
}

/// Overwriting the unique match with another matching record keeps the
/// count at one and makes the new record the unique match.
pub proof fn lemma_unique_match_update<T>(s: Seq<T>, i: int, x: T, p: spec_fn(T) -> bool)
    requires
        0 <= i < s.len(),
        p(s[i]),
        p(x),
        count_matching(s, p) == 1,
    ensures
        count_matching(s.update(i, x), p) == 1,
        s.update(i, x)[match_index(s.update(i, x), p)] == x,
{
    lemma_count_update(s, p, i, x);
    let t = s.update(i, x);
    assert(t[i] == x);
    lemma_match_index_valid(t, p);
    let mj = match_index(t, p);
    lemma_count_one_unique(t, p, i, mj);
}

/// Overwriting a record that does not match, with one that does not match
/// either, keeps the count and the unique match's value.
pub proof fn lemma_unique_match_update_other<T>(s: Seq<T>, i: int, x: T, p: spec_fn(T) -> bool)
    requires
        0 <= i < s.len(),
        !p(s[i]),
        !p(x),
    ensures
        count_matching(s.update(i, x), p) == count_matching(s, p),
        count_matching(s, p) == 1 ==> s.update(i, x)[match_index(s.update(i, x), p)] == s[
            match_index(s, p)],
    decreases s.len(),
{
    lemma_count_update(s, p, i, x);
    if count_matching(s, p) == 1 {
        let t = s.update(i, x);
        lemma_match_index_valid(s, p);
        let mi = match_index(s, p);
        assert(mi != i);
        assert(t[mi] == s[mi]);
        lemma_match_index_valid(t, p);
        let mj = match_index(t, p);
        lemma_count_one_unique(t, p, mi, mj);
    }
}

/// After swap-removal, every record but the removed one is still present.
pub proof fn lemma_swap_remove_still_there<T>(s: Seq<T>, ci: int, i: int)
    requires
        0 <= ci < s.len(),
        0 <= i < s.len(),
        i != ci,
    ensures
        exists|j: int|
            0 <= j < s.update(ci, s.last()).drop_last().len()
                && #[trigger] s.update(ci, s.last()).drop_last()[j] == s[i],
{
    let t = s.update(ci, s.last()).drop_last();
    let n = s.len() as int;
    if i == n - 1 {
        assert(t[ci] == s[i]);
    } else {
        assert(t[i] == s[i]);
    }
}

/// With pairwise distinct keys, swap-removal leaves no record carrying the
/// removed record's key.
pub proof fn lemma_swap_remove_no_key<T, K>(s: Seq<T>, ci: int, keyf: spec_fn(T) -> K)
    requires
        0 <= ci < s.len(),
        forall|i: int, j: int|
            #![trigger keyf(s[i]), keyf(s[j])]
            0 <= i < j < s.len() ==> keyf(s[i]) != keyf(s[j]),
    ensures
        forall|j: int|
            0 <= j < s.update(ci, s.last()).drop_last().len() ==> #[trigger] keyf(
                s.update(ci, s.last()).drop_last()[j],
            ) != keyf(s[ci]),
{
    let t = s.update(ci, s.last()).drop_last();
    let n = s.len() as int;
    assert forall|j: int| 0 <= j < t.len() implies #[trigger] keyf(t[j]) != keyf(s[ci]) by {
        if j == ci {
            assert(t[j] == s[n - 1]);
            assert(ci < n - 1);
            assert(keyf(s[ci]) != keyf(s[n - 1]));
        } else {
            assert(t[j] == s[j]);
            if j < ci {
                assert(keyf(s[j]) != keyf(s[ci]));
            } else {
                assert(keyf(s[ci]) != keyf(s[j]));
            }
        }
    }
}

/// Swap-removal keeps keys pairwise distinct.
pub proof fn lemma_swap_remove_keys_distinct<T, K>(s: Seq<T>, ci: int, keyf: spec_fn(T) -> K)
    requires
        0 <= ci < s.len(),
        forall|i: int, j: int|
            #![trigger keyf(s[i]), keyf(s[j])]
            0 <= i < j < s.len() ==> keyf(s[i]) != keyf(s[j]),
    ensures
        forall|i: int, j: int|
            #![trigger keyf(s.update(ci, s.last()).drop_last()[i]), keyf(s.update(ci, s.last()).drop_last()[j])]
            0 <= i < j < s.update(ci, s.last()).drop_last().len() ==> keyf(
                s.update(ci, s.last()).drop_last()[i],
            ) != keyf(s.update(ci, s.last()).drop_last()[j]),
{
    let t = s.update(ci, s.last()).drop_last();
    let n = s.len() as int;
    assert forall|i: int, j: int|
        #![trigger keyf(t[i]), keyf(t[j])]
        0 <= i < j < t.len() implies keyf(t[i]) != keyf(t[j]) by {
        let si = if i == ci {
            n - 1
        } else {
            i
        };
        let sj = if j == ci {
            n - 1
        } else {
            j
        };
        assert(t[i] == s[si]);
        assert(t[j] == s[sj]);
        if si < sj {
            assert(keyf(s[si]) != keyf(s[sj]));
        } else {
            assert(keyf(s[sj]) != keyf(s[si]));
        }
    }
}

/// Every record of the swap-removal result was already present before.
pub proof fn lemma_swap_remove_contains<T>(s: Seq<T>, i: int, j: int)
    requires
        0 <= i < s.len(),
        0 <= j < s.update(i, s.last()).drop_last().len(),
    ensures
        exists|k: int|
            0 <= k < s.len() && s[k] == #[trigger] s.update(i, s.last()).drop_last()[j],
{
    let t = s.update(i, s.last()).drop_last();
    if j == i {
        assert(s[s.len() - 1] == t[j]);
    } else {
        assert(s[j] == t[j]);
    }
}

} // verus!
