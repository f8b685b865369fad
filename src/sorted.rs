//! The sorting strategy: hash every value, sort the positions by hash code, and
//! compare only within runs of equal codes.
use vstd::prelude::*;
use crate::naive::hash_all;
use crate::outcome::{
    distinct_within, eq_admits_same_hash, eq_failed_on, hash_admits_all, hash_first_outcome,
    hashed_as, hashes_to, prefix_hashed, Validation, ValidationError,
};

verus! {

/// Relies on `slice::sort_unstable_by_key`: the entries are rearranged, none
/// added or lost, into ascending order of their first field. The order of
/// entries with equal first fields is left open.
#[verifier::external_body]
fn sort_by_code(entries: &mut Vec<(i64, usize)>)
    ensures
        final(entries)@.to_multiset() == old(entries)@.to_multiset(),
        forall|a: int, b: int|
            0 <= a < b < final(entries)@.len() ==> #[trigger] final(entries)@[a].0
                <= #[trigger] final(entries)@[b].0,
{
    entries.sort_unstable_by_key(|e| e.0);
}

/// The equality oracle answered `false` on the values at positions `a` and `b`,
/// asked with the earlier position first.
spec fn compared_unequal<V, E, Q: Fn(&V, &V) -> Result<bool, E>>(
    eq_fn: Q,
    s: Seq<V>,
    a: int,
    b: int,
) -> bool {
    if a < b {
        call_ensures(eq_fn, (&s[a], &s[b]), Ok(false))
    } else {
        call_ensures(eq_fn, (&s[b], &s[a]), Ok(false))
    }
}

/// Position `k`, paired with its hash code, stands somewhere in `entries`.
spec fn placed(entries: Seq<(i64, usize)>, hs: Seq<i64>, k: int) -> bool {
    exists|p: int| 0 <= p < entries.len() && #[trigger] entries[p] == (hs[k], k as usize)
}

/// `entries` holds each position below `hs.len()` once, paired with its hash
/// code, sorted by code.
spec fn sorted_positions(entries: Seq<(i64, usize)>, hs: Seq<i64>) -> bool {
    &&& entries.len() == hs.len()
    &&& entries.no_duplicates()
    &&& forall|p: int|
        0 <= p < entries.len() ==> (#[trigger] entries[p]).1 < hs.len() && entries[p].0
            == hs[entries[p].1 as int]
    &&& forall|k: int| 0 <= k < hs.len() ==> #[trigger] placed(entries, hs, k)
    &&& forall|a: int, b: int|
        0 <= a < b < entries.len() ==> #[trigger] entries[a].0 <= #[trigger] entries[b].0
}

/// Pairs each position with its hash code and sorts the pairs by code.
fn sort_positions(hashes: &Vec<i64>) -> (entries: Vec<(i64, usize)>)
    ensures
        sorted_positions(entries@, hashes@),
{
    let n = hashes.len();
    let mut entries: Vec<(i64, usize)> = Vec::with_capacity(n);
    let mut k: usize = 0;
    while k < n
        invariant
            k <= n == hashes@.len(),
            entries@.len() == k,
            forall|i: int| 0 <= i < k ==> #[trigger] entries@[i] == (hashes@[i], i as usize),
        decreases n - k,
    {
        entries.push((hashes[k], k));
        k += 1;
    }
    let ghost before = entries@;
    sort_by_code(&mut entries);
    proof {
        let after = entries@;
        before.to_multiset_ensures();
        after.to_multiset_ensures();
        assert(before.no_duplicates());
        before.lemma_multiset_has_no_duplicates();
        after.lemma_multiset_has_no_duplicates_conv();
        assert forall|p: int| 0 <= p < after.len() implies (#[trigger] after[p]).1 < n && after[p].0
            == hashes@[after[p].1 as int] by {
            assert(after.contains(after[p]));
            assert(before.to_multiset().count(after[p]) > 0);
            let i = choose|i: int| 0 <= i < before.len() && before[i] == after[p];
        }
        assert forall|k: int| 0 <= k < n implies #[trigger] placed(after, hashes@, k) by {
            assert(before.contains(before[k]));
            assert(after.to_multiset().count(before[k]) > 0);
            let p = choose|p: int| 0 <= p < after.len() && after[p] == before[k];
        }
    }
    entries
}

/// Sorting validation. All hash codes are computed first, in input order; the
/// positions are then sorted by code, and each is compared with the following
/// ones for as long as their code is the same. The oracle is always asked with
/// the earlier position of the pair first. The first equal pair, or the first
/// oracle failure, ends the pass.
pub fn validate_sorted<V, E, H, Q>(values: &[V], hash_fn: H, eq_fn: Q) -> (r: Validation<E>) where
    H: Fn(&V) -> Result<i64, E>,
    Q: Fn(&V, &V) -> Result<bool, E>,
    requires
        hash_admits_all(hash_fn, values@),
        eq_admits_same_hash(hash_fn, eq_fn),
    ensures
        hash_first_outcome(hash_fn, eq_fn, values@, r),
{
    let hashes = match hash_all(values, &hash_fn) {
        Ok(hs) => hs,
        Err(e) => {
            let r: Validation<E> = Err(ValidationError::Oracle(e));
            assert(r->Err_0->Oracle_0 == e);
            return r;
        },
    };
    let n = values.len();
    assert(prefix_hashed(hash_fn, values@, n as int));
    let entries = sort_positions(&hashes);
    let mut p: usize = 0;
    while p < n
        invariant
            p <= n == values@.len() == hashes@.len(),
            hashed_as(hash_fn, values@, hashes@),
            eq_admits_same_hash(hash_fn, eq_fn),
            prefix_hashed(hash_fn, values@, n as int),
            sorted_positions(entries@, hashes@),
            forall|p1: int, q1: int|
                0 <= p1 < p && p1 < q1 < n && entries@[q1].0 == entries@[p1].0
                    ==> compared_unequal(
                    eq_fn,
                    values@,
                    #[trigger] entries@[p1].1 as int,
                    #[trigger] entries@[q1].1 as int,
                ),
        decreases n - p,
    {
        let mut q: usize = p + 1;
        while q < n && entries[q].0 == entries[p].0
            invariant
                p < n == values@.len() == hashes@.len(),
                p + 1 <= q <= n,
                hashed_as(hash_fn, values@, hashes@),
                eq_admits_same_hash(hash_fn, eq_fn),
                prefix_hashed(hash_fn, values@, n as int),
                sorted_positions(entries@, hashes@),
                forall|p1: int, q1: int|
                    0 <= p1 < p && p1 < q1 < n && entries@[q1].0 == entries@[p1].0
                        ==> compared_unequal(
                        eq_fn,
                        values@,
                        #[trigger] entries@[p1].1 as int,
                        #[trigger] entries@[q1].1 as int,
                    ),
                forall|q1: int|
                    p < q1 < q ==> compared_unequal(
                        eq_fn,
                        values@,
                        entries@[p as int].1 as int,
                        #[trigger] entries@[q1].1 as int,
                    ),
            decreases n - q,
        {
            let a = entries[p].1;
            let b = entries[q].1;
            assert(entries@[p as int] != entries@[q as int]);
            let (lo, hi) = if a < b {
                (a, b)
            } else {
                (b, a)
            };
            assert(hashes_to(hash_fn, values@[lo as int], hashes@[lo as int]));
            assert(hashes_to(hash_fn, values@[hi as int], hashes@[hi as int]));
            match eq_fn(&values[lo], &values[hi]) {
                Ok(true) => {
                    return Err(ValidationError::Duplicate { first: lo, second: hi });
                },
                Ok(false) => {},
                Err(e) => {
                    assert(eq_failed_on(hash_fn, eq_fn, values@, lo as int, hi as int, e));
                    let r: Validation<E> = Err(ValidationError::Oracle(e));
                    assert(r->Err_0->Oracle_0 == e);
                    return r;
                },
            }
            q += 1;
        }
        assert forall|q1: int| p < q1 < n && entries@[q1].0 == entries@[p as int].0 implies compared_unequal(
            eq_fn,
            values@,
            entries@[p as int].1 as int,
            #[trigger] entries@[q1].1 as int,
        ) by {
            if q1 >= q {
                assert(entries@[q as int].0 <= entries@[q1].0);
            }
        }
        p += 1;
    }
    assert forall|i: int, j: int|
        #![trigger hashes@[i], hashes@[j]]
        0 <= i < j < n && hashes@[i] == hashes@[j] implies call_ensures(
        eq_fn,
        (&values@[i], &values@[j]),
        Ok(false),
    ) by {
        assert(placed(entries@, hashes@, i));
        assert(placed(entries@, hashes@, j));
        let pi = choose|pi: int| 0 <= pi < n && #[trigger] entries@[pi] == (hashes@[i], i as usize);
        let pj = choose|pj: int| 0 <= pj < n && #[trigger] entries@[pj] == (hashes@[j], j as usize);
        if pi < pj {
            assert(compared_unequal(eq_fn, values@, entries@[pi].1 as int, entries@[pj].1 as int));
        } else {
            assert(compared_unequal(eq_fn, values@, entries@[pj].1 as int, entries@[pi].1 as int));
        }
    }
    assert(distinct_within(eq_fn, values@, hashes@));
    Ok(())
}

} // verus!
