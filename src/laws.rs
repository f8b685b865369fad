//! What holds of the three strategies together, for oracles that behave.
use vstd::prelude::*;
use crate::outcome::{
    all_checked, distinct_within, eq_failed_on, equal_pair, hash_failed_at, hash_first_outcome,
    hashed_as, hashes_to, in_order_outcome, prefix_hashed, Validation, ValidationError,
};

verus! {

/// The hash oracle gives each value of `s` one answer, and that answer is a
/// code.
pub open spec fn reliable_hash<V, E, H: Fn(&V) -> Result<i64, E>>(hash_fn: H, s: Seq<V>) -> bool {
    forall|i: int, r1: Result<i64, E>, r2: Result<i64, E>|
        #![trigger call_ensures(hash_fn, (&s[i],), r1), call_ensures(hash_fn, (&s[i],), r2)]
        0 <= i < s.len() && call_ensures(hash_fn, (&s[i],), r1) && call_ensures(hash_fn, (&s[i],), r2)
            ==> r1 == r2 && r1 is Ok
}

/// The hash oracle gives each value of `s` one answer, a code or an error.
pub open spec fn stable_hash<V, E, H: Fn(&V) -> Result<i64, E>>(hash_fn: H, s: Seq<V>) -> bool {
    forall|i: int, r1: Result<i64, E>, r2: Result<i64, E>|
        #![trigger call_ensures(hash_fn, (&s[i],), r1), call_ensures(hash_fn, (&s[i],), r2)]
        0 <= i < s.len() && call_ensures(hash_fn, (&s[i],), r1) && call_ensures(hash_fn, (&s[i],), r2)
            ==> r1 == r2
}

/// The equality oracle gives each pair of positions `i < j` of `s`, asked in
/// that order, one answer, and that answer is a verdict.
pub open spec fn reliable_eq<V, E, Q: Fn(&V, &V) -> Result<bool, E>>(eq_fn: Q, s: Seq<V>) -> bool {
    forall|i: int, j: int, r1: Result<bool, E>, r2: Result<bool, E>|
        #![trigger call_ensures(eq_fn, (&s[i], &s[j]), r1), call_ensures(eq_fn, (&s[i], &s[j]), r2)]
        0 <= i < j < s.len() && call_ensures(eq_fn, (&s[i], &s[j]), r1) && call_ensures(
            eq_fn,
            (&s[i], &s[j]),
            r2,
        ) ==> r1 == r2 && r1 is Ok
}

/// Values that the equality oracle calls equal get the same hash code.
pub open spec fn hash_respects_eq<V, E, H, Q>(hash_fn: H, eq_fn: Q, s: Seq<V>) -> bool where
    H: Fn(&V) -> Result<i64, E>,
    Q: Fn(&V, &V) -> Result<bool, E>,
 {
    forall|i: int, j: int, h1: i64, h2: i64|
        #![trigger hashes_to(hash_fn, s[i], h1), hashes_to(hash_fn, s[j], h2)]
        0 <= i < j < s.len() && hashes_to(hash_fn, s[i], h1) && hashes_to(hash_fn, s[j], h2)
            && call_ensures(eq_fn, (&s[i], &s[j]), Ok(true)) ==> h1 == h2
}

/// Some two positions `i < j` of `s` hold values that the equality oracle
/// calls equal.
pub open spec fn has_duplicate<V, E, Q: Fn(&V, &V) -> Result<bool, E>>(eq_fn: Q, s: Seq<V>) -> bool {
    exists|i: int, j: int|
        0 <= i < j < s.len() && #[trigger] call_ensures(eq_fn, (&s[i], &s[j]), Ok(true))
}

/// `r` was reported after the comparisons among the first `k` values alone:
/// an equal pair, or a failed comparison, that ends before position `k`.
pub open spec fn stopped_before<V, E, H, Q>(hash_fn: H, eq_fn: Q, s: Seq<V>, r: Validation<E>, k: int) -> bool where
    H: Fn(&V) -> Result<i64, E>,
    Q: Fn(&V, &V) -> Result<bool, E>,
 {
    match r {
        Ok(()) => false,
        Err(ValidationError::Duplicate { first, second }) => second < k,
        Err(ValidationError::Oracle(e)) => exists|i: int, j: int|
            j < k && #[trigger] eq_failed_on(hash_fn, eq_fn, s, i, j, e),
    }
}

/// With reliable oracles, an outcome of any strategy is a success exactly when
/// no two values are equal, and a failure is always a duplicate.
proof fn lemma_verdict<V, E, H, Q>(hash_fn: H, eq_fn: Q, s: Seq<V>, r: Validation<E>) where
    H: Fn(&V) -> Result<i64, E>,
    Q: Fn(&V, &V) -> Result<bool, E>,
    requires
        reliable_hash(hash_fn, s),
        reliable_eq(eq_fn, s),
        hash_respects_eq(hash_fn, eq_fn, s),
        hash_first_outcome(hash_fn, eq_fn, s, r) || in_order_outcome(hash_fn, eq_fn, s, r),
    ensures
        r is Ok <==> !has_duplicate(eq_fn, s),
        r is Err ==> r->Err_0 is Duplicate,
{
    match r {
        Ok(()) => {
            assert(all_checked(hash_fn, eq_fn, s));
            let hs = choose|hs: Seq<i64>|
                hs.len() == s.len() && #[trigger] hashed_as(hash_fn, s, hs) && distinct_within(
                    eq_fn,
                    s,
                    hs,
                );
            if has_duplicate(eq_fn, s) {
                let (i, j) = choose|i: int, j: int|
                    0 <= i < j < s.len() && #[trigger] call_ensures(eq_fn, (&s[i], &s[j]), Ok(true));
                assert(hashes_to(hash_fn, s[i], hs[i]));
                assert(hashes_to(hash_fn, s[j], hs[j]));
                assert(hs[i] == hs[j]);
                assert(call_ensures(eq_fn, (&s[i], &s[j]), Ok(false)));
            }
        },
        Err(ValidationError::Duplicate { first, second }) => {
            assert(equal_pair(hash_fn, eq_fn, s, first as int, second as int));
            assert(call_ensures(eq_fn, (&s[first as int], &s[second as int]), Ok(true)));
        },
        Err(ValidationError::Oracle(e)) => {
            if exists|k: int| hash_failed_at(hash_fn, s, k, e) {
                let k = choose|k: int| hash_failed_at(hash_fn, s, k, e);
                assert(call_ensures(hash_fn, (&s[k],), Err(e)));
            } else {
                let (i, j) = choose|i: int, j: int| #[trigger] eq_failed_on(hash_fn, eq_fn, s, i, j, e);
                assert(call_ensures(eq_fn, (&s[i], &s[j]), Err(e)));
            }
        },
    }
}

/// With oracles that always answer, and answer the same each time, and a hash
/// oracle that gives equal values one code, the three strategies reach the
/// same verdict on every sequence: success exactly when no two values are
/// equal. Where they fail, each reports an equal pair; only which pair may
/// differ.
pub proof fn lemma_strategies_agree<V, E, H, Q>(
    hash_fn: H,
    eq_fn: Q,
    s: Seq<V>,
    naive: Validation<E>,
    sorted: Validation<E>,
    bucketed: Validation<E>,
) where
    H: Fn(&V) -> Result<i64, E>,
    Q: Fn(&V, &V) -> Result<bool, E>,
    requires
        reliable_hash(hash_fn, s),
        reliable_eq(eq_fn, s),
        hash_respects_eq(hash_fn, eq_fn, s),
        hash_first_outcome(hash_fn, eq_fn, s, naive),
        hash_first_outcome(hash_fn, eq_fn, s, sorted),
        in_order_outcome(hash_fn, eq_fn, s, bucketed),
    ensures
        naive is Ok <==> !has_duplicate(eq_fn, s),
        sorted is Ok <==> !has_duplicate(eq_fn, s),
        bucketed is Ok <==> !has_duplicate(eq_fn, s),
        naive is Err ==> naive->Err_0 is Duplicate,
        sorted is Err ==> sorted->Err_0 is Duplicate,
        bucketed is Err ==> bucketed->Err_0 is Duplicate,
{
    lemma_verdict(hash_fn, eq_fn, s, naive);
    lemma_verdict(hash_fn, eq_fn, s, sorted);
    lemma_verdict(hash_fn, eq_fn, s, bucketed);
}

/// Values that the equality oracle calls pairwise unequal pass every strategy,
/// whatever the hash oracle's codes: collisions cost comparisons, never a
/// false duplicate.
pub proof fn lemma_distinct_values_pass<V, E, H, Q>(hash_fn: H, eq_fn: Q, s: Seq<V>, r: Validation<E>) where
    H: Fn(&V) -> Result<i64, E>,
    Q: Fn(&V, &V) -> Result<bool, E>,
    requires
        reliable_hash(hash_fn, s),
        reliable_eq(eq_fn, s),
        !has_duplicate(eq_fn, s),
        hash_first_outcome(hash_fn, eq_fn, s, r) || in_order_outcome(hash_fn, eq_fn, s, r),
    ensures
        r is Ok,
{
    match r {
        Ok(()) => {},
        Err(ValidationError::Duplicate { first, second }) => {
            assert(equal_pair(hash_fn, eq_fn, s, first as int, second as int));
            assert(call_ensures(eq_fn, (&s[first as int], &s[second as int]), Ok(true)));
        },
        Err(ValidationError::Oracle(e)) => {
            if exists|k: int| hash_failed_at(hash_fn, s, k, e) {
                let k = choose|k: int| hash_failed_at(hash_fn, s, k, e);
                assert(call_ensures(hash_fn, (&s[k],), Err(e)));
            } else {
                let (i, j) = choose|i: int, j: int| #[trigger] eq_failed_on(hash_fn, eq_fn, s, i, j, e);
                assert(call_ensures(eq_fn, (&s[i], &s[j]), Err(e)));
            }
        },
    }
}

/// A sequence with two equal values fails every strategy with a duplicate,
/// whatever the hash oracle's codes, a constant code included, as long as
/// equal values share a code.
pub proof fn lemma_duplicate_detected<V, E, H, Q>(hash_fn: H, eq_fn: Q, s: Seq<V>, r: Validation<E>) where
    H: Fn(&V) -> Result<i64, E>,
    Q: Fn(&V, &V) -> Result<bool, E>,
    requires
        reliable_hash(hash_fn, s),
        reliable_eq(eq_fn, s),
        hash_respects_eq(hash_fn, eq_fn, s),
        has_duplicate(eq_fn, s),
        hash_first_outcome(hash_fn, eq_fn, s, r) || in_order_outcome(hash_fn, eq_fn, s, r),
    ensures
        r is Err && r->Err_0 is Duplicate,
{
    lemma_verdict(hash_fn, eq_fn, s, r);
}

/// A hash oracle that answers the same each time and succeeded on position `k`
/// does not fail there.
proof fn lemma_failed_hash_not_hashed<V, E, H: Fn(&V) -> Result<i64, E>>(
    hash_fn: H,
    s: Seq<V>,
    n: int,
    k: int,
    e: E,
)
    requires
        stable_hash(hash_fn, s),
        prefix_hashed(hash_fn, s, n),
        0 <= k < n,
        k < s.len(),
    ensures
        !call_ensures(hash_fn, (&s[k],), Err(e)),
{
    let hs = choose|hs: Seq<i64>| hs.len() == n && #[trigger] hashed_as(hash_fn, s, hs);
    assert(hashes_to(hash_fn, s[k], hs[k]));
}

/// When the hash oracle, answering the same each time, succeeds on the values
/// before position `k` and fails on the value at `k` with `e`, the strategies
/// that hash first return that error unchanged, with no comparison reported.
pub proof fn lemma_hash_failure_hash_first<V, E, H, Q>(
    hash_fn: H,
    eq_fn: Q,
    s: Seq<V>,
    k: int,
    e: E,
    r: Validation<E>,
) where
    H: Fn(&V) -> Result<i64, E>,
    Q: Fn(&V, &V) -> Result<bool, E>,
    requires
        stable_hash(hash_fn, s),
        hash_failed_at(hash_fn, s, k, e),
        hash_first_outcome(hash_fn, eq_fn, s, r),
    ensures
        r == Err::<(), ValidationError<E>>(ValidationError::Oracle(e)),
{
    match r {
        Ok(()) => {
            let hs = choose|hs: Seq<i64>|
                hs.len() == s.len() && #[trigger] hashed_as(hash_fn, s, hs) && distinct_within(
                    eq_fn,
                    s,
                    hs,
                );
            lemma_failed_hash_not_hashed(hash_fn, s, s.len() as int, k, e);
        },
        Err(ValidationError::Duplicate { first, second }) => {
            lemma_failed_hash_not_hashed(hash_fn, s, s.len() as int, k, e);
        },
        Err(ValidationError::Oracle(e2)) => {
            if exists|k2: int| hash_failed_at(hash_fn, s, k2, e2) {
                let k2 = choose|k2: int| hash_failed_at(hash_fn, s, k2, e2);
                if k2 < k {
                    lemma_failed_hash_not_hashed(hash_fn, s, k, k2, e2);
                } else if k < k2 {
                    lemma_failed_hash_not_hashed(hash_fn, s, k2, k, e);
                } else {
                    assert(call_ensures(hash_fn, (&s[k],), Err(e2)));
                    assert(Err::<i64, E>(e2) == Err::<i64, E>(e));
                }
            } else {
                lemma_failed_hash_not_hashed(hash_fn, s, s.len() as int, k, e);
            }
        },
    }
}

/// When the hash oracle, answering the same each time, succeeds on the values
/// before position `k` and fails on the value at `k` with `e`, the bucket
/// strategy returns that error unchanged, unless it stopped earlier on a pair
/// that ends before `k`; nothing from position `k` on was compared.
pub proof fn lemma_hash_failure_in_order<V, E, H, Q>(
    hash_fn: H,
    eq_fn: Q,
    s: Seq<V>,
    k: int,
    e: E,
    r: Validation<E>,
) where
    H: Fn(&V) -> Result<i64, E>,
    Q: Fn(&V, &V) -> Result<bool, E>,
    requires
        stable_hash(hash_fn, s),
        hash_failed_at(hash_fn, s, k, e),
        in_order_outcome(hash_fn, eq_fn, s, r),
    ensures
        r == Err::<(), ValidationError<E>>(ValidationError::Oracle(e)) || stopped_before(
            hash_fn,
            eq_fn,
            s,
            r,
            k,
        ),
{
    match r {
        Ok(()) => {
            let hs = choose|hs: Seq<i64>|
                hs.len() == s.len() && #[trigger] hashed_as(hash_fn, s, hs) && distinct_within(
                    eq_fn,
                    s,
                    hs,
                );
            lemma_failed_hash_not_hashed(hash_fn, s, s.len() as int, k, e);
        },
        Err(ValidationError::Duplicate { first, second }) => {
            if second >= k {
                lemma_failed_hash_not_hashed(hash_fn, s, second + 1, k, e);
            }
        },
        Err(ValidationError::Oracle(e2)) => {
            if exists|k2: int| hash_failed_at(hash_fn, s, k2, e2) {
                let k2 = choose|k2: int| hash_failed_at(hash_fn, s, k2, e2);
                if k2 < k {
                    lemma_failed_hash_not_hashed(hash_fn, s, k, k2, e2);
                } else if k < k2 {
                    lemma_failed_hash_not_hashed(hash_fn, s, k2, k, e);
                } else {
                    assert(call_ensures(hash_fn, (&s[k],), Err(e2)));
                    assert(Err::<i64, E>(e2) == Err::<i64, E>(e));
                }
            } else {
                let (i, j) = choose|i: int, j: int|
                    prefix_hashed(hash_fn, s, j + 1) && #[trigger] eq_failed_on(hash_fn, eq_fn, s, i, j, e2);
                if j >= k {
                    lemma_failed_hash_not_hashed(hash_fn, s, j + 1, k, e);
                }
            }
        },
    }
}

} // verus!
