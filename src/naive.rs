//! The pairwise strategy: hash every value, then compare each value with every
//! later one that has the same hash code.
use vstd::prelude::*;
use crate::outcome::{
    eq_admits_same_hash, eq_failed_on, hash_admits_all, hash_failed_at, hash_first_outcome,
    hashed_as, hashes_to, prefix_hashed, distinct_within, Validation, ValidationError,
};

verus! {

/// Hashes the values in order and stops at the first failure.
pub(crate) fn hash_all<V, E, H>(values: &[V], hash_fn: &H) -> (r: Result<Vec<i64>, E>) where
    H: Fn(&V) -> Result<i64, E>,
    requires
        hash_admits_all(*hash_fn, values@),
    ensures
        r is Ok ==> r->Ok_0@.len() == values@.len() && hashed_as(*hash_fn, values@, r->Ok_0@),
        r is Err ==> exists|k: int| hash_failed_at(*hash_fn, values@, k, r->Err_0),
{
    let n = values.len();
    let mut hashes: Vec<i64> = Vec::with_capacity(n);
    let mut k: usize = 0;
    while k < n
        invariant
            k <= n == values@.len(),
            hashes@.len() == k,
            hash_admits_all(*hash_fn, values@),
            hashed_as(*hash_fn, values@, hashes@),
        decreases n - k,
    {
        match hash_fn(&values[k]) {
            Ok(h) => {
                hashes.push(h);
                assert(hashes@[k as int] == h);
            },
            Err(e) => {
                assert(hashed_as(*hash_fn, values@, hashes@));
                assert(hash_failed_at(*hash_fn, values@, k as int, e));
                let r: Result<Vec<i64>, E> = Err(e);
                assert(r->Err_0 == e);
                return r;
            },
        }
        k += 1;
    }
    Ok(hashes)
}

/// Pairwise validation. All hash codes are computed first, in input order;
/// then each value is compared with every later value of the same code, in
/// order of positions. The first equal pair, or the first oracle failure, ends
/// the pass.
pub fn validate_naive<V, E, H, Q>(values: &[V], hash_fn: H, eq_fn: Q) -> (r: Validation<E>) where
    H: Fn(&V) -> Result<i64, E>,
    Q: Fn(&V, &V) -> Result<bool, E>,
    requires
        hash_admits_all(hash_fn, values@),
        eq_admits_same_hash(hash_fn, eq_fn),
    ensures
        hash_first_outcome(hash_fn, eq_fn, values@, r),
{
    let hashes = match hash_all(values, &hash_fn) {
        Ok(hs) => hs,
        Err(e) => {
            let r: Validation<E> = Err(ValidationError::Oracle(e));
            assert(r->Err_0->Oracle_0 == e);
            return r;
        },
    };
    let n = values.len();
    assert(prefix_hashed(hash_fn, values@, n as int));
    let mut i: usize = 0;
    while i < n
        invariant
            i <= n == values@.len() == hashes@.len(),
            hashed_as(hash_fn, values@, hashes@),
            eq_admits_same_hash(hash_fn, eq_fn),
            prefix_hashed(hash_fn, values@, n as int),
            forall|a: int, b: int|
                #![trigger hashes@[a], hashes@[b]]
                0 <= a < i && a < b < n && hashes@[a] == hashes@[b] ==> call_ensures(
                    eq_fn,
                    (&values@[a], &values@[b]),
                    Ok(false),
                ),
        decreases n - i,
    {
        let mut j: usize = i + 1;
        while j < n
            invariant
                i < n == values@.len() == hashes@.len(),
                i + 1 <= j <= n,
                hashed_as(hash_fn, values@, hashes@),
                eq_admits_same_hash(hash_fn, eq_fn),
                prefix_hashed(hash_fn, values@, n as int),
                forall|a: int, b: int|
                    #![trigger hashes@[a], hashes@[b]]
                    0 <= a < i && a < b < n && hashes@[a] == hashes@[b] ==> call_ensures(
                        eq_fn,
                        (&values@[a], &values@[b]),
                        Ok(false),
                    ),
                forall|b: int|
                    #![trigger hashes@[b]]
                    i < b < j && hashes@[i as int] == hashes@[b] ==> call_ensures(
                        eq_fn,
                        (&values@[i as int], &values@[b]),
                        Ok(false),
                    ),
            decreases n - j,
        {
            if hashes[i] == hashes[j] {
                assert(hashes_to(hash_fn, values@[i as int], hashes@[i as int]));
                assert(hashes_to(hash_fn, values@[j as int], hashes@[j as int]));
                match eq_fn(&values[i], &values[j]) {
                    Ok(true) => {
                        return Err(ValidationError::Duplicate { first: i, second: j });
                    },
                    Ok(false) => {},
                    Err(e) => {
                        assert(call_ensures(eq_fn, (&values@[i as int], &values@[j as int]), Err(e)));
                        assert(eq_failed_on(hash_fn, eq_fn, values@, i as int, j as int, e));
                        let r: Validation<E> = Err(ValidationError::Oracle(e));
                        assert(r->Err_0->Oracle_0 == e);
                        return r;
                    },
                }
            }
            j += 1;
        }
        i += 1;
    }
    assert(distinct_within(eq_fn, values@, hashes@));
    Ok(())
}

} // verus!
