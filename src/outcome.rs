//! The result type shared by the validators and the predicates that their
//! contracts are written in.
use vstd::prelude::*;

verus! {

/// Why a validation pass stopped without success.
#[derive(Debug, Clone, PartialEq, Eq)]
pub enum ValidationError<E> {
    /// An oracle call failed; its error is passed on unchanged.
    Oracle(E),
    /// The values at positions `first < second` were found equal.
    Duplicate { first: usize, second: usize },
}

/// The outcome of one validation pass.
pub type Validation<E> = Result<(), ValidationError<E>>;

/// The hash oracle returned `Ok(h)` for `v`.
pub open spec fn hashes_to<V, E, H: Fn(&V) -> Result<i64, E>>(hash_fn: H, v: V, h: i64) -> bool {
    call_ensures(hash_fn, (&v,), Ok(h))
}

/// `hs` holds hash codes that the hash oracle returned for the first
/// `hs.len()` values of `s`, in order.
pub open spec fn hashed_as<V, E, H: Fn(&V) -> Result<i64, E>>(
    hash_fn: H,
    s: Seq<V>,
    hs: Seq<i64>,
) -> bool {
    &&& hs.len() <= s.len()
    &&& forall|i: int| #![trigger hs[i]] 0 <= i < hs.len() ==> hashes_to(hash_fn, s[i], hs[i])
}

/// The hash oracle succeeded on each of the first `n` values of `s`.
pub open spec fn prefix_hashed<V, E, H: Fn(&V) -> Result<i64, E>>(
    hash_fn: H,
    s: Seq<V>,
    n: int,
) -> bool {
    exists|hs: Seq<i64>| hs.len() == n && #[trigger] hashed_as(hash_fn, s, hs)
}

/// Every pair of positions whose hash codes in `hs` agree was compared, and the
/// equality oracle answered `false`.
pub open spec fn distinct_within<V, E, Q: Fn(&V, &V) -> Result<bool, E>>(
    eq_fn: Q,
    s: Seq<V>,
    hs: Seq<i64>,
) -> bool {
    forall|i: int, j: int|
        #![trigger hs[i], hs[j]]
        0 <= i < j < hs.len() && hs[i] == hs[j] ==> call_ensures(eq_fn, (&s[i], &s[j]), Ok(false))
}

/// The equality oracle may be asked about any two values that the hash oracle
/// gave the same code: the validators call it on no other pairs.
pub open spec fn eq_admits_same_hash<V, E, H, Q>(hash_fn: H, eq_fn: Q) -> bool where
    H: Fn(&V) -> Result<i64, E>,
    Q: Fn(&V, &V) -> Result<bool, E>,
 {
    forall|a: V, b: V, h: i64|
        #![trigger hashes_to(hash_fn, a, h), hashes_to(hash_fn, b, h)]
        hashes_to(hash_fn, a, h) && hashes_to(hash_fn, b, h) ==> call_requires(eq_fn, (&a, &b))
}

/// The hash oracle may be asked about every value of `s`.
pub open spec fn hash_admits_all<V, E, H: Fn(&V) -> Result<i64, E>>(hash_fn: H, s: Seq<V>) -> bool {
    forall|i: int| 0 <= i < s.len() ==> call_requires(hash_fn, (#[trigger] &s[i],))
}

/// Positions `i < j` share a hash code and the equality oracle called them equal.
pub open spec fn equal_pair<V, E, H, Q>(hash_fn: H, eq_fn: Q, s: Seq<V>, i: int, j: int) -> bool where
    H: Fn(&V) -> Result<i64, E>,
    Q: Fn(&V, &V) -> Result<bool, E>,
 {
    &&& 0 <= i < j < s.len()
    &&& exists|h: i64| hashes_to(hash_fn, s[i], h) && #[trigger] hashes_to(hash_fn, s[j], h)
    &&& call_ensures(eq_fn, (&s[i], &s[j]), Ok(true))
}

/// The hash oracle succeeded on the values before position `k` and failed on
/// the value at `k` with `e`.
pub open spec fn hash_failed_at<V, E, H: Fn(&V) -> Result<i64, E>>(
    hash_fn: H,
    s: Seq<V>,
    k: int,
    e: E,
) -> bool {
    &&& 0 <= k < s.len()
    &&& prefix_hashed(hash_fn, s, k)
    &&& call_ensures(hash_fn, (&s[k],), Err(e))
}

/// Positions `i < j` share a hash code and the equality oracle failed on them
/// with `e`.
pub open spec fn eq_failed_on<V, E, H, Q>(hash_fn: H, eq_fn: Q, s: Seq<V>, i: int, j: int, e: E) -> bool where
    H: Fn(&V) -> Result<i64, E>,
    Q: Fn(&V, &V) -> Result<bool, E>,
 {
    &&& 0 <= i < j < s.len()
    &&& exists|h: i64| hashes_to(hash_fn, s[i], h) && #[trigger] hashes_to(hash_fn, s[j], h)
    &&& call_ensures(eq_fn, (&s[i], &s[j]), Err(e))
}

/// Success: every value was hashed, and every pair with equal codes compared
/// unequal.
pub open spec fn all_checked<V, E, H, Q>(hash_fn: H, eq_fn: Q, s: Seq<V>) -> bool where
    H: Fn(&V) -> Result<i64, E>,
    Q: Fn(&V, &V) -> Result<bool, E>,
 {
    exists|hs: Seq<i64>|
        hs.len() == s.len() && #[trigger] hashed_as(hash_fn, s, hs) && distinct_within(eq_fn, s, hs)
}

/// The outcome of a strategy that hashes every value before it compares any:
/// a comparison, or its failure, is reported only once all values were hashed.
pub open spec fn hash_first_outcome<V, E, H, Q>(hash_fn: H, eq_fn: Q, s: Seq<V>, r: Validation<E>) -> bool where
    H: Fn(&V) -> Result<i64, E>,
    Q: Fn(&V, &V) -> Result<bool, E>,
 {
    match r {
        Ok(()) => all_checked(hash_fn, eq_fn, s),
        Err(ValidationError::Duplicate { first, second }) => {
            &&& prefix_hashed(hash_fn, s, s.len() as int)
            &&& equal_pair(hash_fn, eq_fn, s, first as int, second as int)
        },
        Err(ValidationError::Oracle(e)) => {
            ||| exists|k: int| #[trigger] hash_failed_at(hash_fn, s, k, e)
            ||| prefix_hashed(hash_fn, s, s.len() as int) && exists|i: int, j: int|
                #[trigger] eq_failed_on(hash_fn, eq_fn, s, i, j, e)
        },
    }
}

/// The outcome of a strategy that hashes each value when it reaches it, in
/// order: a comparison that involves position `j`, or its failure, is reported
/// only once the values up to `j` were hashed.
pub open spec fn in_order_outcome<V, E, H, Q>(hash_fn: H, eq_fn: Q, s: Seq<V>, r: Validation<E>) -> bool where
    H: Fn(&V) -> Result<i64, E>,
    Q: Fn(&V, &V) -> Result<bool, E>,
 {
    match r {
        Ok(()) => all_checked(hash_fn, eq_fn, s),
        Err(ValidationError::Duplicate { first, second }) => {
            &&& prefix_hashed(hash_fn, s, second + 1)
            &&& equal_pair(hash_fn, eq_fn, s, first as int, second as int)
        },
        Err(ValidationError::Oracle(e)) => {
            ||| exists|k: int| #[trigger] hash_failed_at(hash_fn, s, k, e)
            ||| exists|i: int, j: int|
                prefix_hashed(hash_fn, s, j + 1) && #[trigger] eq_failed_on(hash_fn, eq_fn, s, i, j, e)
        },
    }
}

} // verus!
