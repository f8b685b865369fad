//! The bucket strategy: one pass in input order, with a hash-keyed map of
//! buckets that each hold the values seen so far under one hash code.
use vstd::prelude::*;
use ahash::AHashMap;
use crate::outcome::{
    distinct_within, eq_admits_same_hash, eq_failed_on, hash_admits_all, hash_failed_at,
    hashed_as, hashes_to, in_order_outcome, prefix_hashed, Validation, ValidationError,
};

verus! {

/// ahash's map, held as an opaque value: its contents are named by `slots_of`.
#[verifier::external_type_specification]
#[verifier::external_body]
#[verifier::reject_recursive_types(K)]
#[verifier::reject_recursive_types(V)]
#[verifier::reject_recursive_types(S)]
pub struct ExAHashMap<K, V, S>(AHashMap<K, V, S>);

/// ahash's default hasher state, the map's third type parameter.
#[verifier::external_type_specification]
#[verifier::external_body]
pub struct ExAHashRandomState(ahash::RandomState);

/// A map from hash codes to bucket slots.
type SlotMap = AHashMap<i64, usize>;

/// What a map from hash codes to bucket slots holds.
pub uninterp spec fn slots_of(m: AHashMap<i64, usize>) -> Map<i64, usize>;

/// Relies on `AHashMap::new`: a new map holds no entry.
#[verifier::external_body]
fn new_slot_map() -> (m: SlotMap)
    ensures
        slots_of(m).dom().is_empty(),
{
    AHashMap::new()
}

/// Relies on `AHashMap::get`: the value stored under `code`, if there is one.
#[verifier::external_body]
fn slot_of(m: &SlotMap, code: i64) -> (r: Option<usize>)
    ensures
        r == (if slots_of(*m).contains_key(code) {
            Some(slots_of(*m)[code])
        } else {
            None
        }),
{
    m.get(&code).copied()
}

/// Relies on `AHashMap::insert`: `code` now maps to `slot`, and every other
/// key keeps its value.
#[verifier::external_body]
fn set_slot(m: &mut SlotMap, code: i64, slot: usize)
    ensures
        slots_of(*final(m)) == slots_of(*old(m)).insert(code, slot),
{
    m.insert(code, slot);
}

/// The positions seen so far under one hash code: the first one, and the
/// later ones in order of arrival.
struct Bucket {
    head: usize,
    rest: Vec<usize>,
}

/// Position `k` stands in the bucket.
spec fn holds(bucket: Bucket, k: int) -> bool {
    0 <= k <= usize::MAX && (bucket.head == k || bucket.rest@.contains(k as usize))
}

/// The state after the first `hs.len()` values were processed without a
/// duplicate: each of them is in the bucket of its code, each bucket holds
/// only earlier positions of one code, and all pairs of one code compared
/// unequal.
spec fn buckets_cover<V, E, Q: Fn(&V, &V) -> Result<bool, E>>(
    eq_fn: Q,
    s: Seq<V>,
    hs: Seq<i64>,
    slots: Map<i64, usize>,
    buckets: Seq<Bucket>,
) -> bool {
    &&& forall|c: i64|
        #[trigger] slots.contains_key(c) ==> slots[c] < buckets.len() && hs[buckets[slots[c] as int].head as int] == c
    &&& forall|b: int, k: int|
        0 <= b < buckets.len() && #[trigger] holds(buckets[b], k) ==> 0 <= k < hs.len() && hs[k]
            == hs[buckets[b].head as int]
    &&& forall|b: int| 0 <= b < buckets.len() ==> holds(#[trigger] buckets[b], buckets[b].head as int)
    &&& forall|k: int|
        #![trigger hs[k]]
        0 <= k < hs.len() ==> slots.contains_key(hs[k]) && holds(buckets[slots[hs[k]] as int], k)
    &&& distinct_within(eq_fn, s, hs)
}

/// Bucket validation. The values are processed in input order: each is hashed,
/// then compared with the first value of its code's bucket and with the
/// bucket's later values in order of arrival; a value with a new code opens a
/// bucket, and one that matches nothing joins its bucket. The first equal
/// pair, or the first oracle failure, ends the pass.
pub fn validate_bucketed<V, E, H, Q>(values: &[V], hash_fn: H, eq_fn: Q) -> (r: Validation<E>) where
    H: Fn(&V) -> Result<i64, E>,
    Q: Fn(&V, &V) -> Result<bool, E>,
    requires
        hash_admits_all(hash_fn, values@),
        eq_admits_same_hash(hash_fn, eq_fn),
    ensures
        in_order_outcome(hash_fn, eq_fn, values@, r),
{
    let n = values.len();
    let mut slots = new_slot_map();
    let mut buckets: Vec<Bucket> = Vec::new();
    let ghost mut hs: Seq<i64> = Seq::empty();
    let mut i: usize = 0;
    while i < n
        invariant
            i <= n == values@.len(),
            hs.len() == i,
            hash_admits_all(hash_fn, values@),
            eq_admits_same_hash(hash_fn, eq_fn),
            hashed_as(hash_fn, values@, hs),
            buckets_cover(eq_fn, values@, hs, slots_of(slots), buckets@),
        decreases n - i,
    {
        let h = match hash_fn(&values[i]) {
            Ok(h) => h,
            Err(e) => {
                assert(hash_failed_at(hash_fn, values@, i as int, e));
                let r: Validation<E> = Err(ValidationError::Oracle(e));
                assert(r->Err_0->Oracle_0 == e);
                return r;
            },
        };
        let ghost next = hs.push(h);
        assert(hashed_as(hash_fn, values@, next));
        assert(prefix_hashed(hash_fn, values@, i + 1));
        assert(hashes_to(hash_fn, values@[i as int], next[i as int]));
        match slot_of(&slots, h) {
            Some(b) => {
                let head = buckets[b].head;
                assert(holds(buckets@[b as int], head as int));
                assert(hs[head as int] == h);
                assert(hashes_to(hash_fn, values@[head as int], h));
                match eq_fn(&values[head], &values[i]) {
                    Ok(true) => {
                        return Err(ValidationError::Duplicate { first: head, second: i });
                    },
                    Ok(false) => {},
                    Err(e) => {
                        assert(eq_failed_on(hash_fn, eq_fn, values@, head as int, i as int, e));
                        let r: Validation<E> = Err(ValidationError::Oracle(e));
                        assert(r->Err_0->Oracle_0 == e);
                        return r;
                    },
                }
                let len = buckets[b].rest.len();
                let mut t: usize = 0;
                while t < len
                    invariant
                        i < n == values@.len(),
                        hs.len() == i,
                        b < buckets@.len(),
                        len == buckets@[b as int].rest@.len(),
                        t <= len,
                        next == hs.push(h),
                        hashed_as(hash_fn, values@, hs),
                        hashed_as(hash_fn, values@, next),
                        prefix_hashed(hash_fn, values@, i + 1),
                        slots_of(slots).contains_key(h) && slots_of(slots)[h] == b,
                        buckets@[b as int].head == head,
                        hashes_to(hash_fn, values@[i as int], h),
                        call_ensures(eq_fn, (&values@[head as int], &values@[i as int]), Ok(false)),
                        eq_admits_same_hash(hash_fn, eq_fn),
                        buckets_cover(eq_fn, values@, hs, slots_of(slots), buckets@),
                        hs[buckets@[b as int].head as int] == h,
                        forall|u: int|
                            0 <= u < t ==> call_ensures(
                                eq_fn,
                                (&values@[#[trigger] buckets@[b as int].rest@[u] as int], &values@[i as int]),
                                Ok(false),
                            ),
                    decreases len - t,
                {
                    let m = buckets[b].rest[t];
                    assert(buckets@[b as int].rest@.contains(m));
                    assert(holds(buckets@[b as int], m as int));
                    assert(hs[m as int] == h);
                    assert(hashes_to(hash_fn, values@[m as int], h));
                    match eq_fn(&values[m], &values[i]) {
                        Ok(true) => {
                            return Err(ValidationError::Duplicate { first: m, second: i });
                        },
                        Ok(false) => {},
                        Err(e) => {
                            assert(eq_failed_on(hash_fn, eq_fn, values@, m as int, i as int, e));
                            let r: Validation<E> = Err(ValidationError::Oracle(e));
                            assert(r->Err_0->Oracle_0 == e);
                            return r;
                        },
                    }
                    t += 1;
                }
                let ghost before = buckets@;
                buckets[b].rest.push(i);
                proof {
                    assert forall|a: int|
                        0 <= a < i && hs[a] == h implies call_ensures(
                        eq_fn,
                        (&values@[a], &values@[i as int]),
                        Ok(false),
                    ) by {
                        assert(holds(before[b as int], a));
                        if a != head {
                            let u = choose|u: int|
                                0 <= u < len && before[b as int].rest@[u] == a as usize;
                            assert(before[b as int].rest@[u] == a as usize);
                        }
                    }
                    assert(buckets@[b as int].rest@ == before[b as int].rest@.push(i));
                    assert forall|bb: int, k: int|
                        0 <= bb < buckets@.len() && #[trigger] holds(buckets@[bb], k) implies 0 <= k
                        < next.len() && next[k] == next[buckets@[bb].head as int] by {
                        if bb != b {
                            assert(holds(before[bb], k));
                        } else if k != i && k != head {
                            let u = choose|u: int|
                                0 <= u < buckets@[b as int].rest@.len() && buckets@[b as int].rest@[u]
                                    == k as usize;
                            assert(u < len);
                            assert(before[b as int].rest@[u] == k as usize);
                            assert(holds(before[bb], k));
                        }
                    }
                    assert forall|k: int|
                        #![trigger next[k]]
                        0 <= k < next.len() implies slots_of(slots).contains_key(next[k]) && holds(
                        buckets@[slots_of(slots)[next[k]] as int],
                        k,
                    ) by {
                        if k < i {
                            assert(hs[k] == next[k]);
                            let sb = slots_of(slots)[hs[k]] as int;
                            assert(holds(before[sb], k));
                            if sb == b && k != head {
                                let u = choose|u: int|
                                    0 <= u < len && before[b as int].rest@[u] == k as usize;
                                assert(buckets@[b as int].rest@[u] == k as usize);
                            }
                        } else {
                            assert(buckets@[b as int].rest@[len as int] == i);
                            assert(buckets@[b as int].rest@.contains(i));
                        }
                    }
                    assert(buckets_cover(eq_fn, values@, next, slots_of(slots), buckets@));
                }
            },
            None => {
                let ghost before = buckets@;
                let ghost before_slots = slots_of(slots);
                set_slot(&mut slots, h, buckets.len());
                buckets.push(Bucket { head: i, rest: Vec::new() });
                proof {
                    assert forall|a: int| 0 <= a < i implies hs[a] != h by {
                        assert(before_slots.contains_key(hs[a]));
                    }
                    assert forall|bb: int, k: int|
                        0 <= bb < buckets@.len() && #[trigger] holds(buckets@[bb], k) implies 0 <= k
                        < next.len() && next[k] == next[buckets@[bb].head as int] by {
                        if bb < before.len() {
                            assert(holds(before[bb], k));
                        }
                    }
                    assert forall|k: int|
                        #![trigger next[k]]
                        0 <= k < next.len() implies slots_of(slots).contains_key(next[k]) && holds(
                        buckets@[slots_of(slots)[next[k]] as int],
                        k,
                    ) by {
                        if k < i {
                            assert(hs[k] == next[k]);
                            assert(hs[k] != h);
                            assert(holds(before[before_slots[hs[k]] as int], k));
                        } else {
                            assert(next[k] == h);
                            assert(buckets@[before.len() as int].head == i);
                        }
                    }
                    assert(buckets_cover(eq_fn, values@, next, slots_of(slots), buckets@));
                }
            },
        }
        proof {
            hs = next;
        }
        i += 1;
    }
    assert(hashed_as(hash_fn, values@, hs));
    Ok(())
}

} // verus!
