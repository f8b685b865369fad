use std::cell::RefCell;

use unique_check::bucketed::validate_bucketed;
use unique_check::naive::validate_naive;
use unique_check::outcome::ValidationError;
use unique_check::sorted::validate_sorted;

type Outcome = Result<(), ValidationError<String>>;

fn identity(v: &i64) -> Result<i64, String> {
    Ok(*v)
}

fn numeric_eq(a: &i64, b: &i64) -> Result<bool, String> {
    Ok(*a == *b)
}

fn run_all(values: &[i64], modulus: i64) -> [Outcome; 3] {
    let hash = move |v: &i64| -> Result<i64, String> { Ok(v.rem_euclid(modulus)) };
    [
        validate_naive(values, hash, numeric_eq),
        validate_sorted(values, hash, numeric_eq),
        validate_bucketed(values, hash, numeric_eq),
    ]
}

fn distinct(n: i64) -> Vec<i64> {
    (0..n).collect()
}

fn with_midpoint_copy(n: i64) -> Vec<i64> {
    let mut v = distinct(n);
    let mid = v.len() / 2;
    v[mid] = v[v.len() - 1];
    v
}

fn is_duplicate(r: &Outcome) -> bool {
    matches!(r, Err(ValidationError::Duplicate { .. }))
}

#[test]
fn distinct_values_with_identity_hash_pass() {
    let values = distinct(10);
    assert_eq!(validate_naive(&values, identity, numeric_eq), Ok(()));
    assert_eq!(validate_sorted(&values, identity, numeric_eq), Ok(()));
    assert_eq!(validate_bucketed(&values, identity, numeric_eq), Ok(()));
}

#[test]
fn copied_value_is_reported_with_its_positions() {
    let mut values = distinct(10);
    values[5] = values[9];
    let expected: Outcome = Err(ValidationError::Duplicate { first: 5, second: 9 });
    assert_eq!(validate_naive(&values, identity, numeric_eq), expected);
    assert_eq!(validate_sorted(&values, identity, numeric_eq), expected);
    assert_eq!(validate_bucketed(&values, identity, numeric_eq), expected);
}

#[test]
fn heavy_collisions_do_not_give_false_duplicates() {
    let values = distinct(100);
    for r in run_all(&values, 5).iter() {
        assert_eq!(*r, Ok(()));
    }
}

#[test]
fn few_collisions_with_injected_duplicate_fail() {
    let values = with_midpoint_copy(100);
    for r in run_all(&values, 500).iter() {
        assert_eq!(*r, Err(ValidationError::Duplicate { first: 50, second: 99 }));
    }
}

#[test]
fn larger_inputs_agree() {
    let values = distinct(10_000);
    for r in run_all(&values, 500).iter() {
        assert_eq!(*r, Ok(()));
    }
    let values = with_midpoint_copy(10_000);
    for r in run_all(&values, 500).iter() {
        assert!(is_duplicate(r));
    }
}

#[test]
fn constant_hash_still_detects_and_passes() {
    let constant = |_: &i64| -> Result<i64, String> { Ok(7) };
    let values = vec![3, 1, 4, 15, 9, 2, 6];
    assert_eq!(validate_naive(&values, constant, numeric_eq), Ok(()));
    assert_eq!(validate_sorted(&values, constant, numeric_eq), Ok(()));
    assert_eq!(validate_bucketed(&values, constant, numeric_eq), Ok(()));
    let values = vec![3, 1, 4, 1, 5];
    let expected: Outcome = Err(ValidationError::Duplicate { first: 1, second: 3 });
    assert_eq!(validate_naive(&values, constant, numeric_eq), expected);
    assert_eq!(validate_sorted(&values, constant, numeric_eq), expected);
    assert_eq!(validate_bucketed(&values, constant, numeric_eq), expected);
}

#[test]
fn empty_and_single_sequences_pass() {
    let empty: Vec<i64> = Vec::new();
    for r in run_all(&empty, 3).iter() {
        assert_eq!(*r, Ok(()));
    }
    for r in run_all(&[42], 3).iter() {
        assert_eq!(*r, Ok(()));
    }
}

#[test]
fn negative_and_extreme_codes_are_handled() {
    let values = vec![i64::MIN, -1, 0, i64::MAX, -1];
    assert_eq!(
        validate_naive(&values, identity, numeric_eq),
        Err(ValidationError::Duplicate { first: 1, second: 4 })
    );
    assert_eq!(
        validate_sorted(&values, identity, numeric_eq),
        Err(ValidationError::Duplicate { first: 1, second: 4 })
    );
    assert_eq!(
        validate_bucketed(&values, identity, numeric_eq),
        Err(ValidationError::Duplicate { first: 1, second: 4 })
    );
}

#[test]
fn equality_oracle_sees_only_equal_codes() {
    let values = with_midpoint_copy(60);
    let distinct_values = distinct(60);
    let modulus = 7;
    let code = move |v: &i64| v.rem_euclid(modulus);
    for input in [&values, &distinct_values] {
        let calls: RefCell<Vec<(i64, i64)>> = RefCell::new(Vec::new());
        let eq = |a: &i64, b: &i64| -> Result<bool, String> {
            calls.borrow_mut().push((*a, *b));
            Ok(*a == *b)
        };
        let hash = |v: &i64| -> Result<i64, String> { Ok(code(v)) };
        let _ = validate_naive(input, hash, eq);
        let _ = validate_sorted(input, hash, eq);
        let _ = validate_bucketed(input, hash, eq);
        assert!(!calls.borrow().is_empty());
        for (a, b) in calls.borrow().iter() {
            assert_eq!(code(a), code(b));
        }
    }
}

#[test]
fn equality_oracle_gets_earlier_value_first() {
    let values = vec![10, 20, 30, 40, 50, 60];
    let positions = |v: &i64| values.iter().position(|x| x == v).unwrap();
    let calls: RefCell<Vec<(usize, usize)>> = RefCell::new(Vec::new());
    let eq = |a: &i64, b: &i64| -> Result<bool, String> {
        calls.borrow_mut().push((positions(a), positions(b)));
        Ok(false)
    };
    let constant = |_: &i64| -> Result<i64, String> { Ok(0) };
    assert_eq!(validate_sorted(&values, constant, eq), Ok(()));
    assert_eq!(validate_bucketed(&values, constant, eq), Ok(()));
    assert_eq!(validate_naive(&values, constant, eq), Ok(()));
    assert_eq!(calls.borrow().len(), 3 * 15);
    for (a, b) in calls.borrow().iter() {
        assert!(a < b);
    }
}

#[test]
fn pairwise_scan_makes_every_same_code_comparison() {
    let values = distinct(20);
    let count = RefCell::new(0usize);
    let eq = |a: &i64, b: &i64| -> Result<bool, String> {
        *count.borrow_mut() += 1;
        Ok(*a == *b)
    };
    let hash = |v: &i64| -> Result<i64, String> { Ok(v % 4) };
    assert_eq!(validate_naive(&values, hash, eq), Ok(()));
    // four codes of five values each: 4 * (5 * 4 / 2) pairs
    assert_eq!(*count.borrow(), 40);
    *count.borrow_mut() = 0;
    assert_eq!(validate_sorted(&values, hash, eq), Ok(()));
    assert_eq!(*count.borrow(), 40);
    *count.borrow_mut() = 0;
    assert_eq!(validate_bucketed(&values, hash, eq), Ok(()));
    assert_eq!(*count.borrow(), 40);
}

#[test]
fn hash_failure_before_comparisons_is_passed_on() {
    let values = vec![1, 2, 1, 3, 4];
    let hashed = RefCell::new(Vec::new());
    let hash = |v: &i64| -> Result<i64, String> {
        hashed.borrow_mut().push(*v);
        if *v == 3 {
            Err(String::from("no code for 3"))
        } else {
            Ok(0)
        }
    };
    let compared = RefCell::new(0usize);
    let eq = |a: &i64, b: &i64| -> Result<bool, String> {
        *compared.borrow_mut() += 1;
        Ok(*a == *b)
    };
    let failure: Outcome = Err(ValidationError::Oracle(String::from("no code for 3")));
    assert_eq!(validate_naive(&values, hash, eq), failure);
    assert_eq!(validate_sorted(&values, hash, eq), failure);
    assert_eq!(*compared.borrow(), 0);
    assert_eq!(*hashed.borrow(), vec![1, 2, 1, 3, 1, 2, 1, 3]);
}

#[test]
fn bucket_pass_stops_at_failing_hash() {
    let values = vec![1, 2, 3, 4, 5];
    let hashed = RefCell::new(Vec::new());
    let hash = |v: &i64| -> Result<i64, String> {
        hashed.borrow_mut().push(*v);
        if *v == 3 {
            Err(String::from("no code for 3"))
        } else {
            Ok(v % 2)
        }
    };
    let compared = RefCell::new(Vec::new());
    let eq = |a: &i64, b: &i64| -> Result<bool, String> {
        compared.borrow_mut().push((*a, *b));
        Ok(*a == *b)
    };
    assert_eq!(
        validate_bucketed(&values, hash, eq),
        Err(ValidationError::Oracle(String::from("no code for 3")))
    );
    assert_eq!(*hashed.borrow(), vec![1, 2, 3]);
    assert!(compared.borrow().is_empty());
}

#[test]
fn bucket_pass_reports_duplicate_before_failing_hash() {
    let values = vec![1, 1, 3];
    let hash = |v: &i64| -> Result<i64, String> {
        if *v == 3 {
            Err(String::from("no code for 3"))
        } else {
            Ok(0)
        }
    };
    assert_eq!(
        validate_bucketed(&values, hash, numeric_eq),
        Err(ValidationError::Duplicate { first: 0, second: 1 })
    );
    assert_eq!(
        validate_naive(&values, hash, numeric_eq),
        Err(ValidationError::Oracle(String::from("no code for 3")))
    );
}

#[test]
fn equality_failure_is_passed_on() {
    let values = vec![1, 2, 3, 4];
    let eq = |_: &i64, _: &i64| -> Result<bool, String> { Err(String::from("cannot compare")) };
    let failure: Outcome = Err(ValidationError::Oracle(String::from("cannot compare")));
    let collide = |v: &i64| -> Result<i64, String> { Ok(if *v == 4 { 1 } else { *v }) };
    assert_eq!(validate_naive(&values, collide, eq), failure);
    assert_eq!(validate_sorted(&values, collide, eq), failure);
    assert_eq!(validate_bucketed(&values, collide, eq), failure);
    assert_eq!(validate_naive(&values, identity, eq), Ok(()));
    assert_eq!(validate_sorted(&values, identity, eq), Ok(()));
    assert_eq!(validate_bucketed(&values, identity, eq), Ok(()));
}

#[test]
fn bucket_compares_with_head_then_later_values() {
    let values = vec![1, 3, 5, 3];
    let compared = RefCell::new(Vec::new());
    let eq = |a: &i64, b: &i64| -> Result<bool, String> {
        compared.borrow_mut().push((*a, *b));
        Ok(*a == *b)
    };
    let parity = |v: &i64| -> Result<i64, String> { Ok(v % 2) };
    assert_eq!(
        validate_bucketed(&values, parity, eq),
        Err(ValidationError::Duplicate { first: 1, second: 3 })
    );
    assert_eq!(*compared.borrow(), vec![(1, 3), (1, 5), (3, 5), (1, 3), (3, 3)]);
}
