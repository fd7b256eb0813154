use counter::store::CounterStore;
use counter::Counter;
use counter::ErrorCode;
use counter::Principal;

const TAG: u64 = 7;

fn principal(id: u64) -> Principal {
    Principal { id }
}

#[test]
fn initialize_sets_authority_count_and_bump() {
    let a = principal(1);
    let mut s = CounterStore::new();
    let r = s.initialize(TAG, a, 254);
    assert_eq!(r, Ok(Counter { authority: a, count: 0, bump: 254 }));
    assert_eq!(s.get(TAG), Some(Counter { authority: a, count: 0, bump: 254 }));
}

#[test]
fn initialize_twice_fails_and_keeps_first_record() {
    let a = principal(1);
    let b = principal(2);
    let mut s = CounterStore::new();
    assert!(s.initialize(TAG, a, 254).is_ok());
    assert!(s.increment(TAG, a).is_ok());
    let r = s.initialize(TAG, b, 9);
    assert_eq!(r, Err(ErrorCode::AlreadyExists));
    assert_eq!(s.get(TAG), Some(Counter { authority: a, count: 1, bump: 254 }));
}

#[test]
fn increment_on_nonexistent_record_is_not_found() {
    let a = principal(1);
    let mut s = CounterStore::new();
    assert_eq!(s.increment(TAG, a), Err(ErrorCode::NotFound));
    assert_eq!(s.get(TAG), None);
}

#[test]
fn decrement_on_nonexistent_record_is_not_found() {
    let a = principal(1);
    let mut s = CounterStore::new();
    assert_eq!(s.decrement(TAG, a), Err(ErrorCode::NotFound));
}

#[test]
fn other_requester_is_unauthorized_and_count_is_kept() {
    let a = principal(1);
    let b = principal(2);
    let mut s = CounterStore::new();
    assert!(s.initialize(TAG, a, 254).is_ok());
    assert!(s.increment(TAG, a).is_ok());
    assert_eq!(s.increment(TAG, b), Err(ErrorCode::Unauthorized));
    assert_eq!(s.decrement(TAG, b), Err(ErrorCode::Unauthorized));
    assert_eq!(s.get(TAG), Some(Counter { authority: a, count: 1, bump: 254 }));
}

#[test]
fn decrement_at_zero_is_underflow_and_count_is_kept() {
    let a = principal(1);
    let mut s = CounterStore::new();
    assert!(s.initialize(TAG, a, 254).is_ok());
    assert_eq!(s.decrement(TAG, a), Err(ErrorCode::Underflow));
    assert_eq!(s.get(TAG), Some(Counter { authority: a, count: 0, bump: 254 }));
}

#[test]
fn create_increment_decrement_scenario() {
    let a = principal(10);
    let b = principal(20);
    let mut s = CounterStore::new();
    let created = s.initialize(TAG, a, 253).unwrap();
    assert_eq!(created.count, 0);
    assert_eq!(s.increment(TAG, a).unwrap().count, 1);
    assert_eq!(s.increment(TAG, a).unwrap().count, 2);
    assert_eq!(s.decrement(TAG, b), Err(ErrorCode::Unauthorized));
    assert_eq!(s.get(TAG).unwrap().count, 2);
    assert_eq!(s.decrement(TAG, a).unwrap().count, 1);
    assert_eq!(s.decrement(TAG, a).unwrap().count, 0);
    assert_eq!(s.decrement(TAG, a), Err(ErrorCode::Underflow));
    assert_eq!(s.get(TAG).unwrap().count, 0);
}

#[test]
fn count_equals_increments_minus_decrements() {
    let a = principal(1);
    let mut s = CounterStore::new();
    assert!(s.initialize(TAG, a, 1).is_ok());
    let mut increments: u64 = 0;
    let mut decrements: u64 = 0;
    let script = [true, true, true, false, true, false, false, true, true];
    for &up in script.iter() {
        if up {
            assert!(s.increment(TAG, a).is_ok());
            increments += 1;
        } else {
            assert!(s.decrement(TAG, a).is_ok());
            decrements += 1;
        }
        assert_eq!(s.get(TAG).unwrap().count, increments - decrements);
    }
    assert_eq!(s.get(TAG).unwrap().count, 3);
}

#[test]
fn decrement_then_increment_restores_count() {
    let a = principal(1);
    let mut s = CounterStore::new();
    assert!(s.initialize(TAG, a, 0).is_ok());
    assert!(s.increment(TAG, a).is_ok());
    assert!(s.increment(TAG, a).is_ok());
    let before = s.get(TAG).unwrap();
    assert!(s.decrement(TAG, a).is_ok());
    assert!(s.increment(TAG, a).is_ok());
    assert_eq!(s.get(TAG), Some(before));
    assert!(s.increment(TAG, a).is_ok());
    assert!(s.decrement(TAG, a).is_ok());
    assert_eq!(s.get(TAG), Some(before));
}

#[test]
fn records_under_distinct_tags_are_independent() {
    let a = principal(1);
    let b = principal(2);
    let mut s = CounterStore::new();
    assert!(s.initialize(3, a, 11).is_ok());
    assert!(s.initialize(4, b, 12).is_ok());
    assert!(s.increment(3, a).is_ok());
    assert_eq!(s.increment(4, a), Err(ErrorCode::Unauthorized));
    assert_eq!(s.get(3), Some(Counter { authority: a, count: 1, bump: 11 }));
    assert_eq!(s.get(4), Some(Counter { authority: b, count: 0, bump: 12 }));
}

#[test]
fn get_on_empty_store_is_none() {
    let s = CounterStore::new();
    assert_eq!(s.get(TAG), None);
}
