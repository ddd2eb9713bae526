use course_counter::constants::counter_seed;
use course_counter::error::CourseError;
use course_counter::instructions::{Increment, Initialize};
use course_counter::pubkey::Pubkey;
use course_counter::state::{Counter, RECORD_SPACE};
use course_counter::store::CounterStore;
use course_counter::{increment, initialize};

fn key(byte: u8) -> Pubkey {
    Pubkey::new(vec![byte; 32]).unwrap()
}

fn fresh_store() -> CounterStore {
    CounterStore::new(counter_seed())
}

#[test]
fn derive_address_is_deterministic() {
    let store = fresh_store();
    let owner = key(5);
    let (a1, b1) = store.derive_record_address(&owner);
    let (a2, b2) = store.derive_record_address(&owner);
    assert_eq!(a1.to_vec(), a2.to_vec());
    assert_eq!(b1, b2);
}

#[test]
fn derived_address_leaves_identity_space() {
    let store = fresh_store();
    for byte in [0u8, 1, 7, 128, 255] {
        let (addr, _) = store.derive_record_address(&key(byte));
        assert_eq!(addr.to_vec().len(), 32);
        assert_eq!(addr.byte_at(31) & 1, 1);
    }
}

#[test]
fn derive_exact_value_zero_owner() {
    let store = CounterStore::new(vec![1, 2, 3]);
    let (addr, bump) = store.derive_record_address(&key(0));
    assert_eq!(bump, 255);
    assert_eq!(addr.to_vec(), vec![255u8; 32]);
}

#[test]
fn derive_exact_value_counter_tag() {
    // the tag b"counter" folds to 116; 5 ^ 116 ^ 254 == 143
    let store = fresh_store();
    let (addr, bump) = store.derive_record_address(&key(5));
    assert_eq!(bump, 254);
    assert_eq!(addr.to_vec(), vec![143u8; 32]);
}

#[test]
fn create_fresh_then_read() {
    let mut store = fresh_store();
    let owner = key(9);
    let (_, bump) = store.derive_record_address(&owner);
    let addr = store.create(&owner).unwrap();
    let rec = store.get(&addr).unwrap();
    assert_eq!(rec.count, 0);
    assert!(rec.authority.equals(&owner));
    assert_eq!(rec.bump, bump);
}

#[test]
fn create_twice_fails() {
    let mut store = fresh_store();
    let owner = key(9);
    let addr = store.create(&owner).unwrap();
    store.increment(&addr, &owner).unwrap();
    let second = store.create(&owner);
    assert_eq!(second.unwrap_err(), CourseError::AlreadyInitialized);
    let rec = store.get(&addr).unwrap();
    assert_eq!(rec.count, 1);
    assert!(rec.authority.equals(&owner));
}

#[test]
fn increment_by_owner_steps_by_one() {
    let mut store = fresh_store();
    let owner = key(3);
    let addr = store.create(&owner).unwrap();
    for expected in 1..=5u64 {
        assert_eq!(store.increment(&addr, &owner).unwrap(), expected);
    }
    let rec = store.get(&addr).unwrap();
    assert_eq!(rec.count, 5);
    assert!(rec.authority.equals(&owner));
}

#[test]
fn increment_by_non_owner_is_unauthorized() {
    let mut store = fresh_store();
    let owner = key(3);
    let intruder = key(4);
    let addr = store.create(&owner).unwrap();
    store.increment(&addr, &owner).unwrap();
    let refused = store.increment(&addr, &intruder);
    assert_eq!(refused.unwrap_err(), CourseError::Unauthorized);
    assert_eq!(store.get(&addr).unwrap().count, 1);
}

#[test]
fn increment_at_max_overflows() {
    let owner = key(8);
    let mut rec = Counter { authority: key(8), count: u64::MAX, bump: 0 };
    let refused = rec.increment(&owner);
    assert_eq!(refused.unwrap_err(), CourseError::Overflow);
    assert_eq!(rec.count, u64::MAX);
    assert!(rec.authority.equals(&owner));
}

#[test]
fn authorization_is_checked_before_overflow() {
    let intruder = key(1);
    let mut rec = Counter { authority: key(8), count: u64::MAX, bump: 0 };
    let refused = rec.increment(&intruder);
    assert_eq!(refused.unwrap_err(), CourseError::Unauthorized);
    assert_eq!(rec.count, u64::MAX);
}

#[test]
fn lifecycle_scenario() {
    let mut store = fresh_store();
    let a = key(10);
    let b = key(11);
    let a1 = store.create(&a).unwrap();
    assert_eq!(store.get(&a1).unwrap().count, 0);
    assert_eq!(store.increment(&a1, &a).unwrap(), 1);
    assert_eq!(store.increment(&a1, &b).unwrap_err(), CourseError::Unauthorized);
    assert_eq!(store.get(&a1).unwrap().count, 1);
    assert_eq!(store.increment(&a1, &a).unwrap(), 2);
    assert!(store.get(&a1).unwrap().authority.equals(&a));
}

#[test]
fn entry_points_mirror_store_operations() {
    let mut store = fresh_store();
    let owner = key(21);
    let addr = initialize(&mut store, &Initialize { authority: owner.duplicate() }).unwrap();
    let ctx = Increment { counter: addr.duplicate(), authority: owner.duplicate() };
    assert_eq!(increment(&mut store, &ctx).unwrap(), 1);
    assert_eq!(increment(&mut store, &ctx).unwrap(), 2);
    let again = initialize(&mut store, &Initialize { authority: owner });
    assert_eq!(again.unwrap_err(), CourseError::AlreadyInitialized);
    assert_eq!(store.get(&addr).unwrap().count, 2);
}

#[test]
fn distinct_owners_get_independent_records() {
    let mut store = fresh_store();
    let a = key(1);
    let b = key(2);
    let addr_a = store.create(&a).unwrap();
    let addr_b = store.create(&b).unwrap();
    assert_ne!(addr_a.to_vec(), addr_b.to_vec());
    store.increment(&addr_a, &a).unwrap();
    assert_eq!(store.get(&addr_a).unwrap().count, 1);
    assert_eq!(store.get(&addr_b).unwrap().count, 0);
}

#[test]
fn pubkey_rejects_wrong_width() {
    assert!(Pubkey::new(vec![0u8; 31]).is_none());
    assert!(Pubkey::new(vec![0u8; 33]).is_none());
    assert!(Pubkey::new(Vec::new()).is_none());
    assert!(Pubkey::new(vec![0u8; 32]).is_some());
}

#[test]
fn empty_namespace_tag_still_works() {
    let mut store = CounterStore::new(Vec::new());
    let owner = key(6);
    let addr = store.create(&owner).unwrap();
    assert_eq!(addr.byte_at(31) & 1, 1);
    assert_eq!(store.increment(&addr, &owner).unwrap(), 1);
}

#[test]
fn record_space_counts_framing_and_fields() {
    assert_eq!(RECORD_SPACE, 49);
}

#[test]
fn counter_seed_is_the_counter_tag() {
    assert_eq!(counter_seed(), b"counter".to_vec());
}
