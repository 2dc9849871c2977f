use slot_alloc::store::{fresh_store_name, PlanError, StorePlan, StoreState, NAME_LEN};

fn store(slot_size: usize, slots: usize, base: usize) -> StoreState {
    let plan = StorePlan::with_name(slot_size, slots, 4096, "shm0".to_string());
    StoreState::new(plan, 3, base)
}

#[test]
fn plan_rounds_slots_to_pages() {
    let p = StorePlan::new(16000, 20, 4096).expect("the OS gives randomness");
    assert_eq!(p.slot_size, 16384);
    assert_eq!(p.slots, 20);
    assert_eq!(p.total_mem, 20 * 16384);
    assert_eq!(p.file_name.len(), NAME_LEN);
    let p = StorePlan::with_name(8192, 2, 4096, "name".to_string());
    assert_eq!((p.slot_size, p.total_mem, p.file_name.as_str()), (8192, 16384, "name"));
    let p = StorePlan::with_name(0, 2, 4096, String::new());
    assert_eq!(p.slot_size, 0);
    assert_eq!(p.total_mem, 0);
    let p = StorePlan::with_name(4097, 1, 4096, String::new());
    assert_eq!(p.slot_size, 8192);
}

#[test]
fn try_plan_refuses_what_does_not_fit() {
    assert!(matches!(StorePlan::try_new(16000, 20, 0), Err(PlanError::TooLarge)));
    assert!(matches!(StorePlan::try_new(usize::MAX, 1, 4096), Err(PlanError::TooLarge)));
    assert!(matches!(StorePlan::try_new(4096, usize::MAX, 4096), Err(PlanError::TooLarge)));
    let p = match StorePlan::try_new(1, 3, 4096) {
        Ok(p) => p,
        Err(_) => panic!("fits, and the OS gives randomness"),
    };
    assert_eq!((p.slot_size, p.total_mem), (4096, 3 * 4096));
}

#[test]
fn store_names_are_alphanumeric() {
    let name = fresh_store_name().expect("the OS gives randomness");
    assert_eq!(name.chars().count(), NAME_LEN);
    assert!(name.chars().all(|c| c.is_ascii_alphanumeric()));
}

#[test]
fn new_store_has_every_slot_free() {
    let mut s = store(100, 3, 0x10000);
    assert_eq!(s.slot_size(), 4096);
    assert_eq!(s.slot_count(), 3);
    assert_eq!(s.shared_mem_fd(), 3);
    assert_eq!(s.file_name().as_str(), "shm0");
    assert_eq!(s.allocate(), Some(2));
    assert_eq!(s.allocate(), Some(1));
    assert_eq!(s.allocate(), Some(0));
    assert_eq!(s.allocate(), None);
}

#[test]
fn freed_slot_is_handed_out_next() {
    let mut s = store(4096, 4, 0);
    let a = s.allocate().unwrap();
    let b = s.allocate().unwrap();
    assert_eq!((a, b), (3, 2));
    assert!(s.can_free(a));
    s.free_slot(a);
    assert!(!s.can_free(a));
    assert!(!s.can_free(9));
    assert_eq!(s.allocate(), Some(a));
}

#[test]
fn clone_slot_takes_another_slot() {
    let mut s = store(4096, 2, 0);
    let a = s.allocate().unwrap();
    let c = s.clone_slot(a).unwrap();
    assert_ne!(a, c);
    assert_eq!(s.clone_slot(a), None);
}

#[test]
fn slots_lie_side_by_side() {
    let s = store(5000, 3, 0x100000);
    assert_eq!(s.slot_offset(0), 0);
    assert_eq!(s.slot_offset(2), 2 * 8192);
    assert_eq!(s.slot_offset(1), 8192);
    assert!(s.slot_offset(0) + s.slot_size() <= s.slot_offset(1));
}

#[test]
fn release_plan_lists_every_mapping() {
    let mut s = store(4096, 3, 0x7000);
    let slot = s.allocate().unwrap();
    s.record_mapping(0x9000);
    s.record_mapping(0xa000);
    assert_eq!(slot, 2);
    let plan = s.release_plan();
    assert_eq!(plan, vec![(0x7000, 2 * 4096), (0x9000, 4096), (0xa000, 4096)]);
}
