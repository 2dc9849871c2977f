use slot_alloc::in_global;
use slot_alloc::inner_alloc::InnerAlloc;
use slot_alloc::switch::{run_with_inner, set_inner, take_inner, Alloc, Grant};

fn next_of(a: &Alloc) -> Option<(usize, usize)> {
    match a {
        Alloc::System => None,
        Alloc::Inner(i) => Some(i.bounds()),
    }
}

#[test]
fn take_after_set_hands_back_the_allocator() {
    let mut cur = Alloc::System;
    set_inner(&mut cur, InnerAlloc::new(100, 10));
    let taken = take_inner(&mut cur).expect("an allocator was installed");
    assert_eq!(taken.bounds(), (100, 110));
    assert!(matches!(cur, Alloc::System));
    assert!(take_inner(&mut cur).is_none());
}

#[test]
fn system_serves_when_nothing_is_installed() {
    let mut cur = Alloc::System;
    assert!(matches!(cur.alloc_block(16, 8), Grant::System));
    assert!(cur.dealloc_to_system());
}

#[test]
fn installed_allocator_serves_then_runs_out() {
    let mut cur = Alloc::System;
    set_inner(&mut cur, InnerAlloc::new(64, 16));
    assert!(matches!(cur.alloc_block(8, 8), Grant::Block(64)));
    assert!(matches!(cur.alloc_block(1, 1), Grant::Block(72)));
    assert!(matches!(cur.alloc_block(8, 8), Grant::Exhausted));
    assert_eq!(next_of(&cur), Some((73, 80)));
    assert!(!cur.dealloc_to_system());
}

#[test]
fn in_global_restores_installed_allocator() {
    let mut cur = Alloc::System;
    set_inner(&mut cur, InnerAlloc::new(0x1000, 0x100));
    let r = in_global(&mut cur, |slot| {
        assert!(matches!(slot, Alloc::System));
        (7, slot)
    });
    assert_eq!(r, 7);
    assert_eq!(next_of(&cur), Some((0x1000, 0x1100)));
}

#[test]
fn in_global_keeps_what_f_installs_when_nothing_was_installed() {
    let mut cur = Alloc::System;
    let r = in_global(&mut cur, |_slot| ("done", Alloc::Inner(InnerAlloc::new(8, 8))));
    assert_eq!(r, "done");
    assert_eq!(next_of(&cur), Some((8, 16)));
}

#[test]
fn in_global_overrides_what_f_installs_when_one_was_installed() {
    let mut cur = Alloc::Inner(InnerAlloc::new(1, 1));
    in_global(&mut cur, |_slot| ((), Alloc::Inner(InnerAlloc::new(8, 8))));
    assert_eq!(next_of(&cur), Some((1, 2)));
}

#[test]
fn run_with_inner_hands_back_the_used_allocator() {
    let mut cur = Alloc::System;
    let (r, back) = run_with_inner(&mut cur, InnerAlloc::new(32, 32), |mut slot| {
        let g = slot.alloc_block(4, 4);
        (matches!(g, Grant::Block(32)), slot)
    });
    assert!(r);
    assert_eq!(back.expect("still installed").bounds(), (36, 64));
    assert!(matches!(cur, Alloc::System));
}

#[test]
fn take_after_serving_hands_back_the_advanced_allocator() {
    let mut cur = Alloc::System;
    set_inner(&mut cur, InnerAlloc::new(10, 30));
    assert!(matches!(cur.alloc_block(4, 4), Grant::Block(12)));
    assert!(matches!(cur.alloc_block(2, 8), Grant::Block(16)));
    assert!(matches!(cur.alloc_block(64, 1), Grant::Exhausted));
    let back = take_inner(&mut cur).expect("an allocator was installed");
    assert_eq!(back.bounds(), (18, 40));
}
