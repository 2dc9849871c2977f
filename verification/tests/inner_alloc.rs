use slot_alloc::inner_alloc::InnerAlloc;
use std::alloc::Layout;

#[test]
fn allocs_in_buffer() {
    let mut buf = [0u8; 1024];
    println!("&buf: {:p}", buf.as_ptr());
    let start = buf.as_ptr() as usize;
    let mut alloc = InnerAlloc::new_with_buf(&mut buf);

    let l = Layout::new::<u8>();
    let p = alloc.alloc_block(l.size(), l.align());
    assert_eq!(p, start);

    let l = Layout::new::<u8>();
    let p = alloc.alloc_block(l.size(), l.align());
    assert_eq!(p, start + 1);

    let l = Layout::new::<String>();
    let p = alloc.alloc_block(l.size(), l.align());
    assert!(p > start + 1);
    assert!(p % std::mem::align_of::<String>() == 0);
}

#[test]
fn boundary_allocs() {
    let mut buf = [0u8; 100];
    let mut alloc = InnerAlloc::new_with_buf(&mut buf);
    for _ in 0..100 {
        let l = Layout::new::<u8>();
        alloc.alloc_block(l.size(), l.align());
    }
}

#[should_panic]
#[test]
fn too_many_allocs() {
    let mut buf = [0u8; 100];
    let mut alloc = InnerAlloc::new_with_buf(&mut buf);
    for _ in 0..101 {
        let l = Layout::new::<u8>();
        alloc
            .try_alloc_block(l.size(), l.align())
            .expect("the buffer is exhausted");
    }
}

#[test]
fn new_covers_range() {
    let a = InnerAlloc::new(4096, 100);
    assert_eq!(a.bounds(), (4096, 4196));
}

#[test]
fn new_with_buf_covers_buffer() {
    let mut buf = [0u8; 64];
    let start = buf.as_ptr() as usize;
    let a = InnerAlloc::new_with_buf(&mut buf);
    assert_eq!(a.bounds(), (start, start + 64));
}

#[test]
fn blocks_are_aligned_up() {
    let mut a = InnerAlloc::new(1001, 100);
    assert_eq!(a.alloc_block(3, 8), 1008);
    assert_eq!(a.bounds(), (1011, 1101));
    assert_eq!(a.alloc_block(1, 1), 1011);
    assert_eq!(a.alloc_block(4, 4), 1012);
    assert_eq!(a.alloc_block(0, 16), 1024);
    assert_eq!(a.bounds(), (1024, 1101));
}

#[test]
fn successive_blocks_do_not_overlap() {
    let mut a = InnerAlloc::new(3, 200);
    let p1 = a.alloc_block(10, 4);
    let p2 = a.alloc_block(7, 32);
    assert_eq!(p1, 4);
    assert!(p1 + 10 <= p2);
    assert_eq!(p2, 32);
    assert!(p2 + 7 <= 203);
}

#[test]
fn unit_blocks_fill_range_exactly() {
    let mut a = InnerAlloc::new(50, 3);
    assert_eq!(a.try_alloc_block(1, 1), Some(50));
    assert_eq!(a.try_alloc_block(1, 1), Some(51));
    assert_eq!(a.try_alloc_block(1, 1), Some(52));
    assert_eq!(a.try_alloc_block(1, 1), None);
    assert_eq!(a.bounds(), (53, 53));
}

#[test]
fn try_alloc_refuses_when_alignment_overruns() {
    let mut a = InnerAlloc::new(1, 10);
    assert_eq!(a.try_alloc_block(4, 8), None);
    assert_eq!(a.bounds(), (1, 11));
    assert_eq!(a.try_alloc_block(3, 8), Some(8));
    assert_eq!(a.bounds(), (11, 11));
}

#[test]
fn try_alloc_refuses_on_address_overflow() {
    let mut a = InnerAlloc::new(usize::MAX - 2, 2);
    assert_eq!(a.try_alloc_block(1, 8), None);
    assert_eq!(a.try_alloc_block(usize::MAX, 1), None);
    assert_eq!(a.bounds(), (usize::MAX - 2, usize::MAX));
}

#[test]
fn a_run_of_mixed_requests_is_ordered_and_disjoint() {
    let mut a = InnerAlloc::new(5, 100);
    let reqs = [(3usize, 1usize), (8, 8), (1, 2), (16, 16), (0, 4), (7, 1)];
    let mut prev_end = 5;
    for (size, align) in reqs {
        let p = a.alloc_block(size, align);
        assert_eq!(p % align, 0);
        assert!(prev_end <= p);
        prev_end = p + size;
        assert_eq!(a.bounds(), (prev_end, 105));
    }
    assert_eq!(prev_end, 55);
}
