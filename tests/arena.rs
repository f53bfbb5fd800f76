use custom_allocators::{align_up, AllocError, Arena, Region};

fn region(start: usize, end: usize) -> Region {
    Region { start, end }
}

#[test]
fn align_up_rounds_to_multiples() {
    assert_eq!(align_up(0, 16), Some(0));
    assert_eq!(align_up(1, 16), Some(16));
    assert_eq!(align_up(16, 16), Some(16));
    assert_eq!(align_up(17, 8), Some(24));
    assert_eq!(align_up(36, 16), Some(48));
    assert_eq!(align_up(5, 1), Some(5));
    assert_eq!(align_up(6, 4), Some(8));
    assert_eq!(align_up(3, 2), Some(4));
}

#[test]
fn align_up_reports_overflow() {
    assert_eq!(align_up(usize::MAX, 16), None);
    assert_eq!(align_up(usize::MAX - 14, 16), None);
    assert_eq!(align_up(usize::MAX - 15, 16), Some(usize::MAX - 15));
    assert_eq!(align_up(usize::MAX, 1), Some(usize::MAX));
}

#[test]
fn example_scenario_rounds_each_start() {
    let mut arena = Arena::new(1024);
    assert_eq!(arena.allocate(10, 16), Ok(region(0, 10)));
    assert_eq!(arena.offset(), 10);
    assert_eq!(arena.allocate(20, 16), Ok(region(16, 36)));
    assert_eq!(arena.allocate(5, 16), Ok(region(48, 53)));
    assert_eq!(arena.offset(), 53);
    assert_eq!(arena.capacity(), 1024);
}

#[test]
fn request_ending_at_capacity_succeeds() {
    let mut arena = Arena::new(64);
    assert_eq!(arena.allocate(3, 1), Ok(region(0, 3)));
    assert_eq!(arena.allocate(60, 4), Ok(region(4, 64)));
    assert_eq!(arena.offset(), 64);
    assert_eq!(arena.allocate(0, 1), Ok(region(64, 64)));
    assert_eq!(arena.allocate(1, 1), Err(AllocError));
    assert_eq!(arena.offset(), 64);
}

#[test]
fn request_one_past_capacity_fails_and_keeps_offset() {
    let mut arena = Arena::new(64);
    assert_eq!(arena.allocate(3, 1), Ok(region(0, 3)));
    assert_eq!(arena.allocate(61, 4), Err(AllocError));
    assert_eq!(arena.offset(), 3);
    assert_eq!(arena.allocate(61, 1), Ok(region(3, 64)));
}

#[test]
fn huge_request_fails_without_wrapping() {
    let mut arena = Arena::new(1024);
    assert_eq!(arena.allocate(8, 8), Ok(region(0, 8)));
    assert_eq!(arena.allocate(usize::MAX, 16), Err(AllocError));
    assert_eq!(arena.allocate(usize::MAX - 8, 1), Err(AllocError));
    assert_eq!(arena.offset(), 8);
}

#[test]
fn starts_are_aligned() {
    let mut arena = Arena::new(4096);
    for align in [1usize, 2, 4, 8, 16] {
        for size in [0usize, 1, 3, 7, 13] {
            let r = arena.allocate(size, align).unwrap();
            assert_eq!(r.start % align, 0);
            assert_eq!(r.len(), size);
        }
    }
}

#[test]
fn granted_ranges_are_disjoint_and_offset_never_falls() {
    let mut arena = Arena::new(200);
    let requests = [(7usize, 4usize), (0, 16), (33, 8), (1, 1), (90, 16), (80, 2), (5, 2)];
    let mut granted: Vec<Region> = Vec::new();
    for (size, align) in requests {
        let before = arena.offset();
        let result = arena.allocate(size, align);
        let after = arena.offset();
        assert!(after >= before);
        match result {
            Ok(r) => {
                assert!(r.start >= before);
                assert_eq!(after, r.end);
                granted.push(r);
            }
            Err(AllocError) => assert_eq!(after, before),
        }
    }
    assert_eq!(granted.len(), 6);
    for i in 0..granted.len() {
        for j in (i + 1)..granted.len() {
            assert!(granted[i].end <= granted[j].start);
        }
    }
}

#[test]
fn serialised_uniform_requests_tile_the_buffer() {
    let threads: usize = 4;
    let per_thread: usize = 8;
    let size: usize = 16;
    let mut arena = Arena::new(1024);
    let mut granted: Vec<Region> = Vec::new();
    for _ in 0..per_thread {
        for _ in 0..threads {
            granted.push(arena.allocate(size, 16).unwrap());
        }
    }
    assert_eq!(granted.len(), threads * per_thread);
    for (k, r) in granted.iter().enumerate() {
        assert_eq!(*r, region(k * size, (k + 1) * size));
    }
    assert_eq!(arena.offset(), threads * per_thread * 16);
}

#[test]
fn deallocation_changes_nothing() {
    let mut arena = Arena::new(128);
    let r = arena.allocate(40, 8).unwrap();
    for _ in 0..5 {
        arena.deallocate(r);
        arena.deallocate(region(1000, 3));
        arena.dealloc_at(12345, 40, 8);
        arena.dealloc_at(0, 0, 1);
    }
    assert_eq!(arena.offset(), 40);
    assert_eq!(arena.allocate(8, 8), Ok(region(40, 48)));
}

#[test]
fn reset_frees_the_whole_buffer() {
    let mut arena = Arena::new(32);
    assert!(arena.allocate(30, 2).is_ok());
    assert_eq!(arena.allocate(4, 1), Err(AllocError));
    arena.reset();
    assert_eq!(arena.offset(), 0);
    assert_eq!(arena.allocate(32, 16), Ok(region(0, 32)));
}

#[test]
fn alloc_at_returns_addresses_or_null() {
    let base: usize = 0x1000;
    let mut arena = Arena::new(64);
    assert_eq!(arena.alloc_at(base, 10, 16), base);
    assert_eq!(arena.alloc_at(base, 20, 16), base + 16);
    assert_eq!(arena.alloc_at(base, 8, 8), base + 40);
    assert_eq!(arena.offset(), 48);
    assert_eq!(arena.alloc_at(base, 17, 1), 0);
    assert_eq!(arena.offset(), 48);
    let addr = arena.alloc_at(base, 1, 16);
    assert_eq!(addr, base + 48);
    assert_eq!(addr % 16, 0);
}
