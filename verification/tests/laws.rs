use rusty_heap_alloc::chunk::ChunkHandle;
use rusty_heap_alloc::error::{HeapError, HeapResult};
use rusty_heap_alloc::Heap;

fn snapshot(heap: &Heap) -> Vec<(usize, usize, bool, u64)> {
    let mut out = Vec::new();
    let mut i = 0;
    while let Some(c) = heap.chunk(i) {
        out.push((c.addr(), c.size(), c.in_use(), c.generation()));
        i += 1;
    }
    out
}

fn check_invariants(heap: &Heap) {
    let chain = snapshot(heap);
    assert_eq!(heap.chunk_count(), chain.len());
    let total: usize = chain.iter().map(|c| c.1).sum();
    let free: usize = chain.iter().filter(|c| !c.2).map(|c| c.1).sum();
    let used: usize = chain.iter().filter(|c| c.2).map(|c| c.1).sum();
    assert_eq!(heap.total_space(), total);
    assert_eq!(heap.free_space(), free);
    assert_eq!(heap.free_space() + used, heap.total_space());
    let mut next = 0;
    for c in &chain {
        assert_eq!(c.0, next);
        assert!(c.1 > 0);
        next += c.1;
    }
}

fn has_free_neighbours(heap: &Heap) -> bool {
    let chain = snapshot(heap);
    chain.windows(2).any(|w| !w[0].2 && !w[1].2)
}

#[test]
fn accounting_holds_through_a_run_of_operations() {
    let mut heap = Heap::init(Some(1000)).unwrap();
    check_invariants(&heap);
    let mut held: Vec<ChunkHandle> = Vec::new();
    let sizes = [7usize, 100, 1, 250, 33, 99, 100, 5, 400, 64];
    for (step, size) in sizes.iter().enumerate() {
        if let HeapResult::Success(h) = heap.allocate(*size) {
            held.push(h);
        }
        check_invariants(&heap);
        if step % 3 == 2 {
            let h = held.remove(0);
            assert_eq!(heap.free(h), HeapResult::Success(()));
            check_invariants(&heap);
        }
    }
    assert_eq!(heap.coalesce(), HeapResult::Success(()));
    check_invariants(&heap);
    for h in held {
        assert_eq!(heap.free(h), HeapResult::Success(()));
        check_invariants(&heap);
    }
    assert_eq!(heap.free_space(), 1000);
    assert_eq!(heap.total_space(), 1000);
}

#[test]
fn fresh_heap_has_free_neighbours_and_coalesce_removes_them() {
    let mut heap = Heap::init(Some(100)).unwrap();
    assert!(has_free_neighbours(&heap));
    heap.coalesce().unwrap();
    assert!(!has_free_neighbours(&heap));
}

#[test]
fn merged_chain_stays_without_free_neighbours() {
    let mut heap = Heap::init(Some(200)).unwrap();
    heap.coalesce().unwrap();
    let a = heap.allocate(20).unwrap();
    assert!(!has_free_neighbours(&heap));
    let b = heap.allocate(30).unwrap();
    let c = heap.calloc(5, 8).unwrap();
    let d = heap.allocate(50).unwrap();
    assert!(!has_free_neighbours(&heap));
    heap.free(b).unwrap();
    assert!(!has_free_neighbours(&heap));
    heap.free(d).unwrap();
    assert!(!has_free_neighbours(&heap));
    heap.write(a, 0, 1).unwrap();
    heap.free(c).unwrap();
    assert!(!has_free_neighbours(&heap));
    assert_eq!(snapshot(&heap), vec![(0, 20, true, 0), (20, 180, false, 0)]);
    assert_eq!(
        heap.allocate(181),
        HeapResult::Failure(HeapError::MemoryOverflow(181, 180))
    );
    assert!(!has_free_neighbours(&heap));
    heap.free(a).unwrap();
    assert_eq!(snapshot(&heap), vec![(0, 200, false, 0)]);
}

#[test]
fn alloc_then_free_restores_a_merged_chain() {
    let mut heap = Heap::init(Some(100)).unwrap();
    let keep = heap.allocate(30).unwrap();
    assert_eq!(keep.addr, 0);
    let before = snapshot(&heap);
    assert_eq!(before, vec![(0, 30, true, 0), (30, 70, false, 0)]);
    let free = heap.free_space();
    let h = heap.allocate(25).unwrap();
    assert_eq!(heap.free_space(), free - 25);
    assert_eq!(heap.free(h), HeapResult::Success(()));
    assert_eq!(heap.free_space(), free);
    assert_eq!(snapshot(&heap), before);
    // an exact fit goes back the same way
    let h = heap.allocate(70).unwrap();
    assert_eq!(heap.free(h), HeapResult::Success(()));
    assert_eq!(snapshot(&heap), before);
}

#[test]
fn alloc_then_free_restores_free_space_of_any_chain() {
    let mut heap = Heap::init(Some(100)).unwrap();
    let h = heap.allocate(25).unwrap();
    assert_eq!(heap.free_space(), 75);
    assert_eq!(heap.free(h), HeapResult::Success(()));
    assert_eq!(heap.free_space(), 100);
    assert_eq!(snapshot(&heap), vec![(0, 100, false, 0)]);
}

#[test]
fn coalesce_twice_changes_nothing_more() {
    let mut heap = Heap::init(Some(100)).unwrap();
    let a = heap.allocate(10).unwrap();
    let _b = heap.allocate(10).unwrap();
    heap.free(a).unwrap();
    heap.coalesce().unwrap();
    let once = snapshot(&heap);
    let count = heap.chunk_count();
    assert_eq!(once, vec![(0, 10, false, 0), (10, 10, true, 1), (20, 80, false, 0)]);
    assert_eq!(heap.coalesce(), HeapResult::Success(()));
    assert_eq!(snapshot(&heap), once);
    assert_eq!(heap.chunk_count(), count);
}

#[test]
fn freed_handle_is_stale_at_once() {
    let mut heap = Heap::init(Some(100)).unwrap();
    let h = heap.allocate(12).unwrap();
    assert_eq!(heap.read(h, 0), HeapResult::Success(0));
    heap.free(h).unwrap();
    assert_eq!(
        heap.read(h, 0),
        HeapResult::Failure(HeapError::InvalidInputError(h.addr, "read"))
    );
    assert_eq!(
        heap.free(h),
        HeapResult::Failure(HeapError::InvalidInputError(h.addr, "free"))
    );
}

#[test]
fn bytes_stay_at_their_addresses() {
    let mut heap = Heap::init(Some(100)).unwrap();
    let all = heap.allocate(100).unwrap();
    for i in 0..100 {
        heap.write(all, i, i as u8).unwrap();
    }
    heap.free(all).unwrap();
    let a = heap.allocate(30).unwrap();
    let b = heap.allocate(30).unwrap();
    let c = heap.allocate(40).unwrap();
    heap.free(b).unwrap();
    let d = heap.allocate(10).unwrap();
    heap.coalesce().unwrap();
    let e = heap.allocate(20).unwrap();
    assert_eq!((a.addr, c.addr, d.addr, e.addr), (0, 60, 30, 40));
    for (handle, size) in [(a, 30), (c, 40), (d, 10), (e, 20)] {
        for offset in 0..size {
            assert_eq!(
                heap.read(handle, offset),
                HeapResult::Success((handle.addr + offset) as u8)
            );
        }
    }
    heap.write(d, 3, 200).unwrap();
    heap.free(d).unwrap();
    heap.free(e).unwrap();
    let f = heap.allocate(30).unwrap();
    assert_eq!(f.addr, 30);
    assert_eq!(heap.read(f, 3), HeapResult::Success(200));
    assert_eq!(heap.read(f, 4), HeapResult::Success(34));
}
