use rusty_heap_alloc::chunk::{Chunk, Layout};
use rusty_heap_alloc::error::{HeapError, HeapResult};
use rusty_heap_alloc::storage::{filled, release, request};
use rusty_heap_alloc::Heap;

#[test]
fn chunk_new_is_free_unlinked_and_zero() {
    let c = Chunk::new(16, None).unwrap();
    assert_eq!(c.size(), 16);
    assert!(!c.in_use());
    assert_eq!(c.addr(), 0);
    assert_eq!(c.generation(), 0);
    assert_eq!(c.get_layout(), Layout { size: 16, align: 1 });
    c.free();
}

#[test]
fn chunk_new_keeps_the_callers_layout() {
    let layout = Layout::from_size_align(64, 16).unwrap();
    let c = Chunk::new(64, Some(layout)).unwrap();
    assert_eq!(c.size(), 64);
    assert_eq!(c.get_layout(), Layout { size: 64, align: 16 });
}

#[test]
fn chunk_new_of_zero_bytes_is_invalid_input() {
    assert!(matches!(
        Chunk::new(0, None),
        HeapResult::Failure(HeapError::InvalidInputError(0, "new"))
    ));
    assert!(matches!(
        Chunk::new(0, Some(Layout { size: 0, align: 1 })),
        HeapResult::Failure(HeapError::InvalidInputError(0, "new"))
    ));
}

#[test]
fn chunk_new_with_bad_layout_is_layout_error() {
    assert!(matches!(
        Chunk::new(8, Some(Layout { size: 8, align: 3 })),
        HeapResult::Failure(HeapError::ChunkLayoutError)
    ));
    assert!(matches!(
        Chunk::new(8, Some(Layout { size: 8, align: 0 })),
        HeapResult::Failure(HeapError::ChunkLayoutError)
    ));
    assert!(matches!(
        Chunk::new(8, Some(Layout { size: 16, align: 1 })),
        HeapResult::Failure(HeapError::ChunkLayoutError)
    ));
    assert!(matches!(
        Chunk::new(usize::MAX, None),
        HeapResult::Failure(HeapError::ChunkLayoutError)
    ));
}

#[test]
fn chunk_new_that_the_allocator_cannot_serve_is_init_error() {
    assert!(matches!(
        Chunk::new(isize::MAX as usize, None),
        HeapResult::Failure(HeapError::ChunkInitError)
    ));
}

#[test]
fn chunk_from_block_without_block_is_init_error() {
    assert!(matches!(
        Chunk::from_block(16, None, None),
        HeapResult::Failure(HeapError::ChunkInitError)
    ));
}

#[test]
fn chunk_from_block_of_wrong_length_is_init_error() {
    assert!(matches!(
        Chunk::from_block(16, None, Some(vec![0u8; 15])),
        HeapResult::Failure(HeapError::ChunkInitError)
    ));
}

#[test]
fn chunk_from_block_checks_size_and_layout_first() {
    assert!(matches!(
        Chunk::from_block(0, None, None),
        HeapResult::Failure(HeapError::InvalidInputError(0, "new"))
    ));
    assert!(matches!(
        Chunk::from_block(8, Some(Layout { size: 8, align: 6 }), None),
        HeapResult::Failure(HeapError::ChunkLayoutError)
    ));
}

#[test]
fn chunk_from_block_takes_the_block_as_it_is() {
    let block: Vec<u8> = (1..=12).collect();
    let c = Chunk::from_block(12, None, Some(block)).unwrap();
    assert_eq!(c.size(), 12);
    assert!(!c.in_use());
    let mut heap = Heap::from_pool(c).unwrap();
    assert_eq!(heap.chunk_count(), 10);
    assert_eq!(heap.total_space(), 12);
    // nine chunks of one byte, and the last takes the remaining three
    let last = heap.chunk(9).unwrap();
    assert_eq!((last.addr(), last.size()), (9, 3));
    let h = heap.allocate(3).unwrap();
    assert_eq!(h.addr, 9);
    assert_eq!(heap.read(h, 0), HeapResult::Success(10));
    assert_eq!(heap.read(h, 2), HeapResult::Success(12));
}

#[test]
fn from_pool_refuses_small_and_aligned_pools() {
    let small = Chunk::new(9, None).unwrap();
    assert!(matches!(
        Heap::from_pool(small),
        HeapResult::Failure(HeapError::MemoryUnderflow(10))
    ));
    let aligned = Chunk::new(64, Some(Layout { size: 64, align: 8 })).unwrap();
    assert!(matches!(
        Heap::from_pool(aligned),
        HeapResult::Failure(HeapError::ChunkLayoutError)
    ));
}

#[test]
fn layout_from_size_align_accepts_powers_of_two() {
    assert_eq!(
        Layout::from_size_align(10, 1),
        HeapResult::Success(Layout { size: 10, align: 1 })
    );
    assert_eq!(
        Layout::from_size_align(0, 4096),
        HeapResult::Success(Layout { size: 0, align: 4096 })
    );
    assert_eq!(
        Layout::from_size_align(isize::MAX as usize, 1),
        HeapResult::Success(Layout { size: isize::MAX as usize, align: 1 })
    );
    assert!(Layout { size: 24, align: 8 }.is_valid());
}

#[test]
fn layout_from_size_align_refuses_the_rest() {
    let refused = HeapResult::Failure(HeapError::ChunkLayoutError);
    assert_eq!(Layout::from_size_align(10, 0), refused);
    assert_eq!(Layout::from_size_align(10, 3), refused);
    assert_eq!(Layout::from_size_align(10, 12), refused);
    assert_eq!(Layout::from_size_align(isize::MAX as usize + 1, 1), refused);
    assert_eq!(Layout::from_size_align(isize::MAX as usize, 2), refused);
    assert_eq!(Layout::from_size_align(isize::MAX as usize - 6, 8), refused);
    assert!(Layout::from_size_align(isize::MAX as usize - 7, 8).is_success());
    assert!(!Layout { size: 1, align: usize::MAX }.is_valid());
}

#[test]
fn storage_request_gives_zeroed_block() {
    let layout = Layout { size: 33, align: 1 };
    let block = request(layout).unwrap();
    assert_eq!(block, vec![0u8; 33]);
    release(block, layout);
}

#[test]
fn storage_request_for_no_bytes_is_always_served() {
    assert_eq!(request(Layout { size: 0, align: 1 }), Some(Vec::new()));
    assert_eq!(request(Layout { size: 0, align: 64 }), Some(Vec::new()));
}

#[test]
fn storage_request_beyond_isize_max_is_never_served() {
    assert_eq!(request(Layout { size: usize::MAX, align: 1 }), None);
    assert_eq!(request(Layout { size: isize::MAX as usize + 1, align: 1 }), None);
}

#[test]
fn storage_request_that_the_allocator_cannot_serve_gives_none() {
    assert_eq!(request(Layout { size: isize::MAX as usize, align: 1 }), None);
}

#[test]
fn filled_makes_no_block_without_room() {
    assert_eq!(filled(None, 0), None);
    assert_eq!(filled(None, 16), None);
}

#[test]
fn filled_gives_zero_bytes_whatever_the_room_held() {
    assert_eq!(filled(Some(Vec::with_capacity(8)), 8), Some(vec![0u8; 8]));
    assert_eq!(filled(Some(Vec::new()), 5), Some(vec![0u8; 5]));
    assert_eq!(filled(Some(vec![7u8; 12]), 5), Some(vec![0u8; 5]));
    assert_eq!(filled(Some(vec![7u8; 3]), 5), Some(vec![0u8; 5]));
    assert_eq!(filled(Some(vec![7u8; 3]), 0), Some(Vec::new()));
}

#[test]
fn unwrap_gives_the_value_of_a_success() {
    let r: HeapResult<u32> = HeapResult::Success(7);
    assert!(r.is_success());
    assert_eq!(r.unwrap(), 7);
    let f: HeapResult<u32> = HeapResult::Failure(HeapError::CoalesceError);
    assert!(!f.is_success());
}
