//! A heap manager over a fixed pool of memory: the pool is cut into chunks
//! that are handed out first-fit, split where they are larger than asked
//! for, and merged with their free neighbours when they come back.

use vstd::prelude::*;

pub mod chain;
pub mod chunk;
pub mod error;
pub mod laws;
pub mod lemmas;
pub mod storage;
pub mod table;

use crate::chain::{
    alloc_chain, alloc_handle, alloc_index, both_free, can_alloc, chain_wf, coalesced,
    coalesced_from, fits, free_bytes, granule, has_fit, index_of, is_first_fit, is_live, live_at,
    merge_at, merged_around, no_adjacent_free, partitioned, piece, placed, released, total_bytes,
    used_bytes, written, zero_filled,
};
use crate::chunk::{Chunk, ChunkHandle, ChunkView};
use crate::error::{HeapError, HeapResult};
use crate::laws::{lemma_coalesced, lemma_free_and_used_make_total, lemma_released_stale};
use crate::lemmas::{
    lemma_chunk_end, lemma_first_fit, lemma_freed, lemma_len_bound, lemma_live_unique,
    lemma_merge_at, lemma_partitioned, lemma_placed, lemma_prefix_bound, lemma_released,
    lemma_rewritten,
};
use crate::storage::zeros;

verus! {

/// The capacity of a heap that is made without naming one.
pub const DEFAULT_CAPACITY: usize = 100;

/// The least capacity that a heap can have.
pub const MIN_CAPACITY: usize = 10;

/// The number of chunks that a new heap is cut into.
pub const INITIAL_GRANULARITY_DIVISOR: usize = 10;

/// A pool of memory as a chain of chunks in address order, with its
/// accounting.
#[derive(Debug)]
pub struct Heap {
    chunks: Vec<Chunk>,
    chunk_count: usize,
    total_space: usize,
    free_space: usize,
    next_generation: u64,
}

/// The chunks of a vector as contracts see them.
spec fn views(chunks: Seq<Chunk>) -> Seq<ChunkView> {
    chunks.map_values(|c: Chunk| c@)
}

impl View for Heap {
    type V = Seq<ChunkView>;

    /// The chain: the heap's chunks in address order.
    closed spec fn view(&self) -> Seq<ChunkView> {
        views(self.chunks@)
    }
}

impl Heap {
    /// What `chunk_count` returns.
    pub closed spec fn spec_chunk_count(&self) -> usize {
        self.chunk_count
    }

    /// What `total_space` returns.
    pub closed spec fn spec_total_space(&self) -> usize {
        self.total_space
    }

    /// What `free_space` returns.
    pub closed spec fn spec_free_space(&self) -> usize {
        self.free_space
    }

    /// What `next_generation` returns.
    pub closed spec fn spec_next_generation(&self) -> u64 {
        self.next_generation
    }

    /// The number of chunks in the chain.
    #[verifier::when_used_as_spec(spec_chunk_count)]
    pub fn chunk_count(&self) -> (n: usize)
        ensures
            n == self.spec_chunk_count(),
    {
        self.chunk_count
    }

    /// The number of bytes in the pool.
    #[verifier::when_used_as_spec(spec_total_space)]
    pub fn total_space(&self) -> (n: usize)
        ensures
            n == self.spec_total_space(),
    {
        self.total_space
    }

    /// The number of bytes that are free.
    #[verifier::when_used_as_spec(spec_free_space)]
    pub fn free_space(&self) -> (n: usize)
        ensures
            n == self.spec_free_space(),
    {
        self.free_space
    }

    /// The stamp that the next allocation gets.
    #[verifier::when_used_as_spec(spec_next_generation)]
    pub fn next_generation(&self) -> (g: u64)
        ensures
            g == self.spec_next_generation(),
    {
        self.next_generation
    }

    /// The heap's invariant: the chain is well formed, and the accounting
    /// says what the chain holds.
    pub open spec fn wf(&self) -> bool {
        &&& chain_wf(self@)
        &&& self.chunk_count() == self@.len()
        &&& self.total_space() == total_bytes(self@)
        &&& self.free_space() == free_bytes(self@)
    }

    /// The capacity that `init` makes a heap of.
    pub open spec fn capacity_of(space: Option<usize>) -> usize {
        match space {
            Some(capacity) => capacity,
            None => DEFAULT_CAPACITY,
        }
    }

    /// Cuts a pool, a free and unlinked chunk as `Chunk::new` returns it,
    /// into the chain of a new heap.
    ///
    /// A pool of less than `MIN_CAPACITY` bytes is refused with
    /// `MemoryUnderflow`, one that is not byte-aligned with
    /// `ChunkLayoutError`.
    pub fn from_pool(pool: Chunk) -> (r: HeapResult<Heap>)
        requires
            pool.wf(),
            !pool@.in_use,
            pool@.addr == 0,
        ensures
            pool@.size() < MIN_CAPACITY ==> r == HeapResult::<Heap>::Failure(
                HeapError::MemoryUnderflow(MIN_CAPACITY),
            ),
            pool@.size() >= MIN_CAPACITY && pool@.align != 1 ==> r == HeapResult::<Heap>::Failure(
                HeapError::ChunkLayoutError,
            ),
            pool@.size() >= MIN_CAPACITY && pool@.align == 1 ==> (r matches HeapResult::Success(h)
                && h.wf() && h@ == partitioned(pool@.bytes) && h.next_generation() == 0
                && h.chunk_count() == INITIAL_GRANULARITY_DIVISOR && h.total_space()
                == pool@.size() && h.free_space() == pool@.size()),
    {
        let capacity = pool.size();
        if capacity < MIN_CAPACITY {
            return HeapResult::Failure(HeapError::MemoryUnderflow(MIN_CAPACITY));
        }
        if pool.get_layout().align != 1 {
            return HeapResult::Failure(HeapError::ChunkLayoutError);
        }
        let granule = capacity / INITIAL_GRANULARITY_DIVISOR;
        let ghost bytes = pool@.bytes;
        let mut chunks: Vec<Chunk> = Vec::new();
        let mut rest = pool;
        let mut i: usize = 0;
        let mut offset: usize = 0;
        assert(rest@.bytes =~= bytes.subrange(0, capacity as int));
        while i + 1 < INITIAL_GRANULARITY_DIVISOR
            invariant
                i < INITIAL_GRANULARITY_DIVISOR,
                offset == i * granule,
                granule == capacity / INITIAL_GRANULARITY_DIVISOR,
                capacity == bytes.len(),
                MIN_CAPACITY <= capacity <= isize::MAX,
                chunks@.len() == i,
                forall|k: int| 0 <= k < i ==> (#[trigger] chunks@[k])@ == piece(bytes, k),
                rest@ == (ChunkView {
                    addr: offset as nat,
                    in_use: false,
                    generation: 0,
                    align: 1,
                    bytes: bytes.subrange(offset as int, capacity as int),
                }),
            decreases INITIAL_GRANULARITY_DIVISOR - i,
        {
            proof {
                assert(i * granule + granule == (i + 1) * granule && (i + 1) * granule + granule
                    <= INITIAL_GRANULARITY_DIVISOR * granule) by (nonlinear_arith)
                    requires
                        i + 1 < INITIAL_GRANULARITY_DIVISOR,
                        granule >= 0,
                ;
            }
            let tail = rest.cut(granule);
            assert(rest@.bytes =~= piece(bytes, i as int).bytes);
            assert(tail@.bytes =~= bytes.subrange(offset + granule, capacity as int));
            chunks.push(rest);
            rest = tail;
            i += 1;
            offset += granule;
        }
        assert(rest@.bytes =~= piece(bytes, i as int).bytes);
        chunks.push(rest);
        proof {
            assert(views(chunks@) =~= partitioned(bytes));
            lemma_partitioned(bytes);
        }
        HeapResult::Success(
            Heap {
                chunks,
                chunk_count: INITIAL_GRANULARITY_DIVISOR,
                total_space: capacity,
                free_space: capacity,
                next_generation: 0,
            },
        )
    }

    /// A heap of `space` bytes, or of `DEFAULT_CAPACITY` bytes where none is
    /// named, all of them free and zero, cut into
    /// `INITIAL_GRANULARITY_DIVISOR` chunks of one size; the last chunk takes
    /// what the division leaves. The chunks of a new heap are free
    /// neighbours: they stay apart until a merge is called for.
    ///
    /// A capacity below `MIN_CAPACITY` is refused with `MemoryUnderflow`, one
    /// above `isize::MAX` with `ChunkLayoutError`. For any other capacity the
    /// storage provider decides: the heap is made of its block, or it has
    /// none and the result is `ChunkInitError`.
    pub fn init(space: Option<usize>) -> (r: HeapResult<Heap>)
        ensures
            Self::capacity_of(space) < MIN_CAPACITY ==> r == HeapResult::<Heap>::Failure(
                HeapError::MemoryUnderflow(MIN_CAPACITY),
            ),
            Self::capacity_of(space) > isize::MAX ==> r == HeapResult::<Heap>::Failure(
                HeapError::ChunkLayoutError,
            ),
            MIN_CAPACITY <= Self::capacity_of(space) <= isize::MAX ==> (match r {
                HeapResult::Success(h) => h.wf() && h@ == partitioned(
                    zeros(Self::capacity_of(space) as nat),
                ) && h.next_generation() == 0 && h.chunk_count() == INITIAL_GRANULARITY_DIVISOR
                    && h.total_space() == Self::capacity_of(space) && h.free_space()
                    == Self::capacity_of(space),
                HeapResult::Failure(e) => e == HeapError::ChunkInitError,
            }),
    {
        let capacity = match space {
            Some(capacity) => capacity,
            None => DEFAULT_CAPACITY,
        };
        if capacity < MIN_CAPACITY {
            return HeapResult::Failure(HeapError::MemoryUnderflow(MIN_CAPACITY));
        }
        proof {
            assert(1usize & 0usize == 0usize) by (bit_vector);
        }
        match Chunk::new(capacity, None) {
            HeapResult::Success(pool) => Self::from_pool(pool),
            HeapResult::Failure(e) => HeapResult::Failure(e),
        }
    }

    /// Adds up the free chunks anew, and says whether `needed_size` bytes
    /// are free in all. On a well-formed heap the sum is what the accounting
    /// held already, so the heap is left as it was.
    pub fn has_available_space_as_chunks(&mut self, needed_size: usize) -> (available: bool)
        requires
            old(self).wf(),
            needed_size > 0,
        ensures
            *final(self) == *old(self),
            available == (needed_size <= free_bytes(old(self)@)),
    {
        let mut free: usize = 0;
        let mut i: usize = 0;
        while i < self.chunks.len()
            invariant
                *self == *old(self),
                self.wf(),
                i <= self.chunks@.len(),
                free == free_bytes(self@.subrange(0, i as int)),
            decreases self.chunks@.len() - i,
        {
            proof {
                lemma_prefix_bound(self@, i + 1, false);
                assert(self@.subrange(0, i + 1).drop_last() =~= self@.subrange(0, i as int));
            }
            if !self.chunks[i].in_use() {
                free += self.chunks[i].size();
            }
            i += 1;
        }
        assert(self@.subrange(0, i as int) =~= self@);
        self.free_space = free;
        self.free_space >= needed_size
    }

    /// The first chunk, in address order, that can serve a request for
    /// `size` bytes.
    fn find_fit(&self, size: usize) -> (r: Option<usize>)
        ensures
            r matches Some(i) ==> is_first_fit(self@, size as nat, i as int),
            r is None ==> !has_fit(self@, size as nat),
    {
        let mut i: usize = 0;
        while i < self.chunks.len()
            invariant
                i <= self.chunks@.len(),
                forall|j: int| 0 <= j < i ==> !fits(#[trigger] self@[j], size as nat),
            decreases self.chunks@.len() - i,
        {
            if !self.chunks[i].in_use() && self.chunks[i].size() >= size {
                return Some(i);
            }
            i += 1;
        }
        None
    }

    /// Merges chunk `k` with the chunk behind it.
    fn merge_next(&mut self, k: usize)
        requires
            old(self).wf(),
            both_free(old(self)@, k as int),
        ensures
            final(self).wf(),
            final(self)@ == merge_at(old(self)@, k as int),
            final(self).next_generation() == old(self).next_generation(),
            final(self).total_space() == old(self).total_space(),
            final(self).free_space() == old(self).free_space(),
    {
        proof {
            lemma_merge_at(self@, k as int);
            lemma_chunk_end(self@, k + 1);
            assert(self@[k + 1].addr == self@[k as int].addr + self@[k as int].size());
        }
        let next = self.chunks.remove(k + 1);
        self.chunks[k].absorb(next);
        self.chunk_count -= 1;
        assert(self@ =~= merge_at(old(self)@, k as int));
    }

    /// Serves a request for `size` bytes from chunk `index`.
    fn place(&mut self, index: usize, size: usize) -> (handle: ChunkHandle)
        requires
            old(self).wf(),
            index < old(self)@.len(),
            fits(old(self)@[index as int], size as nat),
            size > 0,
        ensures
            final(self).wf(),
            final(self)@ == placed(
                old(self)@,
                index as int,
                size as nat,
                old(self).next_generation(),
            ),
            handle == (ChunkHandle {
                addr: old(self)@[index as int].addr as usize,
                generation: old(self).next_generation(),
            }),
            final(self).next_generation() == next_stamp(old(self).next_generation()),
            final(self).total_space() == old(self).total_space(),
            final(self).free_space() == old(self).free_space() - size,
            no_adjacent_free(old(self)@) ==> no_adjacent_free(final(self)@),
    {
        let generation = self.next_generation;
        proof {
            lemma_chunk_end(self@, index as int);
            lemma_placed(self@, index as int, size as nat, generation);
            lemma_len_bound(self@);
        }
        let handle = ChunkHandle { addr: self.chunks[index].addr(), generation };
        if self.chunks[index].size() == size {
            self.chunks[index].claim(generation);
        } else {
            let rest = self.chunks[index].cut(size);
            self.chunks[index].claim(generation);
            self.chunks.insert(index + 1, rest);
            self.chunk_count += 1;
            assert(self@[index as int].bytes =~= old(self)@[index as int].bytes.subrange(
                0,
                size as int,
            ));
        }
        self.free_space -= size;
        self.next_generation = if generation == u64::MAX {
            0
        } else {
            generation + 1
        };
        assert(self@ =~= placed(old(self)@, index as int, size as nat, generation));
        handle
    }

    /// Splits chunk `index`, which must be free and larger than `requested`
    /// bytes: its first `requested` bytes are handed out, and the rest
    /// follows it in the chain as a free chunk.
    ///
    /// The split is refused with `FragmentationError`, and the heap left as
    /// it was, where there is no such chunk, where it is in use, or where
    /// `requested` is zero or leaves no remainder.
    pub fn fragment(&mut self, index: usize, requested: usize) -> (r: HeapResult<ChunkHandle>)
        requires
            old(self).wf(),
        ensures
            final(self).wf(),
            Self::can_fragment(old(self)@, index, requested) ==> ({
                &&& r == HeapResult::Success(
                    ChunkHandle {
                        addr: old(self)@[index as int].addr as usize,
                        generation: old(self).next_generation(),
                    },
                )
                &&& final(self)@ == placed(
                    old(self)@,
                    index as int,
                    requested as nat,
                    old(self).next_generation(),
                )
                &&& final(self).next_generation() == next_stamp(old(self).next_generation())
                &&& final(self).free_space() == old(self).free_space() - requested
            }),
            final(self).total_space() == old(self).total_space(),
            no_adjacent_free(old(self)@) ==> no_adjacent_free(final(self)@),
            !Self::can_fragment(old(self)@, index, requested) ==> ({
                &&& r == HeapResult::<ChunkHandle>::Failure(HeapError::FragmentationError)
                &&& *final(self) == *old(self)
            }),
    {
        if index >= self.chunks.len() || requested == 0 {
            return HeapResult::Failure(HeapError::FragmentationError);
        }
        if self.chunks[index].in_use() || requested >= self.chunks[index].size() {
            return HeapResult::Failure(HeapError::FragmentationError);
        }
        HeapResult::Success(self.place(index, requested))
    }

    /// Whether chunk `index` can be split at `requested` bytes.
    pub open spec fn can_fragment(s: Seq<ChunkView>, index: usize, requested: usize) -> bool {
        index < s.len() && !s[index as int].in_use && 0 < requested < s[index as int].size()
    }

    /// Merges every run of free neighbours into the first chunk of the run.
    /// Afterwards no two neighbours are free. It never fails.
    pub fn coalesce(&mut self) -> (r: HeapResult<()>)
        requires
            old(self).wf(),
        ensures
            final(self).wf(),
            r == HeapResult::Success(()),
            final(self)@ == coalesced(old(self)@),
            no_adjacent_free(final(self)@),
            final(self).free_space() == old(self).free_space(),
            final(self).total_space() == old(self).total_space(),
            final(self).next_generation() == old(self).next_generation(),
    {
        let mut i: usize = 0;
        proof {
            lemma_len_bound(self@);
        }
        while i + 1 < self.chunks.len()
            invariant
                self.wf(),
                i <= self.chunks@.len() <= isize::MAX,
                coalesced_from(self@, i as int) == coalesced(old(self)@),
                self.next_generation() == old(self).next_generation(),
                self.free_space() == old(self).free_space(),
                self.total_space() == old(self).total_space(),
            decreases self.chunks@.len(), self.chunks@.len() - i,
        {
            if !self.chunks[i].in_use() && !self.chunks[i + 1].in_use() {
                proof {
                    lemma_merge_at(self@, i as int);
                }
                self.merge_next(i);
            } else {
                i += 1;
            }
        }
        proof {
            lemma_coalesced(old(self)@);
        }
        HeapResult::Success(())
    }

    /// What `allocate` makes of the heap `before` on a request for `size` bytes:
    /// its result `r` and the heap `after` it.
    ///
    /// A request for nothing is an invalid input, and one for more than is
    /// free in all is a memory overflow; both leave the heap as it was. Any
    /// other request is served from the first chunk that fits, of the chain
    /// as it is or, where that has none, of the chain with its free runs
    /// merged. Where even that has none the request fails with
    /// `FragmentationError`, and the chain stays merged.
    pub open spec fn allocates(
        before: Heap,
        size: usize,
        after: Heap,
        r: HeapResult<ChunkHandle>,
    ) -> bool {
        let s = before@;
        let n = size as nat;
        let g = before.next_generation();
        if size == 0 {
            &&& r == HeapResult::<ChunkHandle>::Failure(HeapError::InvalidInputError(0, "allocate"))
            &&& after == before
        } else if size > free_bytes(s) {
            &&& r == HeapResult::<ChunkHandle>::Failure(
                HeapError::MemoryOverflow(size, before.free_space()),
            )
            &&& after == before
        } else if can_alloc(s, n) {
            &&& r == HeapResult::Success(alloc_handle(s, n, g))
            &&& after@ == alloc_chain(s, n, g)
            &&& after.next_generation() == next_stamp(g)
        } else {
            &&& r == HeapResult::<ChunkHandle>::Failure(HeapError::FragmentationError)
            &&& after@ == coalesced(s)
            &&& after.next_generation() == g
        }
    }

    /// Serves a request for `size` bytes and says which chunk it took.
    fn allocate_indexed(&mut self, size: usize) -> (r: HeapResult<(usize, ChunkHandle)>)
        requires
            old(self).wf(),
        ensures
            final(self).wf(),
            Self::allocates(*old(self), size, *final(self), without_index(r)),
            r matches HeapResult::Success(found) ==> found.0 == alloc_index(
                old(self)@,
                size as nat,
            ) && found.0 < final(self)@.len(),
            final(self).total_space() == old(self).total_space(),
            final(self).free_space() == (if r is Success {
                old(self).free_space() - size
            } else {
                old(self).free_space() as int
            }),
            no_adjacent_free(old(self)@) ==> no_adjacent_free(final(self)@),
    {
        if size == 0 {
            return HeapResult::Failure(HeapError::InvalidInputError(0, "allocate"));
        }
        if !self.has_available_space_as_chunks(size) {
            return HeapResult::Failure(HeapError::MemoryOverflow(size, self.free_space));
        }
        let first = self.find_fit(size);
        let found = match first {
            Some(i) => Some(i),
            None => {
                match self.coalesce() {
                    HeapResult::Success(_) => {},
                    HeapResult::Failure(e) => {
                        return HeapResult::Failure(e);
                    },
                }
                self.find_fit(size)
            },
        };
        match found {
            Some(i) => {
                proof {
                    lemma_first_fit(self@, size as nat, i as int);
                }
                let handle = self.place(i, size);
                HeapResult::Success((i, handle))
            },
            None => HeapResult::Failure(HeapError::FragmentationError),
        }
    }

    /// Hands out a chunk of exactly `size_in_bytes` bytes, first-fit, and
    /// returns the handle to it; `allocates` says which chunk, and what
    /// becomes of the chain. The total never changes, and a chain without
    /// free neighbours stays one.
    pub fn allocate(&mut self, size_in_bytes: usize) -> (r: HeapResult<ChunkHandle>)
        requires
            old(self).wf(),
        ensures
            final(self).wf(),
            Self::allocates(*old(self), size_in_bytes, *final(self), r),
            final(self).total_space() == old(self).total_space(),
            final(self).free_space() == (if r is Success {
                old(self).free_space() - size_in_bytes
            } else {
                old(self).free_space() as int
            }),
            no_adjacent_free(old(self)@) ==> no_adjacent_free(final(self)@),
    {
        match self.allocate_indexed(size_in_bytes) {
            HeapResult::Success(found) => HeapResult::Success(found.1),
            HeapResult::Failure(e) => HeapResult::Failure(e),
        }
    }

    /// What `calloc` makes of the heap `before` on a request for `count`
    /// elements of `element_size` bytes: its result `r` and the heap `after`
    /// it.
    ///
    /// A zero argument, or a product that does not fit a `usize`, is an
    /// invalid input and leaves the heap as it was. Otherwise the product is
    /// allocated as `allocate` does it, and the chunk that is handed out holds
    /// zero bytes only.
    pub open spec fn callocates(
        before: Heap,
        element_size: usize,
        count: usize,
        after: Heap,
        r: HeapResult<ChunkHandle>,
    ) -> bool {
        let s = before@;
        let n = (element_size * count) as nat;
        let g = before.next_generation();
        if element_size == 0 || count == 0 {
            &&& r == HeapResult::<ChunkHandle>::Failure(HeapError::InvalidInputError(0, "calloc"))
            &&& after == before
        } else if element_size * count > usize::MAX {
            &&& r == HeapResult::<ChunkHandle>::Failure(
                HeapError::InvalidInputError(count, "calloc"),
            )
            &&& after == before
        } else if n > free_bytes(s) {
            &&& r == HeapResult::<ChunkHandle>::Failure(
                HeapError::MemoryOverflow(n as usize, before.free_space()),
            )
            &&& after == before
        } else if can_alloc(s, n) {
            &&& r == HeapResult::Success(alloc_handle(s, n, g))
            &&& after@ == zero_filled(alloc_chain(s, n, g), alloc_index(s, n))
            &&& after.next_generation() == next_stamp(g)
        } else {
            &&& r == HeapResult::<ChunkHandle>::Failure(HeapError::FragmentationError)
            &&& after@ == coalesced(s)
            &&& after.next_generation() == g
        }
    }

    /// Hands out a chunk of `element_size * count` zero bytes; `callocates`
    /// says which chunk, and what becomes of the chain.
    pub fn calloc(&mut self, element_size: usize, count: usize) -> (r: HeapResult<ChunkHandle>)
        requires
            old(self).wf(),
        ensures
            final(self).wf(),
            Self::callocates(*old(self), element_size, count, *final(self), r),
            final(self).total_space() == old(self).total_space(),
            final(self).free_space() == (if r is Success {
                old(self).free_space() - element_size * count
            } else {
                old(self).free_space() as int
            }),
            no_adjacent_free(old(self)@) ==> no_adjacent_free(final(self)@),
    {
        if element_size == 0 || count == 0 {
            return HeapResult::Failure(HeapError::InvalidInputError(0, "calloc"));
        }
        let total = match element_size.checked_mul(count) {
            Some(total) => total,
            None => {
                return HeapResult::Failure(HeapError::InvalidInputError(count, "calloc"));
            },
        };
        assert(element_size * count >= 1) by (nonlinear_arith)
            requires
                element_size >= 1,
                count >= 1,
        ;
        match self.allocate_indexed(total) {
            HeapResult::Success(found) => {
                proof {
                    lemma_rewritten(
                        self@,
                        found.0 as int,
                        zeros(self@[found.0 as int].bytes.len()),
                    );
                }
                let ghost before = self@;
                self.chunks[found.0].zero();
                assert(self@ =~= zero_filled(before, found.0 as int));
                HeapResult::Success(found.1)
            },
            HeapResult::Failure(e) => HeapResult::Failure(e),
        }
    }

    /// Merges chunk `index` with the chunk before it and then with the chunk
    /// behind it, wherever the two of a pair are free. Where there is no such
    /// chunk, or no such pair, nothing changes. It never fails.
    pub fn coalesce_around(&mut self, index: usize) -> (r: HeapResult<()>)
        requires
            old(self).wf(),
        ensures
            final(self).wf(),
            r == HeapResult::Success(()),
            final(self)@ == merged_around(old(self)@, index as int),
            final(self).free_space() == old(self).free_space(),
            final(self).total_space() == old(self).total_space(),
            final(self).next_generation() == old(self).next_generation(),
            no_adjacent_free(old(self)@) ==> no_adjacent_free(final(self)@),
    {
        proof {
            lemma_len_bound(self@);
            if no_adjacent_free(self@) {
                if 0 < index < self@.len() {
                    assert(self@[index - 1].in_use || self@[index as int].in_use);
                }
                if index + 1 < self@.len() {
                    assert(self@[index as int].in_use || self@[index + 1].in_use);
                }
            }
        }
        if index >= self.chunks.len() {
            return HeapResult::Success(());
        }
        let mut k = index;
        if index > 0 && !self.chunks[index - 1].in_use() && !self.chunks[index].in_use() {
            self.merge_next(index - 1);
            k = index - 1;
        }
        if k + 1 < self.chunks.len() && !self.chunks[k].in_use() && !self.chunks[k + 1].in_use() {
            self.merge_next(k);
        }
        HeapResult::Success(())
    }

    /// The chunk that is held under `handle`, if there is one.
    fn find_live(&self, handle: ChunkHandle) -> (r: Option<usize>)
        requires
            self.wf(),
        ensures
            r matches Some(i) ==> live_at(self@, handle, i as int) && index_of(self@, handle) == i,
            r is Some <==> is_live(self@, handle),
    {
        let mut i: usize = 0;
        while i < self.chunks.len()
            invariant
                self.wf(),
                i <= self.chunks@.len(),
                forall|j: int| 0 <= j < i ==> !live_at(self@, handle, j),
            decreases self.chunks@.len() - i,
        {
            if self.chunks[i].in_use() && self.chunks[i].addr() == handle.addr
                && self.chunks[i].generation() == handle.generation {
                proof {
                    lemma_live_unique(self@, handle, i as int);
                }
                return Some(i);
            }
            i += 1;
        }
        None
    }

    /// Takes back the chunk that is held under `handle`, and merges it with
    /// the chunk before it and then with the chunk behind it, where those are
    /// free. The handle is stale afterwards.
    ///
    /// A handle under which no chunk of this heap is held, one that was given
    /// back before among them, is an invalid input and leaves the heap as it
    /// was.
    pub fn free(&mut self, handle: ChunkHandle) -> (r: HeapResult<()>)
        requires
            old(self).wf(),
        ensures
            final(self).wf(),
            is_live(old(self)@, handle) ==> ({
                &&& r == HeapResult::Success(())
                &&& final(self)@ == released(old(self)@, index_of(old(self)@, handle))
                &&& final(self).free_space() == old(self).free_space() + old(self)@[index_of(
                    old(self)@,
                    handle,
                )].size()
            }),
            !is_live(old(self)@, handle) ==> ({
                &&& r == HeapResult::<()>::Failure(
                    HeapError::InvalidInputError(handle.addr, "free"),
                )
                &&& *final(self) == *old(self)
            }),
            !is_live(final(self)@, handle),
            final(self).next_generation() == old(self).next_generation(),
            final(self).total_space() == old(self).total_space(),
            no_adjacent_free(old(self)@) ==> no_adjacent_free(final(self)@),
    {
        let i = match self.find_live(handle) {
            Some(i) => i,
            None => {
                return HeapResult::Failure(HeapError::InvalidInputError(handle.addr, "free"));
            },
        };
        proof {
            lemma_freed(self@, i as int);
            lemma_released(self@, i as int);
            lemma_released_stale(self@, handle, i as int);
            lemma_free_and_used_make_total(self@.update(i as int, self@[i as int].freed()));
        }
        let size = self.chunks[i].size();
        self.chunks[i].mark_free();
        self.free_space += size;
        assert(self@ =~= old(self)@.update(i as int, old(self)@[i as int].freed()));
        self.coalesce_around(i)
    }

    /// Byte `offset` of the chunk that is held under `handle`.
    ///
    /// A handle under which no chunk is held is an invalid input, reported
    /// with the handle's address; so is an offset beyond the chunk, reported
    /// with the offset.
    pub fn read(&self, handle: ChunkHandle, offset: usize) -> (r: HeapResult<u8>)
        requires
            self.wf(),
        ensures
            !is_live(self@, handle) ==> r == HeapResult::<u8>::Failure(
                HeapError::InvalidInputError(handle.addr, "read"),
            ),
            is_live(self@, handle) && offset >= self@[index_of(self@, handle)].size() ==> r
                == HeapResult::<u8>::Failure(HeapError::InvalidInputError(offset, "read")),
            is_live(self@, handle) && offset < self@[index_of(self@, handle)].size() ==> r
                == HeapResult::Success(self@[index_of(self@, handle)].bytes[offset as int]),
    {
        let i = match self.find_live(handle) {
            Some(i) => i,
            None => {
                return HeapResult::Failure(HeapError::InvalidInputError(handle.addr, "read"));
            },
        };
        if offset >= self.chunks[i].size() {
            return HeapResult::Failure(HeapError::InvalidInputError(offset, "read"));
        }
        HeapResult::Success(self.chunks[i].load(offset))
    }

    /// Sets byte `offset` of the chunk that is held under `handle` to
    /// `value`, and changes nothing else.
    ///
    /// A handle under which no chunk is held is an invalid input, reported
    /// with the handle's address; so is an offset beyond the chunk, reported
    /// with the offset. Both leave the heap as it was.
    pub fn write(&mut self, handle: ChunkHandle, offset: usize, value: u8) -> (r: HeapResult<()>)
        requires
            old(self).wf(),
        ensures
            final(self).wf(),
            !is_live(old(self)@, handle) ==> ({
                &&& r == HeapResult::<()>::Failure(
                    HeapError::InvalidInputError(handle.addr, "write"),
                )
                &&& *final(self) == *old(self)
            }),
            is_live(old(self)@, handle) && offset >= old(self)@[index_of(
                old(self)@,
                handle,
            )].size() ==> ({
                &&& r == HeapResult::<()>::Failure(HeapError::InvalidInputError(offset, "write"))
                &&& *final(self) == *old(self)
            }),
            is_live(old(self)@, handle) && offset < old(self)@[index_of(
                old(self)@,
                handle,
            )].size() ==> ({
                &&& r == HeapResult::Success(())
                &&& final(self)@ == written(
                    old(self)@,
                    index_of(old(self)@, handle),
                    offset as int,
                    value,
                )
                &&& final(self).free_space() == old(self).free_space()
            }),
            final(self).next_generation() == old(self).next_generation(),
            final(self).total_space() == old(self).total_space(),
            no_adjacent_free(old(self)@) ==> no_adjacent_free(final(self)@),
    {
        let i = match self.find_live(handle) {
            Some(i) => i,
            None => {
                return HeapResult::Failure(HeapError::InvalidInputError(handle.addr, "write"));
            },
        };
        if offset >= self.chunks[i].size() {
            return HeapResult::Failure(HeapError::InvalidInputError(offset, "write"));
        }
        proof {
            lemma_rewritten(
                self@,
                i as int,
                self@[i as int].bytes.update(offset as int, value),
            );
        }
        self.chunks[i].store(offset, value);
        assert(self@ =~= written(old(self)@, i as int, offset as int, value));
        HeapResult::Success(())
    }

    /// Chunk `index` of the chain, counted in address order from 0.
    pub fn chunk(&self, index: usize) -> (r: Option<&Chunk>)
        ensures
            index < self@.len() ==> (r matches Some(c) && c@ == self@[index as int]),
            index >= self@.len() ==> r is None,
    {
        if index < self.chunks.len() {
            Some(&self.chunks[index])
        } else {
            None
        }
    }

    /// Every byte of a well-formed heap is free or in use: the free space
    /// and the sizes of the chunks in use make up the total space.
    pub proof fn lemma_accounting(self)
        requires
            self.wf(),
        ensures
            self.free_space() + used_bytes(self@) == self.total_space(),
    {
        lemma_free_and_used_make_total(self@);
    }
}

impl Default for Heap {
    /// A heap without a pool: it has no chunk and no byte, and serves no
    /// request.
    fn default() -> (h: Heap)
        ensures
            h.wf(),
            h@ == Seq::<ChunkView>::empty(),
            h.next_generation() == 0,
    {
        let h = Heap {
            chunks: Vec::new(),
            chunk_count: 0,
            total_space: 0,
            free_space: 0,
            next_generation: 0,
        };
        assert(h@ =~= Seq::<ChunkView>::empty());
        h
    }
}

/// The result of `allocate_indexed` as `allocate` returns it.
spec fn without_index(r: HeapResult<(usize, ChunkHandle)>) -> HeapResult<ChunkHandle> {
    match r {
        HeapResult::Success(found) => HeapResult::Success(found.1),
        HeapResult::Failure(e) => HeapResult::Failure(e),
    }
}

/// The stamp after `generation`. The stamps start again at 0 after the
/// largest.
pub open spec fn next_stamp(generation: u64) -> u64 {
    if generation == u64::MAX {
        0
    } else {
        (generation + 1) as u64
    }
}

} // verus!
