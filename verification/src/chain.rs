//! The chain of a heap as a sequence of chunks: what its accounting adds up,
//! when it is well formed, and what allocation, release and merging make of
//! it.

use vstd::prelude::*;
use crate::chunk::{ChunkHandle, ChunkView};
use crate::INITIAL_GRANULARITY_DIVISOR;

verus! {

/// The sum of the sizes of all chunks.
pub open spec fn total_bytes(s: Seq<ChunkView>) -> nat
    decreases s.len(),
{
    if s.len() == 0 {
        0
    } else {
        total_bytes(s.drop_last()) + s.last().size()
    }
}

/// The sum of the sizes of the chunks whose `in_use` is `state`.
pub open spec fn bytes_in_state(s: Seq<ChunkView>, state: bool) -> nat
    decreases s.len(),
{
    if s.len() == 0 {
        0
    } else {
        bytes_in_state(s.drop_last(), state) + if s.last().in_use == state {
            s.last().size()
        } else {
            0
        }
    }
}

/// The sum of the sizes of the free chunks.
pub open spec fn free_bytes(s: Seq<ChunkView>) -> nat {
    bytes_in_state(s, false)
}

/// The sum of the sizes of the chunks that are handed out.
pub open spec fn used_bytes(s: Seq<ChunkView>) -> nat {
    bytes_in_state(s, true)
}

/// The bytes of the pool: those of the chunks, in address order.
pub open spec fn pool_bytes(s: Seq<ChunkView>) -> Seq<u8>
    decreases s.len(),
{
    if s.len() == 0 {
        Seq::empty()
    } else {
        pool_bytes(s.drop_last()) + s.last().bytes
    }
}

/// A well-formed chain: every chunk is well formed and byte-aligned, the
/// first starts at address 0, each of the others starts where the one before
/// it ends, and the whole is a block that can exist.
pub open spec fn chain_wf(s: Seq<ChunkView>) -> bool {
    &&& forall|i: int| 0 <= i < s.len() ==> (#[trigger] s[i]).wf() && s[i].align == 1
    &&& s.len() > 0 ==> s[0].addr == 0
    &&& forall|i: int, j: int|
        0 <= i && j == i + 1 && j < s.len() ==> (#[trigger] s[j]).addr == (#[trigger] s[i]).addr
            + s[i].size()
    &&& total_bytes(s) <= isize::MAX
}

/// No two neighbours in the chain are both free.
pub open spec fn no_adjacent_free(s: Seq<ChunkView>) -> bool {
    forall|i: int, j: int|
        0 <= i && j == i + 1 && j < s.len() ==> (#[trigger] s[i]).in_use || (#[trigger] s[j]).in_use
}

/// The size of the first chunks of a new heap of `capacity` bytes.
pub open spec fn granule(capacity: nat) -> nat {
    capacity / (INITIAL_GRANULARITY_DIVISOR as nat)
}

/// Chunk `i` of a new heap over `bytes`: the chunks are free and of one
/// size, but for the last, which takes what is left.
pub open spec fn piece(bytes: Seq<u8>, i: int) -> ChunkView {
    let g = granule(bytes.len()) as int;
    ChunkView {
        addr: (i * g) as nat,
        in_use: false,
        generation: 0,
        align: 1,
        bytes: bytes.subrange(
            i * g,
            if i + 1 < INITIAL_GRANULARITY_DIVISOR {
                (i + 1) * g
            } else {
                bytes.len() as int
            },
        ),
    }
}

/// The chain of a new heap over `bytes`.
pub open spec fn partitioned(bytes: Seq<u8>) -> Seq<ChunkView> {
    Seq::new(INITIAL_GRANULARITY_DIVISOR as nat, |i: int| piece(bytes, i))
}

/// Whether a request for `n` bytes can be served from chunk `c`.
pub open spec fn fits(c: ChunkView, n: nat) -> bool {
    !c.in_use && c.size() >= n
}

/// Some chunk of the chain can serve a request for `n` bytes.
pub open spec fn has_fit(s: Seq<ChunkView>, n: nat) -> bool {
    exists|i: int| 0 <= i < s.len() && fits(#[trigger] s[i], n)
}

/// Chunk `i` can serve a request for `n` bytes and no chunk before it can.
pub open spec fn is_first_fit(s: Seq<ChunkView>, n: nat, i: int) -> bool {
    &&& 0 <= i < s.len()
    &&& fits(s[i], n)
    &&& forall|j: int| 0 <= j < i ==> !fits(#[trigger] s[j], n)
}

/// The first chunk, in address order, that can serve a request for `n`
/// bytes. It means something only where `has_fit` holds.
pub open spec fn first_fit(s: Seq<ChunkView>, n: nat) -> int {
    choose|i: int| is_first_fit(s, n, i)
}

/// The chain after a request for `n` bytes was served from chunk `i` under
/// `generation`: the chunk is handed out whole if the sizes match; otherwise
/// its first `n` bytes are, and the rest follows as a free chunk.
pub open spec fn placed(s: Seq<ChunkView>, i: int, n: nat, generation: u64) -> Seq<ChunkView> {
    if s[i].size() == n {
        s.update(i, s[i].claimed(n, generation))
    } else {
        s.update(i, s[i].claimed(n, generation)).insert(i + 1, s[i].remainder(n))
    }
}

/// Chunks `i` and `i + 1` are both free.
pub open spec fn both_free(s: Seq<ChunkView>, i: int) -> bool {
    0 <= i && i + 1 < s.len() && !s[i].in_use && !s[i + 1].in_use
}

/// The chain with chunks `i` and `i + 1` merged into one free chunk.
pub open spec fn merge_at(s: Seq<ChunkView>, i: int) -> Seq<ChunkView> {
    s.update(i, s[i].merged(s[i + 1])).remove(i + 1)
}

/// The chain with every run of free neighbours from chunk `i` on merged into
/// the first chunk of the run.
pub open spec fn coalesced_from(s: Seq<ChunkView>, i: int) -> Seq<ChunkView>
    decreases s.len(), s.len() - i,
{
    if i < 0 || i + 1 >= s.len() {
        s
    } else if both_free(s, i) {
        coalesced_from(merge_at(s, i), i)
    } else {
        coalesced_from(s, i + 1)
    }
}

/// The chain with every run of free neighbours merged into one free chunk.
pub open spec fn coalesced(s: Seq<ChunkView>) -> Seq<ChunkView> {
    coalesced_from(s, 0)
}

/// The chain with chunk `k` merged with the chunk behind it if both are free.
pub open spec fn merged_with_next(s: Seq<ChunkView>, k: int) -> Seq<ChunkView> {
    if both_free(s, k) {
        merge_at(s, k)
    } else {
        s
    }
}

/// The chain with chunk `i` merged with the chunk before it and then with
/// the chunk behind it, wherever the two of a pair are free.
pub open spec fn merged_around(s: Seq<ChunkView>, i: int) -> Seq<ChunkView> {
    if both_free(s, i - 1) {
        merged_with_next(merge_at(s, i - 1), i - 1)
    } else {
        merged_with_next(s, i)
    }
}

/// The chain after chunk `i` was given back: the chunk is free, and merged
/// with its free neighbours.
pub open spec fn released(s: Seq<ChunkView>, i: int) -> Seq<ChunkView> {
    merged_around(s.update(i, s[i].freed()), i)
}

/// The chain in which an allocation looks for a chunk: the chain as it is where
/// some chunk can serve the request, else the chain with its free runs
/// merged.
pub open spec fn search_base(s: Seq<ChunkView>, n: nat) -> Seq<ChunkView> {
    if has_fit(s, n) {
        s
    } else {
        coalesced(s)
    }
}

/// A request for `n` bytes can be served, at once or after merging.
pub open spec fn can_alloc(s: Seq<ChunkView>, n: nat) -> bool {
    has_fit(search_base(s, n), n)
}

/// The chunk of `search_base` that a request for `n` bytes is served from.
pub open spec fn alloc_index(s: Seq<ChunkView>, n: nat) -> int {
    first_fit(search_base(s, n), n)
}

/// The chain after a request for `n` bytes: served first-fit where it can
/// be, and merged in vain where it cannot.
pub open spec fn alloc_chain(s: Seq<ChunkView>, n: nat, generation: u64) -> Seq<ChunkView> {
    if can_alloc(s, n) {
        placed(search_base(s, n), alloc_index(s, n), n, generation)
    } else {
        search_base(s, n)
    }
}

/// The handle that a served request for `n` bytes returns.
pub open spec fn alloc_handle(s: Seq<ChunkView>, n: nat, generation: u64) -> ChunkHandle {
    ChunkHandle { addr: search_base(s, n)[alloc_index(s, n)].addr as usize, generation }
}

/// Chunk `i` is the chunk that `h` was handed out for, and is still held.
pub open spec fn live_at(s: Seq<ChunkView>, h: ChunkHandle, i: int) -> bool {
    0 <= i < s.len() && s[i].in_use && s[i].addr == h.addr && s[i].generation == h.generation
}

/// The handle refers to a chunk of the chain that is held under it.
pub open spec fn is_live(s: Seq<ChunkView>, h: ChunkHandle) -> bool {
    exists|i: int| live_at(s, h, i)
}

/// The chunk that a live handle refers to.
pub open spec fn index_of(s: Seq<ChunkView>, h: ChunkHandle) -> int {
    choose|i: int| live_at(s, h, i)
}

/// The chain with every byte of chunk `i` set to zero.
pub open spec fn zero_filled(s: Seq<ChunkView>, i: int) -> Seq<ChunkView> {
    s.update(i, s[i].zeroed())
}

/// The chain with byte `offset` of chunk `i` set to `value`.
pub open spec fn written(s: Seq<ChunkView>, i: int, offset: int, value: u8) -> Seq<ChunkView> {
    s.update(i, s[i].stored(offset, value))
}

} // verus!
