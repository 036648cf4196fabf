//! A chunk: one block of storage together with its allocation state.

use vstd::prelude::*;
use crate::error::{HeapError, HeapResult};
use crate::storage::{release, request, zeros};

verus! {

/// Size and alignment of a block of storage.
#[derive(Debug, Clone, Copy, PartialEq, Eq, Structural)]
pub struct Layout {
    pub size: usize,
    pub align: usize,
}

/// Whether `n` is a power of two: it is positive and has a single bit set.
pub open spec fn is_power_of_two(n: usize) -> bool {
    n > 0 && n & ((n - 1) as usize) == 0
}

impl Layout {
    /// A block with this layout can exist: the alignment is a power of two,
    /// and the size, padded up to the alignment, does not exceed `isize::MAX`.
    pub open spec fn valid(self) -> bool {
        is_power_of_two(self.align) && self.size + self.align - 1 <= isize::MAX
    }

    /// Decides `valid`.
    pub fn is_valid(&self) -> (b: bool)
        ensures
            b == self.valid(),
    {
        if self.align == 0 || self.align & (self.align - 1) != 0 {
            return false;
        }
        if self.align - 1 > isize::MAX as usize {
            return false;
        }
        self.size <= isize::MAX as usize - (self.align - 1)
    }

    /// The layout of `size` bytes aligned to `align`, if such a block can exist.
    pub fn from_size_align(size: usize, align: usize) -> (r: HeapResult<Layout>)
        ensures
            (Layout { size, align }).valid() ==> r == HeapResult::Success(Layout { size, align }),
            !(Layout { size, align }).valid() ==> r == HeapResult::<Layout>::Failure(
                HeapError::ChunkLayoutError,
            ),
    {
        let layout = Layout { size, align };
        if layout.is_valid() {
            HeapResult::Success(layout)
        } else {
            HeapResult::Failure(HeapError::ChunkLayoutError)
        }
    }
}

/// A caller's reference to a chunk that was handed out to it: where the
/// chunk starts, and the generation that the chunk was stamped with. The heap
/// keeps ownership of the chunk and checks the handle on every use: a handle
/// is good for as long as a chunk in use starts at its address and carries
/// its stamp. The stamps of a heap repeat after `u64::MAX` allocations.
#[derive(Debug, Clone, Copy, PartialEq, Eq, Structural)]
pub struct ChunkHandle {
    pub addr: usize,
    pub generation: u64,
}

/// What a chunk is, as contracts see it.
pub struct ChunkView {
    /// Where the chunk starts in the heap's address space.
    pub addr: nat,
    pub in_use: bool,
    /// The stamp of the allocation that holds the chunk; 0 while it is free.
    pub generation: u64,
    pub align: usize,
    /// The content of the chunk's block.
    pub bytes: Seq<u8>,
}

impl ChunkView {
    /// The number of bytes in the chunk's block.
    pub open spec fn size(self) -> nat {
        self.bytes.len()
    }

    /// The layout of the chunk's block.
    pub open spec fn layout(self) -> Layout {
        Layout { size: self.bytes.len() as usize, align: self.align }
    }

    /// A chunk is never empty, its block can exist, and a free chunk carries
    /// no stamp.
    pub open spec fn wf(self) -> bool {
        &&& 0 < self.bytes.len() <= usize::MAX
        &&& self.layout().valid()
        &&& !self.in_use ==> self.generation == 0
    }

    /// The chunk that a provider's block becomes: free and unlinked.
    pub open spec fn fresh(align: usize, bytes: Seq<u8>) -> ChunkView {
        ChunkView { addr: 0, in_use: false, generation: 0, align, bytes }
    }

    /// This chunk cut down to its first `n` bytes.
    pub open spec fn head(self, n: nat) -> ChunkView {
        ChunkView { bytes: self.bytes.subrange(0, n as int), ..self }
    }

    /// The first `n` bytes of this chunk, handed out under `generation`.
    pub open spec fn claimed(self, n: nat, generation: u64) -> ChunkView {
        ChunkView { in_use: true, generation, ..self.head(n) }
    }

    /// What is left of this chunk behind its first `n` bytes, as a free chunk.
    pub open spec fn remainder(self, n: nat) -> ChunkView {
        ChunkView {
            addr: self.addr + n,
            in_use: false,
            generation: 0,
            align: self.align,
            bytes: self.bytes.subrange(n as int, self.bytes.len() as int),
        }
    }

    /// This chunk, given back.
    pub open spec fn freed(self) -> ChunkView {
        ChunkView { in_use: false, generation: 0, ..self }
    }

    /// This chunk and the one behind it as one free chunk.
    pub open spec fn merged(self, next: ChunkView) -> ChunkView {
        ChunkView {
            addr: self.addr,
            in_use: false,
            generation: 0,
            align: self.align,
            bytes: self.bytes + next.bytes,
        }
    }

    /// This chunk with every byte set to zero.
    pub open spec fn zeroed(self) -> ChunkView {
        ChunkView { bytes: zeros(self.bytes.len()), ..self }
    }

    /// This chunk with byte `i` set to `value`.
    pub open spec fn stored(self, i: int, value: u8) -> ChunkView {
        ChunkView { bytes: self.bytes.update(i, value), ..self }
    }

}

/// One block of storage, its place in the heap's address space and its
/// allocation state. The block belongs to the chunk alone.
#[derive(Debug)]
pub struct Chunk {
    addr: usize,
    in_use: bool,
    generation: u64,
    align: usize,
    storage: Vec<u8>,
}

impl View for Chunk {
    type V = ChunkView;

    closed spec fn view(&self) -> ChunkView {
        ChunkView {
            addr: self.addr as nat,
            in_use: self.in_use,
            generation: self.generation,
            align: self.align,
            bytes: self.storage@,
        }
    }
}

impl Chunk {
    /// The chunk's invariant, which is that of its view.
    pub open spec fn wf(&self) -> bool {
        self@.wf()
    }

    /// The layout that a chunk of `size` bytes is requested with: the
    /// caller's, or `size` bytes without alignment.
    pub open spec fn descriptor(size: usize, layout: Option<Layout>) -> Layout {
        match layout {
            Some(l) => l,
            None => Layout { size, align: 1 },
        }
    }

    /// The descriptor is that of a block of `size` bytes that can exist.
    pub open spec fn admissible(size: usize, layout: Option<Layout>) -> bool {
        Self::descriptor(size, layout).valid() && Self::descriptor(size, layout).size == size
    }

    /// What `new` returns once the provider has answered with `block`.
    pub open spec fn built(
        size: usize,
        layout: Option<Layout>,
        block: Option<Vec<u8>>,
    ) -> HeapResult<ChunkView> {
        if size == 0 {
            HeapResult::Failure(HeapError::InvalidInputError(0, "new"))
        } else if !Self::admissible(size, layout) {
            HeapResult::Failure(HeapError::ChunkLayoutError)
        } else if block is Some && block->Some_0@.len() == size {
            HeapResult::Success(
                ChunkView::fresh(Self::descriptor(size, layout).align, block->Some_0@),
            )
        } else {
            HeapResult::Failure(HeapError::ChunkInitError)
        }
    }

    /// Makes a chunk of the block that a storage provider answered a request
    /// for `size` bytes with; `None` stands for a provider that had no block.
    /// A block of another length than `size` counts as none.
    pub fn from_block(
        size: usize,
        layout: Option<Layout>,
        block: Option<Vec<u8>>,
    ) -> (r: HeapResult<Chunk>)
        ensures
            (match r {
                HeapResult::Success(c) => c.wf() && Self::built(size, layout, block)
                    == HeapResult::Success(c@),
                HeapResult::Failure(e) => Self::built(size, layout, block) == HeapResult::<
                    ChunkView,
                >::Failure(e),
            }),
    {
        if size == 0 {
            return HeapResult::Failure(HeapError::InvalidInputError(0, "new"));
        }
        let descriptor = match layout {
            Some(l) => l,
            None => Layout { size, align: 1 },
        };
        if !descriptor.is_valid() || descriptor.size != size {
            return HeapResult::Failure(HeapError::ChunkLayoutError);
        }
        match block {
            Some(storage) => {
                if storage.len() != size {
                    return HeapResult::Failure(HeapError::ChunkInitError);
                }
                HeapResult::Success(
                    Chunk {
                        addr: 0,
                        in_use: false,
                        generation: 0,
                        align: descriptor.align,
                        storage,
                    },
                )
            },
            None => HeapResult::Failure(HeapError::ChunkInitError),
        }
    }

    /// A free, unlinked chunk of `size` zero bytes, its block requested from
    /// the storage provider with `layout`, or with `size` bytes and no
    /// alignment where none is given.
    ///
    /// A zero size is an invalid input; a layout that is not valid, or not of
    /// `size` bytes, is a layout error, and in both cases the provider is not
    /// asked. Otherwise the provider decides: its block becomes the chunk, or
    /// it has none and the result is `ChunkInitError`.
    pub fn new(size: usize, layout: Option<Layout>) -> (r: HeapResult<Chunk>)
        ensures
            size == 0 ==> r == HeapResult::<Chunk>::Failure(
                HeapError::InvalidInputError(0, "new"),
            ),
            size > 0 && !Self::admissible(size, layout) ==> r == HeapResult::<Chunk>::Failure(
                HeapError::ChunkLayoutError,
            ),
            size > 0 && Self::admissible(size, layout) ==> (match r {
                HeapResult::Success(c) => c.wf() && c@ == ChunkView::fresh(
                    Self::descriptor(size, layout).align,
                    zeros(size as nat),
                ),
                HeapResult::Failure(e) => e == HeapError::ChunkInitError,
            }),
    {
        if size == 0 {
            return HeapResult::Failure(HeapError::InvalidInputError(0, "new"));
        }
        let descriptor = match layout {
            Some(l) => l,
            None => Layout { size, align: 1 },
        };
        if !descriptor.is_valid() || descriptor.size != size {
            return HeapResult::Failure(HeapError::ChunkLayoutError);
        }
        let block = request(descriptor);
        Self::from_block(size, layout, block)
    }

    /// Gives the chunk's block back to the storage provider. The chunk is
    /// consumed: a block cannot be given back twice.
    pub fn free(self) {
        let layout = self.get_layout();
        release(self.storage, layout);
    }

    /// The layout that the chunk's block was requested with and is given back
    /// with.
    pub fn get_layout(&self) -> (layout: Layout)
        ensures
            layout == self@.layout(),
            layout.size == self@.size(),
    {
        Layout { size: self.storage.len(), align: self.align }
    }

    /// The number of bytes in the chunk's block.
    pub fn size(&self) -> (size: usize)
        ensures
            size == self@.size(),
    {
        self.storage.len()
    }

    /// Whether the chunk is handed out.
    pub fn in_use(&self) -> (in_use: bool)
        ensures
            in_use == self@.in_use,
    {
        self.in_use
    }

    /// Where the chunk starts in its heap's address space.
    pub fn addr(&self) -> (addr: usize)
        ensures
            addr == self@.addr,
    {
        self.addr
    }

    /// The stamp of the allocation that holds the chunk.
    pub fn generation(&self) -> (generation: u64)
        ensures
            generation == self@.generation,
    {
        self.generation
    }

    /// Cuts the chunk down to its first `n` bytes and returns the rest as a
    /// free chunk that starts where this one now ends.
    pub(crate) fn cut(&mut self, n: usize) -> (rest: Chunk)
        requires
            0 < n < old(self)@.size(),
            old(self)@.addr + old(self)@.size() <= usize::MAX,
        ensures
            final(self)@ == old(self)@.head(n as nat),
            rest@ == old(self)@.remainder(n as nat),
    {
        let tail = self.storage.split_off(n);
        Chunk { addr: self.addr + n, in_use: false, generation: 0, align: self.align, storage: tail }
    }

    /// Hands the chunk out under `generation`.
    pub(crate) fn claim(&mut self, generation: u64)
        ensures
            final(self)@ == old(self)@.claimed(old(self)@.size(), generation),
    {
        self.in_use = true;
        self.generation = generation;
        assert(self@.bytes =~= old(self)@.bytes.subrange(0, old(self)@.size() as int));
    }

    /// Takes the chunk back.
    pub(crate) fn mark_free(&mut self)
        ensures
            final(self)@ == old(self)@.freed(),
    {
        self.in_use = false;
        self.generation = 0;
    }

    /// Takes over the block of `next`, the chunk behind this one, and gives
    /// what is left of `next` back to the storage provider. The result is
    /// free.
    pub(crate) fn absorb(&mut self, next: Chunk)
        requires
            old(self)@.size() + next@.size() <= isize::MAX,
        ensures
            final(self)@ == old(self)@.merged(next@),
    {
        let mut next = next;
        self.storage.append(&mut next.storage);
        self.in_use = false;
        self.generation = 0;
        next.free();
    }

    /// Sets every byte of the chunk to zero.
    pub(crate) fn zero(&mut self)
        ensures
            final(self)@ == old(self)@.zeroed(),
    {
        let n = self.storage.len();
        let mut i: usize = 0;
        while i < n
            invariant
                i <= n,
                n == self.storage@.len(),
                self.addr == old(self).addr,
                self.in_use == old(self).in_use,
                self.generation == old(self).generation,
                self.align == old(self).align,
                forall|k: int| 0 <= k < i ==> self.storage@[k] == 0u8,
            decreases n - i,
        {
            self.storage[i] = 0u8;
            i += 1;
        }
        assert(self@.bytes =~= zeros(old(self)@.bytes.len()));
    }

    /// Byte `i` of the chunk.
    pub(crate) fn load(&self, i: usize) -> (value: u8)
        requires
            i < self@.size(),
        ensures
            value == self@.bytes[i as int],
    {
        self.storage[i]
    }

    /// Sets byte `i` of the chunk to `value`.
    pub(crate) fn store(&mut self, i: usize, value: u8)
        requires
            i < old(self)@.size(),
        ensures
            final(self)@ == old(self)@.stored(i as int, value),
    {
        self.storage[i] = value;
    }
}

} // verus!
