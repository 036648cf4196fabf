//! The storage provider: the one place where blocks of memory are obtained
//! and given back.

use vstd::prelude::*;
use crate::chunk::Layout;

verus! {

/// Asks the allocator for a block of `layout.size` bytes, all zero.
///
/// A request for no bytes needs no memory and is always served, with the
/// empty block. A request for more than `isize::MAX` bytes is never served:
/// no block is that large. For every size between the two the allocator
/// decides whether it reserves the room: `filled` says what is returned for
/// each of its answers, and `None` means that it has no such block to give.
/// Nothing is promised about when that happens.
pub fn request(layout: Layout) -> (block: Option<Vec<u8>>)
    ensures
        layout.size == 0 ==> block is Some,
        layout.size > isize::MAX ==> block is None,
        block matches Some(b) ==> b@ == zeros(layout.size as nat),
{
    let mut room: Vec<u8> = Vec::new();
    if layout.size == 0 {
        assert(room@ =~= zeros(0));
        return Some(room);
    }
    if layout.size > isize::MAX as usize {
        return None;
    }
    let reserved = if room.try_reserve(layout.size).is_ok() {
        Some(room)
    } else {
        None
    };
    filled(reserved, layout.size)
}

/// The block that answers a request for `size` bytes, made of the room that
/// the allocator reserved for it: the room, emptied and filled with `size`
/// zero bytes. `None` stands for an allocator that reserved no room, and
/// makes no block.
pub fn filled(room: Option<Vec<u8>>, size: usize) -> (block: Option<Vec<u8>>)
    ensures
        room is None ==> block is None,
        room is Some ==> (block matches Some(b) && b@ == zeros(size as nat)),
{
    match room {
        None => None,
        Some(reserved) => {
            let mut block = reserved;
            block.clear();
            block.resize(size, 0u8);
            assert(block@ =~= zeros(size as nat));
            Some(block)
        },
    }
}

/// Gives a block back to the allocator, with the layout that describes it.
/// The block is consumed, so it cannot be given back twice.
pub fn release(block: Vec<u8>, layout: Layout)
    requires
        block@.len() == layout.size,
{
}

/// `n` zero bytes.
pub open spec fn zeros(n: nat) -> Seq<u8> {
    Seq::new(n, |i: int| 0u8)
}

} // verus!
