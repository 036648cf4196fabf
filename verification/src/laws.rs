//! What holds of every chain, whatever was done to it: the accounting adds
//! up, merging is idempotent and leaves no two free neighbours, an
//! allocation that is given back at once leaves no trace, a handle dies with
//! its chunk, and the bookkeeping moves no byte of the pool.

use vstd::prelude::*;
use crate::chain::{
    alloc_chain, alloc_handle, alloc_index, both_free, can_alloc, chain_wf, coalesced, free_bytes,
    has_fit, index_of, is_live, live_at, merge_at, merged_around, no_adjacent_free, pool_bytes,
    released, search_base, total_bytes, used_bytes, written,
};
use crate::chunk::{ChunkHandle, ChunkView};
use crate::lemmas::{
    lemma_addr_increasing, lemma_chunk_end, lemma_coalesced_from, lemma_coalesced_from_merged,
    lemma_coalesced_keeps_fit, lemma_first_fit_exists, lemma_live_unique, lemma_placed,
    lemma_pool_coalesced_from, lemma_pool_concat, lemma_pool_len, lemma_pool_merged_around,
    lemma_pool_placed, lemma_pool_short, lemma_pool_update, lemma_release_of_placed_coalesced,
    lemma_release_undoes_placed, lemma_released,
};

verus! {

/// Every byte of the heap is free or in use: the two sums make up the total.
pub proof fn lemma_free_and_used_make_total(s: Seq<ChunkView>)
    ensures
        free_bytes(s) + used_bytes(s) == total_bytes(s),
    decreases s.len(),
{
    if s.len() > 0 {
        lemma_free_and_used_make_total(s.drop_last());
    }
}

/// Merging all runs of free neighbours keeps the chain well formed, keeps
/// every sum, and leaves no two neighbours free.
pub proof fn lemma_coalesced(s: Seq<ChunkView>)
    requires
        chain_wf(s),
    ensures
        chain_wf(coalesced(s)),
        coalesced(s).len() <= s.len(),
        total_bytes(coalesced(s)) == total_bytes(s),
        free_bytes(coalesced(s)) == free_bytes(s),
        used_bytes(coalesced(s)) == used_bytes(s),
        no_adjacent_free(coalesced(s)),
{
    lemma_coalesced_from(s, 0);
}

/// Merging is idempotent: a chain without free neighbours is left as it is,
/// and so is every chain that was merged once.
pub proof fn lemma_coalesce_idempotent(s: Seq<ChunkView>)
    ensures
        no_adjacent_free(s) ==> coalesced(s) == s,
        chain_wf(s) ==> coalesced(coalesced(s)) == coalesced(s),
{
    if no_adjacent_free(s) {
        lemma_coalesced_from_merged(s, 0);
    }
    if chain_wf(s) {
        lemma_coalesced(s);
        lemma_coalesced_from_merged(coalesced(s), 0);
    }
}

/// Handing out and taking back make no free neighbours: a well-formed chain
/// that has none before a request is served, or before a chunk is given
/// back, has none after it.
pub proof fn lemma_no_free_neighbours_kept(s: Seq<ChunkView>, n: nat, generation: u64, i: int)
    requires
        chain_wf(s),
        no_adjacent_free(s),
    ensures
        0 < n <= free_bytes(s) ==> no_adjacent_free(alloc_chain(s, n, generation)),
        0 <= i < s.len() && s[i].in_use ==> no_adjacent_free(released(s, i)),
{
    lemma_coalesce_idempotent(s);
    if 0 < n <= free_bytes(s) && can_alloc(s, n) {
        lemma_first_fit_exists(s, n);
        lemma_placed(s, alloc_index(s, n), n, generation);
    }
    if 0 <= i < s.len() && s[i].in_use {
        lemma_released(s, i);
    }
}

/// A request can be served if and only if some chunk of the merged chain is
/// free and large enough.
pub proof fn lemma_can_alloc(s: Seq<ChunkView>, n: nat)
    ensures
        can_alloc(s, n) <==> has_fit(coalesced(s), n),
{
    if has_fit(s, n) {
        lemma_coalesced_keeps_fit(s, n, 0);
    }
}

/// Round trip: giving back at once what an allocation handed out restores
/// the number of free bytes. It restores the chain too, byte for byte, where
/// the chain had no free neighbours, and in any case up to the merging of
/// free runs.
pub proof fn lemma_alloc_then_free(s: Seq<ChunkView>, n: nat, generation: u64)
    requires
        chain_wf(s),
        0 < n <= free_bytes(s),
        can_alloc(s, n),
    ensures
        ({
            let a = alloc_chain(s, n, generation);
            let h = alloc_handle(s, n, generation);
            &&& chain_wf(a)
            &&& is_live(a, h)
            &&& index_of(a, h) == alloc_index(s, n)
            &&& free_bytes(released(a, index_of(a, h))) == free_bytes(s)
            &&& coalesced(released(a, index_of(a, h))) == coalesced(s)
            &&& no_adjacent_free(s) ==> released(a, index_of(a, h)) == s
        }),
{
    let b = search_base(s, n);
    let i = alloc_index(s, n);
    let a = alloc_chain(s, n, generation);
    let h = alloc_handle(s, n, generation);
    lemma_coalesced(s);
    lemma_first_fit_exists(b, n);
    lemma_placed(b, i, n, generation);
    assert(index_of(a, h) == i && is_live(a, h)) by {
        lemma_chunk_end(b, i);
        assert(live_at(a, h, i));
        lemma_live_unique(a, h, i);
    }
    lemma_released(a, i);
    assert(coalesced(released(a, i)) == coalesced(s)) by {
        lemma_release_of_placed_coalesced(b, i, n, generation);
        lemma_coalesce_idempotent(s);
    }
    if no_adjacent_free(s) {
        lemma_coalesce_idempotent(s);
        lemma_release_undoes_placed(s, i, n, generation);
    }
}

/// A handle is stale once its chunk was given back: no chunk of the chain
/// is held under it any more.
pub proof fn lemma_released_stale(s: Seq<ChunkView>, h: ChunkHandle, i: int)
    requires
        chain_wf(s),
        live_at(s, h, i),
    ensures
        !is_live(released(s, i), h),
{
    let r = released(s, i);
    let t = s.update(i, s[i].freed());
    assert forall|k: int| !live_at(r, h, k) by {
        if 0 <= k < r.len() && r[k].in_use {
            let j = if both_free(t, i - 1) {
                let u = merge_at(t, i - 1);
                if k < i - 1 {
                    k
                } else if both_free(u, i - 1) {
                    k + 2
                } else {
                    k + 1
                }
            } else if both_free(t, i) {
                if k <= i {
                    k
                } else {
                    k + 1
                }
            } else {
                k
            };
            assert(0 <= j < s.len() && j != i && r[k] == s[j]);
            if j < i {
                lemma_addr_increasing(s, j, i);
            } else {
                lemma_addr_increasing(s, i, j);
            }
        }
    }
}

/// A chunk's block is the part of the pool that starts at the chunk's
/// address: the chunks of a well-formed chain lie in the pool side by side.
pub proof fn lemma_chunk_lies_in_pool(s: Seq<ChunkView>, i: int)
    requires
        chain_wf(s),
        0 <= i < s.len(),
    ensures
        pool_bytes(s).len() == total_bytes(s),
        s[i].addr + s[i].size() <= pool_bytes(s).len(),
        s[i].bytes == pool_bytes(s).subrange(s[i].addr as int, (s[i].addr + s[i].size()) as int),
{
    let a = s.subrange(0, i);
    let b = s.subrange(i + 1, s.len() as int);
    assert(s =~= a + seq![s[i]] + b);
    assert(s.subrange(0, i + 1) =~= a + seq![s[i]]);
    lemma_pool_len(s);
    lemma_pool_len(a);
    lemma_pool_len(s.subrange(0, i + 1));
    lemma_chunk_end(s, i);
    lemma_pool_short(s[i], s[i]);
    lemma_pool_concat(a, seq![s[i]]);
    lemma_pool_concat(a + seq![s[i]], b);
    assert(pool_bytes(s).subrange(s[i].addr as int, (s[i].addr + s[i].size()) as int) =~= s[i].bytes);
}

/// The bookkeeping moves no byte: serving a request, giving a chunk back and
/// merging free runs leave every byte of the pool where it was and as it
/// was.
pub proof fn lemma_bookkeeping_moves_no_byte(
    s: Seq<ChunkView>,
    n: nat,
    generation: u64,
    i: int,
)
    requires
        chain_wf(s),
    ensures
        0 < n <= free_bytes(s) ==> pool_bytes(alloc_chain(s, n, generation)) == pool_bytes(s),
        0 <= i < s.len() ==> pool_bytes(released(s, i)) == pool_bytes(s),
        pool_bytes(merged_around(s, i)) == pool_bytes(s),
        pool_bytes(coalesced(s)) == pool_bytes(s),
{
    lemma_pool_coalesced_from(s, 0);
    lemma_pool_merged_around(s, i);
    if 0 <= i < s.len() {
        let t = s.update(i, s[i].freed());
        lemma_pool_update(s, i, s[i].freed());
        lemma_pool_merged_around(t, i);
    }
    if 0 < n <= free_bytes(s) && can_alloc(s, n) {
        let b = search_base(s, n);
        lemma_coalesced(s);
        lemma_first_fit_exists(b, n);
        lemma_pool_placed(b, alloc_index(s, n), n, generation);
    }
}

/// A write changes the byte of the pool at the chunk's address and the
/// offset, and no other.
pub proof fn lemma_write_changes_one_byte(s: Seq<ChunkView>, i: int, offset: int, value: u8)
    requires
        chain_wf(s),
        0 <= i < s.len(),
        0 <= offset < s[i].size(),
    ensures
        pool_bytes(written(s, i, offset, value)) == pool_bytes(s).update(
            s[i].addr + offset,
            value,
        ),
{
    let w = written(s, i, offset, value);
    let a = s.subrange(0, i);
    let b = s.subrange(i + 1, s.len() as int);
    assert(s =~= a + seq![s[i]] + b);
    assert(w =~= a + seq![w[i]] + b);
    lemma_pool_len(a);
    assert(s.subrange(0, i + 1) =~= a + seq![s[i]]);
    lemma_pool_len(s.subrange(0, i + 1));
    lemma_chunk_end(s, i);
    lemma_pool_short(s[i], s[i]);
    lemma_pool_short(w[i], w[i]);
    lemma_pool_concat(a, seq![s[i]]);
    lemma_pool_concat(a + seq![s[i]], b);
    lemma_pool_concat(a, seq![w[i]]);
    lemma_pool_concat(a + seq![w[i]], b);
    assert(pool_bytes(w) =~= pool_bytes(s).update(s[i].addr + offset, value));
}

} // verus!
