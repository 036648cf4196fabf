//! What each step on a chain keeps and changes: the sums, the addresses and
//! the well-formedness. The heap's functions are proved from these.

use vstd::prelude::*;
use crate::chain::{
    both_free, bytes_in_state, chain_wf, coalesced, coalesced_from, first_fit, fits, free_bytes,
    granule, has_fit, index_of, is_first_fit, is_live, live_at, merge_at, merged_around,
    no_adjacent_free, partitioned, piece, placed, pool_bytes, released, total_bytes, used_bytes,
};
use crate::chunk::{is_power_of_two, ChunkHandle, ChunkView};
use crate::laws::lemma_free_and_used_make_total;
use crate::INITIAL_GRANULARITY_DIVISOR;

verus! {

/// The total of two chains put together is the sum of their totals.
pub proof fn lemma_total_concat(a: Seq<ChunkView>, b: Seq<ChunkView>)
    ensures
        total_bytes(a + b) == total_bytes(a) + total_bytes(b),
    decreases b.len(),
{
    if b.len() == 0 {
        assert(a + b =~= a);
    } else {
        assert((a + b).drop_last() =~= a + b.drop_last());
        lemma_total_concat(a, b.drop_last());
    }
}

/// So is the sum of each state.
pub proof fn lemma_state_concat(a: Seq<ChunkView>, b: Seq<ChunkView>, state: bool)
    ensures
        bytes_in_state(a + b, state) == bytes_in_state(a, state) + bytes_in_state(b, state),
    decreases b.len(),
{
    if b.len() == 0 {
        assert(a + b =~= a);
    } else {
        assert((a + b).drop_last() =~= a + b.drop_last());
        lemma_state_concat(a, b.drop_last(), state);
    }
}

/// A chain of one chunk holds that chunk's bytes, all of them in its state.
pub proof fn lemma_sums_single(c: ChunkView)
    ensures
        total_bytes(seq![c]) == c.size(),
        bytes_in_state(seq![c], c.in_use) == c.size(),
        bytes_in_state(seq![c], !c.in_use) == 0,
{
    reveal_with_fuel(total_bytes, 2);
    reveal_with_fuel(bytes_in_state, 2);
    assert(seq![c].drop_last() =~= Seq::<ChunkView>::empty());
}

/// Putting a chunk into the chain adds its size to the total and to the sum
/// of its state.
pub proof fn lemma_sums_insert(s: Seq<ChunkView>, i: int, c: ChunkView)
    requires
        0 <= i <= s.len(),
    ensures
        total_bytes(s.insert(i, c)) == total_bytes(s) + c.size(),
        bytes_in_state(s.insert(i, c), c.in_use) == bytes_in_state(s, c.in_use) + c.size(),
        bytes_in_state(s.insert(i, c), !c.in_use) == bytes_in_state(s, !c.in_use),
{
    let a = s.subrange(0, i);
    let b = s.subrange(i, s.len() as int);
    assert(s =~= a + b);
    assert(s.insert(i, c) =~= (a + seq![c]) + b);
    lemma_sums_single(c);
    lemma_total_concat(a, b);
    lemma_total_concat(a, seq![c]);
    lemma_total_concat(a + seq![c], b);
    lemma_state_concat(a, b, true);
    lemma_state_concat(a, seq![c], true);
    lemma_state_concat(a + seq![c], b, true);
    lemma_state_concat(a, b, false);
    lemma_state_concat(a, seq![c], false);
    lemma_state_concat(a + seq![c], b, false);
}

/// Taking a chunk out of the chain takes its size from the total and from
/// the sum of its state.
pub proof fn lemma_sums_remove(s: Seq<ChunkView>, i: int)
    requires
        0 <= i < s.len(),
    ensures
        total_bytes(s.remove(i)) == total_bytes(s) - s[i].size(),
        bytes_in_state(s.remove(i), s[i].in_use) == bytes_in_state(s, s[i].in_use) - s[i].size(),
        bytes_in_state(s.remove(i), !s[i].in_use) == bytes_in_state(s, !s[i].in_use),
{
    let r = s.remove(i);
    assert(r.insert(i, s[i]) =~= s);
    lemma_sums_insert(r, i, s[i]);
}

/// Replacing a chunk exchanges its share of the sums for that of the new one.
pub proof fn lemma_sums_update(s: Seq<ChunkView>, i: int, c: ChunkView)
    requires
        0 <= i < s.len(),
    ensures
        total_bytes(s.update(i, c)) == total_bytes(s) - s[i].size() + c.size(),
        forall|state: bool| #[trigger]
            bytes_in_state(s.update(i, c), state) == bytes_in_state(s, state) - (if s[i].in_use
                == state {
                s[i].size()
            } else {
                0
            }) + (if c.in_use == state {
                c.size()
            } else {
                0
            }),
{
    let r = s.remove(i);
    assert(r.insert(i, c) =~= s.update(i, c));
    lemma_sums_remove(s, i);
    lemma_sums_insert(r, i, c);
}

/// In a well-formed chain a chunk ends where the sizes up to it add up to,
/// which is within the total.
pub proof fn lemma_chunk_end(s: Seq<ChunkView>, i: int)
    requires
        chain_wf(s),
        0 <= i < s.len(),
    ensures
        s[i].addr + s[i].size() == total_bytes(s.subrange(0, i + 1)),
        s[i].addr + s[i].size() <= total_bytes(s),
    decreases i,
{
    let p = s.subrange(0, i + 1);
    assert(p.drop_last() =~= s.subrange(0, i));
    assert(p.last() == s[i]);
    assert(total_bytes(p) == total_bytes(s.subrange(0, i)) + s[i].size());
    if i > 0 {
        lemma_chunk_end(s, i - 1);
        assert(s[i].addr == s[i - 1].addr + s[i - 1].size());
    } else {
        assert(s.subrange(0, 0) =~= Seq::<ChunkView>::empty());
        assert(total_bytes(s.subrange(0, 0)) == 0);
        assert(s[0].addr == 0);
    }
    assert(s =~= p + s.subrange(i + 1, s.len() as int));
    lemma_total_concat(p, s.subrange(i + 1, s.len() as int));
}

/// In a well-formed chain addresses grow: a chunk ends at or before the
/// start of every later one.
pub proof fn lemma_addr_increasing(s: Seq<ChunkView>, i: int, j: int)
    requires
        chain_wf(s),
        0 <= i < j < s.len(),
    ensures
        s[i].addr + s[i].size() <= s[j].addr,
    decreases j - i,
{
    if j == i + 1 {
        assert(s[j].addr == s[i].addr + s[i].size());
    } else {
        lemma_addr_increasing(s, i, j - 1);
        assert(s[j].addr == s[j - 1].addr + s[j - 1].size());
    }
}

/// A well-formed chain has no more chunks than bytes.
pub proof fn lemma_len_bound(s: Seq<ChunkView>)
    requires
        forall|i: int| 0 <= i < s.len() ==> (#[trigger] s[i]).size() > 0,
    ensures
        s.len() <= total_bytes(s),
    decreases s.len(),
{
    if s.len() > 0 {
        lemma_len_bound(s.drop_last());
    }
}

/// The chunks of one state within the first `k` hold no more than the total.
pub proof fn lemma_prefix_bound(s: Seq<ChunkView>, k: int, state: bool)
    requires
        0 <= k <= s.len(),
    ensures
        bytes_in_state(s.subrange(0, k), state) <= total_bytes(s),
{
    let p = s.subrange(0, k);
    let q = s.subrange(k, s.len() as int);
    assert(s =~= p + q);
    lemma_total_concat(p, q);
    lemma_free_and_used_make_total(p);
}

/// Each chunk of a new heap is well formed, starts where its index says and
/// ends within the pool.
proof fn lemma_piece(bytes: Seq<u8>, i: int)
    requires
        INITIAL_GRANULARITY_DIVISOR <= bytes.len() <= isize::MAX,
        0 <= i < INITIAL_GRANULARITY_DIVISOR,
    ensures
        piece(bytes, i).wf(),
        piece(bytes, i).addr == i * granule(bytes.len()),
        piece(bytes, i).addr + piece(bytes, i).size() == (if i + 1 < INITIAL_GRANULARITY_DIVISOR {
            (i + 1) * granule(bytes.len())
        } else {
            bytes.len() as int
        }),
        piece(bytes, i).addr + piece(bytes, i).size() <= bytes.len(),
{
    let g = granule(bytes.len()) as int;
    let d = INITIAL_GRANULARITY_DIVISOR as int;
    let len = bytes.len() as int;
    assert(g >= 1 && g * d <= len);
    assert(0 <= i * g && i * g + g == (i + 1) * g && (i + 1) * g <= g * d) by (nonlinear_arith)
        requires
            0 <= i < d,
            g >= 1,
    ;
    assert(1usize & 0usize == 0usize) by (bit_vector);
    assert(is_power_of_two(1usize));
}

/// The first `k` chunks of a new heap are free and reach up to the start of
/// chunk `k`, or to the end of the pool.
proof fn lemma_partitioned_prefix(bytes: Seq<u8>, k: int)
    requires
        INITIAL_GRANULARITY_DIVISOR <= bytes.len() <= isize::MAX,
        0 <= k <= INITIAL_GRANULARITY_DIVISOR,
    ensures
        total_bytes(partitioned(bytes).subrange(0, k)) == (if k < INITIAL_GRANULARITY_DIVISOR {
            k * granule(bytes.len())
        } else {
            bytes.len() as int
        }),
        free_bytes(partitioned(bytes).subrange(0, k)) == total_bytes(
            partitioned(bytes).subrange(0, k),
        ),
    decreases k,
{
    let p = partitioned(bytes).subrange(0, k);
    if k > 0 {
        lemma_partitioned_prefix(bytes, k - 1);
        lemma_piece(bytes, k - 1);
        assert(p.drop_last() =~= partitioned(bytes).subrange(0, k - 1));
        assert(p.last() == piece(bytes, k - 1));
    }
}

/// A new heap's chain is well formed and all of it is free.
pub proof fn lemma_partitioned(bytes: Seq<u8>)
    requires
        INITIAL_GRANULARITY_DIVISOR <= bytes.len() <= isize::MAX,
    ensures
        chain_wf(partitioned(bytes)),
        partitioned(bytes).len() == INITIAL_GRANULARITY_DIVISOR,
        total_bytes(partitioned(bytes)) == bytes.len(),
        free_bytes(partitioned(bytes)) == bytes.len(),
{
    let p = partitioned(bytes);
    lemma_partitioned_prefix(bytes, INITIAL_GRANULARITY_DIVISOR as int);
    assert(p.subrange(0, INITIAL_GRANULARITY_DIVISOR as int) =~= p);
    assert forall|i: int| 0 <= i < p.len() implies (#[trigger] p[i]).wf() && p[i].align == 1 by {
        lemma_piece(bytes, i);
    }
    assert forall|i: int, j: int| 0 <= i && j == i + 1 && j < p.len() implies (#[trigger] p[j]).addr
        == (#[trigger] p[i]).addr + p[i].size() by {
        lemma_piece(bytes, i);
        lemma_piece(bytes, j);
    }
    lemma_piece(bytes, 0);
}

/// There is at most one first fit.
pub proof fn lemma_first_fit(s: Seq<ChunkView>, n: nat, i: int)
    requires
        is_first_fit(s, n, i),
    ensures
        has_fit(s, n),
        first_fit(s, n) == i,
{
    let k = first_fit(s, n);
    assert(is_first_fit(s, n, k));
    if k < i {
        assert(!fits(s[k], n));
    } else if i < k {
        assert(!fits(s[i], n));
    }
}

/// Below a chunk that fits there is a first one.
proof fn lemma_least_fit(s: Seq<ChunkView>, n: nat, w: int)
    requires
        0 <= w < s.len(),
        fits(s[w], n),
    ensures
        exists|i: int| is_first_fit(s, n, i),
    decreases w,
{
    if forall|j: int| 0 <= j < w ==> !fits(#[trigger] s[j], n) {
        assert(is_first_fit(s, n, w));
    } else {
        let j = choose|j: int| 0 <= j < w && fits(#[trigger] s[j], n);
        lemma_least_fit(s, n, j);
    }
}

/// Where some chunk fits, one of them is the first.
pub proof fn lemma_first_fit_exists(s: Seq<ChunkView>, n: nat)
    requires
        has_fit(s, n),
    ensures
        is_first_fit(s, n, first_fit(s, n)),
{
    let w = choose|i: int| 0 <= i < s.len() && fits(#[trigger] s[i], n);
    lemma_least_fit(s, n, w);
}

/// A handle refers to at most one chunk.
pub proof fn lemma_live_unique(s: Seq<ChunkView>, h: ChunkHandle, i: int)
    requires
        chain_wf(s),
        live_at(s, h, i),
    ensures
        is_live(s, h),
        index_of(s, h) == i,
{
    let k = index_of(s, h);
    assert(live_at(s, h, k));
    if k < i {
        lemma_addr_increasing(s, k, i);
    } else if i < k {
        lemma_addr_increasing(s, i, k);
    }
}

/// Serving a request keeps the chain well formed and moves the requested
/// bytes from the free sum to the used one.
pub proof fn lemma_placed(s: Seq<ChunkView>, i: int, n: nat, generation: u64)
    requires
        chain_wf(s),
        0 <= i < s.len(),
        !s[i].in_use,
        0 < n <= s[i].size(),
    ensures
        chain_wf(placed(s, i, n, generation)),
        total_bytes(placed(s, i, n, generation)) == total_bytes(s),
        free_bytes(placed(s, i, n, generation)) == free_bytes(s) - n,
        used_bytes(placed(s, i, n, generation)) == used_bytes(s) + n,
        no_adjacent_free(s) ==> no_adjacent_free(placed(s, i, n, generation)),
{
    let c = s[i].claimed(n, generation);
    let t = s.update(i, c);
    lemma_sums_update(s, i, c);
    assert(bytes_in_state(t, false) == bytes_in_state(s, false) - s[i].size());
    assert(bytes_in_state(t, true) == bytes_in_state(s, true) + n);
    if s[i].size() != n {
        let r = s[i].remainder(n);
        lemma_sums_insert(t, i + 1, r);
    }
}

/// Merging two free neighbours keeps the chain well formed and every sum as
/// it was.
pub proof fn lemma_merge_at(s: Seq<ChunkView>, i: int)
    requires
        chain_wf(s),
        both_free(s, i),
    ensures
        chain_wf(merge_at(s, i)),
        merge_at(s, i).len() == s.len() - 1,
        total_bytes(merge_at(s, i)) == total_bytes(s),
        free_bytes(merge_at(s, i)) == free_bytes(s),
        used_bytes(merge_at(s, i)) == used_bytes(s),
{
    let m = s[i].merged(s[i + 1]);
    let t = s.update(i, m);
    lemma_sums_update(s, i, m);
    lemma_sums_remove(t, i + 1);
    assert(bytes_in_state(t, false) == bytes_in_state(s, false) + s[i + 1].size());
    assert(bytes_in_state(t, true) == bytes_in_state(s, true));
    lemma_chunk_end(s, i + 1);
    assert(s[i + 1].addr == s[i].addr + s[i].size());
}

/// Taking a chunk back keeps the chain well formed and moves the chunk's
/// bytes from the used sum to the free one.
pub proof fn lemma_freed(s: Seq<ChunkView>, i: int)
    requires
        chain_wf(s),
        0 <= i < s.len(),
        s[i].in_use,
    ensures
        chain_wf(s.update(i, s[i].freed())),
        total_bytes(s.update(i, s[i].freed())) == total_bytes(s),
        free_bytes(s.update(i, s[i].freed())) == free_bytes(s) + s[i].size(),
        used_bytes(s.update(i, s[i].freed())) == used_bytes(s) - s[i].size(),
{
    let t = s.update(i, s[i].freed());
    lemma_sums_update(s, i, s[i].freed());
    assert(bytes_in_state(t, false) == bytes_in_state(s, false) + s[i].size());
    assert(bytes_in_state(t, true) == bytes_in_state(s, true) - s[i].size());
}

/// Changing the bytes of a chunk, and nothing else of it, keeps the chain
/// well formed and every sum as it was.
pub proof fn lemma_rewritten(s: Seq<ChunkView>, i: int, bytes: Seq<u8>)
    requires
        chain_wf(s),
        0 <= i < s.len(),
        bytes.len() == s[i].size(),
    ensures
        chain_wf(s.update(i, ChunkView { bytes, ..s[i] })),
        total_bytes(s.update(i, ChunkView { bytes, ..s[i] })) == total_bytes(s),
        free_bytes(s.update(i, ChunkView { bytes, ..s[i] })) == free_bytes(s),
        used_bytes(s.update(i, ChunkView { bytes, ..s[i] })) == used_bytes(s),
        no_adjacent_free(s) ==> no_adjacent_free(s.update(i, ChunkView { bytes, ..s[i] })),
{
    let c = ChunkView { bytes, ..s[i] };
    let t = s.update(i, c);
    lemma_sums_update(s, i, c);
    assert(bytes_in_state(t, false) == bytes_in_state(s, false));
    assert(bytes_in_state(t, true) == bytes_in_state(s, true));
}

/// No two neighbours among the chunks up to chunk `i` are both free.
pub open spec fn no_adjacent_free_upto(s: Seq<ChunkView>, i: int) -> bool {
    forall|j: int, k: int|
        0 <= j && k == j + 1 && k <= i && k < s.len() ==> (#[trigger] s[j]).in_use || (
        #[trigger] s[k]).in_use
}

/// Merging from chunk `i` on keeps the chain well formed and every sum as it
/// was, and leaves no two free neighbours if there were none before chunk `i`.
pub proof fn lemma_coalesced_from(s: Seq<ChunkView>, i: int)
    requires
        chain_wf(s),
        0 <= i,
    ensures
        chain_wf(coalesced_from(s, i)),
        coalesced_from(s, i).len() <= s.len(),
        total_bytes(coalesced_from(s, i)) == total_bytes(s),
        free_bytes(coalesced_from(s, i)) == free_bytes(s),
        used_bytes(coalesced_from(s, i)) == used_bytes(s),
        no_adjacent_free_upto(s, i) ==> no_adjacent_free(coalesced_from(s, i)),
    decreases s.len(), s.len() - i,
{
    if i + 1 >= s.len() {
    } else if both_free(s, i) {
        let m = merge_at(s, i);
        lemma_merge_at(s, i);
        lemma_coalesced_from(m, i);
        if no_adjacent_free_upto(s, i) {
            assert forall|j: int, k: int|
                0 <= j && k == j + 1 && k <= i && k < m.len() implies (#[trigger] m[j]).in_use || (
            #[trigger] m[k]).in_use by {
                assert(s[j].in_use || s[k].in_use);
            }
        }
    } else {
        lemma_coalesced_from(s, i + 1);
        if no_adjacent_free_upto(s, i) {
            assert forall|j: int, k: int|
                0 <= j && k == j + 1 && k <= i + 1 && k < s.len() implies (#[trigger] s[j]).in_use
                || (#[trigger] s[k]).in_use by {
                if k <= i {
                    assert(s[j].in_use || s[k].in_use);
                }
            }
        }
    }
}

/// Where no two neighbours are free there is nothing to merge.
pub proof fn lemma_coalesced_from_merged(s: Seq<ChunkView>, i: int)
    requires
        no_adjacent_free(s),
    ensures
        coalesced_from(s, i) == s,
    decreases s.len() - i,
{
    if 0 <= i && i + 1 < s.len() {
        assert(s[i].in_use || s[i + 1].in_use);
        lemma_coalesced_from_merged(s, i + 1);
    }
}

/// Giving a chunk back keeps the chain well formed, moves the chunk's bytes
/// from the used sum to the free one, and leaves no two neighbours free if
/// there were none before.
pub proof fn lemma_released(s: Seq<ChunkView>, i: int)
    requires
        chain_wf(s),
        0 <= i < s.len(),
        s[i].in_use,
    ensures
        chain_wf(released(s, i)),
        released(s, i).len() <= s.len(),
        total_bytes(released(s, i)) == total_bytes(s),
        free_bytes(released(s, i)) == free_bytes(s) + s[i].size(),
        used_bytes(released(s, i)) == used_bytes(s) - s[i].size(),
        no_adjacent_free(s) ==> no_adjacent_free(released(s, i)),
{
    let t = s.update(i, s[i].freed());
    lemma_sums_update(s, i, s[i].freed());
    assert(bytes_in_state(t, false) == bytes_in_state(s, false) + s[i].size());
    assert(bytes_in_state(t, true) == bytes_in_state(s, true) - s[i].size());
    assert(chain_wf(t));
    if both_free(t, i - 1) {
        let u = merge_at(t, i - 1);
        lemma_merge_at(t, i - 1);
        if both_free(u, i - 1) {
            lemma_merge_at(u, i - 1);
        }
        if no_adjacent_free(s) {
            let r = released(s, i);
            assert forall|j: int, k: int| 0 <= j && k == j + 1 && k < r.len() implies (
            #[trigger] r[j]).in_use || (#[trigger] r[k]).in_use by {
                if k <= i - 1 {
                    assert(s[j].in_use || s[k].in_use);
                } else if both_free(u, i - 1) {
                    assert(s[j + 2].in_use || s[k + 2].in_use);
                } else {
                    assert(s[j + 1].in_use || s[k + 1].in_use);
                }
            }
        }
    } else {
        if both_free(t, i) {
            lemma_merge_at(t, i);
        }
        if no_adjacent_free(s) {
            let r = released(s, i);
            assert forall|j: int, k: int| 0 <= j && k == j + 1 && k < r.len() implies (
            #[trigger] r[j]).in_use || (#[trigger] r[k]).in_use by {
                if k <= i {
                    assert(s[j].in_use || s[k].in_use);
                } else if both_free(t, i) {
                    assert(s[j + 1].in_use || s[k + 1].in_use);
                } else {
                    assert(s[j].in_use || s[k].in_use);
                }
            }
        }
    }
}

/// Merging two free neighbours first makes no difference to what merging
/// every run gives.
pub proof fn lemma_coalesced_absorbs_merge(s: Seq<ChunkView>, i: int, k: int)
    requires
        0 <= i <= k,
        both_free(s, k),
    ensures
        coalesced_from(merge_at(s, k), i) == coalesced_from(s, i),
    decreases s.len(), s.len() - i,
{
    let m = merge_at(s, k);
    if i == k {
        assert(coalesced_from(s, i) == coalesced_from(m, i));
    } else if both_free(s, i) {
        let t = merge_at(s, i);
        assert(both_free(m, i));
        assert(coalesced_from(s, i) == coalesced_from(t, i));
        assert(coalesced_from(m, i) == coalesced_from(merge_at(m, i), i));
        if i + 1 == k {
            assert(both_free(t, i));
            assert(coalesced_from(t, i) == coalesced_from(merge_at(t, i), i));
            assert(merge_at(m, i)[i].bytes =~= merge_at(t, i)[i].bytes);
            assert(merge_at(m, i) =~= merge_at(t, i));
        } else {
            assert(both_free(t, k - 1));
            assert(merge_at(m, i) =~= merge_at(t, k - 1));
            lemma_coalesced_absorbs_merge(t, i, k - 1);
        }
    } else {
        assert(!both_free(m, i));
        assert(coalesced_from(s, i) == coalesced_from(s, i + 1));
        assert(coalesced_from(m, i) == coalesced_from(m, i + 1));
        lemma_coalesced_absorbs_merge(s, i + 1, k);
    }
}

/// Giving a chunk back and merging every run gives what merging every run
/// gives once the chunk is marked free: the merges that the release makes
/// are among those.
pub proof fn lemma_released_coalesced(s: Seq<ChunkView>, i: int)
    requires
        0 <= i < s.len(),
    ensures
        coalesced(released(s, i)) == coalesced(s.update(i, s[i].freed())),
{
    let t = s.update(i, s[i].freed());
    if both_free(t, i - 1) {
        let u = merge_at(t, i - 1);
        lemma_coalesced_absorbs_merge(t, 0, i - 1);
        if both_free(u, i - 1) {
            lemma_coalesced_absorbs_merge(u, 0, i - 1);
        }
    } else if both_free(t, i) {
        lemma_coalesced_absorbs_merge(t, 0, i);
    }
}

/// Merging loses no fit: a request that some chunk can serve can be served
/// from the merged chain too.
pub proof fn lemma_coalesced_keeps_fit(s: Seq<ChunkView>, n: nat, i: int)
    requires
        has_fit(s, n),
        0 <= i,
    ensures
        has_fit(coalesced_from(s, i), n),
    decreases s.len(), s.len() - i,
{
    if i + 1 >= s.len() {
    } else if both_free(s, i) {
        let m = merge_at(s, i);
        let k = choose|k: int| 0 <= k < s.len() && fits(#[trigger] s[k], n);
        if k < i {
            assert(fits(m[k], n));
        } else if k <= i + 1 {
            assert(fits(m[i], n));
        } else {
            assert(fits(m[k - 1], n));
        }
        lemma_coalesced_keeps_fit(m, n, i);
    } else {
        lemma_coalesced_keeps_fit(s, n, i + 1);
    }
}

/// Giving back what was just handed out undoes the hand-out: in a chain
/// without free neighbours, serving a request from a chunk and releasing the
/// chunk at once restores the chain, byte for byte.
pub proof fn lemma_release_undoes_placed(s: Seq<ChunkView>, i: int, n: nat, generation: u64)
    requires
        chain_wf(s),
        no_adjacent_free(s),
        0 <= i < s.len(),
        fits(s[i], n),
        n > 0,
    ensures
        released(placed(s, i, n, generation), i) == s,
{
    let p = placed(s, i, n, generation);
    let t = p.update(i, p[i].freed());
    if i > 0 {
        assert(s[i - 1].in_use || s[i].in_use);
    }
    if i + 1 < s.len() {
        assert(s[i].in_use || s[i + 1].in_use);
    }
    assert(!both_free(t, i - 1));
    if s[i].size() == n {
        assert(t[i].bytes =~= s[i].bytes);
        assert(!both_free(t, i));
        assert(t =~= s);
    } else {
        assert(both_free(t, i));
        let m = merge_at(t, i);
        assert(m[i].bytes =~= s[i].bytes);
        assert(m =~= s);
    }
}

/// Serving a request from a chunk and giving the chunk back leaves, once
/// every run is merged, what merging every run of the chain gave before.
pub proof fn lemma_release_of_placed_coalesced(
    s: Seq<ChunkView>,
    i: int,
    n: nat,
    generation: u64,
)
    requires
        chain_wf(s),
        0 <= i < s.len(),
        fits(s[i], n),
        n > 0,
    ensures
        coalesced(released(placed(s, i, n, generation), i)) == coalesced(s),
{
    let p = placed(s, i, n, generation);
    let t = p.update(i, p[i].freed());
    lemma_released_coalesced(p, i);
    if s[i].size() == n {
        assert(t[i].bytes =~= s[i].bytes);
        assert(t =~= s);
    } else {
        assert(both_free(t, i));
        assert(merge_at(t, i)[i].bytes =~= s[i].bytes);
        assert(merge_at(t, i) =~= s);
        lemma_coalesced_absorbs_merge(t, 0, i);
    }
}

/// The bytes of two chains put together are those of the first and then
/// those of the second.
pub proof fn lemma_pool_concat(a: Seq<ChunkView>, b: Seq<ChunkView>)
    ensures
        pool_bytes(a + b) == pool_bytes(a) + pool_bytes(b),
    decreases b.len(),
{
    if b.len() == 0 {
        assert(a + b =~= a);
        assert(pool_bytes(a) + pool_bytes(b) =~= pool_bytes(a));
    } else {
        assert((a + b).drop_last() =~= a + b.drop_last());
        lemma_pool_concat(a, b.drop_last());
        assert(pool_bytes(a + b) =~= pool_bytes(a) + pool_bytes(b));
    }
}

/// A chain of one chunk holds that chunk's bytes, and a chain of two holds
/// those of the first and then those of the second.
pub proof fn lemma_pool_short(c: ChunkView, d: ChunkView)
    ensures
        pool_bytes(seq![c]) == c.bytes,
        pool_bytes(seq![c, d]) == c.bytes + d.bytes,
{
    reveal_with_fuel(pool_bytes, 3);
    assert(seq![c].drop_last() =~= Seq::<ChunkView>::empty());
    assert(seq![c, d].drop_last() =~= seq![c]);
    assert(pool_bytes(seq![c]) =~= c.bytes);
    assert(pool_bytes(seq![c, d]) =~= c.bytes + d.bytes);
}

/// Chunks that hold the same bytes can stand for each other in a chain.
pub proof fn lemma_pool_splice(
    a: Seq<ChunkView>,
    old_part: Seq<ChunkView>,
    new_part: Seq<ChunkView>,
    b: Seq<ChunkView>,
)
    requires
        pool_bytes(old_part) == pool_bytes(new_part),
    ensures
        pool_bytes(a + old_part + b) == pool_bytes(a + new_part + b),
{
    lemma_pool_concat(a, old_part);
    lemma_pool_concat(a + old_part, b);
    lemma_pool_concat(a, new_part);
    lemma_pool_concat(a + new_part, b);
}

/// Replacing a chunk by one with the same bytes keeps the bytes of the pool.
pub proof fn lemma_pool_update(s: Seq<ChunkView>, i: int, c: ChunkView)
    requires
        0 <= i < s.len(),
        c.bytes == s[i].bytes,
    ensures
        pool_bytes(s.update(i, c)) == pool_bytes(s),
{
    let a = s.subrange(0, i);
    let b = s.subrange(i + 1, s.len() as int);
    assert(s =~= a + seq![s[i]] + b);
    assert(s.update(i, c) =~= a + seq![c] + b);
    lemma_pool_short(s[i], s[i]);
    lemma_pool_short(c, c);
    lemma_pool_splice(a, seq![s[i]], seq![c], b);
}

/// Serving a request moves no byte of the pool.
pub proof fn lemma_pool_placed(s: Seq<ChunkView>, i: int, n: nat, generation: u64)
    requires
        0 <= i < s.len(),
        n <= s[i].size(),
    ensures
        pool_bytes(placed(s, i, n, generation)) == pool_bytes(s),
{
    let c = s[i].claimed(n, generation);
    if s[i].size() == n {
        assert(c.bytes =~= s[i].bytes);
        lemma_pool_update(s, i, c);
    } else {
        let r = s[i].remainder(n);
        let a = s.subrange(0, i);
        let b = s.subrange(i + 1, s.len() as int);
        assert(s =~= a + seq![s[i]] + b);
        assert(placed(s, i, n, generation) =~= a + seq![c, r] + b);
        lemma_pool_short(s[i], s[i]);
        lemma_pool_short(c, r);
        assert(c.bytes + r.bytes =~= s[i].bytes);
        lemma_pool_splice(a, seq![s[i]], seq![c, r], b);
    }
}

/// Merging two neighbours moves no byte of the pool.
pub proof fn lemma_pool_merge_at(s: Seq<ChunkView>, i: int)
    requires
        0 <= i,
        i + 1 < s.len(),
    ensures
        pool_bytes(merge_at(s, i)) == pool_bytes(s),
{
    let m = s[i].merged(s[i + 1]);
    let a = s.subrange(0, i);
    let b = s.subrange(i + 2, s.len() as int);
    assert(s =~= a + seq![s[i], s[i + 1]] + b);
    assert(merge_at(s, i) =~= a + seq![m] + b);
    lemma_pool_short(s[i], s[i + 1]);
    lemma_pool_short(m, m);
    lemma_pool_splice(a, seq![s[i], s[i + 1]], seq![m], b);
}

/// Merging around a chunk moves no byte of the pool.
pub proof fn lemma_pool_merged_around(s: Seq<ChunkView>, i: int)
    ensures
        pool_bytes(merged_around(s, i)) == pool_bytes(s),
{
    if both_free(s, i - 1) {
        let u = merge_at(s, i - 1);
        lemma_pool_merge_at(s, i - 1);
        if both_free(u, i - 1) {
            lemma_pool_merge_at(u, i - 1);
        }
    } else if both_free(s, i) {
        lemma_pool_merge_at(s, i);
    }
}

/// Merging every run from chunk `i` on moves no byte of the pool.
pub proof fn lemma_pool_coalesced_from(s: Seq<ChunkView>, i: int)
    ensures
        pool_bytes(coalesced_from(s, i)) == pool_bytes(s),
    decreases s.len(), s.len() - i,
{
    if i < 0 || i + 1 >= s.len() {
    } else if both_free(s, i) {
        lemma_pool_merge_at(s, i);
        lemma_pool_coalesced_from(merge_at(s, i), i);
    } else {
        lemma_pool_coalesced_from(s, i + 1);
    }
}

/// The pool has as many bytes as the sizes of its chunks add up to.
pub proof fn lemma_pool_len(s: Seq<ChunkView>)
    ensures
        pool_bytes(s).len() == total_bytes(s),
    decreases s.len(),
{
    if s.len() > 0 {
        lemma_pool_len(s.drop_last());
    }
}

} // verus!
