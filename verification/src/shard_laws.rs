//! What the chunk index of an executable guarantees.

use vstd::prelude::*;
use crate::shard::{
    admission, chunk_at, chunk_index, exhausted, filled_shards, shard_write_at, shard_writes,
    slice_end, slice_start, state_after_admission, ChunkInfo, UnwindStateView, MAX_CHUNKS,
    MAX_SHARDS, SHARD_CAPACITY,
};
use crate::unwind_info::{strictly_sorted, CompactUnwindRow};

verus! {

/// The number of slices into which `n` rows are cut when the live shard
/// holds `fill` rows.
pub open spec fn slice_count(fill: int, n: int) -> int {
    if n <= 0 {
        0
    } else {
        filled_shards(fill, n - 1) + 1
    }
}

/// The first `live` chunks cover the addresses from `first_pc` to `last_pc`
/// without a gap and without an overlap, and the chunks after them are
/// zeroed.
pub open spec fn tiles(chunks: Seq<ChunkInfo>, live: int, first_pc: u64, last_pc: u64) -> bool {
    &&& 1 <= live <= chunks.len()
    &&& chunks[0].low_pc == first_pc
    &&& chunks[live - 1].high_pc == last_pc
    &&& forall|k: int| 0 <= k < live ==> (#[trigger] chunks[k]).low_pc <= chunks[k].high_pc
    &&& forall|k: int|
        0 <= k < live - 1 ==> (#[trigger] chunks[k + 1]).low_pc == chunks[k].high_pc + 1
    &&& forall|k: int| live <= k < chunks.len() ==> (#[trigger] chunks[k]) == ChunkInfo::zeroed()
}

proof fn lemma_slice_count(fill: int, n: int)
    requires
        0 <= fill < SHARD_CAPACITY,
        0 < n,
    ensures
        1 <= slice_count(fill, n),
        slice_start(fill, slice_count(fill, n) - 1) < n <= slice_start(fill, slice_count(fill, n)),
        forall|k: int| 0 <= k < slice_count(fill, n) ==> slice_start(fill, k) < n,
        forall|k: int| slice_count(fill, n) <= k ==> n <= slice_start(fill, k),
{
    let m = slice_count(fill, n);
    assert forall|k: int| 0 <= k < m implies slice_start(fill, k) < n by {
        assert(slice_start(fill, k) <= slice_start(fill, m - 1));
    }
    assert forall|k: int| m <= k implies n <= slice_start(fill, k) by {
        assert(slice_start(fill, m) <= slice_start(fill, k));
    }
}

/// The chunk index of an executable that was packed, with rows in strictly
/// rising order and no more slices than the index has room for, covers the
/// addresses from the first row's to the last row's without a gap and
/// without an overlap; the address of every row lies in the chunk of its
/// slice.
pub proof fn lemma_chunks_tile(
    state: UnwindStateView,
    executable_id: u64,
    rows: Seq<CompactUnwindRow>,
)
    requires
        state.wf(),
        strictly_sorted(rows),
        rows.len() > 0,
        admission(state, executable_id, rows) is Admitted,
        slice_count(state.fill(), rows.len() as int) <= MAX_CHUNKS,
    ensures
        admission(state, executable_id, rows)->chunks == chunk_index(state, rows),
        tiles(
            chunk_index(state, rows),
            slice_count(state.fill(), rows.len() as int),
            rows[0].pc,
            rows.last().pc,
        ),
        forall|k: int, j: int|
            0 <= k < slice_count(state.fill(), rows.len() as int) && slice_start(state.fill(), k)
                <= j < slice_end(state.fill(), k, rows.len() as int) ==> chunk_index(
                state,
                rows,
            )[k].low_pc <= (#[trigger] rows[j]).pc <= (#[trigger] chunk_index(
                state,
                rows,
            )[k]).high_pc,
{
    let fill = state.fill();
    let n = rows.len() as int;
    let m = slice_count(fill, n);
    let chunks = chunk_index(state, rows);
    lemma_slice_count(fill, n);
    assert forall|k: int| 0 <= k < m implies (#[trigger] chunks[k]).low_pc <= chunks[k].high_pc by {
        assert(chunks[k] == chunk_at(state, rows, k));
        if slice_start(fill, k + 1) < n {
            assert(rows[slice_start(fill, k)].pc < rows[slice_start(fill, k + 1)].pc);
        } else if slice_start(fill, k) < n - 1 {
            assert(rows[slice_start(fill, k)].pc < rows[n - 1].pc);
        }
    }
    assert forall|k: int| 0 <= k < m - 1 implies (#[trigger] chunks[k + 1]).low_pc
        == chunks[k].high_pc + 1 by {
        assert(chunks[k] == chunk_at(state, rows, k));
        assert(chunks[k + 1] == chunk_at(state, rows, k + 1));
        assert(rows[0].pc < rows[slice_start(fill, k + 1)].pc);
    }
    assert forall|k: int, j: int|
        0 <= k < m && slice_start(fill, k) <= j < slice_end(fill, k, n) implies chunks[k].low_pc
        <= (#[trigger] rows[j]).pc <= (#[trigger] chunks[k]).high_pc by {
        assert(chunks[k] == chunk_at(state, rows, k));
        if slice_start(fill, k) < j {
            assert(rows[slice_start(fill, k)].pc < rows[j].pc);
        }
        if slice_start(fill, k + 1) < n {
            assert(rows[j].pc < rows[slice_start(fill, k + 1)].pc);
        } else if j < n - 1 {
            assert(rows[j].pc < rows[n - 1].pc);
        }
    }
    assert(chunks[m - 1] == chunk_at(state, rows, m - 1));
    assert(chunks[0] == chunk_at(state, rows, 0));
}

/// Every chunk of an executable that was packed says where its slice lies:
/// in a shard that was handed out to be written, or in the live shard, and
/// there the rows from `low_index` up to `high_index` are the rows of the
/// slice, one for one.
pub proof fn lemma_chunks_locate_rows(
    state: UnwindStateView,
    executable_id: u64,
    rows: Seq<CompactUnwindRow>,
    k: int,
    j: int,
)
    requires
        state.wf(),
        admission(state, executable_id, rows) is Admitted,
        0 <= k < slice_count(state.fill(), rows.len() as int),
        slice_start(state.fill(), k) <= j < slice_end(state.fill(), k, rows.len() as int),
    ensures
        ({
            let chunk = chunk_at(state, rows, k);
            let after = state_after_admission(state, executable_id, rows);
            let held = if chunk.shard_index < after.shard_index {
                shard_writes(state, rows)[chunk.shard_index - state.shard_index].rows
            } else {
                after.live_shard
            };
            &&& state.shard_index <= chunk.shard_index <= after.shard_index <= MAX_SHARDS
            &&& chunk.low_index <= chunk.high_index <= held.len() <= SHARD_CAPACITY
            &&& chunk.high_index - chunk.low_index == slice_end(
                state.fill(),
                k,
                rows.len() as int,
            ) - slice_start(state.fill(), k)
            &&& held[chunk.low_index + (j - slice_start(state.fill(), k))] == rows[j]
        }),
{
    let fill = state.fill();
    let n = rows.len() as int;
    let filled = filled_shards(fill, n);
    lemma_slice_count(fill, n);
    assert(slice_start(fill, k) <= slice_start(fill, slice_count(fill, n) - 1));
    assert(slice_start(fill, filled) <= n < slice_start(fill, filled + 1));
    if k < filled {
        assert(slice_start(fill, k + 1) <= slice_start(fill, filled));
        assert(shard_writes(state, rows)[k] == shard_write_at(state, rows, k));
    } else {
        if k > filled {
            assert(slice_start(fill, filled + 1) <= slice_start(fill, k));
        }
        assert(k == filled);
    }
    assert(slice_start(fill, (MAX_SHARDS - state.shard_index) as int) >= n);
    if filled > MAX_SHARDS - state.shard_index {
        assert(slice_start(fill, (MAX_SHARDS - state.shard_index) as int + 1) <= slice_start(
            fill,
            filled,
        ));
    }
}

/// After a reset nothing is left of the state: no shard is in use and no
/// executable counts as published, so that the next admission of any
/// executable packs its rows again, from shard 0 on.
pub proof fn lemma_reset_starts_over(
    state: UnwindStateView,
    executable_id: u64,
    rows: Seq<CompactUnwindRow>,
    next_id: u64,
    next_rows: Seq<CompactUnwindRow>,
)
    requires
        state.wf(),
        admission(state, executable_id, rows) is Reset,
        next_rows.len() <= MAX_SHARDS * SHARD_CAPACITY,
    ensures
        state_after_admission(state, executable_id, rows) == UnwindStateView::initial(),
        admission(UnwindStateView::initial(), next_id, next_rows) is Admitted,
        next_rows.len() > 0 ==> chunk_index(UnwindStateView::initial(), next_rows)[0].shard_index
            == 0,
{
    let fresh = UnwindStateView::initial();
    assert(!exhausted(fresh, next_rows.len() as int));
    if next_rows.len() > 0 {
        assert(chunk_index(fresh, next_rows)[0] == chunk_at(fresh, next_rows, 0));
    }
}

} // verus!
