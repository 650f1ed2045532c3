//! The tables that the kernel side reads, as the updates leave them, and
//! what holds of the shards that their entries point to.

use vstd::prelude::*;
use crate::mapping::{process_entries, ExecMappingEntry, ExecMappingKey, MappingRecord};
use crate::process::{ExecutableId, ExecutableMapping, ObjectFileInfo};
use crate::extract::{functions_in_order, lemma_table_is_sorted, unwind_table_of, FrameDescription};
use crate::profiler::{
    nothing_published, publish_mapping, publish_mappings, table_rows, usable_rows,
    ChunkIndexWriteView, Publication, UnwindInfoUpdateView, UnwindTable,
};
use crate::shard::{
    admission, chunk_at, chunk_index, filled_shards, slice_start, state_after_admission, ChunkInfo,
    ShardWriteView, UnwindStateView, MAX_SHARDS,
};
use crate::unwind_info::{without_redundant, without_unnecessary_markers, CompactUnwindRow};

verus! {

/// What the tables hold that the unwinder reads: the shards by their
/// index, the chunk indexes by executable, and the mapping table.
pub struct SharedTables {
    pub shards: Map<u64, Seq<CompactUnwindRow>>,
    pub chunk_indexes: Map<ExecutableId, Seq<ChunkInfo>>,
    pub mappings: Map<ExecMappingKey, MappingRecord>,
}

impl SharedTables {
    /// The tables with nothing in them.
    pub open spec fn empty() -> SharedTables {
        SharedTables { shards: Map::empty(), chunk_indexes: Map::empty(), mappings: Map::empty() }
    }
}

/// The shards after the first `n` writes.
pub open spec fn with_shards(
    shards: Map<u64, Seq<CompactUnwindRow>>,
    writes: Seq<ShardWriteView>,
    n: int,
) -> Map<u64, Seq<CompactUnwindRow>>
    decreases n,
{
    if n <= 0 {
        shards
    } else {
        with_shards(shards, writes, n - 1).insert(writes[n - 1].shard_index, writes[n - 1].rows)
    }
}

/// The chunk indexes after the first `n` writes.
pub open spec fn with_chunk_indexes(
    indexes: Map<ExecutableId, Seq<ChunkInfo>>,
    writes: Seq<ChunkIndexWriteView>,
    n: int,
) -> Map<ExecutableId, Seq<ChunkInfo>>
    decreases n,
{
    if n <= 0 {
        indexes
    } else {
        with_chunk_indexes(indexes, writes, n - 1).insert(
            writes[n - 1].executable_id,
            writes[n - 1].chunks,
        )
    }
}

/// The mapping table after the first `n` entries were written.
pub open spec fn with_mappings(
    mappings: Map<ExecMappingKey, MappingRecord>,
    entries: Seq<ExecMappingEntry>,
    n: int,
) -> Map<ExecMappingKey, MappingRecord>
    decreases n,
{
    if n <= 0 {
        mappings
    } else {
        with_mappings(mappings, entries, n - 1).insert(entries[n - 1].key, entries[n - 1].value)
    }
}

/// The tables after an update: cleared on a reset, else with what the
/// update holds written over what was there.
pub open spec fn updated(tables: SharedTables, update: UnwindInfoUpdateView) -> SharedTables {
    match update {
        UnwindInfoUpdateView::Reset => SharedTables::empty(),
        UnwindInfoUpdateView::Publish { shards, chunk_indexes, mappings } => SharedTables {
            shards: with_shards(tables.shards, shards, shards.len() as int),
            chunk_indexes: with_chunk_indexes(
                tables.chunk_indexes,
                chunk_indexes,
                chunk_indexes.len() as int,
            ),
            mappings: with_mappings(tables.mappings, mappings, mappings.len() as int),
        },
    }
}

/// The entry of the mapping table under `key` names an executable one of
/// whose chunks lies in the shard `shard`.
pub open spec fn refers_to_shard(tables: SharedTables, key: ExecMappingKey, shard: u64) -> bool {
    &&& tables.mappings.contains_key(key)
    &&& tables.chunk_indexes.contains_key(tables.mappings[key].executable_id)
    &&& exists|k: int|
        0 <= k < tables.chunk_indexes[tables.mappings[key].executable_id].len() && (
        #[trigger] tables.chunk_indexes[tables.mappings[key].executable_id][k])
            != ChunkInfo::zeroed()
            && tables.chunk_indexes[tables.mappings[key].executable_id][k].shard_index == shard
}

/// No chunk lies in a shard past `shard_index`.
pub open spec fn chunks_within(chunks: Seq<ChunkInfo>, shard_index: u64) -> bool {
    forall|k: int| 0 <= k < chunks.len() ==> (#[trigger] chunks[k]).shard_index <= shard_index
}

/// No chunk of any executable lies in a shard past `shard_index`.
pub open spec fn indexes_within(
    indexes: Map<ExecutableId, Seq<ChunkInfo>>,
    shard_index: u64,
) -> bool {
    forall|id: ExecutableId|
        indexes.contains_key(id) ==> chunks_within(#[trigger] indexes[id], shard_index)
}

/// What the update is that adding the unwind information of a process
/// gives, from what was gathered for its mappings.
pub open spec fn update_of(pid: u32, gathered: Option<Publication>) -> UnwindInfoUpdateView {
    match gathered {
        None => UnwindInfoUpdateView::Reset,
        Some(gathered) => UnwindInfoUpdateView::Publish {
            shards: gathered.shards,
            chunk_indexes: gathered.chunk_indexes,
            mappings: process_entries(pid, gathered.records, gathered.records.len() as int),
        },
    }
}

/// The chunks of an executable that was packed lie in no shard past the
/// one that is live afterwards, and the live shard never moves back.
pub proof fn lemma_admitted_chunks_within(
    state: UnwindStateView,
    executable_id: u64,
    rows: Seq<CompactUnwindRow>,
)
    requires
        state.wf(),
        admission(state, executable_id, rows) is Admitted,
    ensures
        state_after_admission(state, executable_id, rows).wf(),
        state.shard_index <= state_after_admission(state, executable_id, rows).shard_index,
        chunks_within(
            chunk_index(state, rows),
            state_after_admission(state, executable_id, rows).shard_index,
        ),
{
    let fill = state.fill();
    let n = rows.len() as int;
    let filled = filled_shards(fill, n);
    let left = (MAX_SHARDS - state.shard_index) as int;
    assert(slice_start(fill, filled) <= n < slice_start(fill, filled + 1));
    assert(n <= slice_start(fill, left));
    if filled > left {
        assert(slice_start(fill, left + 1) <= slice_start(fill, filled));
    }
    let chunks = chunk_index(state, rows);
    assert forall|k: int| 0 <= k < chunks.len() implies (#[trigger] chunks[k]).shard_index
        <= state.shard_index + filled by {
        if slice_start(fill, k) < n {
            assert(chunks[k] == chunk_at(state, rows, k));
            if k > filled {
                assert(slice_start(fill, filled + 1) <= slice_start(fill, k));
            }
        }
    }
}

proof fn lemma_indexes_stay_within(
    indexes: Map<ExecutableId, Seq<ChunkInfo>>,
    writes: Seq<ChunkIndexWriteView>,
    n: int,
    shard_index: u64,
)
    requires
        0 <= n <= writes.len(),
        indexes_within(indexes, shard_index),
        forall|j: int| 0 <= j < n ==> chunks_within((#[trigger] writes[j]).chunks, shard_index),
    ensures
        indexes_within(with_chunk_indexes(indexes, writes, n), shard_index),
    decreases n,
{
    if n > 0 {
        lemma_indexes_stay_within(indexes, writes, n - 1, shard_index);
        let before = with_chunk_indexes(indexes, writes, n - 1);
        let after = with_chunk_indexes(indexes, writes, n);
        assert(chunks_within(writes[n - 1].chunks, shard_index));
        assert forall|id: ExecutableId| after.contains_key(id) implies chunks_within(
            #[trigger] after[id],
            shard_index,
        ) by {
            if id != writes[n - 1].executable_id {
                assert(before.contains_key(id));
            }
        }
    }
}

proof fn lemma_gathered_within(
    state: UnwindStateView,
    mappings: Seq<ExecutableMapping>,
    files: Map<ExecutableId, ObjectFileInfo>,
    tables: Seq<UnwindTable>,
    n: int,
)
    requires
        state.wf(),
    ensures
        match publish_mappings(nothing_published(state), mappings, files, tables, n) {
            None => true,
            Some(gathered) => {
                &&& gathered.state.wf()
                &&& state.shard_index <= gathered.state.shard_index
                &&& forall|j: int|
                    0 <= j < gathered.chunk_indexes.len() ==> chunks_within(
                        (#[trigger] gathered.chunk_indexes[j]).chunks,
                        gathered.state.shard_index,
                    )
            },
        },
    decreases n,
{
    if n > 0 {
        lemma_gathered_within(state, mappings, files, tables, n - 1);
        match publish_mappings(nothing_published(state), mappings, files, tables, n - 1) {
            None => {},
            Some(so_far) => {
                let mapping = mappings[n - 1];
                let id = mapping.executable_id;
                match publish_mapping(so_far, mapping, files, tables) {
                    None => {},
                    Some(gathered) => {
                        if gathered.state != so_far.state {
                            let rows = usable_rows(tables, id)->0;
                            lemma_admitted_chunks_within(so_far.state, id, rows);
                            assert forall|j: int|
                                0 <= j < gathered.chunk_indexes.len() implies chunks_within(
                                (#[trigger] gathered.chunk_indexes[j]).chunks,
                                gathered.state.shard_index,
                            ) by {
                                if j < so_far.chunk_indexes.len() {
                                    assert(gathered.chunk_indexes[j] == so_far.chunk_indexes[j]);
                                    assert(chunks_within(
                                        so_far.chunk_indexes[j].chunks,
                                        so_far.state.shard_index,
                                    ));
                                }
                            }
                        } else if gathered.chunk_indexes != so_far.chunk_indexes {
                            let rows = usable_rows(tables, id)->0;
                            lemma_admitted_chunks_within(so_far.state, id, rows);
                            assert forall|j: int|
                                0 <= j < gathered.chunk_indexes.len() implies chunks_within(
                                (#[trigger] gathered.chunk_indexes[j]).chunks,
                                gathered.state.shard_index,
                            ) by {
                                if j < so_far.chunk_indexes.len() {
                                    assert(gathered.chunk_indexes[j] == so_far.chunk_indexes[j]);
                                }
                            }
                        }
                    },
                }
            },
        }
    }
}

/// A reset leaves the tables empty: whatever they held, no entry of the
/// mapping table refers to any shard afterwards, and so to none from the
/// live shard on.
pub proof fn lemma_reset_leaves_no_reference(tables: SharedTables, key: ExecMappingKey, shard: u64)
    ensures
        updated(tables, UnwindInfoUpdateView::Reset) == SharedTables::empty(),
        !refers_to_shard(updated(tables, UnwindInfoUpdateView::Reset), key, shard),
{
}

/// Adding the unwind information of a process keeps the tables and the
/// shard manager in step. Where no chunk lay in a shard past the live one
/// before, none does after the update: the update either wipes the tables
/// and starts over at shard 0, or it writes chunks that lie in shards up
/// to the one that is live afterwards. So no entry of the mapping table
/// ever refers to a shard past the live one.
pub proof fn lemma_update_keeps_tables_within(
    tables: SharedTables,
    state: UnwindStateView,
    pid: u32,
    mappings: Seq<ExecutableMapping>,
    files: Map<ExecutableId, ObjectFileInfo>,
    unwind_tables: Seq<UnwindTable>,
    key: ExecMappingKey,
    shard: u64,
)
    requires
        state.wf(),
        indexes_within(tables.chunk_indexes, state.shard_index),
    ensures
        ({
            let gathered = publish_mappings(
                nothing_published(state),
                mappings,
                files,
                unwind_tables,
                mappings.len() as int,
            );
            let after = updated(tables, update_of(pid, gathered));
            let live = match gathered {
                None => UnwindStateView::initial().shard_index,
                Some(gathered) => gathered.state.shard_index,
            };
            &&& indexes_within(after.chunk_indexes, live)
            &&& shard > live ==> !refers_to_shard(after, key, shard)
            &&& gathered is None ==> !refers_to_shard(after, key, shard)
        }),
{
    let gathered = publish_mappings(
        nothing_published(state),
        mappings,
        files,
        unwind_tables,
        mappings.len() as int,
    );
    lemma_gathered_within(state, mappings, files, unwind_tables, mappings.len() as int);
    match gathered {
        None => {},
        Some(g) => {
            let live = g.state.shard_index;
            assert(indexes_within(tables.chunk_indexes, live)) by {
                assert forall|id: ExecutableId|
                    tables.chunk_indexes.contains_key(id) implies chunks_within(
                    #[trigger] tables.chunk_indexes[id],
                    live,
                ) by {
                    assert(chunks_within(tables.chunk_indexes[id], state.shard_index));
                }
            }
            lemma_indexes_stay_within(
                tables.chunk_indexes,
                g.chunk_indexes,
                g.chunk_indexes.len() as int,
                live,
            );
            let after = updated(tables, update_of(pid, gathered));
            if refers_to_shard(after, key, shard) {
                let id = after.mappings[key].executable_id;
                assert(chunks_within(after.chunk_indexes[id], live));
            }
        },
    }
}

/// The table that is made of functions in rising order that do not
/// overlap is packed: where it is the table that was read for an
/// executable, the rows that are left of it after the two passes are
/// usable.
pub proof fn lemma_extracted_table_is_usable(
    tables: Seq<UnwindTable>,
    id: ExecutableId,
    fdes: Seq<FrameDescription>,
)
    requires
        functions_in_order(fdes),
        unwind_table_of(fdes) is Ok,
        table_rows(tables, id, 0) == Some(unwind_table_of(fdes)->Ok_0),
    ensures
        usable_rows(tables, id) == Some(
            without_redundant(without_unnecessary_markers(unwind_table_of(fdes)->Ok_0)),
        ),
{
    lemma_table_is_sorted(fdes);
}

} // verus!
