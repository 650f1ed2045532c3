//! The shard manager: unwind tables are packed, one executable after the
//! other, into shards of a fixed capacity, and each executable gets a short
//! index of chunks that says where in which shard its rows lie.

use vstd::prelude::*;
use std::collections::HashSet;
use crate::unwind_info::{strictly_sorted, CompactUnwindRow};

verus! {

broadcast use vstd::std_specs::hash::group_hash_axioms;

/// The number of shards that exist at any one time.
pub const MAX_SHARDS: u64 = 50;

/// The number of rows that a shard holds.
pub const SHARD_CAPACITY: usize = 250_000;

/// The number of chunks in the index of one executable.
pub const MAX_CHUNKS: usize = 30;

/// Where the rows for the addresses `low_pc..=high_pc` of one executable
/// lie: in shard `shard_index`, from row `low_index` up to, but without, row
/// `high_index`.
#[derive(Clone, Copy, Debug, PartialEq, Eq, Structural)]
pub struct ChunkInfo {
    pub low_pc: u64,
    pub high_pc: u64,
    pub shard_index: u64,
    pub low_index: u64,
    pub high_index: u64,
}

impl ChunkInfo {
    /// The entry that fills the unused slots of an index.
    pub open spec fn zeroed() -> ChunkInfo {
        ChunkInfo { low_pc: 0, high_pc: 0, shard_index: 0, low_index: 0, high_index: 0 }
    }

    pub fn zero() -> (chunk: ChunkInfo)
        ensures
            chunk == ChunkInfo::zeroed(),
    {
        ChunkInfo { low_pc: 0, high_pc: 0, shard_index: 0, low_index: 0, high_index: 0 }
    }
}

/// A full shard that has to be written to the shard table under its index.
#[derive(Debug)]
pub struct ShardWrite {
    pub shard_index: u64,
    pub rows: Vec<CompactUnwindRow>,
}

pub struct ShardWriteView {
    pub shard_index: u64,
    pub rows: Seq<CompactUnwindRow>,
}

impl View for ShardWrite {
    type V = ShardWriteView;

    open spec fn view(&self) -> ShardWriteView {
        ShardWriteView { shard_index: self.shard_index, rows: self.rows@ }
    }
}

/// How an admission ended, and what has to be written to the tables that
/// the kernel side reads.
#[derive(Debug)]
pub enum Admission {
    /// The executable's rows are published already: nothing to do.
    AlreadyKnown,
    /// The shards are used up. The state was wiped; the stack, aggregation,
    /// chunk and mapping tables have to be cleared, and nothing was
    /// published. The next admission starts again at shard 0.
    Reset,
    /// The rows were packed. First the full shards have to be written, in
    /// their order, then the chunk index under the executable's id.
    Admitted { shards: Vec<ShardWrite>, chunks: Vec<ChunkInfo> },
}

pub enum AdmissionView {
    AlreadyKnown,
    Reset,
    Admitted { shards: Seq<ShardWriteView>, chunks: Seq<ChunkInfo> },
}

/// The shards to write, each as what it holds.
pub open spec fn shard_write_views(shards: Seq<ShardWrite>) -> Seq<ShardWriteView> {
    shards.map_values(|w: ShardWrite| w@)
}

impl View for Admission {
    type V = AdmissionView;

    open spec fn view(&self) -> AdmissionView {
        match self {
            Admission::AlreadyKnown => AdmissionView::AlreadyKnown,
            Admission::Reset => AdmissionView::Reset,
            Admission::Admitted { shards, chunks } => AdmissionView::Admitted {
                shards: shard_write_views(shards@),
                chunks: chunks@,
            },
        }
    }
}

/// What the shard manager remembers between admissions.
pub struct NativeUnwindState {
    dirty: bool,
    live_shard: Vec<CompactUnwindRow>,
    known_executables: HashSet<u64>,
    shard_index: u64,
}

pub struct UnwindStateView {
    /// The live shard holds rows that were not written yet.
    pub dirty: bool,
    /// The rows of the shard that is being filled.
    pub live_shard: Seq<CompactUnwindRow>,
    /// The executables whose rows are published.
    pub known_executables: Set<u64>,
    /// The index under which the live shard will be written.
    pub shard_index: u64,
}

impl UnwindStateView {
    /// The state before anything was admitted, and after a reset.
    pub open spec fn initial() -> UnwindStateView {
        UnwindStateView {
            dirty: false,
            live_shard: Seq::empty(),
            known_executables: Set::empty(),
            shard_index: 0,
        }
    }

    /// There is room in the live shard, and no more shards than allowed.
    pub open spec fn wf(self) -> bool {
        &&& self.live_shard.len() < SHARD_CAPACITY
        &&& self.shard_index <= MAX_SHARDS
    }

    /// The number of rows that the live shard holds.
    pub open spec fn fill(self) -> int {
        self.live_shard.len() as int
    }
}

/// The index, among the rows of an executable, of the first row of its
/// `k`-th slice, when the live shard holds `fill` rows: the first slice
/// takes what is free in the live shard, each later one a whole shard.
pub open spec fn slice_start(fill: int, k: int) -> int {
    if k <= 0 {
        0
    } else {
        SHARD_CAPACITY - fill + (k - 1) * SHARD_CAPACITY
    }
}

/// The index after the last row of the `k`-th slice of `n` rows.
pub open spec fn slice_end(fill: int, k: int, n: int) -> int {
    if slice_start(fill, k + 1) < n {
        slice_start(fill, k + 1)
    } else {
        n
    }
}

/// The number of shards that `n` rows fill to the brim.
pub open spec fn filled_shards(fill: int, n: int) -> int {
    if n < SHARD_CAPACITY - fill {
        0
    } else {
        1 + (n - (SHARD_CAPACITY - fill)) / (SHARD_CAPACITY as int)
    }
}

/// The shards do not suffice for `n` more rows: none is left, or a slice
/// would have to go into a shard past the last.
pub open spec fn exhausted(state: UnwindStateView, n: int) -> bool {
    state.shard_index >= MAX_SHARDS || slice_start(state.fill(), MAX_SHARDS - state.shard_index)
        < n
}

/// The chunk for the `k`-th slice of the rows.
pub open spec fn chunk_at(state: UnwindStateView, rows: Seq<CompactUnwindRow>, k: int) -> ChunkInfo {
    let fill = state.fill();
    let n = rows.len() as int;
    let low_index = if k == 0 {
        fill
    } else {
        0
    };
    ChunkInfo {
        low_pc: rows[slice_start(fill, k)].pc,
        high_pc: if slice_start(fill, k + 1) < n {
            (rows[slice_start(fill, k + 1)].pc - 1) as u64
        } else {
            rows[n - 1].pc
        },
        shard_index: (state.shard_index + k) as u64,
        low_index: low_index as u64,
        high_index: (low_index + slice_end(fill, k, n) - slice_start(fill, k)) as u64,
    }
}

/// The chunk index of an executable: a chunk for each slice of its rows,
/// as far as there is room in the index, and zeroed entries after them.
pub open spec fn chunk_index(state: UnwindStateView, rows: Seq<CompactUnwindRow>) -> Seq<ChunkInfo> {
    Seq::new(
        MAX_CHUNKS as nat,
        |k: int|
            if slice_start(state.fill(), k) < rows.len() {
                chunk_at(state, rows, k)
            } else {
                ChunkInfo::zeroed()
            },
    )
}

/// The `k`-th shard that the rows fill.
pub open spec fn shard_write_at(
    state: UnwindStateView,
    rows: Seq<CompactUnwindRow>,
    k: int,
) -> ShardWriteView {
    let fill = state.fill();
    ShardWriteView {
        shard_index: (state.shard_index + k) as u64,
        rows: if k == 0 {
            state.live_shard + rows.subrange(0, slice_start(fill, 1))
        } else {
            rows.subrange(slice_start(fill, k), slice_start(fill, k + 1))
        },
    }
}

/// The shards that the rows fill, in their order.
pub open spec fn shard_writes(state: UnwindStateView, rows: Seq<CompactUnwindRow>) -> Seq<
    ShardWriteView,
> {
    Seq::new(
        filled_shards(state.fill(), rows.len() as int) as nat,
        |k: int| shard_write_at(state, rows, k),
    )
}

/// What an admission answers.
pub open spec fn admission(
    state: UnwindStateView,
    executable_id: u64,
    rows: Seq<CompactUnwindRow>,
) -> AdmissionView {
    if state.known_executables.contains(executable_id) {
        AdmissionView::AlreadyKnown
    } else if exhausted(state, rows.len() as int) {
        AdmissionView::Reset
    } else {
        AdmissionView::Admitted {
            shards: shard_writes(state, rows),
            chunks: chunk_index(state, rows),
        }
    }
}

/// The state that an admission leaves.
pub open spec fn state_after_admission(
    state: UnwindStateView,
    executable_id: u64,
    rows: Seq<CompactUnwindRow>,
) -> UnwindStateView {
    let fill = state.fill();
    let n = rows.len() as int;
    let filled = filled_shards(fill, n);
    if state.known_executables.contains(executable_id) {
        state
    } else if exhausted(state, n) {
        UnwindStateView::initial()
    } else {
        UnwindStateView {
            dirty: true,
            live_shard: if filled == 0 {
                state.live_shard + rows
            } else {
                rows.subrange(slice_start(fill, filled), n)
            },
            known_executables: state.known_executables.insert(executable_id),
            shard_index: (state.shard_index + filled) as u64,
        }
    }
}

proof fn lemma_filled_shards(fill: int, n: int)
    requires
        0 <= fill < SHARD_CAPACITY,
        0 <= n,
    ensures
        0 <= filled_shards(fill, n),
        slice_start(fill, filled_shards(fill, n)) <= n < slice_start(
            fill,
            filled_shards(fill, n) + 1,
        ),
{
}

proof fn lemma_filled_shards_unique(fill: int, n: int, f: int)
    requires
        0 <= fill < SHARD_CAPACITY,
        0 <= n,
        0 <= f,
        slice_start(fill, f) <= n < slice_start(fill, f + 1),
    ensures
        f == filled_shards(fill, n),
{
    lemma_filled_shards(fill, n);
    let g = filled_shards(fill, n);
    if f < g {
        assert(slice_start(fill, f + 1) <= slice_start(fill, g));
    } else if g < f {
        assert(slice_start(fill, g + 1) <= slice_start(fill, f));
    }
}

impl View for NativeUnwindState {
    type V = UnwindStateView;

    closed spec fn view(&self) -> UnwindStateView {
        UnwindStateView {
            dirty: self.dirty,
            live_shard: self.live_shard@,
            known_executables: self.known_executables@,
            shard_index: self.shard_index,
        }
    }
}

impl Default for NativeUnwindState {
    fn default() -> (state: NativeUnwindState)
        ensures
            state@ == UnwindStateView::initial(),
    {
        NativeUnwindState {
            dirty: false,
            live_shard: Vec::with_capacity(SHARD_CAPACITY),
            known_executables: HashSet::new(),
            shard_index: 0,
        }
    }
}

impl NativeUnwindState {
    /// The live shard holds rows that were not written yet.
    pub fn is_dirty(&self) -> (dirty: bool)
        ensures
            dirty == self@.dirty,
    {
        self.dirty
    }

    /// The index under which the live shard is written.
    pub fn shard_index(&self) -> (index: u64)
        ensures
            index == self@.shard_index,
    {
        self.shard_index
    }

    /// The rows of the shard that is being filled.
    pub fn live_shard(&self) -> (rows: &Vec<CompactUnwindRow>)
        ensures
            rows@ == self@.live_shard,
    {
        &self.live_shard
    }

    /// Says whether the rows of the executable are published.
    pub fn is_known(&self, executable_id: u64) -> (known: bool)
        ensures
            known == self@.known_executables.contains(executable_id),
    {
        self.known_executables.contains(&executable_id)
    }

    /// Notes that the live shard has to be written again.
    pub fn mark_dirty(&mut self)
        ensures
            final(self)@ == (UnwindStateView { dirty: true, ..old(self)@ }),
    {
        self.dirty = true;
    }

    /// Notes that the live shard was written as it is.
    pub fn mark_persisted(&mut self)
        ensures
            final(self)@ == (UnwindStateView { dirty: false, ..old(self)@ }),
    {
        self.dirty = false;
    }

    /// Forgets that the rows of an executable were published, so that its
    /// next admission packs them again: for an executable whose tables
    /// could not be written.
    pub fn forget(&mut self, executable_id: u64)
        ensures
            final(self)@ == (UnwindStateView {
                known_executables: old(self)@.known_executables.remove(executable_id),
                ..old(self)@
            }),
    {
        self.known_executables.remove(&executable_id);
    }

    /// Says whether the shards do not suffice for `n` more rows.
    fn is_exhausted(&self, n: usize) -> (full: bool)
        requires
            self@.wf(),
        ensures
            full == exhausted(self@, n as int),
    {
        if self.shard_index >= MAX_SHARDS {
            return true;
        }
        let left: u64 = MAX_SHARDS - self.shard_index;
        let free: u64 = (SHARD_CAPACITY - self.live_shard.len()) as u64;
        let room: u64 = free + (left - 1) * (SHARD_CAPACITY as u64);
        room < (n as u64)
    }

    /// Packs the rows of an executable into the shards and says what has
    /// to be written.
    ///
    /// The rows are cut into slices: the first takes what is free in the
    /// live shard, each later one a whole shard, the last what is left.
    /// Each slice gets a chunk; a shard that a slice fills is handed out
    /// to be written and a new one is begun. The rows come in strictly
    /// rising order of `pc`, as every unwind table does.
    pub fn admit_executable(&mut self, executable_id: u64, rows: &Vec<CompactUnwindRow>) -> (outcome: Admission)
        requires
            old(self)@.wf(),
            strictly_sorted(rows@),
        ensures
            final(self)@.wf(),
            outcome@ == admission(old(self)@, executable_id, rows@),
            final(self)@ == state_after_admission(old(self)@, executable_id, rows@),
    {
        if self.known_executables.contains(&executable_id) {
            return Admission::AlreadyKnown;
        }
        let n: usize = rows.len();
        if self.is_exhausted(n) {
            self.dirty = false;
            self.live_shard.truncate(0);
            self.known_executables.clear();
            self.shard_index = 0;
            assert(self.live_shard@ =~= Seq::<CompactUnwindRow>::empty());
            return Admission::Reset;
        }
        let ghost before = self@;
        let ghost fill = before.fill();
        let mut shards: Vec<ShardWrite> = Vec::new();
        let mut chunks: Vec<ChunkInfo> = Vec::new();
        let mut offset: usize = 0;
        while offset < n
            invariant
                n == rows.len(),
                strictly_sorted(rows@),
                before.wf(),
                fill == before.fill(),
                !exhausted(before, n as int),
                self.dirty == before.dirty,
                self.known_executables@ == before.known_executables,
                self.live_shard.len() < SHARD_CAPACITY,
                offset <= n,
                chunks.len() == 0 ==> offset == 0,
                offset < n ==> offset == slice_start(fill, chunks.len() as int),
                offset == n ==> chunks.len() > 0 ==> slice_start(fill, chunks.len() - 1) < n
                    <= slice_start(fill, chunks.len() as int),
                chunks.len() <= MAX_SHARDS - before.shard_index,
                chunks@ == Seq::new(chunks.len() as nat, |k: int| chunk_at(before, rows@, k)),
                self.shard_index == before.shard_index + shards.len(),
                shards.len() <= chunks.len(),
                slice_start(fill, shards.len() as int) <= offset,
                self.live_shard@ == (if shards.len() == 0 {
                    before.live_shard + rows@.subrange(0, offset as int)
                } else {
                    rows@.subrange(slice_start(fill, shards.len() as int), offset as int)
                }),
                shard_write_views(shards@) == Seq::new(
                    shards.len() as nat,
                    |k: int| shard_write_at(before, rows@, k),
                ),
            decreases n - offset,
        {
            let ghost k = chunks.len() as int;
            let free: usize = SHARD_CAPACITY - self.live_shard.len();
            let take: usize = if free < n - offset {
                free
            } else {
                n - offset
            };
            let stop: usize = offset + take;
            assert(shards.len() == k);
            assert(stop == slice_end(fill, k, n as int));
            let low_index: u64 = self.live_shard.len() as u64;
            let ghost live_before = self.live_shard@;
            let mut j: usize = offset;
            while j < stop
                invariant
                    offset <= j <= stop <= n,
                    n == rows.len(),
                    self.live_shard@ == live_before + rows@.subrange(offset as int, j as int),
                    live_before.len() + (stop - offset) <= SHARD_CAPACITY,
                    self.dirty == before.dirty,
                    self.known_executables@ == before.known_executables,
                    self.shard_index == before.shard_index + shards.len(),
                decreases stop - j,
            {
                self.live_shard.push(rows[j]);
                assert(rows@.subrange(offset as int, j + 1) == rows@.subrange(
                    offset as int,
                    j as int,
                ).push(rows@[j as int]));
                j += 1;
            }
            let high_index: u64 = self.live_shard.len() as u64;
            let high_pc: u64 = if stop < n {
                assert(rows[0].pc < rows[stop as int].pc);
                rows[stop].pc - 1
            } else {
                rows[n - 1].pc
            };
            let chunk = ChunkInfo {
                low_pc: rows[offset].pc,
                high_pc,
                shard_index: self.shard_index,
                low_index,
                high_index,
            };
            assert(chunk == chunk_at(before, rows@, k));
            let ghost chunks_before = chunks@;
            chunks.push(chunk);
            assert(chunks@ == Seq::new(chunks.len() as nat, |i: int| chunk_at(before, rows@, i)));
            assert(self.live_shard@ == (if k == 0 {
                before.live_shard + rows@.subrange(0, stop as int)
            } else {
                rows@.subrange(slice_start(fill, k), stop as int)
            })) by {
                if k == 0 {
                    assert(rows@.subrange(0, 0) == Seq::<CompactUnwindRow>::empty());
                    assert(before.live_shard + rows@.subrange(0, 0) == before.live_shard);
                } else {
                    assert(live_before == Seq::<CompactUnwindRow>::empty());
                    assert(live_before + rows@.subrange(offset as int, stop as int)
                        == rows@.subrange(offset as int, stop as int));
                }
            }
            if self.live_shard.len() == SHARD_CAPACITY {
                let mut full: Vec<CompactUnwindRow> = Vec::with_capacity(SHARD_CAPACITY);
                std::mem::swap(&mut self.live_shard, &mut full);
                let ghost shards_before = shards@;
                let write = ShardWrite { shard_index: self.shard_index, rows: full };
                assert(write@ == shard_write_at(before, rows@, k));
                shards.push(write);
                assert(shard_write_views(shards@) == Seq::new(
                    shards.len() as nat,
                    |i: int| shard_write_at(before, rows@, i),
                )) by {
                    assert(shard_write_views(shards@) == shard_write_views(shards_before).push(write@));
                }
                self.shard_index += 1;
                assert(self.live_shard@ == rows@.subrange(stop as int, stop as int));
            }
            offset = stop;
        }
        proof {
            lemma_filled_shards_unique(fill, n as int, shards.len() as int);
        }
        let ghost slices = chunks@;
        chunks.truncate(MAX_CHUNKS);
        while chunks.len() < MAX_CHUNKS
            invariant
                chunks.len() <= MAX_CHUNKS,
                chunks.len() < MAX_CHUNKS ==> slices.len() <= chunks.len(),
                forall|k: int|
                    0 <= k < chunks.len() ==> chunks[k] == (if k < slices.len() {
                        slices[k]
                    } else {
                        ChunkInfo::zeroed()
                    }),
            decreases MAX_CHUNKS - chunks.len(),
        {
            chunks.push(ChunkInfo::zero());
        }
        assert(chunks@ == chunk_index(before, rows@)) by {
            assert forall|k: int| 0 <= k < MAX_CHUNKS implies chunks@[k] == chunk_index(
                before,
                rows@,
            )[k] by {
                if k < slices.len() {
                    assert(slice_start(fill, k) <= slice_start(fill, slices.len() - 1));
                    assert(slices[k] == chunk_at(before, rows@, k));
                } else {
                    assert(slice_start(fill, slices.len() as int) <= slice_start(fill, k));
                }
            }
        }
        self.known_executables.insert(executable_id);
        self.dirty = true;
        proof {
            assert(rows@.subrange(0, n as int) == rows@);
            assert(self@.live_shard == state_after_admission(
                before,
                executable_id,
                rows@,
            ).live_shard);
        }
        Admission::Admitted { shards, chunks }
    }
}

} // verus!
