//! The profiler's decisions: what it keeps of processes and unwind tables,
//! what it does on each event, and what it writes for the kernel side when
//! the unwind information of a process is added.

use vstd::prelude::*;
use std::collections::HashMap;
use std::time::Duration;
use crate::bytes::le_bytes;
use crate::layout::{encode_shard, encode_u64, shard_bytes};
use crate::mapping::{
    exec_mapping_entries, process_entries, ExecMappingEntry, MappingRecord, MAPPING_TYPE_JITTED,
    MAPPING_TYPE_NORMAL, MAPPING_TYPE_VDSO,
};
use crate::memory_map::{MemoryMap, ObjectFileError};
use crate::process::{
    ExecutableId, ExecutableMapping, MappingType, ObjectFileInfo, ProcessInfo, ProcessStatus,
    TracerEvent,
};
use crate::sample::{collect_profile, profile_of, AggregatedEntry, RawAggregatedProfile};
use crate::shard::{
    admission, shard_write_views, state_after_admission, Admission, AdmissionView, ChunkInfo,
    NativeUnwindState, ShardWrite, ShardWriteView, UnwindStateView,
};
use crate::tracker::{enrolment, retirement, ProcessTracker};
use crate::unwind_info::{
    is_strictly_sorted, remove_redundant, remove_unnecessary_markers, strictly_sorted,
    without_redundant, without_unnecessary_markers, CompactUnwindRow,
};

verus! {

broadcast use vstd::std_specs::hash::group_hash_axioms;

/// The number of entries that the table of aggregated stacks holds.
pub const MAX_AGGREGATED_STACKS_ENTRIES: u64 = 10_000;

/// The number of the event that reports a new process.
pub const EVENT_NEW_PROCESS: u32 = 1;

/// The seconds between two collections of a profile.
pub const SESSION_SECONDS: u32 = 5;

/// The milliseconds between two looks at whether the live shard has to be
/// written.
pub const PERSIST_MILLIS: u64 = 100;

/// The milliseconds that the control loop waits for an event at most.
pub const TICK_MILLIS: u64 = 100;

/// How often a write to a table of the kernel side is tried before the
/// executable it belongs to is left out.
pub const TABLE_WRITE_ATTEMPTS: u32 = 2;

pub struct ProfilerConfig {
    pub libbpf_debug: bool,
    pub bpf_logging: bool,
    pub duration: Duration,
    pub sample_freq: u16,
    pub perf_buffer_bytes: usize,
    pub mapsize_info: bool,
    pub mapsize_stacks: u32,
    pub mapsize_aggregated_stacks: u32,
    pub mapsize_unwind_info_chunks: u32,
    pub mapsize_unwind_tables: u32,
    pub mapsize_rate_limits: u32,
}

/// `Duration::MAX`, the longest time that a `Duration` can hold. Nothing is
/// claimed of it: a `Duration` is carried through, never looked into.
#[verifier::external_body]
fn longest_duration() -> (d: Duration) {
    Duration::MAX
}

impl Default for ProfilerConfig {
    /// The configuration of a profiler that runs for as long as it is left
    /// to.
    fn default() -> (config: ProfilerConfig)
        ensures
            !config.libbpf_debug,
            !config.bpf_logging,
            config.sample_freq == 19,
            config.perf_buffer_bytes == 512 * 1024,
            !config.mapsize_info,
            config.mapsize_stacks == 100000,
            config.mapsize_aggregated_stacks == 10000,
            config.mapsize_unwind_info_chunks == 5000,
            config.mapsize_unwind_tables == 65,
            config.mapsize_rate_limits == 5000,
    {
        ProfilerConfig {
            libbpf_debug: false,
            bpf_logging: false,
            duration: longest_duration(),
            sample_freq: 19,
            perf_buffer_bytes: 512 * 1024,
            mapsize_info: false,
            mapsize_stacks: 100000,
            mapsize_aggregated_stacks: 10000,
            mapsize_unwind_info_chunks: 5000,
            mapsize_unwind_tables: 65,
            mapsize_rate_limits: 5000,
        }
    }
}

/// The unwind table that was read from the file of an executable.
#[derive(Debug)]
pub struct UnwindTable {
    pub executable_id: ExecutableId,
    pub rows: Vec<CompactUnwindRow>,
}

/// The chunk index of an executable, to be written under its id.
#[derive(Debug)]
pub struct ChunkIndexWrite {
    pub executable_id: ExecutableId,
    pub chunks: Vec<ChunkInfo>,
}

pub struct ChunkIndexWriteView {
    pub executable_id: ExecutableId,
    pub chunks: Seq<ChunkInfo>,
}

impl View for ChunkIndexWrite {
    type V = ChunkIndexWriteView;

    open spec fn view(&self) -> ChunkIndexWriteView {
        ChunkIndexWriteView { executable_id: self.executable_id, chunks: self.chunks@ }
    }
}

/// The chunk indexes to write, each as what it holds.
pub open spec fn chunk_index_views(indexes: Seq<ChunkIndexWrite>) -> Seq<ChunkIndexWriteView> {
    indexes.map_values(|w: ChunkIndexWrite| w@)
}

/// What has to be done to the tables that the kernel side reads once the
/// unwind information of a process was added.
#[derive(Debug)]
pub enum UnwindInfoUpdate {
    /// The shards were used up and the state was wiped: the stack,
    /// aggregation, chunk and mapping tables have to be cleared, and
    /// nothing is written. The next new-process event starts over.
    Reset,
    /// To be written in this order: the full shards, the chunk indexes,
    /// the entries of the mapping table.
    Publish {
        shards: Vec<ShardWrite>,
        chunk_indexes: Vec<ChunkIndexWrite>,
        mappings: Vec<ExecMappingEntry>,
    },
}

pub enum UnwindInfoUpdateView {
    Reset,
    Publish {
        shards: Seq<ShardWriteView>,
        chunk_indexes: Seq<ChunkIndexWriteView>,
        mappings: Seq<ExecMappingEntry>,
    },
}

impl View for UnwindInfoUpdate {
    type V = UnwindInfoUpdateView;

    open spec fn view(&self) -> UnwindInfoUpdateView {
        match self {
            UnwindInfoUpdate::Reset => UnwindInfoUpdateView::Reset,
            UnwindInfoUpdate::Publish { shards, chunk_indexes, mappings } => UnwindInfoUpdateView::Publish {
                shards: shard_write_views(shards@),
                chunk_indexes: chunk_index_views(chunk_indexes@),
                mappings: mappings@,
            },
        }
    }
}

/// The key and the value of an entry of a table, as bytes.
#[derive(Debug)]
pub struct TableWrite {
    pub key: Vec<u8>,
    pub value: Vec<u8>,
}

/// What was gathered for a process after some of its mappings: the state
/// of the shards, the records of the mappings, and what is to be written.
pub struct Publication {
    pub state: UnwindStateView,
    pub records: Seq<MappingRecord>,
    pub shards: Seq<ShardWriteView>,
    pub chunk_indexes: Seq<ChunkIndexWriteView>,
}

/// The rows of the first table, from `from` on, that was read for the
/// executable.
pub open spec fn table_rows(tables: Seq<UnwindTable>, id: ExecutableId, from: int) -> Option<
    Seq<CompactUnwindRow>,
>
    decreases tables.len() - from,
{
    if from < 0 || from >= tables.len() {
        None
    } else if tables[from].executable_id == id {
        Some(tables[from].rows@)
    } else {
        table_rows(tables, id, from + 1)
    }
}

/// The rows with which an executable is packed: those of its table after
/// the two passes of the optimizer, if a table was read, and rows are left
/// that come in strictly rising order.
pub open spec fn usable_rows(tables: Seq<UnwindTable>, id: ExecutableId) -> Option<
    Seq<CompactUnwindRow>,
> {
    match table_rows(tables, id, 0) {
        Some(raw) => {
            let rows = without_redundant(without_unnecessary_markers(raw));
            if rows.len() > 0 && strictly_sorted(rows) {
                Some(rows)
            } else {
                None
            }
        },
        None => None,
    }
}

/// What is subtracted from a sampled address of a file-backed mapping: the
/// address at which the file is loaded, but nothing for a main executable
/// that is not position independent.
pub open spec fn effective_load_address(mapping: ExecutableMapping, is_dyn: bool) -> u64 {
    if mapping.main_exec && !is_dyn {
        0
    } else {
        mapping.load_address
    }
}

/// The record of a mapping for the kernel side.
pub open spec fn record_of(mapping: ExecutableMapping, is_dyn: bool) -> MappingRecord {
    match mapping.kind {
        MappingType::Anonymous => MappingRecord {
            load_address: 0,
            begin: mapping.start_addr,
            end: mapping.end_addr,
            executable_id: 0,
            type_: MAPPING_TYPE_JITTED,
        },
        MappingType::Vdso => MappingRecord {
            load_address: 0,
            begin: mapping.start_addr,
            end: mapping.end_addr,
            executable_id: 0,
            type_: MAPPING_TYPE_VDSO,
        },
        MappingType::FileBacked => MappingRecord {
            load_address: effective_load_address(mapping, is_dyn),
            begin: mapping.start_addr,
            end: mapping.end_addr,
            executable_id: mapping.executable_id,
            type_: MAPPING_TYPE_NORMAL,
        },
    }
}

/// What one mapping adds to what was gathered, or `None` where the shards
/// are used up.
///
/// A mapping without a file is recorded as it is. A file-backed mapping
/// whose object file is not known is passed over. Any other is recorded,
/// and where the rows of its executable are not published yet and usable
/// rows were read, they are packed into the shards.
pub open spec fn publish_mapping(
    so_far: Publication,
    mapping: ExecutableMapping,
    files: Map<ExecutableId, ObjectFileInfo>,
    tables: Seq<UnwindTable>,
) -> Option<Publication> {
    let id = mapping.executable_id;
    if mapping.kind != MappingType::FileBacked {
        Some(Publication { records: so_far.records.push(record_of(mapping, false)), ..so_far })
    } else if !files.contains_key(id) {
        Some(so_far)
    } else {
        let recorded = Publication {
            records: so_far.records.push(record_of(mapping, files[id].is_dyn)),
            ..so_far
        };
        if so_far.state.known_executables.contains(id) {
            Some(recorded)
        } else {
            match usable_rows(tables, id) {
                None => Some(recorded),
                Some(rows) => match admission(so_far.state, id, rows) {
                    AdmissionView::Admitted { shards, chunks } => Some(
                        Publication {
                            state: state_after_admission(so_far.state, id, rows),
                            records: recorded.records,
                            shards: so_far.shards + shards,
                            chunk_indexes: so_far.chunk_indexes.push(
                                ChunkIndexWriteView { executable_id: id, chunks },
                            ),
                        },
                    ),
                    _ => None,
                },
            }
        }
    }
}

/// What the first `n` mappings add, one after the other.
pub open spec fn publish_mappings(
    start: Publication,
    mappings: Seq<ExecutableMapping>,
    files: Map<ExecutableId, ObjectFileInfo>,
    tables: Seq<UnwindTable>,
    n: int,
) -> Option<Publication>
    decreases n,
{
    if n <= 0 {
        Some(start)
    } else {
        match publish_mappings(start, mappings, files, tables, n - 1) {
            None => None,
            Some(so_far) => publish_mapping(so_far, mappings[n - 1], files, tables),
        }
    }
}

/// Nothing gathered yet, with the shards as they are.
pub open spec fn nothing_published(state: UnwindStateView) -> Publication {
    Publication {
        state,
        records: Seq::empty(),
        shards: Seq::empty(),
        chunk_indexes: Seq::empty(),
    }
}

/// The executables among the first `n` mappings whose unwind tables have
/// to be read: those with an object file whose rows are not published,
/// each once.
pub open spec fn tables_wanted(
    mappings: Seq<ExecutableMapping>,
    files: Map<ExecutableId, ObjectFileInfo>,
    known: Set<ExecutableId>,
    n: int,
) -> Seq<ExecutableId>
    decreases n,
{
    if n <= 0 {
        Seq::empty()
    } else {
        let before = tables_wanted(mappings, files, known, n - 1);
        let id = mappings[n - 1].executable_id;
        if mappings[n - 1].kind == MappingType::FileBacked && files.contains_key(id)
            && !known.contains(id) && !before.contains(id) {
            before.push(id)
        } else {
            before
        }
    }
}

/// One of the chunks that are in use lies in one of the shards.
pub open spec fn lies_in(chunks: Seq<ChunkInfo>, shards: Seq<u64>) -> bool {
    exists|k: int|
        0 <= k < chunks.len() && (#[trigger] chunks[k]) != ChunkInfo::zeroed() && shards.contains(
            chunks[k].shard_index,
        )
}

/// Says whether the index of a shard is among those given.
fn is_among(shards: &Vec<u64>, shard_index: u64) -> (found: bool)
    ensures
        found == shards@.contains(shard_index),
{
    let n: usize = shards.len();
    let mut j: usize = 0;
    while j < n
        invariant
            j <= n,
            n == shards.len(),
            forall|i: int| 0 <= i < j ==> shards@[i] != shard_index,
        decreases n - j,
    {
        if shards[j] == shard_index {
            return true;
        }
        j += 1;
    }
    false
}

/// Says whether one of the chunks that are in use lies in one of the
/// shards.
pub fn chunks_lie_in(chunks: &Vec<ChunkInfo>, shards: &Vec<u64>) -> (found: bool)
    ensures
        found == lies_in(chunks@, shards@),
{
    let n: usize = chunks.len();
    let mut k: usize = 0;
    while k < n
        invariant
            k <= n,
            n == chunks.len(),
            forall|i: int|
                0 <= i < k ==> !((#[trigger] chunks@[i]) != ChunkInfo::zeroed() && shards@.contains(
                    chunks@[i].shard_index,
                )),
        decreases n - k,
    {
        let chunk = chunks[k];
        let in_use = chunk.low_pc != 0 || chunk.high_pc != 0 || chunk.shard_index != 0
            || chunk.low_index != 0 || chunk.high_index != 0;
        if in_use && is_among(shards, chunk.shard_index) {
            return true;
        }
        k += 1;
    }
    false
}

proof fn lemma_publish_stays_reset(
    start: Publication,
    mappings: Seq<ExecutableMapping>,
    files: Map<ExecutableId, ObjectFileInfo>,
    tables: Seq<UnwindTable>,
    i: int,
    n: int,
)
    requires
        0 <= i <= n,
        publish_mappings(start, mappings, files, tables, i) is None,
    ensures
        publish_mappings(start, mappings, files, tables, n) is None,
    decreases n - i,
{
    if i < n {
        lemma_publish_stays_reset(start, mappings, files, tables, i, n - 1);
    }
}

/// The rows of the first table that was read for the executable.
fn find_table(tables: &Vec<UnwindTable>, id: ExecutableId) -> (found: Option<usize>)
    ensures
        match found {
            Some(i) => i < tables.len() && table_rows(tables@, id, 0) == Some(tables[i as int].rows@),
            None => table_rows(tables@, id, 0) is None,
        },
{
    let n: usize = tables.len();
    let mut i: usize = 0;
    while i < n
        invariant
            i <= n,
            n == tables.len(),
            table_rows(tables@, id, 0) == table_rows(tables@, id, i as int),
        decreases n - i,
    {
        if tables[i].executable_id == id {
            return Some(i);
        }
        i += 1;
    }
    None
}

/// A copy of the rows.
fn copy_rows(rows: &Vec<CompactUnwindRow>) -> (copy: Vec<CompactUnwindRow>)
    ensures
        copy@ == rows@,
{
    let mut copy: Vec<CompactUnwindRow> = Vec::new();
    let n: usize = rows.len();
    let mut i: usize = 0;
    while i < n
        invariant
            i <= n,
            n == rows.len(),
            copy@ == rows@.subrange(0, i as int),
        decreases n - i,
    {
        copy.push(rows[i]);
        assert(rows@.subrange(0, i + 1) == rows@.subrange(0, i as int).push(rows@[i as int]));
        i += 1;
    }
    assert(rows@.subrange(0, n as int) == rows@);
    copy
}

/// The rows with which an executable is packed, if usable rows were read.
fn optimized_rows(tables: &Vec<UnwindTable>, id: ExecutableId) -> (found: Option<
    Vec<CompactUnwindRow>,
>)
    ensures
        match found {
            Some(rows) => usable_rows(tables@, id) == Some(rows@),
            None => usable_rows(tables@, id) is None,
        },
{
    match find_table(tables, id) {
        None => None,
        Some(i) => {
            let mut rows = copy_rows(&tables[i].rows);
            remove_unnecessary_markers(&mut rows);
            remove_redundant(&mut rows);
            if rows.len() > 0 && is_strictly_sorted(&rows) {
                Some(rows)
            } else {
                None
            }
        },
    }
}

/// What the control loop is woken by.
pub enum ControlEvent {
    /// The signal to stop came.
    Stop,
    /// The time for the whole run is over.
    TotalDurationElapsed,
    /// A session is over.
    SessionTick,
    /// The tracers reported an event.
    Tracer(TracerEvent),
    /// The sampler reported an event of the given kind for a process.
    Process { kind: u32, pid: i32 },
    /// The time to write the live shard came.
    PersistTick,
}

/// What the control loop does on an event.
#[derive(Debug, PartialEq, Eq)]
pub enum ControlAction {
    /// Collect a last profile, send it, and end the loop.
    CollectAndStop,
    /// Collect a profile and send it.
    Collect,
    HandleMunmap { pid: i32, start_address: u64 },
    HandleProcessExit { pid: i32 },
    /// Read the memory map of the process, add the process, then add its
    /// unwind information.
    AddProcess { pid: i32 },
    /// Add the unwind information of a process that is known.
    AddUnwindInfo { pid: i32 },
    /// Report an event of a kind that is not known.
    UnknownEvent { kind: u32 },
    /// Write the live shard, and note it once it is written.
    PersistLiveShard,
    Nothing,
}

/// What a profiler was set up with, and the processes it is restricted to.
pub struct ProfilerSettings {
    filter_pids: HashMap<i32, bool>,
    duration: Duration,
    sample_freq: u16,
    perf_buffer_bytes: usize,
    session_seconds: u32,
}

/// What the profiler keeps between events.
pub struct Profiler {
    /// The processes and the object files.
    pub tracker: ProcessTracker,
    /// The shards of unwind rows.
    pub native_unwind_state: NativeUnwindState,
    pub settings: ProfilerSettings,
}

/// The system's page size, as the `page_size` crate's `get` reports it.
/// Nothing is claimed of it: it is what the machine says.
#[verifier::external_body]
fn system_page_size() -> (size: usize) {
    page_size::get()
}

impl Default for Profiler {
    /// A profiler with the configuration that `ProfilerConfig::default`
    /// gives.
    fn default() -> (profiler: Profiler)
        ensures
            profiler.wf(),
            profiler.tracker.procs() == Map::<i32, ProcessInfo>::empty(),
            profiler.tracker.object_files() == Map::<ExecutableId, ObjectFileInfo>::empty(),
            profiler.native_unwind_state@ == UnwindStateView::initial(),
            profiler.filter() == Set::<i32>::empty(),
            profiler.sample_frequency() == 19,
            profiler.buffer_bytes() == 512 * 1024,
            profiler.session_secs() == SESSION_SECONDS,
    {
        Profiler::new(ProfilerConfig::default())
    }
}

impl Profiler {
    /// The processes to which the profiler is restricted; all are
    /// profiled while there is none.
    pub closed spec fn filter(&self) -> Set<i32> {
        self.settings.filter_pids@.dom()
    }

    /// The samples that each processor takes in a second.
    pub closed spec fn sample_frequency(&self) -> u16 {
        self.settings.sample_freq
    }

    /// The size of each perf buffer, in bytes.
    pub closed spec fn buffer_bytes(&self) -> usize {
        self.settings.perf_buffer_bytes
    }

    /// The seconds between two collections of a profile.
    pub closed spec fn session_secs(&self) -> u32 {
        self.settings.session_seconds
    }

    /// The time after which the run ends.
    pub closed spec fn time_limit(&self) -> Duration {
        self.settings.duration
    }

    /// The counts of the object files are exact and the live shard has
    /// room.
    pub open spec fn wf(&self) -> bool {
        self.tracker.wf() && self.native_unwind_state@.wf()
    }

    /// The process is to be profiled.
    pub open spec fn profiles(&self, pid: i32) -> bool {
        self.filter().is_empty() || self.filter().contains(pid)
    }

    /// A profiler that knows no process and holds no unwind rows.
    pub fn new(profiler_config: ProfilerConfig) -> (profiler: Profiler)
        ensures
            profiler.wf(),
            profiler.tracker.procs() == Map::<i32, ProcessInfo>::empty(),
            profiler.tracker.object_files() == Map::<ExecutableId, ObjectFileInfo>::empty(),
            profiler.native_unwind_state@ == UnwindStateView::initial(),
            profiler.filter() == Set::<i32>::empty(),
            profiler.time_limit() == profiler_config.duration,
            profiler.sample_frequency() == profiler_config.sample_freq,
            profiler.buffer_bytes() == profiler_config.perf_buffer_bytes,
            profiler.session_secs() == SESSION_SECONDS,
    {
        Profiler {
            tracker: ProcessTracker::new(),
            native_unwind_state: NativeUnwindState::default(),
            settings: ProfilerSettings {
                filter_pids: HashMap::new(),
                duration: profiler_config.duration,
                sample_freq: profiler_config.sample_freq,
                perf_buffer_bytes: profiler_config.perf_buffer_bytes,
                session_seconds: SESSION_SECONDS,
            },
        }
    }

    /// The time after which the run ends.
    pub fn duration(&self) -> (limit: Duration)
        ensures
            limit == self.time_limit(),
    {
        self.settings.duration
    }

    /// The samples that each processor takes in a second.
    pub fn sample_freq(&self) -> (freq: u16)
        ensures
            freq == self.sample_frequency(),
    {
        self.settings.sample_freq
    }

    /// The seconds between two collections of a profile.
    pub fn session_seconds(&self) -> (seconds: u32)
        ensures
            seconds == self.session_secs(),
    {
        self.settings.session_seconds
    }

    /// Restricts the profiler to the given processes, in addition to those
    /// it is restricted to already.
    pub fn profile_pids(&mut self, pids: &Vec<i32>)
        ensures
            final(self).filter() == old(self).filter().union(pids@.to_set()),
            final(self).tracker == old(self).tracker,
            final(self).native_unwind_state == old(self).native_unwind_state,
            final(self).time_limit() == old(self).time_limit(),
            final(self).sample_frequency() == old(self).sample_frequency(),
            final(self).buffer_bytes() == old(self).buffer_bytes(),
            final(self).session_secs() == old(self).session_secs(),
    {
        let n: usize = pids.len();
        let mut i: usize = 0;
        while i < n
            invariant
                i <= n,
                n == pids.len(),
                self.settings.filter_pids@.dom() == old(self).settings.filter_pids@.dom().union(
                    pids@.subrange(0, i as int).to_set(),
                ),
                self.tracker == old(self).tracker,
                self.native_unwind_state == old(self).native_unwind_state,
                self.settings.duration == old(self).settings.duration,
                self.settings.sample_freq == old(self).settings.sample_freq,
                self.settings.perf_buffer_bytes == old(self).settings.perf_buffer_bytes,
                self.settings.session_seconds == old(self).settings.session_seconds,
            decreases n - i,
        {
            let ghost before = self.settings.filter_pids@.dom();
            self.settings.filter_pids.insert(pids[i], true);
            proof {
                let shorter = pids@.subrange(0, i as int);
                let longer = pids@.subrange(0, i + 1);
                assert(longer == shorter.push(pids@[i as int]));
                assert(longer.to_set() =~= shorter.to_set().insert(pids@[i as int])) by {
                    assert forall|x: i32| longer.to_set().contains(x) == shorter.to_set().insert(
                        pids@[i as int],
                    ).contains(x) by {
                        if longer.contains(x) {
                            let k = choose|k: int| 0 <= k < longer.len() && longer[k] == x;
                            if k < shorter.len() {
                                assert(shorter[k] == x);
                            }
                        }
                        if shorter.contains(x) {
                            let k = choose|k: int| 0 <= k < shorter.len() && shorter[k] == x;
                            assert(longer[k] == x);
                        }
                        if x == pids@[i as int] {
                            assert(longer[i as int] == x);
                        }
                    }
                }
                assert(self.settings.filter_pids@.dom() =~= old(self).settings.filter_pids@.dom().union(
                    longer.to_set(),
                ));
            }
            i += 1;
        }
        assert(pids@.subrange(0, n as int) == pids@);
    }

    /// Says whether a process is to be profiled: all are while the
    /// profiler is not restricted.
    pub fn should_profile(&self, pid: i32) -> (wanted: bool)
        ensures
            wanted == self.profiles(pid),
    {
        if self.settings.filter_pids.is_empty() {
            proof {
                assert(self.settings.filter_pids@.dom() =~= Set::<i32>::empty());
            }
            return true;
        }
        proof {
            let k = choose|k: i32| self.settings.filter_pids@.contains_key(k);
            assert(self.settings.filter_pids@.dom().contains(k));
        }
        self.settings.filter_pids.contains_key(&pid)
    }

    /// Says whether the process was added.
    pub fn process_is_known(&self, pid: i32) -> (known: bool)
        ensures
            known == self.tracker.procs().contains_key(pid),
    {
        self.tracker.process_is_known(pid)
    }

    /// Says whether the samples of a session may outnumber the entries of
    /// the table of aggregated stacks, so that samples are lost.
    pub fn samples_might_be_lost(&self, online_cpus: u64) -> (lossy: bool)
        ensures
            lossy == (self.sample_frequency() * online_cpus * self.session_secs()
                >= MAX_AGGREGATED_STACKS_ENTRIES),
    {
        let freq: u64 = self.settings.sample_freq as u64;
        let seconds: u64 = self.settings.session_seconds as u64;
        assert(freq * seconds <= 0xffff * 0xffff_ffff) by (nonlinear_arith)
            requires
                0 <= freq <= 0xffff,
                0 <= seconds <= 0xffff_ffff,
        ;
        let per_cpu: u64 = freq * seconds;
        assert((per_cpu as u128) * (online_cpus as u128) <= 0xffff * 0xffff_ffff
            * 0xffff_ffff_ffff_ffff) by (nonlinear_arith)
            requires
                per_cpu <= 0xffff * 0xffff_ffff,
                online_cpus <= 0xffff_ffff_ffff_ffff,
        ;
        let total: u128 = (per_cpu as u128) * (online_cpus as u128);
        assert(total == freq * online_cpus * seconds) by (nonlinear_arith)
            requires
                total == per_cpu * online_cpus,
                per_cpu == freq * seconds,
        ;
        total >= (MAX_AGGREGATED_STACKS_ENTRIES as u128)
    }

    /// The number of pages of a perf buffer on a machine with pages of the
    /// given size: the size of the buffer divided by that of a page,
    /// rounded down; none where the size is no size.
    pub open spec fn pages_for(&self, page_size: usize) -> Option<usize> {
        if page_size == 0 {
            None
        } else {
            Some((self.buffer_bytes() / page_size) as usize)
        }
    }

    /// The number of pages of a perf buffer on a machine with pages of the
    /// given size; none where the size is no size.
    pub fn perf_buffer_pages(&self, page_size: usize) -> (pages: Option<usize>)
        ensures
            pages == self.pages_for(page_size),
    {
        if page_size == 0 {
            None
        } else {
            Some(self.settings.perf_buffer_bytes / page_size)
        }
    }

    /// The number of pages of a perf buffer on this machine: what
    /// `perf_buffer_pages` gives for the size of a page that the machine
    /// reports. Which size that is, and so whether there is a number at
    /// all, is the machine's to say; a number is never more than the bytes
    /// of the buffer.
    pub fn perf_buffer_page_count(&self) -> (pages: Option<usize>)
        ensures
            exists|size: usize| pages == #[trigger] self.pages_for(size),
            pages matches Some(n) ==> n <= self.buffer_bytes(),
    {
        let size = system_page_size();
        let pages = self.perf_buffer_pages(size);
        proof {
            assert(pages == self.pages_for(size));
            if size > 0 {
                assert(self.settings.perf_buffer_bytes / size <= self.settings.perf_buffer_bytes)
                    by (nonlinear_arith)
                    requires
                        size > 0,
                ;
            }
        }
        pages
    }

    /// What is to be done for a process that the sampler saw: nothing
    /// where it is not to be profiled or has exited; its unwind
    /// information is added where it is known; else it is added first.
    pub fn event_new_proc(&self, pid: i32) -> (action: ControlAction)
        ensures
            action == self.new_process_action(pid),
    {
        if !self.should_profile(pid) {
            return ControlAction::Nothing;
        }
        match self.tracker.process(pid) {
            Some(info) => match info.status {
                ProcessStatus::Running => ControlAction::AddUnwindInfo { pid },
                ProcessStatus::Exited => ControlAction::Nothing,
            },
            None => ControlAction::AddProcess { pid },
        }
    }

    /// What is to be done for a process that the sampler saw.
    pub open spec fn new_process_action(&self, pid: i32) -> ControlAction {
        if !self.profiles(pid) {
            ControlAction::Nothing
        } else if !self.tracker.procs().contains_key(pid) {
            ControlAction::AddProcess { pid }
        } else if self.tracker.procs()[pid].status == ProcessStatus::Running {
            ControlAction::AddUnwindInfo { pid }
        } else {
            ControlAction::Nothing
        }
    }

    /// What the control loop does on an event.
    pub open spec fn action_for(&self, event: ControlEvent) -> ControlAction {
        match event {
            ControlEvent::Stop => ControlAction::CollectAndStop,
            ControlEvent::TotalDurationElapsed => ControlAction::CollectAndStop,
            ControlEvent::SessionTick => ControlAction::Collect,
            ControlEvent::Tracer(TracerEvent::Munmap(pid, start_address)) => ControlAction::HandleMunmap {
                pid,
                start_address,
            },
            ControlEvent::Tracer(TracerEvent::ProcessExit(pid)) => ControlAction::HandleProcessExit {
                pid,
            },
            ControlEvent::Process { kind, pid } => if kind == EVENT_NEW_PROCESS {
                self.new_process_action(pid)
            } else {
                ControlAction::UnknownEvent { kind }
            },
            ControlEvent::PersistTick => if self.native_unwind_state@.dirty {
                ControlAction::PersistLiveShard
            } else {
                ControlAction::Nothing
            },
        }
    }

    /// What the control loop does on an event.
    ///
    /// On the signal to stop and at the end of the run a last profile is
    /// collected; at the end of a session a profile is collected; events of
    /// the tracers and the sampler are handed on; the live shard is written
    /// when it holds rows that were not written.
    pub fn next_action(&self, event: ControlEvent) -> (action: ControlAction)
        ensures
            action == self.action_for(event),
    {
        match event {
            ControlEvent::Stop => ControlAction::CollectAndStop,
            ControlEvent::TotalDurationElapsed => ControlAction::CollectAndStop,
            ControlEvent::SessionTick => ControlAction::Collect,
            ControlEvent::Tracer(TracerEvent::Munmap(pid, start_address)) => ControlAction::HandleMunmap {
                pid,
                start_address,
            },
            ControlEvent::Tracer(TracerEvent::ProcessExit(pid)) => ControlAction::HandleProcessExit {
                pid,
            },
            ControlEvent::Process { kind, pid } => {
                if kind == EVENT_NEW_PROCESS {
                    self.event_new_proc(pid)
                } else {
                    ControlAction::UnknownEvent { kind }
                }
            },
            ControlEvent::PersistTick => {
                if self.native_unwind_state.is_dirty() {
                    ControlAction::PersistLiveShard
                } else {
                    ControlAction::Nothing
                }
            },
        }
    }

    /// Enters a process with the executable mappings of its memory map.
    pub fn add_proc(&mut self, pid: i32, maps: &Vec<MemoryMap>) -> (result: Result<
        (),
        ObjectFileError,
    >)
        requires
            old(self).wf(),
        ensures
            final(self).wf(),
            enrolment(&old(self).tracker, &final(self).tracker, pid, maps@, result),
            final(self).native_unwind_state == old(self).native_unwind_state,
            final(self).settings == old(self).settings,
    {
        self.tracker.add_proc(pid, maps)
    }

    /// Marks the mappings of the process that start at `start_address` as
    /// gone.
    pub fn handle_munmap(&mut self, pid: i32, start_address: u64)
        requires
            old(self).wf(),
        ensures
            final(self).wf(),
            retirement(&old(self).tracker, &final(self).tracker, pid, Some(start_address), None),
            final(self).native_unwind_state == old(self).native_unwind_state,
            final(self).settings == old(self).settings,
    {
        self.tracker.handle_munmap(pid, start_address);
    }

    /// Marks the process as exited and its mappings as gone.
    pub fn handle_process_exit(&mut self, pid: i32)
        requires
            old(self).wf(),
        ensures
            final(self).wf(),
            retirement(
                &old(self).tracker,
                &final(self).tracker,
                pid,
                None,
                Some(ProcessStatus::Exited),
            ),
            final(self).native_unwind_state == old(self).native_unwind_state,
            final(self).settings == old(self).settings,
    {
        self.tracker.handle_process_exit(pid);
    }

    /// The executables of a process whose unwind tables have to be read
    /// before its unwind information is added: none for a process that is
    /// not known.
    pub fn unwind_tables_wanted(&self, pid: i32) -> (wanted: Vec<ExecutableId>)
        ensures
            wanted@ == (if self.tracker.procs().contains_key(pid) {
                tables_wanted(
                    self.tracker.procs()[pid].mappings@,
                    self.tracker.object_files(),
                    self.native_unwind_state@.known_executables,
                    self.tracker.procs()[pid].mappings@.len() as int,
                )
            } else {
                Seq::empty()
            }),
    {
        let mut wanted: Vec<ExecutableId> = Vec::new();
        match self.tracker.process(pid) {
            None => {},
            Some(info) => {
                let n: usize = info.mappings.0.len();
                let mut i: usize = 0;
                while i < n
                    invariant
                        i <= n,
                        n == info.mappings@.len(),
                        wanted@ == tables_wanted(
                            info.mappings@,
                            self.tracker.object_files(),
                            self.native_unwind_state@.known_executables,
                            i as int,
                        ),
                    decreases n - i,
                {
                    let id = info.mappings.0[i].executable_id;
                    let file_backed = info.mappings.0[i].kind == MappingType::FileBacked;
                    if file_backed && self.tracker.object_file(id).is_some()
                        && !self.native_unwind_state.is_known(id) {
                        let mut listed = false;
                        let m: usize = wanted.len();
                        let mut j: usize = 0;
                        while j < m
                            invariant
                                j <= m,
                                m == wanted.len(),
                                listed == wanted@.subrange(0, j as int).contains(id),
                            decreases m - j,
                        {
                            if wanted[j] == id {
                                listed = true;
                            }
                            proof {
                                let shorter = wanted@.subrange(0, j as int);
                                let longer = wanted@.subrange(0, j + 1);
                                assert(longer == shorter.push(wanted@[j as int]));
                                if shorter.contains(id) {
                                    let k = choose|k: int|
                                        0 <= k < shorter.len() && shorter[k] == id;
                                    assert(longer[k] == id);
                                }
                                if wanted@[j as int] == id {
                                    assert(longer[j as int] == id);
                                }
                                if longer.contains(id) {
                                    let k = choose|k: int| 0 <= k < longer.len() && longer[k] == id;
                                    if k < j {
                                        assert(shorter[k] == id);
                                    }
                                }
                            }
                            j += 1;
                        }
                        assert(wanted@.subrange(0, m as int) == wanted@);
                        if !listed {
                            wanted.push(id);
                        }
                    }
                    i += 1;
                }
            },
        }
        wanted
    }

    /// The profile that the entries of the table of aggregated stacks
    /// give, once they were read with their counts and stacks.
    pub fn collect_profile(&self, entries: &Vec<AggregatedEntry>) -> (profile:
        RawAggregatedProfile)
        ensures
            profile@ == profile_of(entries@, entries@.len() as int),
    {
        collect_profile(entries)
    }

    /// Settles what became of the writes for an executable that was
    /// packed. Where its chunk index was not written, or a shard that
    /// holds rows of it was not, the executable is left un-admitted: it no
    /// longer counts as published, so that the next event for one of its
    /// processes packs its rows again. Says whether it was left out.
    pub fn settle_writes(
        &mut self,
        index: &ChunkIndexWrite,
        index_written: bool,
        unwritten_shards: &Vec<u64>,
    ) -> (left_out: bool)
        ensures
            left_out == (!index_written || lies_in(index.chunks@, unwritten_shards@)),
            final(self).native_unwind_state@ == (if left_out {
                UnwindStateView {
                    known_executables: old(self).native_unwind_state@.known_executables.remove(
                        index.executable_id,
                    ),
                    ..old(self).native_unwind_state@
                }
            } else {
                old(self).native_unwind_state@
            }),
            final(self).tracker == old(self).tracker,
            final(self).settings == old(self).settings,
    {
        let left_out = !index_written || chunks_lie_in(&index.chunks, unwritten_shards);
        if left_out {
            self.native_unwind_state.forget(index.executable_id);
        }
        left_out
    }

    /// What persisting the live shard writes to the shard table: under
    /// the index of the live shard its rows, and zeros up to the size of a
    /// full shard.
    pub fn persist_unwind_info(&self) -> (write: TableWrite)
        ensures
            write.key@ == le_bytes(self.native_unwind_state@.shard_index as nat, 8),
            write.value@ == shard_bytes(self.native_unwind_state@.live_shard),
    {
        TableWrite {
            key: encode_u64(self.native_unwind_state.shard_index()),
            value: encode_shard(self.native_unwind_state.live_shard()),
        }
    }

    /// Adds the unwind information of a process: records each of its
    /// mappings for the kernel side and packs the rows of each executable
    /// that is not published yet into the shards.
    ///
    /// `tables` holds the unwind tables that could be read, among those
    /// that `unwind_tables_wanted` names. Where the shards are used up on
    /// the way, everything is wiped and nothing is written. The process
    /// is known, and its id is no negative number.
    pub fn add_unwind_info(&mut self, pid: i32, tables: &Vec<UnwindTable>) -> (update:
        UnwindInfoUpdate)
        requires
            old(self).wf(),
            old(self).tracker.procs().contains_key(pid),
            pid >= 0,
        ensures
            final(self).wf(),
            final(self).tracker == old(self).tracker,
            final(self).settings == old(self).settings,
            match publish_mappings(
                nothing_published(old(self).native_unwind_state@),
                old(self).tracker.procs()[pid].mappings@,
                old(self).tracker.object_files(),
                tables@,
                old(self).tracker.procs()[pid].mappings@.len() as int,
            ) {
                None => update@ is Reset && final(self).native_unwind_state@
                    == UnwindStateView::initial(),
                Some(gathered) => update@ == (UnwindInfoUpdateView::Publish {
                    shards: gathered.shards,
                    chunk_indexes: gathered.chunk_indexes,
                    mappings: process_entries(
                        pid as u32,
                        gathered.records,
                        gathered.records.len() as int,
                    ),
                }) && final(self).native_unwind_state@ == (UnwindStateView {
                    dirty: true,
                    ..gathered.state
                }),
            },
    {
        let ghost start = nothing_published(self.native_unwind_state@);
        let ghost files = self.tracker.object_files();
        let mut records: Vec<MappingRecord> = Vec::new();
        let mut shards: Vec<ShardWrite> = Vec::new();
        let mut chunk_indexes: Vec<ChunkIndexWrite> = Vec::new();
        let info = match self.tracker.process(pid) {
            Some(info) => info,
            None => {
                return UnwindInfoUpdate::Reset;
            },
        };
        let ghost mappings = info.mappings@;
        let n: usize = info.mappings.0.len();
        let mut i: usize = 0;
        proof {
            assert(shard_write_views(shards@) =~= Seq::<ShardWriteView>::empty());
            assert(chunk_index_views(chunk_indexes@) =~= Seq::<ChunkIndexWriteView>::empty());
        }
        while i < n
            invariant
                i <= n,
                n == mappings.len(),
                mappings == info.mappings@,
                mappings == old(self).tracker.procs()[pid].mappings@,
                start == nothing_published(old(self).native_unwind_state@),
                files == self.tracker.object_files(),
                self.tracker == old(self).tracker,
                self.tracker.wf(),
                self.native_unwind_state@.wf(),
                self.settings == old(self).settings,
                publish_mappings(start, mappings, files, tables@, i as int) == Some(
                    Publication {
                        state: self.native_unwind_state@,
                        records: records@,
                        shards: shard_write_views(shards@),
                        chunk_indexes: chunk_index_views(chunk_indexes@),
                    },
                ),
            decreases n - i,
        {
            let mapping = &info.mappings.0[i];
            let id = mapping.executable_id;
            let ghost so_far = Publication {
                state: self.native_unwind_state@,
                records: records@,
                shards: shard_write_views(shards@),
                chunk_indexes: chunk_index_views(chunk_indexes@),
            };
            match mapping.kind {
                MappingType::Anonymous => {
                    records.push(
                        MappingRecord {
                            load_address: 0,
                            begin: mapping.start_addr,
                            end: mapping.end_addr,
                            executable_id: 0,
                            type_: MAPPING_TYPE_JITTED,
                        },
                    );
                },
                MappingType::Vdso => {
                    records.push(
                        MappingRecord {
                            load_address: 0,
                            begin: mapping.start_addr,
                            end: mapping.end_addr,
                            executable_id: 0,
                            type_: MAPPING_TYPE_VDSO,
                        },
                    );
                },
                MappingType::FileBacked => {
                    match self.tracker.object_file(id) {
                        None => {},
                        Some(file) => {
                            let load_address = if mapping.main_exec && !file.is_dyn {
                                0
                            } else {
                                mapping.load_address
                            };
                            records.push(
                                MappingRecord {
                                    load_address,
                                    begin: mapping.start_addr,
                                    end: mapping.end_addr,
                                    executable_id: id,
                                    type_: MAPPING_TYPE_NORMAL,
                                },
                            );
                            if !self.native_unwind_state.is_known(id) {
                                match optimized_rows(tables, id) {
                                    None => {},
                                    Some(rows) => {
                                        match self.native_unwind_state.admit_executable(id, &rows) {
                                            Admission::Admitted { shards: mut full, chunks } => {
                                                let ghost shards_before = shards@;
                                                let ghost full_before = full@;
                                                let ghost indexes_before = chunk_indexes@;
                                                shards.append(&mut full);
                                                let write = ChunkIndexWrite {
                                                    executable_id: id,
                                                    chunks,
                                                };
                                                chunk_indexes.push(write);
                                                proof {
                                                    assert(shard_write_views(shards@)
                                                        =~= shard_write_views(shards_before)
                                                        + shard_write_views(full_before));
                                                    assert(chunk_index_views(chunk_indexes@)
                                                        =~= chunk_index_views(
                                                        indexes_before,
                                                    ).push(write@));
                                                }
                                            },
                                            _ => {
                                                proof {
                                                    assert(publish_mapping(
                                                        so_far,
                                                        mappings[i as int],
                                                        files,
                                                        tables@,
                                                    ) is None);
                                                    assert(publish_mappings(
                                                        start,
                                                        mappings,
                                                        files,
                                                        tables@,
                                                        i + 1,
                                                    ) is None);
                                                    lemma_publish_stays_reset(
                                                        start,
                                                        mappings,
                                                        files,
                                                        tables@,
                                                        i + 1,
                                                        n as int,
                                                    );
                                                }
                                                return UnwindInfoUpdate::Reset;
                                            },
                                        }
                                    },
                                }
                            }
                        },
                    }
                },
            }
            i += 1;
        }
        self.native_unwind_state.mark_dirty();
        let mappings = exec_mapping_entries(pid as u32, &records);
        UnwindInfoUpdate::Publish { shards, chunk_indexes, mappings }
    }
}

} // verus!
