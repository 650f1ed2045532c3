use lightswitch::extract::{
    compact_unwind_info, CfaRule, CfiRow, FrameDescription, RbpRule, RSP_REGISTER,
};
use lightswitch::profiler::{chunks_lie_in, ChunkIndexWrite};
use std::time::Duration;

use lightswitch::mapping::{
    ExecMappingEntry, ExecMappingKey, MappingRecord, MAPPING_TYPE_JITTED, MAPPING_TYPE_NORMAL,
    MAPPING_TYPE_VDSO,
};
use lightswitch::memory_map::{
    MapPath, MemoryMap, ObjectFile, ObjectFileError, PERMISSION_EXECUTE,
};
use lightswitch::process::TracerEvent;
use lightswitch::profiler::{
    ControlAction, ControlEvent, Profiler, ProfilerConfig, UnwindInfoUpdate, UnwindTable,
    EVENT_NEW_PROCESS, MAX_AGGREGATED_STACKS_ENTRIES, SESSION_SECONDS,
};
use lightswitch::shard::{ChunkInfo, MAX_CHUNKS, MAX_SHARDS, SHARD_CAPACITY};
use lightswitch::unwind_info::CompactUnwindRow;

fn profiler() -> Profiler {
    Profiler::new(ProfilerConfig::default())
}

fn profiler_at(sample_freq: u16) -> Profiler {
    Profiler::new(ProfilerConfig { sample_freq, ..ProfilerConfig::default() })
}

fn file_line(start: u64, end: u64, path: &str, id: u64, is_dyn: bool) -> MemoryMap {
    MemoryMap {
        address: (start, end),
        perms: PERMISSION_EXECUTE,
        offset: 0,
        pathname: MapPath::Path(path.to_string()),
        object: Some(Ok(ObjectFile {
            executable_id: id,
            build_id: "id".to_string(),
            load_offset: 0,
            load_vaddr: 0,
            is_dyn,
        })),
    }
}

fn memory_map(is_dyn: bool) -> Vec<MemoryMap> {
    vec![
        file_line(0x1000, 0x2000, "/bin/app", 0xa, is_dyn),
        file_line(0x4000, 0x8000, "/lib/libc.so", 0xb, true),
        MemoryMap {
            address: (0x10, 0x20),
            perms: PERMISSION_EXECUTE,
            offset: 0,
            pathname: MapPath::Anonymous,
            object: None,
        },
        MemoryMap {
            address: (0x100, 0x200),
            perms: PERMISSION_EXECUTE,
            offset: 0,
            pathname: MapPath::Vdso,
            object: None,
        },
    ]
}

fn rule(pc: u64, cfa_offset: i16) -> CompactUnwindRow {
    CompactUnwindRow { pc, cfa_type: 2, rbp_type: 0, cfa_offset, rbp_offset: 0 }
}

fn marker(pc: u64) -> CompactUnwindRow {
    CompactUnwindRow { pc, cfa_type: 4, rbp_type: 0, cfa_offset: 0, rbp_offset: 0 }
}

fn table(id: u64, from: u64) -> UnwindTable {
    UnwindTable {
        executable_id: id,
        rows: vec![
            rule(from, 8),
            // Says what the row before it says: dropped.
            rule(from + 1, 8),
            rule(from + 4, 16),
            // Followed at once by the rule of the next function: dropped.
            marker(from + 9),
            rule(from + 10, 8),
            marker(from + 20),
        ],
    }
}

fn published(
    update: UnwindInfoUpdate,
) -> (Vec<(u64, usize)>, Vec<(u64, Vec<ChunkInfo>)>, Vec<ExecMappingEntry>) {
    match update {
        UnwindInfoUpdate::Publish { shards, chunk_indexes, mappings } => (
            shards.into_iter().map(|s| (s.shard_index, s.rows.len())).collect(),
            chunk_indexes.into_iter().map(|w| (w.executable_id, w.chunks)).collect(),
            mappings,
        ),
        UnwindInfoUpdate::Reset => panic!("reset"),
    }
}

#[test]
fn the_default_configuration() {
    let config = ProfilerConfig::default();
    assert!(!config.libbpf_debug);
    assert!(!config.bpf_logging);
    assert_eq!(config.duration, Duration::MAX);
    assert_eq!(config.sample_freq, 19);
    assert_eq!(config.perf_buffer_bytes, 512 * 1024);
    assert!(!config.mapsize_info);
    assert_eq!(config.mapsize_stacks, 100000);
    assert_eq!(config.mapsize_aggregated_stacks, 10000);
    assert_eq!(config.mapsize_unwind_info_chunks, 5000);
    assert_eq!(config.mapsize_unwind_tables, 65);
    assert_eq!(config.mapsize_rate_limits, 5000);
}

#[test]
fn a_new_profiler_knows_nothing() {
    let profiler = Profiler::new(ProfilerConfig {
        duration: Duration::from_secs(5),
        sample_freq: 999,
        perf_buffer_bytes: 1024,
        ..ProfilerConfig::default()
    });
    assert_eq!(profiler.duration(), Duration::from_secs(5));
    assert_eq!(profiler.sample_freq(), 999);
    assert_eq!(profiler.session_seconds(), 5);
    assert_eq!(SESSION_SECONDS, 5);
    assert!(!profiler.process_is_known(1));
    assert!(!profiler.native_unwind_state.is_dirty());
    assert_eq!(profiler.native_unwind_state.shard_index(), 0);
    assert!(profiler.unwind_tables_wanted(1).is_empty());
    assert_eq!(profiler.perf_buffer_pages(512), Some(2));
}

#[test]
fn without_a_list_every_process_is_profiled() {
    let mut profiler = profiler();
    assert!(profiler.should_profile(1));
    assert!(profiler.should_profile(-1));
    profiler.profile_pids(&vec![]);
    assert!(profiler.should_profile(1));
    profiler.profile_pids(&vec![10, 20, 10]);
    assert!(profiler.should_profile(10));
    assert!(profiler.should_profile(20));
    assert!(!profiler.should_profile(1));
    profiler.profile_pids(&vec![1]);
    assert!(profiler.should_profile(1));
    assert!(profiler.should_profile(10));
    assert!(!profiler.should_profile(2));
}

#[test]
fn samples_might_be_lost_from_the_size_of_the_table_on() {
    assert_eq!(MAX_AGGREGATED_STACKS_ENTRIES, 10_000);
    // 19 * 105 * 5 = 9975, 19 * 106 * 5 = 10070.
    assert!(!profiler().samples_might_be_lost(105));
    assert!(profiler().samples_might_be_lost(106));
    // 999 * 2 * 5 = 9990, 999 * 3 * 5 = 14985.
    assert!(!profiler_at(999).samples_might_be_lost(2));
    assert!(profiler_at(999).samples_might_be_lost(3));
    // 2000 * 1 * 5 is the size itself.
    assert!(profiler_at(2000).samples_might_be_lost(1));
    assert!(!profiler_at(1999).samples_might_be_lost(1));
    assert!(!profiler_at(2000).samples_might_be_lost(0));
    assert!(!profiler_at(0).samples_might_be_lost(u64::MAX));
    assert!(profiler_at(u16::MAX).samples_might_be_lost(u64::MAX));
}

#[test]
fn the_pages_of_a_perf_buffer() {
    let profiler = profiler();
    assert_eq!(profiler.perf_buffer_pages(4096), Some(128));
    assert_eq!(profiler.perf_buffer_pages(65536), Some(8));
    assert_eq!(profiler.perf_buffer_pages(3000), Some(174));
    assert_eq!(profiler.perf_buffer_pages(usize::MAX), Some(0));
    assert_eq!(profiler.perf_buffer_pages(0), None);
    assert_eq!(profiler.perf_buffer_page_count(), Some(512 * 1024 / page_size::get()));
}

#[test]
fn what_the_control_loop_does_on_each_event() {
    let mut profiler = profiler();
    assert_eq!(profiler.next_action(ControlEvent::Stop), ControlAction::CollectAndStop);
    assert_eq!(
        profiler.next_action(ControlEvent::TotalDurationElapsed),
        ControlAction::CollectAndStop
    );
    assert_eq!(profiler.next_action(ControlEvent::SessionTick), ControlAction::Collect);
    assert_eq!(
        profiler.next_action(ControlEvent::Tracer(TracerEvent::Munmap(3, 0x1000))),
        ControlAction::HandleMunmap { pid: 3, start_address: 0x1000 }
    );
    assert_eq!(
        profiler.next_action(ControlEvent::Tracer(TracerEvent::ProcessExit(3))),
        ControlAction::HandleProcessExit { pid: 3 }
    );
    assert_eq!(
        profiler.next_action(ControlEvent::Process { kind: EVENT_NEW_PROCESS, pid: 3 }),
        ControlAction::AddProcess { pid: 3 }
    );
    assert_eq!(
        profiler.next_action(ControlEvent::Process { kind: 2, pid: 3 }),
        ControlAction::UnknownEvent { kind: 2 }
    );
    assert_eq!(profiler.next_action(ControlEvent::PersistTick), ControlAction::Nothing);
    profiler.native_unwind_state.mark_dirty();
    assert_eq!(profiler.next_action(ControlEvent::PersistTick), ControlAction::PersistLiveShard);
    profiler.native_unwind_state.mark_persisted();
    assert_eq!(profiler.next_action(ControlEvent::PersistTick), ControlAction::Nothing);
}

#[test]
fn what_is_done_for_a_process_that_was_seen() {
    let mut profiler = profiler();
    assert_eq!(profiler.event_new_proc(1), ControlAction::AddProcess { pid: 1 });
    assert_eq!(profiler.add_proc(1, &memory_map(true)), Ok(()));
    assert!(profiler.process_is_known(1));
    // A known process that runs gets its unwind information added again.
    assert_eq!(profiler.event_new_proc(1), ControlAction::AddUnwindInfo { pid: 1 });
    profiler.handle_process_exit(1);
    assert_eq!(profiler.event_new_proc(1), ControlAction::Nothing);

    profiler.profile_pids(&vec![5]);
    assert_eq!(profiler.event_new_proc(2), ControlAction::Nothing);
    assert_eq!(profiler.event_new_proc(5), ControlAction::AddProcess { pid: 5 });
    assert_eq!(
        profiler.next_action(ControlEvent::Process { kind: EVENT_NEW_PROCESS, pid: 2 }),
        ControlAction::Nothing
    );
}

#[test]
fn the_tables_that_have_to_be_read() {
    let mut profiler = profiler();
    let mut maps = memory_map(true);
    maps.push(file_line(0x8000, 0x9000, "/lib/libc.so", 0xb, true));
    assert_eq!(profiler.add_proc(1, &maps), Ok(()));
    assert_eq!(profiler.unwind_tables_wanted(1), vec![0xa, 0xb]);
    assert!(profiler.unwind_tables_wanted(2).is_empty());
    published(profiler.add_unwind_info(1, &vec![table(0xb, 0x100)]));
    assert_eq!(profiler.unwind_tables_wanted(1), vec![0xa]);
}

#[test]
fn add_unwind_info_publishes_tables_and_mappings() {
    let mut profiler = profiler();
    assert_eq!(profiler.add_proc(7, &memory_map(true)), Ok(()));
    let update = profiler.add_unwind_info(7, &vec![table(0xb, 0x500), table(0xa, 0x100)]);
    let (shards, chunk_indexes, mappings) = published(update);

    assert!(shards.is_empty());
    assert_eq!(chunk_indexes.len(), 2);
    // In the order of the mappings, each with the rows that are left
    // after the two passes.
    assert_eq!(chunk_indexes[0].0, 0xa);
    assert_eq!(chunk_indexes[0].1.len(), MAX_CHUNKS);
    assert_eq!(
        chunk_indexes[0].1[0],
        ChunkInfo { low_pc: 0x100, high_pc: 0x114, shard_index: 0, low_index: 0, high_index: 4 }
    );
    assert_eq!(chunk_indexes[0].1[1], ChunkInfo::zero());
    assert_eq!(chunk_indexes[1].0, 0xb);
    assert_eq!(
        chunk_indexes[1].1[0],
        ChunkInfo { low_pc: 0x500, high_pc: 0x514, shard_index: 0, low_index: 4, high_index: 8 }
    );
    assert_eq!(
        profiler.native_unwind_state.live_shard(),
        &vec![
            rule(0x100, 8),
            rule(0x104, 16),
            rule(0x10a, 8),
            marker(0x114),
            rule(0x500, 8),
            rule(0x504, 16),
            rule(0x50a, 8),
            marker(0x514),
        ]
    );
    assert!(profiler.native_unwind_state.is_dirty());
    assert!(profiler.native_unwind_state.is_known(0xa));
    assert!(profiler.native_unwind_state.is_known(0xb));

    let app = MappingRecord {
        load_address: 0x1000,
        begin: 0x1000,
        end: 0x2000,
        executable_id: 0xa,
        type_: MAPPING_TYPE_NORMAL,
    };
    let libc = MappingRecord {
        load_address: 0x4000,
        begin: 0x4000,
        end: 0x8000,
        executable_id: 0xb,
        type_: MAPPING_TYPE_NORMAL,
    };
    let jit = MappingRecord {
        load_address: 0,
        begin: 0x10,
        end: 0x20,
        executable_id: 0,
        type_: MAPPING_TYPE_JITTED,
    };
    let vdso = MappingRecord {
        load_address: 0,
        begin: 0x100,
        end: 0x200,
        executable_id: 0,
        type_: MAPPING_TYPE_VDSO,
    };
    let entry = |bits: u32, addr: u64, value: MappingRecord| ExecMappingEntry {
        key: ExecMappingKey { prefix_len: 32 + bits, pid: 7, addr },
        value,
    };
    assert_eq!(
        mappings,
        vec![
            ExecMappingEntry {
                key: ExecMappingKey { prefix_len: 32, pid: 7, addr: 0 },
                value: MappingRecord::zero(),
            },
            entry(52, 0x1000, app),
            entry(50, 0x4000, libc),
            entry(60, 0x10, jit),
            entry(56, 0x100, vdso),
        ]
    );
}

#[test]
fn a_main_executable_that_is_not_position_independent_loads_at_zero() {
    let mut profiler = profiler();
    assert_eq!(profiler.add_proc(7, &memory_map(false)), Ok(()));
    let (_, _, mappings) = published(profiler.add_unwind_info(7, &vec![]));
    assert_eq!(mappings[1].value.executable_id, 0xa);
    assert_eq!(mappings[1].value.load_address, 0);
    assert_eq!(mappings[2].value.executable_id, 0xb);
    assert_eq!(mappings[2].value.load_address, 0x4000);
}

#[test]
fn an_executable_without_a_table_is_recorded_without_chunks() {
    // The table of the main executable could not be made; the library is
    // published all the same.
    let mut profiler = profiler();
    assert_eq!(profiler.add_proc(7, &memory_map(true)), Ok(()));
    let (shards, chunk_indexes, mappings) =
        published(profiler.add_unwind_info(7, &vec![table(0xb, 0x500)]));
    assert!(shards.is_empty());
    assert_eq!(chunk_indexes.len(), 1);
    assert_eq!(chunk_indexes[0].0, 0xb);
    assert_eq!(chunk_indexes[0].1[0].low_index, 0);
    assert_eq!(mappings.len(), 5);
    assert_eq!(mappings[1].value.executable_id, 0xa);
    assert!(!profiler.native_unwind_state.is_known(0xa));
    assert!(profiler.native_unwind_state.is_known(0xb));
}

#[test]
fn a_table_out_of_order_or_empty_is_passed_over() {
    let mut profiler = profiler();
    assert_eq!(profiler.add_proc(7, &memory_map(true)), Ok(()));
    let unsorted = UnwindTable { executable_id: 0xa, rows: vec![rule(0x20, 8), rule(0x10, 16)] };
    let empty = UnwindTable { executable_id: 0xb, rows: vec![] };
    let (shards, chunk_indexes, mappings) =
        published(profiler.add_unwind_info(7, &vec![unsorted, empty]));
    assert!(shards.is_empty());
    assert!(chunk_indexes.is_empty());
    assert_eq!(mappings.len(), 5);
    assert!(!profiler.native_unwind_state.is_known(0xa));
    assert!(!profiler.native_unwind_state.is_known(0xb));
    assert!(profiler.native_unwind_state.is_dirty());
}

#[test]
fn what_is_published_is_not_published_again() {
    let mut profiler = profiler();
    assert_eq!(profiler.add_proc(7, &memory_map(true)), Ok(()));
    published(profiler.add_unwind_info(7, &vec![table(0xa, 0x100), table(0xb, 0x500)]));
    // The library goes; its count reaches zero and nothing of it is
    // written anew.
    profiler.handle_munmap(7, 0x4000);
    assert_eq!(profiler.tracker.object_file(0xb).unwrap().references, 0);
    let (shards, chunk_indexes, mappings) =
        published(profiler.add_unwind_info(7, &vec![table(0xa, 0x100), table(0xb, 0x500)]));
    assert!(shards.is_empty());
    assert!(chunk_indexes.is_empty());
    assert_eq!(mappings.len(), 5);
    assert_eq!(profiler.native_unwind_state.live_shard().len(), 8);

    // A second process with the same files adds mappings only.
    assert_eq!(profiler.add_proc(8, &memory_map(true)), Ok(()));
    let (_, chunk_indexes, mappings) = published(profiler.add_unwind_info(8, &vec![]));
    assert!(chunk_indexes.is_empty());
    assert_eq!(mappings[0].key, ExecMappingKey { prefix_len: 32, pid: 8, addr: 0 });
}

#[test]
fn an_unsupported_runtime_leaves_the_profiler_as_it_was() {
    let mut profiler = profiler();
    let maps = vec![MemoryMap {
        address: (0x1000, 0x2000),
        perms: PERMISSION_EXECUTE,
        offset: 0,
        pathname: MapPath::Path("/bin/gopher".to_string()),
        object: Some(Err(ObjectFileError::UnsupportedRuntime)),
    }];
    assert_eq!(profiler.add_proc(3, &maps), Err(ObjectFileError::UnsupportedRuntime));
    assert!(!profiler.process_is_known(3));
    assert!(profiler.unwind_tables_wanted(3).is_empty());
    // The next event for it starts over, and other processes are taken.
    assert_eq!(profiler.event_new_proc(3), ControlAction::AddProcess { pid: 3 });
    assert_eq!(profiler.add_proc(4, &memory_map(true)), Ok(()));
    assert!(profiler.process_is_known(4));
}

fn large_table(id: u64) -> UnwindTable {
    let mut rows = Vec::with_capacity(SHARD_CAPACITY);
    for i in 0..SHARD_CAPACITY {
        // No two rows in a row say the same.
        rows.push(rule(0x1000 + 4 * i as u64, if i % 2 == 0 { 8 } else { 16 }));
    }
    UnwindTable { executable_id: id, rows }
}

#[test]
fn used_up_shards_wipe_everything_once() {
    let mut profiler = profiler();
    let mut resets = 0;
    let mut last_pid = 0;
    for pid in 1..=(MAX_SHARDS as i32 + 1) {
        let id = 0x100 + pid as u64;
        let maps = vec![file_line(0x1000, 0x2000, "/bin/app", id, true)];
        assert_eq!(profiler.add_proc(pid, &maps), Ok(()));
        match profiler.add_unwind_info(pid, &vec![large_table(id)]) {
            UnwindInfoUpdate::Publish { shards, chunk_indexes, mappings } => {
                assert_eq!(shards.len(), 1);
                assert_eq!(shards[0].shard_index, pid as u64 - 1);
                assert_eq!(shards[0].rows.len(), SHARD_CAPACITY);
                assert_eq!(chunk_indexes.len(), 1);
                assert_eq!(chunk_indexes[0].chunks[0].shard_index, pid as u64 - 1);
                assert_eq!(mappings.len(), 2);
            }
            UnwindInfoUpdate::Reset => {
                resets += 1;
                last_pid = pid;
                assert_eq!(profiler.native_unwind_state.shard_index(), 0);
                assert!(profiler.native_unwind_state.live_shard().is_empty());
                assert!(!profiler.native_unwind_state.is_known(0x101));
                // The processes stay known.
                assert!(profiler.process_is_known(1));
            }
        }
    }
    assert_eq!(resets, 1);
    assert_eq!(last_pid, MAX_SHARDS as i32 + 1);

    // The next event for a known process packs its table again, from
    // the first shard on.
    assert_eq!(profiler.event_new_proc(1), ControlAction::AddUnwindInfo { pid: 1 });
    assert_eq!(profiler.unwind_tables_wanted(1), vec![0x101]);
    let (shards, chunk_indexes, _) =
        published(profiler.add_unwind_info(1, &vec![table(0x101, 0x100)]));
    assert!(shards.is_empty());
    assert_eq!(chunk_indexes.len(), 1);
    assert_eq!(
        chunk_indexes[0].1[0],
        ChunkInfo { low_pc: 0x100, high_pc: 0x114, shard_index: 0, low_index: 0, high_index: 4 }
    );
}

#[test]
fn persisting_writes_the_live_shard_under_its_index() {
    let mut profiler = profiler();
    assert_eq!(profiler.add_proc(7, &memory_map(true)), Ok(()));
    published(profiler.add_unwind_info(7, &vec![table(0xa, 0x100)]));
    let write = profiler.persist_unwind_info();
    assert_eq!(write.key, vec![0, 0, 0, 0, 0, 0, 0, 0]);
    assert_eq!(write.value.len(), SHARD_CAPACITY * 16);
    assert_eq!(
        &write.value[..16],
        &[0x00, 0x01, 0, 0, 0, 0, 0, 0, 8, 0, 2, 0, 0, 0, 0, 0]
    );
    assert_eq!(
        &write.value[48..64],
        &[0x14, 0x01, 0, 0, 0, 0, 0, 0, 0, 0, 4, 0, 0, 0, 0, 0]
    );
    assert!(write.value[64..].iter().all(|b| *b == 0));
}

#[test]
fn the_table_of_functions_without_a_gap_is_packed() {
    let row = |start_address: u64, offset: i64| CfiRow {
        start_address,
        cfa: CfaRule::RegisterAndOffset { register: RSP_REGISTER, offset },
        rbp: RbpRule::Unchanged,
    };
    let fdes = vec![
        FrameDescription { initial_location: 0x10, address_range: 0x10, rows: vec![row(0x10, 8)] },
        FrameDescription { initial_location: 0x20, address_range: 0x10, rows: vec![row(0x20, 16)] },
    ];
    let rows = compact_unwind_info(&fdes).unwrap();
    let mut profiler = profiler();
    assert_eq!(profiler.add_proc(7, &memory_map(true)), Ok(()));
    let (_, chunk_indexes, _) =
        published(profiler.add_unwind_info(7, &vec![UnwindTable { executable_id: 0xa, rows }]));
    assert_eq!(chunk_indexes.len(), 1);
    assert_eq!(chunk_indexes[0].0, 0xa);
    assert_eq!(
        chunk_indexes[0].1[0],
        ChunkInfo { low_pc: 0x10, high_pc: 0x30, shard_index: 0, low_index: 0, high_index: 3 }
    );
    assert_eq!(
        profiler.native_unwind_state.live_shard(),
        &vec![rule(0x10, 8), rule(0x20, 16), marker(0x30)]
    );
}

#[test]
fn the_recorded_load_address_of_a_fixed_main_executable_is_zero() {
    let mut profiler = profiler();
    assert_eq!(profiler.add_proc(7, &memory_map(false)), Ok(()));
    let mappings = &profiler.tracker.process(7).unwrap().mappings.0;
    assert!(mappings[0].main_exec);
    assert_eq!(mappings[0].load_address, 0);
    assert_eq!(mappings[1].load_address, 0x4000);
}

#[test]
fn an_executable_whose_writes_failed_is_left_unadmitted() {
    let mut profiler = profiler();
    assert_eq!(profiler.add_proc(7, &memory_map(true)), Ok(()));
    let update = profiler.add_unwind_info(7, &vec![table(0xa, 0x100), table(0xb, 0x500)]);
    let indexes: Vec<ChunkIndexWrite> = match update {
        UnwindInfoUpdate::Publish { chunk_indexes, .. } => chunk_indexes,
        UnwindInfoUpdate::Reset => panic!("reset"),
    };
    // All was written: nothing changes.
    assert!(!profiler.settle_writes(&indexes[0], true, &vec![]));
    assert!(!profiler.settle_writes(&indexes[0], true, &vec![1, 2]));
    assert!(profiler.native_unwind_state.is_known(0xa));
    // The chunk index was not written.
    assert!(profiler.settle_writes(&indexes[0], false, &vec![]));
    assert!(!profiler.native_unwind_state.is_known(0xa));
    assert!(profiler.native_unwind_state.is_known(0xb));
    // A shard with rows of the executable was not written.
    assert!(profiler.settle_writes(&indexes[1], true, &vec![3, 0]));
    assert!(!profiler.native_unwind_state.is_known(0xb));
    // The next event packs the rows again.
    assert_eq!(profiler.unwind_tables_wanted(7), vec![0xa, 0xb]);

    // The unused slots of an index lie in no shard.
    let unused = vec![ChunkInfo::zero(); MAX_CHUNKS];
    assert!(!chunks_lie_in(&unused, &vec![0]));
    let used = vec![
        ChunkInfo { low_pc: 1, high_pc: 2, shard_index: 4, low_index: 0, high_index: 1 },
        ChunkInfo::zero(),
    ];
    assert!(chunks_lie_in(&used, &vec![5, 4]));
    assert!(!chunks_lie_in(&used, &vec![0, 5]));
    assert!(!chunks_lie_in(&used, &vec![]));
}
