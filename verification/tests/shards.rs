use lightswitch::shard::{
    Admission, ChunkInfo, NativeUnwindState, MAX_CHUNKS, MAX_SHARDS, SHARD_CAPACITY,
};
use lightswitch::unwind_info::CompactUnwindRow;

fn row(pc: u64) -> CompactUnwindRow {
    CompactUnwindRow { pc, cfa_type: 2, rbp_type: 0, cfa_offset: 8, rbp_offset: 0 }
}

/// `n` rows at the addresses `from`, `from + 10`, and so on.
fn rows(from: u64, n: usize) -> Vec<CompactUnwindRow> {
    let mut out = Vec::with_capacity(n);
    for i in 0..n {
        out.push(row(from + 10 * i as u64));
    }
    out
}

fn admitted(outcome: Admission) -> (Vec<(u64, Vec<CompactUnwindRow>)>, Vec<ChunkInfo>) {
    match outcome {
        Admission::Admitted { shards, chunks } => {
            (shards.into_iter().map(|s| (s.shard_index, s.rows)).collect(), chunks)
        }
        other => panic!("not admitted: {:?}", other),
    }
}

#[test]
fn a_fresh_state_is_empty() {
    let state = NativeUnwindState::default();
    assert!(!state.is_dirty());
    assert_eq!(state.shard_index(), 0);
    assert!(state.live_shard().is_empty());
    assert!(!state.is_known(1));
    assert_eq!(MAX_SHARDS, 50);
    assert_eq!(SHARD_CAPACITY, 250_000);
    assert_eq!(MAX_CHUNKS, 30);
}

#[test]
fn a_small_table_goes_into_the_live_shard() {
    let mut state = NativeUnwindState::default();
    let table = rows(100, 3);
    let (shards, chunks) = admitted(state.admit_executable(1, &table));
    assert!(shards.is_empty());
    assert_eq!(chunks.len(), MAX_CHUNKS);
    assert_eq!(
        chunks[0],
        ChunkInfo { low_pc: 100, high_pc: 120, shard_index: 0, low_index: 0, high_index: 3 }
    );
    for k in 1..MAX_CHUNKS {
        assert_eq!(chunks[k], ChunkInfo::zero());
    }
    assert!(state.is_dirty());
    assert!(state.is_known(1));
    assert_eq!(state.shard_index(), 0);
    assert_eq!(state.live_shard(), &table);

    // The next executable comes after it.
    let second = rows(5, 2);
    let (shards, chunks) = admitted(state.admit_executable(2, &second));
    assert!(shards.is_empty());
    assert_eq!(
        chunks[0],
        ChunkInfo { low_pc: 5, high_pc: 15, shard_index: 0, low_index: 3, high_index: 5 }
    );
    assert_eq!(chunks[1], ChunkInfo::zero());
    assert_eq!(state.live_shard().len(), 5);
    assert_eq!(state.live_shard()[3], row(5));
}

#[test]
fn a_known_executable_is_not_packed_again() {
    let mut state = NativeUnwindState::default();
    let table = rows(100, 3);
    admitted(state.admit_executable(1, &table));
    state.mark_persisted();
    assert!(!state.is_dirty());
    match state.admit_executable(1, &table) {
        Admission::AlreadyKnown => {}
        other => panic!("packed again: {:?}", other),
    }
    assert!(!state.is_dirty());
    assert_eq!(state.live_shard().len(), 3);
    // Once forgotten it is packed again.
    state.forget(1);
    assert!(!state.is_known(1));
    let (_, chunks) = admitted(state.admit_executable(1, &table));
    assert_eq!(chunks[0].low_index, 3);
    assert_eq!(chunks[0].high_index, 6);
    state.mark_persisted();
    state.mark_dirty();
    assert!(state.is_dirty());
}

#[test]
fn a_table_that_fills_the_shard_hands_it_out() {
    let mut state = NativeUnwindState::default();
    let table = rows(1000, SHARD_CAPACITY);
    let (shards, chunks) = admitted(state.admit_executable(1, &table));
    assert_eq!(shards.len(), 1);
    assert_eq!(shards[0].0, 0);
    assert_eq!(shards[0].1, table);
    assert_eq!(
        chunks[0],
        ChunkInfo {
            low_pc: 1000,
            high_pc: 1000 + 10 * (SHARD_CAPACITY as u64 - 1),
            shard_index: 0,
            low_index: 0,
            high_index: SHARD_CAPACITY as u64,
        }
    );
    assert_eq!(chunks[1], ChunkInfo::zero());
    assert_eq!(state.shard_index(), 1);
    assert!(state.live_shard().is_empty());
}

#[test]
fn a_table_is_cut_where_the_live_shard_ends() {
    let mut state = NativeUnwindState::default();
    admitted(state.admit_executable(1, &rows(0, 100)));
    let table = rows(5000, SHARD_CAPACITY + 50);
    let (shards, chunks) = admitted(state.admit_executable(2, &table));

    // The first slice takes what was free, the second a part of the next
    // shard.
    let cut = SHARD_CAPACITY - 100;
    assert_eq!(shards.len(), 1);
    assert_eq!(shards[0].0, 0);
    assert_eq!(shards[0].1.len(), SHARD_CAPACITY);
    assert_eq!(shards[0].1[99], row(990));
    assert_eq!(shards[0].1[100], table[0]);
    assert_eq!(shards[0].1[SHARD_CAPACITY - 1], table[cut - 1]);
    assert_eq!(
        chunks[0],
        ChunkInfo {
            low_pc: table[0].pc,
            high_pc: table[cut].pc - 1,
            shard_index: 0,
            low_index: 100,
            high_index: SHARD_CAPACITY as u64,
        }
    );
    assert_eq!(
        chunks[1],
        ChunkInfo {
            low_pc: table[cut].pc,
            high_pc: table[table.len() - 1].pc,
            shard_index: 1,
            low_index: 0,
            high_index: 150,
        }
    );
    assert_eq!(chunks[2], ChunkInfo::zero());
    assert_eq!(state.shard_index(), 1);
    assert_eq!(state.live_shard().len(), 150);
    assert_eq!(state.live_shard()[0], table[cut]);

    // The chunks cover the addresses of the table without gap or overlap.
    assert_eq!(chunks[0].high_pc + 1, chunks[1].low_pc);
}

#[test]
fn used_up_shards_are_reset_once_and_then_filled_from_the_first() {
    let mut state = NativeUnwindState::default();
    let table = rows(0, SHARD_CAPACITY);
    let mut resets = 0;
    let mut admissions = 0;
    for id in 1..=(MAX_SHARDS + 1) {
        match state.admit_executable(id, &table) {
            Admission::Admitted { shards, chunks } => {
                admissions += 1;
                assert_eq!(shards.len(), 1);
                assert_eq!(shards[0].shard_index, id - 1);
                assert_eq!(chunks[0].shard_index, id - 1);
            }
            Admission::Reset => {
                resets += 1;
                assert_eq!(id, MAX_SHARDS + 1);
                assert_eq!(state.shard_index(), 0);
                assert!(state.live_shard().is_empty());
                assert!(!state.is_dirty());
                assert!(!state.is_known(1));
                assert!(!state.is_known(MAX_SHARDS));
            }
            Admission::AlreadyKnown => panic!("never admitted before"),
        }
    }
    assert_eq!(admissions, MAX_SHARDS);
    assert_eq!(resets, 1);

    // The first admission after the reset goes into shard 0.
    let small = rows(40, 4);
    let (shards, chunks) = admitted(state.admit_executable(1, &small));
    assert!(shards.is_empty());
    assert_eq!(
        chunks[0],
        ChunkInfo { low_pc: 40, high_pc: 70, shard_index: 0, low_index: 0, high_index: 4 }
    );
    assert_eq!(state.shard_index(), 0);
    assert!(state.is_known(1));
}

#[test]
fn a_table_too_large_for_what_is_left_resets_without_writing() {
    let mut state = NativeUnwindState::default();
    let table = rows(0, SHARD_CAPACITY);
    for id in 1..MAX_SHARDS {
        admitted(state.admit_executable(id, &table));
    }
    assert_eq!(state.shard_index(), MAX_SHARDS - 1);
    // One shard is left; a table of one row more than a shard does not fit.
    let large = rows(0, SHARD_CAPACITY + 1);
    match state.admit_executable(1000, &large) {
        Admission::Reset => {}
        other => panic!("not reset: {:?}", other),
    }
    assert_eq!(state.shard_index(), 0);
    assert!(!state.is_known(1000));
    assert!(!state.is_known(1));
}

#[test]
fn an_empty_table_fills_nothing() {
    let mut state = NativeUnwindState::default();
    let (shards, chunks) = admitted(state.admit_executable(1, &vec![]));
    assert!(shards.is_empty());
    assert_eq!(chunks.len(), MAX_CHUNKS);
    assert!(chunks.iter().all(|c| *c == ChunkInfo::zero()));
    assert!(state.is_known(1));
    assert!(state.live_shard().is_empty());
}
