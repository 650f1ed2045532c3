//! The mapping table that the kernel side searches by process and address:
//! its records, its keys, and the entries that stand for the mappings of a
//! process.

use vstd::prelude::*;
use crate::address_range::{summarize_address_range, summary, AddressBlockRange};

verus! {

/// The number of key bits that hold the process id.
pub const PID_BITS: u32 = 32;

/// A mapping of code that was compiled ahead of time.
pub const MAPPING_TYPE_NORMAL: u32 = 0;

/// A mapping of generated code.
pub const MAPPING_TYPE_JITTED: u32 = 1;

/// A mapping of the pages that the kernel maps into every process.
pub const MAPPING_TYPE_VDSO: u32 = 2;

/// What the kernel side learns of a mapping: the executable, the range of
/// addresses, and what to subtract from a sampled address to get the
/// address that the unwind table of the executable speaks of.
#[derive(Clone, Copy, Debug, PartialEq, Eq, Structural)]
pub struct MappingRecord {
    pub load_address: u64,
    pub begin: u64,
    pub end: u64,
    pub executable_id: u64,
    pub type_: u32,
}

impl MappingRecord {
    pub open spec fn zeroed() -> MappingRecord {
        MappingRecord { load_address: 0, begin: 0, end: 0, executable_id: 0, type_: 0 }
    }

    /// The record that marks a process as known.
    pub fn zero() -> (record: MappingRecord)
        ensures
            record == MappingRecord::zeroed(),
    {
        MappingRecord { load_address: 0, begin: 0, end: 0, executable_id: 0, type_: 0 }
    }
}

/// A key of the mapping table: the process, and the first `prefix_len - 32`
/// bits of an address.
#[derive(Clone, Copy, Debug, PartialEq, Eq, Structural)]
pub struct ExecMappingKey {
    pub prefix_len: u32,
    pub pid: u32,
    pub addr: u64,
}

/// One entry of the mapping table.
#[derive(Clone, Copy, Debug, PartialEq, Eq, Structural)]
pub struct ExecMappingEntry {
    pub key: ExecMappingKey,
    pub value: MappingRecord,
}

/// The entry under which a block of the addresses of a mapping is found.
pub open spec fn block_entry(pid: u32, record: MappingRecord, block: AddressBlockRange) -> ExecMappingEntry {
    ExecMappingEntry {
        key: ExecMappingKey {
            prefix_len: (PID_BITS + block.prefix_len) as u32,
            pid,
            addr: block.addr,
        },
        value: record,
    }
}

/// The entries for one mapping: one for each block of the summary of its
/// addresses, `begin` included and `end` not.
pub open spec fn record_entries(pid: u32, record: MappingRecord) -> Seq<ExecMappingEntry> {
    summary(record.begin as int, record.end - 1).map_values(
        |block: AddressBlockRange| block_entry(pid, record, block),
    )
}

/// The entry that marks a process as known: its key holds the process
/// alone.
pub open spec fn process_entry(pid: u32) -> ExecMappingEntry {
    ExecMappingEntry {
        key: ExecMappingKey { prefix_len: PID_BITS, pid, addr: 0 },
        value: MappingRecord::zeroed(),
    }
}

/// The entries for a process and the first `n` of its mappings: the entry
/// that marks the process as known, then those of each mapping in turn.
pub open spec fn process_entries(pid: u32, records: Seq<MappingRecord>, n: int) -> Seq<
    ExecMappingEntry,
>
    decreases n,
{
    if n <= 0 {
        seq![process_entry(pid)]
    } else {
        process_entries(pid, records, n - 1) + record_entries(pid, records[n - 1])
    }
}

/// The entries of the mapping table for a process with the given mappings.
pub fn exec_mapping_entries(pid: u32, records: &Vec<MappingRecord>) -> (entries: Vec<
    ExecMappingEntry,
>)
    ensures
        entries@ == process_entries(pid, records@, records@.len() as int),
{
    let mut entries: Vec<ExecMappingEntry> = Vec::new();
    entries.push(
        ExecMappingEntry {
            key: ExecMappingKey { prefix_len: PID_BITS, pid, addr: 0 },
            value: MappingRecord::zero(),
        },
    );
    let n: usize = records.len();
    let mut i: usize = 0;
    while i < n
        invariant
            i <= n,
            n == records.len(),
            entries@ == process_entries(pid, records@, i as int),
        decreases n - i,
    {
        let record = records[i];
        let ghost before = entries@;
        if record.end > 0 {
            let blocks = summarize_address_range(record.begin, record.end - 1);
            let m: usize = blocks.len();
            let mut j: usize = 0;
            while j < m
                invariant
                    j <= m,
                    m == blocks.len(),
                    forall|b: int| 0 <= b < m ==> (#[trigger] blocks[b]).prefix_len <= 64,
                    entries@ == before + blocks@.subrange(0, j as int).map_values(
                        |block: AddressBlockRange| block_entry(pid, record, block),
                    ),
                decreases m - j,
            {
                let block = blocks[j];
                entries.push(
                    ExecMappingEntry {
                        key: ExecMappingKey {
                            prefix_len: PID_BITS + block.prefix_len,
                            pid,
                            addr: block.addr,
                        },
                        value: record,
                    },
                );
                assert(blocks@.subrange(0, j + 1) == blocks@.subrange(0, j as int).push(block));
                assert(blocks@.subrange(0, j + 1).map_values(
                    |block: AddressBlockRange| block_entry(pid, record, block),
                ) == blocks@.subrange(0, j as int).map_values(
                    |block: AddressBlockRange| block_entry(pid, record, block),
                ).push(block_entry(pid, record, block)));
                j += 1;
            }
            assert(blocks@.subrange(0, m as int) == blocks@);
        } else {
            assert(summary(record.begin as int, record.end - 1) == Seq::<
                AddressBlockRange,
            >::empty());
            assert(record_entries(pid, record) == Seq::<ExecMappingEntry>::empty());
            assert(before + Seq::<ExecMappingEntry>::empty() == before);
        }
        i += 1;
    }
    entries
}

} // verus!
