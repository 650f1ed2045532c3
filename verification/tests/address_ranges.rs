use lightswitch::address_range::{summarize_address_range, AddressBlockRange};
use lightswitch::mapping::{
    exec_mapping_entries, ExecMappingEntry, ExecMappingKey, MappingRecord, MAPPING_TYPE_JITTED,
    MAPPING_TYPE_NORMAL, MAPPING_TYPE_VDSO, PID_BITS,
};

fn block(addr: u64, prefix_len: u32) -> AddressBlockRange {
    AddressBlockRange { addr, prefix_len }
}

/// The addresses that the blocks hold, one after the other.
fn covered(blocks: &[AddressBlockRange]) -> Vec<u64> {
    let mut all = Vec::new();
    for b in blocks {
        let size: u128 = 1u128 << (64 - b.prefix_len);
        let mut a = b.addr as u128;
        while a < b.addr as u128 + size {
            all.push(a as u64);
            a += 1;
        }
    }
    all
}

#[test]
fn summarize_one_address() {
    assert_eq!(summarize_address_range(0, 0), vec![block(0, 64)]);
    assert_eq!(summarize_address_range(u64::MAX, u64::MAX), vec![block(u64::MAX, 64)]);
    assert_eq!(summarize_address_range(12345, 12345), vec![block(12345, 64)]);
}

#[test]
fn summarize_all_addresses() {
    assert_eq!(summarize_address_range(0, u64::MAX), vec![block(0, 0)]);
}

#[test]
fn summarize_an_aligned_page() {
    assert_eq!(summarize_address_range(0x1000, 0x1fff), vec![block(0x1000, 52)]);
    assert_eq!(
        summarize_address_range(0x1000, 0x2000),
        vec![block(0x1000, 52), block(0x2000, 64)]
    );
}

#[test]
fn summarize_an_unaligned_range() {
    assert_eq!(
        summarize_address_range(1, 6),
        vec![block(1, 64), block(2, 63), block(4, 63), block(6, 64)]
    );
    assert_eq!(
        summarize_address_range(5, 20),
        vec![block(5, 64), block(6, 63), block(8, 61), block(16, 62), block(20, 64)]
    );
}

#[test]
fn summarize_the_upper_end() {
    assert_eq!(
        summarize_address_range(u64::MAX - 2, u64::MAX),
        vec![block(u64::MAX - 2, 64), block(u64::MAX - 1, 63)]
    );
    assert_eq!(summarize_address_range(1u64 << 63, u64::MAX), vec![block(1u64 << 63, 1)]);
    assert_eq!(
        summarize_address_range(1, u64::MAX).len(),
        64
    );
}

#[test]
fn summarize_an_empty_range() {
    assert_eq!(summarize_address_range(7, 6), vec![]);
    assert_eq!(summarize_address_range(u64::MAX, 0), vec![]);
}

#[test]
fn summary_holds_each_address_once() {
    for begin in 0u64..40 {
        for end in begin..40 {
            let blocks = summarize_address_range(begin, end);
            let expected: Vec<u64> = (begin..=end).collect();
            assert_eq!(covered(&blocks), expected, "from {} to {}", begin, end);
            for b in &blocks {
                // Each block starts on a multiple of its size.
                let size: u128 = 1u128 << (64 - b.prefix_len);
                assert_eq!(b.addr as u128 % size, 0);
            }
        }
    }
}

#[test]
fn mapping_entries_of_a_process() {
    let record = MappingRecord {
        load_address: 0x1000,
        begin: 0x1000,
        end: 0x2000,
        executable_id: 0xabc,
        type_: MAPPING_TYPE_NORMAL,
    };
    let jit = MappingRecord {
        load_address: 0,
        begin: 5,
        end: 8,
        executable_id: 0,
        type_: MAPPING_TYPE_JITTED,
    };
    let entries = exec_mapping_entries(7, &vec![record, jit]);
    assert_eq!(
        entries,
        vec![
            ExecMappingEntry {
                key: ExecMappingKey { prefix_len: 32, pid: 7, addr: 0 },
                value: MappingRecord {
                    load_address: 0,
                    begin: 0,
                    end: 0,
                    executable_id: 0,
                    type_: 0
                },
            },
            ExecMappingEntry {
                key: ExecMappingKey { prefix_len: 32 + 52, pid: 7, addr: 0x1000 },
                value: record,
            },
            ExecMappingEntry {
                key: ExecMappingKey { prefix_len: 32 + 64, pid: 7, addr: 5 },
                value: jit,
            },
            ExecMappingEntry {
                key: ExecMappingKey { prefix_len: 32 + 63, pid: 7, addr: 6 },
                value: jit,
            },
        ]
    );
    assert_eq!(PID_BITS, 32);
    assert_eq!(MAPPING_TYPE_VDSO, 2);
}

#[test]
fn mapping_entries_without_mappings() {
    let entries = exec_mapping_entries(99, &vec![]);
    assert_eq!(entries.len(), 1);
    assert_eq!(entries[0].key, ExecMappingKey { prefix_len: 32, pid: 99, addr: 0 });
    assert_eq!(entries[0].value, MappingRecord::zero());
}

#[test]
fn mapping_entries_of_an_empty_range() {
    let empty = MappingRecord {
        load_address: 0,
        begin: 0x2000,
        end: 0x2000,
        executable_id: 1,
        type_: MAPPING_TYPE_NORMAL,
    };
    let at_zero = MappingRecord { begin: 0, end: 0, ..empty };
    let entries = exec_mapping_entries(1, &vec![empty, at_zero]);
    assert_eq!(entries.len(), 1);
}
