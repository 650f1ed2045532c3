use lightswitch::layout::sum_counters;
use lightswitch::bytes::{push_be, push_le, push_zeros, read_be, read_le};
use lightswitch::layout::{
    encode_chunk, encode_chunk_index, encode_i32, encode_mapping, encode_mapping_key, encode_row,
    encode_shard, encode_u32, encode_u64, CHUNK_BYTES, MAPPING_BYTES, MAPPING_KEY_BYTES,
    ROW_BYTES,
};
use lightswitch::mapping::{ExecMappingKey, MappingRecord};
use lightswitch::shard::{ChunkInfo, MAX_CHUNKS, SHARD_CAPACITY};
use lightswitch::unwind_info::CompactUnwindRow;

fn row(pc: u64) -> CompactUnwindRow {
    CompactUnwindRow { pc, cfa_type: 2, rbp_type: 1, cfa_offset: -8, rbp_offset: -16 }
}

#[test]
fn push_le_and_be() {
    let mut out = vec![0xaa];
    push_le(&mut out, 0x0102_0304, 4);
    assert_eq!(out, vec![0xaa, 4, 3, 2, 1]);
    let mut out = Vec::new();
    push_be(&mut out, 0x0102_0304, 4);
    assert_eq!(out, vec![1, 2, 3, 4]);
    // Only the low bytes are written.
    let mut out = Vec::new();
    push_le(&mut out, 0x0102_0304, 2);
    push_be(&mut out, 0x0102_0304, 2);
    push_le(&mut out, 5, 0);
    assert_eq!(out, vec![4, 3, 3, 4]);
    let mut out = vec![1];
    push_zeros(&mut out, 3);
    assert_eq!(out, vec![1, 0, 0, 0]);
}

#[test]
fn read_le_and_be() {
    let bytes = vec![9, 1, 2, 3, 4, 9];
    assert_eq!(read_le(&bytes, 1, 4), 0x0403_0201);
    assert_eq!(read_be(&bytes, 1, 4), 0x0102_0304);
    assert_eq!(read_le(&bytes, 3, 0), 0);
    let all = vec![0xff; 8];
    assert_eq!(read_le(&all, 0, 8), u64::MAX);
    assert_eq!(read_be(&all, 0, 8), u64::MAX);
}

#[test]
fn what_is_written_is_read_back() {
    for value in [0u64, 1, 0xff, 0x100, 0xdead_beef, u64::MAX] {
        let mut le = Vec::new();
        push_le(&mut le, value, 8);
        assert_eq!(read_le(&le, 0, 8), value);
        assert_eq!(le, value.to_le_bytes().to_vec());
        let mut be = Vec::new();
        push_be(&mut be, value, 8);
        assert_eq!(read_be(&be, 0, 8), value);
        assert_eq!(be, value.to_be_bytes().to_vec());
    }
}

#[test]
fn encode_row_lays_out_sixteen_bytes() {
    let mut out = Vec::new();
    encode_row(
        &mut out,
        &CompactUnwindRow {
            pc: 0x0102_0304_0506_0708,
            cfa_type: 2,
            rbp_type: 1,
            cfa_offset: -8,
            rbp_offset: 16,
        },
    );
    assert_eq!(
        out,
        vec![8, 7, 6, 5, 4, 3, 2, 1, 0xf8, 0xff, 2, 1, 16, 0, 0, 0]
    );
    assert_eq!(out.len(), ROW_BYTES);
    let mut out = vec![7];
    encode_row(
        &mut out,
        &CompactUnwindRow {
            pc: 0,
            cfa_type: 0,
            rbp_type: 0,
            cfa_offset: i16::MIN,
            rbp_offset: i16::MAX,
        },
    );
    assert_eq!(
        out,
        vec![7, 0, 0, 0, 0, 0, 0, 0, 0, 0x00, 0x80, 0, 0, 0xff, 0x7f, 0, 0]
    );
}

#[test]
fn encode_shard_fills_up_with_zeros() {
    let bytes = encode_shard(&vec![row(0x10), row(0x20)]);
    assert_eq!(bytes.len(), SHARD_CAPACITY * ROW_BYTES);
    assert_eq!(&bytes[..16], &[0x10, 0, 0, 0, 0, 0, 0, 0, 0xf8, 0xff, 2, 1, 0xf0, 0xff, 0, 0]);
    assert_eq!(&bytes[16..32], &[0x20, 0, 0, 0, 0, 0, 0, 0, 0xf8, 0xff, 2, 1, 0xf0, 0xff, 0, 0]);
    assert!(bytes[32..].iter().all(|b| *b == 0));
    let empty = encode_shard(&vec![]);
    assert_eq!(empty.len(), SHARD_CAPACITY * ROW_BYTES);
    assert!(empty.iter().all(|b| *b == 0));
}

#[test]
fn encode_numbers() {
    assert_eq!(encode_u64(0x0102_0304_0506_0708), vec![8, 7, 6, 5, 4, 3, 2, 1]);
    assert_eq!(encode_u32(0x0102_0304), vec![4, 3, 2, 1]);
    assert_eq!(encode_i32(-1), vec![0xff, 0xff, 0xff, 0xff]);
    assert_eq!(encode_i32(-2), (-2i32).to_le_bytes().to_vec());
    assert_eq!(encode_i32(i32::MIN), i32::MIN.to_le_bytes().to_vec());
    assert_eq!(encode_i32(i32::MAX), i32::MAX.to_le_bytes().to_vec());
    assert_eq!(encode_i32(5), vec![5, 0, 0, 0]);
}

#[test]
fn encode_chunk_lays_out_forty_bytes() {
    let chunk = ChunkInfo { low_pc: 1, high_pc: 2, shard_index: 3, low_index: 4, high_index: 0x0506 };
    let mut out = Vec::new();
    encode_chunk(&mut out, &chunk);
    let mut expected = Vec::new();
    for v in [1u64, 2, 3, 4, 0x0506] {
        expected.extend_from_slice(&v.to_le_bytes());
    }
    assert_eq!(out, expected);
    assert_eq!(out.len(), CHUNK_BYTES);

    let mut index = vec![chunk];
    while index.len() < MAX_CHUNKS {
        index.push(ChunkInfo::zero());
    }
    let bytes = encode_chunk_index(&index);
    assert_eq!(bytes.len(), MAX_CHUNKS * CHUNK_BYTES);
    assert_eq!(&bytes[..40], &expected[..]);
    assert!(bytes[40..].iter().all(|b| *b == 0));
}

#[test]
fn encode_mapping_lays_out_forty_bytes() {
    let record = MappingRecord {
        load_address: 0x1000,
        begin: 0x2000,
        end: 0x3000,
        executable_id: 0xabcdef,
        type_: 2,
    };
    let bytes = encode_mapping(&record);
    let mut expected = Vec::new();
    for v in [0x1000u64, 0x2000, 0x3000, 0xabcdef] {
        expected.extend_from_slice(&v.to_le_bytes());
    }
    expected.extend_from_slice(&2u32.to_le_bytes());
    expected.extend_from_slice(&[0, 0, 0, 0]);
    assert_eq!(bytes, expected);
    assert_eq!(bytes.len(), MAPPING_BYTES);
}

#[test]
fn encode_mapping_key_puts_the_highest_byte_first() {
    let key = ExecMappingKey { prefix_len: 32 + 52, pid: 0x0102_0304, addr: 0x1122_3344_5566_7000 };
    let bytes = encode_mapping_key(&key);
    assert_eq!(
        bytes,
        vec![84, 0, 0, 0, 1, 2, 3, 4, 0x11, 0x22, 0x33, 0x44, 0x55, 0x66, 0x70, 0x00]
    );
    assert_eq!(bytes.len(), MAPPING_KEY_BYTES);
}

#[test]
fn counters_are_summed_over_the_processors() {
    let value = |counters: &[u64]| {
        let mut bytes = Vec::new();
        for c in counters {
            bytes.extend_from_slice(&c.to_le_bytes());
        }
        bytes
    };
    assert_eq!(sum_counters(&vec![]), Vec::<u64>::new());
    assert_eq!(sum_counters(&vec![value(&[1, 2, 3])]), vec![1, 2, 3]);
    assert_eq!(
        sum_counters(&vec![value(&[1, 2, 3]), value(&[10, 20, 30]), value(&[100, 0, 7])]),
        vec![111, 22, 40]
    );
    // What does not fit counts as the largest number.
    assert_eq!(
        sum_counters(&vec![value(&[u64::MAX, 5]), value(&[1, 6]), value(&[1, 7])]),
        vec![u64::MAX, 18]
    );
    // A value that is too short adds nothing to the counters it lacks, and
    // bytes past the last whole counter are passed over.
    let mut long = value(&[1, 1]);
    long.push(9);
    assert_eq!(sum_counters(&vec![long, value(&[5])]), vec![6, 1]);
    assert_eq!(sum_counters(&vec![vec![1, 2, 3], value(&[5])]), Vec::<u64>::new());
}
