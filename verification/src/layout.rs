//! The binary layout of the tables shared with the kernel side: how rows,
//! chunks, mapping records and keys are written, and how the keys, counts
//! and events that come back are read. Fields hold their lowest byte
//! first, as on the machines that the unwinder runs on; the key of the
//! mapping table holds the process and the address highest byte first, so
//! that a prefix of its bits is a prefix of the address.

use vstd::prelude::*;
use vstd::arithmetic::power2::lemma2_to64;
use crate::bytes::{
    be_bytes, from_le, from_twos_complement, le_bytes, lemma_le_bytes_len, push_be, push_le,
    push_zeros, read_le, twos_complement, zeros,
};
use crate::mapping::{ExecMappingKey, MappingRecord};
use crate::process::TracerEvent;
use crate::shard::{ChunkInfo, SHARD_CAPACITY};
use crate::unwind_info::CompactUnwindRow;

verus! {

/// The bytes of a row in a shard.
pub const ROW_BYTES: usize = 16;

/// The bytes of a chunk in a chunk index.
pub const CHUNK_BYTES: usize = 40;

/// The bytes of a record of the mapping table.
pub const MAPPING_BYTES: usize = 40;

/// The bytes of a key of the mapping table.
pub const MAPPING_KEY_BYTES: usize = 16;

/// The bytes of the key of an aggregated stack.
pub const STACK_COUNT_KEY_BYTES: usize = 16;

/// The addresses that a stack can hold.
pub const MAX_STACK_DEPTH: usize = 127;

/// The bytes of a stack in the table of stacks.
pub const NATIVE_STACK_BYTES: usize = 1024;

/// The event of the tracers that reports the end of a process.
pub const TRACER_EVENT_PROCESS_EXIT: u32 = 1;

/// The event of the tracers that reports that a mapping went.
pub const TRACER_EVENT_MUNMAP: u32 = 2;

/// A row as it lies in a shard: the address, the offset of the frame
/// address, the two kinds, the offset of the frame pointer, and two bytes
/// that fill the row up.
pub open spec fn row_bytes(row: CompactUnwindRow) -> Seq<u8> {
    le_bytes(row.pc as nat, 8) + le_bytes(twos_complement(row.cfa_offset as int, 16), 2)
        + le_bytes(row.cfa_type as nat, 1) + le_bytes(row.rbp_type as nat, 1) + le_bytes(
        twos_complement(row.rbp_offset as int, 16),
        2,
    ) + zeros(2)
}

/// The first `n` rows, one after the other.
pub open spec fn rows_bytes(rows: Seq<CompactUnwindRow>, n: int) -> Seq<u8>
    decreases n,
{
    if n <= 0 {
        Seq::empty()
    } else {
        rows_bytes(rows, n - 1) + row_bytes(rows[n - 1])
    }
}

/// A shard as it lies in the shard table: its rows, and zeros up to the
/// size of a full shard.
pub open spec fn shard_bytes(rows: Seq<CompactUnwindRow>) -> Seq<u8> {
    rows_bytes(rows, rows.len() as int) + zeros(
        (if rows.len() < SHARD_CAPACITY {
            (SHARD_CAPACITY - rows.len()) * ROW_BYTES
        } else {
            0
        }) as nat,
    )
}

/// A chunk as it lies in a chunk index.
pub open spec fn chunk_bytes(chunk: ChunkInfo) -> Seq<u8> {
    le_bytes(chunk.low_pc as nat, 8) + le_bytes(chunk.high_pc as nat, 8) + le_bytes(
        chunk.shard_index as nat,
        8,
    ) + le_bytes(chunk.low_index as nat, 8) + le_bytes(chunk.high_index as nat, 8)
}

/// The first `n` chunks, one after the other.
pub open spec fn chunks_bytes(chunks: Seq<ChunkInfo>, n: int) -> Seq<u8>
    decreases n,
{
    if n <= 0 {
        Seq::empty()
    } else {
        chunks_bytes(chunks, n - 1) + chunk_bytes(chunks[n - 1])
    }
}

/// A record as it lies in the mapping table: its fields, and four bytes
/// that fill it up.
pub open spec fn mapping_bytes(record: MappingRecord) -> Seq<u8> {
    le_bytes(record.load_address as nat, 8) + le_bytes(record.begin as nat, 8) + le_bytes(
        record.end as nat,
        8,
    ) + le_bytes(record.executable_id as nat, 8) + le_bytes(record.type_ as nat, 4) + zeros(4)
}

/// A key as it lies in the mapping table: the number of bits that count,
/// then the process and the address, highest byte first.
pub open spec fn mapping_key_bytes(key: ExecMappingKey) -> Seq<u8> {
    le_bytes(key.prefix_len as nat, 4) + be_bytes(key.pid as nat, 4) + be_bytes(
        key.addr as nat,
        8,
    )
}

/// The number below `2^16` that stands for a signed offset.
fn unsigned_offset(value: i16) -> (unsigned: u64)
    ensures
        unsigned == twos_complement(value as int, 16),
        unsigned < 0x1_0000,
{
    proof {
        lemma2_to64();
    }
    if value < 0 {
        ((value as i64) + 0x1_0000) as u64
    } else {
        value as u64
    }
}

/// The signed number that the low four bytes stand for.
fn signed_word(value: u64) -> (signed: i32)
    requires
        value < 0x1_0000_0000,
    ensures
        signed == from_twos_complement(value as nat, 32),
{
    proof {
        lemma2_to64();
    }
    if value >= 0x8000_0000 {
        ((value as i64) - 0x1_0000_0000) as i32
    } else {
        value as i32
    }
}

/// Appends a row as it lies in a shard.
pub fn encode_row(out: &mut Vec<u8>, row: &CompactUnwindRow)
    ensures
        final(out)@ == old(out)@ + row_bytes(*row),
{
    let ghost start = out@;
    push_le(out, row.pc, 8);
    push_le(out, unsigned_offset(row.cfa_offset), 2);
    push_le(out, row.cfa_type as u64, 1);
    push_le(out, row.rbp_type as u64, 1);
    push_le(out, unsigned_offset(row.rbp_offset), 2);
    push_zeros(out, 2);
    assert(out@ =~= start + row_bytes(*row));
}

/// A shard as it is written to the shard table: its rows, and zeros up to
/// the size of a full shard.
pub fn encode_shard(rows: &Vec<CompactUnwindRow>) -> (bytes: Vec<u8>)
    ensures
        bytes@ == shard_bytes(rows@),
{
    let mut bytes: Vec<u8> = Vec::new();
    let n: usize = rows.len();
    let mut i: usize = 0;
    while i < n
        invariant
            i <= n,
            n == rows.len(),
            bytes@ == rows_bytes(rows@, i as int),
        decreases n - i,
    {
        encode_row(&mut bytes, &rows[i]);
        i += 1;
    }
    if n < SHARD_CAPACITY {
        push_zeros(&mut bytes, (SHARD_CAPACITY - n) * ROW_BYTES);
    } else {
        assert(bytes@ + zeros(0) =~= bytes@);
    }
    bytes
}

/// A number as the key of a table: its eight bytes, used for the index of
/// a shard and for the id of an executable.
pub fn encode_u64(value: u64) -> (bytes: Vec<u8>)
    ensures
        bytes@ == le_bytes(value as nat, 8),
{
    let mut bytes: Vec<u8> = Vec::new();
    push_le(&mut bytes, value, 8);
    assert(bytes@ =~= le_bytes(value as nat, 8));
    bytes
}

/// A number as the key of a table: its four bytes, used for the id of a
/// stack and for the number of a program.
pub fn encode_u32(value: u32) -> (bytes: Vec<u8>)
    ensures
        bytes@ == le_bytes(value as nat, 4),
{
    let mut bytes: Vec<u8> = Vec::new();
    push_le(&mut bytes, value as u64, 4);
    assert(bytes@ =~= le_bytes(value as nat, 4));
    bytes
}

/// A signed number as a value of a table: its four bytes in two's
/// complement, used for the descriptor of a program.
pub fn encode_i32(value: i32) -> (bytes: Vec<u8>)
    ensures
        bytes@ == le_bytes(twos_complement(value as int, 32), 4),
{
    proof {
        lemma2_to64();
    }
    let unsigned: u64 = if value < 0 {
        ((value as i64) + 0x1_0000_0000) as u64
    } else {
        value as u64
    };
    let mut bytes: Vec<u8> = Vec::new();
    push_le(&mut bytes, unsigned, 4);
    assert(bytes@ =~= le_bytes(twos_complement(value as int, 32), 4));
    bytes
}

/// Appends a chunk as it lies in a chunk index.
pub fn encode_chunk(out: &mut Vec<u8>, chunk: &ChunkInfo)
    ensures
        final(out)@ == old(out)@ + chunk_bytes(*chunk),
{
    let ghost start = out@;
    push_le(out, chunk.low_pc, 8);
    push_le(out, chunk.high_pc, 8);
    push_le(out, chunk.shard_index, 8);
    push_le(out, chunk.low_index, 8);
    push_le(out, chunk.high_index, 8);
    assert(out@ =~= start + chunk_bytes(*chunk));
}

/// A chunk index as it is written to the table of chunk indexes: its
/// chunks, one after the other.
pub fn encode_chunk_index(chunks: &Vec<ChunkInfo>) -> (bytes: Vec<u8>)
    ensures
        bytes@ == chunks_bytes(chunks@, chunks@.len() as int),
{
    let mut bytes: Vec<u8> = Vec::new();
    let n: usize = chunks.len();
    let mut i: usize = 0;
    while i < n
        invariant
            i <= n,
            n == chunks.len(),
            bytes@ == chunks_bytes(chunks@, i as int),
        decreases n - i,
    {
        encode_chunk(&mut bytes, &chunks[i]);
        i += 1;
    }
    bytes
}

/// A record as it is written to the mapping table.
pub fn encode_mapping(record: &MappingRecord) -> (bytes: Vec<u8>)
    ensures
        bytes@ == mapping_bytes(*record),
{
    let mut bytes: Vec<u8> = Vec::new();
    push_le(&mut bytes, record.load_address, 8);
    push_le(&mut bytes, record.begin, 8);
    push_le(&mut bytes, record.end, 8);
    push_le(&mut bytes, record.executable_id, 8);
    push_le(&mut bytes, record.type_ as u64, 4);
    push_zeros(&mut bytes, 4);
    assert(bytes@ =~= mapping_bytes(*record));
    bytes
}

/// A key as it is written to the mapping table.
pub fn encode_mapping_key(key: &ExecMappingKey) -> (bytes: Vec<u8>)
    ensures
        bytes@ == mapping_key_bytes(*key),
{
    let mut bytes: Vec<u8> = Vec::new();
    push_le(&mut bytes, key.prefix_len as u64, 4);
    push_be(&mut bytes, key.pid as u64, 4);
    push_be(&mut bytes, key.addr, 8);
    assert(bytes@ =~= mapping_key_bytes(*key));
    bytes
}

/// A row fills sixteen bytes, a chunk and a mapping record forty, a key of
/// the mapping table sixteen.
pub proof fn lemma_record_sizes(
    row: CompactUnwindRow,
    chunk: ChunkInfo,
    record: MappingRecord,
    key: ExecMappingKey,
)
    ensures
        row_bytes(row).len() == ROW_BYTES,
        chunk_bytes(chunk).len() == CHUNK_BYTES,
        mapping_bytes(record).len() == MAPPING_BYTES,
        mapping_key_bytes(key).len() == MAPPING_KEY_BYTES,
{
    lemma_le_bytes_len(row.pc as nat, 8);
    lemma_le_bytes_len(twos_complement(row.cfa_offset as int, 16), 2);
    lemma_le_bytes_len(row.cfa_type as nat, 1);
    lemma_le_bytes_len(row.rbp_type as nat, 1);
    lemma_le_bytes_len(twos_complement(row.rbp_offset as int, 16), 2);
    lemma_le_bytes_len(chunk.low_pc as nat, 8);
    lemma_le_bytes_len(chunk.high_pc as nat, 8);
    lemma_le_bytes_len(chunk.shard_index as nat, 8);
    lemma_le_bytes_len(chunk.low_index as nat, 8);
    lemma_le_bytes_len(chunk.high_index as nat, 8);
    lemma_le_bytes_len(record.load_address as nat, 8);
    lemma_le_bytes_len(record.begin as nat, 8);
    lemma_le_bytes_len(record.end as nat, 8);
    lemma_le_bytes_len(record.executable_id as nat, 8);
    lemma_le_bytes_len(record.type_ as nat, 4);
    lemma_le_bytes_len(key.prefix_len as nat, 4);
    lemma_le_bytes_len(key.pid as nat, 4);
    lemma_le_bytes_len(key.addr as nat, 8);
}

/// The key under which the kernel side counts a stack.
#[derive(Clone, Copy, Debug, PartialEq, Eq, Structural)]
pub struct StackCountKey {
    pub pid: i32,
    pub task_id: i32,
    pub user_stack_id: u32,
    pub kernel_stack_id: u32,
}

/// A stack as the kernel side collects it: the addresses, of which the
/// first `len` count.
#[derive(Clone, Copy, Debug, PartialEq, Eq, Hash)]
pub struct NativeStack {
    pub addresses: [u64; 127],
    pub len: u64,
}

/// The four bytes from `at` on as a number.
pub open spec fn word_at(bytes: Seq<u8>, at: int) -> nat {
    from_le(bytes.subrange(at, at + 4))
}

/// The eight bytes from `at` on as a number.
pub open spec fn long_at(bytes: Seq<u8>, at: int) -> nat {
    from_le(bytes.subrange(at, at + 8))
}

/// The key that the first sixteen bytes hold.
pub open spec fn stack_count_key_of(bytes: Seq<u8>) -> StackCountKey {
    StackCountKey {
        pid: from_twos_complement(word_at(bytes, 0), 32) as i32,
        task_id: from_twos_complement(word_at(bytes, 4), 32) as i32,
        user_stack_id: word_at(bytes, 8) as u32,
        kernel_stack_id: word_at(bytes, 12) as u32,
    }
}

proof fn lemma_word_bound(bytes: Seq<u8>, at: int)
    requires
        0 <= at,
        at + 4 <= bytes.len(),
    ensures
        word_at(bytes, at) < 0x1_0000_0000,
{
    let field = bytes.subrange(at, at + 4);
    reveal_with_fuel(from_le, 5);
    assert(field.drop_first().drop_first().drop_first().drop_first().len() == 0);
}

/// Reads a signed number of four bytes.
fn read_i32(bytes: &Vec<u8>, at: usize) -> (value: i32)
    requires
        at + 4 <= bytes.len(),
    ensures
        value == from_twos_complement(word_at(bytes@, at as int), 32),
{
    proof {
        lemma_word_bound(bytes@, at as int);
    }
    signed_word(read_le(bytes, at, 4))
}

/// Reads a number of four bytes.
fn read_u32(bytes: &Vec<u8>, at: usize) -> (value: u32)
    requires
        at + 4 <= bytes.len(),
    ensures
        value == word_at(bytes@, at as int),
{
    proof {
        lemma_word_bound(bytes@, at as int);
    }
    read_le(bytes, at, 4) as u32
}

/// Reads the key of an aggregated stack from the start of the bytes; there
/// is none in fewer than sixteen bytes.
pub fn decode_stack_count_key(bytes: &Vec<u8>) -> (key: Option<StackCountKey>)
    ensures
        bytes@.len() < STACK_COUNT_KEY_BYTES ==> key is None,
        bytes@.len() >= STACK_COUNT_KEY_BYTES ==> key == Some(stack_count_key_of(bytes@)),
{
    if bytes.len() < STACK_COUNT_KEY_BYTES {
        return None;
    }
    Some(
        StackCountKey {
            pid: read_i32(bytes, 0),
            task_id: read_i32(bytes, 4),
            user_stack_id: read_u32(bytes, 8),
            kernel_stack_id: read_u32(bytes, 12),
        },
    )
}

/// Reads a count from the start of the bytes; there is none in fewer than
/// eight bytes.
pub fn decode_count(bytes: &Vec<u8>) -> (count: Option<u64>)
    ensures
        bytes@.len() < 8 ==> count is None,
        bytes@.len() >= 8 ==> count == Some(long_at(bytes@, 0) as u64),
{
    if bytes.len() < 8 {
        return None;
    }
    Some(read_le(bytes, 0, 8))
}

/// The stack that the first 1024 bytes hold: the length, then the
/// addresses.
pub open spec fn native_stack_holds(bytes: Seq<u8>, stack: NativeStack) -> bool {
    &&& stack.len == long_at(bytes, 0)
    &&& forall|i: int| 0 <= i < MAX_STACK_DEPTH ==> stack.addresses@[i] == long_at(bytes, 8 + 8 * i)
}

/// The stack that the first 1024 bytes hold.
pub open spec fn native_stack_of(bytes: Seq<u8>) -> NativeStack {
    choose|stack: NativeStack| native_stack_holds(bytes, stack)
}

/// Bytes hold one stack and no other.
pub proof fn lemma_native_stack_unique(bytes: Seq<u8>, a: NativeStack, b: NativeStack)
    requires
        native_stack_holds(bytes, a),
        native_stack_holds(bytes, b),
    ensures
        a == b,
{
    broadcast use vstd::array::group_array_axioms;

    assert(a.addresses =~= b.addresses);
}

/// Reads a stack from the start of the bytes; there is none in fewer than
/// 1024 bytes.
pub fn decode_native_stack(bytes: &Vec<u8>) -> (stack: Option<NativeStack>)
    ensures
        bytes@.len() < NATIVE_STACK_BYTES ==> stack is None,
        bytes@.len() >= NATIVE_STACK_BYTES ==> stack == Some(native_stack_of(bytes@))
            && native_stack_holds(bytes@, native_stack_of(bytes@)),
{
    if bytes.len() < NATIVE_STACK_BYTES {
        return None;
    }
    let len = read_le(bytes, 0, 8);
    let mut addresses: [u64; 127] = [0u64; 127];
    let mut i: usize = 0;
    while i < MAX_STACK_DEPTH
        invariant
            i <= MAX_STACK_DEPTH,
            bytes@.len() >= NATIVE_STACK_BYTES,
            forall|k: int| 0 <= k < i ==> addresses@[k] == long_at(bytes@, 8 + 8 * k),
        decreases MAX_STACK_DEPTH - i,
    {
        let value = read_le(bytes, 8 + 8 * i, 8);
        addresses[i] = value;
        i += 1;
    }
    let stack = NativeStack { addresses, len };
    proof {
        assert(native_stack_holds(bytes@, stack));
        lemma_native_stack_unique(bytes@, stack, native_stack_of(bytes@));
    }
    Some(stack)
}

/// The kind and the process of the event that the first eight bytes hold.
pub open spec fn event_of(bytes: Seq<u8>) -> (u32, i32) {
    (word_at(bytes, 0) as u32, from_twos_complement(word_at(bytes, 4), 32) as i32)
}

/// Reads an event of the sampler, its kind and its process, from the
/// start of the bytes; there is none in fewer than eight bytes.
pub fn decode_event(bytes: &Vec<u8>) -> (event: Option<(u32, i32)>)
    ensures
        bytes@.len() < 8 ==> event is None,
        bytes@.len() >= 8 ==> event == Some(event_of(bytes@)),
{
    if bytes.len() < 8 {
        return None;
    }
    Some((read_u32(bytes, 0), read_i32(bytes, 4)))
}

/// The event of the tracers that the first sixteen bytes hold, if its kind
/// is known.
pub open spec fn tracer_event_of(bytes: Seq<u8>) -> Option<TracerEvent> {
    let kind = word_at(bytes, 0);
    let pid = from_twos_complement(word_at(bytes, 4), 32) as i32;
    if kind == TRACER_EVENT_PROCESS_EXIT {
        Some(TracerEvent::ProcessExit(pid))
    } else if kind == TRACER_EVENT_MUNMAP {
        Some(TracerEvent::Munmap(pid, long_at(bytes, 8) as u64))
    } else {
        None
    }
}

/// Reads an event of the tracers from the start of the bytes; there is
/// none in fewer than sixteen bytes, and none of a kind that is not known.
pub fn decode_tracer_event(bytes: &Vec<u8>) -> (event: Option<TracerEvent>)
    ensures
        bytes@.len() < 16 ==> event is None,
        bytes@.len() >= 16 ==> event == tracer_event_of(bytes@),
{
    if bytes.len() < 16 {
        return None;
    }
    let kind = read_u32(bytes, 0);
    let pid = read_i32(bytes, 4);
    if kind == TRACER_EVENT_PROCESS_EXIT {
        Some(TracerEvent::ProcessExit(pid))
    } else if kind == TRACER_EVENT_MUNMAP {
        Some(TracerEvent::Munmap(pid, read_le(bytes, 8, 8)))
    } else {
        None
    }
}

/// Counter `w` of a value of the table of counters: the value is a row of
/// counters of eight bytes each; a value that is too short for the counter
/// adds nothing.
pub open spec fn counter_at(value: Seq<u8>, w: int) -> nat {
    if 0 <= w && 8 * (w + 1) <= value.len() {
        long_at(value, 8 * w)
    } else {
        0
    }
}

/// Counter `w` summed over the first `n` values.
pub open spec fn counter_sum(values: Seq<Vec<u8>>, w: int, n: int) -> nat
    decreases n,
{
    if n <= 0 {
        0
    } else {
        counter_sum(values, w, n - 1) + counter_at(values[n - 1]@, w)
    }
}

/// A sum as a counter holds it: what does not fit counts as the largest
/// number that does.
pub open spec fn saturated(total: nat) -> u64 {
    if total > u64::MAX {
        u64::MAX
    } else {
        total as u64
    }
}

/// The counters of the unwinder summed over the processors: `values`
/// holds what each processor counted, and each counter of the result is
/// the sum of that counter over all of them. There are as many counters as
/// the value of the first processor holds.
pub fn sum_counters(values: &Vec<Vec<u8>>) -> (totals: Vec<u64>)
    ensures
        totals@.len() == (if values@.len() == 0 {
            0
        } else {
            values@[0]@.len() / 8
        }),
        forall|w: int|
            0 <= w < totals@.len() ==> #[trigger] totals@[w] == saturated(
                counter_sum(values@, w, values@.len() as int),
            ),
{
    let mut totals: Vec<u64> = Vec::new();
    let n: usize = values.len();
    if n == 0 {
        return totals;
    }
    let counters: usize = values[0].len() / 8;
    let mut w: usize = 0;
    while w < counters
        invariant
            w <= counters,
            n == values@.len(),
            n > 0,
            counters == values@[0]@.len() / 8,
            totals@.len() == w,
            forall|v: int|
                0 <= v < w ==> #[trigger] totals@[v] == saturated(
                    counter_sum(values@, v, n as int),
                ),
        decreases counters - w,
    {
        let mut total: u64 = 0;
        let mut c: usize = 0;
        while c < n
            invariant
                c <= n,
                n == values@.len(),
                w < counters,
                counters == values@[0]@.len() / 8,
                total == saturated(counter_sum(values@, w as int, c as int)),
            decreases n - c,
        {
            let value = &values[c];
            let counter: u64 = if value.len() / 8 > w {
                read_le(value, 8 * w, 8)
            } else {
                0
            };
            assert(counter == counter_at(values@[c as int]@, w as int));
            if total > u64::MAX - counter {
                total = u64::MAX;
            } else {
                total = total + counter;
            }
            c += 1;
        }
        let ghost before = totals@;
        totals.push(total);
        assert forall|v: int| 0 <= v < w + 1 implies #[trigger] totals@[v] == saturated(
            counter_sum(values@, v, n as int),
        ) by {
            if v < w {
                assert(totals@[v] == before[v]);
            }
        }
        w += 1;
    }
    totals
}

} // verus!
