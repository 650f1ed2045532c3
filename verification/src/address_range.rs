//! Splitting a range of addresses into the prefixes that a
//! longest-prefix-match table can hold.

use vstd::prelude::*;
use vstd::arithmetic::div_mod::{lemma_fundamental_div_mod, lemma_mod_multiples_basic};
use vstd::arithmetic::mul::lemma_mul_is_associative;
use vstd::relations::injective_on;
use vstd::set_lib::{lemma_int_range, lemma_len_subset, lemma_map_size, set_int_range};
use vstd::arithmetic::power2::{
    lemma2_to64, lemma2_to64_rest, lemma_pow2_adds, lemma_pow2_pos, lemma_pow2_strictly_increases,
    lemma_pow2_unfold, pow2,
};

verus! {

/// A block of addresses that share their first `prefix_len` bits: the
/// `2^(64 - prefix_len)` addresses from `addr` on.
#[derive(Clone, Copy, Debug, PartialEq, Eq, Structural)]
pub struct AddressBlockRange {
    pub addr: u64,
    pub prefix_len: u32,
}

impl AddressBlockRange {
    /// The number of bits that differ inside the block.
    pub open spec fn host_bits(self) -> nat {
        (64 - self.prefix_len) as nat
    }

    /// The lowest address of the block.
    pub open spec fn first(self) -> int {
        self.addr as int
    }

    /// The highest address of the block.
    pub open spec fn last(self) -> int {
        self.addr + pow2(self.host_bits()) - 1
    }

    /// The address lies in the block.
    pub open spec fn contains(self, a: int) -> bool {
        self.first() <= a <= self.last()
    }
}

/// A block of `2^bits` addresses can start at `cur` and end at or before
/// `end`: `cur` is a multiple of its size.
pub open spec fn block_fits(cur: int, end: int, bits: nat) -> bool {
    &&& bits <= 64
    &&& cur % (pow2(bits) as int) == 0
    &&& cur + pow2(bits) - 1 <= end
}

/// `2^bits` is the size of the largest block that can start at `cur` and
/// end at or before `end`.
pub open spec fn largest_block(cur: int, end: int, bits: nat) -> bool {
    &&& block_fits(cur, end, bits)
    &&& forall|b: nat| bits < b <= 64 ==> !block_fits(cur, end, b)
}

/// The blocks follow one another from `begin` to `end` without a gap, and
/// each is the largest that can start where it starts. There is one such
/// sequence for a range, and none but the empty one for an empty range.
pub open spec fn summarizes(blocks: Seq<AddressBlockRange>, begin: int, end: int) -> bool {
    if begin > end {
        blocks.len() == 0
    } else {
        &&& blocks.len() > 0
        &&& blocks[0].first() == begin
        &&& blocks.last().last() == end
        &&& forall|i: int|
            0 <= i < blocks.len() ==> (#[trigger] blocks[i]).prefix_len <= 64 && largest_block(
                blocks[i].first(),
                end,
                blocks[i].host_bits(),
            )
        &&& forall|i: int|
            0 <= i < blocks.len() - 1 ==> (#[trigger] blocks[i + 1]).first() == blocks[i].last()
                + 1
    }
}

/// The address lies in one of the blocks.
pub open spec fn held_by(blocks: Seq<AddressBlockRange>, a: int) -> bool {
    exists|i: int| 0 <= i < blocks.len() && (#[trigger] blocks[i]).contains(a)
}

/// The blocks hold every address from `begin` to `end`, and no other.
pub open spec fn covers_exactly(blocks: Seq<AddressBlockRange>, begin: int, end: int) -> bool {
    forall|a: int| #[trigger] held_by(blocks, a) <==> begin <= a <= end
}

/// No address lies in two of the blocks: each ends before the next begins.
pub open spec fn blocks_are_disjoint(blocks: Seq<AddressBlockRange>) -> bool {
    forall|i: int, j: int|
        0 <= i < j < blocks.len() ==> (#[trigger] blocks[i]).last() < (#[trigger] blocks[j]).first()
}

proof fn lemma_block_fits_smaller(cur: int, end: int, bits: nat, smaller: nat)
    requires
        block_fits(cur, end, bits),
        smaller <= bits,
    ensures
        block_fits(cur, end, smaller),
{
    let rest = (bits - smaller) as nat;
    let big = pow2(bits) as int;
    let small = pow2(smaller) as int;
    let factor = pow2(rest) as int;
    lemma_pow2_adds(smaller, rest);
    lemma_pow2_pos(smaller);
    lemma_pow2_pos(rest);
    lemma_pow2_pos(bits);
    assert(big == small * factor);
    lemma_fundamental_div_mod(cur, big);
    let q = cur / big;
    assert(cur == big * q);
    lemma_mul_is_associative(small, factor, q);
    assert(cur == (factor * q) * small) by (nonlinear_arith)
        requires
            cur == big * q,
            big == small * factor,
    ;
    lemma_mod_multiples_basic(factor * q, small);
    assert(small <= big) by (nonlinear_arith)
        requires
            big == small * factor,
            factor >= 1,
            small >= 1,
    ;
}

proof fn lemma_largest_from_next(cur: int, end: int, bits: nat)
    requires
        block_fits(cur, end, bits),
        bits < 64,
        !block_fits(cur, end, bits + 1),
    ensures
        largest_block(cur, end, bits),
{
    assert forall|b: nat| bits < b <= 64 implies !block_fits(cur, end, b) by {
        if block_fits(cur, end, b) {
            lemma_block_fits_smaller(cur, end, b, bits + 1);
        }
    }
}

/// The size, less one, of the largest block that can start at `cur` and end
/// at or before `end`, and the number of bits that differ inside it.
fn largest_block_at(cur: u64, end: u64) -> (found: (u32, u64))
    requires
        cur <= end,
    ensures
        found.0 <= 64,
        largest_block(cur as int, end as int, found.0 as nat),
        found.1 == pow2(found.0 as nat) - 1,
{
    let mut bits: u32 = 0;
    let mut size: u64 = 1;
    proof {
        lemma2_to64();
        lemma2_to64_rest();
    }
    loop
        invariant_except_break
            bits <= 63,
            size >= 1,
            size == pow2(bits as nat),
            block_fits(cur as int, end as int, bits as nat),
            cur <= end,
            pow2(63) == 0x8000_0000_0000_0000,
        ensures
            bits <= 63,
            size == pow2(bits as nat),
            block_fits(cur as int, end as int, bits as nat),
            bits < 63 ==> !block_fits(cur as int, end as int, (bits + 1) as nat),
        decreases 63 - bits,
    {
        if bits >= 63 {
            break ;
        }
        proof {
            lemma_pow2_unfold((bits + 1) as nat);
            if bits + 1 < 63 {
                lemma_pow2_strictly_increases((bits + 1) as nat, 63);
            }
        }
        let double: u64 = size * 2;
        if cur % double != 0 || double - 1 > end - cur {
            break ;
        }
        size = double;
        bits += 1;
    }
    if bits == 63 && cur == 0 && end == u64::MAX {
        proof {
            assert(block_fits(0, end as int, 64));
        }
        return (64, u64::MAX);
    }
    proof {
        if bits < 63 {
            lemma_largest_from_next(cur as int, end as int, bits as nat);
        } else {
            assert(!block_fits(cur as int, end as int, 64));
        }
    }
    (bits, size - 1)
}

proof fn lemma_block_starts_rise(blocks: Seq<AddressBlockRange>, begin: int, end: int, i: int)
    requires
        begin <= end,
        summarizes(blocks, begin, end),
        0 <= i < blocks.len(),
    ensures
        begin <= blocks[i].first(),
    decreases i,
{
    if i > 0 {
        lemma_block_starts_rise(blocks, begin, end, i - 1);
        lemma_pow2_pos(blocks[i - 1].host_bits());
        assert(blocks[(i - 1) + 1].first() == blocks[i - 1].last() + 1);
    }
}

proof fn lemma_blocks_rise(blocks: Seq<AddressBlockRange>, begin: int, end: int, i: int, j: int)
    requires
        begin <= end,
        summarizes(blocks, begin, end),
        0 <= i < j < blocks.len(),
    ensures
        blocks[i].last() < blocks[j].first(),
    decreases j - i,
{
    if j > i + 1 {
        lemma_blocks_rise(blocks, begin, end, i, j - 1);
        lemma_pow2_pos(blocks[j - 1].host_bits());
        assert(blocks[(j - 1) + 1].first() == blocks[j - 1].last() + 1);
    } else {
        assert(blocks[i + 1].first() == blocks[i].last() + 1);
    }
}

proof fn lemma_find_block(blocks: Seq<AddressBlockRange>, begin: int, end: int, a: int, k: int) -> (i:
    int)
    requires
        begin <= end,
        summarizes(blocks, begin, end),
        0 <= k < blocks.len(),
        blocks[k].first() <= a <= end,
    ensures
        k <= i < blocks.len(),
        blocks[i].contains(a),
    decreases blocks.len() - k,
{
    if a <= blocks[k].last() {
        k
    } else {
        assert(blocks[k + 1].first() == blocks[k].last() + 1);
        lemma_find_block(blocks, begin, end, a, k + 1)
    }
}

/// The blocks that summarize a range hold every address of the range
/// exactly once, and no address outside it.
pub proof fn lemma_summary_covers_exactly(blocks: Seq<AddressBlockRange>, begin: int, end: int)
    requires
        summarizes(blocks, begin, end),
    ensures
        covers_exactly(blocks, begin, end),
        blocks_are_disjoint(blocks),
{
    if begin <= end {
        assert forall|a: int| #[trigger] held_by(blocks, a) <==> begin <= a <= end by {
            if begin <= a <= end {
                let i = lemma_find_block(blocks, begin, end, a, 0);
                assert(blocks[i].contains(a));
            }
            if held_by(blocks, a) {
                let i = choose|i: int| 0 <= i < blocks.len() && (#[trigger] blocks[i]).contains(a);
                lemma_block_starts_rise(blocks, begin, end, i);
                assert(largest_block(blocks[i].first(), end, blocks[i].host_bits()));
            }
        }
        assert forall|i: int, j: int| 0 <= i < j < blocks.len() implies (#[trigger] blocks[i]).last()
            < (#[trigger] blocks[j]).first() by {
            lemma_blocks_rise(blocks, begin, end, i, j);
        }
    }
}

/// The largest number of bits, up to `bits`, for which a block fits at
/// `cur`; a block of one address always fits.
pub open spec fn largest_fit(cur: int, end: int, bits: nat) -> nat
    decreases bits,
{
    if bits == 0 {
        0
    } else if block_fits(cur, end, bits) {
        bits
    } else {
        largest_fit(cur, end, (bits - 1) as nat)
    }
}

/// The blocks that hold the addresses from `cur` to `end`, each the largest
/// that can start where the one before it ended.
pub open spec fn summary(cur: int, end: int) -> Seq<AddressBlockRange>
    decreases end - cur + 1,
    via summary_terminates
{
    if cur > end {
        Seq::empty()
    } else {
        let bits = largest_fit(cur, end, 64);
        seq![AddressBlockRange { addr: cur as u64, prefix_len: (64 - bits) as u32 }] + summary(
            cur + pow2(bits),
            end,
        )
    }
}

#[via_fn]
proof fn summary_terminates(cur: int, end: int) {
    lemma_pow2_pos(largest_fit(cur, end, 64));
    if cur <= end {
        lemma_largest_fit_ends_in_range(cur, end, 64);
    }
}

proof fn lemma_largest_fit_ends_in_range(cur: int, end: int, upto: nat)
    requires
        cur <= end,
    ensures
        cur + pow2(largest_fit(cur, end, upto)) - 1 <= end,
    decreases upto,
{
    if upto == 0 {
        lemma2_to64();
    } else if !block_fits(cur, end, upto) {
        lemma_largest_fit_ends_in_range(cur, end, (upto - 1) as nat);
    }
}

proof fn lemma_largest_fit(cur: int, end: int, bits: nat, upto: nat)
    requires
        largest_block(cur, end, bits),
        bits <= upto <= 64,
    ensures
        largest_fit(cur, end, upto) == bits,
    decreases upto,
{
    if upto > bits {
        lemma_largest_fit(cur, end, bits, (upto - 1) as nat);
    }
}

/// The sequence of blocks that summarizes a range is the one that `summary`
/// names.
pub proof fn lemma_summary_is_unique(blocks: Seq<AddressBlockRange>, begin: int, end: int)
    requires
        0 <= begin,
        end <= u64::MAX,
        summarizes(blocks, begin, end),
    ensures
        blocks == summary(begin, end),
    decreases blocks.len(),
{
    if begin <= end {
        let head = blocks[0];
        let bits = head.host_bits();
        lemma_largest_fit(begin, end, bits, 64);
        lemma_pow2_pos(bits);
        let rest = blocks.subrange(1, blocks.len() as int);
        let next = begin + pow2(bits);
        if blocks.len() == 1 {
            assert(rest =~= Seq::<AddressBlockRange>::empty());
        } else {
            assert(blocks[0int + 1].first() == blocks[0].last() + 1);
            assert(rest[0] == blocks[1]);
            assert(largest_block(blocks[1].first(), end, blocks[1].host_bits()));
            lemma_pow2_pos(blocks[1].host_bits());
            assert(rest.last() == blocks.last());
            assert forall|i: int| 0 <= i < rest.len() implies (#[trigger] rest[i]).prefix_len <= 64
                && largest_block(rest[i].first(), end, rest[i].host_bits()) by {
                assert(rest[i] == blocks[i + 1]);
            }
            assert forall|i: int| 0 <= i < rest.len() - 1 implies (#[trigger] rest[i + 1]).first()
                == rest[i].last() + 1 by {
                assert(rest[i + 1] == blocks[(i + 1) + 1]);
                assert(rest[i] == blocks[i + 1]);
            }
            lemma_block_starts_rise(blocks, begin, end, blocks.len() - 1);
            assert(largest_block(blocks.last().first(), end, blocks.last().host_bits()));
            lemma_blocks_rise(blocks, begin, end, 0, blocks.len() - 1);
        }
        lemma_summary_is_unique(rest, next, end);
        assert(blocks =~= seq![head] + rest);
        assert(head == AddressBlockRange { addr: begin as u64, prefix_len: (64 - bits) as u32 });
    } else {
        assert(blocks =~= Seq::<AddressBlockRange>::empty());
    }
}

/// The prefixes that together hold the addresses from `begin` to `end`,
/// both included, in rising order: each block is the largest that starts
/// where the one before it ended and stays inside the range. For
/// `begin > end` there is no address to hold and no block.
pub fn summarize_address_range(begin: u64, end: u64) -> (blocks: Vec<AddressBlockRange>)
    ensures
        blocks@ == summary(begin as int, end as int),
        summarizes(blocks@, begin as int, end as int),
        covers_exactly(blocks@, begin as int, end as int),
        blocks_are_disjoint(blocks@),
{
    let mut blocks: Vec<AddressBlockRange> = Vec::new();
    if begin > end {
        proof {
            lemma_summary_covers_exactly(blocks@, begin as int, end as int);
            lemma_summary_is_unique(blocks@, begin as int, end as int);
        }
        return blocks;
    }
    let mut cur: u64 = begin;
    loop
        invariant_except_break
            begin <= cur <= end,
            blocks.len() == 0 ==> cur == begin,
            blocks.len() > 0 ==> blocks[0].first() == begin && cur == blocks@.last().last() + 1,
            forall|i: int|
                0 <= i < blocks.len() ==> (#[trigger] blocks[i]).prefix_len <= 64 && largest_block(
                    blocks[i].first(),
                    end as int,
                    blocks[i].host_bits(),
                ),
            forall|i: int|
                0 <= i < blocks.len() - 1 ==> (#[trigger] blocks[i + 1]).first()
                    == blocks[i].last() + 1,
        ensures
            summarizes(blocks@, begin as int, end as int),
        decreases end - cur,
    {
        let (bits, span) = largest_block_at(cur, end);
        let ghost before = blocks@;
        let block = AddressBlockRange { addr: cur, prefix_len: 64 - bits };
        blocks.push(block);
        proof {
            lemma_pow2_pos(bits as nat);
            assert(block.host_bits() == bits);
            assert forall|i: int| 0 <= i < blocks.len() - 1 implies (#[trigger] blocks[i
                + 1]).first() == blocks[i].last() + 1 by {
                if i + 1 < before.len() {
                    assert(blocks[i + 1] == before[i + 1] && blocks[i] == before[i]);
                } else {
                    assert(blocks[i] == before.last());
                }
            }
        }
        if span == end - cur {
            break ;
        }
        cur = cur + span + 1;
    }
    proof {
        lemma_summary_covers_exactly(blocks@, begin as int, end as int);
        lemma_summary_is_unique(blocks@, begin as int, end as int);
    }
    blocks
}

/// The block starts on a multiple of its size and ends among the
/// addresses.
pub open spec fn well_placed(block: AddressBlockRange) -> bool {
    &&& block.prefix_len <= 64
    &&& block.first() % (pow2(block.host_bits()) as int) == 0
    &&& block.last() <= u64::MAX
}

/// Of two blocks that share an address, each starting on a multiple of
/// its size, the smaller lies inside the larger.
proof fn lemma_blocks_nest(small: AddressBlockRange, large: AddressBlockRange, a: int)
    requires
        small.prefix_len <= 64,
        large.prefix_len <= 64,
        small.first() % (pow2(small.host_bits()) as int) == 0,
        large.first() % (pow2(large.host_bits()) as int) == 0,
        small.host_bits() <= large.host_bits(),
        small.contains(a),
        large.contains(a),
    ensures
        large.first() <= small.first(),
        small.last() <= large.last(),
{
    let hs = small.host_bits();
    let hl = large.host_bits();
    let ss = pow2(hs) as int;
    let sl = pow2(hl) as int;
    let f = pow2((hl - hs) as nat) as int;
    lemma_pow2_adds(hs, (hl - hs) as nat);
    lemma_pow2_pos(hs);
    lemma_pow2_pos(hl);
    lemma_pow2_pos((hl - hs) as nat);
    assert(sl == ss * f);
    lemma_fundamental_div_mod(small.first(), ss);
    lemma_fundamental_div_mod(large.first(), sl);
    let qs = small.first() / ss;
    let ql = large.first() / sl;
    assert(small.first() == ss * qs);
    assert(large.first() == sl * ql);
    // The larger block starts on a multiple of the smaller size, at or
    // before the address; the smaller starts on the last such multiple.
    if qs < ql * f {
        assert(ss * (qs + 1) <= ss * (ql * f)) by (nonlinear_arith)
            requires
                qs + 1 <= ql * f,
                ss >= 1,
        ;
        assert(ss * (ql * f) == sl * ql) by (nonlinear_arith)
            requires
                sl == ss * f,
        ;
        assert(ss * (qs + 1) == ss * qs + ss) by (nonlinear_arith);
        assert(false);
    }
    assert(ss * (ql * f) <= ss * qs) by (nonlinear_arith)
        requires
            ql * f <= qs,
            ss >= 1,
    ;
    assert(ss * (ql * f) == sl * ql) by (nonlinear_arith)
        requires
            sl == ss * f,
    ;
    if qs >= (ql + 1) * f {
        assert(ss * ((ql + 1) * f) <= ss * qs) by (nonlinear_arith)
            requires
                (ql + 1) * f <= qs,
                ss >= 1,
        ;
        assert(ss * ((ql + 1) * f) == sl * ql + sl) by (nonlinear_arith)
            requires
                sl == ss * f,
        ;
        assert(false);
    }
    assert(ss * (qs + 1) <= ss * ((ql + 1) * f)) by (nonlinear_arith)
        requires
            qs + 1 <= (ql + 1) * f,
            ss >= 1,
    ;
    assert(ss * ((ql + 1) * f) == sl * ql + sl) by (nonlinear_arith)
        requires
            sl == ss * f,
    ;
    assert(ss * (qs + 1) == ss * qs + ss) by (nonlinear_arith);
}

/// A block inside the range, starting on a multiple of its size, lies
/// inside the block of the summary that holds its first address.
proof fn lemma_block_inside_summary(
    blocks: Seq<AddressBlockRange>,
    other: AddressBlockRange,
    begin: int,
    end: int,
) -> (m: int)
    requires
        begin <= end,
        summarizes(blocks, begin, end),
        well_placed(other),
        begin <= other.first(),
        other.last() <= end,
    ensures
        0 <= m < blocks.len(),
        blocks[m].first() <= other.first(),
        other.last() <= blocks[m].last(),
{
    lemma_pow2_pos(other.host_bits());
    let m = lemma_find_block(blocks, begin, end, other.first(), 0);
    let held = blocks[m];
    assert(largest_block(held.first(), end, held.host_bits()));
    if other.host_bits() <= held.host_bits() {
        lemma_blocks_nest(other, held, other.first());
    } else {
        lemma_blocks_nest(held, other, other.first());
        assert(block_fits(held.first(), end, other.host_bits()));
    }
    m
}

/// The place among `others` of a block that holds the first address of
/// block `k`.
pub open spec fn holder_of(
    blocks: Seq<AddressBlockRange>,
    others: Seq<AddressBlockRange>,
    k: int,
) -> int {
    choose|j: int| 0 <= j < others.len() && (#[trigger] others[j]).contains(blocks[k].first())
}

/// The blocks that summarize a range are the fewest that can hold it: any
/// blocks that hold the addresses of the range and no other, each starting
/// on a multiple of its size, are at least as many.
pub proof fn lemma_summary_is_smallest(
    blocks: Seq<AddressBlockRange>,
    others: Seq<AddressBlockRange>,
    begin: int,
    end: int,
)
    requires
        summarizes(blocks, begin, end),
        forall|j: int| 0 <= j < others.len() ==> well_placed(#[trigger] others[j]),
        covers_exactly(others, begin, end),
    ensures
        blocks.len() <= others.len(),
{
    if begin <= end {
        let n = blocks.len() as int;
        let m = others.len() as int;
        lemma_summary_covers_exactly(blocks, begin, end);
        let f = |k: int| holder_of(blocks, others, k);
        let places = set_int_range(0, n);
        assert forall|k: int| 0 <= k < n implies 0 <= #[trigger] f(k) < m && others[f(k)].contains(
            blocks[k].first(),
        ) by {
            lemma_pow2_pos(blocks[k].host_bits());
            assert(blocks[k].contains(blocks[k].first()));
            assert(held_by(blocks, blocks[k].first()));
            assert(held_by(others, blocks[k].first()));
        }
        assert forall|k: int, l: int|
            places.contains(k) && places.contains(l) && f(k) == f(l) implies k == l by {
            let other = others[f(k)];
            lemma_pow2_pos(other.host_bits());
            assert(other.contains(other.first()) && other.contains(other.last()));
            assert(held_by(others, other.first()));
            assert(held_by(others, other.last()));
            let inside = lemma_block_inside_summary(blocks, other, begin, end);
            assert(blocks[inside].contains(blocks[k].first()));
            assert(blocks[inside].contains(blocks[l].first()));
            lemma_pow2_pos(blocks[k].host_bits());
            lemma_pow2_pos(blocks[l].host_bits());
            if inside < k {
                assert(blocks[inside].last() < blocks[k].first());
            } else if k < inside {
                assert(blocks[k].last() < blocks[inside].first());
            }
            if inside < l {
                assert(blocks[inside].last() < blocks[l].first());
            } else if l < inside {
                assert(blocks[l].last() < blocks[inside].first());
            }
        }
        assert(injective_on(f, places));
        lemma_int_range(0, n);
        lemma_int_range(0, m);
        lemma_map_size(places, places.map(f), f);
        assert(places.map(f).subset_of(set_int_range(0, m))) by {
            assert forall|j: int| places.map(f).contains(j) implies set_int_range(0, m).contains(
                j,
            ) by {
                let k = choose|k: int| places.contains(k) && f(k) == j;
                assert(0 <= f(k) < m);
            }
        }
        lemma_len_subset(places.map(f), set_int_range(0, m));
    }
}

} // verus!
