//! Numbers as bytes: the two byte orders in which the tables shared with
//! the kernel side hold their fields.

use vstd::prelude::*;

verus! {

/// The `n` low bytes of a number, the lowest first.
pub open spec fn le_bytes(value: nat, n: nat) -> Seq<u8>
    decreases n,
{
    if n == 0 {
        Seq::empty()
    } else {
        seq![(value % 256) as u8] + le_bytes(value / 256, (n - 1) as nat)
    }
}

/// The `n` low bytes of a number, the highest first.
pub open spec fn be_bytes(value: nat, n: nat) -> Seq<u8> {
    le_bytes(value, n).reverse()
}

/// The number that bytes stand for when the lowest comes first.
pub open spec fn from_le(bytes: Seq<u8>) -> nat
    decreases bytes.len(),
{
    if bytes.len() == 0 {
        0
    } else {
        bytes[0] as nat + 256 * from_le(bytes.drop_first())
    }
}

/// 256 to the power of `n`.
pub open spec fn pow256(n: nat) -> nat
    decreases n,
{
    if n == 0 {
        1
    } else {
        256 * pow256((n - 1) as nat)
    }
}

/// The number below `2^bits` that stands for a signed number in two's
/// complement.
pub open spec fn twos_complement(value: int, bits: nat) -> nat {
    if value < 0 {
        (value + vstd::arithmetic::power2::pow2(bits)) as nat
    } else {
        value as nat
    }
}

/// The signed number that a number below `2^bits` stands for in two's
/// complement.
pub open spec fn from_twos_complement(value: nat, bits: nat) -> int {
    if value >= vstd::arithmetic::power2::pow2((bits - 1) as nat) {
        value - vstd::arithmetic::power2::pow2(bits)
    } else {
        value as int
    }
}

/// `n` bytes, all zero.
pub open spec fn zeros(n: nat) -> Seq<u8> {
    Seq::new(n, |i: int| 0u8)
}

pub proof fn lemma_le_bytes_len(value: nat, n: nat)
    ensures
        le_bytes(value, n).len() == n,
    decreases n,
{
    if n > 0 {
        lemma_le_bytes_len(value / 256, (n - 1) as nat);
    }
}

/// Bytes written with the lowest first are read back as the number they
/// were written from, as far as it fits into them.
pub proof fn lemma_le_round_trip(value: nat, n: nat)
    ensures
        from_le(le_bytes(value, n)) == value % pow256(n),
    decreases n,
{
    if n > 0 {
        let rest = le_bytes(value / 256, (n - 1) as nat);
        let all = le_bytes(value, n);
        lemma_le_round_trip(value / 256, (n - 1) as nat);
        assert(all.drop_first() =~= rest);
        let p = pow256((n - 1) as nat);
        lemma_pow256_positive((n - 1) as nat);
        assert(value % (256 * p) == value % 256 + 256 * ((value / 256) % p)) by {
            vstd::arithmetic::div_mod::lemma_breakdown(value as int, 256, p as int);
        }
    }
}

pub proof fn lemma_pow256_positive(n: nat)
    ensures
        pow256(n) > 0,
    decreases n,
{
    if n > 0 {
        lemma_pow256_positive((n - 1) as nat);
    }
}

/// The values of the powers of 256 that the tables use.
pub proof fn lemma_pow256_values()
    ensures
        pow256(1) == 0x100,
        pow256(2) == 0x1_0000,
        pow256(4) == 0x1_0000_0000,
        pow256(8) == 0x1_0000_0000_0000_0000,
{
    reveal_with_fuel(pow256, 9);
}

/// Appends the `n` low bytes of a number, the lowest first.
pub fn push_le(out: &mut Vec<u8>, value: u64, n: usize)
    requires
        n <= 8,
    ensures
        final(out)@ == old(out)@ + le_bytes(value as nat, n as nat),
{
    let ghost start = out@;
    let mut rest: u64 = value;
    let mut i: usize = 0;
    while i < n
        invariant
            i <= n <= 8,
            out@ + le_bytes(rest as nat, (n - i) as nat) == start + le_bytes(
                value as nat,
                n as nat,
            ),
        decreases n - i,
    {
        let ghost before = out@;
        out.push((rest % 256) as u8);
        proof {
            let tail = le_bytes((rest / 256) as nat, (n - i - 1) as nat);
            assert(le_bytes(rest as nat, (n - i) as nat) == seq![(rest % 256) as u8] + tail);
            assert(before + (seq![(rest % 256) as u8] + tail) =~= before.push((rest % 256) as u8)
                + tail);
        }
        rest = rest / 256;
        i += 1;
    }
    assert(out@ + le_bytes(rest as nat, 0) =~= out@);
}

/// Appends the `n` low bytes of a number, the highest first.
pub fn push_be(out: &mut Vec<u8>, value: u64, n: usize)
    requires
        n <= 8,
    ensures
        final(out)@ == old(out)@ + be_bytes(value as nat, n as nat),
{
    let ghost start = out@;
    let mut low: Vec<u8> = Vec::new();
    push_le(&mut low, value, n);
    proof {
        lemma_le_bytes_len(value as nat, n as nat);
        assert(low@ =~= le_bytes(value as nat, n as nat));
    }
    let mut i: usize = n;
    while i > 0
        invariant
            i <= n,
            low@ == le_bytes(value as nat, n as nat),
            low@.len() == n,
            out@ == start + low@.reverse().subrange(0, n - i),
        decreases i,
    {
        i -= 1;
        out.push(low[i]);
        proof {
            let r = low@.reverse();
            assert(r[n - i - 1] == low@[i as int]);
            assert(r.subrange(0, n - i) =~= r.subrange(0, n - i - 1).push(r[n - i - 1]));
        }
    }
    assert(low@.reverse().subrange(0, n as int) =~= low@.reverse());
}

/// Appends `n` bytes that are zero.
pub fn push_zeros(out: &mut Vec<u8>, n: usize)
    ensures
        final(out)@ == old(out)@ + zeros(n as nat),
{
    let ghost start = out@;
    let mut i: usize = 0;
    while i < n
        invariant
            i <= n,
            out@ == start + zeros(i as nat),
        decreases n - i,
    {
        out.push(0u8);
        assert(zeros((i + 1) as nat) =~= zeros(i as nat).push(0u8));
        i += 1;
    }
}

proof fn lemma_from_le_bound(bytes: Seq<u8>)
    ensures
        from_le(bytes) < pow256(bytes.len()),
    decreases bytes.len(),
{
    if bytes.len() > 0 {
        lemma_from_le_bound(bytes.drop_first());
    }
}

/// Reads the number that the `n` bytes from `at` on stand for, the lowest
/// first.
pub fn read_le(bytes: &Vec<u8>, at: usize, n: usize) -> (value: u64)
    requires
        n <= 8,
        at + n <= bytes.len(),
    ensures
        value == from_le(bytes@.subrange(at as int, at + n)),
{
    let mut value: u64 = 0;
    let mut i: usize = n;
    proof {
        lemma_pow256_values();
    }
    while i > 0
        invariant
            i <= n <= 8,
            at + n <= bytes.len(),
            value == from_le(bytes@.subrange(at + i, at + n)),
        decreases i,
    {
        i -= 1;
        proof {
            let longer = bytes@.subrange(at + i, at + n);
            let shorter = bytes@.subrange(at + i + 1, at + n);
            assert(longer.drop_first() =~= shorter);
            assert(longer[0] == bytes@[at + i]);
            lemma_from_le_bound(shorter);
            lemma_pow256_grows(shorter.len(), 7);
            reveal_with_fuel(pow256, 8);
        }
        value = value * 256 + (bytes[at + i] as u64);
    }
    value
}

proof fn lemma_pow256_grows(a: nat, b: nat)
    requires
        a <= b,
    ensures
        pow256(a) <= pow256(b),
    decreases b,
{
    if a < b {
        lemma_pow256_grows(a, (b - 1) as nat);
        lemma_pow256_positive((b - 1) as nat);
    }
}

/// Reads the number that the `n` bytes from `at` on stand for, the highest
/// first.
pub fn read_be(bytes: &Vec<u8>, at: usize, n: usize) -> (value: u64)
    requires
        n <= 8,
        at + n <= bytes.len(),
    ensures
        value == from_le(bytes@.subrange(at as int, at + n).reverse()),
{
    let mut value: u64 = 0;
    let mut i: usize = 0;
    let ghost field = bytes@.subrange(at as int, at + n);
    proof {
        lemma_pow256_values();
        assert(field.reverse().subrange(n as int, n as int) =~= Seq::<u8>::empty());
    }
    while i < n
        invariant
            i <= n <= 8,
            at + n <= bytes.len(),
            field == bytes@.subrange(at as int, at + n),
            value == from_le(field.reverse().subrange(n - i, n as int)),
        decreases n - i,
    {
        proof {
            let r = field.reverse();
            let longer = r.subrange(n - i - 1, n as int);
            let shorter = r.subrange(n - i, n as int);
            assert(longer.drop_first() =~= shorter);
            assert(longer[0] == r[n - i - 1]);
            assert(r[n - i - 1] == field[i as int]);
            assert(field[i as int] == bytes@[at + i]);
            lemma_from_le_bound(shorter);
            lemma_pow256_grows(shorter.len(), 7);
            reveal_with_fuel(pow256, 8);
        }
        value = value * 256 + (bytes[at + i] as u64);
        i += 1;
    }
    assert(field.reverse().subrange(0, n as int) =~= field.reverse());
    value
}

/// Bytes written with the highest first are read back, highest first, as
/// the number they were written from, as far as it fits into them.
pub proof fn lemma_be_round_trip(value: nat, n: nat)
    ensures
        from_le(be_bytes(value, n).reverse()) == value % pow256(n),
{
    lemma_le_round_trip(value, n);
    assert(le_bytes(value, n).reverse().reverse() =~= le_bytes(value, n));
}

} // verus!
