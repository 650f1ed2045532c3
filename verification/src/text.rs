//! Numbers and lists as text, for the lines in which samples are shown.

use vstd::prelude::*;
use vstd::arithmetic::power2::{
    lemma2_to64, lemma_pow2_pos, lemma_pow2_strictly_increases, lemma_pow2_unfold, pow2,
};
use vstd::string::*;

verus! {

/// The character for a digit below sixteen.
pub open spec fn digit_char(d: nat) -> char {
    if d == 0 {
        '0'
    } else if d == 1 {
        '1'
    } else if d == 2 {
        '2'
    } else if d == 3 {
        '3'
    } else if d == 4 {
        '4'
    } else if d == 5 {
        '5'
    } else if d == 6 {
        '6'
    } else if d == 7 {
        '7'
    } else if d == 8 {
        '8'
    } else if d == 9 {
        '9'
    } else if d == 10 {
        'a'
    } else if d == 11 {
        'b'
    } else if d == 12 {
        'c'
    } else if d == 13 {
        'd'
    } else if d == 14 {
        'e'
    } else {
        'f'
    }
}

/// The digits of a number to a base from two to sixteen, the highest
/// first, without leading zeros.
pub open spec fn digits(value: nat, base: nat) -> Seq<char>
    decreases value,
    via digits_terminates
{
    if base < 2 || value < base {
        seq![digit_char(value)]
    } else {
        digits(value / base, base).push(digit_char(value % base))
    }
}

#[via_fn]
proof fn digits_terminates(value: nat, base: nat) {
    if base >= 2 && value >= base {
        assert(value / base < value) by (nonlinear_arith)
            requires
                base >= 2,
                value >= base,
        ;
    }
}

/// A number in decimal.
pub open spec fn decimal(value: nat) -> Seq<char> {
    digits(value, 10)
}

/// A signed number in decimal, with a minus sign where it is negative.
pub open spec fn signed_decimal(value: int) -> Seq<char> {
    if value < 0 {
        seq!['-'] + decimal((-value) as nat)
    } else {
        decimal(value as nat)
    }
}

/// The text, with `fill` in front of it as often as it takes to make it
/// `width` characters long.
pub open spec fn padded_left(text: Seq<char>, width: nat, fill: char) -> Seq<char> {
    Seq::new(
        (if text.len() < width {
            width - text.len()
        } else {
            0
        }) as nat,
        |i: int| fill,
    ) + text
}

/// An address in hexadecimal: `0x` and sixteen digits.
pub open spec fn address_text(value: nat) -> Seq<char> {
    seq!['0', 'x'] + padded_left(digits(value, 16), 16, '0')
}

/// The texts with `separator` between each two of them.
pub open spec fn joined(texts: Seq<Seq<char>>, separator: Seq<char>) -> Seq<char>
    decreases texts.len(),
{
    if texts.len() == 0 {
        Seq::empty()
    } else if texts.len() == 1 {
        texts[0]
    } else {
        joined(texts.drop_last(), separator) + separator + texts.last()
    }
}

/// The text of a digit below sixteen.
fn digit_text(d: u8) -> (text: &'static str)
    requires
        d < 16,
    ensures
        text@ == seq![digit_char(d as nat)],
{
    proof {
        reveal_strlit("0");
        reveal_strlit("1");
        reveal_strlit("2");
        reveal_strlit("3");
        reveal_strlit("4");
        reveal_strlit("5");
        reveal_strlit("6");
        reveal_strlit("7");
        reveal_strlit("8");
        reveal_strlit("9");
        reveal_strlit("a");
        reveal_strlit("b");
        reveal_strlit("c");
        reveal_strlit("d");
        reveal_strlit("e");
        reveal_strlit("f");
    }
    let text = if d == 0 {
        "0"
    } else if d == 1 {
        "1"
    } else if d == 2 {
        "2"
    } else if d == 3 {
        "3"
    } else if d == 4 {
        "4"
    } else if d == 5 {
        "5"
    } else if d == 6 {
        "6"
    } else if d == 7 {
        "7"
    } else if d == 8 {
        "8"
    } else if d == 9 {
        "9"
    } else if d == 10 {
        "a"
    } else if d == 11 {
        "b"
    } else if d == 12 {
        "c"
    } else if d == 13 {
        "d"
    } else if d == 14 {
        "e"
    } else {
        "f"
    };
    assert(text@ =~= seq![digit_char(d as nat)]);
    text
}

/// Appends the digits of a number to a base from two to sixteen, with
/// `fill` in front of them as often as it takes to make them `width`
/// characters long; `fill` is a blank or a zero.
fn append_digits(out: &mut String, value: u64, base: u64, width: usize, zero_fill: bool)
    requires
        2 <= base <= 16,
    ensures
        final(out)@ == old(out)@ + padded_left(
            digits(value as nat, base as nat),
            width as nat,
            if zero_fill {
                '0'
            } else {
                ' '
            },
        ),
{
    let ghost start = out@;
    let ghost fill = if zero_fill {
        '0'
    } else {
        ' '
    };
    // The digits, the lowest first.
    let mut low: Vec<u8> = Vec::new();
    let mut rest: u64 = value;
    proof {
        lemma2_to64();
        assert((rest as int) * pow2(0) == value);
    }
    while rest >= base
        invariant
            2 <= base <= 16,
            low.len() <= 64,
            (rest as int) * pow2(low.len() as nat) <= value,
            forall|k: int| 0 <= k < low.len() ==> low[k] < 16,
            digits(value as nat, base as nat) == digits(rest as nat, base as nat) + Seq::new(
                low.len() as nat,
                |k: int| digit_char(low[low.len() - 1 - k] as nat),
            ),
        decreases rest,
    {
        let ghost tail = Seq::new(
            low.len() as nat,
            |k: int| digit_char(low[low.len() - 1 - k] as nat),
        );
        let ghost low_before = low@;
        proof {
            let len = low.len() as nat;
            let p = pow2(len) as int;
            lemma_pow2_pos(len);
            lemma_pow2_unfold(len + 1);
            lemma2_to64();
            assert(2 * p <= (rest as int) * p) by (nonlinear_arith)
                requires
                    rest >= 2,
                    p >= 1,
            ;
            if len + 1 > 63 {
                if len + 1 > 64 {
                    lemma_pow2_strictly_increases(64, len + 1);
                }
            }
            let next = (rest / base) as int;
            assert(next * (2 * p) <= (rest as int) * p) by (nonlinear_arith)
                requires
                    next == rest / base,
                    base >= 2,
                    rest >= 0,
                    p >= 1,
            ;
        }
        let d = (rest % base) as u8;
        low.push(d);
        proof {
            let longer = Seq::new(
                low.len() as nat,
                |k: int| digit_char(low[low.len() - 1 - k] as nat),
            );
            assert(longer =~= seq![digit_char(d as nat)] + tail) by {
                assert forall|k: int| 0 <= k < longer.len() implies longer[k] == (seq![
                    digit_char(d as nat),
                ] + tail)[k] by {
                    if k > 0 {
                        assert(low[low.len() - 1 - k] == low_before[low_before.len() - 1 - (k
                            - 1)]);
                    }
                }
            }
            assert(digits(rest as nat, base as nat) == digits(
                (rest / base) as nat,
                base as nat,
            ).push(digit_char((rest % base) as nat)));
            assert(digits((rest / base) as nat, base as nat).push(digit_char(d as nat)) + tail
                =~= digits((rest / base) as nat, base as nat) + longer);
        }
        rest = rest / base;
    }
    let ghost tail = Seq::new(
        low.len() as nat,
        |k: int| digit_char(low[low.len() - 1 - k] as nat),
    );
    let ghost all = digits(value as nat, base as nat);
    assert(all == seq![digit_char(rest as nat)] + tail);
    let count: usize = low.len();
    // The fill.
    let mut filled: usize = count + 1;
    assert(filled == all.len());
    let ghost padding = (if all.len() < width {
        width - all.len()
    } else {
        0
    }) as nat;
    let ghost pad_start = filled;
    while filled < width
        invariant
            pad_start <= filled,
            filled <= width || filled == pad_start,
            out@ == start + Seq::new((filled - pad_start) as nat, |k: int| fill),
            fill == (if zero_fill {
                '0'
            } else {
                ' '
            }),
        decreases width - filled,
    {
        proof {
            reveal_strlit("0");
            reveal_strlit(" ");
        }
        let ghost before = out@;
        if zero_fill {
            out.append("0");
        } else {
            out.append(" ");
        }
        assert(out@ =~= start + Seq::new((filled + 1 - pad_start) as nat, |k: int| fill));
        filled += 1;
    }
    assert(out@ =~= start + Seq::new(padding, |k: int| fill));
    // The digits, the highest first.
    let ghost padded_start = out@;
    out.append(digit_text(rest as u8));
    let mut i: usize = count;
    while i > 0
        invariant
            i <= count,
            count == low.len(),
            forall|k: int| 0 <= k < low.len() ==> low[k] < 16,
            tail == Seq::new(low.len() as nat, |k: int| digit_char(low[low.len() - 1 - k] as nat)),
            out@ == padded_start + seq![digit_char(rest as nat)] + tail.subrange(0, count - i),
        decreases i,
    {
        i -= 1;
        out.append(digit_text(low[i]));
        assert(tail.subrange(0, count - i) =~= tail.subrange(0, count - i - 1).push(
            digit_char(low[i as int] as nat),
        ));
        assert(padded_start + seq![digit_char(rest as nat)] + tail.subrange(0, count - i - 1)
            + seq![digit_char(low[i as int] as nat)] =~= padded_start + seq![
            digit_char(rest as nat),
        ] + tail.subrange(0, count - i));
    }
    assert(tail.subrange(0, count as int) =~= tail);
    assert(out@ =~= padded_start + all);
    assert(out@ =~= start + padded_left(all, width as nat, fill));
}

/// Appends a number in decimal.
pub fn append_decimal(out: &mut String, value: u64)
    ensures
        final(out)@ == old(out)@ + decimal(value as nat),
{
    let ghost start = out@;
    append_digits(out, value, 10, 0, false);
    assert(padded_left(decimal(value as nat), 0, ' ') =~= decimal(value as nat));
}

/// Appends a signed number in decimal.
pub fn append_signed_decimal(out: &mut String, value: i32)
    ensures
        final(out)@ == old(out)@ + signed_decimal(value as int),
{
    let ghost start = out@;
    if value < 0 {
        proof {
            reveal_strlit("-");
        }
        out.append("-");
        let magnitude: u64 = (-(value as i64)) as u64;
        append_decimal(out, magnitude);
        assert(out@ =~= start + signed_decimal(value as int));
    } else {
        append_decimal(out, value as u64);
    }
}

/// Appends a number in decimal, with blanks in front of it as often as it
/// takes to make it `width` characters long.
pub fn append_padded_decimal(out: &mut String, value: u64, width: usize)
    ensures
        final(out)@ == old(out)@ + padded_left(decimal(value as nat), width as nat, ' '),
{
    append_digits(out, value, 10, width, false);
}

/// Appends an address in hexadecimal: `0x` and sixteen digits.
pub fn append_address(out: &mut String, value: u64)
    ensures
        final(out)@ == old(out)@ + address_text(value as nat),
{
    let ghost start = out@;
    proof {
        reveal_strlit("0x");
    }
    out.append("0x");
    append_digits(out, value, 16, 16, true);
    assert(out@ =~= start + address_text(value as nat));
}

} // verus!
