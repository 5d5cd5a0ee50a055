//! Sequences of truth values read as binary numbers, least significant bit
//! first, and the two's-complement encoding of integers.

use crate::boolalg::{maj3, sum3};
use vstd::arithmetic::div_mod::{
    lemma_fundamental_div_mod, lemma_fundamental_div_mod_converse, lemma_small_mod,
};
use vstd::arithmetic::power2::{lemma_pow2_pos, lemma_pow2_unfold, pow2};
use vstd::prelude::*;

verus! {

/// Bit `i` of the two's-complement representation of `v`: the parity of `v`
/// shifted right by `i` places, rounding towards minus infinity.
pub open spec fn int_bit(v: int, i: nat) -> bool {
    (v / (pow2(i) as int)) % 2 == 1
}

/// The `width` low bits of the two's-complement representation of `v`.
pub open spec fn int_bits(v: int, width: nat) -> Seq<bool> {
    Seq::new(width, |i: int| int_bit(v, i as nat))
}

/// The number that a bit sequence spells when read as an unsigned binary
/// numeral: the sum of `2^i` over the positions `i` that hold `true`.
pub open spec fn unsigned(bits: Seq<bool>) -> nat
    decreases bits.len(),
{
    if bits.len() == 0 {
        0
    } else {
        unsigned(bits.drop_last()) + if bits.last() {
            pow2((bits.len() - 1) as nat)
        } else {
            0
        }
    }
}

/// The number that a bit sequence spells when read in two's complement: the
/// top bit counts negatively.
pub open spec fn signed(bits: Seq<bool>) -> int {
    if bits.len() > 0 && bits.last() {
        unsigned(bits) - pow2(bits.len())
    } else {
        unsigned(bits) as int
    }
}

/// What a bit at position `i` adds to a number.
pub open spec fn weight(bit: bool, i: nat) -> nat {
    if bit {
        pow2(i)
    } else {
        0
    }
}

/// Appending a bit adds its weight.
pub proof fn lemma_unsigned_push(bits: Seq<bool>, bit: bool)
    ensures
        unsigned(bits.push(bit)) == unsigned(bits) + weight(bit, bits.len()),
{
    assert(bits.push(bit).drop_last() =~= bits);
}

/// A full adder keeps the total weight of its three inputs: the sum bit stays
/// in place and the carry moves one position up.
pub proof fn lemma_full_adder(x: bool, y: bool, c: bool, i: nat)
    ensures
        weight(x, i) + weight(y, i) + weight(c, i) == weight(sum3(x, y, c), i) + weight(
            maj3(x, y, c),
            i + 1,
        ),
{
    lemma_pow2_unfold(i + 1);
}

/// An unsigned numeral of `n` bits is below `2^n`.
pub proof fn lemma_unsigned_bound(bits: Seq<bool>)
    ensures
        unsigned(bits) < pow2(bits.len()),
    decreases bits.len(),
{
    if bits.len() == 0 {
        lemma_pow2_pos(0);
    } else {
        lemma_unsigned_bound(bits.drop_last());
        lemma_pow2_unfold(bits.len());
    }
}

/// Two bit sequences of one length that spell the same number are equal.
pub proof fn lemma_unsigned_injective(a: Seq<bool>, b: Seq<bool>)
    requires
        a.len() == b.len(),
        unsigned(a) == unsigned(b),
    ensures
        a == b,
    decreases a.len(),
{
    if a.len() > 0 {
        lemma_unsigned_bound(a.drop_last());
        lemma_unsigned_bound(b.drop_last());
        lemma_unsigned_injective(a.drop_last(), b.drop_last());
        assert(a =~= a.drop_last().push(a.last()));
    }
}

/// Dividing by `2 * y` is dividing by `y` and then halving, and the remainder
/// splits into the remainder modulo `y` and the parity of the quotient by
/// `y`; both for integers of either sign.
proof fn lemma_mod_double(v: int, y: int)
    requires
        0 < y,
    ensures
        v % (2 * y) == y * ((v / y) % 2) + v % y,
        v / (2 * y) == (v / y) / 2,
{
    let q = v / y;
    let r = v % y;
    lemma_fundamental_div_mod(v, y);
    let h = q / 2;
    let t = q % 2;
    assert(v == h * (2 * y) + (y * t + r)) by (nonlinear_arith)
        requires
            v == y * q + r,
            q == 2 * h + t,
    ;
    assert(0 <= y * t + r < 2 * y) by (nonlinear_arith)
        requires
            0 <= r < y,
            0 <= t < 2,
    ;
    lemma_fundamental_div_mod_converse(v, 2 * y, h, y * t + r);
}

/// Reading the `width`-bit encoding of `v` as an unsigned numeral gives `v`
/// modulo `2^width`.
pub proof fn lemma_unsigned_int_bits(v: int, width: nat)
    ensures
        unsigned(int_bits(v, width)) == v % (pow2(width) as int),
    decreases width,
{
    let bits = int_bits(v, width);
    if width == 0 {
        assert(pow2(0) == 1) by {
            vstd::arithmetic::power2::lemma2_to64();
        }
    } else {
        let low = (width - 1) as nat;
        assert(bits.drop_last() =~= int_bits(v, low));
        lemma_unsigned_int_bits(v, low);
        lemma_pow2_pos(low);
        lemma_pow2_unfold(width);
        lemma_mod_double(v, pow2(low) as int);
    }
}

/// Encoding the number that a bit sequence spells gives the sequence back.
pub proof fn lemma_int_bits_unsigned(bits: Seq<bool>)
    ensures
        int_bits(unsigned(bits) as int, bits.len()) == bits,
{
    lemma_unsigned_int_bits(unsigned(bits) as int, bits.len());
    lemma_unsigned_bound(bits);
    lemma_small_mod(unsigned(bits), pow2(bits.len()));
    lemma_unsigned_injective(int_bits(unsigned(bits) as int, bits.len()), bits);
}

/// The `width`-bit encoding sees an integer only modulo `2^width`.
pub proof fn lemma_int_bits_congruent(x: int, y: int, width: nat)
    requires
        x % (pow2(width) as int) == y % (pow2(width) as int),
    ensures
        int_bits(x, width) == int_bits(y, width),
{
    lemma_unsigned_int_bits(x, width);
    lemma_unsigned_int_bits(y, width);
    lemma_unsigned_injective(int_bits(x, width), int_bits(y, width));
}

/// A bit sequence is the encoding of the number it spells in two's
/// complement, which is at least `-2^(n-1)` and below `2^(n-1)`, `n` the
/// length.
pub proof fn lemma_int_bits_signed(bits: Seq<bool>)
    ensures
        int_bits(signed(bits), bits.len()) == bits,
        bits.len() > 0 ==> -pow2((bits.len() - 1) as nat) <= signed(bits) < pow2(
            (bits.len() - 1) as nat,
        ),
{
    let n = bits.len();
    if n > 0 && bits.last() {
        lemma_int_bits_wrapped(bits, signed(bits), -1);
    } else {
        lemma_int_bits_wrapped(bits, signed(bits), 0);
    }
    if n > 0 {
        lemma_unsigned_bound(bits.drop_last());
        lemma_pow2_unfold(n);
    }
}

/// A bit sequence whose number differs from `x` by a multiple of `2^n`,
/// `n` its length, is the encoding of `x`.
pub proof fn lemma_int_bits_wrapped(bits: Seq<bool>, x: int, k: int)
    requires
        unsigned(bits) + k * pow2(bits.len()) == x,
    ensures
        bits == int_bits(x, bits.len()),
{
    let n = bits.len();
    lemma_unsigned_bound(bits);
    lemma_fundamental_div_mod_converse(x, pow2(n) as int, k, unsigned(bits) as int);
    lemma_unsigned_int_bits(x, n);
    lemma_unsigned_injective(bits, int_bits(x, n));
}

/// Beyond the magnitude of `v`, every bit of its two's-complement
/// representation is the sign.
pub proof fn lemma_int_bit_sign(v: int, i: nat)
    requires
        -pow2(i) <= v < pow2(i),
    ensures
        int_bit(v, i) == (v < 0),
{
    let d = pow2(i) as int;
    if v >= 0 {
        lemma_fundamental_div_mod_converse(v, d, 0, v);
    } else {
        lemma_fundamental_div_mod_converse(v, d, -1, v + d);
    }
}

/// An arithmetic right shift of a 64-bit integer divides by a power of two,
/// rounding towards minus infinity.
proof fn lemma_shift_divides(value: i64, i: usize)
    requires
        i < 64,
    ensures
        (value >> i) as int == (value as int) / (pow2(i as nat) as int),
    decreases i,
{
    if i == 0 {
        assert(value >> 0usize == value) by (bit_vector);
        assert(pow2(0) == 1) by {
            vstd::arithmetic::power2::lemma2_to64();
        }
    } else {
        let j = (i - 1) as usize;
        lemma_shift_divides(value, j);
        let half = value >> j;
        assert(value >> i == (value >> j) >> 1usize) by (bit_vector)
            requires
                0 < i < 64,
                j == i - 1,
        ;
        assert((half >> 1usize) as int == (half as int) / 2) by (bit_vector);
        lemma_pow2_pos(j as nat);
        lemma_pow2_unfold(i as nat);
        lemma_mod_double(value as int, pow2(j as nat) as int);
    }
}

/// Bit `i` of the two's-complement representation of a 64-bit integer,
/// sign-extended beyond the top bit.
pub fn bit_of(value: i64, i: usize) -> (b: bool)
    ensures
        b == int_bit(value as int, i as nat),
{
    if i < 64 {
        let shifted = value >> i;
        proof {
            lemma_shift_divides(value, i);
            assert((shifted & 1 != 0) == ((shifted as int) % 2 == 1)) by (bit_vector);
        }
        shifted & 1 != 0
    } else {
        proof {
            vstd::arithmetic::power2::lemma2_to64_rest();
            if i > 64 {
                vstd::arithmetic::power2::lemma_pow2_strictly_increases(64, i as nat);
            }
            lemma_int_bit_sign(value as int, i as nat);
        }
        value < 0
    }
}

} // verus!
