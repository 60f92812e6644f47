//! Constants are converted and tested as the numbers that they stand for.
use super::ir::{IRBinOpKind, IRExpr, IntegerType};
use super::values::{
    combined, constant_of, converted_bits, has_literal, is_test, law_literals_keep_their_value,
    lemma_masked, lemma_wrapped, mask_of, modulus_of, shift_amount, sign_of, signed_value,
};
use vstd::arithmetic::power2::pow2;
use vstd::prelude::*;

verus! {

/// The signed number that the bits of an unsigned one stand for.
pub open spec fn signed_number(value: int, size: usize) -> int {
    if 2 * value >= modulus_of(size) {
        value - modulus_of(size)
    } else {
        value
    }
}

/// The number that a conversion makes of another: cut to the source, read with
/// its sign where it has one, and cut to the target.
pub open spec fn converted_number(value: int, source: IntegerType, target: IntegerType) -> int {
    let cut = value % modulus_of(source.size);
    (if source.signed {
        signed_number(cut, source.size)
    } else {
        cut
    }) % modulus_of(target.size)
}

proof fn lemma_sign(bits: u64, size: usize)
    requires
        has_literal(size),
        bits < modulus_of(size),
    ensures
        (bits & sign_of(size) != 0) == (2 * bits >= modulus_of(size)),
{
    if size == 1 {
        assert(bits < 0x100 ==> (bits & 0x80 != 0) == (bits >= 0x80)) by (bit_vector);
    } else if size == 2 {
        assert(bits < 0x1_0000 ==> (bits & 0x8000 != 0) == (bits >= 0x8000)) by (bit_vector);
    } else if size == 4 {
        assert(bits < 0x1_0000_0000 ==> (bits & 0x8000_0000 != 0) == (bits >= 0x8000_0000))
            by (bit_vector);
    } else {
        assert((bits & 0x8000_0000_0000_0000 != 0) == (bits >= 0x8000_0000_0000_0000))
            by (bit_vector);
    }
}

/// The signed value of bits is the signed number that they stand for.
pub proof fn law_signed_bits_are_the_signed_number(bits: u64, size: usize)
    requires
        has_literal(size),
        bits < modulus_of(size),
    ensures
        signed_value(bits, size) == signed_number(bits as int, size),
{
    lemma_sign(bits, size);
}

proof fn lemma_extended(low: u64, size: usize)
    requires
        has_literal(size),
        low < modulus_of(size),
    ensures
        low | !mask_of(size) == low + 0x1_0000_0000_0000_0000 - modulus_of(size),
{
    if size == 1 {
        assert(low < 0x100 ==> low | !0xffu64 == low + 0xffff_ffff_ffff_ff00) by (bit_vector);
    } else if size == 2 {
        assert(low < 0x1_0000 ==> low | !0xffffu64 == low + 0xffff_ffff_ffff_0000)
            by (bit_vector);
    } else if size == 4 {
        assert(low < 0x1_0000_0000 ==> low | !0xffff_ffffu64 == low + 0xffff_ffff_0000_0000)
            by (bit_vector);
    } else {
        assert(low | !0xffff_ffff_ffff_ffffu64 == low) by (bit_vector);
    }
}

/// Converting bits gives the bits of the converted number.
pub proof fn law_converted_bits_are_the_converted_number(
    value: u64,
    source: IntegerType,
    target: IntegerType,
)
    requires
        has_literal(source.size),
        has_literal(target.size),
    ensures
        converted_bits(value, source, target) == converted_number(value as int, source, target),
{
    let low = value & mask_of(source.size);
    lemma_masked(value, source.size);
    lemma_sign(low, source.size);
    lemma_extended(low, source.size);
    let extended = if source.signed && low & sign_of(source.size) != 0 {
        low | !mask_of(source.size)
    } else {
        low
    };
    lemma_masked(extended, target.size);
    if source.signed && low & sign_of(source.size) != 0 {
        let exact = signed_number(low as int, source.size);
        assert(extended == exact + 0x1_0000_0000_0000_0000);
        lemma_wrapped(exact, exact % 0x1_0000_0000_0000_0000, target.size);
        lemma_wrapped(extended as int, extended as int % 0x1_0000_0000_0000_0000, target.size);
        assert(extended as int % 0x1_0000_0000_0000_0000 == exact % 0x1_0000_0000_0000_0000);
    }
}

/// A test of two constants has the outcome that the test of their numbers has, at
/// the width of the test.
pub proof fn law_constants_are_tested_as_numbers(
    kind: IRBinOpKind,
    lhs: IRExpr,
    rhs: IRExpr,
    size: usize,
)
    requires
        constant_of(lhs) is Some,
        constant_of(rhs) is Some,
        has_literal(size),
        is_test(kind),
    ensures
        ({
            let (first, _) = constant_of(lhs)->0;
            let (second, _) = constant_of(rhs)->0;
            let a = first as int % modulus_of(size);
            let b = second as int % modulus_of(size);
            combined(kind, lhs, rhs, size) == IRExpr::Bool(
                match kind {
                    IRBinOpKind::Eq => a == b,
                    IRBinOpKind::UnsignedLt => a < b,
                    IRBinOpKind::SignedGt => signed_number(a, size) > signed_number(b, size),
                    _ => a != 0 || second != 0,
                },
            )
        }),
{
    let (first, _) = constant_of(lhs)->0;
    let (second, _) = constant_of(rhs)->0;
    lemma_masked(first, size);
    lemma_masked(second, size);
    law_signed_bits_are_the_signed_number(first & mask_of(size), size);
    law_signed_bits_are_the_signed_number(second & mask_of(size), size);
}

/// A constant that is shifted right is divided by the power of two that the lowest
/// bits of the other one count.
pub proof fn law_constants_shifted_right_are_divided(lhs: IRExpr, rhs: IRExpr, size: usize)
    requires
        constant_of(lhs) is Some,
        constant_of(rhs) is Some,
        has_literal(size),
    ensures
        ({
            let (first, _) = constant_of(lhs)->0;
            let (second, _) = constant_of(rhs)->0;
            let count = second as int % (if size == 8 {
                64
            } else {
                32
            });
            constant_of(combined(IRBinOpKind::Shr, lhs, rhs, size)) == Some(
                (
                    ((first as int % modulus_of(size)) / (pow2(count as nat) as int)) as u64,
                    size,
                ),
            )
        }),
{
    let (first, _) = constant_of(lhs)->0;
    let (second, _) = constant_of(rhs)->0;
    let left = first & mask_of(size);
    let count = shift_amount(second, size);
    lemma_masked(first, size);
    let made = left >> count;
    vstd::bits::lemma_u64_shr_is_div(left, count);
    vstd::arithmetic::power2::lemma_pow2_pos(count as nat);
    let power = pow2(count as nat) as int;
    assert(made == left as int / power);
    vstd::arithmetic::div_mod::lemma_div_is_ordered_by_denominator(left as int, 1, power);
    assert(made <= left) by {
        vstd::arithmetic::div_mod::lemma_div_basics(left as int);
    }
    lemma_masked(made, size);
    vstd::arithmetic::div_mod::lemma_small_mod(made as nat, modulus_of(size) as nat);
    law_literals_keep_their_value(made & mask_of(size), size);
}

} // verus!
