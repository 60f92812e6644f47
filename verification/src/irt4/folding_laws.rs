//! Operations on constants are folded to what the operation on their numbers
//! gives.
use super::fold_constants::{
    constant_of, folded_bits, folded_operation, is_test, literal_of, operation_width, stored,
};
use super::ir::{IRBinOpKind, IRExpr, VariableType};
use super::outcome::cut;
use crate::irt2::folding_laws::{law_signed_bits_are_the_signed_number, signed_number};
use crate::irt2::values::{has_literal, lemma_masked, lemma_wrapped, mask_of, modulus_of};
use vstd::arithmetic::power2::pow2;
use vstd::prelude::*;

verus! {

/// A literal stands for its value, cut to its width.
pub proof fn law_literals_keep_their_number(value: u64, size: usize)
    requires
        has_literal(size),
    ensures
        constant_of(literal_of(value, size)) == Some(
            ((value as int % modulus_of(size)) as u64, size),
        ),
{
    lemma_masked(value, size);
    assert(value as u8 as u64 == value & 0xff && value as u32 as u64 == value & 0xffff_ffff)
        by (bit_vector);
    if size == 2 {
        reveal_with_fuel(constant_of, 2);
        assert((((value as u16) as u32) as u64 & 0xffff_ffff) & 0xffff == value & 0xffff)
            by (bit_vector);
    }
}

/// The exact result of an operation on two numbers.
pub open spec fn exact(kind: IRBinOpKind, a: int, b: int) -> int {
    match kind {
        IRBinOpKind::Add => a + b,
        IRBinOpKind::Sub => a - b,
        _ => a * b,
    }
}

/// Sums, differences and products of constants are folded to their exact result,
/// cut to the width of the operation.
pub proof fn law_operations_fold_modulo_their_width(
    kind: IRBinOpKind,
    lhs: IRExpr,
    rhs: IRExpr,
    literal_left: bool,
    literal_right: bool,
)
    requires
        constant_of(lhs) is Some,
        constant_of(rhs) is Some,
        kind == IRBinOpKind::Add || kind == IRBinOpKind::Sub || kind == IRBinOpKind::Mul,
        ({
            let (_, left_size) = constant_of(lhs)->0;
            let (_, right_size) = constant_of(rhs)->0;
            has_literal(left_size) && has_literal(right_size)
        }),
    ensures
        ({
            let (first, left_size) = constant_of(lhs)->0;
            let (second, right_size) = constant_of(rhs)->0;
            let size = if literal_left && !literal_right {
                right_size
            } else {
                left_size
            };
            constant_of(folded_operation(kind, lhs, rhs, literal_left, literal_right)) == Some(
                ((exact(kind, first as int, second as int) % modulus_of(size)) as u64, size),
            )
        }),
{
    let (first, left_size) = constant_of(lhs)->0;
    let (second, right_size) = constant_of(rhs)->0;
    let size = operation_width(kind, literal_left, literal_right, left_size, right_size);
    let m = modulus_of(size);
    let a = first & mask_of(size);
    let b = second & mask_of(size);
    let made = folded_bits(kind, a, second, size);
    lemma_masked(first, size);
    lemma_masked(second, size);
    lemma_masked(made, size);
    law_literals_keep_their_number(made & mask_of(size), size);
    vstd::arithmetic::div_mod::lemma_mod_twice(made as int, m);
    lemma_wrapped(exact(kind, a as int, b as int), made as int, size);
    vstd::arithmetic::div_mod::lemma_add_mod_noop(first as int, second as int, m);
    vstd::arithmetic::div_mod::lemma_sub_mod_noop(first as int, second as int, m);
    vstd::arithmetic::div_mod::lemma_mul_mod_noop(first as int, second as int, m);
}

/// A test of constants is folded to the outcome that the test of their numbers
/// has, at the width of the test.
pub proof fn law_tests_fold_to_their_outcome(
    kind: IRBinOpKind,
    lhs: IRExpr,
    rhs: IRExpr,
    literal_left: bool,
    literal_right: bool,
)
    requires
        constant_of(lhs) is Some,
        constant_of(rhs) is Some,
        is_test(kind),
        ({
            let (_, left_size) = constant_of(lhs)->0;
            let (_, right_size) = constant_of(rhs)->0;
            has_literal(left_size) && has_literal(right_size)
        }),
    ensures
        ({
            let (first, left_size) = constant_of(lhs)->0;
            let (second, right_size) = constant_of(rhs)->0;
            let size = if literal_left && !literal_right {
                right_size
            } else {
                left_size
            };
            let a = first as int % modulus_of(size);
            let b = second as int % modulus_of(size);
            folded_operation(kind, lhs, rhs, literal_left, literal_right) == IRExpr::Bool(
                match kind {
                    IRBinOpKind::Eq => a == b,
                    IRBinOpKind::Ne => a != b,
                    IRBinOpKind::UnsignedLt => a < b,
                    IRBinOpKind::UnsignedGe => a >= b,
                    IRBinOpKind::SignedGt => signed_number(a, size) > signed_number(b, size),
                    _ => a != 0 || second != 0,
                },
            )
        }),
{
    let (first, left_size) = constant_of(lhs)->0;
    let (second, right_size) = constant_of(rhs)->0;
    let size = operation_width(kind, literal_left, literal_right, left_size, right_size);
    lemma_masked(first, size);
    lemma_masked(second, size);
    law_signed_bits_are_the_signed_number(first & mask_of(size), size);
    law_signed_bits_are_the_signed_number(second & mask_of(size), size);
}

/// A constant that is stored in a slot stands for what the slot holds of it.
pub proof fn law_a_stored_constant_is_what_the_slot_holds(value: IRExpr, ty: VariableType)
    requires
        constant_of(value) is Some,
        ty matches VariableType::Unknown(Some(size)) ==> has_literal(size),
    ensures
        ({
            let (bits, _) = constant_of(value)->0;
            let held = constant_of(stored(value, Some(ty)));
            held is Some && (held->0).0 == cut(ty, bits as int)
        }),
{
    let (bits, _) = constant_of(value)->0;
    if let VariableType::Unknown(Some(size)) = ty {
        law_literals_keep_their_number(bits, size);
        vstd::arithmetic::power2::lemma2_to64();
        assert(pow2(8 * size as nat) == modulus_of(size));
    }
}

} // verus!
