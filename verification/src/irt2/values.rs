//! Resolve byte and register operations to integer values before control-flow
//! recovery.
use super::ir::{DataId, IRBinOpKind, IRExpr, IntegerType, VariableId};
use crate::table::Table;
use vstd::prelude::*;

verus! {

/// Whether an integer of so many bytes fits into 64 bits.
pub open spec fn is_width(size: usize) -> bool {
    1 <= size <= 8
}

/// Whether there are literals of so many bytes.
pub open spec fn has_literal(size: usize) -> bool {
    size == 1 || size == 2 || size == 4 || size == 8
}

/// The bits of an integer of so many bytes.
pub open spec fn mask_of(size: usize) -> u64 {
    if size == 1 {
        0xff
    } else if size == 2 {
        0xffff
    } else if size == 3 {
        0xff_ffff
    } else if size == 4 {
        0xffff_ffff
    } else if size == 5 {
        0xff_ffff_ffff
    } else if size == 6 {
        0xffff_ffff_ffff
    } else if size == 7 {
        0xff_ffff_ffff_ffff
    } else {
        0xffff_ffff_ffff_ffff
    }
}

/// The sign bit of an integer of so many bytes.
pub open spec fn sign_of(size: usize) -> u64 {
    if size == 1 {
        0x80
    } else if size == 2 {
        0x8000
    } else if size == 3 {
        0x80_0000
    } else if size == 4 {
        0x8000_0000
    } else if size == 5 {
        0x80_0000_0000
    } else if size == 6 {
        0x8000_0000_0000
    } else if size == 7 {
        0x80_0000_0000_0000
    } else {
        0x8000_0000_0000_0000
    }
}

pub fn mask(size: usize) -> (res: u64)
    ensures
        res == mask_of(size),
{
    match size {
        1 => 0xff,
        2 => 0xffff,
        3 => 0xff_ffff,
        4 => 0xffff_ffff,
        5 => 0xff_ffff_ffff,
        6 => 0xffff_ffff_ffff,
        7 => 0xff_ffff_ffff_ffff,
        _ => 0xffff_ffff_ffff_ffff,
    }
}

fn sign(size: usize) -> (res: u64)
    ensures
        res == sign_of(size),
{
    match size {
        1 => 0x80,
        2 => 0x8000,
        3 => 0x80_0000,
        4 => 0x8000_0000,
        5 => 0x80_0000_0000,
        6 => 0x8000_0000_0000,
        7 => 0x80_0000_0000_0000,
        _ => 0x8000_0000_0000_0000,
    }
}

pub open spec fn unsigned(size: usize) -> IntegerType {
    IntegerType { size, signed: false }
}

/// The literal of a value in so many bytes, which are one, two, four or eight.
pub open spec fn literal_of(value: u64, size: usize) -> IRExpr {
    if size == 1 {
        IRExpr::CU8(value as u8)
    } else if size == 4 {
        IRExpr::CU32(value as u32)
    } else if size == 2 {
        IRExpr::Convert {
            value: Box::new(IRExpr::CU32((value as u16) as u32)),
            source: unsigned(4),
            target: unsigned(2),
        }
    } else {
        IRExpr::CU64(value)
    }
}

pub fn literal(value: u64, size: usize) -> (res: IRExpr)
    ensures
        res == literal_of(value, size),
{
    match size {
        1 => IRExpr::CU8(value as u8),
        4 => IRExpr::CU32(value as u32),
        2 => IRExpr::Convert {
            value: Box::new(IRExpr::CU32((value as u16) as u32)),
            source: IntegerType { size: 4, signed: false },
            target: IntegerType { size: 2, signed: false },
        },
        _ => IRExpr::CU64(value),
    }
}

/// The bits of a value that is read as `source` and then taken as `target`.
pub open spec fn converted_bits(value: u64, source: IntegerType, target: IntegerType) -> u64 {
    let low = value & mask_of(source.size);
    let extended = if source.signed && low & sign_of(source.size) != 0 {
        low | !mask_of(source.size)
    } else {
        low
    };
    extended & mask_of(target.size)
}

pub fn convert_bits(value: u64, source: IntegerType, target: IntegerType) -> (res: u64)
    ensures
        res == converted_bits(value, source, target),
{
    let low: u64 = value & mask(source.size);
    let extended: u64 = if source.signed && low & sign(source.size) != 0 {
        low | !mask(source.size)
    } else {
        low
    };
    extended & mask(target.size)
}

/// The value of a constant expression, and its width.
pub open spec fn constant_of(expr: IRExpr) -> Option<(u64, usize)>
    decreases expr,
{
    match expr {
        IRExpr::CU8(value) => Some((value as u64, 1)),
        IRExpr::CU32(value) => Some((value as u64, 4)),
        IRExpr::CU64(value) => Some((value, 8)),
        IRExpr::Bool(value) => Some(
            (
                if value {
                    1
                } else {
                    0
                },
                1,
            ),
        ),
        IRExpr::Convert { value, source, target } => match constant_of(*value) {
            Some((bits, _)) => if is_width(source.size) && is_width(target.size) {
                Some((converted_bits(bits, source, target), target.size))
            } else {
                None
            },
            None => None,
        },
        _ => None,
    }
}

pub fn constant(expr: &IRExpr) -> (res: Option<(u64, usize)>)
    ensures
        res == constant_of(*expr),
    decreases expr,
{
    match expr {
        IRExpr::CU8(value) => Some((*value as u64, 1)),
        IRExpr::CU32(value) => Some((*value as u64, 4)),
        IRExpr::CU64(value) => Some((*value, 8)),
        IRExpr::Bool(value) => Some(
            (
                if *value {
                    1
                } else {
                    0
                },
                1,
            ),
        ),
        IRExpr::Convert { value, source, target } => match constant(value) {
            Some((bits, _)) => {
                if 1 <= source.size && source.size <= 8 && 1 <= target.size && target.size <= 8 {
                    Some((convert_bits(bits, *source, *target), target.size))
                } else {
                    None
                }
            },
            None => None,
        },
        _ => None,
    }
}

/// The known widths of variables, arguments and data.
pub struct WidthsModel {
    pub variables: Map<VariableId, usize>,
    pub arguments: Map<usize, usize>,
    pub data: Map<DataId, usize>,
}

pub struct Widths {
    pub variables: Table<VariableId, usize>,
    pub arguments: Table<usize, usize>,
    pub data: Table<DataId, usize>,
}

impl Widths {
    pub open spec fn model(self) -> WidthsModel {
        WidthsModel {
            variables: self.variables@,
            arguments: self.arguments@,
            data: self.data@,
        }
    }
}

pub open spec fn either(first: Option<usize>, second: Option<usize>) -> Option<usize> {
    match first {
        Some(_) => first,
        None => second,
    }
}

fn first_of(first: Option<usize>, second: Option<usize>) -> (res: Option<usize>)
    ensures
        res == either(first, second),
{
    match first {
        Some(_) => first,
        None => second,
    }
}

pub open spec fn is_test(kind: IRBinOpKind) -> bool {
    kind == IRBinOpKind::Eq || kind == IRBinOpKind::SignedGt || kind == IRBinOpKind::UnsignedLt
        || kind == IRBinOpKind::Or
}

/// The width of an expression, as far as it is known.
pub open spec fn width_of(expr: IRExpr, widths: WidthsModel) -> Option<usize>
    decreases expr,
{
    match expr {
        IRExpr::Variable(variable) => if widths.variables.dom().contains(variable) {
            Some(widths.variables[variable])
        } else {
            None
        },
        IRExpr::Data(id) => if widths.data.dom().contains(id) {
            Some(widths.data[id])
        } else {
            None
        },
        IRExpr::Argument(ordinal) => if widths.arguments.dom().contains(ordinal) {
            Some(widths.arguments[ordinal])
        } else {
            None
        },
        IRExpr::CU8(_) | IRExpr::Bool(_) | IRExpr::Not(_) => Some(1),
        IRExpr::CU32(_) => Some(4),
        IRExpr::CU64(_) => Some(8),
        IRExpr::Convert { target, .. } => Some(target.size),
        IRExpr::CastUnknownPtr { .. } => Some(8),
        IRExpr::Deref(address) => match *address {
            IRExpr::CastUnknownPtr { size, .. } => size,
            _ => None,
        },
        IRExpr::BinOp { kind, lhs, rhs } => if is_test(kind) {
            Some(1)
        } else if kind == IRBinOpKind::Shl || kind == IRBinOpKind::Shr {
            width_of(*lhs, widths)
        } else {
            let left = width_of(*lhs, widths);
            let right = width_of(*rhs, widths);
            if constant_of(*rhs) is Some {
                either(left, right)
            } else if constant_of(*lhs) is Some {
                either(right, left)
            } else {
                match (left, right) {
                    (Some(a), Some(b)) => Some(
                        if a >= b {
                            a
                        } else {
                            b
                        },
                    ),
                    _ => None,
                }
            }
        },
    }
}

pub fn width(expr: &IRExpr, widths: &Widths) -> (res: Option<usize>)
    ensures
        res == width_of(*expr, widths.model()),
    decreases expr,
{
    match expr {
        IRExpr::Variable(variable) => match widths.variables.get(*variable) {
            Some(width) => Some(*width),
            None => None,
        },
        IRExpr::Data(id) => match widths.data.get(*id) {
            Some(width) => Some(*width),
            None => None,
        },
        IRExpr::Argument(ordinal) => match widths.arguments.get(*ordinal) {
            Some(width) => Some(*width),
            None => None,
        },
        IRExpr::CU8(_) | IRExpr::Bool(_) | IRExpr::Not(_) => Some(1),
        IRExpr::CU32(_) => Some(4),
        IRExpr::CU64(_) => Some(8),
        IRExpr::Convert { target, .. } => Some(target.size),
        IRExpr::CastUnknownPtr { .. } => Some(8),
        IRExpr::Deref(address) => match &**address {
            IRExpr::CastUnknownPtr { size, .. } => *size,
            _ => None,
        },
        IRExpr::BinOp { kind, lhs, rhs } => match kind {
            IRBinOpKind::Eq
            | IRBinOpKind::SignedGt
            | IRBinOpKind::UnsignedLt
            | IRBinOpKind::Or => Some(1),
            IRBinOpKind::Shl | IRBinOpKind::Shr => width(lhs, widths),
            _ => {
                let left: Option<usize> = width(lhs, widths);
                let right: Option<usize> = width(rhs, widths);
                if constant(rhs).is_some() {
                    first_of(left, right)
                } else if constant(lhs).is_some() {
                    first_of(right, left)
                } else {
                    match (left, right) {
                        (Some(a), Some(b)) => Some(
                            if a >= b {
                                a
                            } else {
                                b
                            },
                        ),
                        _ => None,
                    }
                }
            },
        },
    }
}

/// A value of `from` bytes as one of `to` bytes. Constants are converted where
/// there is a literal, and conversions composed where that keeps their meaning.
pub open spec fn converted(value: IRExpr, from: usize, to: usize, signed: bool) -> IRExpr
    decreases value,
{
    let source = IntegerType { size: from, signed };
    let target = IntegerType { size: to, signed };
    let plain = IRExpr::Convert { value: Box::new(value), source, target };
    if from == to {
        value
    } else if constant_of(value) is Some && is_width(from) && has_literal(to) {
        literal_of(converted_bits((constant_of(value)->0).0, source, target), to)
    } else {
        match value {
            IRExpr::Convert { value: inner, source: old_source, target: old_target } => {
                // A narrowing read of a widened register does not need its high bits.
                if to <= old_source.size && from == old_target.size && from >= old_source.size {
                    converted(*inner, old_source.size, to, false)
                } else if from == old_target.size && from >= old_source.size && to > from && (
                // Widenings compose only when they interpret the intermediate sign
                // bit identically, or the intermediate unsigned widening made it zero.
                signed == old_source.signed || (!old_source.signed && from > old_source.size)) {
                    converted(*inner, old_source.size, to, old_source.signed)
                } else {
                    plain
                }
            },
            _ => plain,
        }
    }
}

pub fn convert(value: IRExpr, from: usize, to: usize, signed: bool) -> (res: IRExpr)
    ensures
        res == converted(value, from, to, signed),
    decreases value,
{
    if from == to {
        return value;
    }
    let source: IntegerType = IntegerType { size: from, signed };
    let target: IntegerType = IntegerType { size: to, signed };
    if let Some((bits, _)) = constant(&value) {
        if 1 <= from && from <= 8 && (to == 1 || to == 2 || to == 4 || to == 8) {
            return literal(convert_bits(bits, source, target), to);
        }
    }
    if let IRExpr::Convert { value: inner, source: old_source, target: old_target } = &value {
        if to <= old_source.size && from == old_target.size && from >= old_source.size {
            return convert((**inner).clone(), old_source.size, to, false);
        }
        if from == old_target.size && from >= old_source.size && to > from && (signed
            == old_source.signed || (!old_source.signed && from > old_source.size)) {
            return convert((**inner).clone(), old_source.size, to, old_source.signed);
        }
    }
    IRExpr::Convert { value: Box::new(value), source, target }
}

/// An integer of so many bytes read as a signed one.
pub open spec fn signed_value(bits: u64, size: usize) -> int {
    if bits & sign_of(size) != 0 {
        bits - mask_of(size) - 1
    } else {
        bits as int
    }
}

pub fn signed_bits(bits: u64, size: usize) -> (res: i128)
    ensures
        res == signed_value(bits, size),
{
    if bits & sign(size) != 0 {
        bits as i128 - mask(size) as i128 - 1
    } else {
        bits as i128
    }
}

/// How far a shift by a constant goes.
pub open spec fn shift_amount(right: u64, size: usize) -> u64 {
    if size == 8 {
        right % 64
    } else {
        right % 32
    }
}

/// The result of an operation on two constants, before it is cut to its width.
pub open spec fn folded_bits(kind: IRBinOpKind, left: u64, right: u64, size: usize) -> u64 {
    let right_bits = right & mask_of(size);
    match kind {
        IRBinOpKind::Add => left.wrapping_add(right_bits),
        IRBinOpKind::Sub => left.wrapping_sub(right_bits),
        IRBinOpKind::Mul => left.wrapping_mul(right_bits),
        IRBinOpKind::Shl => left << shift_amount(right, size),
        IRBinOpKind::Shr => left >> shift_amount(right, size),
        IRBinOpKind::And => left & right_bits,
        _ => left | right_bits,
    }
}

/// The outcome of a test of two constants.
pub open spec fn folded_test(kind: IRBinOpKind, left: u64, right: u64, size: usize) -> bool {
    let right_bits = right & mask_of(size);
    match kind {
        IRBinOpKind::Or => left != 0 || right != 0,
        IRBinOpKind::Eq => left == right_bits,
        IRBinOpKind::UnsignedLt => left < right_bits,
        _ => signed_value(left, size) > signed_value(right_bits, size),
    }
}

pub open spec fn is_zero(expr: IRExpr) -> bool {
    constant_of(expr) matches Some((value, _)) && value == 0
}

/// An operation on values of `size` bytes. Constants are folded where there is a
/// literal, and neutral operands dropped.
pub open spec fn combined(kind: IRBinOpKind, lhs: IRExpr, rhs: IRExpr, size: usize) -> IRExpr {
    let plain = IRExpr::BinOp { kind, lhs: Box::new(lhs), rhs: Box::new(rhs) };
    let both = constant_of(lhs) is Some && constant_of(rhs) is Some;
    let left = (constant_of(lhs)->0).0 & mask_of(size);
    let right = (constant_of(rhs)->0).0;
    if both && is_test(kind) && is_width(size) {
        IRExpr::Bool(folded_test(kind, left, right, size))
    } else if both && !is_test(kind) && has_literal(size) {
        literal_of(folded_bits(kind, left, right, size) & mask_of(size), size)
    } else if kind == IRBinOpKind::Add && is_zero(lhs) {
        rhs
    } else if (kind == IRBinOpKind::Add || kind == IRBinOpKind::Sub || kind == IRBinOpKind::Shl
        || kind == IRBinOpKind::Shr || kind == IRBinOpKind::BitOr) && is_zero(rhs) {
        lhs
    } else if kind == IRBinOpKind::And && lhs == rhs && is_snapshot(lhs) {
        lhs
    } else {
        plain
    }
}

fn zero(expr: &IRExpr) -> (res: bool)
    ensures
        res == is_zero(*expr),
{
    match constant(expr) {
        Some((value, _)) => value == 0,
        None => false,
    }
}

pub fn shift(right: u64, size: usize) -> (res: u64)
    ensures
        res == shift_amount(right, size),
        res < 64,
{
    if size == 8 {
        right % 64
    } else {
        right % 32
    }
}

fn fold_bits(kind: IRBinOpKind, left: u64, right: u64, size: usize) -> (res: u64)
    ensures
        res == folded_bits(kind, left, right, size),
{
    let right_bits: u64 = right & mask(size);
    match kind {
        IRBinOpKind::Add => left.wrapping_add(right_bits),
        IRBinOpKind::Sub => left.wrapping_sub(right_bits),
        IRBinOpKind::Mul => left.wrapping_mul(right_bits),
        IRBinOpKind::Shl => left << shift(right, size),
        IRBinOpKind::Shr => left >> shift(right, size),
        IRBinOpKind::And => left & right_bits,
        _ => left | right_bits,
    }
}

fn fold_test(kind: IRBinOpKind, left: u64, right: u64, size: usize) -> (res: bool)
    ensures
        res == folded_test(kind, left, right, size),
{
    let right_bits: u64 = right & mask(size);
    match kind {
        IRBinOpKind::Or => left != 0 || right != 0,
        IRBinOpKind::Eq => left == right_bits,
        IRBinOpKind::UnsignedLt => left < right_bits,
        _ => signed_bits(left, size) > signed_bits(right_bits, size),
    }
}

pub fn binary(kind: IRBinOpKind, lhs: IRExpr, rhs: IRExpr, size: usize) -> (res: IRExpr)
    ensures
        res == combined(kind, lhs, rhs, size),
{
    let test: bool = matches!(
        kind,
        IRBinOpKind::Eq | IRBinOpKind::SignedGt | IRBinOpKind::UnsignedLt | IRBinOpKind::Or
    );
    if let (Some((left, _)), Some((right, _))) = (constant(&lhs), constant(&rhs)) {
        let left: u64 = left & mask(size);
        if test && 1 <= size && size <= 8 {
            return IRExpr::Bool(fold_test(kind, left, right, size));
        }
        if !test && (size == 1 || size == 2 || size == 4 || size == 8) {
            return literal(fold_bits(kind, left, right, size) & mask(size), size);
        }
    }
    if kind == IRBinOpKind::Add && zero(&lhs) {
        return rhs;
    }
    if matches!(
        kind,
        IRBinOpKind::Add
            | IRBinOpKind::Sub
            | IRBinOpKind::Shl
            | IRBinOpKind::Shr
            | IRBinOpKind::BitOr
    ) && zero(&rhs) {
        return lhs;
    }
    if kind == IRBinOpKind::And && lhs.same(&rhs) && snapshot(&lhs) {
        return lhs;
    }
    IRExpr::BinOp { kind, lhs: Box::new(lhs), rhs: Box::new(rhs) }
}

/// Whether a value can be substituted repeatedly without repeating memory reads.
pub open spec fn is_snapshot(expr: IRExpr) -> bool
    decreases expr,
{
    match expr {
        IRExpr::Variable(_) | IRExpr::Argument(_) => true,
        IRExpr::Convert { value, .. } => is_snapshot(*value),
        _ => constant_of(expr) is Some,
    }
}

pub fn snapshot(expr: &IRExpr) -> (res: bool)
    ensures
        res == is_snapshot(*expr),
    decreases expr,
{
    match expr {
        IRExpr::Variable(_) | IRExpr::Argument(_) => true,
        IRExpr::Convert { value, .. } => snapshot(value),
        _ => constant(expr).is_some(),
    }
}

// ---------------------------------------------------------------------------
// Laws

/// A literal stands for the value that it was made of, cut to its width.
pub proof fn law_literals_keep_their_value(value: u64, size: usize)
    requires
        has_literal(size),
    ensures
        constant_of(literal_of(value, size)) == Some((value & mask_of(size), size)),
{
    if size == 1 {
        assert((value as u8) as u64 == value & 0xff) by (bit_vector);
    } else if size == 2 {
        reveal_with_fuel(constant_of, 2);
        let low = ((value as u16) as u32) as u64;
        assert((((value as u16) as u32) as u64 & 0xffff_ffff) & 0xffff == value & 0xffff)
            by (bit_vector);
    } else if size == 4 {
        assert((value as u32) as u64 == value & 0xffff_ffff) by (bit_vector);
    } else {
        assert(value == value & 0xffff_ffff_ffff_ffff) by (bit_vector);
    }
}

/// Converting a constant gives the constant of the converted bits.
pub proof fn law_constants_convert(value: IRExpr, from: usize, to: usize, signed: bool)
    requires
        constant_of(value) is Some,
        is_width(from),
        has_literal(to),
        from != to,
    ensures
        constant_of(converted(value, from, to, signed)) == Some(
            (
                converted_bits(
                    (constant_of(value)->0).0,
                    IntegerType { size: from, signed },
                    IntegerType { size: to, signed },
                ),
                to,
            ),
        ),
{
    let source = IntegerType { size: from, signed };
    let target = IntegerType { size: to, signed };
    let bits = converted_bits((constant_of(value)->0).0, source, target);
    law_literals_keep_their_value(bits, to);
    let low = (constant_of(value)->0).0 & mask_of(from);
    let extended = if signed && low & sign_of(from) != 0 {
        low | !mask_of(from)
    } else {
        low
    };
    let m = mask_of(to);
    assert((extended & m) & m == extended & m) by (bit_vector);
}

/// Two to the power of the bits of so many bytes, which are one, two, four or eight.
pub open spec fn modulus_of(size: usize) -> int {
    if size == 1 {
        0x100
    } else if size == 2 {
        0x1_0000
    } else if size == 4 {
        0x1_0000_0000
    } else {
        0x1_0000_0000_0000_0000
    }
}

pub proof fn lemma_masked(value: u64, size: usize)
    requires
        has_literal(size),
    ensures
        value & mask_of(size) == value as int % modulus_of(size),
{
    let kept = value & mask_of(size);
    if size == 1 {
        assert(value & 0xff == value % 0x100) by (bit_vector);
        assert(kept == value % 0x100);
    } else if size == 2 {
        assert(value & 0xffff == value % 0x1_0000) by (bit_vector);
        assert(kept == value % 0x1_0000);
    } else if size == 4 {
        assert(value & 0xffff_ffff == value % 0x1_0000_0000) by (bit_vector);
        assert(kept == value % 0x1_0000_0000);
    } else {
        assert(value & 0xffff_ffff_ffff_ffff == value) by (bit_vector);
        assert(kept == value);
    }
}

pub proof fn lemma_wrapped(sum: int, wrapped: int, size: usize)
    requires
        has_literal(size),
        wrapped == sum % 0x1_0000_0000_0000_0000,
    ensures
        wrapped % modulus_of(size) == sum % modulus_of(size),
{
    if size == 1 {
        assert(wrapped % 0x100 == sum % 0x100);
    } else if size == 2 {
        assert(wrapped % 0x1_0000 == sum % 0x1_0000);
    } else if size == 4 {
        assert(wrapped % 0x1_0000_0000 == sum % 0x1_0000_0000);
    }
}

/// Sums, differences and products of constants are folded to their exact result,
/// modulo two to the power of the bits of their width.
pub proof fn law_constants_fold_modulo_their_width(
    kind: IRBinOpKind,
    lhs: IRExpr,
    rhs: IRExpr,
    size: usize,
)
    requires
        constant_of(lhs) is Some,
        constant_of(rhs) is Some,
        has_literal(size),
        kind == IRBinOpKind::Add || kind == IRBinOpKind::Sub || kind == IRBinOpKind::Mul,
    ensures
        ({
            let left = (constant_of(lhs)->0).0;
            let right = (constant_of(rhs)->0).0;
            let exact: int = if kind == IRBinOpKind::Add {
                left + right
            } else if kind == IRBinOpKind::Sub {
                left - right
            } else {
                left * right
            };
            constant_of(combined(kind, lhs, rhs, size)) == Some(
                ((exact % modulus_of(size)) as u64, size),
            )
        }),
{
    let m = modulus_of(size);
    let left = (constant_of(lhs)->0).0;
    let right = (constant_of(rhs)->0).0;
    let low = left & mask_of(size);
    let other = right & mask_of(size);
    let made = folded_bits(kind, low, right, size);
    let kept = made & mask_of(size);
    lemma_masked(left, size);
    lemma_masked(right, size);
    lemma_masked(made, size);
    lemma_masked(kept, size);
    law_literals_keep_their_value(kept, size);
    assert(kept & mask_of(size) == kept) by {
        vstd::arithmetic::div_mod::lemma_mod_twice(made as int, m);
    }
    if kind == IRBinOpKind::Add {
        lemma_wrapped(low + other, made as int, size);
        vstd::arithmetic::div_mod::lemma_add_mod_noop(left as int, right as int, m);
    } else if kind == IRBinOpKind::Sub {
        lemma_wrapped(low - other, made as int, size);
        vstd::arithmetic::div_mod::lemma_sub_mod_noop(left as int, right as int, m);
    } else {
        assert(low * other >= 0) by (nonlinear_arith);
        lemma_wrapped(low * other, made as int, size);
        vstd::arithmetic::div_mod::lemma_mul_mod_noop(left as int, right as int, m);
    }
}

} // verus!
