//! A total order on expressions, by which like terms of a sum are kept together.
use super::ir::{DataId, IRBinOpKind, IRExpr, IntegerType, VariableId};
use vstd::prelude::*;

verus! {

/// Minus one, zero or one as the first number is less than, equal to or greater
/// than the second.
pub open spec fn number_order(a: int, b: int) -> int {
    if a < b {
        -1
    } else if a == b {
        0
    } else {
        1
    }
}

/// The first order, or the second where the first finds no difference.
pub open spec fn then_by(first: int, second: int) -> int {
    if first != 0 {
        first
    } else {
        second
    }
}

pub open spec fn bool_order(a: bool, b: bool) -> int {
    if a == b {
        0
    } else if b {
        -1
    } else {
        1
    }
}

pub open spec fn size_order(a: Option<usize>, b: Option<usize>) -> int {
    match (a, b) {
        (None, None) => 0,
        (None, Some(_)) => -1,
        (Some(_), None) => 1,
        (Some(x), Some(y)) => number_order(x as int, y as int),
    }
}

pub open spec fn variable_order(a: VariableId, b: VariableId) -> int {
    then_by(
        number_order(a.owner.id as int, b.owner.id as int),
        number_order(a.id as int, b.id as int),
    )
}

pub open spec fn data_order(a: DataId, b: DataId) -> int {
    number_order(a.id as int, b.id as int)
}

pub open spec fn integer_order(a: IntegerType, b: IntegerType) -> int {
    then_by(number_order(a.size as int, b.size as int), bool_order(a.signed, b.signed))
}

pub open spec fn kind_order(a: IRBinOpKind, b: IRBinOpKind) -> int {
    number_order(kind_rank(a), kind_rank(b))
}

pub fn order_of_numbers(a: u128, b: u128) -> (res: i8)
    ensures
        res == number_order(a as int, b as int),
{
    if a < b {
        -1
    } else if a == b {
        0
    } else {
        1
    }
}

fn order_of_bools(a: bool, b: bool) -> (res: i8)
    ensures
        res == bool_order(a, b),
{
    if a == b {
        0
    } else if b {
        -1
    } else {
        1
    }
}

pub fn order_of_sizes(a: Option<usize>, b: Option<usize>) -> (res: i8)
    ensures
        res == size_order(a, b),
{
    match (a, b) {
        (None, None) => 0,
        (None, Some(_)) => -1,
        (Some(_), None) => 1,
        (Some(x), Some(y)) => order_of_numbers(x as u128, y as u128),
    }
}

fn order_of_variables(a: VariableId, b: VariableId) -> (res: i8)
    ensures
        res == variable_order(a, b),
{
    let first: i8 = order_of_numbers(a.owner.id as u128, b.owner.id as u128);
    if first != 0 {
        return first;
    }
    order_of_numbers(a.id as u128, b.id as u128)
}

fn order_of_datas(a: DataId, b: DataId) -> (res: i8)
    ensures
        res == data_order(a, b),
{
    order_of_numbers(a.id as u128, b.id as u128)
}

fn order_of_integers(a: IntegerType, b: IntegerType) -> (res: i8)
    ensures
        res == integer_order(a, b),
{
    let first: i8 = order_of_numbers(a.size as u128, b.size as u128);
    if first != 0 {
        return first;
    }
    order_of_bools(a.signed, b.signed)
}

pub fn order_of_kinds(a: IRBinOpKind, b: IRBinOpKind) -> (res: i8)
    ensures
        res == kind_order(a, b),
{
    order_of_numbers(rank_of_kind(a), rank_of_kind(b))
}

pub open spec fn kind_rank(k: IRBinOpKind) -> int {
    match k {
        IRBinOpKind::Add => 0,
        IRBinOpKind::Sub => 1,
        IRBinOpKind::Mul => 2,
        IRBinOpKind::UnsignedMod => 3,
        IRBinOpKind::Shl => 4,
        IRBinOpKind::Shr => 5,
        IRBinOpKind::BitOr => 6,
        IRBinOpKind::And => 7,
        IRBinOpKind::LogicalAnd => 8,
        IRBinOpKind::Or => 9,
        IRBinOpKind::Eq => 10,
        IRBinOpKind::SignedGt => 11,
        IRBinOpKind::SignedLe => 12,
        IRBinOpKind::Ne => 13,
        IRBinOpKind::UnsignedLt => 14,
        IRBinOpKind::UnsignedGe => 15,
    }
}

fn rank_of_kind(k: IRBinOpKind) -> (res: u128)
    ensures
        res == kind_rank(k),
{
    match k {
        IRBinOpKind::Add => 0,
        IRBinOpKind::Sub => 1,
        IRBinOpKind::Mul => 2,
        IRBinOpKind::UnsignedMod => 3,
        IRBinOpKind::Shl => 4,
        IRBinOpKind::Shr => 5,
        IRBinOpKind::BitOr => 6,
        IRBinOpKind::And => 7,
        IRBinOpKind::LogicalAnd => 8,
        IRBinOpKind::Or => 9,
        IRBinOpKind::Eq => 10,
        IRBinOpKind::SignedGt => 11,
        IRBinOpKind::SignedLe => 12,
        IRBinOpKind::Ne => 13,
        IRBinOpKind::UnsignedLt => 14,
        IRBinOpKind::UnsignedGe => 15,
    }
}

pub open spec fn expression_rank(e: IRExpr) -> int {
    match e {
        IRExpr::BinOp { .. } => 0,
        IRExpr::Deref(..) => 1,
        IRExpr::CStringLength(..) => 2,
        IRExpr::MemoryAddress { .. } => 3,
        IRExpr::ElementAddress { .. } => 4,
        IRExpr::Argument(..) => 5,
        IRExpr::Convert { .. } => 6,
        IRExpr::CU8(..) => 7,
        IRExpr::CU32(..) => 8,
        IRExpr::CU64(..) => 9,
        IRExpr::Variable(..) => 10,
        IRExpr::Data(..) => 11,
        IRExpr::Bool(..) => 12,
        IRExpr::Not(..) => 13,
    }
}

fn rank_of_expression(e: &IRExpr) -> (res: u128)
    ensures
        res == expression_rank(*e),
{
    match e {
        IRExpr::BinOp { .. } => 0,
        IRExpr::Deref(..) => 1,
        IRExpr::CStringLength(..) => 2,
        IRExpr::MemoryAddress { .. } => 3,
        IRExpr::ElementAddress { .. } => 4,
        IRExpr::Argument(..) => 5,
        IRExpr::Convert { .. } => 6,
        IRExpr::CU8(..) => 7,
        IRExpr::CU32(..) => 8,
        IRExpr::CU64(..) => 9,
        IRExpr::Variable(..) => 10,
        IRExpr::Data(..) => 11,
        IRExpr::Bool(..) => 12,
        IRExpr::Not(..) => 13,
    }
}

/// The order of two expressions: by variant, then by field.
pub open spec fn expression_order(a: IRExpr, b: IRExpr) -> int
    decreases a,
{
    match (a, b) {
        (IRExpr::BinOp { kind, lhs, rhs }, IRExpr::BinOp {
            kind: kind2,
            lhs: lhs2,
            rhs: rhs2,
        }) => then_by(
            kind_order(kind, kind2),
            then_by(expression_order(*lhs, *lhs2), expression_order(*rhs, *rhs2)),
        ),
        (IRExpr::Deref(address), IRExpr::Deref(address2)) => expression_order(*address, *address2),
        (IRExpr::CStringLength(base), IRExpr::CStringLength(base2)) => expression_order(
            *base,
            *base2,
        ),
        (IRExpr::MemoryAddress { address, size }, IRExpr::MemoryAddress {
            address: address2,
            size: size2,
        }) => then_by(
            expression_order(*address, *address2),
            size_order(size, size2),
        ),
        (IRExpr::ElementAddress { base, index, element_size }, IRExpr::ElementAddress {
            base: base2,
            index: index2,
            element_size: element_size2,
        }) => then_by(
            expression_order(*base, *base2),
            then_by(
                expression_order(*index, *index2),
                number_order(element_size as int, element_size2 as int),
            ),
        ),
        (IRExpr::Argument(ordinal), IRExpr::Argument(ordinal2)) => number_order(
            ordinal as int,
            ordinal2 as int,
        ),
        (IRExpr::Convert { value, source, target }, IRExpr::Convert {
            value: value2,
            source: source2,
            target: target2,
        }) => then_by(
            expression_order(*value, *value2),
            then_by(integer_order(source, source2), integer_order(target, target2)),
        ),
        (IRExpr::CU8(value), IRExpr::CU8(value2)) => number_order(value as int, value2 as int),
        (IRExpr::CU32(value), IRExpr::CU32(value2)) => number_order(value as int, value2 as int),
        (IRExpr::CU64(value), IRExpr::CU64(value2)) => number_order(value as int, value2 as int),
        (IRExpr::Variable(variable), IRExpr::Variable(variable2)) => variable_order(
            variable,
            variable2,
        ),
        (IRExpr::Data(id), IRExpr::Data(id2)) => data_order(id, id2),
        (IRExpr::Bool(value), IRExpr::Bool(value2)) => bool_order(value, value2),
        (IRExpr::Not(inner), IRExpr::Not(inner2)) => expression_order(*inner, *inner2),
        _ => number_order(expression_rank(a), expression_rank(b)),
    }
}

pub fn order_of_expressions(a: &IRExpr, b: &IRExpr) -> (res: i8)
    ensures
        res == expression_order(*a, *b),
    decreases a,
{
    match (a, b) {
        (IRExpr::BinOp { kind, lhs, rhs }, IRExpr::BinOp { kind: kind2, lhs: lhs2, rhs: rhs2 }) => {
            let first: i8 = order_of_kinds(*kind, *kind2);
            if first != 0 {
                return first;
            }
            let first: i8 = order_of_expressions(lhs, lhs2);
            if first != 0 {
                return first;
            }
            order_of_expressions(rhs, rhs2)
        },
        (IRExpr::Deref(address), IRExpr::Deref(address2)) => order_of_expressions(
            address,
            address2,
        ),
        (IRExpr::CStringLength(base), IRExpr::CStringLength(base2)) => order_of_expressions(
            base,
            base2,
        ),
        (IRExpr::MemoryAddress { address, size }, IRExpr::MemoryAddress {
            address: address2,
            size: size2,
        }) => {
            let first: i8 = order_of_expressions(address, address2);
            if first != 0 {
                return first;
            }
            order_of_sizes(*size, *size2)
        },
        (IRExpr::ElementAddress { base, index, element_size }, IRExpr::ElementAddress {
            base: base2,
            index: index2,
            element_size: element_size2,
        }) => {
            let first: i8 = order_of_expressions(base, base2);
            if first != 0 {
                return first;
            }
            let first: i8 = order_of_expressions(index, index2);
            if first != 0 {
                return first;
            }
            order_of_numbers(*element_size as u128, *element_size2 as u128)
        },
        (IRExpr::Argument(ordinal), IRExpr::Argument(ordinal2)) => order_of_numbers(
            *ordinal as u128,
            *ordinal2 as u128,
        ),
        (IRExpr::Convert { value, source, target }, IRExpr::Convert {
            value: value2,
            source: source2,
            target: target2,
        }) => {
            let first: i8 = order_of_expressions(value, value2);
            if first != 0 {
                return first;
            }
            let first: i8 = order_of_integers(*source, *source2);
            if first != 0 {
                return first;
            }
            order_of_integers(*target, *target2)
        },
        (IRExpr::CU8(value), IRExpr::CU8(value2)) => order_of_numbers(
            *value as u128,
            *value2 as u128,
        ),
        (IRExpr::CU32(value), IRExpr::CU32(value2)) => order_of_numbers(
            *value as u128,
            *value2 as u128,
        ),
        (IRExpr::CU64(value), IRExpr::CU64(value2)) => order_of_numbers(
            *value as u128,
            *value2 as u128,
        ),
        (IRExpr::Variable(variable), IRExpr::Variable(variable2)) => order_of_variables(
            *variable,
            *variable2,
        ),
        (IRExpr::Data(id), IRExpr::Data(id2)) => order_of_datas(*id, *id2),
        (IRExpr::Bool(value), IRExpr::Bool(value2)) => order_of_bools(*value, *value2),
        (IRExpr::Not(inner), IRExpr::Not(inner2)) => order_of_expressions(inner, inner2),
        _ => order_of_numbers(rank_of_expression(a), rank_of_expression(b)),
    }
}

} // verus!
