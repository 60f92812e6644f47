//! Checks that a zero-terminated string is empty.
use super::super::arithmetic::{type_of, Context, ContextModel};
use super::super::ir::{IRBinOpKind, IRExpr, VariableId, VariableType};
use super::{literal_number, unsigned_constant};
use crate::table::Table;
use vstd::prelude::*;

verus! {

/// The variable that an expression compares with zero.
pub open spec fn compared_with_zero(condition: IRExpr) -> Option<VariableId> {
    match condition {
        IRExpr::BinOp { kind: IRBinOpKind::Eq, lhs, rhs } => match (*lhs, *rhs) {
            (IRExpr::Variable(variable), zero) => if literal_number(zero) == Some(0u64) {
                Some(variable)
            } else {
                None
            },
            (zero, IRExpr::Variable(variable)) => if literal_number(zero) == Some(0u64) {
                Some(variable)
            } else {
                None
            },
            _ => None,
        },
        _ => None,
    }
}

fn variable_against_zero(condition: &IRExpr) -> (res: Option<VariableId>)
    ensures
        res == compared_with_zero(*condition),
{
    match condition {
        IRExpr::BinOp { kind, lhs, rhs } => {
            if *kind != IRBinOpKind::Eq {
                return None;
            }
            match (&**lhs, &**rhs) {
                (IRExpr::Variable(variable), zero) => if unsigned_constant(zero) == Some(0) {
                    Some(*variable)
                } else {
                    None
                },
                (zero, IRExpr::Variable(variable)) => if unsigned_constant(zero) == Some(0) {
                    Some(*variable)
                } else {
                    None
                },
                _ => None,
            }
        },
        _ => None,
    }
}

/// The length check that a comparison of a string's cached first byte with zero
/// amounts to.
pub open spec fn empty_check(
    condition: IRExpr,
    loaded_from: Map<VariableId, IRExpr>,
    context: ContextModel,
) -> Option<IRExpr> {
    match compared_with_zero(condition) {
        Some(variable) => if loaded_from.dom().contains(variable) {
            match loaded_from[variable] {
                IRExpr::ElementAddress { base, index, element_size } => if element_size == 1
                    && literal_number(*index) == Some(0u64) && type_of(context, *base) == Some(
                    VariableType::CString,
                ) {
                    Some(
                        IRExpr::BinOp {
                            kind: IRBinOpKind::Eq,
                            lhs: Box::new(IRExpr::CStringLength(base)),
                            rhs: Box::new(IRExpr::CU64(0)),
                        },
                    )
                } else {
                    None
                },
                _ => None,
            }
        } else {
            None
        },
        None => None,
    }
}

/// A cached read of the first byte is an empty-string check once its base has
/// been promoted to CString. The caller proves the cached load is still valid.
pub fn cstring_empty_check(
    condition: &IRExpr,
    loaded_from: &Table<VariableId, IRExpr>,
    context: &Context,
) -> (res: Option<IRExpr>)
    ensures
        res == empty_check(*condition, loaded_from@, context@),
{
    let variable: VariableId = match variable_against_zero(condition) {
        Some(variable) => variable,
        None => return None,
    };
    match loaded_from.get(variable) {
        Some(IRExpr::ElementAddress { base, index, element_size }) => {
            if *element_size != 1 || unsigned_constant(index) != Some(0) {
                return None;
            }
            match context.direct_type(base) {
                Some(VariableType::CString) => Some(
                    IRExpr::BinOp {
                        kind: IRBinOpKind::Eq,
                        lhs: Box::new(IRExpr::CStringLength(Box::new((**base).clone()))),
                        rhs: Box::new(IRExpr::CU64(0)),
                    },
                ),
                _ => None,
            }
        },
        _ => None,
    }
}

} // verus!
