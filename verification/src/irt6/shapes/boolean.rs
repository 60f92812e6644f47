//! Negations and branches that only choose between true and false.
use super::super::arithmetic::{opposite, opposite_of};
use super::super::ir::{models, IRBinOpKind, IRExpr, IRInst, InstModel};
use vstd::prelude::*;

verus! {

/// The negation of a truth value: pushed into connectives, absorbed by
/// comparisons, and otherwise written in front.
pub open spec fn negated_boolean(expr: IRExpr) -> IRExpr
    decreases expr,
{
    match expr {
        IRExpr::BinOp { kind, lhs, rhs } => if kind == IRBinOpKind::Or {
            IRExpr::BinOp {
                kind: IRBinOpKind::LogicalAnd,
                lhs: Box::new(negated_boolean(*lhs)),
                rhs: Box::new(negated_boolean(*rhs)),
            }
        } else if kind == IRBinOpKind::LogicalAnd {
            IRExpr::BinOp {
                kind: IRBinOpKind::Or,
                lhs: Box::new(negated_boolean(*lhs)),
                rhs: Box::new(negated_boolean(*rhs)),
            }
        } else {
            match opposite(kind) {
                Some(kind) => IRExpr::BinOp { kind, lhs, rhs },
                None => IRExpr::Not(Box::new(expr)),
            }
        },
        _ => IRExpr::Not(Box::new(expr)),
    }
}

/// A negation pushed through a short-circuit chain, if there is one under it.
pub open spec fn pushed_negation(expr: IRExpr) -> Option<IRExpr> {
    match expr {
        IRExpr::Not(inner) => match *inner {
            IRExpr::BinOp { kind, lhs, rhs } => if kind == IRBinOpKind::Or || kind
                == IRBinOpKind::LogicalAnd {
                Some(negated_boolean(*inner))
            } else {
                None
            },
            _ => None,
        },
        _ => None,
    }
}

/// Push a negation through a short-circuit Boolean chain. Bitwise And is
/// intentionally excluded: replacing it with a logical Or would change its
/// value and evaluation behavior.
pub fn de_morgan(expr: &IRExpr) -> (res: Option<IRExpr>)
    ensures
        res == pushed_negation(*expr),
{
    match expr {
        IRExpr::Not(inner) => match &**inner {
            IRExpr::BinOp { kind, .. } => if *kind == IRBinOpKind::Or || *kind
                == IRBinOpKind::LogicalAnd {
                Some(negate_boolean(inner))
            } else {
                None
            },
            _ => None,
        },
        _ => None,
    }
}

pub fn negate_boolean(expr: &IRExpr) -> (res: IRExpr)
    ensures
        res == negated_boolean(*expr),
    decreases expr,
{
    if let IRExpr::BinOp { kind, lhs, rhs } = expr {
        if *kind == IRBinOpKind::Or || *kind == IRBinOpKind::LogicalAnd {
            return IRExpr::BinOp {
                kind: if *kind == IRBinOpKind::Or {
                    IRBinOpKind::LogicalAnd
                } else {
                    IRBinOpKind::Or
                },
                lhs: Box::new(negate_boolean(lhs)),
                rhs: Box::new(negate_boolean(rhs)),
            };
        }
        if let Some(kind) = opposite_of(*kind) {
            return IRExpr::BinOp {
                kind,
                lhs: Box::new((**lhs).clone()),
                rhs: Box::new((**rhs).clone()),
            };
        }
    }
    IRExpr::Not(Box::new(expr.clone()))
}

/// Whether two returned values are true and false, or false and true, in the
/// same form.
pub open spec fn truth_pair(first: IRExpr, second: IRExpr) -> Option<bool> {
    match (first, second) {
        (IRExpr::Bool(a), IRExpr::Bool(b)) => if a != b {
            Some(a)
        } else {
            None
        },
        (IRExpr::CU8(a), IRExpr::CU8(b)) => binary_digits(a as int, b as int),
        (IRExpr::CU32(a), IRExpr::CU32(b)) => binary_digits(a as int, b as int),
        (IRExpr::CU64(a), IRExpr::CU64(b)) => binary_digits(a as int, b as int),
        _ => None,
    }
}

pub open spec fn binary_digits(a: int, b: int) -> Option<bool> {
    if a == 1 && b == 0 {
        Some(true)
    } else if a == 0 && b == 1 {
        Some(false)
    } else {
        None
    }
}

fn digits_of(a: u64, b: u64) -> (res: Option<bool>)
    ensures
        res == binary_digits(a as int, b as int),
{
    if a == 1 && b == 0 {
        Some(true)
    } else if a == 0 && b == 1 {
        Some(false)
    } else {
        None
    }
}

/// The truth value that an if returns, when returning it is all it does.
pub open spec fn returned_truth(instr: InstModel) -> Option<IRExpr> {
    match instr {
        InstModel::If { condition, then_branch, else_branch } => if then_branch.len() == 1
            && else_branch.len() == 1 {
            match (then_branch[0], else_branch[0]) {
                (
                    InstModel::Return(Some(then_value)),
                    InstModel::Return(Some(else_value)),
                ) => match truth_pair(then_value, else_value) {
                    // An if can test a non-boolean value. Normalize its truthiness before
                    // returning it, so a true condition such as 2 still returns 1.
                    Some(true) => Some(
                        IRExpr::Not(Box::new(IRExpr::Not(Box::new(condition)))),
                    ),
                    Some(false) => Some(IRExpr::Not(Box::new(condition))),
                    None => None,
                },
                _ => None,
            }
        } else {
            None
        },
        _ => None,
    }
}

/// Recognize an if whose only actions return zero and one.
/// The condition is evaluated once in either form, so it need not be repeatable.
pub fn boolean_return(instr: &IRInst) -> (res: Option<IRExpr>)
    ensures
        res == returned_truth(instr.model()),
{
    match instr {
        IRInst::If { condition, then_branch, else_branch } => {
            if then_branch.len() != 1 || else_branch.len() != 1 {
                return None;
            }
            assert(models(then_branch@)[0] == then_branch@[0].model());
            assert(models(else_branch@)[0] == else_branch@[0].model());
            let then_is_true: Option<bool> = match (&then_branch[0], &else_branch[0]) {
                (IRInst::Return(Some(then_value)), IRInst::Return(Some(else_value))) => {
                    match (then_value, else_value) {
                        (IRExpr::Bool(a), IRExpr::Bool(b)) => if *a != *b {
                            Some(*a)
                        } else {
                            None
                        },
                        (IRExpr::CU8(a), IRExpr::CU8(b)) => digits_of(*a as u64, *b as u64),
                        (IRExpr::CU32(a), IRExpr::CU32(b)) => digits_of(*a as u64, *b as u64),
                        (IRExpr::CU64(a), IRExpr::CU64(b)) => digits_of(*a, *b),
                        _ => None,
                    }
                },
                _ => None,
            };
            match then_is_true {
                Some(true) => Some(
                    IRExpr::Not(Box::new(IRExpr::Not(Box::new(condition.clone())))),
                ),
                Some(false) => Some(IRExpr::Not(Box::new(condition.clone()))),
                None => None,
            }
        },
        _ => None,
    }
}

// ---------------------------------------------------------------------------
// Laws

/// Whether a comparison holds of two 64-bit numbers.
pub open spec fn comparison_holds(kind: IRBinOpKind, left: u64, right: u64) -> bool {
    match kind {
        IRBinOpKind::Eq => left == right,
        IRBinOpKind::Ne => left != right,
        IRBinOpKind::SignedGt => left as i64 > right as i64,
        IRBinOpKind::SignedLe => left as i64 <= right as i64,
        IRBinOpKind::UnsignedLt => left < right,
        IRBinOpKind::UnsignedGe => left >= right,
        _ => false,
    }
}

/// The truth of an expression, where `numbers` gives the value of everything
/// that is neither a connective, a negation nor a comparison.
pub open spec fn truth(expr: IRExpr, numbers: spec_fn(IRExpr) -> u64) -> bool
    decreases expr,
{
    match expr {
        IRExpr::Not(inner) => !truth(*inner, numbers),
        IRExpr::BinOp { kind, lhs, rhs } => match kind {
            IRBinOpKind::Or => truth(*lhs, numbers) || truth(*rhs, numbers),
            IRBinOpKind::LogicalAnd => truth(*lhs, numbers) && truth(*rhs, numbers),
            _ => if opposite(kind) is Some {
                comparison_holds(kind, numbers(*lhs), numbers(*rhs))
            } else {
                numbers(expr) != 0
            },
        },
        _ => numbers(expr) != 0,
    }
}

/// A negated expression is true exactly where the expression is not.
pub proof fn law_negation_is_the_complement(expr: IRExpr, numbers: spec_fn(IRExpr) -> u64)
    ensures
        truth(negated_boolean(expr), numbers) == !truth(expr, numbers),
    decreases expr,
{
    match expr {
        IRExpr::BinOp { kind, lhs, rhs } => {
            law_negation_is_the_complement(*lhs, numbers);
            law_negation_is_the_complement(*rhs, numbers);
            match opposite(kind) {
                Some(other) => {
                    assert(opposite(other) is Some);
                },
                None => {
                    assert(truth(IRExpr::Not(Box::new(expr)), numbers) == !truth(expr, numbers));
                },
            }
        },
        _ => {
            assert(truth(IRExpr::Not(Box::new(expr)), numbers) == !truth(expr, numbers));
        },
    }
}

/// Pushing a negation inwards does not change the truth of an expression.
pub proof fn law_de_morgan_keeps_truth(expr: IRExpr, numbers: spec_fn(IRExpr) -> u64)
    ensures
        match pushed_negation(expr) {
            Some(pushed) => truth(pushed, numbers) == truth(expr, numbers),
            None => true,
        },
{
    if let IRExpr::Not(inner) = expr {
        law_negation_is_the_complement(*inner, numbers);
    }
}

/// The returned truth value is true exactly where the branch that is taken
/// returns true.
pub proof fn law_boolean_return_keeps_truth(instr: InstModel, numbers: spec_fn(IRExpr) -> u64)
    requires
        returned_truth(instr) is Some,
    ensures
        match instr {
            InstModel::If { condition, then_branch, else_branch } => match (
                then_branch[0],
                else_branch[0],
            ) {
                (
                    InstModel::Return(Some(then_value)),
                    InstModel::Return(Some(else_value)),
                ) => truth(returned_truth(instr)->0, numbers) == (truth(condition, numbers) == (
                truth_pair(then_value, else_value) == Some(true))),
                _ => false,
            },
            _ => false,
        },
{
    match instr {
        InstModel::If { condition, .. } => {
            let once = IRExpr::Not(Box::new(condition));
            assert(truth(once, numbers) == !truth(condition, numbers));
            assert(truth(IRExpr::Not(Box::new(once)), numbers) == !truth(once, numbers));
        },
        _ => {},
    }
}

} // verus!
