//! A condition on variables is true where the condition on flags is, and the
//! variables hold what the flags hold.
use super::conditions::{condition_of, law_carry_of_a_sum, slot_of, value_of_flag};
use super::ir::{IRBinOpKind, IRExpr, NativeFlag, SyntheticFunctionId, VariableId};
use vstd::prelude::*;

verus! {

/// What an expression is read from: flags, variables, and what everything else
/// holds. A sum counts modulo the number of values of its first operand.
pub struct Reading {
    pub flags: spec_fn(NativeFlag) -> bool,
    pub variables: spec_fn(VariableId) -> int,
    pub other: spec_fn(IRExpr) -> int,
    pub limit: spec_fn(IRExpr) -> int,
}

pub open spec fn bit(truth: bool) -> int {
    if truth {
        1
    } else {
        0
    }
}

/// The number that an expression stands for.
pub open spec fn value(r: Reading, expr: IRExpr) -> int
    decreases expr,
{
    match expr {
        IRExpr::BinOp { kind, lhs, rhs } => {
            let a = value(r, *lhs);
            let b = value(r, *rhs);
            match kind {
                IRBinOpKind::Add => (a + b) % (r.limit)(*lhs),
                IRBinOpKind::Sub => (a - b) % (r.limit)(*lhs),
                IRBinOpKind::Or => bit(a != 0 || b != 0),
                IRBinOpKind::Eq => bit(a == b),
                IRBinOpKind::UnsignedLt => bit(a < b),
                _ => (r.other)(expr),
            }
        },
        IRExpr::Flag(flag) => bit((r.flags)(flag)),
        IRExpr::Variable(variable) => (r.variables)(variable),
        IRExpr::CU8(constant) => constant as int,
        IRExpr::CU32(constant) => constant as int,
        IRExpr::CU64(constant) => constant as int,
        IRExpr::Bool(truth) => bit(truth),
        IRExpr::Not(inner) => bit(value(r, *inner) == 0),
        _ => (r.other)(expr),
    }
}

/// A condition on variables stands for what the condition on flags stands for,
/// where each variable holds its flag.
pub proof fn law_a_lifted_condition_is_the_condition(
    r: Reading,
    expr: IRExpr,
    function: SyntheticFunctionId,
    flags: Seq<NativeFlag>,
)
    requires
        condition_of(expr, function, flags) is Some,
        forall|f: NativeFlag| #[trigger]
            flags.contains(f) ==> (r.variables)(slot_of(function, flags, f)) == bit((r.flags)(f)),
    ensures
        value(r, condition_of(expr, function, flags)->0) == value(r, expr),
    decreases expr,
{
    reveal_with_fuel(value, 3);
    if let IRExpr::BinOp { kind, lhs, rhs } = expr {
        if kind == IRBinOpKind::Eq {
            match (*lhs, *rhs) {
                (IRExpr::Flag(_), IRExpr::CU8(_)) => {},
                (IRExpr::CU8(_), IRExpr::Flag(_)) => {},
                _ => {
                    law_a_lifted_condition_is_the_condition(r, *lhs, function, flags);
                    law_a_lifted_condition_is_the_condition(r, *rhs, function, flags);
                },
            }
        } else if kind == IRBinOpKind::Or {
            law_a_lifted_condition_is_the_condition(r, *lhs, function, flags);
            law_a_lifted_condition_is_the_condition(r, *rhs, function, flags);
        }
    }
}

/// No two flags share a variable.
pub proof fn law_flags_have_variables_of_their_own(
    function: SyntheticFunctionId,
    flags: Seq<NativeFlag>,
    first: NativeFlag,
    second: NativeFlag,
)
    requires
        flags.len() <= usize::MAX,
        flags.contains(first),
        flags.contains(second),
        first != second,
    ensures
        slot_of(function, flags, first) != slot_of(function, flags, second),
{
    let i = flags.index_of(first);
    let j = flags.index_of(second);
    assert(flags[i] == first && 0 <= i < flags.len());
    assert(flags[j] == second && 0 <= j < flags.len());
}

/// The value that stands for a flag is true exactly where the processor sets it:
/// the zero flag by a zero result, the carry by a borrow or by a sum that does not
/// fit.
pub proof fn law_the_value_of_a_flag_is_the_flag(r: Reading, flag: NativeFlag, expr: IRExpr)
    requires
        value_of_flag(flag, expr) is Some,
        expr matches IRExpr::BinOp { lhs, rhs, .. } ==> {
            &&& 0 <= value(r, *lhs) < (r.limit)(*lhs)
            &&& 0 <= value(r, *rhs) < (r.limit)(*lhs)
        },
    ensures
        ({
            let set = value(r, value_of_flag(flag, expr)->0) != 0;
            match flag {
                NativeFlag::Zero => set == (value(r, expr) == 0),
                NativeFlag::Carry => match expr {
                    IRExpr::BinOp { kind: IRBinOpKind::Sub, lhs, rhs } => set == (value(r, *lhs)
                        < value(r, *rhs)),
                    IRExpr::BinOp { kind: IRBinOpKind::Add, lhs, rhs } => set == (value(r, *lhs)
                        + value(r, *rhs) >= (r.limit)(*lhs)),
                    _ => false,
                },
                _ => false,
            }
        }),
{
    reveal_with_fuel(value, 3);
    if let IRExpr::BinOp { kind: IRBinOpKind::Add, lhs, rhs } = expr {
        law_carry_of_a_sum(
            value(r, *lhs) as nat,
            value(r, *rhs) as nat,
            (r.limit)(*lhs) as nat,
        );
    }
}

} // verus!
