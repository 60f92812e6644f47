//! Remainders taken only where the dividend is not already one.
use super::super::arithmetic::{
    arithmetic_width, integer_bits, negation, plain_value, Context, ContextModel, Value,
    ValueModel,
};
use super::super::effects::{is_repeatable, repeatable};
use super::super::ir::{IRBinOpKind, IRExpr, IRInst, InstModel};
use vstd::prelude::*;

verus! {

pub struct GuardedModulo {
    pub destination: IRExpr,
    pub dividend: IRExpr,
    pub replacement: IRInst,
}

pub struct GuardedModuloModel {
    pub destination: IRExpr,
    pub dividend: IRExpr,
    pub replacement: InstModel,
}

impl GuardedModulo {
    pub open spec fn model(self) -> GuardedModuloModel {
        GuardedModuloModel {
            destination: self.destination,
            dividend: self.dividend,
            replacement: self.replacement.model(),
        }
    }
}

/// The destination, the dividend and the divisor of a remainder assignment.
pub open spec fn remainder_parts(operation: InstModel) -> Option<(IRExpr, IRExpr, IRExpr)> {
    match operation {
        InstModel::AssignVariable {
            variable,
            value: IRExpr::BinOp { kind: IRBinOpKind::UnsignedMod, lhs, rhs },
        } => Some((IRExpr::Variable(variable), *lhs, *rhs)),
        InstModel::Assign {
            dest,
            src: IRExpr::BinOp { kind: IRBinOpKind::UnsignedMod, lhs, rhs },
        } => Some((dest, *lhs, *rhs)),
        InstModel::CompoundAssign { dest, kind: IRBinOpKind::UnsignedMod, value } => Some(
            (dest, dest, value),
        ),
        _ => None,
    }
}

fn parts_of(operation: &IRInst) -> (res: Option<(IRExpr, IRExpr, IRExpr)>)
    ensures
        res == remainder_parts(operation.model()),
{
    match operation {
        IRInst::AssignVariable { variable, value } => match value {
            IRExpr::BinOp { kind: IRBinOpKind::UnsignedMod, lhs, rhs } => Some(
                (IRExpr::Variable(*variable), (**lhs).clone(), (**rhs).clone()),
            ),
            _ => None,
        },
        IRInst::Assign { dest, src } => match src {
            IRExpr::BinOp { kind: IRBinOpKind::UnsignedMod, lhs, rhs } => Some(
                (dest.clone(), (**lhs).clone(), (**rhs).clone()),
            ),
            _ => None,
        },
        IRInst::CompoundAssign { dest, kind, value } => if *kind == IRBinOpKind::UnsignedMod {
            Some((dest.clone(), dest.clone(), value.clone()))
        } else {
            None
        },
        _ => None,
    }
}

/// The only action of an if, and the condition under which it is taken.
pub open spec fn sole_action(instr: InstModel, context: ContextModel) -> Option<
    (InstModel, ValueModel),
> {
    match instr {
        InstModel::If { condition, then_branch, else_branch } => if !is_repeatable(condition) {
            None
        } else if then_branch.len() == 1 && else_branch.len() == 0 {
            Some((then_branch[0], plain_value(context, condition)))
        } else if then_branch.len() == 0 && else_branch.len() == 1 {
            Some((else_branch[0], negation(plain_value(context, condition))))
        } else {
            None
        },
        _ => None,
    }
}

pub open spec fn guarded_modulo_of(instr: InstModel, context: ContextModel) -> Option<
    GuardedModuloModel,
> {
    match sole_action(instr, context) {
        Some((operation, guard)) => match remainder_parts(operation) {
            Some((destination, dividend, stride)) => {
                let bits = plain_value(context, dividend).bits;
                let expected = IRExpr::BinOp {
                    kind: IRBinOpKind::UnsignedGe,
                    lhs: Box::new(dividend),
                    rhs: Box::new(stride),
                };
                if is_repeatable(dividend) && is_repeatable(stride) && arithmetic_width(
                    bits,
                ) is Some && plain_value(context, stride).bits == bits && guard == plain_value(
                    context,
                    expected,
                ) {
                    Some(GuardedModuloModel { destination, dividend, replacement: operation })
                } else {
                    None
                }
            },
            None => None,
        },
        None => None,
    }
}

/// Recognize a sole modulo assignment under `dividend u>= stride` (or the
/// opposite branch of `dividend u< stride`). The caller proves that skipping
/// the assignment leaves its destination equal to the dividend.
pub fn guarded_modulo(instr: &IRInst, context: &Context) -> (res: Option<GuardedModulo>)
    ensures
        match res {
            Some(shape) => guarded_modulo_of(instr.model(), context@) == Some(shape.model()),
            None => guarded_modulo_of(instr.model(), context@) is None,
        },
{
    let (condition, then_branch, else_branch) = match instr {
        IRInst::If { condition, then_branch, else_branch } => (condition, then_branch, else_branch),
        _ => return None,
    };
    if !repeatable(condition) {
        return None;
    }
    let (operation, guard): (&IRInst, Value) = if then_branch.len() == 1 && else_branch.len()
        == 0 {
        (&then_branch[0], context.value(condition))
    } else if then_branch.len() == 0 && else_branch.len() == 1 {
        (&else_branch[0], context.value(condition).negated())
    } else {
        return None;
    };
    let (destination, dividend, stride) = match parts_of(operation) {
        Some(parts) => parts,
        None => return None,
    };
    if !repeatable(&dividend) || !repeatable(&stride) {
        return None;
    }
    let bits: Option<usize> = context.value(&dividend).bits;
    if integer_bits(bits).is_none() || context.value(&stride).bits != bits {
        return None;
    }
    let expected = IRExpr::BinOp {
        kind: IRBinOpKind::UnsignedGe,
        lhs: Box::new(dividend.clone()),
        rhs: Box::new(stride),
    };
    if !guard.same(&context.value(&expected)) {
        return None;
    }
    Some(GuardedModulo { destination, dividend, replacement: operation.clone() })
}

/// Where the guard of a remainder does not hold, the remainder is the dividend:
/// dropping the guard changes nothing.
pub proof fn law_guarded_remainder_is_a_remainder(dividend: nat, stride: nat)
    requires
        dividend < stride,
    ensures
        dividend % stride == dividend,
{
    vstd::arithmetic::div_mod::lemma_small_mod(dividend, stride);
}

} // verus!
