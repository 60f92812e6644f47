//! Assignments that can be written with one operator.
use super::super::arithmetic::{plain_value, Context, ContextModel};
use super::super::effects::{
    expression_effects, expression_reads, is_repeatable, repeatable,
};
use super::super::ir::{IRBinOpKind, IRExpr, IRInst, InstModel, VariableId};
use vstd::prelude::*;

verus! {

pub struct CompoundAssignment {
    pub dest: IRExpr,
    pub kind: IRBinOpKind,
    pub value: IRExpr,
}

pub struct TemporaryBinaryAssignment {
    pub temporary: VariableId,
    pub replacement: IRInst,
}

pub struct TemporaryModel {
    pub temporary: VariableId,
    pub replacement: InstModel,
}

impl TemporaryBinaryAssignment {
    pub open spec fn model(self) -> TemporaryModel {
        TemporaryModel { temporary: self.temporary, replacement: self.replacement.model() }
    }
}

/// The operator and the right operand of `temporary = temporary op right`.
pub open spec fn operation_on(instr: InstModel, temporary: VariableId) -> Option<
    (IRBinOpKind, IRExpr),
> {
    match instr {
        InstModel::CompoundAssign { dest, kind, value } => if dest == IRExpr::Variable(temporary) {
            Some((kind, value))
        } else {
            None
        },
        InstModel::AssignVariable { variable, value } => if variable == temporary {
            operand_on(value, temporary)
        } else {
            None
        },
        InstModel::Assign { dest, src } => if dest == IRExpr::Variable(temporary) {
            operand_on(src, temporary)
        } else {
            None
        },
        _ => None,
    }
}

pub open spec fn operand_on(value: IRExpr, temporary: VariableId) -> Option<
    (IRBinOpKind, IRExpr),
> {
    match value {
        IRExpr::BinOp { kind, lhs, rhs } => if *lhs == IRExpr::Variable(temporary) {
            Some((kind, *rhs))
        } else {
            None
        },
        _ => None,
    }
}

fn operand_of(value: &IRExpr, temporary: VariableId) -> (res: Option<(IRBinOpKind, &IRExpr)>)
    ensures
        match res {
            Some((kind, rhs)) => operand_on(*value, temporary) == Some((kind, *rhs)),
            None => operand_on(*value, temporary) is None,
        },
{
    match value {
        IRExpr::BinOp { kind, lhs, rhs } => match &**lhs {
            IRExpr::Variable(variable) => if *variable == temporary {
                Some((*kind, &**rhs))
            } else {
                None
            },
            _ => None,
        },
        _ => None,
    }
}

fn operation_of(instr: &IRInst, temporary: VariableId) -> (res: Option<(IRBinOpKind, &IRExpr)>)
    ensures
        match res {
            Some((kind, rhs)) => operation_on(instr.model(), temporary) == Some((kind, *rhs)),
            None => operation_on(instr.model(), temporary) is None,
        },
{
    match instr {
        IRInst::CompoundAssign { dest: IRExpr::Variable(variable), kind, value } => if *variable
            == temporary {
            Some((*kind, value))
        } else {
            None
        },
        IRInst::AssignVariable { variable, value } => if *variable == temporary {
            operand_of(value, temporary)
        } else {
            None
        },
        IRInst::Assign { dest: IRExpr::Variable(variable), src } => if *variable == temporary {
            operand_of(src, temporary)
        } else {
            None
        },
        _ => None,
    }
}

/// The write of the temporary, with `combined` in its place. The destination is
/// an expression whose address can be moved, or a variable of the same width.
pub open spec fn redirected_write(
    write: InstModel,
    temporary: VariableId,
    combined: IRExpr,
) -> Option<InstModel> {
    match write {
        InstModel::StoreVariable { address, variable } => if variable == temporary {
            Some(InstModel::Assign { dest: IRExpr::Deref(Box::new(address)), src: combined })
        } else {
            None
        },
        InstModel::Assign { dest, src } => if src == IRExpr::Variable(temporary) && (
        dest is Variable || dest is Deref) {
            Some(InstModel::Assign { dest, src: combined })
        } else {
            None
        },
        InstModel::AssignVariable { variable, value } => if value == IRExpr::Variable(temporary)
            && variable != temporary {
            Some(InstModel::AssignVariable { variable, value: combined })
        } else {
            None
        },
        _ => None,
    }
}

/// Whether the destination of a redirected write has the width, and its address
/// can be evaluated after the operands.
pub open spec fn movable_destination(
    replacement: InstModel,
    temporary: VariableId,
    bits: usize,
    context: ContextModel,
) -> bool {
    match replacement {
        InstModel::AssignVariable { variable, .. } => plain_value(
            context,
            IRExpr::Variable(variable),
        ).bits == Some(bits),
        InstModel::Assign { dest, .. } => {
            let address = match dest {
                IRExpr::Deref(address) => *address,
                _ => dest,
            };
            is_repeatable(address) && !expression_effects(address).reads.contains(temporary)
                && plain_value(context, dest).bits == Some(bits)
        },
        _ => false,
    }
}

pub open spec fn temporary_assignment_of(
    declaration: InstModel,
    operation: InstModel,
    write: InstModel,
    context: ContextModel,
) -> Option<TemporaryModel> {
    match declaration {
        InstModel::DeclareAndAssignVariable { variable: temporary, value: initial, .. } => match (
            operation_on(operation, temporary),
            plain_value(context, IRExpr::Variable(temporary)).bits,
        ) {
            (Some((kind, rhs)), Some(bits)) => {
                let combined = IRExpr::BinOp {
                    kind,
                    lhs: Box::new(initial),
                    rhs: Box::new(rhs),
                };
                if is_repeatable(initial) && is_repeatable(rhs) && !expression_effects(
                    initial,
                ).reads.contains(temporary) && !expression_effects(rhs).reads.contains(temporary)
                    && plain_value(context, initial).bits == Some(bits) && plain_value(
                    context,
                    combined,
                ).bits == Some(bits) {
                    match redirected_write(write, temporary, combined) {
                        Some(replacement) => if movable_destination(
                            replacement,
                            temporary,
                            bits,
                            context,
                        ) {
                            Some(TemporaryModel { temporary, replacement })
                        } else {
                            None
                        },
                        None => None,
                    }
                } else {
                    None
                }
            },
            _ => None,
        },
        _ => None,
    }
}

/// Recognize `let t = a; t = t op b; destination = t`. The operands and
/// destination address must be safe to move into one assignment expression.
/// The caller proves that no other instruction uses or writes `t`.
pub fn temporary_binary_assignment(
    declaration: &IRInst,
    operation: &IRInst,
    write: &IRInst,
    context: &Context,
) -> (res: Option<TemporaryBinaryAssignment>)
    ensures
        match res {
            Some(shape) => temporary_assignment_of(
                declaration.model(),
                operation.model(),
                write.model(),
                context@,
            ) == Some(shape.model()),
            None => temporary_assignment_of(
                declaration.model(),
                operation.model(),
                write.model(),
                context@,
            ) is None,
        },
{
    let (temporary, initial): (VariableId, &IRExpr) = match declaration {
        IRInst::DeclareAndAssignVariable { variable, value, .. } => (*variable, value),
        _ => return None,
    };
    let (kind, rhs): (IRBinOpKind, &IRExpr) = match operation_of(operation, temporary) {
        Some(parts) => parts,
        None => return None,
    };
    if !repeatable(initial) || !repeatable(rhs) || expression_reads(initial, temporary)
        || expression_reads(rhs, temporary) {
        return None;
    }
    let bits: usize = match context.value(&IRExpr::Variable(temporary)).bits {
        Some(bits) => bits,
        None => return None,
    };
    let combined = IRExpr::BinOp {
        kind,
        lhs: Box::new(initial.clone()),
        rhs: Box::new(rhs.clone()),
    };
    if context.value(initial).bits != Some(bits) || context.value(&combined).bits != Some(bits) {
        return None;
    }
    let replacement: IRInst = match write {
        IRInst::StoreVariable { address, variable } => {
            if *variable != temporary {
                return None;
            }
            IRInst::Assign { dest: IRExpr::Deref(Box::new(address.clone())), src: combined }
        },
        IRInst::Assign { dest, src: IRExpr::Variable(variable) } => {
            if *variable != temporary || !matches!(dest, IRExpr::Variable(_) | IRExpr::Deref(_)) {
                return None;
            }
            IRInst::Assign { dest: dest.clone(), src: combined }
        },
        IRInst::AssignVariable { variable, value: IRExpr::Variable(source) } => {
            if *source != temporary || *variable == temporary {
                return None;
            }
            IRInst::AssignVariable { variable: *variable, value: combined }
        },
        _ => return None,
    };
    let movable: bool = match &replacement {
        IRInst::AssignVariable { variable, .. } => context.value(&IRExpr::Variable(*variable)).bits
            == Some(bits),
        IRInst::Assign { dest, .. } => {
            let address: &IRExpr = match dest {
                IRExpr::Deref(address) => &**address,
                _ => dest,
            };
            repeatable(address) && !expression_reads(address, temporary) && context.value(
                dest,
            ).bits == Some(bits)
        },
        _ => false,
    };
    if !movable {
        return None;
    }
    Some(TemporaryBinaryAssignment { temporary, replacement })
}

/// The operators that have a compound form.
pub open spec fn has_compound_form(kind: IRBinOpKind) -> bool {
    match kind {
        IRBinOpKind::Add
        | IRBinOpKind::Sub
        | IRBinOpKind::UnsignedMod
        | IRBinOpKind::Shl
        | IRBinOpKind::And
        | IRBinOpKind::Or => true,
        _ => false,
    }
}

/// The destination and the source of an assignment whose destination can be
/// evaluated once in place of twice.
pub open spec fn plain_assignment(instr: InstModel) -> Option<(IRExpr, IRExpr)> {
    match instr {
        InstModel::Assign { dest, src } => match dest {
            IRExpr::Variable(_) => Some((dest, src)),
            IRExpr::Deref(address) => if is_repeatable(*address) {
                Some((dest, src))
            } else {
                None
            },
            _ => None,
        },
        InstModel::AssignVariable { variable, value } => Some((IRExpr::Variable(variable), value)),
        _ => None,
    }
}

pub open spec fn compound_assignment_of(instr: InstModel) -> Option<CompoundAssignment> {
    match plain_assignment(instr) {
        Some((dest, IRExpr::BinOp { kind, lhs, rhs })) => if !has_compound_form(kind) {
            None
        } else if dest == *lhs {
            Some(CompoundAssignment { dest, kind, value: *rhs })
        } else if dest is Variable && (kind == IRBinOpKind::Add || kind == IRBinOpKind::And)
            && dest == *rhs {
            Some(CompoundAssignment { dest, kind, value: *lhs })
        } else {
            None
        },
        _ => None,
    }
}

/// Recognize `a = a op b`, including the variable-specific assignment form.
/// Only commutative, eagerly evaluated operations may match `a = b op a`.
pub fn compound_assignment(instr: &IRInst) -> (res: Option<CompoundAssignment>)
    ensures
        res == compound_assignment_of(instr.model()),
{
    let (dest, source): (IRExpr, &IRExpr) = match instr {
        IRInst::Assign { dest, src } => {
            let plain: bool = match dest {
                IRExpr::Variable(_) => true,
                IRExpr::Deref(address) => repeatable(address),
                _ => false,
            };
            if !plain {
                return None;
            }
            (dest.clone(), src)
        },
        IRInst::AssignVariable { variable, value } => (IRExpr::Variable(*variable), value),
        _ => return None,
    };
    let (kind, lhs, rhs) = match source {
        IRExpr::BinOp { kind, lhs, rhs } => (*kind, lhs, rhs),
        _ => return None,
    };
    if !matches!(
        kind,
        IRBinOpKind::Add
            | IRBinOpKind::Sub
            | IRBinOpKind::UnsignedMod
            | IRBinOpKind::Shl
            | IRBinOpKind::And
            | IRBinOpKind::Or
    ) {
        return None;
    }
    let value: IRExpr = if dest.same(lhs) {
        (**rhs).clone()
    } else if matches!(dest, IRExpr::Variable(_)) && (kind == IRBinOpKind::Add || kind
        == IRBinOpKind::And) && dest.same(rhs) {
        (**lhs).clone()
    } else {
        return None;
    };
    Some(CompoundAssignment { dest, kind, value })
}

/// A compound assignment stands for an assignment of the operation on its
/// destination and its value. The operands change places only under an operator
/// that commutes and evaluates both.
pub proof fn law_compound_assignments_update_their_destination(instr: InstModel)
    requires
        compound_assignment_of(instr) is Some,
    ensures
        ({
            let made = compound_assignment_of(instr)->0;
            ||| plain_assignment(instr) == Some(
                (
                    made.dest,
                    IRExpr::BinOp {
                        kind: made.kind,
                        lhs: Box::new(made.dest),
                        rhs: Box::new(made.value),
                    },
                ),
            )
            ||| {
                &&& made.kind == IRBinOpKind::Add || made.kind == IRBinOpKind::And
                &&& made.dest is Variable
                &&& plain_assignment(instr) == Some(
                    (
                        made.dest,
                        IRExpr::BinOp {
                            kind: made.kind,
                            lhs: Box::new(made.value),
                            rhs: Box::new(made.dest),
                        },
                    ),
                )
            }
        }),
{
}

} // verus!
