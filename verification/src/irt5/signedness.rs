//! A slot that is compared as an unsigned number is not taken for a signed one.
use super::infer_types::{
    address_with, all_called, all_copied, all_evidence, analysis_of, assignment_evidence,
    evidence_at, evidence_with, evidence_with_all, gathered, gathered_body, gathered_list, id_of,
    marked_integer, operand_evidence, shared_evidence, slot_in, slot_width, spread_evidence,
    types_in, Evidence, Slot,
};
use super::ir::{FunctionModel, IRBinOpKind, IRExpr, InstModel, SyntheticFunctionId, VariableType};
use vstd::prelude::*;

verus! {

/// Whether an expression compares the slot as an unsigned number.
pub open spec fn compares(expr: IRExpr, owner: SyntheticFunctionId, slot: Slot) -> bool
    decreases expr,
{
    match expr {
        IRExpr::BinOp { kind, lhs, rhs } => {
            ||| (kind == IRBinOpKind::UnsignedLt || kind == IRBinOpKind::UnsignedGe) && (slot_in(
                *lhs,
                owner,
            ) == Some(slot) || slot_in(*rhs, owner) == Some(slot))
            ||| compares(*lhs, owner, slot)
            ||| compares(*rhs, owner, slot)
        },
        IRExpr::Deref(inner) => compares(*inner, owner, slot),
        IRExpr::MemoryAddress { address, .. } => compares(*address, owner, slot),
        IRExpr::ElementAddress { base, index, .. } => compares(*base, owner, slot) || compares(
            *index,
            owner,
            slot,
        ),
        IRExpr::Convert { value, .. } => compares(*value, owner, slot),
        IRExpr::Not(inner) => compares(*inner, owner, slot),
        _ => false,
    }
}

/// Whether an instruction compares the slot as an unsigned number.
pub open spec fn compares_in(instr: InstModel, owner: SyntheticFunctionId, slot: Slot) -> bool
    decreases instr,
{
    match instr {
        InstModel::Assign { dest, src } => compares(dest, owner, slot) || compares(
            src,
            owner,
            slot,
        ),
        InstModel::Return(Some(value)) => compares(value, owner, slot),
        InstModel::DeclareAndAssignVariable { value, .. } => compares(value, owner, slot),
        InstModel::AssignVariable { value, .. } => compares(value, owner, slot),
        InstModel::LoadVariable { address, .. } => compares(address, owner, slot),
        InstModel::StoreVariable { address, .. } => compares(address, owner, slot),
        InstModel::If { condition, then_branch, else_branch } => compares(condition, owner, slot)
            || compares_in_list(then_branch, owner, slot) || compares_in_list(
            else_branch,
            owner,
            slot,
        ),
        InstModel::While { condition, body, .. } => compares(condition.check(), owner, slot)
            || compares_in_body(body, owner, slot),
        InstModel::CallSynthetic { arguments, .. } => exists|i: int|
            0 <= i < arguments.len() && compares(#[trigger] arguments[i], owner, slot),
        InstModel::Jump(target) => compares(target, owner, slot),
        _ => false,
    }
}

pub open spec fn compares_in_list(
    list: Seq<InstModel>,
    owner: SyntheticFunctionId,
    slot: Slot,
) -> bool
    decreases list,
{
    list.len() > 0 && (compares_in_list(list.drop_last(), owner, slot) || compares_in(
        list[list.len() - 1],
        owner,
        slot,
    ))
}

pub open spec fn compares_in_body(
    list: Seq<(usize, InstModel)>,
    owner: SyntheticFunctionId,
    slot: Slot,
) -> bool
    decreases list,
{
    list.len() > 0 && (compares_in_body(list.drop_last(), owner, slot) || compares_in(
        list[list.len() - 1].1,
        owner,
        slot,
    ))
}

// ---------------------------------------------------------------------------
// Evidence only grows

/// Whether a slot is known to be an unsigned number.
pub open spec fn is_unsigned(found: Map<Slot, Evidence>, slot: Slot) -> bool {
    evidence_at(found, slot).unsigned && evidence_at(found, slot).integer
}

proof fn lemma_address_keeps(
    expr: IRExpr,
    found: Map<Slot, Evidence>,
    owner: SyntheticFunctionId,
    slot: Slot,
)
    requires
        is_unsigned(found, slot),
    ensures
        is_unsigned(address_with(expr, found, owner), slot),
    decreases expr,
{
    match expr {
        IRExpr::BinOp { lhs, rhs, .. } => {
            lemma_address_keeps(*lhs, found, owner, slot);
            lemma_address_keeps(*rhs, address_with(*lhs, found, owner), owner, slot);
        },
        IRExpr::Deref(inner) | IRExpr::Not(inner) => {
            lemma_address_keeps(*inner, found, owner, slot);
        },
        IRExpr::MemoryAddress { address, .. } => {
            lemma_address_keeps(*address, found, owner, slot);
        },
        IRExpr::ElementAddress { base, index, .. } => {
            lemma_address_keeps(*base, found, owner, slot);
            lemma_address_keeps(*index, address_with(*base, found, owner), owner, slot);
        },
        IRExpr::Convert { value, .. } => lemma_address_keeps(*value, found, owner, slot),
        _ => {},
    }
}

proof fn lemma_operands_keep(
    kind: IRBinOpKind,
    lhs: IRExpr,
    rhs: IRExpr,
    found: Map<Slot, Evidence>,
    owner: SyntheticFunctionId,
    types: Map<Slot, VariableType>,
    slot: Slot,
)
    requires
        slot_width(types, slot) is Some,
    ensures
        is_unsigned(found, slot) ==> is_unsigned(
            operand_evidence(kind, lhs, rhs, found, owner, types),
            slot,
        ),
        (kind == IRBinOpKind::UnsignedLt || kind == IRBinOpKind::UnsignedGe) && (slot_in(
            lhs,
            owner,
        ) == Some(slot) || slot_in(rhs, owner) == Some(slot)) ==> is_unsigned(
            operand_evidence(kind, lhs, rhs, found, owner, types),
            slot,
        ),
{
}

proof fn lemma_evidence(
    expr: IRExpr,
    found: Map<Slot, Evidence>,
    owner: SyntheticFunctionId,
    types: Map<Slot, VariableType>,
    slot: Slot,
)
    requires
        slot_width(types, slot) is Some,
        is_unsigned(found, slot) || compares(expr, owner, slot),
    ensures
        is_unsigned(evidence_with(expr, found, owner, types), slot),
    decreases expr,
{
    match expr {
        IRExpr::BinOp { kind, lhs, rhs } => {
            let first = operand_evidence(kind, *lhs, *rhs, found, owner, types);
            let second = evidence_with(*lhs, first, owner, types);
            lemma_operands_keep(kind, *lhs, *rhs, found, owner, types, slot);
            if is_unsigned(first, slot) || compares(*lhs, owner, slot) {
                lemma_evidence(*lhs, first, owner, types, slot);
            }
            lemma_evidence(*rhs, second, owner, types, slot);
        },
        IRExpr::Deref(address) => {
            if is_unsigned(found, slot) {
                lemma_address_keeps(*address, found, owner, slot);
            }
            lemma_evidence(*address, address_with(*address, found, owner), owner, types, slot);
        },
        IRExpr::MemoryAddress { address, .. } => {
            if is_unsigned(found, slot) {
                lemma_address_keeps(*address, found, owner, slot);
            }
            lemma_evidence(*address, address_with(*address, found, owner), owner, types, slot);
        },
        IRExpr::ElementAddress { base, index, .. } => {
            if is_unsigned(found, slot) || compares(*base, owner, slot) {
                lemma_evidence(*base, found, owner, types, slot);
            }
            lemma_evidence(*index, evidence_with(*base, found, owner, types), owner, types, slot);
        },
        IRExpr::Convert { value, .. } => lemma_evidence(*value, found, owner, types, slot),
        IRExpr::Not(inner) => lemma_evidence(*inner, found, owner, types, slot),
        _ => {},
    }
}

proof fn lemma_evidence_all(
    list: Seq<IRExpr>,
    found: Map<Slot, Evidence>,
    owner: SyntheticFunctionId,
    types: Map<Slot, VariableType>,
    slot: Slot,
)
    requires
        slot_width(types, slot) is Some,
        is_unsigned(found, slot) || exists|i: int|
            0 <= i < list.len() && compares(#[trigger] list[i], owner, slot),
    ensures
        is_unsigned(evidence_with_all(list, found, owner, types), slot),
    decreases list.len(),
{
    if list.len() > 0 {
        let front = list.drop_last();
        if !is_unsigned(found, slot) {
            let i = choose|i: int|
                0 <= i < list.len() && compares(#[trigger] list[i], owner, slot);
            if i < front.len() {
                assert(front[i] == list[i]);
                lemma_evidence_all(front, found, owner, types, slot);
            }
        } else {
            lemma_evidence_all(front, found, owner, types, slot);
        }
        lemma_evidence(
            list.last(),
            evidence_with_all(front, found, owner, types),
            owner,
            types,
            slot,
        );
    }
}

proof fn lemma_assignment(
    dest: Slot,
    value: IRExpr,
    found: Map<Slot, Evidence>,
    owner: SyntheticFunctionId,
    types: Map<Slot, VariableType>,
    slot: Slot,
)
    requires
        slot_width(types, slot) is Some,
        is_unsigned(found, slot) || compares(value, owner, slot),
    ensures
        is_unsigned(assignment_evidence(dest, value, found, owner, types), slot),
{
    let first = if super::infer_types::is_shift(value) {
        marked_integer(found, Some(dest), false, types)
    } else {
        found
    };
    assert(is_unsigned(found, slot) ==> is_unsigned(first, slot));
    lemma_evidence(value, first, owner, types, slot);
}

proof fn lemma_gathered(
    instr: InstModel,
    found: Map<Slot, Evidence>,
    owner: SyntheticFunctionId,
    types: Map<Slot, VariableType>,
    slot: Slot,
)
    requires
        slot_width(types, slot) is Some,
        is_unsigned(found, slot) || compares_in(instr, owner, slot),
    ensures
        is_unsigned(gathered(instr, found, owner, types), slot),
    decreases instr,
{
    match instr {
        InstModel::Assign { dest, src } => match slot_in(dest, owner) {
            Some(target) => lemma_assignment(target, src, found, owner, types, slot),
            None => {
                if is_unsigned(found, slot) || compares(dest, owner, slot) {
                    lemma_evidence(dest, found, owner, types, slot);
                }
                lemma_evidence(src, evidence_with(dest, found, owner, types), owner, types, slot);
            },
        },
        InstModel::Return(Some(value)) => lemma_evidence(value, found, owner, types, slot),
        InstModel::DeclareAndAssignVariable { variable, value, .. } => {
            lemma_assignment(Slot::Variable(variable), value, found, owner, types, slot);
        },
        InstModel::AssignVariable { variable, value } => {
            lemma_assignment(Slot::Variable(variable), value, found, owner, types, slot);
        },
        InstModel::LoadVariable { address, .. } | InstModel::StoreVariable { address, .. } => {
            if is_unsigned(found, slot) {
                lemma_address_keeps(address, found, owner, slot);
            }
            lemma_evidence(address, address_with(address, found, owner), owner, types, slot);
        },
        InstModel::If { condition, then_branch, else_branch } => {
            let first = evidence_with(condition, found, owner, types);
            let second = gathered_list(then_branch, first, owner, types);
            if is_unsigned(found, slot) || compares(condition, owner, slot) {
                lemma_evidence(condition, found, owner, types, slot);
            }
            if is_unsigned(first, slot) || compares_in_list(then_branch, owner, slot) {
                lemma_gathered_list(then_branch, first, owner, types, slot);
            }
            lemma_gathered_list(else_branch, second, owner, types, slot);
        },
        InstModel::While { condition, body, .. } => {
            let first = evidence_with(condition.check(), found, owner, types);
            if is_unsigned(found, slot) || compares(condition.check(), owner, slot) {
                lemma_evidence(condition.check(), found, owner, types, slot);
            }
            lemma_gathered_body(body, first, owner, types, slot);
        },
        InstModel::CallSynthetic { arguments, .. } => {
            lemma_evidence_all(arguments, found, owner, types, slot);
        },
        InstModel::Jump(target) => {
            if is_unsigned(found, slot) {
                lemma_address_keeps(target, found, owner, slot);
            }
            lemma_evidence(target, address_with(target, found, owner), owner, types, slot);
        },
        _ => {},
    }
}

proof fn lemma_gathered_list(
    list: Seq<InstModel>,
    found: Map<Slot, Evidence>,
    owner: SyntheticFunctionId,
    types: Map<Slot, VariableType>,
    slot: Slot,
)
    requires
        slot_width(types, slot) is Some,
        is_unsigned(found, slot) || compares_in_list(list, owner, slot),
    ensures
        is_unsigned(gathered_list(list, found, owner, types), slot),
    decreases list,
{
    if list.len() > 0 {
        let front = list.drop_last();
        if is_unsigned(found, slot) || compares_in_list(front, owner, slot) {
            lemma_gathered_list(front, found, owner, types, slot);
        }
        lemma_gathered(
            list[list.len() - 1],
            gathered_list(front, found, owner, types),
            owner,
            types,
            slot,
        );
    }
}

proof fn lemma_gathered_body(
    list: Seq<(usize, InstModel)>,
    found: Map<Slot, Evidence>,
    owner: SyntheticFunctionId,
    types: Map<Slot, VariableType>,
    slot: Slot,
)
    requires
        slot_width(types, slot) is Some,
        is_unsigned(found, slot) || compares_in_body(list, owner, slot),
    ensures
        is_unsigned(gathered_body(list, found, owner, types), slot),
    decreases list,
{
    if list.len() > 0 {
        let front = list.drop_last();
        if is_unsigned(found, slot) || compares_in_body(front, owner, slot) {
            lemma_gathered_body(front, found, owner, types, slot);
        }
        lemma_gathered(
            list[list.len() - 1].1,
            gathered_body(front, found, owner, types),
            owner,
            types,
            slot,
        );
    }
}

proof fn lemma_all_evidence(
    functions: Seq<FunctionModel>,
    types: Map<Slot, VariableType>,
    index: int,
    count: int,
    slot: Slot,
)
    requires
        slot_width(types, slot) is Some,
        0 <= index < count <= functions.len(),
        compares_in_body(functions[index].body, id_of(index), slot),
    ensures
        is_unsigned(all_evidence(functions, types, count), slot),
    decreases count,
{
    if index < count - 1 {
        lemma_all_evidence(functions, types, index, count - 1, slot);
    }
    lemma_gathered_body(
        functions[count - 1].body,
        all_evidence(functions, types, count - 1),
        id_of(count - 1),
        types,
        slot,
    );
}

proof fn lemma_shared(
    found: Map<Slot, Evidence>,
    copies: Seq<(Slot, Slot)>,
    count: int,
    slot: Slot,
)
    requires
        is_unsigned(found, slot),
    ensures
        is_unsigned(shared_evidence(found, copies, count), slot),
    decreases count,
{
    if count > 0 {
        lemma_shared(found, copies, count - 1, slot);
    }
}

proof fn lemma_spread(
    found: Map<Slot, Evidence>,
    copies: Seq<(Slot, Slot)>,
    rounds: nat,
    slot: Slot,
)
    requires
        is_unsigned(found, slot),
    ensures
        is_unsigned(spread_evidence(found, copies, rounds), slot),
    decreases rounds,
{
    if rounds > 0 {
        lemma_spread(found, copies, (rounds - 1) as nat, slot);
        lemma_shared(
            spread_evidence(found, copies, (rounds - 1) as nat),
            copies,
            copies.len() as int,
            slot,
        );
    }
}

/// A slot of known width that some function compares as an unsigned number is
/// inferred to be an unsigned integer of that width, unless it takes part in an
/// address. It is never inferred to be one without a sign of its own.
pub proof fn law_a_slot_that_is_compared_unsigned_is_unsigned(
    functions: Seq<FunctionModel>,
    index: int,
    slot: Slot,
)
    requires
        0 <= index < functions.len(),
        compares_in_body(functions[index].body, id_of(index), slot),
        slot_width(types_in(functions), slot) is Some,
    ensures
        ({
            let analysis = analysis_of(functions);
            let size = slot_width(types_in(functions), slot)->0;
            let inferred = analysis.typed(slot, types_in(functions)[slot]);
            &&& !(inferred is Integer)
            &&& evidence_at(analysis.evidence, slot).address || inferred
                == VariableType::UnsignedInteger((8 * size) as usize)
        }),
{
    let count = functions.len() as int;
    let types = types_in(functions);
    let copies = all_called(functions, types, all_copied(functions, types, count), count);
    lemma_all_evidence(functions, types, index, count, slot);
    lemma_spread(all_evidence(functions, types, count), copies, copies.len() * 8, slot);
}

} // verus!
