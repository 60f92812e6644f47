//! Propagate constants exposed by control-flow recovery. Loop writes invalidate
//! incoming facts; a constant assignment is removed only when no path reads it.
use super::ir::{
    body_models, function_models, models, FunctionModel, IRBinOpKind, IRExpr, IRInst, InstModel,
    IntegerType, LoopCondition, Program, ProgramModel, SyntheticFunction, VariableId, VariableType,
};
use super::variable_flow::{
    all_reached, flow_of, flow_of_body, flow_of_function, flow_of_list, no_operation, node_models,
    operation_of, reach, Flow, LoopTargets, Node, NodeModel,
};
use super::walks::{find_type, function_types, type_of, types};
use super::weight::{lemma_body_push, lemma_list_push, weight, weight_body, weight_list};
use crate::irt2::ir::IntegerType as Low;
use crate::irt2::values::{
    convert_bits, converted_bits, has_literal, is_width, mask, mask_of, shift, shift_amount,
    signed_bits, signed_value,
};
use crate::table::{KeySet, Table};
use vstd::prelude::*;

verus! {

// ---------------------------------------------------------------------------
// Literals

pub open spec fn unsigned(size: usize) -> IntegerType {
    IntegerType { size, signed: false }
}

/// The literal of a value in so many bytes, which are one, two, four or eight.
pub open spec fn literal_of(value: u64, size: usize) -> IRExpr {
    if size == 1 {
        IRExpr::CU8(value as u8)
    } else if size == 4 {
        IRExpr::CU32(value as u32)
    } else if size == 2 {
        IRExpr::Convert {
            value: Box::new(IRExpr::CU32((value as u16) as u32)),
            source: unsigned(4),
            target: unsigned(2),
        }
    } else {
        IRExpr::CU64(value)
    }
}

fn literal(value: u64, size: usize) -> (res: IRExpr)
    ensures
        res == literal_of(value, size),
{
    match size {
        1 => IRExpr::CU8(value as u8),
        4 => IRExpr::CU32(value as u32),
        2 => IRExpr::Convert {
            value: Box::new(IRExpr::CU32((value as u16) as u32)),
            source: IntegerType { size: 4, signed: false },
            target: IntegerType { size: 2, signed: false },
        },
        _ => IRExpr::CU64(value),
    }
}

pub open spec fn low(ty: IntegerType) -> Low {
    Low { size: ty.size, signed: ty.signed }
}

/// The value of a constant expression, and its width.
pub open spec fn constant_of(expr: IRExpr) -> Option<(u64, usize)>
    decreases expr,
{
    match expr {
        IRExpr::CU8(value) => Some((value as u64, 1)),
        IRExpr::CU32(value) => Some((value as u64, 4)),
        IRExpr::CU64(value) => Some((value, 8)),
        IRExpr::Bool(value) => Some(
            (
                if value {
                    1
                } else {
                    0
                },
                1,
            ),
        ),
        IRExpr::Convert { value, source, target } => match constant_of(*value) {
            Some((bits, _)) => if is_width(source.size) && is_width(target.size) {
                Some((converted_bits(bits, low(source), low(target)), target.size))
            } else {
                None
            },
            None => None,
        },
        _ => None,
    }
}

pub fn constant(expr: &IRExpr) -> (res: Option<(u64, usize)>)
    ensures
        res == constant_of(*expr),
    decreases expr,
{
    match expr {
        IRExpr::CU8(value) => Some((*value as u64, 1)),
        IRExpr::CU32(value) => Some((*value as u64, 4)),
        IRExpr::CU64(value) => Some((*value, 8)),
        IRExpr::Bool(value) => Some(
            (
                if *value {
                    1
                } else {
                    0
                },
                1,
            ),
        ),
        IRExpr::Convert { value, source, target } => match constant(value) {
            Some((bits, _)) => {
                if 1 <= source.size && source.size <= 8 && 1 <= target.size && target.size <= 8 {
                    Some(
                        (
                            convert_bits(
                                bits,
                                Low { size: source.size, signed: source.signed },
                                Low { size: target.size, signed: target.signed },
                            ),
                            target.size,
                        ),
                    )
                } else {
                    None
                }
            },
            None => None,
        },
        _ => None,
    }
}

// ---------------------------------------------------------------------------
// Operations

pub open spec fn is_test(kind: IRBinOpKind) -> bool {
    kind == IRBinOpKind::Eq || kind == IRBinOpKind::Ne || kind == IRBinOpKind::UnsignedLt || kind
        == IRBinOpKind::UnsignedGe || kind == IRBinOpKind::SignedGt || kind == IRBinOpKind::Or
}

pub open spec fn folded_bits(kind: IRBinOpKind, left: u64, right: u64, size: usize) -> u64 {
    let right_bits = right & mask_of(size);
    match kind {
        IRBinOpKind::Add => left.wrapping_add(right_bits),
        IRBinOpKind::Sub => left.wrapping_sub(right_bits),
        IRBinOpKind::Mul => left.wrapping_mul(right_bits),
        IRBinOpKind::Shl => left << shift_amount(right, size),
        IRBinOpKind::Shr => left >> shift_amount(right, size),
        IRBinOpKind::And => left & right_bits,
        _ => left | right_bits,
    }
}

pub open spec fn folded_test(kind: IRBinOpKind, left: u64, right: u64, size: usize) -> bool {
    let right_bits = right & mask_of(size);
    match kind {
        IRBinOpKind::Or => left != 0 || right != 0,
        IRBinOpKind::Eq => left == right_bits,
        IRBinOpKind::Ne => left != right_bits,
        IRBinOpKind::UnsignedLt => left < right_bits,
        IRBinOpKind::UnsignedGe => left >= right_bits,
        _ => signed_value(left, size) > signed_value(right_bits, size),
    }
}

fn fold_bits(kind: IRBinOpKind, left: u64, right: u64, size: usize) -> (res: u64)
    ensures
        res == folded_bits(kind, left, right, size),
{
    let right_bits: u64 = right & mask(size);
    match kind {
        IRBinOpKind::Add => left.wrapping_add(right_bits),
        IRBinOpKind::Sub => left.wrapping_sub(right_bits),
        IRBinOpKind::Mul => left.wrapping_mul(right_bits),
        IRBinOpKind::Shl => left << shift(right, size),
        IRBinOpKind::Shr => left >> shift(right, size),
        IRBinOpKind::And => left & right_bits,
        _ => left | right_bits,
    }
}

fn fold_test(kind: IRBinOpKind, left: u64, right: u64, size: usize) -> (res: bool)
    ensures
        res == folded_test(kind, left, right, size),
{
    let right_bits: u64 = right & mask(size);
    match kind {
        IRBinOpKind::Or => left != 0 || right != 0,
        IRBinOpKind::Eq => left == right_bits,
        IRBinOpKind::Ne => left != right_bits,
        IRBinOpKind::UnsignedLt => left < right_bits,
        IRBinOpKind::UnsignedGe => left >= right_bits,
        _ => signed_bits(left, size) > signed_bits(right_bits, size),
    }
}

/// The width of an operation on constants. A literal on the left takes the width
/// of the right side, except in a shift.
pub open spec fn operation_width(
    kind: IRBinOpKind,
    literal_left: bool,
    literal_right: bool,
    left_size: usize,
    right_size: usize,
) -> usize {
    if literal_left && !literal_right && kind != IRBinOpKind::Shl && kind != IRBinOpKind::Shr {
        right_size
    } else {
        left_size
    }
}

/// An operation whose operands have been folded.
pub open spec fn folded_operation(
    kind: IRBinOpKind,
    lhs: IRExpr,
    rhs: IRExpr,
    literal_left: bool,
    literal_right: bool,
) -> IRExpr {
    let plain = IRExpr::BinOp { kind, lhs: Box::new(lhs), rhs: Box::new(rhs) };
    match (constant_of(lhs), constant_of(rhs)) {
        (Some((a, left_size)), Some((b, right_size))) => {
            let size = operation_width(kind, literal_left, literal_right, left_size, right_size);
            let left = a & mask_of(size);
            if is_test(kind) {
                IRExpr::Bool(folded_test(kind, left, b, size))
            } else if has_literal(size) {
                literal_of(folded_bits(kind, left, b, size) & mask_of(size), size)
            } else {
                plain
            }
        },
        _ => plain,
    }
}

/// The expression with known constants put in and folded.
pub open spec fn folded(expr: IRExpr, known: Map<VariableId, IRExpr>) -> IRExpr
    decreases expr,
{
    match expr {
        IRExpr::Variable(variable) => if known.dom().contains(variable) {
            known[variable]
        } else {
            expr
        },
        IRExpr::BinOp { kind, lhs, rhs } => folded_operation(
            kind,
            folded(*lhs, known),
            folded(*rhs, known),
            constant_of(*lhs) is Some,
            constant_of(*rhs) is Some,
        ),
        IRExpr::Convert { value, source, target } => {
            let made = IRExpr::Convert { value: Box::new(folded(*value, known)), source, target };
            match constant_of(made) {
                Some((bits, size)) => if has_literal(size) {
                    literal_of(bits, size)
                } else {
                    made
                },
                None => made,
            }
        },
        IRExpr::Not(inner) => match folded(*inner, known) {
            IRExpr::Bool(value) => IRExpr::Bool(!value),
            other => IRExpr::Not(Box::new(other)),
        },
        IRExpr::Deref(address) => IRExpr::Deref(Box::new(folded(*address, known))),
        IRExpr::CastUnknownPtr { address, size } => IRExpr::CastUnknownPtr {
            address: Box::new(folded(*address, known)),
            size,
        },
        _ => expr,
    }
}

fn fold_operation(
    kind: IRBinOpKind,
    lhs: IRExpr,
    rhs: IRExpr,
    literal_left: bool,
    literal_right: bool,
) -> (res: IRExpr)
    ensures
        res == folded_operation(kind, lhs, rhs, literal_left, literal_right),
{
    if let (Some((a, left_size)), Some((b, right_size))) = (constant(&lhs), constant(&rhs)) {
        let size: usize = if literal_left && !literal_right && kind != IRBinOpKind::Shl && kind
            != IRBinOpKind::Shr {
            right_size
        } else {
            left_size
        };
        let left: u64 = a & mask(size);
        if matches!(
            kind,
            IRBinOpKind::Eq
                | IRBinOpKind::Ne
                | IRBinOpKind::UnsignedLt
                | IRBinOpKind::UnsignedGe
                | IRBinOpKind::SignedGt
                | IRBinOpKind::Or
        ) {
            return IRExpr::Bool(fold_test(kind, left, b, size));
        }
        if size == 1 || size == 2 || size == 4 || size == 8 {
            return literal(fold_bits(kind, left, b, size) & mask(size), size);
        }
    }
    IRExpr::BinOp { kind, lhs: Box::new(lhs), rhs: Box::new(rhs) }
}

fn expression(expr: &IRExpr, known: &Table<VariableId, IRExpr>) -> (res: IRExpr)
    ensures
        res == folded(*expr, known@),
    decreases expr,
{
    match expr {
        IRExpr::Variable(variable) => match known.get(*variable) {
            Some(value) => value.clone(),
            None => IRExpr::Variable(*variable),
        },
        IRExpr::BinOp { kind, lhs, rhs } => {
            let literal_left: bool = constant(lhs).is_some();
            let literal_right: bool = constant(rhs).is_some();
            fold_operation(
                *kind,
                expression(lhs, known),
                expression(rhs, known),
                literal_left,
                literal_right,
            )
        },
        IRExpr::Convert { value, source, target } => {
            let made = IRExpr::Convert {
                value: Box::new(expression(value, known)),
                source: *source,
                target: *target,
            };
            if let Some((bits, size)) = constant(&made) {
                if size == 1 || size == 2 || size == 4 || size == 8 {
                    return literal(bits, size);
                }
            }
            made
        },
        IRExpr::Not(inner) => match expression(inner, known) {
            IRExpr::Bool(value) => IRExpr::Bool(!value),
            other => IRExpr::Not(Box::new(other)),
        },
        IRExpr::Deref(address) => IRExpr::Deref(Box::new(expression(address, known))),
        IRExpr::CastUnknownPtr { address, size } => IRExpr::CastUnknownPtr {
            address: Box::new(expression(address, known)),
            size: *size,
        },
        _ => expr.clone(),
    }
}

pub open spec fn folded_all(list: Seq<IRExpr>, known: Map<VariableId, IRExpr>) -> Seq<IRExpr> {
    list.map_values(|e: IRExpr| folded(e, known))
}

fn expressions(list: &Vec<IRExpr>, known: &Table<VariableId, IRExpr>) -> (res: Vec<IRExpr>)
    ensures
        res@ == folded_all(list@, known@),
{
    let mut res: Vec<IRExpr> = Vec::new();
    let mut i: usize = 0;
    while i < list.len()
        invariant
            i <= list@.len(),
            res@.len() == i,
            forall|k: int| 0 <= k < i ==> (#[trigger] res@[k]) == folded(list@[k], known@),
        decreases list@.len() - i,
    {
        res.push(expression(&list[i], known));
        i = i + 1;
    }
    assert(res@ =~= folded_all(list@, known@));
    res
}

/// The slots with those that an instruction writes.
pub open spec fn assigned_with(instr: InstModel, writes: Set<VariableId>) -> Set<VariableId>
    decreases instr,
{
    match instr {
        InstModel::Assign { dest, .. } => match dest {
            IRExpr::Variable(variable) => writes.insert(variable),
            _ => writes,
        },
        InstModel::DeclareAndAssignVariable { variable, .. } => writes.insert(variable),
        InstModel::AssignVariable { variable, .. } => writes.insert(variable),
        InstModel::LoadVariable { variable, .. } => writes.insert(variable),
        InstModel::If { then_branch, else_branch, .. } => assigned_with_list(
            else_branch,
            assigned_with_list(then_branch, writes),
        ),
        InstModel::While { body, .. } => assigned_with_body(body, writes),
        _ => writes,
    }
}

pub open spec fn assigned_with_list(
    list: Seq<InstModel>,
    writes: Set<VariableId>,
) -> Set<VariableId>
    decreases list,
{
    if list.len() == 0 {
        writes
    } else {
        assigned_with(list[list.len() - 1], assigned_with_list(list.drop_last(), writes))
    }
}

pub open spec fn assigned_with_body(
    list: Seq<(usize, InstModel)>,
    writes: Set<VariableId>,
) -> Set<VariableId>
    decreases list,
{
    if list.len() == 0 {
        writes
    } else {
        assigned_with(list[list.len() - 1].1, assigned_with_body(list.drop_last(), writes))
    }
}

fn assigned(instr: &IRInst, writes: &mut KeySet<VariableId>)
    ensures
        final(writes)@ == assigned_with(instr.model(), old(writes)@),
    decreases instr,
{
    match instr {
        IRInst::Assign { dest, .. } => {
            if let IRExpr::Variable(variable) = dest {
                writes.insert(*variable);
            }
        },
        IRInst::DeclareAndAssignVariable { variable, .. } => {
            writes.insert(*variable);
        },
        IRInst::AssignVariable { variable, .. } => {
            writes.insert(*variable);
        },
        IRInst::LoadVariable { variable, .. } => {
            writes.insert(*variable);
        },
        IRInst::If { then_branch, else_branch, .. } => {
            assigned_list(then_branch, writes);
            assigned_list(else_branch, writes);
        },
        IRInst::While { body, .. } => {
            assigned_body(body, writes);
        },
        _ => {},
    }
}

fn assigned_list(list: &Vec<IRInst>, writes: &mut KeySet<VariableId>)
    ensures
        final(writes)@ == assigned_with_list(models(list@), old(writes)@),
    decreases list,
{
    let ghost all = models(list@);
    let ghost start = writes@;
    assert(all.subrange(0, 0) =~= Seq::empty());
    let mut i: usize = 0;
    while i < list.len()
        invariant
            i <= list@.len(),
            all == models(list@),
            writes@ == assigned_with_list(all.subrange(0, i as int), start),
        decreases list@.len() - i,
    {
        let ghost prefix = all.subrange(0, i + 1);
        assert(prefix.drop_last() =~= all.subrange(0, i as int));
        assert(decreases_to!(list => list@[i as int]));
        assigned(&list[i], writes);
        i = i + 1;
    }
    assert(all.subrange(0, i as int) =~= all);
}

fn assigned_body(list: &Vec<(usize, IRInst)>, writes: &mut KeySet<VariableId>)
    ensures
        final(writes)@ == assigned_with_body(body_models(list@), old(writes)@),
    decreases list,
{
    let ghost all = body_models(list@);
    let ghost start = writes@;
    assert(all.subrange(0, 0) =~= Seq::empty());
    let mut i: usize = 0;
    while i < list.len()
        invariant
            i <= list@.len(),
            all == body_models(list@),
            writes@ == assigned_with_body(all.subrange(0, i as int), start),
        decreases list@.len() - i,
    {
        let ghost prefix = all.subrange(0, i + 1);
        assert(prefix.drop_last() =~= all.subrange(0, i as int));
        assert(decreases_to!(list => list@[i as int]));
        assigned(&list[i].1, writes);
        i = i + 1;
    }
    assert(all.subrange(0, i as int) =~= all);
}


// ---------------------------------------------------------------------------
// Propagation

/// A value as it is stored in a slot of a type.
pub open spec fn stored(value: IRExpr, ty: Option<VariableType>) -> IRExpr {
    match constant_of(value) {
        Some((bits, _)) => match ty {
            Some(VariableType::Unknown(Some(size))) => if has_literal(size) {
                literal_of(bits, size)
            } else {
                value
            },
            Some(VariableType::Bool) => IRExpr::Bool(bits != 0),
            _ => value,
        },
        None => value,
    }
}

fn store(value: IRExpr, ty: Option<VariableType>) -> (res: IRExpr)
    ensures
        res == stored(value, ty),
{
    if let Some((bits, _)) = constant(&value) {
        match ty {
            Some(VariableType::Unknown(Some(size))) => {
                if size == 1 || size == 2 || size == 4 || size == 8 {
                    return literal(bits, size);
                }
            },
            Some(VariableType::Bool) => {
                return IRExpr::Bool(bits != 0);
            },
            _ => {},
        }
    }
    value
}

/// What is known after a slot got a value.
pub open spec fn known_after(
    variable: VariableId,
    value: IRExpr,
    known: Map<VariableId, IRExpr>,
) -> Map<VariableId, IRExpr> {
    if constant_of(value) is Some {
        known.insert(variable, value)
    } else {
        known.remove(variable)
    }
}

/// What two paths agree on.
pub open spec fn agreed(a: Map<VariableId, IRExpr>, b: Map<VariableId, IRExpr>) -> Map<
    VariableId,
    IRExpr,
> {
    Map::new(
        |v: VariableId| a.dom().contains(v) && b.dom().contains(v) && a[v] == b[v],
        |v: VariableId| a[v],
    )
}

/// An instruction with its constants folded, and what is known after it.
pub open spec fn propagated(
    instr: InstModel,
    known: Map<VariableId, IRExpr>,
    types: Map<VariableId, VariableType>,
) -> (InstModel, Map<VariableId, IRExpr>)
    decreases instr,
{
    match instr {
        InstModel::AssignVariable { variable, value } => {
            let value = stored(folded(value, known), type_of(types, variable));
            (
                InstModel::AssignVariable { variable, value },
                known_after(variable, value, known),
            )
        },
        InstModel::DeclareAndAssignVariable { variable, ty, value } => {
            let value = stored(folded(value, known), type_of(types, variable));
            (
                InstModel::DeclareAndAssignVariable { variable, ty, value },
                known_after(variable, value, known),
            )
        },
        InstModel::Assign { dest, src } => match dest {
            IRExpr::Variable(variable) => {
                let src = stored(folded(src, known), type_of(types, variable));
                (InstModel::Assign { dest, src }, known_after(variable, src, known))
            },
            _ => (
                InstModel::Assign { dest: folded(dest, known), src: folded(src, known) },
                known,
            ),
        },
        InstModel::LoadVariable { variable, address } => (
            InstModel::LoadVariable { variable, address: folded(address, known) },
            known.remove(variable),
        ),
        InstModel::StoreVariable { address, variable } => (
            if known.dom().contains(variable) {
                InstModel::Assign {
                    dest: IRExpr::Deref(Box::new(folded(address, known))),
                    src: known[variable],
                }
            } else {
                InstModel::StoreVariable { address: folded(address, known), variable }
            },
            known,
        ),
        InstModel::If { condition, then_branch, else_branch } => {
            let first = propagated_list(then_branch, known, types);
            let second = propagated_list(else_branch, known, types);
            (
                InstModel::If {
                    condition: folded(condition, known),
                    then_branch: first.0,
                    else_branch: second.0,
                },
                agreed(first.1, second.1),
            )
        },
        InstModel::While { label, entry_offset, condition, body } => {
            let kept = known.remove_keys(assigned_with_body(body, Set::empty()));
            let inner = propagated_body(body, kept, types);
            (
                InstModel::While {
                    label,
                    entry_offset,
                    condition: match condition {
                        LoopCondition::Before { offset, expression } => LoopCondition::Before {
                            offset,
                            expression: folded(expression, kept),
                        },
                        LoopCondition::After { offset, expression } => LoopCondition::After {
                            offset,
                            expression: folded(expression, inner.1),
                        },
                    },
                    body: inner.0,
                },
                kept,
            )
        },
        InstModel::Return(Some(value)) => (InstModel::Return(Some(folded(value, known))), known),
        InstModel::Jump(value) => (InstModel::Jump(folded(value, known)), known),
        InstModel::CallSynthetic { function, arguments } => (
            InstModel::CallSynthetic { function, arguments: folded_all(arguments, known) },
            known,
        ),
        _ => (instr, known),
    }
}

pub open spec fn propagated_list(
    list: Seq<InstModel>,
    known: Map<VariableId, IRExpr>,
    types: Map<VariableId, VariableType>,
) -> (Seq<InstModel>, Map<VariableId, IRExpr>)
    decreases list,
{
    if list.len() == 0 {
        (Seq::empty(), known)
    } else {
        let before = propagated_list(list.drop_last(), known, types);
        let last = propagated(list[list.len() - 1], before.1, types);
        (before.0.push(last.0), last.1)
    }
}

pub open spec fn propagated_body(
    list: Seq<(usize, InstModel)>,
    known: Map<VariableId, IRExpr>,
    types: Map<VariableId, VariableType>,
) -> (Seq<(usize, InstModel)>, Map<VariableId, IRExpr>)
    decreases list,
{
    if list.len() == 0 {
        (Seq::empty(), known)
    } else {
        let before = propagated_body(list.drop_last(), known, types);
        let last = propagated(list[list.len() - 1].1, before.1, types);
        (before.0.push((list[list.len() - 1].0, last.0)), last.1)
    }
}

fn without(known: &Table<VariableId, IRExpr>, dropped: &KeySet<VariableId>) -> (res: Table<
    VariableId,
    IRExpr,
>)
    ensures
        res@ == known@.remove_keys(dropped@),
{
    let keys: Vec<VariableId> = known.keys();
    let mut res: Table<VariableId, IRExpr> = Table::new();
    let mut i: usize = 0;
    while i < keys.len()
        invariant
            i <= keys@.len(),
            forall|k: VariableId| #[trigger] keys@.contains(k) <==> known@.dom().contains(k),
            forall|k: int|
                0 <= k < i && !dropped@.contains(keys@[k]) ==> res@.dom().contains(
                    #[trigger] keys@[k],
                ),
            forall|k: VariableId| #[trigger]
                res@.dom().contains(k) ==> known@.dom().contains(k) && res@[k] == known@[k]
                    && !dropped@.contains(k),
        decreases keys@.len() - i,
    {
        assert(keys@.contains(keys@[i as int]));
        if !dropped.contains(keys[i]) {
            if let Some(value) = known.get(keys[i]) {
                res.insert(keys[i], value.clone());
            }
        }
        i = i + 1;
    }
    proof {
        assert forall|k: VariableId|
            known@.dom().contains(
                k,
            ) && !dropped@.contains(k) implies #[trigger] res@.dom().contains(
        k) by {
            assert(keys@.contains(k));
            let j = choose|j: int| 0 <= j < keys@.len() && keys@[j] == k;
            assert(res@.dom().contains(keys@[j]));
        }
        assert(res@ =~= known@.remove_keys(dropped@));
    }
    res
}

fn copied(known: &Table<VariableId, IRExpr>) -> (res: Table<VariableId, IRExpr>)
    ensures
        res@ == known@,
{
    let res: Table<VariableId, IRExpr> = without(known, &KeySet::new());
    assert(res@ =~= known@);
    res
}

fn forget(known: &mut Table<VariableId, IRExpr>, variable: VariableId)
    ensures
        final(known)@ == old(known)@.remove(variable),
{
    let mut dropped: KeySet<VariableId> = KeySet::new();
    dropped.insert(variable);
    let ghost before = known@;
    *known = without(known, &dropped);
    assert(known@ =~= before.remove(variable));
}

fn agree(a: &Table<VariableId, IRExpr>, b: &Table<VariableId, IRExpr>) -> (res: Table<
    VariableId,
    IRExpr,
>)
    ensures
        res@ == agreed(a@, b@),
{
    let keys: Vec<VariableId> = a.keys();
    let mut dropped: KeySet<VariableId> = KeySet::new();
    let mut i: usize = 0;
    while i < keys.len()
        invariant
            i <= keys@.len(),
            forall|k: VariableId| #[trigger] keys@.contains(k) <==> a@.dom().contains(k),
            forall|k: int|
                0 <= k < i ==> (dropped@.contains(#[trigger] keys@[k]) <==> !agreed(
                    a@,
                    b@,
                ).dom().contains(keys@[k])),
            forall|k: VariableId| #[trigger]
                dropped@.contains(k) ==> !agreed(a@, b@).dom().contains(k),
        decreases keys@.len() - i,
    {
        assert(keys@.contains(keys@[i as int]));
        let same: bool = match (a.get(keys[i]), b.get(keys[i])) {
            (Some(x), Some(y)) => x.same(y),
            _ => false,
        };
        if !same {
            dropped.insert(keys[i]);
        }
        i = i + 1;
    }
    let res: Table<VariableId, IRExpr> = without(a, &dropped);
    proof {
        assert forall|k: VariableId| a@.dom().contains(k) implies (dropped@.contains(k)
            <==> !#[trigger] agreed(a@, b@).dom().contains(k)) by {
            assert(keys@.contains(k));
            let j = choose|j: int| 0 <= j < keys@.len() && keys@[j] == k;
            assert(keys@[j] == k);
        }
        assert(res@ =~= agreed(a@, b@));
    }
    res
}

fn learn(known: &mut Table<VariableId, IRExpr>, variable: VariableId, value: &IRExpr)
    ensures
        final(known)@ == known_after(variable, *value, old(known)@),
{
    if constant(value).is_some() {
        known.insert(variable, value.clone());
    } else {
        forget(known, variable);
    }
}

#[verifier::rlimit(50)]
fn instruction(
    instr: &IRInst,
    known: &mut Table<VariableId, IRExpr>,
    types: &Table<VariableId, VariableType>,
) -> (res: IRInst)
    ensures
        (res.model(), final(known)@) == propagated(instr.model(), old(known)@, types@),
    decreases instr,
{
    match instr {
        IRInst::AssignVariable { variable, value } => {
            let value: IRExpr = store(expression(value, known), find_type(types, *variable));
            learn(known, *variable, &value);
            IRInst::AssignVariable { variable: *variable, value }
        },
        IRInst::DeclareAndAssignVariable { variable, ty, value } => {
            let value: IRExpr = store(expression(value, known), find_type(types, *variable));
            learn(known, *variable, &value);
            IRInst::DeclareAndAssignVariable { variable: *variable, ty: *ty, value }
        },
        IRInst::Assign { dest, src } => match dest {
            IRExpr::Variable(variable) => {
                let src: IRExpr = store(expression(src, known), find_type(types, *variable));
                learn(known, *variable, &src);
                IRInst::Assign { dest: IRExpr::Variable(*variable), src }
            },
            _ => IRInst::Assign { dest: expression(dest, known), src: expression(src, known) },
        },
        IRInst::LoadVariable { variable, address } => {
            let address: IRExpr = expression(address, known);
            forget(known, *variable);
            IRInst::LoadVariable { variable: *variable, address }
        },
        IRInst::StoreVariable { address, variable } => {
            let address: IRExpr = expression(address, known);
            match known.get(*variable) {
                Some(src) => IRInst::Assign {
                    dest: IRExpr::Deref(Box::new(address)),
                    src: src.clone(),
                },
                None => IRInst::StoreVariable { address, variable: *variable },
            }
        },
        IRInst::If { condition, then_branch, else_branch } => {
            let condition: IRExpr = expression(condition, known);
            let mut first: Table<VariableId, IRExpr> = copied(known);
            let mut second: Table<VariableId, IRExpr> = copied(known);
            let then_branch: Vec<IRInst> = branch(then_branch, &mut first, types);
            let else_branch: Vec<IRInst> = branch(else_branch, &mut second, types);
            *known = agree(&first, &second);
            IRInst::If { condition, then_branch, else_branch }
        },
        IRInst::While { label, entry_offset, condition, body } => {
            let mut writes: KeySet<VariableId> = KeySet::new();
            assigned_body(body, &mut writes);
            *known = without(known, &writes);
            let mut local: Table<VariableId, IRExpr> = copied(known);
            let inner: Vec<(usize, IRInst)> = instructions(body, &mut local, types);
            let condition: LoopCondition = match condition {
                LoopCondition::Before { offset, expression: value } => LoopCondition::Before {
                    offset: *offset,
                    expression: expression(value, known),
                },
                LoopCondition::After { offset, expression: value } => LoopCondition::After {
                    offset: *offset,
                    expression: expression(value, &local),
                },
            };
            IRInst::While { label: *label, entry_offset: *entry_offset, condition, body: inner }
        },
        IRInst::Return(Some(value)) => IRInst::Return(Some(expression(value, known))),
        IRInst::Jump(value) => IRInst::Jump(expression(value, known)),
        IRInst::CallSynthetic { function, arguments } => IRInst::CallSynthetic {
            function: *function,
            arguments: expressions(arguments, known),
        },
        _ => instr.clone(),
    }
}

fn branch(
    list: &Vec<IRInst>,
    known: &mut Table<VariableId, IRExpr>,
    types: &Table<VariableId, VariableType>,
) -> (res: Vec<IRInst>)
    ensures
        (models(res@), final(known)@) == propagated_list(models(list@), old(known)@, types@),
    decreases list,
{
    let ghost all = models(list@);
    let ghost start = known@;
    let mut res: Vec<IRInst> = Vec::new();
    assert(all.subrange(0, 0) =~= Seq::empty());
    assert(models(res@) =~= Seq::empty());
    let mut i: usize = 0;
    while i < list.len()
        invariant
            i <= list@.len(),
            all == models(list@),
            (models(res@), known@) == propagated_list(
                all.subrange(0, i as int),
                start,
                types@,
            ),
        decreases list@.len() - i,
    {
        let ghost prefix = all.subrange(0, i + 1);
        assert(prefix.drop_last() =~= all.subrange(0, i as int));
        assert(decreases_to!(list => list@[i as int]));
        let ghost before = models(res@);
        let made: IRInst = instruction(&list[i], known, types);
        let ghost model = made.model();
        res.push(made);
        assert(models(res@) =~= before.push(model));
        i = i + 1;
    }
    assert(all.subrange(0, i as int) =~= all);
    res
}

fn instructions(
    list: &Vec<(usize, IRInst)>,
    known: &mut Table<VariableId, IRExpr>,
    types: &Table<VariableId, VariableType>,
) -> (res: Vec<(usize, IRInst)>)
    ensures
        (body_models(res@), final(known)@) == propagated_body(
            body_models(list@),
            old(known)@,
            types@,
        ),
    decreases list,
{
    let ghost all = body_models(list@);
    let ghost start = known@;
    let mut res: Vec<(usize, IRInst)> = Vec::new();
    assert(all.subrange(0, 0) =~= Seq::empty());
    assert(body_models(res@) =~= Seq::empty());
    let mut i: usize = 0;
    while i < list.len()
        invariant
            i <= list@.len(),
            all == body_models(list@),
            (body_models(res@), known@) == propagated_body(
                all.subrange(0, i as int),
                start,
                types@,
            ),
        decreases list@.len() - i,
    {
        let ghost prefix = all.subrange(0, i + 1);
        assert(prefix.drop_last() =~= all.subrange(0, i as int));
        assert(decreases_to!(list => list@[i as int]));
        let ghost before = body_models(res@);
        let made: IRInst = instruction(&list[i].1, known, types);
        let ghost model = made.model();
        res.push((list[i].0, made));
        assert(body_models(res@) =~= before.push((list@[i as int].0, model)));
        i = i + 1;
    }
    assert(all.subrange(0, i as int) =~= all);
    res
}

// ---------------------------------------------------------------------------
// Dead assignments

/// The nodes that the successors of a node are.
pub open spec fn successor_marks(nodes: Seq<NodeModel>, id: int) -> Seq<bool> {
    Seq::new(nodes.len(), |k: int| nodes[id].successors.contains(k as usize))
}

/// The nodes that read or write a slot.
pub open spec fn mention_marks(nodes: Seq<NodeModel>, variable: VariableId) -> Seq<bool> {
    Seq::new(nodes.len(), |k: int| nodes[k].operation.mentions(variable))
}

/// Whether a node writes a value, computed without reading memory, that no path
/// from it reads.
pub open spec fn is_dead(nodes: Seq<NodeModel>, id: int) -> bool {
    let op = nodes[id].operation;
    &&& op.pure_write
    &&& op.write is Some
    &&& {
        let reached = all_reached(
            nodes,
            successor_marks(nodes, id),
            mention_marks(nodes, op.write->0),
        );
        !exists|k: int|
            0 <= k < nodes.len() && reached[k] && (#[trigger] nodes[k]).operation.reads(
                op.write->0,
            )
    }
}

/// The dead nodes.
pub open spec fn dead_nodes(nodes: Seq<NodeModel>) -> Seq<bool> {
    Seq::new(nodes.len(), |k: int| is_dead(nodes, k))
}

fn find_dead(nodes: &Vec<Node>) -> (res: Vec<bool>)
    ensures
        res@ == dead_nodes(node_models(nodes@)),
{
    let mut res: Vec<bool> = Vec::new();
    let mut i: usize = 0;
    while i < nodes.len()
        invariant
            i <= nodes@.len(),
            res@.len() == i,
            forall|k: int|
                0 <= k < i ==> (#[trigger] res@[k]) == is_dead(node_models(nodes@), k),
        decreases nodes@.len() - i,
    {
        let dead: bool = dead(nodes, i);
        res.push(dead);
        i = i + 1;
    }
    assert(res@ =~= dead_nodes(node_models(nodes@)));
    res
}

fn dead(nodes: &Vec<Node>, id: usize) -> (res: bool)
    requires
        id < nodes@.len(),
    ensures
        res == is_dead(node_models(nodes@), id as int),
{
    let ghost all = node_models(nodes@);
    assert(all[id as int] == nodes@[id as int].model());
    if !nodes[id].operation.pure_write {
        return false;
    }
    let variable: VariableId = match nodes[id].operation.write {
        Some(variable) => variable,
        None => return false,
    };
    let mut marks: Vec<bool> = Vec::new();
    let mut stops: Vec<bool> = Vec::new();
    let mut i: usize = 0;
    while i < nodes.len()
        invariant
            i <= nodes@.len(),
            id < nodes@.len(),
            all == node_models(nodes@),
            marks@.len() == i,
            stops@.len() == i,
            forall|k: int|
                0 <= k < i ==> (#[trigger] marks@[k]) == all[id as int].successors.contains(
                    k as usize,
                ),
            forall|k: int|
                0 <= k < i ==> (#[trigger] stops@[k]) == all[k].operation.mentions(variable),
        decreases nodes@.len() - i,
    {
        assert(all[i as int] == nodes@[i as int].model());
        assert(all[id as int] == nodes@[id as int].model());
        marks.push(holds(&nodes[id].successors, i));
        let written: bool = match nodes[i].operation.write {
            Some(written) => written == variable,
            None => false,
        };
        stops.push(written || nodes[i].operation.reads(variable));
        i = i + 1;
    }
    assert(marks@ =~= successor_marks(all, id as int));
    assert(stops@ =~= mention_marks(all, variable));
    let reached: Vec<bool> = reach(nodes, marks, &stops);
    let mut i: usize = 0;
    while i < nodes.len()
        invariant
            i <= nodes@.len(),
            all == node_models(nodes@),
            id < nodes@.len(),
            all[id as int].operation.write == Some(variable),
            reached@.len() == nodes@.len(),
            reached@ == all_reached(
                all,
                successor_marks(all, id as int),
                mention_marks(all, variable),
            ),
            forall|k: int|
                0 <= k < i ==> !(reached@[k] && (#[trigger] all[k]).operation.reads(variable)),
        decreases nodes@.len() - i,
    {
        assert(all[i as int] == nodes@[i as int].model());
        if reached[i] && nodes[i].operation.reads(variable) {
            return false;
        }
        i = i + 1;
    }
    true
}

fn holds(list: &Vec<usize>, item: usize) -> (res: bool)
    ensures
        res == list@.contains(item),
{
    let mut i: usize = 0;
    while i < list.len()
        invariant
            i <= list@.len(),
            forall|k: int| 0 <= k < i ==> list@[k] != item,
        decreases list@.len() - i,
    {
        if list[i] == item {
            assert(list@.contains(item));
            return true;
        }
        i = i + 1;
    }
    false
}

pub open spec fn marked(dead: Seq<bool>, id: int) -> bool {
    0 <= id < dead.len() && dead[id]
}

/// What is left of an instruction whose assignment is dead.
pub open spec fn undone(instr: InstModel) -> Option<InstModel> {
    match instr {
        InstModel::DeclareAndAssignVariable { variable, ty, .. } => Some(
            InstModel::DeclareVariable { variable, ty },
        ),
        _ => None,
    }
}

/// What is left of an instruction, and the number of the node after its own.
/// Nodes are numbered as in the flow of the function.
pub open spec fn pruned(instr: InstModel, dead: Seq<bool>, id: nat) -> (Option<InstModel>, nat)
    decreases instr,
{
    match instr {
        InstModel::If { condition, then_branch, else_branch } => {
            let first = pruned_list(then_branch, dead, id);
            let second = pruned_list(else_branch, dead, first.1);
            (
                Some(
                    InstModel::If {
                        condition,
                        then_branch: first.0,
                        else_branch: second.0,
                    },
                ),
                second.1 + 1,
            )
        },
        InstModel::While { label, entry_offset, condition, body } => {
            let inner = pruned_body(
                body,
                dead,
                if condition is Before {
                    id + 1
                } else {
                    id + 2
                },
            );
            (
                Some(InstModel::While { label, entry_offset, condition, body: inner.0 }),
                inner.1,
            )
        },
        _ => (
            if marked(dead, id as int) {
                undone(instr)
            } else {
                Some(instr)
            },
            id + 1,
        ),
    }
}

pub open spec fn pruned_list(list: Seq<InstModel>, dead: Seq<bool>, id: nat) -> (
    Seq<InstModel>,
    nat,
)
    decreases list,
{
    if list.len() == 0 {
        (Seq::empty(), id)
    } else {
        let last = pruned(list[list.len() - 1], dead, id);
        let before = pruned_list(list.drop_last(), dead, last.1);
        (
            match last.0 {
                Some(instr) => before.0.push(instr),
                None => before.0,
            },
            before.1,
        )
    }
}

pub open spec fn pruned_body(list: Seq<(usize, InstModel)>, dead: Seq<bool>, id: nat) -> (
    Seq<(usize, InstModel)>,
    nat,
)
    decreases list,
{
    if list.len() == 0 {
        (Seq::empty(), id)
    } else {
        let last = pruned(list[list.len() - 1].1, dead, id);
        let before = pruned_body(list.drop_last(), dead, last.1);
        (
            match last.0 {
                Some(instr) => before.0.push((list[list.len() - 1].0, instr)),
                None => before.0,
            },
            before.1,
        )
    }
}

/// The number of the next node, up to the number of nodes.
pub open spec fn at_most(id: nat, dead: Seq<bool>) -> int {
    if id <= dead.len() {
        id as int
    } else {
        dead.len() as int
    }
}

fn advance(id: usize, dead: &Vec<bool>) -> (res: usize)
    requires
        id <= dead@.len(),
    ensures
        forall|n: nat| id == #[trigger] at_most(n, dead@) ==> res == at_most(n + 1, dead@),
        res <= dead@.len(),
{
    if id < dead.len() {
        id + 1
    } else {
        id
    }
}

#[verifier::rlimit(50)]
fn remove(instr: &IRInst, dead: &Vec<bool>, id: usize, Ghost(number): Ghost<nat>) -> (res: (
    Option<IRInst>,
    usize,
))
    requires
        id == at_most(number, dead@),
    ensures
        ({
            let made = pruned(instr.model(), dead@, number);
            &&& res.1 == at_most(made.1, dead@)
            &&& match res.0 {
                Some(kept) => made.0 == Some(kept.model()),
                None => made.0 is None,
            }
        }),
    decreases instr,
{
    match instr {
        IRInst::If { condition, then_branch, else_branch } => {
            let ghost first = pruned_list(models(then_branch@), dead@, number);
            let ghost second = pruned_list(models(else_branch@), dead@, first.1);
            let (then_branch, id) = remove_list(then_branch, dead, id, Ghost(number));
            let (else_branch, id) = remove_list(else_branch, dead, id, Ghost(first.1));
            assert(id == at_most(second.1, dead@));
            let next: usize = advance(id, dead);
            (
                Some(IRInst::If { condition: condition.clone(), then_branch, else_branch }),
                next,
            )
        },
        IRInst::While { label, entry_offset, condition, body } => {
            let mut id: usize = advance(id, dead);
            assert(id == at_most(number + 1, dead@));
            let ghost mut inner: nat = number + 1;
            if let LoopCondition::After { .. } = condition {
                id = advance(id, dead);
                proof {
                    inner = number + 2;
                }
            }
            let (body, id) = remove_body(body, dead, id, Ghost(inner));
            (
                Some(
                    IRInst::While {
                        label: *label,
                        entry_offset: *entry_offset,
                        condition: condition.clone(),
                        body,
                    },
                ),
                id,
            )
        },
        _ => {
            let next: usize = advance(id, dead);
            if id < dead.len() && dead[id] {
                if let IRInst::DeclareAndAssignVariable { variable, ty, .. } = instr {
                    return (
                        Some(IRInst::DeclareVariable { variable: *variable, ty: *ty }),
                        next,
                    );
                }
                (None, next)
            } else {
                (Some(instr.clone()), next)
            }
        },
    }
}

fn remove_list(list: &Vec<IRInst>, dead: &Vec<bool>, id: usize, Ghost(number): Ghost<nat>) -> (res:
    (Vec<IRInst>, usize))
    requires
        id == at_most(number, dead@),
    ensures
        ({
            let made = pruned_list(models(list@), dead@, number);
            &&& res.1 == at_most(made.1, dead@)
            &&& models(res.0@) == made.0
        }),
    decreases list,
{
    let ghost all = models(list@);
    let ghost total = pruned_list(all, dead@, number);
    let mut back: Vec<IRInst> = Vec::new();
    let mut id: usize = id;
    let ghost mut number: nat = number;
    let mut i: usize = list.len();
    assert(all.subrange(0, i as int) =~= all);
    assert(models(back@).reverse() =~= Seq::empty());
    proof {
        let rest = pruned_list(all.subrange(0, i as int), dead@, number);
        assert(rest.0 + models(back@).reverse() =~= total.0);
    }
    while i > 0
        invariant
            i <= list@.len(),
            all == models(list@),
            id == at_most(number, dead@),
            ({
                let rest = pruned_list(all.subrange(0, i as int), dead@, number);
                &&& rest.0 + models(back@).reverse() == total.0
                &&& rest.1 == total.1
            }),
        decreases i,
    {
        i = i - 1;
        let ghost prefix = all.subrange(0, i + 1);
        assert(prefix.drop_last() =~= all.subrange(0, i as int));
        assert(decreases_to!(list => list@[i as int]));
        let ghost last = pruned(all[i as int], dead@, number);
        let ghost before = models(back@);
        let ghost rest = pruned_list(all.subrange(0, i as int), dead@, last.1);
        let (kept, next) = remove(&list[i], dead, id, Ghost(number));
        if let Some(kept) = kept {
            let ghost model = kept.model();
            back.push(kept);
            assert(models(back@) =~= before.push(model));
            assert(rest.0 + models(back@).reverse() =~= rest.0.push(model) + before.reverse());
        }
        id = next;
        proof {
            number = last.1;
        }
    }
    assert(all.subrange(0, 0) =~= Seq::empty());
    let ghost model = models(back@);
    let mut res: Vec<IRInst> = Vec::new();
    let mut j: usize = back.len();
    assert(models(res@) =~= model.subrange(j as int, model.len() as int).reverse());
    while j > 0
        invariant
            j <= back@.len(),
            model == models(back@),
            models(res@) == model.subrange(j as int, model.len() as int).reverse(),
        decreases j,
    {
        j = j - 1;
        let ghost before = models(res@);
        res.push(back[j].clone());
        assert(models(res@) =~= before.push(model[j as int]));
        assert(models(res@) =~= model.subrange(j as int, model.len() as int).reverse());
    }
    assert(model.subrange(0, model.len() as int) =~= model);
    assert(models(res@) =~= total.0);
    (res, id)
}

fn remove_body(
    list: &Vec<(usize, IRInst)>,
    dead: &Vec<bool>,
    id: usize,
    Ghost(number): Ghost<nat>,
) -> (res: (Vec<(usize, IRInst)>, usize))
    requires
        id == at_most(number, dead@),
    ensures
        ({
            let made = pruned_body(body_models(list@), dead@, number);
            &&& res.1 == at_most(made.1, dead@)
            &&& body_models(res.0@) == made.0
        }),
    decreases list,
{
    let ghost all = body_models(list@);
    let ghost total = pruned_body(all, dead@, number);
    let mut back: Vec<(usize, IRInst)> = Vec::new();
    let mut id: usize = id;
    let ghost mut number: nat = number;
    let mut i: usize = list.len();
    assert(all.subrange(0, i as int) =~= all);
    assert(body_models(back@).reverse() =~= Seq::empty());
    proof {
        let rest = pruned_body(all.subrange(0, i as int), dead@, number);
        assert(rest.0 + body_models(back@).reverse() =~= total.0);
    }
    while i > 0
        invariant
            i <= list@.len(),
            all == body_models(list@),
            id == at_most(number, dead@),
            ({
                let rest = pruned_body(all.subrange(0, i as int), dead@, number);
                &&& rest.0 + body_models(back@).reverse() == total.0
                &&& rest.1 == total.1
            }),
        decreases i,
    {
        i = i - 1;
        let ghost prefix = all.subrange(0, i + 1);
        assert(prefix.drop_last() =~= all.subrange(0, i as int));
        assert(decreases_to!(list => list@[i as int]));
        let ghost last = pruned(all[i as int].1, dead@, number);
        let ghost before = body_models(back@);
        let ghost rest = pruned_body(all.subrange(0, i as int), dead@, last.1);
        let (kept, next) = remove(&list[i].1, dead, id, Ghost(number));
        if let Some(kept) = kept {
            let ghost model = (list@[i as int].0, kept.model());
            back.push((list[i].0, kept));
            assert(body_models(back@) =~= before.push(model));
            assert(rest.0 + body_models(back@).reverse() =~= rest.0.push(model)
                + before.reverse());
        }
        id = next;
        proof {
            number = last.1;
        }
    }
    assert(all.subrange(0, 0) =~= Seq::empty());
    let ghost model = body_models(back@);
    let mut res: Vec<(usize, IRInst)> = Vec::new();
    let mut j: usize = back.len();
    assert(body_models(res@) =~= model.subrange(j as int, model.len() as int).reverse());
    while j > 0
        invariant
            j <= back@.len(),
            model == body_models(back@),
            body_models(res@) == model.subrange(j as int, model.len() as int).reverse(),
        decreases j,
    {
        j = j - 1;
        let ghost before = body_models(res@);
        res.push((back[j].0, back[j].1.clone()));
        assert(body_models(res@) =~= before.push(model[j as int]));
        assert(body_models(res@) =~= model.subrange(j as int, model.len() as int).reverse());
    }
    assert(model.subrange(0, model.len() as int) =~= model);
    assert(body_models(res@) =~= total.0);
    (res, id)
}

pub open spec fn has_dead(function: FunctionModel) -> bool {
    exists|k: int| #[trigger] marked(dead_nodes(flow_of_function(function).nodes), k)
}

/// The weight of what is left of an instruction.
spec fn weight_left(left: Option<InstModel>) -> nat {
    match left {
        Some(instr) => weight(instr),
        None => 0,
    }
}

/// Whether no node from one number up to another is both marked and a write.
spec fn writes_stay(nodes: Seq<NodeModel>, dead: Seq<bool>, from: int, to: int) -> bool {
    forall|k: int|
        from <= k < to && marked(dead, k) ==> (#[trigger] nodes[k]).operation.write is None
}

/// Whether the nodes start with others, up to their successors.
spec fn extends(nodes: Seq<NodeModel>, others: Seq<NodeModel>) -> bool {
    &&& others.len() <= nodes.len()
    &&& forall|k: int|
        0 <= k < others.len() ==> (#[trigger] nodes[k]).operation == others[k].operation
}

/// Nodes are numbered alike in the flow and where dead assignments are removed, so
/// each dead node takes a weight away.
proof fn lemma_pruned_weight(
    instr: InstModel,
    next: usize,
    loops: Seq<LoopTargets>,
    nodes: Seq<NodeModel>,
    dead: Seq<bool>,
)
    ensures
        ({
            let made = flow_of(instr, next, loops, nodes).1;
            let left = pruned(instr, dead, nodes.len());
            &&& extends(made, nodes)
            &&& left.1 == made.len()
            &&& weight_left(left.0) <= weight(instr)
            &&& writes_stay(made, dead, nodes.len() as int, made.len() as int) || weight_left(
                left.0,
            ) < weight(instr)
        }),
    decreases instr,
{
    let op = operation_of(instr);
    let made = flow_of(instr, next, loops, nodes).1;
    match instr {
        InstModel::If { then_branch, else_branch, .. } => {
            let first = flow_of_list(then_branch, next, loops, nodes);
            let second = flow_of_list(else_branch, next, loops, first.1);
            lemma_pruned_weight_list(then_branch, next, loops, nodes, dead);
            lemma_pruned_weight_list(else_branch, next, loops, first.1, dead);
            assert(extends(made, second.1));
            if writes_stay(first.1, dead, nodes.len() as int, first.1.len() as int) && writes_stay(
                second.1,
                dead,
                first.1.len() as int,
                second.1.len() as int,
            ) {
                assert forall|k: int|
                    nodes.len() <= k < made.len() && marked(dead, k) implies (
                #[trigger] made[k]).operation.write is None by {
                    if k < first.1.len() {
                        assert(second.1[k].operation == first.1[k].operation);
                    }
                    if k < second.1.len() {
                        assert(made[k].operation == second.1[k].operation);
                    }
                }
            }
        },
        InstModel::While { label, condition, body, .. } => {
            let check = nodes.len() as usize;
            let checked = nodes.push(NodeModel { operation: op, successors: Seq::empty() });
            match condition {
                LoopCondition::Before { .. } => {
                    let targets = loops.push(
                        LoopTargets { label, break_to: next, continue_to: check },
                    );
                    let inner = flow_of_body(body, check, targets, checked);
                    lemma_pruned_weight_body(body, check, targets, checked, dead);
                    lemma_inner(nodes, checked, inner.1, made, dead);
                },
                LoopCondition::After { .. } => {
                    let start = checked.len() as usize;
                    let started = checked.push(
                        NodeModel { operation: no_operation(), successors: Seq::empty() },
                    );
                    let targets = loops.push(
                        LoopTargets { label, break_to: next, continue_to: start },
                    );
                    let inner = flow_of_body(body, check, targets, started);
                    lemma_pruned_weight_body(body, check, targets, started, dead);
                    lemma_inner(nodes, started, inner.1, made, dead);
                },
            }
        },
        _ => {
            assert(made.len() == nodes.len() + 1);
            assert(made[nodes.len() as int].operation == op);
        },
    }
}

/// The nodes of a loop, from those of its header and its body.
proof fn lemma_inner(
    nodes: Seq<NodeModel>,
    header: Seq<NodeModel>,
    inner: Seq<NodeModel>,
    made: Seq<NodeModel>,
    dead: Seq<bool>,
)
    requires
        extends(header, nodes),
        extends(inner, header),
        extends(made, inner),
        made.len() == inner.len(),
        forall|k: int|
            nodes.len() <= k < header.len() ==> (#[trigger] header[k]).operation.write is None,
    ensures
        extends(made, nodes),
        writes_stay(inner, dead, header.len() as int, inner.len() as int) ==> writes_stay(
            made,
            dead,
            nodes.len() as int,
            made.len() as int,
        ),
{
    assert forall|k: int| 0 <= k < nodes.len() implies (#[trigger] made[k]).operation
        == nodes[k].operation by {
        assert(inner[k].operation == header[k].operation);
        assert(header[k].operation == nodes[k].operation);
    }
    if writes_stay(inner, dead, header.len() as int, inner.len() as int) {
        assert forall|k: int| nodes.len() <= k < made.len() && marked(dead, k) implies (
        #[trigger] made[k]).operation.write is None by {
            assert(made[k].operation == inner[k].operation);
            if k < header.len() {
                assert(inner[k].operation == header[k].operation);
            }
        }
    }
}

proof fn lemma_pruned_weight_list(
    list: Seq<InstModel>,
    next: usize,
    loops: Seq<LoopTargets>,
    nodes: Seq<NodeModel>,
    dead: Seq<bool>,
)
    ensures
        ({
            let made = flow_of_list(list, next, loops, nodes).1;
            let left = pruned_list(list, dead, nodes.len());
            &&& extends(made, nodes)
            &&& left.1 == made.len()
            &&& weight_list(left.0) <= weight_list(list)
            &&& writes_stay(made, dead, nodes.len() as int, made.len() as int) || weight_list(
                left.0,
            ) < weight_list(list)
        }),
    decreases list,
{
    if list.len() > 0 {
        let item = list[list.len() - 1];
        let last = flow_of(item, next, loops, nodes);
        let made = flow_of_list(list, next, loops, nodes).1;
        let left = pruned(item, dead, nodes.len());
        let before = pruned_list(list.drop_last(), dead, left.1);
        lemma_pruned_weight(item, next, loops, nodes, dead);
        lemma_pruned_weight_list(list.drop_last(), last.0, loops, last.1, dead);
        if let Some(instr) = left.0 {
            lemma_list_push(before.0, instr);
        }
        lemma_joined(nodes, last.1, made, dead);
    }
}

proof fn lemma_pruned_weight_body(
    list: Seq<(usize, InstModel)>,
    next: usize,
    loops: Seq<LoopTargets>,
    nodes: Seq<NodeModel>,
    dead: Seq<bool>,
)
    ensures
        ({
            let made = flow_of_body(list, next, loops, nodes).1;
            let left = pruned_body(list, dead, nodes.len());
            &&& extends(made, nodes)
            &&& left.1 == made.len()
            &&& weight_body(left.0) <= weight_body(list)
            &&& writes_stay(made, dead, nodes.len() as int, made.len() as int) || weight_body(
                left.0,
            ) < weight_body(list)
        }),
    decreases list,
{
    if list.len() > 0 {
        let item = list[list.len() - 1];
        let last = flow_of(item.1, next, loops, nodes);
        let made = flow_of_body(list, next, loops, nodes).1;
        let left = pruned(item.1, dead, nodes.len());
        let before = pruned_body(list.drop_last(), dead, left.1);
        lemma_pruned_weight(item.1, next, loops, nodes, dead);
        lemma_pruned_weight_body(list.drop_last(), last.0, loops, last.1, dead);
        if let Some(instr) = left.0 {
            lemma_body_push(before.0, (item.0, instr));
        }
        lemma_joined(nodes, last.1, made, dead);
    }
}

/// The nodes of an instruction and of those before it.
proof fn lemma_joined(
    nodes: Seq<NodeModel>,
    last: Seq<NodeModel>,
    made: Seq<NodeModel>,
    dead: Seq<bool>,
)
    requires
        extends(last, nodes),
        extends(made, last),
    ensures
        extends(made, nodes),
        writes_stay(last, dead, nodes.len() as int, last.len() as int) && writes_stay(
            made,
            dead,
            last.len() as int,
            made.len() as int,
        ) ==> writes_stay(made, dead, nodes.len() as int, made.len() as int),
{
    assert forall|k: int| 0 <= k < nodes.len() implies (#[trigger] made[k]).operation
        == nodes[k].operation by {
        assert(made[k].operation == last[k].operation);
    }
    if writes_stay(last, dead, nodes.len() as int, last.len() as int) && writes_stay(
        made,
        dead,
        last.len() as int,
        made.len() as int,
    ) {
        assert forall|k: int| nodes.len() <= k < made.len() && marked(dead, k) implies (
        #[trigger] made[k]).operation.write is None by {
            if k < last.len() {
                assert(made[k].operation == last[k].operation);
            }
        }
    }
}

/// The function without its dead assignments.
pub open spec fn without_dead(function: FunctionModel) -> FunctionModel {
    FunctionModel {
        body: pruned_body(function.body, dead_nodes(flow_of_function(function).nodes), 1).0,
        ..function
    }
}

/// Removing dead assignments makes a function lighter.
pub proof fn lemma_cleaned_weight(function: FunctionModel)
    ensures
        has_dead(function) ==> weight_body(without_dead(function).body) < weight_body(
            function.body,
        ),
{
    if has_dead(function) {
        let nodes = flow_of_function(function).nodes;
        let dead = dead_nodes(nodes);
        let start = seq![NodeModel { operation: no_operation(), successors: Seq::empty() }];
        lemma_pruned_weight_body(function.body, 0, Seq::empty(), start, dead);
        let k = choose|k: int| #[trigger] marked(dead, k);
        assert(is_dead(nodes, k));
        assert(nodes[0].operation == start[0].operation);
        assert(k != 0);
        assert(!writes_stay(nodes, dead, 1, nodes.len() as int)) by {
            assert(nodes[k].operation.write is Some);
        }
    }
}

/// The function without its dead assignments, and those that become dead by their
/// removal, until there is none left.
pub open spec fn cleaned(function: FunctionModel) -> FunctionModel
    decreases weight_body(function.body),
{
    proof {
        lemma_cleaned_weight(function);
    }
    if !has_dead(function) {
        function
    } else {
        cleaned(without_dead(function))
    }
}

/// No dead assignment is left in a cleaned function.
pub proof fn law_no_dead_assignment_is_left(function: FunctionModel)
    ensures
        !has_dead(cleaned(function)),
        cleaned(cleaned(function)) == cleaned(function),
    decreases weight_body(function.body),
{
    lemma_cleaned_weight(function);
    if has_dead(function) {
        law_no_dead_assignment_is_left(without_dead(function));
    }
}

/// The body of a function with its constants folded and without assignments that
/// nothing reads.
pub open spec fn body_folded(function: FunctionModel) -> Seq<(usize, InstModel)> {
    cleaned(
        FunctionModel {
            body: propagated_body(function.body, Map::empty(), function_types(function)).0,
            ..function
        },
    ).body
}

fn any_marked(dead: &Vec<bool>) -> (res: bool)
    ensures
        res == exists|k: int| #[trigger] marked(dead@, k),
{
    let mut i: usize = 0;
    while i < dead.len()
        invariant
            i <= dead@.len(),
            forall|k: int| 0 <= k < i ==> !#[trigger] marked(dead@, k),
        decreases dead@.len() - i,
    {
        if dead[i] {
            assert(marked(dead@, i as int));
            return true;
        }
        i = i + 1;
    }
    false
}

fn fold_function(function: &SyntheticFunction) -> (res: Vec<(usize, IRInst)>)
    ensures
        body_models(res@) == body_folded(function.model()),
{
    let types: Table<VariableId, VariableType> = types(function);
    let mut known: Table<VariableId, IRExpr> = Table::new();
    let body: Vec<(usize, IRInst)> = instructions(&function.body, &mut known, &types);
    let mut current = SyntheticFunction {
        entry_offset: function.entry_offset,
        parameters: function.copied_parameters(),
        body,
    };
    let ghost folded = current.model();
    let mut going: bool = true;
    while going
        invariant
            going ==> cleaned(current.model()) == cleaned(folded),
            !going ==> current.model() == cleaned(folded),
            folded == (FunctionModel {
                body: propagated_body(
                    function.model().body,
                    Map::empty(),
                    function_types(function.model()),
                ).0,
                ..function.model()
            }),
        decreases weight_body(current.model().body), going as int,
    {
        let flow: Flow = Flow::from_function(&current);
        let dead: Vec<bool> = find_dead(&flow.nodes);
        if any_marked(&dead) {
            assert(flow.nodes@.len() > 0) by {
                let k = choose|k: int| #[trigger] marked(dead@, k);
                assert(dead@.len() > 0);
            }
            let ghost before = current.model();
            let (body, _) = remove_body(&current.body, &dead, 1, Ghost(1));
            current.body = body;
            proof {
                assert(current.model() == without_dead(before));
                lemma_cleaned_weight(before);
            }
        } else {
            going = false;
        }
    }
    current.body
}

pub open spec fn function_constant_folded(function: FunctionModel) -> FunctionModel {
    FunctionModel { body: body_folded(function), ..function }
}

pub open spec fn program_constant_folded(program: ProgramModel) -> ProgramModel {
    ProgramModel {
        functions: program.functions.map_values(|f: FunctionModel| function_constant_folded(f)),
        ..program
    }
}

/// Propagates constants, and removes assignments that nothing reads.
pub fn run(program: &mut Program)
    ensures
        final(program).model() == program_constant_folded(old(program).model()),
{
    let ghost before = function_models(program.functions@);
    let ghost initial = *program;
    let total: usize = program.functions.len();
    let mut i: usize = 0;
    while i < total
        invariant
            i <= total,
            total == program.functions@.len(),
            total == before.len(),
            *program == (Program { functions: program.functions, ..initial }),
            forall|k: int|
                0 <= k < i ==> (#[trigger] program.functions@[k]).model() == function_constant_folded(
                    before[k],
                ),
            forall|k: int|
                i <= k < total ==> (#[trigger] program.functions@[k]).model() == before[k],
        decreases total - i,
    {
        let body: Vec<(usize, IRInst)> = fold_function(&program.functions[i]);
        program.functions[i].body = body;
        i = i + 1;
    }
    assert(program.model().functions =~= program_constant_folded(initial.model()).functions);
}

} // verus!
