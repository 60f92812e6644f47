//! Turns the loops of tier 3 into loops with a check before or after their body.
use super::ir::{
    body_models, models, DataId, IRBinOpKind, IRExpr, IRInst, InstModel, IntegerType, LoopCondition,
    LoopId, SyntheticFunctionId, VariableId, VariableType,
};
use super::loops::{
    contains_loop, continues_body, continues_here_body, declares, declares_list, declares_variable,
    declares_variable_list, exit_count_body, exits_body, holds_loop, instruction_reads,
    instruction_reads_list, is_pure, pure_expression, read_variables, read_with_body,
    read_with_list, variables_with,
};
use super::walks::{mentions, negate, negated, reads_variable};
use crate::irt3::ir as t3;
use crate::table::KeySet;
use vstd::prelude::*;

verus! {

pub open spec fn function_of(id: t3::SyntheticFunctionId) -> SyntheticFunctionId {
    SyntheticFunctionId { id: id.id }
}

pub fn function_id(id: t3::SyntheticFunctionId) -> (res: SyntheticFunctionId)
    ensures
        res == function_of(id),
{
    SyntheticFunctionId { id: id.id }
}

pub open spec fn variable_of(id: t3::VariableId) -> VariableId {
    VariableId { owner: function_of(id.owner), id: id.id }
}

pub fn variable_id(id: t3::VariableId) -> (res: VariableId)
    ensures
        res == variable_of(id),
{
    VariableId { owner: function_id(id.owner), id: id.id }
}

pub open spec fn integer_of(ty: t3::IntegerType) -> IntegerType {
    IntegerType { size: ty.size, signed: ty.signed }
}

fn integer(ty: t3::IntegerType) -> (res: IntegerType)
    ensures
        res == integer_of(ty),
{
    IntegerType { size: ty.size, signed: ty.signed }
}

pub open spec fn data_of(id: t3::DataId) -> DataId {
    DataId { id: id.id }
}

pub fn data_id(id: t3::DataId) -> (res: DataId)
    ensures
        res == data_of(id),
{
    DataId { id: id.id }
}

pub open spec fn loop_of(id: t3::LoopId) -> LoopId {
    LoopId { id: id.id }
}

fn loop_id(id: t3::LoopId) -> (res: LoopId)
    ensures
        res == loop_of(id),
{
    LoopId { id: id.id }
}

pub open spec fn label_of(label: Option<t3::LoopId>) -> Option<LoopId> {
    match label {
        Some(id) => Some(loop_of(id)),
        None => None,
    }
}

fn loop_label(label: Option<t3::LoopId>) -> (res: Option<LoopId>)
    ensures
        res == label_of(label),
{
    match label {
        Some(id) => Some(loop_id(id)),
        None => None,
    }
}

pub open spec fn kind_of(kind: t3::IRBinOpKind) -> IRBinOpKind {
    match kind {
        t3::IRBinOpKind::Add => IRBinOpKind::Add,
        t3::IRBinOpKind::Sub => IRBinOpKind::Sub,
        t3::IRBinOpKind::Mul => IRBinOpKind::Mul,
        t3::IRBinOpKind::Shl => IRBinOpKind::Shl,
        t3::IRBinOpKind::Shr => IRBinOpKind::Shr,
        t3::IRBinOpKind::BitOr => IRBinOpKind::BitOr,
        t3::IRBinOpKind::And => IRBinOpKind::And,
        t3::IRBinOpKind::Or => IRBinOpKind::Or,
        t3::IRBinOpKind::Eq => IRBinOpKind::Eq,
        t3::IRBinOpKind::SignedGt => IRBinOpKind::SignedGt,
        t3::IRBinOpKind::UnsignedLt => IRBinOpKind::UnsignedLt,
    }
}

fn bin_op(kind: t3::IRBinOpKind) -> (res: IRBinOpKind)
    ensures
        res == kind_of(kind),
{
    match kind {
        t3::IRBinOpKind::Add => IRBinOpKind::Add,
        t3::IRBinOpKind::Sub => IRBinOpKind::Sub,
        t3::IRBinOpKind::Mul => IRBinOpKind::Mul,
        t3::IRBinOpKind::Shl => IRBinOpKind::Shl,
        t3::IRBinOpKind::Shr => IRBinOpKind::Shr,
        t3::IRBinOpKind::BitOr => IRBinOpKind::BitOr,
        t3::IRBinOpKind::And => IRBinOpKind::And,
        t3::IRBinOpKind::Or => IRBinOpKind::Or,
        t3::IRBinOpKind::Eq => IRBinOpKind::Eq,
        t3::IRBinOpKind::SignedGt => IRBinOpKind::SignedGt,
        t3::IRBinOpKind::UnsignedLt => IRBinOpKind::UnsignedLt,
    }
}

pub open spec fn type_of(ty: t3::VariableType) -> VariableType {
    match ty {
        t3::VariableType::Unknown(size) => VariableType::Unknown(size),
        t3::VariableType::Register(register) => VariableType::Unknown(Some(register.width())),
        t3::VariableType::Bool => VariableType::Bool,
    }
}

pub fn variable_type(ty: t3::VariableType) -> (res: VariableType)
    ensures
        res == type_of(ty),
{
    match ty {
        t3::VariableType::Unknown(size) => VariableType::Unknown(size),
        t3::VariableType::Register(register) => VariableType::Unknown(Some(register.size())),
        t3::VariableType::Bool => VariableType::Bool,
    }
}

/// The same expression in this tier.
pub open spec fn expression_of(expr: t3::IRExpr) -> IRExpr
    decreases expr,
{
    match expr {
        t3::IRExpr::BinOp { kind, lhs, rhs } => IRExpr::BinOp {
            kind: kind_of(kind),
            lhs: Box::new(expression_of(*lhs)),
            rhs: Box::new(expression_of(*rhs)),
        },
        t3::IRExpr::Deref(address) => IRExpr::Deref(Box::new(expression_of(*address))),
        t3::IRExpr::CastUnknownPtr { address, size } => IRExpr::CastUnknownPtr {
            address: Box::new(expression_of(*address)),
            size,
        },
        t3::IRExpr::Argument(ordinal) => IRExpr::Argument(ordinal),
        t3::IRExpr::Convert { value, source, target } => IRExpr::Convert {
            value: Box::new(expression_of(*value)),
            source: integer_of(source),
            target: integer_of(target),
        },
        t3::IRExpr::CU8(value) => IRExpr::CU8(value),
        t3::IRExpr::CU32(value) => IRExpr::CU32(value),
        t3::IRExpr::CU64(value) => IRExpr::CU64(value),
        t3::IRExpr::Variable(variable) => IRExpr::Variable(variable_of(variable)),
        t3::IRExpr::Data(id) => IRExpr::Data(data_of(id)),
        t3::IRExpr::Bool(value) => IRExpr::Bool(value),
        t3::IRExpr::Not(inner) => IRExpr::Not(Box::new(expression_of(*inner))),
    }
}

fn expression(expr: &t3::IRExpr) -> (res: IRExpr)
    ensures
        res == expression_of(*expr),
    decreases expr,
{
    match expr {
        t3::IRExpr::BinOp { kind, lhs, rhs } => IRExpr::BinOp {
            kind: bin_op(*kind),
            lhs: Box::new(expression(lhs)),
            rhs: Box::new(expression(rhs)),
        },
        t3::IRExpr::Deref(address) => IRExpr::Deref(Box::new(expression(address))),
        t3::IRExpr::CastUnknownPtr { address, size } => IRExpr::CastUnknownPtr {
            address: Box::new(expression(address)),
            size: *size,
        },
        t3::IRExpr::Argument(ordinal) => IRExpr::Argument(*ordinal),
        t3::IRExpr::Convert { value, source, target } => IRExpr::Convert {
            value: Box::new(expression(value)),
            source: integer(*source),
            target: integer(*target),
        },
        t3::IRExpr::CU8(value) => IRExpr::CU8(*value),
        t3::IRExpr::CU32(value) => IRExpr::CU32(*value),
        t3::IRExpr::CU64(value) => IRExpr::CU64(*value),
        t3::IRExpr::Variable(variable) => IRExpr::Variable(variable_id(*variable)),
        t3::IRExpr::Data(id) => IRExpr::Data(data_id(*id)),
        t3::IRExpr::Bool(value) => IRExpr::Bool(*value),
        t3::IRExpr::Not(inner) => IRExpr::Not(Box::new(expression(inner))),
    }
}

pub open spec fn expressions_of(list: Seq<t3::IRExpr>) -> Seq<IRExpr> {
    list.map_values(|e: t3::IRExpr| expression_of(e))
}

fn expressions(list: &Vec<t3::IRExpr>) -> (res: Vec<IRExpr>)
    ensures
        res@ == expressions_of(list@),
{
    let mut res: Vec<IRExpr> = Vec::new();
    let mut i: usize = 0;
    while i < list.len()
        invariant
            i <= list@.len(),
            res@.len() == i,
            forall|k: int| 0 <= k < i ==> (#[trigger] res@[k]) == expression_of(list@[k]),
        decreases list@.len() - i,
    {
        res.push(expression(&list[i]));
        i = i + 1;
    }
    assert(res@ =~= expressions_of(list@));
    res
}

// ---------------------------------------------------------------------------
// Guards

/// The condition under which a loop repeats and the work on its repeating
/// branch, where an instruction can be the loop's sole exit check.
pub open spec fn guard_of(instr: t3::InstModel) -> Option<(IRExpr, Seq<t3::InstModel>)> {
    match instr {
        t3::InstModel::Break => Some((IRExpr::Bool(false), Seq::empty())),
        t3::InstModel::If { condition, then_branch, else_branch } => if then_branch.len() == 1
            && then_branch[0] is Break {
            Some((negated(expression_of(condition)), else_branch))
        } else if else_branch.len() == 1 && else_branch[0] is Break {
            Some((expression_of(condition), then_branch))
        } else {
            None
        },
        _ => None,
    }
}

fn is_break(list: &Vec<t3::IRInst>) -> (res: bool)
    ensures
        res == (t3::models(list@).len() == 1 && t3::models(list@)[0] is Break),
{
    list.len() == 1 && matches!(list[0], t3::IRInst::Break)
}

fn repeat_guard<'a>(instr: &'a t3::IRInst, none: &'a Vec<t3::IRInst>) -> (res: Option<
    (IRExpr, &'a Vec<t3::IRInst>),
>)
    requires
        none@.len() == 0,
    ensures
        match res {
            Some(guard) => guard_of(instr.model()) == Some((guard.0, t3::models(guard.1@))),
            None => guard_of(instr.model()) is None,
        },
{
    match instr {
        t3::IRInst::Break => {
            assert(t3::models(none@) =~= Seq::empty());
            Some((IRExpr::Bool(false), none))
        },
        t3::IRInst::If { condition, then_branch, else_branch } => {
            if is_break(then_branch) {
                Some((negate(expression(condition)), else_branch))
            } else if is_break(else_branch) {
                Some((expression(condition), then_branch))
            } else {
                None
            }
        },
        _ => None,
    }
}

/// Whether the instruction is a usable exit check.
pub open spec fn is_guard(instr: t3::InstModel) -> bool {
    match guard_of(instr) {
        Some(guard) => !declares_list(guard.1),
        None => false,
    }
}

/// The first usable exit check at or after an index.
pub open spec fn first_guard(body: Seq<(usize, t3::InstModel)>, from: int) -> Option<int>
    decreases body.len() - from,
{
    if from < 0 || from >= body.len() {
        None
    } else if is_guard(body[from].1) {
        Some(from)
    } else {
        first_guard(body, from + 1)
    }
}

fn find_guard(body: &Vec<(usize, t3::IRInst)>) -> (res: Option<usize>)
    ensures
        match res {
            Some(index) => first_guard(t3::body_models(body@), 0) == Some(index as int) && index
                < body@.len() && is_guard(t3::body_models(body@)[index as int].1),
            None => first_guard(t3::body_models(body@), 0) is None,
        },
{
    let ghost all = t3::body_models(body@);
    let none: Vec<t3::IRInst> = Vec::new();
    let mut i: usize = 0;
    while i < body.len()
        invariant
            i <= body@.len(),
            none@.len() == 0,
            all == t3::body_models(body@),
            first_guard(all, 0) == first_guard(all, i as int),
        decreases body@.len() - i,
    {
        assert(all[i as int].1 == body@[i as int].1.model());
        if let Some((_, updates)) = repeat_guard(&body[i].1, &none) {
            if !declares_variable_list(updates) {
                return Some(i);
            }
        }
        i = i + 1;
    }
    None
}

/// Whether the instructions before an index can run twice: they declare nothing
/// and hold no loop.
pub open spec fn is_rotatable(body: Seq<(usize, t3::InstModel)>, count: int) -> bool
    decreases count,
{
    if count <= 0 {
        true
    } else {
        is_rotatable(body, count - 1) && !declares(body[count - 1].1) && !holds_loop(
            body[count - 1].1,
        )
    }
}

fn rotatable(body: &Vec<(usize, t3::IRInst)>, count: usize) -> (res: bool)
    requires
        count <= body@.len(),
    ensures
        res == is_rotatable(t3::body_models(body@), count as int),
{
    let ghost all = t3::body_models(body@);
    let mut res: bool = true;
    let mut i: usize = 0;
    while i < count
        invariant
            i <= count <= body@.len(),
            all == t3::body_models(body@),
            res == is_rotatable(all, i as int),
        decreases count - i,
    {
        assert(all[i as int].1 == body@[i as int].1.model());
        res = res && !declares_variable(&body[i].1) && !contains_loop(&body[i].1);
        i = i + 1;
    }
    res
}

/// Whether an update on the repeating branch may also run on the final
/// iteration: its effect neither escapes the loop nor changes the check.
pub open spec fn is_movable(
    instr: t3::InstModel,
    condition: IRExpr,
    outside: Set<t3::VariableId>,
) -> bool {
    match instr {
        t3::InstModel::AssignVariable { variable, value } => !mentions(
            condition,
            variable_of(variable),
        ) && !outside.contains(variable) && is_pure(value),
        t3::InstModel::Assign { dest: t3::IRExpr::Variable(variable), src } => !mentions(
            condition,
            variable_of(variable),
        ) && !outside.contains(variable) && is_pure(src),
        _ => false,
    }
}

pub open spec fn all_movable(
    updates: Seq<t3::InstModel>,
    condition: IRExpr,
    outside: Set<t3::VariableId>,
) -> bool {
    forall|i: int| 0 <= i < updates.len() ==> is_movable(#[trigger] updates[i], condition, outside)
}

fn movable_repeat_updates(
    updates: &Vec<t3::IRInst>,
    condition: &IRExpr,
    outside: &KeySet<t3::VariableId>,
) -> (res: bool)
    ensures
        res == all_movable(t3::models(updates@), *condition, outside@),
{
    let ghost all = t3::models(updates@);
    let mut i: usize = 0;
    while i < updates.len()
        invariant
            i <= updates@.len(),
            all == t3::models(updates@),
            forall|k: int| 0 <= k < i ==> is_movable(#[trigger] all[k], *condition, outside@),
        decreases updates@.len() - i,
    {
        assert(all[i as int] == updates@[i as int].model());
        let movable: bool = match &updates[i] {
            t3::IRInst::AssignVariable { variable, value } => !reads_variable(
                condition,
                variable_id(*variable),
            ) && !outside.contains(*variable) && pure_expression(value),
            t3::IRInst::Assign { dest: t3::IRExpr::Variable(variable), src } => !reads_variable(
                condition,
                variable_id(*variable),
            ) && !outside.contains(*variable) && pure_expression(src),
            _ => false,
        };
        if !movable {
            return false;
        }
        i = i + 1;
    }
    true
}

// ---------------------------------------------------------------------------
// Reads around an instruction

/// The variables read outside an item of a branch.
pub open spec fn around(list: Seq<t3::InstModel>, index: int, outside: Set<t3::VariableId>) -> Set<
    t3::VariableId,
> {
    read_with_list(
        list.subrange(index + 1, list.len() as int),
        read_with_list(list.subrange(0, index), outside),
    )
}

/// The variables read outside an item of a body.
pub open spec fn around_in_body(
    list: Seq<(usize, t3::InstModel)>,
    index: int,
    outside: Set<t3::VariableId>,
) -> Set<t3::VariableId> {
    read_with_body(
        list.subrange(index + 1, list.len() as int),
        read_with_body(list.subrange(0, index), outside),
    )
}

/// The variables read outside the repeating branch of an exit check.
pub open spec fn around_updates(instr: t3::InstModel, outside: Set<t3::VariableId>) -> Set<
    t3::VariableId,
> {
    match instr {
        t3::InstModel::If { condition, .. } => variables_with(condition, outside),
        _ => outside,
    }
}

fn reads_around(list: &Vec<t3::IRInst>, index: usize, outside: &KeySet<t3::VariableId>) -> (res:
    KeySet<t3::VariableId>)
    requires
        index < list@.len(),
    ensures
        res@ == around(t3::models(list@), index as int, outside@),
{
    let ghost all = t3::models(list@);
    let mut res: KeySet<t3::VariableId> = outside.copied();
    let ghost start = res@;
    assert(all.subrange(0, 0) =~= Seq::empty());
    let mut i: usize = 0;
    while i < index
        invariant
            i <= index < list@.len(),
            all == t3::models(list@),
            res@ == read_with_list(all.subrange(0, i as int), start),
        decreases index - i,
    {
        let ghost prefix = all.subrange(0, i + 1);
        assert(prefix.drop_last() =~= all.subrange(0, i as int));
        instruction_reads(&list[i], &mut res);
        i = i + 1;
    }
    let ghost middle = res@;
    let total: usize = list.len();
    let mut i: usize = index + 1;
    assert(all.subrange(index + 1, i as int) =~= Seq::empty());
    while i < list.len()
        invariant
            index < i <= list@.len(),
            all == t3::models(list@),
            res@ == read_with_list(all.subrange(index + 1, i as int), middle),
        decreases list@.len() - i,
    {
        let ghost prefix = all.subrange(index + 1, i + 1);
        assert(prefix.drop_last() =~= all.subrange(index + 1, i as int));
        instruction_reads(&list[i], &mut res);
        i = i + 1;
    }
    res
}

fn reads_around_in_body(
    list: &Vec<(usize, t3::IRInst)>,
    index: usize,
    outside: &KeySet<t3::VariableId>,
) -> (res: KeySet<t3::VariableId>)
    requires
        index < list@.len(),
    ensures
        res@ == around_in_body(t3::body_models(list@), index as int, outside@),
{
    let ghost all = t3::body_models(list@);
    let mut res: KeySet<t3::VariableId> = outside.copied();
    let ghost start = res@;
    assert(all.subrange(0, 0) =~= Seq::empty());
    let mut i: usize = 0;
    while i < index
        invariant
            i <= index < list@.len(),
            all == t3::body_models(list@),
            res@ == read_with_body(all.subrange(0, i as int), start),
        decreases index - i,
    {
        let ghost prefix = all.subrange(0, i + 1);
        assert(prefix.drop_last() =~= all.subrange(0, i as int));
        instruction_reads(&list[i].1, &mut res);
        i = i + 1;
    }
    let ghost middle = res@;
    let total: usize = list.len();
    let mut i: usize = index + 1;
    assert(all.subrange(index + 1, i as int) =~= Seq::empty());
    while i < list.len()
        invariant
            index < i <= list@.len(),
            all == t3::body_models(list@),
            res@ == read_with_body(all.subrange(index + 1, i as int), middle),
        decreases list@.len() - i,
    {
        let ghost prefix = all.subrange(index + 1, i + 1);
        assert(prefix.drop_last() =~= all.subrange(index + 1, i as int));
        instruction_reads(&list[i].1, &mut res);
        i = i + 1;
    }
    res
}

// ---------------------------------------------------------------------------
// Lifting

/// The instructions without their offsets.
pub open spec fn bare(list: Seq<(usize, InstModel)>) -> Seq<InstModel> {
    list.map_values(|item: (usize, InstModel)| item.1)
}

/// The instructions at one offset.
pub open spec fn placed(list: Seq<InstModel>, offset: usize) -> Seq<(usize, InstModel)> {
    list.map_values(|instr: InstModel| (offset, instr))
}

/// A loop that checks before its body.
pub open spec fn while_loop(
    label: Option<t3::LoopId>,
    entry_offset: usize,
    condition: LoopCondition,
    body: Seq<(usize, InstModel)>,
) -> (usize, InstModel) {
    (
        entry_offset,
        InstModel::While { label: label_of(label), entry_offset, condition, body },
    )
}

/// An instruction at an offset. `outside` holds the variables that are read
/// elsewhere in the function.
pub open spec fn lifted_at(
    offset: usize,
    instr: t3::InstModel,
    outside: Set<t3::VariableId>,
) -> Seq<
    (usize, InstModel),
>
    decreases instr, 0int,
{
    match instr {
        t3::InstModel::Loop { label, entry_offset, body } => lifted_loop(
            label,
            entry_offset,
            body,
            outside,
        ),
        t3::InstModel::If { condition, then_branch, else_branch } => {
            let inside = variables_with(condition, outside);
            seq![
                (
                    offset,
                    InstModel::If {
                        condition: expression_of(condition),
                        then_branch: bare(
                            lifted_list(
                                then_branch,
                                0,
                                read_with_list(else_branch, inside),
                                then_branch.len() as int,
                            ),
                        ),
                        else_branch: bare(
                            lifted_list(
                                else_branch,
                                0,
                                read_with_list(then_branch, inside),
                                else_branch.len() as int,
                            ),
                        ),
                    },
                ),
            ]
        },
        _ => seq![(offset, plain_of(instr))],
    }
}

/// An instruction with no others in it.
pub open spec fn plain_of(instr: t3::InstModel) -> InstModel {
    match instr {
        t3::InstModel::Assign { dest, src } => InstModel::Assign {
            dest: expression_of(dest),
            src: expression_of(src),
        },
        t3::InstModel::Return(value) => InstModel::Return(match value {
                Some(value) => Some(expression_of(value)),
                None => None,
            }),
        t3::InstModel::DeclareVariable { variable, ty } => InstModel::DeclareVariable {
            variable: variable_of(variable),
            ty: type_of(ty),
        },
        t3::InstModel::AssignVariable { variable, value } => InstModel::AssignVariable {
            variable: variable_of(variable),
            value: expression_of(value),
        },
        t3::InstModel::LoadVariable { variable, address } => InstModel::LoadVariable {
            variable: variable_of(variable),
            address: expression_of(address),
        },
        t3::InstModel::StoreVariable { address, variable } => InstModel::StoreVariable {
            address: expression_of(address),
            variable: variable_of(variable),
        },
        t3::InstModel::Break => InstModel::Break,
        t3::InstModel::Continue => InstModel::Continue,
        t3::InstModel::ContinueLoop(label) => InstModel::ContinueLoop(loop_of(label)),
        t3::InstModel::CallSynthetic { function, arguments } => InstModel::CallSynthetic {
            function: function_of(function),
            arguments: expressions_of(arguments),
        },
        t3::InstModel::Jump(target) => InstModel::Jump(expression_of(target)),
        t3::InstModel::End => InstModel::End,
        _ => InstModel::End,
    }
}

/// The first `count` instructions of a branch, at an offset.
pub open spec fn lifted_list(
    list: Seq<t3::InstModel>,
    offset: usize,
    outside: Set<t3::VariableId>,
    count: int,
) -> Seq<(usize, InstModel)>
    decreases list, count,
{
    if count <= 0 || count > list.len() {
        Seq::empty()
    } else {
        lifted_list(list, offset, outside, count - 1) + lifted_at(
            offset,
            list[count - 1],
            around(list, count - 1, outside),
        )
    }
}

/// The instructions of a body from one index to another.
pub open spec fn lifted_range(
    list: Seq<(usize, t3::InstModel)>,
    outside: Set<t3::VariableId>,
    from: int,
    to: int,
) -> Seq<(usize, InstModel)>
    decreases list, to - from,
{
    if from < 0 || to <= from || to > list.len() {
        Seq::empty()
    } else {
        lifted_range(list, outside, from, to - 1) + lifted_at(
            list[to - 1].0,
            list[to - 1].1,
            around_in_body(list, to - 1, outside),
        )
    }
}

/// The work on the repeating branch of an exit check.
pub open spec fn lifted_updates(
    instr: t3::InstModel,
    offset: usize,
    outside: Set<t3::VariableId>,
) -> Seq<(usize, InstModel)>
    decreases instr, 0int,
{
    match instr {
        t3::InstModel::If { condition, then_branch, else_branch } => if then_branch.len() == 1
            && then_branch[0] is Break {
            lifted_list(
                else_branch,
                offset,
                around_updates(instr, outside),
                else_branch.len() as int,
            )
        } else {
            lifted_list(
                then_branch,
                offset,
                around_updates(instr, outside),
                then_branch.len() as int,
            )
        },
        _ => Seq::empty(),
    }
}

/// A loop. With a single exit whose check comes first it is checked before its
/// body; with the check last, after it; and otherwise the instructions before the
/// check run once before the loop and then after each repeating iteration. Nested
/// loops are not copied, and declarations stay in place because duplicating their
/// scope changes bindings.
pub open spec fn lifted_loop(
    label: Option<t3::LoopId>,
    entry_offset: usize,
    body: Seq<(usize, t3::InstModel)>,
    outside: Set<t3::VariableId>,
) -> Seq<(usize, InstModel)>
    decreases body, body.len() + 1,
{
    let unguarded = seq![
        while_loop(
            label,
            entry_offset,
            LoopCondition::Before { offset: entry_offset, expression: IRExpr::Bool(true) },
            lifted_range(body, outside, 0, body.len() as int),
        ),
    ];
    if exits_body(body, false) != 1 {
        unguarded
    } else {
        match first_guard(body, 0) {
            None => unguarded,
            Some(index) => if index < 0 || index >= body.len() {
                unguarded
            } else {
                let offset = body[index].0;
                let instr = body[index].1;
                let expression = (guard_of(instr)->0).0;
                let updates = (guard_of(instr)->0).1;
                let inside = around_in_body(body, index, outside);
                let work = lifted_updates(instr, offset, inside);
                let rest = lifted_range(body, outside, index + 1, body.len() as int);
                let prefix = lifted_range(body, outside, 0, index);
                if index == 0 {
                    seq![
                        while_loop(
                            label,
                            entry_offset,
                            LoopCondition::Before { offset, expression },
                            work + rest,
                        ),
                    ]
                } else if continues_body(body, label, false) {
                    unguarded
                } else if index == body.len() - 1 && (updates.len() == 0 || (!is_rotatable(
                    body,
                    index,
                ) && all_movable(updates, expression, outside))) {
                    seq![
                        while_loop(
                            label,
                            entry_offset,
                            LoopCondition::After { offset, expression },
                            prefix + placed(bare(lifted_updates(instr, 0, inside)), offset),
                        ),
                    ]
                } else if is_rotatable(body, index) {
                    prefix.push(
                        while_loop(
                            label,
                            offset,
                            LoopCondition::Before { offset, expression },
                            work + rest + prefix,
                        ),
                    )
                } else {
                    unguarded
                }
            },
        }
    }
}

/// The instructions without their offsets.
fn strip(list: Vec<(usize, IRInst)>) -> (res: Vec<IRInst>)
    ensures
        models(res@) == bare(body_models(list@)),
{
    let mut res: Vec<IRInst> = Vec::new();
    let mut i: usize = 0;
    while i < list.len()
        invariant
            i <= list@.len(),
            res@.len() == i,
            forall|k: int| 0 <= k < i ==> (#[trigger] res@[k]).model() == list@[k].1.model(),
        decreases list@.len() - i,
    {
        res.push(list[i].1.clone());
        i = i + 1;
    }
    assert(models(res@) =~= bare(body_models(list@)));
    res
}

fn replace_offsets(list: Vec<(usize, IRInst)>, offset: usize) -> (res: Vec<(usize, IRInst)>)
    ensures
        body_models(res@) == placed(bare(body_models(list@)), offset),
{
    let mut res: Vec<(usize, IRInst)> = Vec::new();
    let mut i: usize = 0;
    while i < list.len()
        invariant
            i <= list@.len(),
            res@.len() == i,
            forall|k: int|
                0 <= k < i ==> (#[trigger] res@[k]).0 == offset && res@[k].1.model()
                    == list@[k].1.model(),
        decreases list@.len() - i,
    {
        res.push((offset, list[i].1.clone()));
        i = i + 1;
    }
    assert(body_models(res@) =~= placed(bare(body_models(list@)), offset));
    res
}

/// Appends a list.
pub fn extend(out: &mut Vec<(usize, IRInst)>, list: Vec<(usize, IRInst)>)
    ensures
        body_models(final(out)@) == body_models(old(out)@) + body_models(list@),
{
    let ghost before = body_models(out@);
    let ghost added = body_models(list@);
    let mut list: Vec<(usize, IRInst)> = list;
    out.append(&mut list);
    assert(body_models(out@) =~= before + added);
}

fn plain(instr: &t3::IRInst) -> (res: IRInst)
    requires
        !(instr is If),
        !(instr is Loop),
    ensures
        res.model() == plain_of(instr.model()),
{
    match instr {
        t3::IRInst::Assign { dest, src } => IRInst::Assign {
            dest: expression(dest),
            src: expression(src),
        },
        t3::IRInst::Return(value) => IRInst::Return(match value {
                Some(value) => Some(expression(value)),
                None => None,
            }),
        t3::IRInst::DeclareVariable { variable, ty } => IRInst::DeclareVariable {
            variable: variable_id(*variable),
            ty: variable_type(*ty),
        },
        t3::IRInst::AssignVariable { variable, value } => IRInst::AssignVariable {
            variable: variable_id(*variable),
            value: expression(value),
        },
        t3::IRInst::LoadVariable { variable, address } => IRInst::LoadVariable {
            variable: variable_id(*variable),
            address: expression(address),
        },
        t3::IRInst::StoreVariable { address, variable } => IRInst::StoreVariable {
            address: expression(address),
            variable: variable_id(*variable),
        },
        t3::IRInst::Break => IRInst::Break,
        t3::IRInst::Continue => IRInst::Continue,
        t3::IRInst::ContinueLoop(label) => IRInst::ContinueLoop(loop_id(*label)),
        t3::IRInst::CallSynthetic { function, arguments } => IRInst::CallSynthetic {
            function: function_id(*function),
            arguments: expressions(arguments),
        },
        t3::IRInst::Jump(target) => IRInst::Jump(expression(target)),
        t3::IRInst::End => IRInst::End,
        _ => IRInst::End,
    }
}

#[verifier::rlimit(30)]
fn instructions(offset: usize, instr: &t3::IRInst, outside: &KeySet<t3::VariableId>) -> (res: Vec<
    (usize, IRInst),
>)
    ensures
        body_models(res@) == lifted_at(offset, instr.model(), outside@),
    decreases instr, 0int,
{
    match instr {
        t3::IRInst::Loop { label, entry_offset, body } => loop_instructions(
            *label,
            *entry_offset,
            body,
            outside,
        ),
        t3::IRInst::If { condition, then_branch, else_branch } => {
            let mut first: KeySet<t3::VariableId> = outside.copied();
            read_variables(condition, &mut first);
            let mut second: KeySet<t3::VariableId> = first.copied();
            instruction_reads_list(else_branch, &mut first);
            instruction_reads_list(then_branch, &mut second);
            let made = IRInst::If {
                condition: expression(condition),
                then_branch: strip(lift_list(then_branch, 0, &first)),
                else_branch: strip(lift_list(else_branch, 0, &second)),
            };
            let mut res: Vec<(usize, IRInst)> = Vec::new();
            let ghost model = made.model();
            res.push((offset, made));
            assert(body_models(res@) =~= seq![(offset, model)]);
            res
        },
        _ => {
            let made: IRInst = plain(instr);
            let ghost model = made.model();
            let mut res: Vec<(usize, IRInst)> = Vec::new();
            res.push((offset, made));
            assert(body_models(res@) =~= seq![(offset, model)]);
            res
        },
    }
}

fn lift_list(list: &Vec<t3::IRInst>, offset: usize, outside: &KeySet<t3::VariableId>) -> (res: Vec<
    (usize, IRInst),
>)
    ensures
        body_models(res@) == lifted_list(
            t3::models(list@),
            offset,
            outside@,
            list@.len() as int,
        ),
    decreases list, list@.len() as int,
{
    let ghost all = t3::models(list@);
    let mut res: Vec<(usize, IRInst)> = Vec::new();
    assert(body_models(res@) =~= Seq::empty());
    let mut i: usize = 0;
    while i < list.len()
        invariant
            i <= list@.len(),
            all == t3::models(list@),
            body_models(res@) == lifted_list(all, offset, outside@, i as int),
        decreases list@.len() - i,
    {
        assert(all[i as int] == list@[i as int].model());
        assert(decreases_to!(list => list@[i as int]));
        let around: KeySet<t3::VariableId> = reads_around(list, i, outside);
        extend(&mut res, instructions(offset, &list[i], &around));
        i = i + 1;
    }
    res
}

fn range(
    list: &Vec<(usize, t3::IRInst)>,
    outside: &KeySet<t3::VariableId>,
    from: usize,
    to: usize,
) -> (res: Vec<(usize, IRInst)>)
    requires
        from <= to <= list@.len(),
    ensures
        body_models(res@) == lifted_range(
            t3::body_models(list@),
            outside@,
            from as int,
            to as int,
        ),
    decreases list, to - from,
{
    let ghost all = t3::body_models(list@);
    let mut res: Vec<(usize, IRInst)> = Vec::new();
    assert(body_models(res@) =~= Seq::empty());
    let mut i: usize = from;
    while i < to
        invariant
            from <= i <= to <= list@.len(),
            all == t3::body_models(list@),
            body_models(res@) == lifted_range(all, outside@, from as int, i as int),
        decreases to - i,
    {
        assert(all[i as int] == (list@[i as int].0, list@[i as int].1.model()));
        assert(decreases_to!(list => list@[i as int]));
        let around: KeySet<t3::VariableId> = reads_around_in_body(list, i, outside);
        extend(&mut res, instructions(list[i].0, &list[i].1, &around));
        i = i + 1;
    }
    res
}

fn updates(instr: &t3::IRInst, offset: usize, outside: &KeySet<t3::VariableId>) -> (res: Vec<
    (usize, IRInst),
>)
    ensures
        body_models(res@) == lifted_updates(instr.model(), offset, outside@),
    decreases instr, 0int,
{
    match instr {
        t3::IRInst::If { condition, then_branch, else_branch } => {
            let mut inside: KeySet<t3::VariableId> = outside.copied();
            read_variables(condition, &mut inside);
            if is_break(then_branch) {
                lift_list(else_branch, offset, &inside)
            } else {
                lift_list(then_branch, offset, &inside)
            }
        },
        _ => {
            let res: Vec<(usize, IRInst)> = Vec::new();
            assert(body_models(res@) =~= Seq::empty());
            res
        },
    }
}

fn checked_loop(
    label: Option<t3::LoopId>,
    entry_offset: usize,
    condition: LoopCondition,
    body: Vec<(usize, IRInst)>,
) -> (res: (usize, IRInst))
    ensures
        (res.0, res.1.model()) == while_loop(label, entry_offset, condition, body_models(body@)),
{
    (entry_offset, IRInst::While { label: loop_label(label), entry_offset, condition, body })
}

fn unguarded(
    label: Option<t3::LoopId>,
    entry_offset: usize,
    body: &Vec<(usize, t3::IRInst)>,
    outside: &KeySet<t3::VariableId>,
) -> (res: Vec<(usize, IRInst)>)
    ensures
        body_models(res@) == seq![
            while_loop(
                label,
                entry_offset,
                LoopCondition::Before { offset: entry_offset, expression: IRExpr::Bool(true) },
                lifted_range(t3::body_models(body@), outside@, 0, body@.len() as int),
            ),
        ],
    decreases body, body@.len() + 1,
{
    let made = checked_loop(
        label,
        entry_offset,
        LoopCondition::Before { offset: entry_offset, expression: IRExpr::Bool(true) },
        range(body, outside, 0, body.len()),
    );
    let ghost model = (made.0, made.1.model());
    let mut res: Vec<(usize, IRInst)> = Vec::new();
    res.push(made);
    assert(body_models(res@) =~= seq![model]);
    res
}

#[verifier::rlimit(50)]
fn loop_instructions(
    label: Option<t3::LoopId>,
    entry_offset: usize,
    body: &Vec<(usize, t3::IRInst)>,
    outside: &KeySet<t3::VariableId>,
) -> (res: Vec<(usize, IRInst)>)
    ensures
        body_models(res@) == lifted_loop(
            label,
            entry_offset,
            t3::body_models(body@),
            outside@,
        ),
    decreases body, body@.len() + 2,
{
    let ghost all = t3::body_models(body@);
    assert(all.len() == body@.len());
    if exit_count_body(body, false) != 1 {
        return unguarded(label, entry_offset, body, outside);
    }
    let index: usize = match find_guard(body) {
        Some(index) => index,
        None => return unguarded(label, entry_offset, body, outside),
    };
    assert(all[index as int] == (body@[index as int].0, body@[index as int].1.model()));
    assert(decreases_to!(body => body@[index as int]));
    let offset: usize = body[index].0;
    let none: Vec<t3::IRInst> = Vec::new();
    let (check, branch) = match repeat_guard(&body[index].1, &none) {
        Some(guard) => guard,
        None => return unguarded(label, entry_offset, body, outside),
    };
    let inside: KeySet<t3::VariableId> = reads_around_in_body(body, index, outside);
    let mut res: Vec<(usize, IRInst)> = Vec::new();
    assert(body_models(res@) =~= Seq::empty());
    if index == 0 {
        let mut work: Vec<(usize, IRInst)> = updates(&body[index].1, offset, &inside);
        extend(&mut work, range(body, outside, index + 1, body.len()));
        let made = checked_loop(
            label,
            entry_offset,
            LoopCondition::Before { offset, expression: check },
            work,
        );
        let ghost model = (made.0, made.1.model());
        res.push(made);
        assert(body_models(res@) =~= seq![model]);
        return res;
    }
    if continues_here_body(body, label, false) {
        return unguarded(label, entry_offset, body, outside);
    }
    let rotates: bool = rotatable(body, index);
    if index == body.len() - 1 && (branch.len() == 0 || (!rotates && movable_repeat_updates(
        branch,
        &check,
        outside,
    ))) {
        let mut work: Vec<(usize, IRInst)> = range(body, outside, 0, index);
        extend(&mut work, replace_offsets(updates(&body[index].1, 0, &inside), offset));
        let made = checked_loop(
            label,
            entry_offset,
            LoopCondition::After { offset, expression: check },
            work,
        );
        let ghost model = (made.0, made.1.model());
        res.push(made);
        assert(body_models(res@) =~= seq![model]);
        return res;
    }
    if rotates {
        let mut work: Vec<(usize, IRInst)> = updates(&body[index].1, offset, &inside);
        extend(&mut work, range(body, outside, index + 1, body.len()));
        extend(&mut work, range(body, outside, 0, index));
        let made = checked_loop(
            label,
            offset,
            LoopCondition::Before { offset, expression: check },
            work,
        );
        let ghost model = (made.0, made.1.model());
        let mut res: Vec<(usize, IRInst)> = range(body, outside, 0, index);
        let ghost before = body_models(res@);
        res.push(made);
        assert(body_models(res@) =~= before.push(model));
        return res;
    }
    unguarded(label, entry_offset, body, outside)
}

/// The body of a function.
pub open spec fn lifted_body(body: Seq<(usize, t3::InstModel)>) -> Seq<(usize, InstModel)> {
    lifted_range(body, Set::empty(), 0, body.len() as int)
}

pub fn lift_body(body: &Vec<(usize, t3::IRInst)>) -> (res: Vec<(usize, IRInst)>)
    ensures
        body_models(res@) == lifted_body(t3::body_models(body@)),
{
    let outside: KeySet<t3::VariableId> = KeySet::new();
    range(body, &outside, 0, body.len())
}

} // verus!
