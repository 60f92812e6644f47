//! Move a boolean slot's adjacent assignment into its loop check.
use super::coalesce_loop_copies::{reads_body, reads_of_body};
use super::ir::{
    body_models, capped, clone_body, clone_instructions, function_models, models, plus,
    FunctionModel, IRExpr, IRInst, InstModel, LoopCondition, LoopId, Program, ProgramModel,
    SyntheticFunction, VariableId, VariableType,
};
use super::variable_flow::{effect_free, is_effect_free};
use super::walks::{
    mentions, negate, negated, parameter_slots, read_variables, reads_variable, slots,
    variables_with,
};
use super::weight::{
    lemma_body_push, lemma_body_remove, lemma_body_update, lemma_list_push, lemma_list_remove,
    lemma_list_update, lemma_positive, weight, weight_body, weight_list,
};
use crate::table::KeySet;
use vstd::prelude::*;

verus! {

/// Whether the instruction only declares the slot.
pub open spec fn is_declaration(instr: InstModel, slot: VariableId) -> bool {
    match instr {
        InstModel::DeclareVariable { variable, .. } => variable == slot,
        _ => false,
    }
}

fn declaration(instr: &IRInst, slot: VariableId) -> (res: bool)
    ensures
        res == is_declaration(instr.model(), slot),
{
    match instr {
        IRInst::DeclareVariable { variable, .. } => *variable == slot,
        _ => false,
    }
}

/// How often an instruction writes the slot.
pub open spec fn writes_of(instr: InstModel, slot: VariableId) -> nat
    decreases instr,
{
    match instr {
        InstModel::Assign { dest, .. } => match dest {
            IRExpr::Variable(variable) => if variable == slot {
                1
            } else {
                0
            },
            _ => 0,
        },
        InstModel::DeclareAndAssignVariable { variable, .. } => if variable == slot {
            1
        } else {
            0
        },
        InstModel::AssignVariable { variable, .. } => if variable == slot {
            1
        } else {
            0
        },
        InstModel::LoadVariable { variable, .. } => if variable == slot {
            1
        } else {
            0
        },
        InstModel::If {
            then_branch,
            else_branch,
            ..
        } => writes_of_list(then_branch, slot) + writes_of_list(else_branch, slot),
        InstModel::While { body, .. } => writes_of_body(body, slot),
        _ => 0,
    }
}

pub open spec fn writes_of_list(list: Seq<InstModel>, slot: VariableId) -> nat
    decreases list,
{
    if list.len() == 0 {
        0
    } else {
        writes_of_list(list.drop_last(), slot) + writes_of(list[list.len() - 1], slot)
    }
}

pub open spec fn writes_of_body(list: Seq<(usize, InstModel)>, slot: VariableId) -> nat
    decreases list,
{
    if list.len() == 0 {
        0
    } else {
        writes_of_body(list.drop_last(), slot) + writes_of(list[list.len() - 1].1, slot)
    }
}

fn writes(instr: &IRInst, slot: VariableId) -> (res: u8)
    ensures
        res == capped(writes_of(instr.model(), slot)),
    decreases instr,
{
    match instr {
        IRInst::Assign { dest, .. } => match dest {
            IRExpr::Variable(variable) => if *variable == slot {
                1
            } else {
                0
            },
            _ => 0,
        },
        IRInst::DeclareAndAssignVariable { variable, .. } => if *variable == slot {
            1
        } else {
            0
        },
        IRInst::AssignVariable { variable, .. } => if *variable == slot {
            1
        } else {
            0
        },
        IRInst::LoadVariable { variable, .. } => if *variable == slot {
            1
        } else {
            0
        },
        IRInst::If { then_branch, else_branch, .. } => plus(
            writes_list(then_branch, slot),
            writes_list(else_branch, slot),
        ),
        IRInst::While { body, .. } => writes_body(body, slot),
        _ => 0,
    }
}

fn writes_list(list: &Vec<IRInst>, slot: VariableId) -> (res: u8)
    ensures
        res == capped(writes_of_list(models(list@), slot)),
    decreases list,
{
    let ghost all = models(list@);
    assert(all.subrange(0, 0) =~= Seq::empty());
    let mut res: u8 = 0;
    let mut i: usize = 0;
    while i < list.len()
        invariant
            i <= list@.len(),
            all == models(list@),
            res == capped(writes_of_list(all.subrange(0, i as int), slot)),
        decreases list@.len() - i,
    {
        let ghost prefix = all.subrange(0, i + 1);
        assert(prefix.drop_last() =~= all.subrange(0, i as int));
        assert(decreases_to!(list => list@[i as int]));
        res = plus(res, writes(&list[i], slot));
        i = i + 1;
    }
    assert(all.subrange(0, i as int) =~= all);
    res
}

fn writes_body(list: &Vec<(usize, IRInst)>, slot: VariableId) -> (res: u8)
    ensures
        res == capped(writes_of_body(body_models(list@), slot)),
    decreases list,
{
    let ghost all = body_models(list@);
    assert(all.subrange(0, 0) =~= Seq::empty());
    let mut res: u8 = 0;
    let mut i: usize = 0;
    while i < list.len()
        invariant
            i <= list@.len(),
            all == body_models(list@),
            res == capped(writes_of_body(all.subrange(0, i as int), slot)),
        decreases list@.len() - i,
    {
        let ghost prefix = all.subrange(0, i + 1);
        assert(prefix.drop_last() =~= all.subrange(0, i as int));
        assert(decreases_to!(list => list@[i as int]));
        res = plus(res, writes(&list[i].1, slot));
        i = i + 1;
    }
    assert(all.subrange(0, i as int) =~= all);
    res
}

/// Whether the slot is declared as a boolean.
pub open spec fn declares_boolean(instr: InstModel, slot: VariableId) -> bool
    decreases instr,
{
    match instr {
        InstModel::DeclareVariable { variable, ty } => variable == slot && ty == VariableType::Bool,
        InstModel::DeclareAndAssignVariable {
            variable,
            ty,
            ..
        } => variable == slot && ty == VariableType::Bool,
        InstModel::If {
            then_branch,
            else_branch,
            ..
        } => declares_boolean_list(then_branch, slot) || declares_boolean_list(else_branch, slot),
        InstModel::While { body, .. } => declares_boolean_body(body, slot),
        _ => false,
    }
}

pub open spec fn declares_boolean_list(list: Seq<InstModel>, slot: VariableId) -> bool
    decreases list,
{
    if list.len() == 0 {
        false
    } else {
        declares_boolean_list(list.drop_last(), slot) || declares_boolean(
            list[list.len() - 1],
            slot,
        )
    }
}

pub open spec fn declares_boolean_body(list: Seq<(usize, InstModel)>, slot: VariableId) -> bool
    decreases list,
{
    if list.len() == 0 {
        false
    } else {
        declares_boolean_body(list.drop_last(), slot) || declares_boolean(
            list[list.len() - 1].1,
            slot,
        )
    }
}

fn declared_boolean(instr: &IRInst, slot: VariableId) -> (res: bool)
    ensures
        res == declares_boolean(instr.model(), slot),
    decreases instr,
{
    match instr {
        IRInst::DeclareVariable { variable, ty } => *variable == slot && *ty == VariableType::Bool,
        IRInst::DeclareAndAssignVariable {
            variable,
            ty,
            ..
        } => *variable == slot && *ty == VariableType::Bool,
        IRInst::If {
            then_branch,
            else_branch,
            ..
        } => declared_boolean_list(then_branch, slot) || declared_boolean_list(else_branch, slot),
        IRInst::While { body, .. } => declared_boolean_body(body, slot),
        _ => false,
    }
}

fn declared_boolean_list(list: &Vec<IRInst>, slot: VariableId) -> (res: bool)
    ensures
        res == declares_boolean_list(models(list@), slot),
    decreases list,
{
    let ghost all = models(list@);
    assert(all.subrange(0, 0) =~= Seq::empty());
    let mut res: bool = false;
    let mut i: usize = 0;
    while i < list.len()
        invariant
            i <= list@.len(),
            all == models(list@),
            res == declares_boolean_list(all.subrange(0, i as int), slot),
        decreases list@.len() - i,
    {
        let ghost prefix = all.subrange(0, i + 1);
        assert(prefix.drop_last() =~= all.subrange(0, i as int));
        assert(decreases_to!(list => list@[i as int]));
        res = res || declared_boolean(&list[i], slot);
        i = i + 1;
    }
    assert(all.subrange(0, i as int) =~= all);
    res
}

fn declared_boolean_body(list: &Vec<(usize, IRInst)>, slot: VariableId) -> (res: bool)
    ensures
        res == declares_boolean_body(body_models(list@), slot),
    decreases list,
{
    let ghost all = body_models(list@);
    assert(all.subrange(0, 0) =~= Seq::empty());
    let mut res: bool = false;
    let mut i: usize = 0;
    while i < list.len()
        invariant
            i <= list@.len(),
            all == body_models(list@),
            res == declares_boolean_body(all.subrange(0, i as int), slot),
        decreases list@.len() - i,
    {
        let ghost prefix = all.subrange(0, i + 1);
        assert(prefix.drop_last() =~= all.subrange(0, i as int));
        assert(decreases_to!(list => list@[i as int]));
        res = res || declared_boolean(&list[i].1, slot);
        i = i + 1;
    }
    assert(all.subrange(0, i as int) =~= all);
    res
}

/// Whether a continue leads to this loop. It could bypass the trailing assignment.
pub open spec fn continues(instr: InstModel, wanted: Option<LoopId>, nested: bool) -> bool
    decreases instr,
{
    match instr {
        InstModel::If {
            then_branch,
            else_branch,
            ..
        } => continues_list(
            then_branch,
            wanted,
            nested,
        ) || continues_list(else_branch, wanted, nested),
        InstModel::While { body, .. } => continues_body(body, wanted, true),
        InstModel::Continue => !nested,
        InstModel::ContinueLoop(label) => Some(label) == wanted,
        _ => false,
    }
}

pub open spec fn continues_list(list: Seq<InstModel>, wanted: Option<LoopId>, nested: bool) -> bool
    decreases list,
{
    if list.len() == 0 {
        false
    } else {
        continues_list(list.drop_last(), wanted, nested) || continues(
            list[list.len() - 1],
            wanted,
            nested,
        )
    }
}

pub open spec fn continues_body(
    list: Seq<(usize, InstModel)>,
    wanted: Option<LoopId>,
    nested: bool,
) -> bool
    decreases list,
{
    if list.len() == 0 {
        false
    } else {
        continues_body(list.drop_last(), wanted, nested) || continues(
            list[list.len() - 1].1,
            wanted,
            nested,
        )
    }
}

fn continues_here(instr: &IRInst, wanted: Option<LoopId>, nested: bool) -> (res: bool)
    ensures
        res == continues(instr.model(), wanted, nested),
    decreases instr,
{
    match instr {
        IRInst::If {
            then_branch,
            else_branch,
            ..
        } => continues_here_list(
            then_branch,
            wanted,
            nested,
        ) || continues_here_list(else_branch, wanted, nested),
        IRInst::While { body, .. } => continues_here_body(body, wanted, true),
        IRInst::Continue => !nested,
        IRInst::ContinueLoop(label) => match wanted {
            Some(wanted) => *label == wanted,
            None => false,
        },
        _ => false,
    }
}

fn continues_here_list(list: &Vec<IRInst>, wanted: Option<LoopId>, nested: bool) -> (res: bool)
    ensures
        res == continues_list(models(list@), wanted, nested),
    decreases list,
{
    let ghost all = models(list@);
    assert(all.subrange(0, 0) =~= Seq::empty());
    let mut res: bool = false;
    let mut i: usize = 0;
    while i < list.len()
        invariant
            i <= list@.len(),
            all == models(list@),
            res == continues_list(all.subrange(0, i as int), wanted, nested),
        decreases list@.len() - i,
    {
        let ghost prefix = all.subrange(0, i + 1);
        assert(prefix.drop_last() =~= all.subrange(0, i as int));
        assert(decreases_to!(list => list@[i as int]));
        res = res || continues_here(&list[i], wanted, nested);
        i = i + 1;
    }
    assert(all.subrange(0, i as int) =~= all);
    res
}

fn continues_here_body(
    list: &Vec<(usize, IRInst)>,
    wanted: Option<LoopId>,
    nested: bool,
) -> (res: bool)
    ensures
        res == continues_body(body_models(list@), wanted, nested),
    decreases list,
{
    let ghost all = body_models(list@);
    assert(all.subrange(0, 0) =~= Seq::empty());
    let mut res: bool = false;
    let mut i: usize = 0;
    while i < list.len()
        invariant
            i <= list@.len(),
            all == body_models(list@),
            res == continues_body(all.subrange(0, i as int), wanted, nested),
        decreases list@.len() - i,
    {
        let ghost prefix = all.subrange(0, i + 1);
        assert(prefix.drop_last() =~= all.subrange(0, i as int));
        assert(decreases_to!(list => list@[i as int]));
        res = res || continues_here(&list[i].1, wanted, nested);
        i = i + 1;
    }
    assert(all.subrange(0, i as int) =~= all);
    res
}

/// Whether one of the slots is declared.
pub open spec fn declares_one(instr: InstModel, inputs: Set<VariableId>) -> bool
    decreases instr,
{
    match instr {
        InstModel::DeclareVariable { variable, .. } => inputs.contains(variable),
        InstModel::DeclareAndAssignVariable { variable, .. } => inputs.contains(variable),
        InstModel::If {
            then_branch,
            else_branch,
            ..
        } => declares_one_list(then_branch, inputs) || declares_one_list(else_branch, inputs),
        InstModel::While { body, .. } => declares_one_body(body, inputs),
        _ => false,
    }
}

pub open spec fn declares_one_list(list: Seq<InstModel>, inputs: Set<VariableId>) -> bool
    decreases list,
{
    if list.len() == 0 {
        false
    } else {
        declares_one_list(list.drop_last(), inputs) || declares_one(list[list.len() - 1], inputs)
    }
}

pub open spec fn declares_one_body(list: Seq<(usize, InstModel)>, inputs: Set<VariableId>) -> bool
    decreases list,
{
    if list.len() == 0 {
        false
    } else {
        declares_one_body(list.drop_last(), inputs) || declares_one(list[list.len() - 1].1, inputs)
    }
}

fn declares_input(instr: &IRInst, inputs: &KeySet<VariableId>) -> (res: bool)
    ensures
        res == declares_one(instr.model(), inputs@),
    decreases instr,
{
    match instr {
        IRInst::DeclareVariable { variable, .. } => inputs.contains(*variable),
        IRInst::DeclareAndAssignVariable { variable, .. } => inputs.contains(*variable),
        IRInst::If {
            then_branch,
            else_branch,
            ..
        } => declares_input_list(then_branch, inputs) || declares_input_list(else_branch, inputs),
        IRInst::While { body, .. } => declares_input_body(body, inputs),
        _ => false,
    }
}

fn declares_input_list(list: &Vec<IRInst>, inputs: &KeySet<VariableId>) -> (res: bool)
    ensures
        res == declares_one_list(models(list@), inputs@),
    decreases list,
{
    let ghost all = models(list@);
    assert(all.subrange(0, 0) =~= Seq::empty());
    let mut res: bool = false;
    let mut i: usize = 0;
    while i < list.len()
        invariant
            i <= list@.len(),
            all == models(list@),
            res == declares_one_list(all.subrange(0, i as int), inputs@),
        decreases list@.len() - i,
    {
        let ghost prefix = all.subrange(0, i + 1);
        assert(prefix.drop_last() =~= all.subrange(0, i as int));
        assert(decreases_to!(list => list@[i as int]));
        res = res || declares_input(&list[i], inputs);
        i = i + 1;
    }
    assert(all.subrange(0, i as int) =~= all);
    res
}

fn declares_input_body(list: &Vec<(usize, IRInst)>, inputs: &KeySet<VariableId>) -> (res: bool)
    ensures
        res == declares_one_body(body_models(list@), inputs@),
    decreases list,
{
    let ghost all = body_models(list@);
    assert(all.subrange(0, 0) =~= Seq::empty());
    let mut res: bool = false;
    let mut i: usize = 0;
    while i < list.len()
        invariant
            i <= list@.len(),
            all == body_models(list@),
            res == declares_one_body(all.subrange(0, i as int), inputs@),
        decreases list@.len() - i,
    {
        let ghost prefix = all.subrange(0, i + 1);
        assert(prefix.drop_last() =~= all.subrange(0, i as int));
        assert(decreases_to!(list => list@[i as int]));
        res = res || declares_input(&list[i].1, inputs);
        i = i + 1;
    }
    assert(all.subrange(0, i as int) =~= all);
    res
}

/// The instruction without declarations of the slot.
pub open spec fn undeclared(instr: InstModel, slot: VariableId) -> InstModel
    decreases instr,
{
    match instr {
        InstModel::If { condition, then_branch, else_branch } => InstModel::If {
            condition,
            then_branch: undeclared_list(then_branch, slot),
            else_branch: undeclared_list(else_branch, slot),
        },
        InstModel::While { label, entry_offset, condition, body } => InstModel::While {
            label,
            entry_offset,
            condition,
            body: undeclared_body(body, slot),
        },
        _ => instr,
    }
}

pub open spec fn undeclared_list(list: Seq<InstModel>, slot: VariableId) -> Seq<InstModel>
    decreases list,
{
    if list.len() == 0 {
        Seq::empty()
    } else {
        let before = undeclared_list(list.drop_last(), slot);
        if is_declaration(list[list.len() - 1], slot) {
            before
        } else {
            before.push(undeclared(list[list.len() - 1], slot))
        }
    }
}

pub open spec fn undeclared_body(
    list: Seq<(usize, InstModel)>,
    slot: VariableId,
) -> Seq<(usize, InstModel)>
    decreases list,
{
    if list.len() == 0 {
        Seq::empty()
    } else {
        let before = undeclared_body(list.drop_last(), slot);
        if is_declaration(list[list.len() - 1].1, slot) {
            before
        } else {
            before.push((list[list.len() - 1].0, undeclared(list[list.len() - 1].1, slot)))
        }
    }
}

pub fn remove_declarations(instr: &IRInst, slot: VariableId) -> (res: IRInst)
    ensures
        res.model() == undeclared(instr.model(), slot),
    decreases instr,
{
    match instr {
        IRInst::If { condition, then_branch, else_branch } => IRInst::If {
            condition: condition.clone(),
            then_branch: remove_declarations_list(then_branch, slot),
            else_branch: remove_declarations_list(else_branch, slot),
        },
        IRInst::While { label, entry_offset, condition, body } => IRInst::While {
            label: *label,
            entry_offset: *entry_offset,
            condition: condition.clone(),
            body: remove_declarations_body(body, slot),
        },
        _ => instr.clone(),
    }
}

pub fn remove_declarations_list(list: &Vec<IRInst>, slot: VariableId) -> (res: Vec<IRInst>)
    ensures
        models(res@) == undeclared_list(models(list@), slot),
    decreases list,
{
    let ghost all = models(list@);
    let mut res: Vec<IRInst> = Vec::new();
    assert(all.subrange(0, 0) =~= Seq::empty());
    assert(models(res@) =~= Seq::empty());
    let mut i: usize = 0;
    while i < list.len()
        invariant
            i <= list@.len(),
            all == models(list@),
            models(res@) == undeclared_list(all.subrange(0, i as int), slot),
        decreases list@.len() - i,
    {
        let ghost prefix = all.subrange(0, i + 1);
        assert(prefix.drop_last() =~= all.subrange(0, i as int));
        assert(decreases_to!(list => list@[i as int]));
        if !declaration(&list[i], slot) {
            let ghost before = models(res@);
            res.push(remove_declarations(&list[i], slot));
            assert(models(res@) =~= before.push(undeclared(all[i as int], slot)));
        }
        i = i + 1;
    }
    assert(all.subrange(0, i as int) =~= all);
    res
}

pub fn remove_declarations_body(
    list: &Vec<(usize, IRInst)>,
    slot: VariableId,
) -> (res: Vec<(usize, IRInst)>)
    ensures
        body_models(res@) == undeclared_body(body_models(list@), slot),
    decreases list,
{
    let ghost all = body_models(list@);
    let mut res: Vec<(usize, IRInst)> = Vec::new();
    assert(all.subrange(0, 0) =~= Seq::empty());
    assert(body_models(res@) =~= Seq::empty());
    let mut i: usize = 0;
    while i < list.len()
        invariant
            i <= list@.len(),
            all == body_models(list@),
            body_models(res@) == undeclared_body(all.subrange(0, i as int), slot),
        decreases list@.len() - i,
    {
        let ghost prefix = all.subrange(0, i + 1);
        assert(prefix.drop_last() =~= all.subrange(0, i as int));
        assert(decreases_to!(list => list@[i as int]));
        if !declaration(&list[i].1, slot) {
            let ghost before = body_models(res@);
            res.push((list[i].0, remove_declarations(&list[i].1, slot)));
            assert(body_models(res@) =~= before.push(
                (all[i as int].0, undeclared(all[i as int].1, slot)),
            ));
        }
        i = i + 1;
    }
    assert(all.subrange(0, i as int) =~= all);
    res
}


/// The value that an instruction assigns to the slot.
pub open spec fn assigned_to(instr: InstModel, target: VariableId) -> Option<IRExpr> {
    match instr {
        InstModel::AssignVariable { variable, value } => if variable == target {
            Some(value)
        } else {
            None
        },
        InstModel::Assign { dest, src } => if dest == IRExpr::Variable(target) {
            Some(src)
        } else {
            None
        },
        _ => None,
    }
}

/// The value that an instruction assigns to the slot.
pub fn assignment<'a>(instr: &'a IRInst, target: VariableId) -> (res: Option<&'a IRExpr>)
    ensures
        match res {
            Some(value) => assigned_to(instr.model(), target) == Some(*value),
            None => assigned_to(instr.model(), target) is None,
        },
{
    match instr {
        IRInst::AssignVariable { variable, value } => if *variable == target {
            Some(value)
        } else {
            None
        },
        IRInst::Assign { dest, src } => match dest {
            IRExpr::Variable(variable) => if *variable == target {
                Some(src)
            } else {
                None
            },
            _ => None,
        },
        _ => None,
    }
}

/// The slot that a check tests, as it is or negated.
pub open spec fn tested(check: IRExpr) -> Option<VariableId> {
    match check {
        IRExpr::Variable(variable) => Some(variable),
        IRExpr::Not(inner) => match *inner {
            IRExpr::Variable(variable) => Some(variable),
            _ => None,
        },
        _ => None,
    }
}

fn condition_variable(check: &IRExpr) -> (res: Option<VariableId>)
    ensures
        res == tested(*check),
{
    match check {
        IRExpr::Variable(variable) => Some(*variable),
        IRExpr::Not(inner) => match &**inner {
            IRExpr::Variable(variable) => Some(*variable),
            _ => None,
        },
        _ => None,
    }
}

/// What is known of the function around a loop.
pub struct SurroundingsModel {
    pub body: Seq<(usize, InstModel)>,
    pub parameters: Set<VariableId>,
}

pub struct Surroundings<'a> {
    pub body: &'a Vec<(usize, IRInst)>,
    pub parameters: KeySet<VariableId>,
}

impl<'a> Surroundings<'a> {
    pub open spec fn model(self) -> SurroundingsModel {
        SurroundingsModel { body: body_models(self.body@), parameters: self.parameters@ }
    }
}

/// Whether the value can take the place of the slot in the check of a loop. The
/// check of a do-while is outside the body block, so it must not depend on a slot
/// declared only inside that block.
pub open spec fn can_inline(
    previous: Option<InstModel>,
    label: Option<LoopId>,
    condition: LoopCondition,
    body: Seq<(usize, InstModel)>,
    variable: VariableId,
    value: IRExpr,
    around: SurroundingsModel,
) -> bool {
    let reads = reads_of_body(around.body, variable);
    &&& declares_boolean_body(around.body, variable)
    &&& !around.parameters.contains(variable)
    &&& (condition is Before ==> {
        &&& previous is Some
        &&& assigned_to(previous->0, variable) == Some(value)
        &&& !continues_body(body, label, false)
    })
    &&& writes_of_body(around.body, variable) == (if condition is Before {
        2nat
    } else {
        1nat
    })
    &&& !mentions(value, variable)
    &&& (reads == 1 || effect_free(value))
    &&& !declares_one_body(body, variables_with(value, Set::empty()))
}

/// A boolean slot of a loop check and the value that takes its place.
pub struct Candidate {
    pub variable: VariableId,
    pub value: IRExpr,
    pub before: bool,
    pub remove_slot: bool,
}

/// The candidate of an instruction, after the one before it.
pub open spec fn candidate_of(
    previous: Option<InstModel>,
    instr: InstModel,
    around: SurroundingsModel,
) -> Option<Candidate> {
    match instr {
        InstModel::While { label, condition, body, .. } => match tested(condition.check()) {
            Some(variable) => if body.len() == 0 {
                None
            } else {
                match assigned_to(body.last().1, variable) {
                    Some(value) => if can_inline(
                        previous,
                        label,
                        condition,
                        body,
                        variable,
                        value,
                        around,
                    ) {
                        Some(
                            Candidate {
                                variable,
                                value,
                                before: condition is Before,
                                remove_slot: reads_of_body(around.body, variable) == 1,
                            },
                        )
                    } else {
                        None
                    },
                    None => None,
                }
            },
            None => None,
        },
        _ => None,
    }
}

#[verifier::rlimit(30)]
fn candidate(previous: Option<&IRInst>, instr: &IRInst, around: &Surroundings) -> (res: Option<
    Candidate,
>)
    ensures
        res == candidate_of(
            match previous {
                Some(previous) => Some(previous.model()),
                None => None,
            },
            instr.model(),
            around.model(),
        ),
{
    let (label, condition, body) = match instr {
        IRInst::While { label, condition, body, .. } => (label, condition, body),
        _ => return None,
    };
    let variable: VariableId = match condition_variable(condition.expression()) {
        Some(variable) => variable,
        None => return None,
    };
    if body.len() == 0 {
        return None;
    }
    assert(body_models(body@).last().1 == body@[body@.len() - 1].1.model());
    let value: &IRExpr = match assignment(&body[body.len() - 1].1, variable) {
        Some(value) => value,
        None => return None,
    };
    if !declared_boolean_body(around.body, variable) || around.parameters.contains(variable) {
        return None;
    }
    let before: bool = matches!(condition, LoopCondition::Before { .. });
    if before {
        let initial: &IRExpr = match previous {
            Some(previous) => match assignment(previous, variable) {
                Some(initial) => initial,
                None => return None,
            },
            None => return None,
        };
        if !initial.same(value) || continues_here_body(body, *label, false) {
            return None;
        }
    }
    let wanted: u8 = if before {
        2
    } else {
        1
    };
    assert(capped(1) == 1 && capped(2) == 2);
    let reads: u8 = reads_body(around.body, variable);
    if writes_body(around.body, variable) != wanted || reads_variable(value, variable) || (reads
        != 1 && !is_effect_free(value)) {
        return None;
    }
    let mut inputs: KeySet<VariableId> = KeySet::new();
    read_variables(value, &mut inputs);
    if declares_input_body(body, &inputs) {
        return None;
    }
    Some(Candidate { variable, value: value.clone(), before, remove_slot: reads == 1 })
}

/// The loop with the value in its check.
pub open spec fn checked(instr: InstModel, found: Candidate) -> InstModel {
    match instr {
        InstModel::While { label, entry_offset, condition, body } => InstModel::While {
            label,
            entry_offset,
            condition: condition.with(
                if condition.check() is Not {
                    negated(found.value)
                } else {
                    found.value
                },
            ),
            body: if found.remove_slot && body.len() > 0 {
                body.drop_last()
            } else {
                body
            },
        },
        _ => instr,
    }
}

fn inline(instr: &IRInst, found: &Candidate) -> (res: IRInst)
    ensures
        res.model() == checked(instr.model(), *found),
{
    match instr {
        IRInst::While { label, entry_offset, condition, body } => {
            let check: IRExpr = match condition.expression() {
                IRExpr::Not(_) => negate(found.value.clone()),
                _ => found.value.clone(),
            };
            let mut rest: Vec<(usize, IRInst)> = clone_body(body);
            let ghost all = body_models(rest@);
            if found.remove_slot && rest.len() > 0 {
                rest.pop();
                assert(body_models(rest@) =~= all.drop_last());
            }
            IRInst::While {
                label: *label,
                entry_offset: *entry_offset,
                condition: condition.replaced(check),
                body: rest,
            }
        },
        _ => instr.clone(),
    }
}

/// An instruction with the first candidate in it inlined, and the slot.
pub open spec fn inlined(instr: InstModel, around: SurroundingsModel) -> Option<
    (InstModel, VariableId),
>
    decreases instr, 0int,
{
    match instr {
        InstModel::If { condition, then_branch, else_branch } => match inlined_list(
            then_branch,
            around,
            0,
        ) {
            Some((then_branch, variable)) => Some(
                (InstModel::If { condition, then_branch, else_branch }, variable),
            ),
            None => match inlined_list(else_branch, around, 0) {
                Some((else_branch, variable)) => Some(
                    (InstModel::If { condition, then_branch, else_branch }, variable),
                ),
                None => None,
            },
        },
        InstModel::While { label, entry_offset, condition, body } => match inlined_body(
            body,
            around,
            0,
        ) {
            Some((body, variable)) => Some(
                (InstModel::While { label, entry_offset, condition, body }, variable),
            ),
            None => None,
        },
        _ => None,
    }
}

pub open spec fn inlined_list(
    list: Seq<InstModel>,
    around: SurroundingsModel,
    index: int,
) -> Option<
    (Seq<InstModel>, VariableId),
>
    decreases list, list.len() - index,
{
    if index < 0 || index >= list.len() {
        None
    } else {
        let previous = if index > 0 {
            Some(list[index - 1])
        } else {
            None
        };
        match candidate_of(previous, list[index], around) {
            Some(found) => {
                let made = list.update(index, checked(list[index], found));
                Some(
                    (
                        if found.remove_slot && found.before && index > 0 {
                            made.remove(index - 1)
                        } else {
                            made
                        },
                        found.variable,
                    ),
                )
            },
            None => match inlined(list[index], around) {
                Some((instr, variable)) => Some((list.update(index, instr), variable)),
                None => inlined_list(list, around, index + 1),
            },
        }
    }
}

pub open spec fn inlined_body(
    list: Seq<(usize, InstModel)>,
    around: SurroundingsModel,
    index: int,
) -> Option<(Seq<(usize, InstModel)>, VariableId)>
    decreases list, list.len() - index,
{
    if index < 0 || index >= list.len() {
        None
    } else {
        let previous = if index > 0 {
            Some(list[index - 1].1)
        } else {
            None
        };
        match candidate_of(previous, list[index].1, around) {
            Some(found) => {
                let made = list.update(index, (list[index].0, checked(list[index].1, found)));
                Some(
                    (
                        if found.remove_slot && found.before && index > 0 {
                            made.remove(index - 1)
                        } else {
                            made
                        },
                        found.variable,
                    ),
                )
            },
            None => match inlined(list[index].1, around) {
                Some((instr, variable)) => Some(
                    (list.update(index, (list[index].0, instr)), variable),
                ),
                None => inlined_body(list, around, index + 1),
            },
        }
    }
}

fn inline_nested(instr: &IRInst, around: &Surroundings) -> (res: Option<(IRInst, VariableId)>)
    ensures
        match res {
            Some(made) => inlined(instr.model(), around.model()) == Some((made.0.model(), made.1)),
            None => inlined(instr.model(), around.model()) is None,
        },
    decreases instr, 0int,
{
    match instr {
        IRInst::If { condition, then_branch, else_branch } => {
            if let Some((then_branch, variable)) = inline_branch(then_branch, around) {
                return Some(
                    (
                        IRInst::If {
                            condition: condition.clone(),
                            then_branch,
                            else_branch: clone_instructions(else_branch),
                        },
                        variable,
                    ),
                );
            }
            match inline_branch(else_branch, around) {
                Some((else_branch, variable)) => Some(
                    (
                        IRInst::If {
                            condition: condition.clone(),
                            then_branch: clone_instructions(then_branch),
                            else_branch,
                        },
                        variable,
                    ),
                ),
                None => None,
            }
        },
        IRInst::While { label, entry_offset, condition, body } => match inline_offset_body(
            body,
            around,
        ) {
            Some((body, variable)) => Some(
                (
                    IRInst::While {
                        label: *label,
                        entry_offset: *entry_offset,
                        condition: condition.clone(),
                        body,
                    },
                    variable,
                ),
            ),
            None => None,
        },
        _ => None,
    }
}

fn inline_branch(list: &Vec<IRInst>, around: &Surroundings) -> (res: Option<
    (Vec<IRInst>, VariableId),
>)
    ensures
        match res {
            Some(made) => inlined_list(models(list@), around.model(), 0) == Some(
                (models(made.0@), made.1),
            ),
            None => inlined_list(models(list@), around.model(), 0) is None,
        },
    decreases list, list@.len() as int,
{
    let ghost all = models(list@);
    let mut i: usize = 0;
    while i < list.len()
        invariant
            i <= list@.len(),
            all == models(list@),
            inlined_list(all, around.model(), 0) == inlined_list(all, around.model(), i as int),
        decreases list@.len() - i,
    {
        assert(all[i as int] == list@[i as int].model());
        assert(decreases_to!(list => list@[i as int]));
        let previous: Option<&IRInst> = if i > 0 {
            assert(all[i - 1] == list@[i - 1].model());
            Some(&list[i - 1])
        } else {
            None
        };
        if let Some(found) = candidate(previous, &list[i], around) {
            let mut res: Vec<IRInst> = clone_instructions(list);
            let made: IRInst = inline(&list[i], &found);
            let ghost model = made.model();
            res.set(i, made);
            let ghost updated = all.update(i as int, model);
            assert(models(res@) =~= updated);
            if found.remove_slot && found.before && i > 0 {
                res.remove(i - 1);
                assert(models(res@) =~= updated.remove(i - 1));
            }
            return Some((res, found.variable));
        }
        if let Some((made, variable)) = inline_nested(&list[i], around) {
            let mut res: Vec<IRInst> = clone_instructions(list);
            let ghost model = made.model();
            res.set(i, made);
            assert(models(res@) =~= all.update(i as int, model));
            return Some((res, variable));
        }
        i = i + 1;
    }
    None
}

fn inline_offset_body(list: &Vec<(usize, IRInst)>, around: &Surroundings) -> (res: Option<
    (Vec<(usize, IRInst)>, VariableId),
>)
    ensures
        match res {
            Some(made) => inlined_body(body_models(list@), around.model(), 0) == Some(
                (body_models(made.0@), made.1),
            ),
            None => inlined_body(body_models(list@), around.model(), 0) is None,
        },
    decreases list, list@.len() as int,
{
    let ghost all = body_models(list@);
    let mut i: usize = 0;
    while i < list.len()
        invariant
            i <= list@.len(),
            all == body_models(list@),
            inlined_body(all, around.model(), 0) == inlined_body(all, around.model(), i as int),
        decreases list@.len() - i,
    {
        assert(all[i as int] == (list@[i as int].0, list@[i as int].1.model()));
        assert(decreases_to!(list => list@[i as int]));
        let previous: Option<&IRInst> = if i > 0 {
            assert(all[i - 1].1 == list@[i - 1].1.model());
            Some(&list[i - 1].1)
        } else {
            None
        };
        if let Some(found) = candidate(previous, &list[i].1, around) {
            let mut res: Vec<(usize, IRInst)> = clone_body(list);
            let made: IRInst = inline(&list[i].1, &found);
            let ghost model = made.model();
            res.set(i, (list[i].0, made));
            let ghost updated = all.update(i as int, (list@[i as int].0, model));
            assert(body_models(res@) =~= updated);
            if found.remove_slot && found.before && i > 0 {
                res.remove(i - 1);
                assert(body_models(res@) =~= updated.remove(i - 1));
            }
            return Some((res, found.variable));
        }
        if let Some((made, variable)) = inline_nested(&list[i].1, around) {
            let mut res: Vec<(usize, IRInst)> = clone_body(list);
            let ghost model = made.model();
            res.set(i, (list[i].0, made));
            assert(body_models(res@) =~= all.update(i as int, (list@[i as int].0, model)));
            return Some((res, variable));
        }
        i = i + 1;
    }
    None
}

pub open spec fn surroundings_of(function: FunctionModel) -> SurroundingsModel {
    SurroundingsModel {
        body: function.body,
        parameters: parameter_slots(function.parameters),
    }
}

/// The function with its first candidate inlined, where there is one.
pub open spec fn inlined_once(function: FunctionModel) -> Option<FunctionModel> {
    match inlined_body(function.body, surroundings_of(function), 0) {
        Some((body, variable)) => Some(
            FunctionModel {
                body: if reads_of_body(function.body, variable) == 1 {
                    undeclared_body(body, variable)
                } else {
                    body
                },
                ..function
            },
        ),
        None => None,
    }
}

/// Whether a loop tests a slot that the end of its body assigns.
pub open spec fn is_self_tested(condition: LoopCondition, body: Seq<(usize, InstModel)>) -> bool {
    match tested(condition.check()) {
        Some(variable) => body.len() > 0 && assigned_to(body.last().1, variable) is Some,
        None => false,
    }
}

/// How many loops test a slot that the end of their body assigns.
pub open spec fn self_tests(instr: InstModel) -> nat
    decreases instr,
{
    match instr {
        InstModel::If { then_branch, else_branch, .. } => self_tests_list(then_branch)
            + self_tests_list(else_branch),
        InstModel::While { condition, body, .. } => self_tests_body(body) + if is_self_tested(
            condition,
            body,
        ) {
            1nat
        } else {
            0nat
        },
        _ => 0,
    }
}

pub open spec fn self_tests_list(list: Seq<InstModel>) -> nat
    decreases list,
{
    if list.len() == 0 {
        0
    } else {
        self_tests_list(list.drop_last()) + self_tests(list[list.len() - 1])
    }
}

pub open spec fn self_tests_body(list: Seq<(usize, InstModel)>) -> nat
    decreases list,
{
    if list.len() == 0 {
        0
    } else {
        self_tests_body(list.drop_last()) + self_tests(list[list.len() - 1].1)
    }
}

proof fn lemma_self_tests_list_update(list: Seq<InstModel>, at: int, item: InstModel)
    requires
        0 <= at < list.len(),
    ensures
        self_tests_list(list.update(at, item)) + self_tests(list[at]) == self_tests_list(list)
            + self_tests(item),
    decreases list.len(),
{
    let made = list.update(at, item);
    if at == list.len() - 1 {
        assert(made.drop_last() =~= list.drop_last());
    } else {
        assert(made.drop_last() =~= list.drop_last().update(at, item));
        lemma_self_tests_list_update(list.drop_last(), at, item);
    }
}

proof fn lemma_self_tests_body_update(
    list: Seq<(usize, InstModel)>,
    at: int,
    item: (usize, InstModel),
)
    requires
        0 <= at < list.len(),
    ensures
        self_tests_body(list.update(at, item)) + self_tests(list[at].1) == self_tests_body(list)
            + self_tests(item.1),
    decreases list.len(),
{
    let made = list.update(at, item);
    if at == list.len() - 1 {
        assert(made.drop_last() =~= list.drop_last());
    } else {
        assert(made.drop_last() =~= list.drop_last().update(at, item));
        lemma_self_tests_body_update(list.drop_last(), at, item);
    }
}

/// A check reads the slot that it tests.
proof fn lemma_tested(check: IRExpr, slot: VariableId)
    ensures
        tested(check) == Some(slot) ==> mentions(check, slot),
{
    reveal_with_fuel(mentions, 2);
}

/// A check that was inlined no longer tests the slot.
proof fn lemma_checked(previous: Option<InstModel>, instr: InstModel, around: SurroundingsModel)
    ensures
        candidate_of(previous, instr, around) matches Some(found) ==> {
            let made = checked(instr, found);
            &&& found.remove_slot == (reads_of_body(around.body, found.variable) == 1)
            &&& found.remove_slot ==> weight(made) < weight(instr)
            &&& !found.remove_slot ==> weight(made) == weight(instr) && self_tests(made)
                < self_tests(instr)
        },
{
    if let Some(found) = candidate_of(previous, instr, around) {
        if let InstModel::While { condition, body, .. } = instr {
            let value = if condition.check() is Not {
                negated(found.value)
            } else {
                found.value
            };
            assert(condition.with(value).check() == value);
            assert(!mentions(value, found.variable));
            lemma_tested(value, found.variable);
            lemma_positive(body[body.len() - 1].1);
            assert(!is_self_tested(condition.with(value), body));
        }
    }
}

proof fn lemma_inlined(instr: InstModel, around: SurroundingsModel)
    ensures
        inlined(instr, around) matches Some((made, variable)) ==> {
            &&& reads_of_body(around.body, variable) == 1 ==> weight(made) < weight(instr)
            &&& reads_of_body(around.body, variable) != 1 ==> weight(made) == weight(instr)
                && self_tests(made) < self_tests(instr)
            &&& forall|u: VariableId| #[trigger]
                assigned_to(made, u) is None && assigned_to(instr, u) is None
        },
    decreases instr, 0int,
{
    match instr {
        InstModel::If { then_branch, else_branch, .. } => {
            lemma_inlined_list(then_branch, around, 0);
            lemma_inlined_list(else_branch, around, 0);
        },
        InstModel::While { condition, body, .. } => {
            lemma_inlined_body(body, around, 0);
            if let Some((made, variable)) = inlined_body(body, around, 0) {
                if reads_of_body(around.body, variable) != 1 {
                    assert(is_self_tested(condition, made) == is_self_tested(condition, body));
                }
            }
        },
        _ => {},
    }
}

proof fn lemma_inlined_list(list: Seq<InstModel>, around: SurroundingsModel, index: int)
    ensures
        inlined_list(list, around, index) matches Some((made, variable)) ==> {
            &&& reads_of_body(around.body, variable) == 1 ==> weight_list(made) < weight_list(list)
            &&& reads_of_body(around.body, variable) != 1 ==> {
                &&& weight_list(made) == weight_list(list)
                &&& self_tests_list(made) < self_tests_list(list)
            }
        },
    decreases list, list.len() - index,
{
    if 0 <= index < list.len() {
        let previous = if index > 0 {
            Some(list[index - 1])
        } else {
            None
        };
        lemma_checked(previous, list[index], around);
        if let Some(found) = candidate_of(previous, list[index], around) {
            let item = checked(list[index], found);
            let made = list.update(index, item);
            lemma_list_update(list, index, item);
            lemma_self_tests_list_update(list, index, item);
            if index > 0 {
                lemma_list_remove(made, index - 1);
            }
        } else {
            lemma_inlined(list[index], around);
            if let Some((instr, _)) = inlined(list[index], around) {
                let item = instr;
                lemma_list_update(list, index, item);
                lemma_self_tests_list_update(list, index, item);
            } else {
                lemma_inlined_list(list, around, index + 1);
            }
        }
    }
}

proof fn lemma_inlined_body(list: Seq<(usize, InstModel)>, around: SurroundingsModel, index: int)
    ensures
        inlined_body(list, around, index) matches Some((made, variable)) ==> {
            &&& reads_of_body(around.body, variable) == 1 ==> weight_body(made) < weight_body(list)
            &&& reads_of_body(around.body, variable) != 1 ==> {
                &&& weight_body(made) == weight_body(list)
                &&& self_tests_body(made) < self_tests_body(list)
                &&& made.len() == list.len()
                &&& forall|u: VariableId| #[trigger]
                    assigned_to(made.last().1, u) == assigned_to(list.last().1, u)
            }
        },
    decreases list, list.len() - index,
{
    if 0 <= index < list.len() {
        let previous = if index > 0 {
            Some(list[index - 1].1)
        } else {
            None
        };
        lemma_checked(previous, list[index].1, around);
        if let Some(found) = candidate_of(previous, list[index].1, around) {
            let item = (list[index].0, checked(list[index].1, found));
            let made = list.update(index, item);
            lemma_body_update(list, index, item);
            lemma_self_tests_body_update(list, index, item);
            if index > 0 {
                lemma_body_remove(made, index - 1);
            }
            if !found.remove_slot {
                assert(made.last().1 == list.last().1 || index == list.len() - 1);
            }
        } else {
            lemma_inlined(list[index].1, around);
            if let Some((instr, _)) = inlined(list[index].1, around) {
                let item = (list[index].0, instr);
                lemma_body_update(list, index, item);
                lemma_self_tests_body_update(list, index, item);
                let made = list.update(index, (list[index].0, instr));
                assert(made.last().1 == list.last().1 || index == list.len() - 1);
            } else {
                lemma_inlined_body(list, around, index + 1);
            }
        }
    }
}

proof fn lemma_undeclared_weight(instr: InstModel, slot: VariableId)
    ensures
        weight(undeclared(instr, slot)) <= weight(instr),
    decreases instr,
{
    match instr {
        InstModel::If { then_branch, else_branch, .. } => {
            lemma_undeclared_weight_list(then_branch, slot);
            lemma_undeclared_weight_list(else_branch, slot);
        },
        InstModel::While { body, .. } => lemma_undeclared_weight_body(body, slot),
        _ => {},
    }
}

proof fn lemma_undeclared_weight_list(list: Seq<InstModel>, slot: VariableId)
    ensures
        weight_list(undeclared_list(list, slot)) <= weight_list(list),
    decreases list,
{
    if list.len() > 0 {
        let last = list[list.len() - 1];
        lemma_undeclared_weight_list(list.drop_last(), slot);
        lemma_undeclared_weight(last, slot);
        lemma_list_push(undeclared_list(list.drop_last(), slot), undeclared(last, slot));
    }
}

proof fn lemma_undeclared_weight_body(list: Seq<(usize, InstModel)>, slot: VariableId)
    ensures
        weight_body(undeclared_body(list, slot)) <= weight_body(list),
    decreases list,
{
    if list.len() > 0 {
        let last = list[list.len() - 1];
        lemma_undeclared_weight_body(list.drop_last(), slot);
        lemma_undeclared_weight(last.1, slot);
        lemma_body_push(
            undeclared_body(list.drop_last(), slot),
            (last.0, undeclared(last.1, slot)),
        );
    }
}

/// Inlining a check makes a function lighter, or leaves one loop less that tests a
/// slot which its body assigns.
pub proof fn lemma_inlined_once(function: FunctionModel)
    ensures
        inlined_once(function) matches Some(next) ==> {
            ||| weight_body(next.body) < weight_body(function.body)
            ||| weight_body(next.body) == weight_body(function.body) && self_tests_body(next.body)
                < self_tests_body(function.body)
        },
{
    lemma_inlined_body(function.body, surroundings_of(function), 0);
    if let Some((body, variable)) = inlined_body(function.body, surroundings_of(function), 0) {
        lemma_undeclared_weight_body(body, variable);
    }
}

/// The function with its boolean slots in the loop checks, one inlined after the
/// other until there is none left.
pub open spec fn all_inlined(function: FunctionModel) -> FunctionModel
    decreases weight_body(function.body), self_tests_body(function.body),
{
    proof {
        lemma_inlined_once(function);
    }
    match inlined_once(function) {
        None => function,
        Some(next) => all_inlined(next),
    }
}

pub open spec fn body_inlined(function: FunctionModel) -> Seq<(usize, InstModel)> {
    all_inlined(function).body
}

/// No boolean slot is left to inline into a loop check.
pub proof fn law_no_check_is_left_to_inline(function: FunctionModel)
    ensures
        inlined_once(all_inlined(function)) is None,
        all_inlined(all_inlined(function)) == all_inlined(function),
    decreases weight_body(function.body), self_tests_body(function.body),
{
    lemma_inlined_once(function);
    if let Some(next) = inlined_once(function) {
        law_no_check_is_left_to_inline(next);
    }
}

fn inline_function(function: &SyntheticFunction) -> (res: Vec<(usize, IRInst)>)
    ensures
        body_models(res@) == body_inlined(function.model()),
{
    let mut current = SyntheticFunction {
        entry_offset: function.entry_offset,
        parameters: function.copied_parameters(),
        body: clone_body(&function.body),
    };
    assert(current.model() == function.model());
    let mut going: bool = true;
    while going
        invariant
            going ==> all_inlined(current.model()) == all_inlined(function.model()),
            !going ==> current.model() == all_inlined(function.model()),
        decreases
            weight_body(current.model().body),
            self_tests_body(current.model().body),
            going as int,
    {
        let ghost before = current.model();
        assert(capped(1) == 1);
        let around = Surroundings { body: &current.body, parameters: slots(&current) };
        match inline_offset_body(&current.body, &around) {
            Some((body, variable)) => {
                let once: bool = reads_body(&current.body, variable) == 1;
                current.body = if once {
                    remove_declarations_body(&body, variable)
                } else {
                    body
                };
                proof {
                    assert(inlined_once(before) == Some(current.model()));
                    lemma_inlined_once(before);
                }
            },
            None => {
                going = false;
            },
        }
    }
    current.body
}

pub open spec fn function_conditions_inlined(function: FunctionModel) -> FunctionModel {
    FunctionModel { body: body_inlined(function), ..function }
}

pub open spec fn program_conditions_inlined(program: ProgramModel) -> ProgramModel {
    ProgramModel {
        functions: program.functions.map_values(|f: FunctionModel| function_conditions_inlined(f)),
        ..program
    }
}

/// Moves boolean slots into the loop checks of every function.
pub fn run(program: &mut Program)
    ensures
        final(program).model() == program_conditions_inlined(old(program).model()),
{
    let ghost before = function_models(program.functions@);
    let ghost initial = *program;
    let total: usize = program.functions.len();
    let mut i: usize = 0;
    while i < total
        invariant
            i <= total,
            total == program.functions@.len(),
            total == before.len(),
            *program == (Program { functions: program.functions, ..initial }),
            forall|k: int|
                0 <= k < i ==> (#[trigger] program.functions@[k]).model() == function_conditions_inlined(
                    before[k],
                ),
            forall|k: int|
                i <= k < total ==> (#[trigger] program.functions@[k]).model() == before[k],
        decreases total - i,
    {
        let body: Vec<(usize, IRInst)> = inline_function(&program.functions[i]);
        program.functions[i].body = body;
        i = i + 1;
    }
    assert(program.model().functions =~= program_conditions_inlined(initial.model()).functions);
}

} // verus!
