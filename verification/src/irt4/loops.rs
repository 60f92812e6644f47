//! What the loops of tier 3 do: their exits, continues, declarations and reads.
use super::ir::{capped, plus};
use crate::irt3::ir::{body_models, models, IRExpr, IRInst, InstModel, LoopId, VariableId};
use crate::table::KeySet;
use vstd::prelude::*;

verus! {

/// The exits from a loop. A break inside a nested loop belongs to that nested
/// loop, while a function exit inside it still exits this one.
pub open spec fn exits(instr: InstModel, nested: bool) -> nat
    decreases instr,
{
    match instr {
        InstModel::Return(_) => 1,
        InstModel::If {
            then_branch,
            else_branch,
            ..
        } => exits_list(then_branch, nested) + exits_list(else_branch, nested),
        InstModel::Loop { body, .. } => exits_body(body, true),
        InstModel::Break => if nested {
            0
        } else {
            1
        },
        InstModel::CallSynthetic { .. } => 1,
        InstModel::Jump(_) => 1,
        InstModel::End => 1,
        _ => 0,
    }
}

pub open spec fn exits_list(list: Seq<InstModel>, nested: bool) -> nat
    decreases list,
{
    if list.len() == 0 {
        0
    } else {
        exits_list(list.drop_last(), nested) + exits(list[list.len() - 1], nested)
    }
}

pub open spec fn exits_body(list: Seq<(usize, InstModel)>, nested: bool) -> nat
    decreases list,
{
    if list.len() == 0 {
        0
    } else {
        exits_body(list.drop_last(), nested) + exits(list[list.len() - 1].1, nested)
    }
}

pub fn exit_count(instr: &IRInst, nested: bool) -> (res: u8)
    ensures
        res == capped(exits(instr.model(), nested)),
    decreases instr,
{
    match instr {
        IRInst::Return(_) => 1,
        IRInst::If { then_branch, else_branch, .. } => plus(
            exit_count_list(then_branch, nested),
            exit_count_list(else_branch, nested),
        ),
        IRInst::Loop { body, .. } => exit_count_body(body, true),
        IRInst::Break => if nested {
            0
        } else {
            1
        },
        IRInst::CallSynthetic { .. } => 1,
        IRInst::Jump(_) => 1,
        IRInst::End => 1,
        _ => 0,
    }
}

pub fn exit_count_list(list: &Vec<IRInst>, nested: bool) -> (res: u8)
    ensures
        res == capped(exits_list(models(list@), nested)),
    decreases list,
{
    let ghost all = models(list@);
    assert(all.subrange(0, 0) =~= Seq::empty());
    let mut res: u8 = 0;
    let mut i: usize = 0;
    while i < list.len()
        invariant
            i <= list@.len(),
            all == models(list@),
            res == capped(exits_list(all.subrange(0, i as int), nested)),
        decreases list@.len() - i,
    {
        let ghost prefix = all.subrange(0, i + 1);
        assert(prefix.drop_last() =~= all.subrange(0, i as int));
        assert(decreases_to!(list => list@[i as int]));
        res = plus(res, exit_count(&list[i], nested));
        i = i + 1;
    }
    assert(all.subrange(0, i as int) =~= all);
    res
}

pub fn exit_count_body(list: &Vec<(usize, IRInst)>, nested: bool) -> (res: u8)
    ensures
        res == capped(exits_body(body_models(list@), nested)),
    decreases list,
{
    let ghost all = body_models(list@);
    assert(all.subrange(0, 0) =~= Seq::empty());
    let mut res: u8 = 0;
    let mut i: usize = 0;
    while i < list.len()
        invariant
            i <= list@.len(),
            all == body_models(list@),
            res == capped(exits_body(all.subrange(0, i as int), nested)),
        decreases list@.len() - i,
    {
        let ghost prefix = all.subrange(0, i + 1);
        assert(prefix.drop_last() =~= all.subrange(0, i as int));
        assert(decreases_to!(list => list@[i as int]));
        res = plus(res, exit_count(&list[i].1, nested));
        i = i + 1;
    }
    assert(all.subrange(0, i as int) =~= all);
    res
}

/// Whether a continue leads to this loop. It skips the trailing condition of a
/// do-while or the rotated prefix, so the explicit break form is kept.
pub open spec fn continues(instr: InstModel, wanted: Option<LoopId>, nested: bool) -> bool
    decreases instr,
{
    match instr {
        InstModel::If {
            then_branch,
            else_branch,
            ..
        } => continues_list(
            then_branch,
            wanted,
            nested,
        ) || continues_list(else_branch, wanted, nested),
        InstModel::Loop { body, .. } => continues_body(body, wanted, true),
        InstModel::Continue => !nested,
        InstModel::ContinueLoop(label) => Some(label) == wanted,
        _ => false,
    }
}

pub open spec fn continues_list(list: Seq<InstModel>, wanted: Option<LoopId>, nested: bool) -> bool
    decreases list,
{
    if list.len() == 0 {
        false
    } else {
        continues_list(list.drop_last(), wanted, nested) || continues(
            list[list.len() - 1],
            wanted,
            nested,
        )
    }
}

pub open spec fn continues_body(
    list: Seq<(usize, InstModel)>,
    wanted: Option<LoopId>,
    nested: bool,
) -> bool
    decreases list,
{
    if list.len() == 0 {
        false
    } else {
        continues_body(list.drop_last(), wanted, nested) || continues(
            list[list.len() - 1].1,
            wanted,
            nested,
        )
    }
}

pub fn continues_here(instr: &IRInst, wanted: Option<LoopId>, nested: bool) -> (res: bool)
    ensures
        res == continues(instr.model(), wanted, nested),
    decreases instr,
{
    match instr {
        IRInst::If {
            then_branch,
            else_branch,
            ..
        } => continues_here_list(
            then_branch,
            wanted,
            nested,
        ) || continues_here_list(else_branch, wanted, nested),
        IRInst::Loop { body, .. } => continues_here_body(body, wanted, true),
        IRInst::Continue => !nested,
        IRInst::ContinueLoop(label) => match wanted {
            Some(wanted) => *label == wanted,
            None => false,
        },
        _ => false,
    }
}

pub fn continues_here_list(list: &Vec<IRInst>, wanted: Option<LoopId>, nested: bool) -> (res: bool)
    ensures
        res == continues_list(models(list@), wanted, nested),
    decreases list,
{
    let ghost all = models(list@);
    assert(all.subrange(0, 0) =~= Seq::empty());
    let mut res: bool = false;
    let mut i: usize = 0;
    while i < list.len()
        invariant
            i <= list@.len(),
            all == models(list@),
            res == continues_list(all.subrange(0, i as int), wanted, nested),
        decreases list@.len() - i,
    {
        let ghost prefix = all.subrange(0, i + 1);
        assert(prefix.drop_last() =~= all.subrange(0, i as int));
        assert(decreases_to!(list => list@[i as int]));
        res = res || continues_here(&list[i], wanted, nested);
        i = i + 1;
    }
    assert(all.subrange(0, i as int) =~= all);
    res
}

pub fn continues_here_body(
    list: &Vec<(usize, IRInst)>,
    wanted: Option<LoopId>,
    nested: bool,
) -> (res: bool)
    ensures
        res == continues_body(body_models(list@), wanted, nested),
    decreases list,
{
    let ghost all = body_models(list@);
    assert(all.subrange(0, 0) =~= Seq::empty());
    let mut res: bool = false;
    let mut i: usize = 0;
    while i < list.len()
        invariant
            i <= list@.len(),
            all == body_models(list@),
            res == continues_body(all.subrange(0, i as int), wanted, nested),
        decreases list@.len() - i,
    {
        let ghost prefix = all.subrange(0, i + 1);
        assert(prefix.drop_last() =~= all.subrange(0, i as int));
        assert(decreases_to!(list => list@[i as int]));
        res = res || continues_here(&list[i].1, wanted, nested);
        i = i + 1;
    }
    assert(all.subrange(0, i as int) =~= all);
    res
}

/// Whether a variable is declared.
pub open spec fn declares(instr: InstModel) -> bool
    decreases instr,
{
    match instr {
        InstModel::DeclareVariable { .. } => true,
        InstModel::If {
            then_branch,
            else_branch,
            ..
        } => declares_list(then_branch) || declares_list(else_branch),
        InstModel::Loop { body, .. } => declares_body(body),
        _ => false,
    }
}

pub open spec fn declares_list(list: Seq<InstModel>) -> bool
    decreases list,
{
    if list.len() == 0 {
        false
    } else {
        declares_list(list.drop_last()) || declares(list[list.len() - 1])
    }
}

pub open spec fn declares_body(list: Seq<(usize, InstModel)>) -> bool
    decreases list,
{
    if list.len() == 0 {
        false
    } else {
        declares_body(list.drop_last()) || declares(list[list.len() - 1].1)
    }
}

pub fn declares_variable(instr: &IRInst) -> (res: bool)
    ensures
        res == declares(instr.model()),
    decreases instr,
{
    match instr {
        IRInst::DeclareVariable { .. } => true,
        IRInst::If {
            then_branch,
            else_branch,
            ..
        } => declares_variable_list(then_branch) || declares_variable_list(else_branch),
        IRInst::Loop { body, .. } => declares_variable_body(body),
        _ => false,
    }
}

pub fn declares_variable_list(list: &Vec<IRInst>) -> (res: bool)
    ensures
        res == declares_list(models(list@)),
    decreases list,
{
    let ghost all = models(list@);
    assert(all.subrange(0, 0) =~= Seq::empty());
    let mut res: bool = false;
    let mut i: usize = 0;
    while i < list.len()
        invariant
            i <= list@.len(),
            all == models(list@),
            res == declares_list(all.subrange(0, i as int)),
        decreases list@.len() - i,
    {
        let ghost prefix = all.subrange(0, i + 1);
        assert(prefix.drop_last() =~= all.subrange(0, i as int));
        assert(decreases_to!(list => list@[i as int]));
        res = res || declares_variable(&list[i]);
        i = i + 1;
    }
    assert(all.subrange(0, i as int) =~= all);
    res
}

pub fn declares_variable_body(list: &Vec<(usize, IRInst)>) -> (res: bool)
    ensures
        res == declares_body(body_models(list@)),
    decreases list,
{
    let ghost all = body_models(list@);
    assert(all.subrange(0, 0) =~= Seq::empty());
    let mut res: bool = false;
    let mut i: usize = 0;
    while i < list.len()
        invariant
            i <= list@.len(),
            all == body_models(list@),
            res == declares_body(all.subrange(0, i as int)),
        decreases list@.len() - i,
    {
        let ghost prefix = all.subrange(0, i + 1);
        assert(prefix.drop_last() =~= all.subrange(0, i as int));
        assert(decreases_to!(list => list@[i as int]));
        res = res || declares_variable(&list[i].1);
        i = i + 1;
    }
    assert(all.subrange(0, i as int) =~= all);
    res
}

/// Whether there is a loop outside other loops.
pub open spec fn holds_loop(instr: InstModel) -> bool
    decreases instr,
{
    match instr {
        InstModel::If {
            then_branch,
            else_branch,
            ..
        } => holds_loop_list(then_branch) || holds_loop_list(else_branch),
        InstModel::Loop { .. } => true,
        _ => false,
    }
}

pub open spec fn holds_loop_list(list: Seq<InstModel>) -> bool
    decreases list,
{
    if list.len() == 0 {
        false
    } else {
        holds_loop_list(list.drop_last()) || holds_loop(list[list.len() - 1])
    }
}

pub fn contains_loop(instr: &IRInst) -> (res: bool)
    ensures
        res == holds_loop(instr.model()),
    decreases instr,
{
    match instr {
        IRInst::If {
            then_branch,
            else_branch,
            ..
        } => contains_loop_list(then_branch) || contains_loop_list(else_branch),
        IRInst::Loop { .. } => true,
        _ => false,
    }
}

pub fn contains_loop_list(list: &Vec<IRInst>) -> (res: bool)
    ensures
        res == holds_loop_list(models(list@)),
    decreases list,
{
    let ghost all = models(list@);
    assert(all.subrange(0, 0) =~= Seq::empty());
    let mut res: bool = false;
    let mut i: usize = 0;
    while i < list.len()
        invariant
            i <= list@.len(),
            all == models(list@),
            res == holds_loop_list(all.subrange(0, i as int)),
        decreases list@.len() - i,
    {
        let ghost prefix = all.subrange(0, i + 1);
        assert(prefix.drop_last() =~= all.subrange(0, i as int));
        assert(decreases_to!(list => list@[i as int]));
        res = res || contains_loop(&list[i]);
        i = i + 1;
    }
    assert(all.subrange(0, i as int) =~= all);
    res
}

/// The variables with those that an expression reads.
pub open spec fn variables_with(expr: IRExpr, found: Set<VariableId>) -> Set<VariableId>
    decreases expr,
{
    match expr {
        IRExpr::BinOp { lhs, rhs, .. } => variables_with(*rhs, variables_with(*lhs, found)),
        IRExpr::Deref(address) => variables_with(*address, found),
        IRExpr::CastUnknownPtr { address, .. } => variables_with(*address, found),
        IRExpr::Convert { value, .. } => variables_with(*value, found),
        IRExpr::Variable(variable) => found.insert(variable),
        IRExpr::Not(inner) => variables_with(*inner, found),
        _ => found,
    }
}

pub fn read_variables(expr: &IRExpr, found: &mut KeySet<VariableId>)
    ensures
        final(found)@ == variables_with(*expr, old(found)@),
    decreases expr,
{
    match expr {
        IRExpr::BinOp { lhs, rhs, .. } => {
            read_variables(lhs, found);
            read_variables(rhs, found);
        },
        IRExpr::Deref(address) => {
            read_variables(address, found);
        },
        IRExpr::CastUnknownPtr { address, .. } => {
            read_variables(address, found);
        },
        IRExpr::Convert { value, .. } => {
            read_variables(value, found);
        },
        IRExpr::Variable(variable) => {
            found.insert(*variable);
        },
        IRExpr::Not(inner) => {
            read_variables(inner, found);
        },
        _ => {},
    }
}

pub open spec fn variables_with_all(list: Seq<IRExpr>, found: Set<VariableId>) -> Set<VariableId>
    decreases list.len(),
{
    if list.len() == 0 {
        found
    } else {
        variables_with(list.last(), variables_with_all(list.drop_last(), found))
    }
}

fn read_variables_all(list: &Vec<IRExpr>, found: &mut KeySet<VariableId>)
    ensures
        final(found)@ == variables_with_all(list@, old(found)@),
{
    let ghost start = found@;
    assert(list@.subrange(0, 0) =~= Seq::empty());
    let mut i: usize = 0;
    while i < list.len()
        invariant
            i <= list@.len(),
            found@ == variables_with_all(list@.subrange(0, i as int), start),
        decreases list@.len() - i,
    {
        let ghost prefix = list@.subrange(0, i + 1);
        assert(prefix.drop_last() =~= list@.subrange(0, i as int));
        read_variables(&list[i], found);
        i = i + 1;
    }
    assert(list@.subrange(0, i as int) =~= list@);
}

/// The variables with those that an instruction reads.
pub open spec fn read_with(instr: InstModel, found: Set<VariableId>) -> Set<VariableId>
    decreases instr,
{
    match instr {
        InstModel::Assign { dest, src } => match dest {
            IRExpr::Variable(_) => variables_with(src, found),
            _ => variables_with(dest, variables_with(src, found)),
        },
        InstModel::Return(value) => match value {
            Some(value) => variables_with(value, found),
            None => found,
        },
        InstModel::AssignVariable { value, .. } => variables_with(value, found),
        InstModel::LoadVariable { address, .. } => variables_with(address, found),
        InstModel::StoreVariable {
            address,
            variable,
        } => variables_with(address, found).insert(variable),
        InstModel::If { condition, then_branch, else_branch } => read_with_list(
            else_branch,
            read_with_list(then_branch, variables_with(condition, found)),
        ),
        InstModel::Loop { body, .. } => read_with_body(body, found),
        InstModel::CallSynthetic { arguments, .. } => variables_with_all(arguments, found),
        InstModel::Jump(target) => variables_with(target, found),
        _ => found,
    }
}

pub open spec fn read_with_list(list: Seq<InstModel>, found: Set<VariableId>) -> Set<VariableId>
    decreases list,
{
    if list.len() == 0 {
        found
    } else {
        read_with(list[list.len() - 1], read_with_list(list.drop_last(), found))
    }
}

pub open spec fn read_with_body(
    list: Seq<(usize, InstModel)>,
    found: Set<VariableId>,
) -> Set<VariableId>
    decreases list,
{
    if list.len() == 0 {
        found
    } else {
        read_with(list[list.len() - 1].1, read_with_body(list.drop_last(), found))
    }
}

pub fn instruction_reads(instr: &IRInst, found: &mut KeySet<VariableId>)
    ensures
        final(found)@ == read_with(instr.model(), old(found)@),
    decreases instr,
{
    match instr {
        IRInst::Assign { dest, src } => {
            read_variables(src, found);
            match dest {
                IRExpr::Variable(_) => {},
                _ => read_variables(dest, found),
            }
        },
        IRInst::Return(value) => {
            if let Some(value) = value {
                read_variables(value, found);
            }
        },
        IRInst::AssignVariable { value, .. } => {
            read_variables(value, found);
        },
        IRInst::LoadVariable { address, .. } => {
            read_variables(address, found);
        },
        IRInst::StoreVariable { address, variable } => {
            read_variables(address, found);
            found.insert(*variable);
        },
        IRInst::If { condition, then_branch, else_branch } => {
            read_variables(condition, found);
            instruction_reads_list(then_branch, found);
            instruction_reads_list(else_branch, found);
        },
        IRInst::Loop { body, .. } => {
            instruction_reads_body(body, found);
        },
        IRInst::CallSynthetic { arguments, .. } => {
            read_variables_all(arguments, found);
        },
        IRInst::Jump(target) => {
            read_variables(target, found);
        },
        _ => {},
    }
}

pub fn instruction_reads_list(list: &Vec<IRInst>, found: &mut KeySet<VariableId>)
    ensures
        final(found)@ == read_with_list(models(list@), old(found)@),
    decreases list,
{
    let ghost all = models(list@);
    let ghost start = found@;
    assert(all.subrange(0, 0) =~= Seq::empty());
    let mut i: usize = 0;
    while i < list.len()
        invariant
            i <= list@.len(),
            all == models(list@),
            found@ == read_with_list(all.subrange(0, i as int), start),
        decreases list@.len() - i,
    {
        let ghost prefix = all.subrange(0, i + 1);
        assert(prefix.drop_last() =~= all.subrange(0, i as int));
        assert(decreases_to!(list => list@[i as int]));
        instruction_reads(&list[i], found);
        i = i + 1;
    }
    assert(all.subrange(0, i as int) =~= all);
}

pub fn instruction_reads_body(list: &Vec<(usize, IRInst)>, found: &mut KeySet<VariableId>)
    ensures
        final(found)@ == read_with_body(body_models(list@), old(found)@),
    decreases list,
{
    let ghost all = body_models(list@);
    let ghost start = found@;
    assert(all.subrange(0, 0) =~= Seq::empty());
    let mut i: usize = 0;
    while i < list.len()
        invariant
            i <= list@.len(),
            all == body_models(list@),
            found@ == read_with_body(all.subrange(0, i as int), start),
        decreases list@.len() - i,
    {
        let ghost prefix = all.subrange(0, i + 1);
        assert(prefix.drop_last() =~= all.subrange(0, i as int));
        assert(decreases_to!(list => list@[i as int]));
        instruction_reads(&list[i].1, found);
        i = i + 1;
    }
    assert(all.subrange(0, i as int) =~= all);
}

/// Whether evaluating the expression reads no memory.
pub open spec fn is_pure(expr: IRExpr) -> bool
    decreases expr,
{
    match expr {
        IRExpr::BinOp { lhs, rhs, .. } => is_pure(*lhs) && is_pure(*rhs),
        IRExpr::Deref(_) => false,
        IRExpr::CastUnknownPtr { address, .. } => is_pure(*address),
        IRExpr::Convert { value, .. } => is_pure(*value),
        IRExpr::Data(_) => false,
        IRExpr::Not(inner) => is_pure(*inner),
        _ => true,
    }
}

pub fn pure_expression(expr: &IRExpr) -> (res: bool)
    ensures
        res == is_pure(*expr),
    decreases expr,
{
    match expr {
        IRExpr::BinOp { lhs, rhs, .. } => pure_expression(lhs) && pure_expression(rhs),
        IRExpr::Deref(_) => false,
        IRExpr::CastUnknownPtr { address, .. } => pure_expression(address),
        IRExpr::Convert { value, .. } => pure_expression(value),
        IRExpr::Data(_) => false,
        IRExpr::Not(inner) => pure_expression(inner),
        _ => true,
    }
}

} // verus!
