//! Local cleanups: branches on constants, unused declarations and arguments.
use super::ir::{
    body_models, function_models, models, FunctionModel, IRExpr, IRInst, InstModel, LoopCondition,
    Parameter, Program, ProgramModel, SyntheticFunction, VariableId,
};
use super::lift_return_branches::{append_at, at_offset};
use super::variable_flow::{flow_of_function, node_models, Flow, Node, NodeModel, Offset};
use crate::table::KeySet;
use vstd::prelude::*;

verus! {

// ---------------------------------------------------------------------------
// Constant branches

/// The instruction with the taken arm in place of every branch on a constant.
pub open spec fn collapsed(instr: InstModel) -> Seq<InstModel>
    decreases instr,
{
    match instr {
        InstModel::If { condition, then_branch, else_branch } => match condition {
            IRExpr::Bool(value) => if value {
                collapsed_list(then_branch)
            } else {
                collapsed_list(else_branch)
            },
            _ => seq![
                InstModel::If {
                    condition,
                    then_branch: collapsed_list(then_branch),
                    else_branch: collapsed_list(else_branch),
                },
            ],
        },
        InstModel::While { label, entry_offset, condition, body } => seq![
            InstModel::While { label, entry_offset, condition, body: collapsed_body(body) },
        ],
        _ => seq![instr],
    }
}

pub open spec fn collapsed_list(list: Seq<InstModel>) -> Seq<InstModel>
    decreases list,
{
    if list.len() == 0 {
        Seq::empty()
    } else {
        collapsed_list(list.drop_last()) + collapsed(list[list.len() - 1])
    }
}

pub open spec fn collapsed_body(list: Seq<(usize, InstModel)>) -> Seq<(usize, InstModel)>
    decreases list,
{
    if list.len() == 0 {
        Seq::empty()
    } else {
        collapsed_body(list.drop_last()) + at_offset(
            collapsed(list[list.len() - 1].1),
            list[list.len() - 1].0,
        )
    }
}

fn single(instr: IRInst) -> (res: Vec<IRInst>)
    ensures
        models(res@) == seq![instr.model()],
{
    let ghost model = instr.model();
    let mut res: Vec<IRInst> = Vec::new();
    res.push(instr);
    assert(models(res@) =~= seq![model]);
    res
}

fn collapse(instr: &IRInst) -> (res: Vec<IRInst>)
    ensures
        models(res@) == collapsed(instr.model()),
    decreases instr,
{
    match instr {
        IRInst::If { condition, then_branch, else_branch } => match condition {
            IRExpr::Bool(value) => {
                if *value {
                    collapse_branch(then_branch)
                } else {
                    collapse_branch(else_branch)
                }
            },
            _ => single(
                IRInst::If {
                    condition: condition.clone(),
                    then_branch: collapse_branch(then_branch),
                    else_branch: collapse_branch(else_branch),
                },
            ),
        },
        IRInst::While { label, entry_offset, condition, body } => single(
            IRInst::While {
                label: *label,
                entry_offset: *entry_offset,
                condition: condition.clone(),
                body: collapse_constant_branches(body),
            },
        ),
        _ => single(instr.clone()),
    }
}

fn collapse_branch(list: &Vec<IRInst>) -> (res: Vec<IRInst>)
    ensures
        models(res@) == collapsed_list(models(list@)),
    decreases list,
{
    let ghost all = models(list@);
    let mut res: Vec<IRInst> = Vec::new();
    assert(all.subrange(0, 0) =~= Seq::empty());
    assert(models(res@) =~= Seq::empty());
    let mut i: usize = 0;
    while i < list.len()
        invariant
            i <= list@.len(),
            all == models(list@),
            models(res@) == collapsed_list(all.subrange(0, i as int)),
        decreases list@.len() - i,
    {
        let ghost prefix = all.subrange(0, i + 1);
        assert(prefix.drop_last() =~= all.subrange(0, i as int));
        assert(decreases_to!(list => list@[i as int]));
        let ghost before = models(res@);
        let mut more: Vec<IRInst> = collapse(&list[i]);
        let ghost added = models(more@);
        res.append(&mut more);
        assert(models(res@) =~= before + added);
        i = i + 1;
    }
    assert(all.subrange(0, i as int) =~= all);
    res
}

/// Puts the taken arm in place of every branch on a constant.
pub fn collapse_constant_branches(list: &Vec<(usize, IRInst)>) -> (res: Vec<(usize, IRInst)>)
    ensures
        body_models(res@) == collapsed_body(body_models(list@)),
    decreases list,
{
    let ghost all = body_models(list@);
    let mut res: Vec<(usize, IRInst)> = Vec::new();
    assert(all.subrange(0, 0) =~= Seq::empty());
    assert(body_models(res@) =~= Seq::empty());
    let mut i: usize = 0;
    while i < list.len()
        invariant
            i <= list@.len(),
            all == body_models(list@),
            body_models(res@) == collapsed_body(all.subrange(0, i as int)),
        decreases list@.len() - i,
    {
        let ghost prefix = all.subrange(0, i + 1);
        assert(prefix.drop_last() =~= all.subrange(0, i as int));
        assert(decreases_to!(list => list@[i as int]));
        append_at(&mut res, collapse(&list[i].1), list[i].0);
        i = i + 1;
    }
    assert(all.subrange(0, i as int) =~= all);
    res
}

// ---------------------------------------------------------------------------
// Unused declarations

/// The slots that some node reads or writes.
pub open spec fn mentioned_slots(nodes: Seq<NodeModel>) -> Set<VariableId> {
    Set::new(
        |v: VariableId|
            exists|k: int| 0 <= k < nodes.len() && (#[trigger] nodes[k]).operation.mentions(v),
    )
}

/// The slots that some node of a function reads or writes.
pub fn find_mentioned(nodes: &Vec<Node>) -> (res: KeySet<VariableId>)
    ensures
        res@ == mentioned_slots(node_models(nodes@)),
{
    let ghost all = node_models(nodes@);
    let mut res: KeySet<VariableId> = KeySet::new();
    let mut i: usize = 0;
    while i < nodes.len()
        invariant
            i <= nodes@.len(),
            all == node_models(nodes@),
            forall|v: VariableId| #[trigger]
                res@.contains(v) <==> exists|k: int|
                    0 <= k < i && (#[trigger] all[k]).operation.mentions(v),
        decreases nodes@.len() - i,
    {
        let op = &nodes[i].operation;
        assert(all[i as int].operation == op.model());
        let ghost before = res@;
        if let Some(variable) = op.write {
            res.insert(variable);
        }
        let ghost middle = res@;
        let items: &Vec<Offset> = op.dependencies.items();
        let mut j: usize = 0;
        while j < items.len()
            invariant
                j <= items@.len(),
                forall|v: VariableId| #[trigger]
                    res@.contains(v) <==> middle.contains(v) || exists|m: int|
                        0 <= m < j && (#[trigger] items@[m]).base == v,
            decreases items@.len() - j,
        {
            let ghost last = res@;
            res.insert(items[j].base);
            proof {
                assert forall|v: VariableId| #[trigger] res@.contains(v) <==> middle.contains(v)
                    || exists|m: int| 0 <= m < j + 1 && (#[trigger] items@[m]).base == v by {
                    assert(last.contains(v) <==> middle.contains(v) || exists|m: int|
                        0 <= m < j && (#[trigger] items@[m]).base == v);
                    if v == items@[j as int].base {
                        assert(items@[j as int].base == v);
                    }
                }
            }
            j = j + 1;
        }
        proof {
            assert forall|v: VariableId| #[trigger] res@.contains(v) <==> exists|k: int|
                0 <= k < i + 1 && (#[trigger] all[k]).operation.mentions(v) by {
                assert(before.contains(v) <==> exists|k: int|
                    0 <= k < i && (#[trigger] all[k]).operation.mentions(v));
                let model = all[i as int].operation;
                if model.reads(v) {
                    let d = choose|d: Offset| #[trigger]
                        model.dependencies.contains(d) && d.base == v;
                    assert(items@.contains(d));
                    let m = choose|m: int| 0 <= m < items@.len() && items@[m] == d;
                    assert(items@[m].base == v);
                }
                if exists|m: int| 0 <= m < items@.len() && (#[trigger] items@[m]).base == v {
                    let m = choose|m: int|
                        0 <= m < items@.len() && (#[trigger] items@[m]).base == v;
                    assert(items@.contains(items@[m]));
                    assert(model.dependencies.contains(items@[m]));
                    assert(model.reads(v));
                }
                if middle.contains(v) && !before.contains(v) {
                    assert(model.mentions(v));
                }
            }
        }
        i = i + 1;
    }
    assert(res@ =~= mentioned_slots(all));
    res
}

pub open spec fn is_unmentioned(instr: InstModel, mentioned: Set<VariableId>) -> bool {
    match instr {
        InstModel::DeclareVariable { variable, .. } => !mentioned.contains(variable),
        _ => false,
    }
}

fn unmentioned(instr: &IRInst, mentioned: &KeySet<VariableId>) -> (res: bool)
    ensures
        res == is_unmentioned(instr.model(), mentioned@),
{
    match instr {
        IRInst::DeclareVariable { variable, .. } => !mentioned.contains(*variable),
        _ => false,
    }
}

/// The instruction without declarations of slots that are not mentioned.
pub open spec fn declared(instr: InstModel, mentioned: Set<VariableId>) -> InstModel
    decreases instr,
{
    match instr {
        InstModel::If { condition, then_branch, else_branch } => InstModel::If {
            condition,
            then_branch: declared_list(then_branch, mentioned),
            else_branch: declared_list(else_branch, mentioned),
        },
        InstModel::While { label, entry_offset, condition, body } => InstModel::While {
            label,
            entry_offset,
            condition,
            body: declared_body(body, mentioned),
        },
        _ => instr,
    }
}

pub open spec fn declared_list(list: Seq<InstModel>, mentioned: Set<VariableId>) -> Seq<InstModel>
    decreases list,
{
    if list.len() == 0 {
        Seq::empty()
    } else {
        let before = declared_list(list.drop_last(), mentioned);
        if is_unmentioned(list[list.len() - 1], mentioned) {
            before
        } else {
            before.push(declared(list[list.len() - 1], mentioned))
        }
    }
}

pub open spec fn declared_body(
    list: Seq<(usize, InstModel)>,
    mentioned: Set<VariableId>,
) -> Seq<(usize, InstModel)>
    decreases list,
{
    if list.len() == 0 {
        Seq::empty()
    } else {
        let before = declared_body(list.drop_last(), mentioned);
        if is_unmentioned(list[list.len() - 1].1, mentioned) {
            before
        } else {
            before.push((list[list.len() - 1].0, declared(list[list.len() - 1].1, mentioned)))
        }
    }
}

fn keep_declared(instr: &IRInst, mentioned: &KeySet<VariableId>) -> (res: IRInst)
    ensures
        res.model() == declared(instr.model(), mentioned@),
    decreases instr,
{
    match instr {
        IRInst::If { condition, then_branch, else_branch } => IRInst::If {
            condition: condition.clone(),
            then_branch: keep_declared_list(then_branch, mentioned),
            else_branch: keep_declared_list(else_branch, mentioned),
        },
        IRInst::While { label, entry_offset, condition, body } => IRInst::While {
            label: *label,
            entry_offset: *entry_offset,
            condition: condition.clone(),
            body: keep_declared_body(body, mentioned),
        },
        _ => instr.clone(),
    }
}

fn keep_declared_list(list: &Vec<IRInst>, mentioned: &KeySet<VariableId>) -> (res: Vec<IRInst>)
    ensures
        models(res@) == declared_list(models(list@), mentioned@),
    decreases list,
{
    let ghost all = models(list@);
    let mut res: Vec<IRInst> = Vec::new();
    assert(all.subrange(0, 0) =~= Seq::empty());
    assert(models(res@) =~= Seq::empty());
    let mut i: usize = 0;
    while i < list.len()
        invariant
            i <= list@.len(),
            all == models(list@),
            models(res@) == declared_list(all.subrange(0, i as int), mentioned@),
        decreases list@.len() - i,
    {
        let ghost prefix = all.subrange(0, i + 1);
        assert(prefix.drop_last() =~= all.subrange(0, i as int));
        assert(decreases_to!(list => list@[i as int]));
        if !unmentioned(&list[i], mentioned) {
            let ghost before = models(res@);
            res.push(keep_declared(&list[i], mentioned));
            assert(models(res@) =~= before.push(declared(all[i as int], mentioned@)));
        }
        i = i + 1;
    }
    assert(all.subrange(0, i as int) =~= all);
    res
}

fn keep_declared_body(
    list: &Vec<(usize, IRInst)>,
    mentioned: &KeySet<VariableId>,
) -> (res: Vec<(usize, IRInst)>)
    ensures
        body_models(res@) == declared_body(body_models(list@), mentioned@),
    decreases list,
{
    let ghost all = body_models(list@);
    let mut res: Vec<(usize, IRInst)> = Vec::new();
    assert(all.subrange(0, 0) =~= Seq::empty());
    assert(body_models(res@) =~= Seq::empty());
    let mut i: usize = 0;
    while i < list.len()
        invariant
            i <= list@.len(),
            all == body_models(list@),
            body_models(res@) == declared_body(all.subrange(0, i as int), mentioned@),
        decreases list@.len() - i,
    {
        let ghost prefix = all.subrange(0, i + 1);
        assert(prefix.drop_last() =~= all.subrange(0, i as int));
        assert(decreases_to!(list => list@[i as int]));
        if !unmentioned(&list[i].1, mentioned) {
            let ghost before = body_models(res@);
            res.push((list[i].0, keep_declared(&list[i].1, mentioned)));
            assert(body_models(res@) =~= before.push(
                (all[i as int].0, declared(all[i as int].1, mentioned@)),
            ));
        }
        i = i + 1;
    }
    assert(all.subrange(0, i as int) =~= all);
    res
}


/// A body without declarations of slots that nothing reads or writes.
pub open spec fn body_declared(function: FunctionModel) -> Seq<(usize, InstModel)> {
    declared_body(function.body, mentioned_slots(flow_of_function(function).nodes))
}

/// Removes the declarations of slots that nothing reads or writes.
pub fn remove_unused_declarations(function: &SyntheticFunction) -> (res: Vec<(usize, IRInst)>)
    ensures
        body_models(res@) == body_declared(function.model()),
{
    let flow: Flow = Flow::from_function(function);
    let mentioned: KeySet<VariableId> = find_mentioned(&flow.nodes);
    keep_declared_body(&function.body, &mentioned)
}

// ---------------------------------------------------------------------------
// Unused arguments

/// The arguments with those that an expression uses.
pub open spec fn arguments_with(expr: IRExpr, used: Set<usize>) -> Set<usize>
    decreases expr,
{
    match expr {
        IRExpr::BinOp { lhs, rhs, .. } => arguments_with(*rhs, arguments_with(*lhs, used)),
        IRExpr::Deref(address) => arguments_with(*address, used),
        IRExpr::CastUnknownPtr { address, .. } => arguments_with(*address, used),
        IRExpr::Argument(ordinal) => used.insert(ordinal),
        IRExpr::Convert { value, .. } => arguments_with(*value, used),
        IRExpr::Not(inner) => arguments_with(*inner, used),
        _ => used,
    }
}

fn expression_arguments(expr: &IRExpr, used: &mut KeySet<usize>)
    ensures
        final(used)@ == arguments_with(*expr, old(used)@),
    decreases expr,
{
    match expr {
        IRExpr::BinOp { lhs, rhs, .. } => {
            expression_arguments(lhs, used);
            expression_arguments(rhs, used);
        },
        IRExpr::Deref(address) => {
            expression_arguments(address, used);
        },
        IRExpr::CastUnknownPtr { address, .. } => {
            expression_arguments(address, used);
        },
        IRExpr::Argument(ordinal) => {
            used.insert(*ordinal);
        },
        IRExpr::Convert { value, .. } => {
            expression_arguments(value, used);
        },
        IRExpr::Not(inner) => {
            expression_arguments(inner, used);
        },
        _ => {},
    }
}

pub open spec fn arguments_with_all(list: Seq<IRExpr>, used: Set<usize>) -> Set<usize>
    decreases list.len(),
{
    if list.len() == 0 {
        used
    } else {
        arguments_with(list.last(), arguments_with_all(list.drop_last(), used))
    }
}

fn expression_arguments_all(list: &Vec<IRExpr>, used: &mut KeySet<usize>)
    ensures
        final(used)@ == arguments_with_all(list@, old(used)@),
{
    let ghost start = used@;
    assert(list@.subrange(0, 0) =~= Seq::empty());
    let mut i: usize = 0;
    while i < list.len()
        invariant
            i <= list@.len(),
            used@ == arguments_with_all(list@.subrange(0, i as int), start),
        decreases list@.len() - i,
    {
        let ghost prefix = list@.subrange(0, i + 1);
        assert(prefix.drop_last() =~= list@.subrange(0, i as int));
        expression_arguments(&list[i], used);
        i = i + 1;
    }
    assert(list@.subrange(0, i as int) =~= list@);
}

/// The arguments with those that an instruction uses.
pub open spec fn used_with(instr: InstModel, used: Set<usize>) -> Set<usize>
    decreases instr,
{
    match instr {
        InstModel::Assign { dest, src } => arguments_with(src, arguments_with(dest, used)),
        InstModel::Return(value) => match value {
            Some(value) => arguments_with(value, used),
            None => used,
        },
        InstModel::DeclareAndAssignVariable { value, .. } => arguments_with(value, used),
        InstModel::AssignVariable { value, .. } => arguments_with(value, used),
        InstModel::LoadVariable { address, .. } => arguments_with(address, used),
        InstModel::StoreVariable { address, .. } => arguments_with(address, used),
        InstModel::If { condition, then_branch, else_branch } => used_with_list(
            else_branch,
            used_with_list(then_branch, arguments_with(condition, used)),
        ),
        InstModel::While { condition, body, .. } => used_with_body(
            body,
            arguments_with(condition.check(), used),
        ),
        InstModel::CallSynthetic { arguments, .. } => arguments_with_all(arguments, used),
        InstModel::Jump(target) => arguments_with(target, used),
        _ => used,
    }
}

pub open spec fn used_with_list(list: Seq<InstModel>, used: Set<usize>) -> Set<usize>
    decreases list,
{
    if list.len() == 0 {
        used
    } else {
        used_with(list[list.len() - 1], used_with_list(list.drop_last(), used))
    }
}

pub open spec fn used_with_body(list: Seq<(usize, InstModel)>, used: Set<usize>) -> Set<usize>
    decreases list,
{
    if list.len() == 0 {
        used
    } else {
        used_with(list[list.len() - 1].1, used_with_body(list.drop_last(), used))
    }
}

fn instruction_arguments(instr: &IRInst, used: &mut KeySet<usize>)
    ensures
        final(used)@ == used_with(instr.model(), old(used)@),
    decreases instr,
{
    match instr {
        IRInst::Assign { dest, src } => {
            expression_arguments(dest, used);
            expression_arguments(src, used);
        },
        IRInst::Return(value) => {
            if let Some(value) = value {
                expression_arguments(value, used);
            }
        },
        IRInst::DeclareAndAssignVariable { value, .. } => {
            expression_arguments(value, used);
        },
        IRInst::AssignVariable { value, .. } => {
            expression_arguments(value, used);
        },
        IRInst::LoadVariable { address, .. } => {
            expression_arguments(address, used);
        },
        IRInst::StoreVariable { address, .. } => {
            expression_arguments(address, used);
        },
        IRInst::If { condition, then_branch, else_branch } => {
            expression_arguments(condition, used);
            instruction_arguments_list(then_branch, used);
            instruction_arguments_list(else_branch, used);
        },
        IRInst::While { condition, body, .. } => {
            match condition {
                LoopCondition::Before { expression, .. } => expression_arguments(expression, used),
                LoopCondition::After { expression, .. } => expression_arguments(expression, used),
            }
            instruction_arguments_body(body, used);
        },
        IRInst::CallSynthetic { arguments, .. } => {
            expression_arguments_all(arguments, used);
        },
        IRInst::Jump(target) => {
            expression_arguments(target, used);
        },
        _ => {},
    }
}

fn instruction_arguments_list(list: &Vec<IRInst>, used: &mut KeySet<usize>)
    ensures
        final(used)@ == used_with_list(models(list@), old(used)@),
    decreases list,
{
    let ghost all = models(list@);
    let ghost start = used@;
    assert(all.subrange(0, 0) =~= Seq::empty());
    let mut i: usize = 0;
    while i < list.len()
        invariant
            i <= list@.len(),
            all == models(list@),
            used@ == used_with_list(all.subrange(0, i as int), start),
        decreases list@.len() - i,
    {
        let ghost prefix = all.subrange(0, i + 1);
        assert(prefix.drop_last() =~= all.subrange(0, i as int));
        assert(decreases_to!(list => list@[i as int]));
        instruction_arguments(&list[i], used);
        i = i + 1;
    }
    assert(all.subrange(0, i as int) =~= all);
}

fn instruction_arguments_body(list: &Vec<(usize, IRInst)>, used: &mut KeySet<usize>)
    ensures
        final(used)@ == used_with_body(body_models(list@), old(used)@),
    decreases list,
{
    let ghost all = body_models(list@);
    let ghost start = used@;
    assert(all.subrange(0, 0) =~= Seq::empty());
    let mut i: usize = 0;
    while i < list.len()
        invariant
            i <= list@.len(),
            all == body_models(list@),
            used@ == used_with_body(all.subrange(0, i as int), start),
        decreases list@.len() - i,
    {
        let ghost prefix = all.subrange(0, i + 1);
        assert(prefix.drop_last() =~= all.subrange(0, i as int));
        assert(decreases_to!(list => list@[i as int]));
        instruction_arguments(&list[i].1, used);
        i = i + 1;
    }
    assert(all.subrange(0, i as int) =~= all);
}

/// The functions with those that an instruction calls.
pub open spec fn called_with(instr: InstModel, called: Set<usize>) -> Set<usize>
    decreases instr,
{
    match instr {
        InstModel::If { then_branch, else_branch, .. } => called_with_list(
            else_branch,
            called_with_list(then_branch, called),
        ),
        InstModel::While { body, .. } => called_with_body(body, called),
        InstModel::CallSynthetic { function, .. } => called.insert(function.id),
        _ => called,
    }
}

pub open spec fn called_with_list(list: Seq<InstModel>, called: Set<usize>) -> Set<usize>
    decreases list,
{
    if list.len() == 0 {
        called
    } else {
        called_with(list[list.len() - 1], called_with_list(list.drop_last(), called))
    }
}

pub open spec fn called_with_body(list: Seq<(usize, InstModel)>, called: Set<usize>) -> Set<usize>
    decreases list,
{
    if list.len() == 0 {
        called
    } else {
        called_with(list[list.len() - 1].1, called_with_body(list.drop_last(), called))
    }
}

fn called_functions(instr: &IRInst, called: &mut KeySet<usize>)
    ensures
        final(called)@ == called_with(instr.model(), old(called)@),
    decreases instr,
{
    match instr {
        IRInst::If { then_branch, else_branch, .. } => {
            called_functions_list(then_branch, called);
            called_functions_list(else_branch, called);
        },
        IRInst::While { body, .. } => {
            called_functions_body(body, called);
        },
        IRInst::CallSynthetic { function, .. } => {
            called.insert(function.id);
        },
        _ => {},
    }
}

fn called_functions_list(list: &Vec<IRInst>, called: &mut KeySet<usize>)
    ensures
        final(called)@ == called_with_list(models(list@), old(called)@),
    decreases list,
{
    let ghost all = models(list@);
    let ghost start = called@;
    assert(all.subrange(0, 0) =~= Seq::empty());
    let mut i: usize = 0;
    while i < list.len()
        invariant
            i <= list@.len(),
            all == models(list@),
            called@ == called_with_list(all.subrange(0, i as int), start),
        decreases list@.len() - i,
    {
        let ghost prefix = all.subrange(0, i + 1);
        assert(prefix.drop_last() =~= all.subrange(0, i as int));
        assert(decreases_to!(list => list@[i as int]));
        called_functions(&list[i], called);
        i = i + 1;
    }
    assert(all.subrange(0, i as int) =~= all);
}

fn called_functions_body(list: &Vec<(usize, IRInst)>, called: &mut KeySet<usize>)
    ensures
        final(called)@ == called_with_body(body_models(list@), old(called)@),
    decreases list,
{
    let ghost all = body_models(list@);
    let ghost start = called@;
    assert(all.subrange(0, 0) =~= Seq::empty());
    let mut i: usize = 0;
    while i < list.len()
        invariant
            i <= list@.len(),
            all == body_models(list@),
            called@ == called_with_body(all.subrange(0, i as int), start),
        decreases list@.len() - i,
    {
        let ghost prefix = all.subrange(0, i + 1);
        assert(prefix.drop_last() =~= all.subrange(0, i as int));
        assert(decreases_to!(list => list@[i as int]));
        called_functions(&list[i].1, called);
        i = i + 1;
    }
    assert(all.subrange(0, i as int) =~= all);
}


/// The first `count` functions' arguments and calls.
pub open spec fn used_by(functions: Seq<FunctionModel>, count: int) -> Set<usize>
    decreases count,
{
    if count <= 0 {
        Set::empty()
    } else {
        used_with_body(functions[count - 1].body, used_by(functions, count - 1))
    }
}

pub open spec fn called_by(functions: Seq<FunctionModel>, count: int) -> Set<usize>
    decreases count,
{
    if count <= 0 {
        Set::empty()
    } else {
        called_with_body(functions[count - 1].body, called_by(functions, count - 1))
    }
}

/// The parameters without arguments that are not used.
pub open spec fn used_parameters(parameters: Seq<Parameter>, used: Set<usize>) -> Seq<Parameter>
    decreases parameters.len(),
{
    if parameters.len() == 0 {
        Seq::empty()
    } else {
        let before = used_parameters(parameters.drop_last(), used);
        match parameters.last() {
            Parameter::Argument { ordinal, .. } => if used.contains(ordinal) {
                before.push(parameters.last())
            } else {
                before
            },
            Parameter::Slot { .. } => before.push(parameters.last()),
        }
    }
}

/// A program whose entry, unless it is called, has only arguments that are used.
pub open spec fn program_with_used(program: ProgramModel) -> ProgramModel {
    match program.entry {
        None => program,
        Some(entry) => {
            let count = program.functions.len() as int;
            let id = entry.id as int;
            if id >= count || called_by(program.functions, count).contains(entry.id) {
                program
            } else {
                ProgramModel {
                    functions: program.functions.update(
                        id,
                        FunctionModel {
                            parameters: used_parameters(
                                program.functions[id].parameters,
                                used_by(program.functions, count),
                            ),
                            ..program.functions[id]
                        },
                    ),
                    ..program
                }
            }
        },
    }
}

fn keep_used(parameters: &Vec<Parameter>, used: &KeySet<usize>) -> (res: Vec<Parameter>)
    ensures
        res@ == used_parameters(parameters@, used@),
{
    let mut res: Vec<Parameter> = Vec::new();
    assert(parameters@.subrange(0, 0) =~= Seq::empty());
    let mut i: usize = 0;
    while i < parameters.len()
        invariant
            i <= parameters@.len(),
            res@ == used_parameters(parameters@.subrange(0, i as int), used@),
        decreases parameters@.len() - i,
    {
        let ghost prefix = parameters@.subrange(0, i + 1);
        assert(prefix.drop_last() =~= parameters@.subrange(0, i as int));
        let keep: bool = match parameters[i] {
            Parameter::Argument { ordinal, .. } => used.contains(ordinal),
            Parameter::Slot { .. } => true,
        };
        if keep {
            res.push(parameters[i]);
        }
        i = i + 1;
    }
    assert(parameters@.subrange(0, i as int) =~= parameters@);
    res
}

/// Removes the arguments of the entry that nothing uses.
pub fn prune_unused_entry_arguments(program: &mut Program)
    ensures
        final(program).model() == program_with_used(old(program).model()),
{
    let entry: usize = match program.entry {
        Some(entry) => if entry.id < program.functions.len() {
            entry.id
        } else {
            return
        },
        None => return,
    };
    let ghost all = function_models(program.functions@);
    let mut used: KeySet<usize> = KeySet::new();
    let mut called: KeySet<usize> = KeySet::new();
    let mut i: usize = 0;
    while i < program.functions.len()
        invariant
            i <= program.functions@.len(),
            all == function_models(program.functions@),
            used@ == used_by(all, i as int),
            called@ == called_by(all, i as int),
            *program == *old(program),
        decreases program.functions@.len() - i,
    {
        assert(all[i as int] == program.functions@[i as int].model());
        instruction_arguments_body(&program.functions[i].body, &mut used);
        called_functions_body(&program.functions[i].body, &mut called);
        i = i + 1;
    }
    if called.contains(entry) {
        return;
    }
    let kept: Vec<Parameter> = keep_used(&program.functions[entry].parameters, &used);
    let ghost before = *program;
    program.functions[entry].parameters = kept;
    assert(program.model().functions =~= program_with_used(before.model()).functions);
}

pub open spec fn body_collapsed(function: FunctionModel) -> Seq<(usize, InstModel)> {
    collapsed_body(function.body)
}

fn collapse_function(function: &SyntheticFunction) -> (res: Vec<(usize, IRInst)>)
    ensures
        body_models(res@) == body_collapsed(function.model()),
{
    collapse_constant_branches(&function.body)
}

pub open spec fn function_collapsed(function: FunctionModel) -> FunctionModel {
    FunctionModel { body: body_collapsed(function), ..function }
}

pub open spec fn program_collapsed(program: ProgramModel) -> ProgramModel {
    ProgramModel {
        functions: program.functions.map_values(|f: FunctionModel| function_collapsed(f)),
        ..program
    }
}

/// Collapses the branches on constants of every function.
pub fn collapse_branches(program: &mut Program)
    ensures
        final(program).model() == program_collapsed(old(program).model()),
{
    let ghost before = function_models(program.functions@);
    let ghost initial = *program;
    let total: usize = program.functions.len();
    let mut i: usize = 0;
    while i < total
        invariant
            i <= total,
            total == program.functions@.len(),
            total == before.len(),
            *program == (Program { functions: program.functions, ..initial }),
            forall|k: int|
                0 <= k < i ==> (#[trigger] program.functions@[k]).model() == function_collapsed(
                    before[k],
                ),
            forall|k: int|
                i <= k < total ==> (#[trigger] program.functions@[k]).model() == before[k],
        decreases total - i,
    {
        let body: Vec<(usize, IRInst)> = collapse_function(&program.functions[i]);
        program.functions[i].body = body;
        i = i + 1;
    }
    assert(program.model().functions =~= program_collapsed(initial.model()).functions);
}

pub open spec fn function_declared(function: FunctionModel) -> FunctionModel {
    FunctionModel { body: body_declared(function), ..function }
}

pub open spec fn program_declared(program: ProgramModel) -> ProgramModel {
    ProgramModel {
        functions: program.functions.map_values(|f: FunctionModel| function_declared(f)),
        ..program
    }
}

/// Removes the unused declarations of every function.
pub fn remove_declarations(program: &mut Program)
    ensures
        final(program).model() == program_declared(old(program).model()),
{
    let ghost before = function_models(program.functions@);
    let ghost initial = *program;
    let total: usize = program.functions.len();
    let mut i: usize = 0;
    while i < total
        invariant
            i <= total,
            total == program.functions@.len(),
            total == before.len(),
            *program == (Program { functions: program.functions, ..initial }),
            forall|k: int|
                0 <= k < i ==> (#[trigger] program.functions@[k]).model() == function_declared(
                    before[k],
                ),
            forall|k: int|
                i <= k < total ==> (#[trigger] program.functions@[k]).model() == before[k],
        decreases total - i,
    {
        let body: Vec<(usize, IRInst)> = remove_unused_declarations(&program.functions[i]);
        program.functions[i].body = body;
        i = i + 1;
    }
    assert(program.model().functions =~= program_declared(initial.model()).functions);
}

} // verus!
