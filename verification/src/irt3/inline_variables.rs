//! Inline single-use values while their inputs are unchanged.
use super::ir::{
    body_models, function_models, models, FunctionModel, IRExpr, IRInst, InstModel, Parameter,
    Program, ProgramModel, SyntheticFunction, VariableId, VariableType,
};
use vstd::prelude::*;

verus! {

/// One access of an instruction. This keeps the use and write analysis separate
/// from rewriting the instruction tree.
#[derive(Clone, Copy, Debug, PartialEq, Eq, Structural)]
pub enum Access {
    Read(VariableId),
    Write(VariableId),
    WriteMemory,
}

/// The accesses with those of an expression.
pub open spec fn read_by(expr: IRExpr, accesses: Seq<Access>) -> Seq<Access>
    decreases expr,
{
    match expr {
        IRExpr::BinOp { lhs, rhs, .. } => read_by(*rhs, read_by(*lhs, accesses)),
        IRExpr::Deref(address) => read_by(*address, accesses),
        IRExpr::CastUnknownPtr { address, .. } => read_by(*address, accesses),
        IRExpr::Convert { value, .. } => read_by(*value, accesses),
        IRExpr::Variable(variable) => accesses.push(Access::Read(variable)),
        IRExpr::Not(inner) => read_by(*inner, accesses),
        _ => accesses,
    }
}

fn expression_accesses(expr: &IRExpr, accesses: &mut Vec<Access>)
    ensures
        final(accesses)@ == read_by(*expr, old(accesses)@),
    decreases expr,
{
    match expr {
        IRExpr::BinOp { lhs, rhs, .. } => {
            expression_accesses(lhs, accesses);
            expression_accesses(rhs, accesses);
        },
        IRExpr::Deref(address) => {
            expression_accesses(address, accesses);
        },
        IRExpr::CastUnknownPtr { address, .. } => {
            expression_accesses(address, accesses);
        },
        IRExpr::Convert { value, .. } => {
            expression_accesses(value, accesses);
        },
        IRExpr::Variable(variable) => {
            accesses.push(Access::Read(*variable));
        },
        IRExpr::Not(inner) => {
            expression_accesses(inner, accesses);
        },
        _ => {},
    }
}

pub open spec fn read_by_all(list: Seq<IRExpr>, accesses: Seq<Access>) -> Seq<Access>
    decreases list.len(),
{
    if list.len() == 0 {
        accesses
    } else {
        read_by(list.last(), read_by_all(list.drop_last(), accesses))
    }
}

fn expression_accesses_all(list: &Vec<IRExpr>, accesses: &mut Vec<Access>)
    ensures
        final(accesses)@ == read_by_all(list@, old(accesses)@),
{
    let ghost start = accesses@;
    assert(list@.subrange(0, 0) =~= Seq::empty());
    let mut i: usize = 0;
    while i < list.len()
        invariant
            i <= list@.len(),
            accesses@ == read_by_all(list@.subrange(0, i as int), start),
        decreases list@.len() - i,
    {
        let ghost prefix = list@.subrange(0, i + 1);
        assert(prefix.drop_last() =~= list@.subrange(0, i as int));
        expression_accesses(&list[i], accesses);
        i = i + 1;
    }
    assert(list@.subrange(0, i as int) =~= list@);
}

/// The accesses with those of an instruction.
pub open spec fn accessed_by(instr: InstModel, accesses: Seq<Access>) -> Seq<Access>
    decreases instr,
{
    match instr {
        InstModel::Assign { dest, src } => match dest {
            IRExpr::Variable(variable) => read_by(src, accesses).push(Access::Write(variable)),
            _ => read_by(dest, read_by(src, accesses)).push(Access::WriteMemory),
        },
        InstModel::Return(value) => match value {
            Some(value) => read_by(value, accesses),
            None => accesses,
        },
        InstModel::AssignVariable { variable, value } => read_by(value, accesses).push(
            Access::Write(variable),
        ),
        InstModel::LoadVariable { variable, address } => read_by(address, accesses).push(
            Access::Write(variable),
        ),
        InstModel::StoreVariable { address, variable } => read_by(address, accesses).push(
            Access::Read(variable),
        ).push(
            Access::WriteMemory,
        ),
        InstModel::If { condition, then_branch, else_branch } => accessed_by_list(
            else_branch,
            accessed_by_list(then_branch, read_by(condition, accesses)),
        ),
        InstModel::Loop { body, .. } => accessed_by_body(body, accesses),
        InstModel::CallSynthetic { arguments, .. } => read_by_all(arguments, accesses),
        InstModel::Jump(target) => read_by(target, accesses),
        _ => accesses,
    }
}

pub open spec fn accessed_by_list(list: Seq<InstModel>, accesses: Seq<Access>) -> Seq<Access>
    decreases list,
{
    if list.len() == 0 {
        accesses
    } else {
        accessed_by(list[list.len() - 1], accessed_by_list(list.drop_last(), accesses))
    }
}

pub open spec fn accessed_by_body(
    list: Seq<(usize, InstModel)>,
    accesses: Seq<Access>,
) -> Seq<Access>
    decreases list,
{
    if list.len() == 0 {
        accesses
    } else {
        accessed_by(list[list.len() - 1].1, accessed_by_body(list.drop_last(), accesses))
    }
}

fn instruction_accesses(instr: &IRInst, accesses: &mut Vec<Access>)
    ensures
        final(accesses)@ == accessed_by(instr.model(), old(accesses)@),
    decreases instr,
{
    match instr {
        IRInst::Assign { dest, src } => {
            expression_accesses(src, accesses);
            match dest {
                IRExpr::Variable(variable) => {
                    accesses.push(Access::Write(*variable));
                },
                _ => {
                    expression_accesses(dest, accesses);
                    accesses.push(Access::WriteMemory);
                },
            }
        },
        IRInst::Return(value) => {
            if let Some(value) = value {
                expression_accesses(value, accesses);
            }
        },
        IRInst::AssignVariable { variable, value } => {
            expression_accesses(value, accesses);
            accesses.push(Access::Write(*variable));
        },
        IRInst::LoadVariable { variable, address } => {
            expression_accesses(address, accesses);
            accesses.push(Access::Write(*variable));
        },
        IRInst::StoreVariable { address, variable } => {
            expression_accesses(address, accesses);
            accesses.push(Access::Read(*variable));
            accesses.push(Access::WriteMemory);
        },
        IRInst::If { condition, then_branch, else_branch } => {
            expression_accesses(condition, accesses);
            instruction_accesses_list(then_branch, accesses);
            instruction_accesses_list(else_branch, accesses);
        },
        IRInst::Loop { body, .. } => {
            instruction_accesses_body(body, accesses);
        },
        IRInst::CallSynthetic { arguments, .. } => {
            expression_accesses_all(arguments, accesses);
        },
        IRInst::Jump(target) => {
            expression_accesses(target, accesses);
        },
        _ => {},
    }
}

fn instruction_accesses_list(list: &Vec<IRInst>, accesses: &mut Vec<Access>)
    ensures
        final(accesses)@ == accessed_by_list(models(list@), old(accesses)@),
    decreases list,
{
    let ghost all = models(list@);
    let ghost start = accesses@;
    assert(all.subrange(0, 0) =~= Seq::empty());
    let mut i: usize = 0;
    while i < list.len()
        invariant
            i <= list@.len(),
            all == models(list@),
            accesses@ == accessed_by_list(all.subrange(0, i as int), start),
        decreases list@.len() - i,
    {
        let ghost prefix = all.subrange(0, i + 1);
        assert(prefix.drop_last() =~= all.subrange(0, i as int));
        assert(decreases_to!(list => list@[i as int]));
        instruction_accesses(&list[i], accesses);
        i = i + 1;
    }
    assert(all.subrange(0, i as int) =~= all);
}

fn instruction_accesses_body(list: &Vec<(usize, IRInst)>, accesses: &mut Vec<Access>)
    ensures
        final(accesses)@ == accessed_by_body(body_models(list@), old(accesses)@),
    decreases list,
{
    let ghost all = body_models(list@);
    let ghost start = accesses@;
    assert(all.subrange(0, 0) =~= Seq::empty());
    let mut i: usize = 0;
    while i < list.len()
        invariant
            i <= list@.len(),
            all == body_models(list@),
            accesses@ == accessed_by_body(all.subrange(0, i as int), start),
        decreases list@.len() - i,
    {
        let ghost prefix = all.subrange(0, i + 1);
        assert(prefix.drop_last() =~= all.subrange(0, i as int));
        assert(decreases_to!(list => list@[i as int]));
        instruction_accesses(&list[i].1, accesses);
        i = i + 1;
    }
    assert(all.subrange(0, i as int) =~= all);
}

/// Whether an expression reads the variable.
pub open spec fn mentions(expr: IRExpr, slot: VariableId) -> bool
    decreases expr,
{
    match expr {
        IRExpr::BinOp { lhs, rhs, .. } => mentions(*lhs, slot) || mentions(*rhs, slot),
        IRExpr::Deref(address) => mentions(*address, slot),
        IRExpr::CastUnknownPtr { address, .. } => mentions(*address, slot),
        IRExpr::Convert { value, .. } => mentions(*value, slot),
        IRExpr::Variable(variable) => variable == slot,
        IRExpr::Not(inner) => mentions(*inner, slot),
        _ => false,
    }
}

pub fn reads_variable(expr: &IRExpr, slot: VariableId) -> (res: bool)
    ensures
        res == mentions(*expr, slot),
    decreases expr,
{
    match expr {
        IRExpr::BinOp { lhs, rhs, .. } => reads_variable(lhs, slot) || reads_variable(rhs, slot),
        IRExpr::Deref(address) => reads_variable(address, slot),
        IRExpr::CastUnknownPtr { address, .. } => reads_variable(address, slot),
        IRExpr::Convert { value, .. } => reads_variable(value, slot),
        IRExpr::Variable(variable) => *variable == slot,
        IRExpr::Not(inner) => reads_variable(inner, slot),
        _ => false,
    }
}

/// Whether an expression reads memory.
pub open spec fn loads(expr: IRExpr) -> bool
    decreases expr,
{
    match expr {
        IRExpr::BinOp { lhs, rhs, .. } => loads(*lhs) || loads(*rhs),
        IRExpr::Deref(_) => true,
        IRExpr::CastUnknownPtr { address, .. } => loads(*address),
        IRExpr::Convert { value, .. } => loads(*value),
        IRExpr::Data(_) => true,
        IRExpr::Not(inner) => loads(*inner),
        _ => false,
    }
}

pub fn reads_memory(expr: &IRExpr) -> (res: bool)
    ensures
        res == loads(*expr),
    decreases expr,
{
    match expr {
        IRExpr::BinOp { lhs, rhs, .. } => reads_memory(lhs) || reads_memory(rhs),
        IRExpr::Deref(_) => true,
        IRExpr::CastUnknownPtr { address, .. } => reads_memory(address),
        IRExpr::Convert { value, .. } => reads_memory(value),
        IRExpr::Data(_) => true,
        IRExpr::Not(inner) => reads_memory(inner),
        _ => false,
    }
}

/// The expression with a variable replaced by its value.
pub open spec fn substituted(expr: IRExpr, slot: VariableId, replacement: IRExpr) -> IRExpr
    decreases expr,
{
    match expr {
        IRExpr::BinOp { kind, lhs, rhs } => IRExpr::BinOp {
            kind,
            lhs: Box::new(substituted(*lhs, slot, replacement)),
            rhs: Box::new(substituted(*rhs, slot, replacement)),
        },
        IRExpr::Deref(address) => IRExpr::Deref(Box::new(substituted(*address, slot, replacement))),
        IRExpr::CastUnknownPtr { address, size } => IRExpr::CastUnknownPtr {
            address: Box::new(substituted(*address, slot, replacement)),
            size,
        },
        IRExpr::Convert { value, source, target } => IRExpr::Convert {
            value: Box::new(substituted(*value, slot, replacement)),
            source,
            target,
        },
        IRExpr::Variable(variable) => if variable == slot {
            replacement
        } else {
            expr
        },
        IRExpr::Not(inner) => IRExpr::Not(Box::new(substituted(*inner, slot, replacement))),
        _ => expr,
    }
}

pub open spec fn substituted_all(
    list: Seq<IRExpr>,
    slot: VariableId,
    replacement: IRExpr,
) -> Seq<IRExpr> {
    Seq::new(list.len(), |i: int| substituted(list[i], slot, replacement))
}

fn replace_expression(expr: &IRExpr, slot: VariableId, replacement: &IRExpr) -> (res: IRExpr)
    ensures
        res == substituted(*expr, slot, *replacement),
    decreases expr,
{
    match expr {
        IRExpr::BinOp { kind, lhs, rhs } => IRExpr::BinOp {
            kind: *kind,
            lhs: Box::new(replace_expression(lhs, slot, replacement)),
            rhs: Box::new(replace_expression(rhs, slot, replacement)),
        },
        IRExpr::Deref(address) => IRExpr::Deref(
            Box::new(replace_expression(address, slot, replacement)),
        ),
        IRExpr::CastUnknownPtr { address, size } => IRExpr::CastUnknownPtr {
            address: Box::new(replace_expression(address, slot, replacement)),
            size: *size,
        },
        IRExpr::Convert { value, source, target } => IRExpr::Convert {
            value: Box::new(replace_expression(value, slot, replacement)),
            source: *source,
            target: *target,
        },
        IRExpr::Variable(variable) => if *variable == slot {
            replacement.clone()
        } else {
            IRExpr::Variable(*variable)
        },
        IRExpr::Not(inner) => IRExpr::Not(Box::new(replace_expression(inner, slot, replacement))),
        _ => expr.clone(),
    }
}

fn replace_expression_all(
    list: &Vec<IRExpr>,
    slot: VariableId,
    replacement: &IRExpr,
) -> (res: Vec<IRExpr>)
    ensures
        res@ == substituted_all(list@, slot, *replacement),
{
    let mut res: Vec<IRExpr> = Vec::new();
    let mut i: usize = 0;
    while i < list.len()
        invariant
            i <= list@.len(),
            res@.len() == i,
            forall|k: int| 0 <= k < i ==> (#[trigger] res@[k]) == substituted(
                list@[k],
                slot,
                *replacement,
            ),
        decreases list@.len() - i,
    {
        res.push(replace_expression(&list[i], slot, replacement));
        i = i + 1;
    }
    assert(res@ =~= substituted_all(list@, slot, *replacement));
    res
}

/// The instruction with the reads of a variable replaced by its value.
pub open spec fn substituted_in(
    instr: InstModel,
    slot: VariableId,
    replacement: IRExpr,
) -> InstModel
    decreases instr,
{
    match instr {
        InstModel::Assign { dest, src } => InstModel::Assign {
            dest: match dest {
                IRExpr::Variable(_) => dest,
                _ => substituted(dest, slot, replacement),
            },
            src: substituted(src, slot, replacement),
        },
        InstModel::Return(value) => InstModel::Return(match value {
                Some(value) => Some(substituted(value, slot, replacement)),
                None => None,
            }),
        InstModel::AssignVariable { variable, value } => InstModel::AssignVariable {
            variable,
            value: substituted(value, slot, replacement),
        },
        InstModel::LoadVariable { variable, address } => InstModel::LoadVariable {
            variable,
            address: substituted(address, slot, replacement),
        },
        InstModel::StoreVariable { address, variable } => if variable == slot {
            InstModel::Assign {
                dest: IRExpr::Deref(Box::new(substituted(address, slot, replacement))),
                src: replacement,
            }
        } else {
            InstModel::StoreVariable {
                address: substituted(address, slot, replacement),
                variable,
            }
        },
        InstModel::If { condition, then_branch, else_branch } => InstModel::If {
            condition: substituted(condition, slot, replacement),
            then_branch: substituted_in_list(then_branch, slot, replacement),
            else_branch: substituted_in_list(else_branch, slot, replacement),
        },
        InstModel::Loop { label, entry_offset, body } => InstModel::Loop {
            label,
            entry_offset,
            body: substituted_in_body(body, slot, replacement),
        },
        InstModel::CallSynthetic { function, arguments } => InstModel::CallSynthetic {
            function,
            arguments: substituted_all(arguments, slot, replacement),
        },
        InstModel::Jump(target) => InstModel::Jump(substituted(target, slot, replacement)),
        _ => instr,
    }
}

pub open spec fn substituted_in_list(
    list: Seq<InstModel>,
    slot: VariableId,
    replacement: IRExpr,
) -> Seq<InstModel>
    decreases list,
{
    Seq::new(
        list.len(),
        |i: int|
            if 0 <= i < list.len() {
                substituted_in(list[i], slot, replacement)
            } else {
                arbitrary()
            },
    )
}

pub open spec fn substituted_in_body(
    list: Seq<(usize, InstModel)>,
    slot: VariableId,
    replacement: IRExpr,
) -> Seq<(usize, InstModel)>
    decreases list,
{
    Seq::new(
        list.len(),
        |i: int|
            if 0 <= i < list.len() {
                (list[i].0, substituted_in(list[i].1, slot, replacement))
            } else {
                arbitrary()
            },
    )
}

fn replace_instruction(instr: &IRInst, slot: VariableId, replacement: &IRExpr) -> (res: IRInst)
    ensures
        res.model() == substituted_in(instr.model(), slot, *replacement),
    decreases instr,
{
    match instr {
        IRInst::Assign { dest, src } => IRInst::Assign {
            dest: match dest {
                IRExpr::Variable(variable) => IRExpr::Variable(*variable),
                _ => replace_expression(dest, slot, replacement),
            },
            src: replace_expression(src, slot, replacement),
        },
        IRInst::Return(value) => IRInst::Return(match value {
                Some(value) => Some(replace_expression(value, slot, replacement)),
                None => None,
            }),
        IRInst::AssignVariable { variable, value } => IRInst::AssignVariable {
            variable: *variable,
            value: replace_expression(value, slot, replacement),
        },
        IRInst::LoadVariable { variable, address } => IRInst::LoadVariable {
            variable: *variable,
            address: replace_expression(address, slot, replacement),
        },
        IRInst::StoreVariable { address, variable } => if *variable == slot {
            IRInst::Assign {
                dest: IRExpr::Deref(Box::new(replace_expression(address, slot, replacement))),
                src: replacement.clone(),
            }
        } else {
            IRInst::StoreVariable {
                address: replace_expression(address, slot, replacement),
                variable: *variable,
            }
        },
        IRInst::If { condition, then_branch, else_branch } => IRInst::If {
            condition: replace_expression(condition, slot, replacement),
            then_branch: replace_instruction_list(then_branch, slot, replacement),
            else_branch: replace_instruction_list(else_branch, slot, replacement),
        },
        IRInst::Loop { label, entry_offset, body } => IRInst::Loop {
            label: *label,
            entry_offset: *entry_offset,
            body: replace_instruction_body(body, slot, replacement),
        },
        IRInst::CallSynthetic { function, arguments } => IRInst::CallSynthetic {
            function: *function,
            arguments: replace_expression_all(arguments, slot, replacement),
        },
        IRInst::Jump(target) => IRInst::Jump(replace_expression(target, slot, replacement)),
        _ => instr.clone(),
    }
}

fn replace_instruction_list(
    list: &Vec<IRInst>,
    slot: VariableId,
    replacement: &IRExpr,
) -> (res: Vec<IRInst>)
    ensures
        models(res@) == substituted_in_list(models(list@), slot, *replacement),
    decreases list,
{
    let ghost all = models(list@);
    let mut res: Vec<IRInst> = Vec::new();
    let mut i: usize = 0;
    while i < list.len()
        invariant
            i <= list@.len(),
            all == models(list@),
            res@.len() == i,
            forall|k: int| 0 <= k < i ==> (#[trigger] res@[k]).model() == substituted_in(
                all[k],
                slot,
                *replacement,
            ),
        decreases list@.len() - i,
    {
        assert(decreases_to!(list => list@[i as int]));
        res.push(replace_instruction(&list[i], slot, replacement));
        i = i + 1;
    }
    assert(models(res@) =~= substituted_in_list(all, slot, *replacement));
    res
}

fn replace_instruction_body(
    list: &Vec<(usize, IRInst)>,
    slot: VariableId,
    replacement: &IRExpr,
) -> (res: Vec<(usize, IRInst)>)
    ensures
        body_models(res@) == substituted_in_body(body_models(list@), slot, *replacement),
    decreases list,
{
    let ghost all = body_models(list@);
    let mut res: Vec<(usize, IRInst)> = Vec::new();
    let mut i: usize = 0;
    while i < list.len()
        invariant
            i <= list@.len(),
            all == body_models(list@),
            res@.len() == i,
            forall|k: int| 0 <= k < i ==> (#[trigger] res@[k]).0 == all[k].0 && res@[k].1.model() == substituted_in(
                all[k].1,
                slot,
                *replacement,
            ),
        decreases list@.len() - i,
    {
        assert(decreases_to!(list => list@[i as int]));
        res.push((list[i].0, replace_instruction(&list[i].1, slot, replacement)));
        i = i + 1;
    }
    assert(body_models(res@) =~= substituted_in_body(all, slot, *replacement));
    res
}

// ---------------------------------------------------------------------------
// Candidates

/// The accesses of an instruction, in order.
pub open spec fn accesses_of(instr: InstModel) -> Seq<Access> {
    accessed_by(instr, Seq::empty())
}

/// How often an access occurs.
pub open spec fn times(accesses: Seq<Access>, access: Access) -> nat
    decreases accesses.len(),
{
    if accesses.len() == 0 {
        0
    } else {
        times(accesses.drop_last(), access) + if accesses.last() == access {
            1nat
        } else {
            0nat
        }
    }
}

/// How often an access occurs in the first `count` instructions.
pub open spec fn times_in(body: Seq<(usize, InstModel)>, access: Access, count: int) -> nat
    decreases count,
{
    if count <= 0 {
        0
    } else {
        times_in(body, access, count - 1) + times(accesses_of(body[count - 1].1), access)
    }
}

/// The first instruction from a position on that has the access.
pub open spec fn first_with(body: Seq<(usize, InstModel)>, access: Access, from: int) -> int
    decreases body.len() - from,
{
    if from < 0 || from >= body.len() {
        body.len() as int
    } else if times(accesses_of(body[from].1), access) > 0 {
        from
    } else {
        first_with(body, access, from + 1)
    }
}

/// Whether an access changes what a value is made of. A dereference depends on
/// both its address and the memory it reads.
pub open spec fn disturbs(access: Access, value: IRExpr) -> bool {
    match access {
        Access::Read(_) => false,
        Access::Write(variable) => mentions(value, variable),
        Access::WriteMemory => loads(value),
    }
}

pub open spec fn any_disturbs(accesses: Seq<Access>, value: IRExpr) -> bool
    decreases accesses.len(),
{
    accesses.len() > 0 && (any_disturbs(accesses.drop_last(), value) || disturbs(
        accesses.last(),
        value,
    ))
}

/// Whether an instruction in a range changes what a value is made of.
pub open spec fn disturbed_between(
    body: Seq<(usize, InstModel)>,
    value: IRExpr,
    from: int,
    to: int,
) -> bool
    decreases to - from,
{
    from < to && (any_disturbs(accesses_of(body[from].1), value) || disturbed_between(
        body,
        value,
        from + 1,
        to,
    ))
}

/// The variable that an instruction defines, and its value.
pub open spec fn definition_of(instr: InstModel) -> Option<(VariableId, IRExpr)> {
    match instr {
        InstModel::AssignVariable { variable, value } => Some((variable, value)),
        InstModel::LoadVariable { variable, address } => Some(
            (variable, IRExpr::Deref(Box::new(address))),
        ),
        _ => None,
    }
}

pub open spec fn is_parameter(parameters: Seq<Parameter>, variable: VariableId) -> bool {
    exists|i: int|
        0 <= i < parameters.len() && (#[trigger] parameters[i]).local() == Some(variable)
}

pub open spec fn declares_bool(instr: InstModel, variable: VariableId) -> bool {
    instr == (InstModel::DeclareVariable { variable, ty: VariableType::Bool })
}

pub open spec fn is_bool_slot(body: Seq<(usize, InstModel)>, variable: VariableId) -> bool {
    exists|i: int| 0 <= i < body.len() && declares_bool((#[trigger] body[i]).1, variable)
}

/// Whether the variable is used in the condition of a branch.
pub open spec fn used_in_condition(instr: InstModel, variable: VariableId) -> bool {
    match instr {
        InstModel::If { condition, .. } => mentions(condition, variable),
        _ => false,
    }
}

/// The definition at a position, with the instruction that it can be inlined
/// into: it is the only write of a variable that is read just once, later, and
/// nothing in between changes what the value is made of.
pub open spec fn candidate_at(function: FunctionModel, definition: int) -> Option<
    (VariableId, int, IRExpr),
> {
    let body = function.body;
    match definition_of(body[definition].1) {
        None => None,
        Some((variable, value)) => {
            let total = body.len() as int;
            let at = first_with(body, Access::Read(variable), 0);
            let condition_use = used_in_condition(body[at].1, variable);
            let ordinary = value is BinOp || value is Variable || value is Deref;
            // A use in a condition precedes the arms. A use inside an arm may
            // follow writes in that arm, so those count as well.
            let nested = (body[at].1 is If && !condition_use) || body[at].1 is Loop;
            if is_parameter(function.parameters, variable) {
                None
            } else if times_in(body, Access::Read(variable), total) != 1 || times_in(
                body,
                Access::Write(variable),
                total,
            ) != 1 || at <= definition {
                None
            } else if !ordinary && !(is_bool_slot(body, variable) && condition_use) {
                None
            } else if loads(value) && nested {
                None
            } else if disturbed_between(
                body,
                value,
                definition + 1,
                if nested {
                    at + 1
                } else {
                    at
                },
            ) {
                None
            } else {
                Some((variable, at, value))
            }
        },
    }
}

/// The first definition from a position on that can be inlined.
pub open spec fn candidate_from(function: FunctionModel, from: int) -> Option<
    (VariableId, int, int, IRExpr),
>
    decreases function.body.len() - from,
{
    if from < 0 || from >= function.body.len() {
        None
    } else {
        match candidate_at(function, from) {
            Some((variable, at, value)) => Some((variable, from, at, value)),
            None => candidate_from(function, from + 1),
        }
    }
}

/// The accesses of every instruction of a body.
fn collect_accesses(body: &Vec<(usize, IRInst)>) -> (res: Vec<Vec<Access>>)
    ensures
        res@.len() == body@.len(),
        forall|k: int|
            0 <= k < body@.len() ==> (#[trigger] res@[k])@ == accesses_of(body@[k].1.model()),
{
    let mut res: Vec<Vec<Access>> = Vec::new();
    let mut i: usize = 0;
    while i < body.len()
        invariant
            i <= body@.len(),
            res@.len() == i,
            forall|k: int|
                0 <= k < i ==> (#[trigger] res@[k])@ == accesses_of(body@[k].1.model()),
        decreases body@.len() - i,
    {
        let mut accesses: Vec<Access> = Vec::new();
        instruction_accesses(&body[i].1, &mut accesses);
        res.push(accesses);
        i = i + 1;
    }
    res
}

/// Whether the lists are the accesses of the instructions.
spec fn recorded(lists: Seq<Vec<Access>>, body: Seq<(usize, InstModel)>) -> bool {
    &&& lists.len() == body.len()
    &&& forall|k: int| 0 <= k < body.len() ==> (#[trigger] lists[k])@ == accesses_of(body[k].1)
}

/// How often an access occurs, counted up to two.
fn count_up_to_two(accesses: &Vec<Access>, access: Access) -> (res: usize)
    ensures
        res <= 2,
        res == (if times(accesses@, access) >= 2 {
            2
        } else {
            times(accesses@, access) as int
        }),
{
    let mut res: usize = 0;
    assert(accesses@.subrange(0, 0) =~= Seq::empty());
    let mut i: usize = 0;
    while i < accesses.len()
        invariant
            i <= accesses@.len(),
            res <= 2,
            ({
                let found = times(accesses@.subrange(0, i as int), access);
                res == (if found >= 2 {
                    2
                } else {
                    found as int
                })
            }),
        decreases accesses@.len() - i,
    {
        let ghost prefix = accesses@.subrange(0, i + 1);
        assert(prefix.drop_last() =~= accesses@.subrange(0, i as int));
        if accesses[i] == access && res < 2 {
            res = res + 1;
        }
        i = i + 1;
    }
    assert(accesses@.subrange(0, i as int) =~= accesses@);
    res
}

/// Whether an access occurs exactly once in a body.
fn occurs_once(
    lists: &Vec<Vec<Access>>,
    access: Access,
    Ghost(body): Ghost<Seq<(usize, InstModel)>>,
) -> (res: bool)
    requires
        recorded(lists@, body),
    ensures
        res == (times_in(body, access, body.len() as int) == 1),
{
    let mut found: usize = 0;
    let mut i: usize = 0;
    while i < lists.len()
        invariant
            i <= lists@.len(),
            recorded(lists@, body),
            found <= 2,
            ({
                let all = times_in(body, access, i as int);
                found == (if all >= 2 {
                    2
                } else {
                    all as int
                })
            }),
        decreases lists@.len() - i,
    {
        assert(lists@[i as int]@ == accesses_of(body[i as int].1));
        let here: usize = count_up_to_two(&lists[i], access);
        found = if found + here >= 2 {
            2
        } else {
            found + here
        };
        i = i + 1;
    }
    found == 1
}

fn find_first(
    lists: &Vec<Vec<Access>>,
    access: Access,
    Ghost(body): Ghost<Seq<(usize, InstModel)>>,
) -> (res: usize)
    requires
        recorded(lists@, body),
    ensures
        res == first_with(body, access, 0),
        res <= body.len(),
{
    let mut i: usize = 0;
    while i < lists.len()
        invariant
            i <= lists@.len(),
            recorded(lists@, body),
            first_with(body, access, 0) == first_with(body, access, i as int),
        decreases lists@.len() - i,
    {
        assert(lists@[i as int]@ == accesses_of(body[i as int].1));
        if count_up_to_two(&lists[i], access) > 0 {
            return i;
        }
        i = i + 1;
    }
    i
}

fn list_disturbs(accesses: &Vec<Access>, value: &IRExpr) -> (res: bool)
    ensures
        res == any_disturbs(accesses@, *value),
{
    let mut res: bool = false;
    assert(accesses@.subrange(0, 0) =~= Seq::empty());
    let mut i: usize = 0;
    while i < accesses.len()
        invariant
            i <= accesses@.len(),
            res == any_disturbs(accesses@.subrange(0, i as int), *value),
        decreases accesses@.len() - i,
    {
        let ghost prefix = accesses@.subrange(0, i + 1);
        assert(prefix.drop_last() =~= accesses@.subrange(0, i as int));
        res = res || match accesses[i] {
            Access::Read(_) => false,
            Access::Write(variable) => reads_variable(value, variable),
            Access::WriteMemory => reads_memory(value),
        };
        i = i + 1;
    }
    assert(accesses@.subrange(0, i as int) =~= accesses@);
    res
}

fn any_between(
    lists: &Vec<Vec<Access>>,
    value: &IRExpr,
    from: usize,
    to: usize,
    Ghost(body): Ghost<Seq<(usize, InstModel)>>,
) -> (res: bool)
    requires
        recorded(lists@, body),
        from <= to <= lists@.len(),
    ensures
        res == disturbed_between(body, *value, from as int, to as int),
{
    let mut i: usize = from;
    while i < to
        invariant
            from <= i <= to,
            to <= lists@.len(),
            recorded(lists@, body),
            disturbed_between(body, *value, from as int, to as int) == disturbed_between(
                body,
                *value,
                i as int,
                to as int,
            ),
        decreases to - i,
    {
        assert(lists@[i as int]@ == accesses_of(body[i as int].1));
        if list_disturbs(&lists[i], value) {
            return true;
        }
        i = i + 1;
    }
    false
}

fn parameter_slot(parameters: &Vec<Parameter>, variable: VariableId) -> (res: bool)
    ensures
        res == is_parameter(parameters@, variable),
{
    let mut i: usize = 0;
    while i < parameters.len()
        invariant
            i <= parameters@.len(),
            forall|k: int|
                0 <= k < i ==> (#[trigger] parameters@[k]).local() != Some(variable),
        decreases parameters@.len() - i,
    {
        if let Some(local) = parameters[i].variable() {
            if local == variable {
                return true;
            }
        }
        i = i + 1;
    }
    false
}

fn bool_slot(body: &Vec<(usize, IRInst)>, variable: VariableId) -> (res: bool)
    ensures
        res == is_bool_slot(body_models(body@), variable),
{
    let ghost all = body_models(body@);
    let mut i: usize = 0;
    while i < body.len()
        invariant
            i <= body@.len(),
            all == body_models(body@),
            forall|k: int| 0 <= k < i ==> !declares_bool((#[trigger] all[k]).1, variable),
        decreases body@.len() - i,
    {
        assert(all[i as int].1 == body@[i as int].1.model());
        if let IRInst::DeclareVariable { variable: slot, ty } = &body[i].1 {
            if *slot == variable && *ty == VariableType::Bool {
                assert(declares_bool(all[i as int].1, variable));
                return true;
            }
        }
        i = i + 1;
    }
    false
}

fn check_candidate(
    function: &SyntheticFunction,
    lists: &Vec<Vec<Access>>,
    definition: usize,
) -> (res: Option<(VariableId, usize, IRExpr)>)
    requires
        definition < function.body@.len(),
        recorded(lists@, function.model().body),
    ensures
        match res {
            Some((variable, at, value)) => candidate_at(function.model(), definition as int)
                == Some((variable, at as int, value)) && definition < at < function.body@.len(),
            None => candidate_at(function.model(), definition as int) is None,
        },
{
    let ghost body = function.model().body;
    assert(body[definition as int].1 == function.body@[definition as int].1.model());
    let (variable, value) = match &function.body[definition].1 {
        IRInst::AssignVariable { variable, value } => (*variable, value.clone()),
        IRInst::LoadVariable { variable, address } => (
            *variable,
            IRExpr::Deref(Box::new(address.clone())),
        ),
        _ => return None,
    };
    if parameter_slot(&function.parameters, variable) {
        return None;
    }
    let read: bool = occurs_once(lists, Access::Read(variable), Ghost(body));
    let written: bool = occurs_once(lists, Access::Write(variable), Ghost(body));
    if !read || !written {
        return None;
    }
    let at: usize = find_first(lists, Access::Read(variable), Ghost(body));
    if at <= definition {
        return None;
    }
    if at >= function.body.len() {
        proof {
            lemma_absent(body, Access::Read(variable), 0);
            lemma_counts_absent(body, Access::Read(variable), body.len() as int);
        }
        return None;
    }
    assert(body[at as int].1 == function.body@[at as int].1.model());
    let condition_use: bool = match &function.body[at].1 {
        IRInst::If { condition, .. } => reads_variable(condition, variable),
        _ => false,
    };
    let ordinary: bool = matches!(
        value,
        IRExpr::BinOp { .. } | IRExpr::Variable(_) | IRExpr::Deref(_)
    );
    // Boolean slots are also safe to fold into their sole condition, including
    // comparisons, negation, disjunction, and constants.
    if !ordinary && !(bool_slot(&function.body, variable) && condition_use) {
        return None;
    }
    let nested: bool = (matches!(function.body[at].1, IRInst::If { .. }) && !condition_use)
        || matches!(function.body[at].1, IRInst::Loop { .. });
    // A snapshot load must not become conditional or repeat in a loop.
    if reads_memory(&value) && nested {
        return None;
    }
    let end: usize = if nested {
        at + 1
    } else {
        at
    };
    if any_between(lists, &value, definition + 1, end, Ghost(body)) {
        return None;
    }
    Some((variable, at, value))
}

pub proof fn lemma_absent(body: Seq<(usize, InstModel)>, access: Access, from: int)
    requires
        0 <= from <= body.len(),
        first_with(body, access, from) >= body.len(),
    ensures
        forall|k: int|
            from <= k < body.len() ==> times(accesses_of((#[trigger] body[k]).1), access) == 0,
    decreases body.len() - from,
{
    if from < body.len() {
        lemma_absent(body, access, from + 1);
    }
}

pub proof fn lemma_counts_absent(body: Seq<(usize, InstModel)>, access: Access, count: int)
    requires
        0 <= count <= body.len(),
        forall|k: int|
            0 <= k < body.len() ==> times(accesses_of((#[trigger] body[k]).1), access) == 0,
    ensures
        times_in(body, access, count) == 0,
    decreases count,
{
    if count > 0 {
        lemma_counts_absent(body, access, count - 1);
    }
}

/// The first definition that can be inlined, with where and what.
fn candidate(function: &SyntheticFunction) -> (res: Option<(VariableId, usize, usize, IRExpr)>)
    ensures
        match res {
            Some((variable, definition, at, value)) => candidate_from(function.model(), 0)
                == Some((variable, definition as int, at as int, value)) && definition < at
                < function.body@.len(),
            None => candidate_from(function.model(), 0) is None,
        },
{
    let lists: Vec<Vec<Access>> = collect_accesses(&function.body);
    let ghost model = function.model();
    let mut i: usize = 0;
    while i < function.body.len()
        invariant
            i <= function.body@.len(),
            model == function.model(),
            recorded(lists@, model.body),
            candidate_from(model, 0) == candidate_from(model, i as int),
        decreases function.body@.len() - i,
    {
        if let Some((variable, at, value)) = check_candidate(function, &lists, i) {
            return Some((variable, i, at, value));
        }
        i = i + 1;
    }
    None
}

// ---------------------------------------------------------------------------
// Inlining

/// A body without the declarations of a variable.
pub open spec fn undeclared(body: Seq<(usize, InstModel)>, slot: VariableId) -> Seq<
    (usize, InstModel),
>
    decreases body.len(),
{
    if body.len() == 0 {
        Seq::empty()
    } else {
        let front = undeclared(body.drop_last(), slot);
        match body.last().1 {
            InstModel::DeclareVariable { variable, .. } => if variable == slot {
                front
            } else {
                front.push(body.last())
            },
            _ => front.push(body.last()),
        }
    }
}

/// A body with one definition inlined.
pub open spec fn inlined_at(
    body: Seq<(usize, InstModel)>,
    slot: VariableId,
    definition: int,
    at: int,
    value: IRExpr,
) -> Seq<(usize, InstModel)> {
    undeclared(
        body.update(at, (body[at].0, substituted_in(body[at].1, slot, value))).remove(definition),
        slot,
    )
}

pub proof fn lemma_undeclared_is_shorter(body: Seq<(usize, InstModel)>, slot: VariableId)
    ensures
        undeclared(body, slot).len() <= body.len(),
    decreases body.len(),
{
    if body.len() > 0 {
        lemma_undeclared_is_shorter(body.drop_last(), slot);
    }
}

/// A function with every definition inlined that can be. Each replacement removes
/// one definition, and may expose others.
pub open spec fn inlined(function: FunctionModel) -> FunctionModel
    decreases function.body.len(),
{
    match candidate_from(function, 0) {
        Some((variable, definition, at, value)) => {
            let body = inlined_at(function.body, variable, definition, at, value);
            if body.len() < function.body.len() {
                inlined(FunctionModel { body, ..function })
            } else {
                function
            }
        },
        None => function,
    }
}

fn remove_declarations(body: &Vec<(usize, IRInst)>, slot: VariableId) -> (res: Vec<(usize, IRInst)>)
    ensures
        body_models(res@) == undeclared(body_models(body@), slot),
{
    let ghost all = body_models(body@);
    let mut res: Vec<(usize, IRInst)> = Vec::new();
    assert(all.subrange(0, 0) =~= Seq::empty());
    assert(body_models(res@) =~= Seq::<(usize, InstModel)>::empty());
    let mut i: usize = 0;
    while i < body.len()
        invariant
            i <= body@.len(),
            all == body_models(body@),
            body_models(res@) == undeclared(all.subrange(0, i as int), slot),
        decreases body@.len() - i,
    {
        let ghost prefix = all.subrange(0, i + 1);
        assert(prefix.drop_last() =~= all.subrange(0, i as int));
        let ghost before = body_models(res@);
        let declares: bool = match &body[i].1 {
            IRInst::DeclareVariable { variable, .. } => *variable == slot,
            _ => false,
        };
        if !declares {
            res.push((body[i].0, body[i].1.clone()));
            assert(body_models(res@) =~= before.push(all[i as int]));
        }
        i = i + 1;
    }
    assert(all.subrange(0, i as int) =~= all);
    res
}

fn inline_function(function: &mut SyntheticFunction)
    ensures
        final(function).model() == inlined(old(function).model()),
{
    loop
        invariant
            inlined(function.model()) == inlined(old(function).model()),
        decreases function.body@.len(),
    {
        match candidate(function) {
            None => {
                return;
            },
            Some((variable, definition, at, value)) => {
                let ghost before = function.model();
                let replacement: IRInst = replace_instruction(
                    &function.body[at].1,
                    variable,
                    &value,
                );
                function.body[at].1 = replacement;
                function.body.remove(definition);
                proof {
                    let updated = before.body.update(
                        at as int,
                        (
                            before.body[at as int].0,
                            substituted_in(before.body[at as int].1, variable, value),
                        ),
                    );
                    assert(body_models(function.body@) =~= updated.remove(definition as int));
                    lemma_undeclared_is_shorter(body_models(function.body@), variable);
                }
                let shorter: Vec<(usize, IRInst)> = remove_declarations(&function.body, variable);
                function.body = shorter;
                assert(function.model() == (FunctionModel {
                    body: inlined_at(
                        before.body,
                        variable,
                        definition as int,
                        at as int,
                        value,
                    ),
                    ..before
                }));
                assert(function.body@.len() == function.model().body.len());
            },
        }
    }
}

pub open spec fn program_inlined(program: ProgramModel) -> ProgramModel {
    ProgramModel {
        functions: program.functions.map_values(|f: FunctionModel| inlined(f)),
        ..program
    }
}

/// Inlines every definition that can be.
pub fn tr(program: Program) -> (res: Program)
    ensures
        res.model() == program_inlined(program.model()),
{
    let ghost before = function_models(program.functions@);
    let ghost initial = program;
    let mut program = program;
    let total: usize = program.functions.len();
    let mut i: usize = 0;
    while i < total
        invariant
            i <= total,
            total == program.functions@.len(),
            total == before.len(),
            program.entry_address == initial.entry_address,
            program.entry == initial.entry,
            program.data == initial.data,
            forall|k: int|
                0 <= k < i ==> (#[trigger] program.functions@[k]).model() == inlined(before[k]),
            forall|k: int|
                i <= k < total ==> (#[trigger] program.functions@[k]).model() == before[k],
        decreases total - i,
    {
        inline_function(&mut program.functions[i]);
        i = i + 1;
    }
    assert(function_models(program.functions@) =~= before.map_values(
        |f: FunctionModel| inlined(f),
    ));
    program
}

} // verus!
