//! Coalesce a loop's entry copy with its carried slot when the two values
//! cannot be observed independently.
use super::ir::{
    body_models, capped, clone_body, function_models, models, plus, FunctionModel, IRExpr, IRInst,
    InstModel, LoopCondition, Program, ProgramModel, SyntheticFunction, VariableId, VariableType,
};
use super::simplify_binary_operations::{meaning, Algebra};
use super::walks::{
    around, around_in_body, find_type, function_types, instruction_reads_list, read_variables,
    read_with_list, reads_around, reads_around_in_body, type_of, types, variables_with,
};
use super::weight::{
    lemma_body_push, lemma_body_remove, lemma_list_push, lemma_positive, weight, weight_body,
    weight_list,
};
use crate::table::{KeySet, Table};
use vstd::prelude::*;

verus! {

/// How often an expression reads the slot.
pub open spec fn reads_in(expr: IRExpr, slot: VariableId) -> nat
    decreases expr,
{
    match expr {
        IRExpr::BinOp { lhs, rhs, .. } => reads_in(*lhs, slot) + reads_in(*rhs, slot),
        IRExpr::Deref(address) => reads_in(*address, slot),
        IRExpr::CastUnknownPtr { address, .. } => reads_in(*address, slot),
        IRExpr::Convert { value, .. } => reads_in(*value, slot),
        IRExpr::Variable(variable) => if variable == slot {
            1
        } else {
            0
        },
        IRExpr::Not(inner) => reads_in(*inner, slot),
        _ => 0,
    }
}

pub open spec fn reads_in_all(list: Seq<IRExpr>, slot: VariableId) -> nat
    decreases list.len(),
{
    if list.len() == 0 {
        0
    } else {
        reads_in_all(list.drop_last(), slot) + reads_in(list.last(), slot)
    }
}

fn expression_reads(expr: &IRExpr, slot: VariableId) -> (res: u8)
    ensures
        res == capped(reads_in(*expr, slot)),
    decreases expr,
{
    match expr {
        IRExpr::BinOp { lhs, rhs, .. } => plus(
            expression_reads(lhs, slot),
            expression_reads(rhs, slot),
        ),
        IRExpr::Deref(address) => expression_reads(address, slot),
        IRExpr::CastUnknownPtr { address, .. } => expression_reads(address, slot),
        IRExpr::Convert { value, .. } => expression_reads(value, slot),
        IRExpr::Variable(variable) => if *variable == slot {
            1
        } else {
            0
        },
        IRExpr::Not(inner) => expression_reads(inner, slot),
        _ => 0,
    }
}

fn expression_reads_all(list: &Vec<IRExpr>, slot: VariableId) -> (res: u8)
    ensures
        res == capped(reads_in_all(list@, slot)),
{
    assert(list@.subrange(0, 0) =~= Seq::empty());
    let mut res: u8 = 0;
    let mut i: usize = 0;
    while i < list.len()
        invariant
            i <= list@.len(),
            res == capped(reads_in_all(list@.subrange(0, i as int), slot)),
        decreases list@.len() - i,
    {
        let ghost prefix = list@.subrange(0, i + 1);
        assert(prefix.drop_last() =~= list@.subrange(0, i as int));
        res = plus(res, expression_reads(&list[i], slot));
        i = i + 1;
    }
    assert(list@.subrange(0, i as int) =~= list@);
    res
}

/// How often an instruction reads the slot.
pub open spec fn reads_of(instr: InstModel, slot: VariableId) -> nat
    decreases instr,
{
    match instr {
        InstModel::Assign { dest, src } => match dest {
            IRExpr::Variable(_) => reads_in(src, slot),
            _ => reads_in(src, slot) + reads_in(dest, slot),
        },
        InstModel::Return(value) => match value {
            Some(value) => reads_in(value, slot),
            None => 0,
        },
        InstModel::DeclareAndAssignVariable { value, .. } => reads_in(value, slot),
        InstModel::AssignVariable { value, .. } => reads_in(value, slot),
        InstModel::LoadVariable { address, .. } => reads_in(address, slot),
        InstModel::StoreVariable {
            address,
            variable,
        } => reads_in(address, slot) + if variable == slot {
            1nat
        } else {
            0nat
        },
        InstModel::If {
            condition,
            then_branch,
            else_branch,
        } => reads_in(condition, slot) + reads_of_list(
            then_branch,
            slot,
        ) + reads_of_list(else_branch, slot),
        InstModel::While { condition, body, .. } => reads_in(
            condition.check(),
            slot,
        ) + reads_of_body(body, slot),
        InstModel::CallSynthetic { arguments, .. } => reads_in_all(arguments, slot),
        InstModel::Jump(target) => reads_in(target, slot),
        _ => 0,
    }
}

pub open spec fn reads_of_list(list: Seq<InstModel>, slot: VariableId) -> nat
    decreases list,
{
    if list.len() == 0 {
        0
    } else {
        reads_of_list(list.drop_last(), slot) + reads_of(list[list.len() - 1], slot)
    }
}

pub open spec fn reads_of_body(list: Seq<(usize, InstModel)>, slot: VariableId) -> nat
    decreases list,
{
    if list.len() == 0 {
        0
    } else {
        reads_of_body(list.drop_last(), slot) + reads_of(list[list.len() - 1].1, slot)
    }
}

pub fn reads(instr: &IRInst, slot: VariableId) -> (res: u8)
    ensures
        res == capped(reads_of(instr.model(), slot)),
    decreases instr,
{
    match instr {
        IRInst::Assign { dest, src } => match dest {
            IRExpr::Variable(_) => expression_reads(src, slot),
            _ => plus(expression_reads(src, slot), expression_reads(dest, slot)),
        },
        IRInst::Return(value) => match value {
            Some(value) => expression_reads(value, slot),
            None => 0,
        },
        IRInst::DeclareAndAssignVariable { value, .. } => expression_reads(value, slot),
        IRInst::AssignVariable { value, .. } => expression_reads(value, slot),
        IRInst::LoadVariable { address, .. } => expression_reads(address, slot),
        IRInst::StoreVariable { address, variable } => if *variable == slot {
            assert(capped(1) == 1);
            plus(expression_reads(address, slot), 1)
        } else {
            expression_reads(address, slot)
        },
        IRInst::If { condition, then_branch, else_branch } => plus(
            plus(expression_reads(condition, slot), reads_list(then_branch, slot)),
            reads_list(else_branch, slot),
        ),
        IRInst::While { condition, body, .. } => plus(
            expression_reads(condition.expression(), slot),
            reads_body(body, slot),
        ),
        IRInst::CallSynthetic { arguments, .. } => expression_reads_all(arguments, slot),
        IRInst::Jump(target) => expression_reads(target, slot),
        _ => 0,
    }
}

pub fn reads_list(list: &Vec<IRInst>, slot: VariableId) -> (res: u8)
    ensures
        res == capped(reads_of_list(models(list@), slot)),
    decreases list,
{
    let ghost all = models(list@);
    assert(all.subrange(0, 0) =~= Seq::empty());
    let mut res: u8 = 0;
    let mut i: usize = 0;
    while i < list.len()
        invariant
            i <= list@.len(),
            all == models(list@),
            res == capped(reads_of_list(all.subrange(0, i as int), slot)),
        decreases list@.len() - i,
    {
        let ghost prefix = all.subrange(0, i + 1);
        assert(prefix.drop_last() =~= all.subrange(0, i as int));
        assert(decreases_to!(list => list@[i as int]));
        res = plus(res, reads(&list[i], slot));
        i = i + 1;
    }
    assert(all.subrange(0, i as int) =~= all);
    res
}

pub fn reads_body(list: &Vec<(usize, IRInst)>, slot: VariableId) -> (res: u8)
    ensures
        res == capped(reads_of_body(body_models(list@), slot)),
    decreases list,
{
    let ghost all = body_models(list@);
    assert(all.subrange(0, 0) =~= Seq::empty());
    let mut res: u8 = 0;
    let mut i: usize = 0;
    while i < list.len()
        invariant
            i <= list@.len(),
            all == body_models(list@),
            res == capped(reads_of_body(all.subrange(0, i as int), slot)),
        decreases list@.len() - i,
    {
        let ghost prefix = all.subrange(0, i + 1);
        assert(prefix.drop_last() =~= all.subrange(0, i as int));
        assert(decreases_to!(list => list@[i as int]));
        res = plus(res, reads(&list[i].1, slot));
        i = i + 1;
    }
    assert(all.subrange(0, i as int) =~= all);
    res
}

/// Whether an instruction writes the slot.
pub open spec fn writes(instr: InstModel, slot: VariableId) -> bool
    decreases instr,
{
    match instr {
        InstModel::Assign { dest, .. } => dest == IRExpr::Variable(slot),
        InstModel::DeclareAndAssignVariable { variable, .. } => variable == slot,
        InstModel::AssignVariable { variable, .. } => variable == slot,
        InstModel::LoadVariable { variable, .. } => variable == slot,
        InstModel::If {
            then_branch,
            else_branch,
            ..
        } => writes_list(then_branch, slot) || writes_list(else_branch, slot),
        InstModel::While { body, .. } => writes_body(body, slot),
        _ => false,
    }
}

pub open spec fn writes_list(list: Seq<InstModel>, slot: VariableId) -> bool
    decreases list,
{
    if list.len() == 0 {
        false
    } else {
        writes_list(list.drop_last(), slot) || writes(list[list.len() - 1], slot)
    }
}

pub open spec fn writes_body(list: Seq<(usize, InstModel)>, slot: VariableId) -> bool
    decreases list,
{
    if list.len() == 0 {
        false
    } else {
        writes_body(list.drop_last(), slot) || writes(list[list.len() - 1].1, slot)
    }
}

fn written(instr: &IRInst, slot: VariableId) -> (res: bool)
    ensures
        res == writes(instr.model(), slot),
    decreases instr,
{
    match instr {
        IRInst::Assign { dest, .. } => match dest {
            IRExpr::Variable(variable) => *variable == slot,
            _ => false,
        },
        IRInst::DeclareAndAssignVariable { variable, .. } => *variable == slot,
        IRInst::AssignVariable { variable, .. } => *variable == slot,
        IRInst::LoadVariable { variable, .. } => *variable == slot,
        IRInst::If {
            then_branch,
            else_branch,
            ..
        } => written_list(then_branch, slot) || written_list(else_branch, slot),
        IRInst::While { body, .. } => written_body(body, slot),
        _ => false,
    }
}

fn written_list(list: &Vec<IRInst>, slot: VariableId) -> (res: bool)
    ensures
        res == writes_list(models(list@), slot),
    decreases list,
{
    let ghost all = models(list@);
    assert(all.subrange(0, 0) =~= Seq::empty());
    let mut res: bool = false;
    let mut i: usize = 0;
    while i < list.len()
        invariant
            i <= list@.len(),
            all == models(list@),
            res == writes_list(all.subrange(0, i as int), slot),
        decreases list@.len() - i,
    {
        let ghost prefix = all.subrange(0, i + 1);
        assert(prefix.drop_last() =~= all.subrange(0, i as int));
        assert(decreases_to!(list => list@[i as int]));
        res = res || written(&list[i], slot);
        i = i + 1;
    }
    assert(all.subrange(0, i as int) =~= all);
    res
}

fn written_body(list: &Vec<(usize, IRInst)>, slot: VariableId) -> (res: bool)
    ensures
        res == writes_body(body_models(list@), slot),
    decreases list,
{
    let ghost all = body_models(list@);
    assert(all.subrange(0, 0) =~= Seq::empty());
    let mut res: bool = false;
    let mut i: usize = 0;
    while i < list.len()
        invariant
            i <= list@.len(),
            all == body_models(list@),
            res == writes_body(all.subrange(0, i as int), slot),
        decreases list@.len() - i,
    {
        let ghost prefix = all.subrange(0, i + 1);
        assert(prefix.drop_last() =~= all.subrange(0, i as int));
        assert(decreases_to!(list => list@[i as int]));
        res = res || written(&list[i].1, slot);
        i = i + 1;
    }
    assert(all.subrange(0, i as int) =~= all);
    res
}

/// Whether a continue may skip the rest of the loop. A labelled one may leave this
/// loop and skip its carried-slot update even when it targets an enclosing loop.
pub open spec fn continues(instr: InstModel, nested: bool) -> bool
    decreases instr,
{
    match instr {
        InstModel::If {
            then_branch,
            else_branch,
            ..
        } => continues_list(then_branch, nested) || continues_list(else_branch, nested),
        InstModel::While { body, .. } => continues_body(body, true),
        InstModel::Continue => !nested,
        InstModel::ContinueLoop(_) => true,
        _ => false,
    }
}

pub open spec fn continues_list(list: Seq<InstModel>, nested: bool) -> bool
    decreases list,
{
    if list.len() == 0 {
        false
    } else {
        continues_list(list.drop_last(), nested) || continues(list[list.len() - 1], nested)
    }
}

pub open spec fn continues_body(list: Seq<(usize, InstModel)>, nested: bool) -> bool
    decreases list,
{
    if list.len() == 0 {
        false
    } else {
        continues_body(list.drop_last(), nested) || continues(list[list.len() - 1].1, nested)
    }
}

fn continues_here(instr: &IRInst, nested: bool) -> (res: bool)
    ensures
        res == continues(instr.model(), nested),
    decreases instr,
{
    match instr {
        IRInst::If {
            then_branch,
            else_branch,
            ..
        } => continues_here_list(then_branch, nested) || continues_here_list(else_branch, nested),
        IRInst::While { body, .. } => continues_here_body(body, true),
        IRInst::Continue => !nested,
        IRInst::ContinueLoop(_) => true,
        _ => false,
    }
}

fn continues_here_list(list: &Vec<IRInst>, nested: bool) -> (res: bool)
    ensures
        res == continues_list(models(list@), nested),
    decreases list,
{
    let ghost all = models(list@);
    assert(all.subrange(0, 0) =~= Seq::empty());
    let mut res: bool = false;
    let mut i: usize = 0;
    while i < list.len()
        invariant
            i <= list@.len(),
            all == models(list@),
            res == continues_list(all.subrange(0, i as int), nested),
        decreases list@.len() - i,
    {
        let ghost prefix = all.subrange(0, i + 1);
        assert(prefix.drop_last() =~= all.subrange(0, i as int));
        assert(decreases_to!(list => list@[i as int]));
        res = res || continues_here(&list[i], nested);
        i = i + 1;
    }
    assert(all.subrange(0, i as int) =~= all);
    res
}

fn continues_here_body(list: &Vec<(usize, IRInst)>, nested: bool) -> (res: bool)
    ensures
        res == continues_body(body_models(list@), nested),
    decreases list,
{
    let ghost all = body_models(list@);
    assert(all.subrange(0, 0) =~= Seq::empty());
    let mut res: bool = false;
    let mut i: usize = 0;
    while i < list.len()
        invariant
            i <= list@.len(),
            all == body_models(list@),
            res == continues_body(all.subrange(0, i as int), nested),
        decreases list@.len() - i,
    {
        let ghost prefix = all.subrange(0, i + 1);
        assert(prefix.drop_last() =~= all.subrange(0, i as int));
        assert(decreases_to!(list => list@[i as int]));
        res = res || continues_here(&list[i].1, nested);
        i = i + 1;
    }
    assert(all.subrange(0, i as int) =~= all);
    res
}


/// The slot that an instruction assigns, and its value.
pub open spec fn assigned_of(instr: InstModel) -> Option<(VariableId, IRExpr)> {
    match instr {
        InstModel::Assign { dest: IRExpr::Variable(dest), src } => Some((dest, src)),
        InstModel::AssignVariable { variable, value } => Some((variable, value)),
        _ => None,
    }
}

fn assigned<'a>(instr: &'a IRInst) -> (res: Option<(VariableId, &'a IRExpr)>)
    ensures
        match res {
            Some(found) => assigned_of(instr.model()) == Some((found.0, *found.1)),
            None => assigned_of(instr.model()) is None,
        },
{
    match instr {
        IRInst::Assign { dest: IRExpr::Variable(dest), src } => Some((*dest, src)),
        IRInst::AssignVariable { variable, value } => Some((*variable, value)),
        _ => None,
    }
}

/// A slot whose value a loop carries, and the copy of it that the loop works on.
#[derive(Clone, Copy, Debug, PartialEq, Eq, Structural)]
pub struct Candidate {
    pub source: VariableId,
    pub target: VariableId,
    pub entry_offset: usize,
}

/// Whether the instructions in a range neither read nor write the slot.
pub open spec fn untouched(
    body: Seq<(usize, InstModel)>,
    slot: VariableId,
    from: int,
    to: int,
) -> bool {
    forall|i: int|
        from <= i < to ==> reads_of((#[trigger] body[i]).1, slot) == 0 && !writes(body[i].1, slot)
}

fn is_untouched(
    body: &Vec<(usize, IRInst)>,
    slot: VariableId,
    from: usize,
    to: usize,
) -> (res: bool)
    requires
        from <= to <= body@.len(),
    ensures
        res == untouched(body_models(body@), slot, from as int, to as int),
{
    let ghost all = body_models(body@);
    let mut i: usize = from;
    while i < to
        invariant
            from <= i <= to <= body@.len(),
            all == body_models(body@),
            untouched(all, slot, from as int, i as int),
        decreases to - i,
    {
        assert(all[i as int].1 == body@[i as int].1.model());
        if reads(&body[i].1, slot) != 0 || written(&body[i].1, slot) {
            return false;
        }
        i = i + 1;
    }
    true
}

/// The first instruction at or after an index that writes the slot.
pub open spec fn first_write(body: Seq<(usize, InstModel)>, slot: VariableId, from: int) -> Option<
    int,
>
    decreases body.len() - from,
{
    if from < 0 || from >= body.len() {
        None
    } else if writes(body[from].1, slot) {
        Some(from)
    } else {
        first_write(body, slot, from + 1)
    }
}

fn find_write(body: &Vec<(usize, IRInst)>, slot: VariableId, from: usize) -> (res: Option<usize>)
    requires
        from <= body@.len(),
    ensures
        match res {
            Some(index) => first_write(body_models(body@), slot, from as int) == Some(
                index as int,
            ) && from <= index < body@.len(),
            None => first_write(body_models(body@), slot, from as int) is None,
        },
{
    let ghost all = body_models(body@);
    let mut i: usize = from;
    while i < body.len()
        invariant
            from <= i <= body@.len(),
            all == body_models(body@),
            first_write(all, slot, from as int) == first_write(all, slot, i as int),
        decreases body@.len() - i,
    {
        assert(all[i as int].1 == body@[i as int].1.model());
        if written(&body[i].1, slot) {
            return Some(i);
        }
        i = i + 1;
    }
    None
}

/// The only instruction of a body that writes the slot.
pub open spec fn only_write(body: Seq<(usize, InstModel)>, slot: VariableId) -> Option<int> {
    match first_write(body, slot, 0) {
        Some(index) => if first_write(body, slot, index + 1) is None {
            Some(index)
        } else {
            None
        },
        None => None,
    }
}

pub open spec fn has_width(ty: Option<VariableType>) -> bool {
    match ty {
        Some(VariableType::Unknown(Some(_))) => true,
        Some(VariableType::Bool) => true,
        _ => false,
    }
}

/// Whether the write that ends an iteration allows the two slots to be one.
pub open spec fn ends_well(
    condition: LoopCondition,
    body: Seq<(usize, InstModel)>,
    source: VariableId,
    target: VariableId,
    header: int,
) -> bool {
    match only_write(body, source) {
        Some(tail) => match assigned_of(body[tail].1) {
            Some((dest, value)) => {
                &&& dest == source
                &&& tail > header
                &&& untouched(body, target, tail + 1, body.len() as int)
                &&& (reads_in(condition.check(), target) == 0 || (condition is After && value
                    == IRExpr::Variable(target)))
            },
            None => false,
        },
        None => false,
    }
}

/// Whether the copy at the header of a loop can be coalesced. `outside` holds the
/// slots that are read outside the loop.
pub open spec fn coalesces(
    condition: LoopCondition,
    body: Seq<(usize, InstModel)>,
    outside: Set<VariableId>,
    types: Map<VariableId, VariableType>,
    header: int,
) -> bool {
    match assigned_of(body[header].1) {
        Some((target, IRExpr::Variable(source))) => {
            &&& target != source
            &&& type_of(types, target) == type_of(types, source)
            &&& has_width(type_of(types, source))
            &&& untouched(body, target, 0, header)
            &&& !outside.contains(target)
            &&& !outside.contains(source)
            &&& reads_in(condition.check(), source) + reads_of_body(body, source) == 1
            &&& ends_well(condition, body, source, target, header)
        },
        _ => false,
    }
}

/// The first header copy at or after an index that can be coalesced. Headers end
/// at the first instruction that is no assignment.
pub open spec fn header_from(
    condition: LoopCondition,
    body: Seq<(usize, InstModel)>,
    outside: Set<VariableId>,
    types: Map<VariableId, VariableType>,
    header: int,
) -> Option<int>
    decreases body.len() - header,
{
    if header < 0 || header >= body.len() || assigned_of(body[header].1) is None {
        None
    } else if coalesces(condition, body, outside, types, header) {
        Some(header)
    } else {
        header_from(condition, body, outside, types, header + 1)
    }
}

pub open spec fn candidate_at(entry_offset: usize, instr: InstModel) -> Option<Candidate> {
    match assigned_of(instr) {
        Some((target, IRExpr::Variable(source))) => Some(
            Candidate { source, target, entry_offset },
        ),
        _ => None,
    }
}

/// The first loop copy in an instruction that can be coalesced.
pub open spec fn found(
    instr: InstModel,
    outside: Set<VariableId>,
    types: Map<VariableId, VariableType>,
) -> Option<Candidate>
    decreases instr, 0int,
{
    match instr {
        InstModel::While { entry_offset, condition, body, .. } => {
            let header = if continues_body(body, false) {
                None
            } else {
                header_from(condition, body, outside, types, 0)
            };
            match header {
                Some(header) => candidate_at(entry_offset, body[header].1),
                None => found_in_body(
                    body,
                    variables_with(condition.check(), outside),
                    types,
                    body.len() as int,
                ),
            }
        },
        InstModel::If { condition, then_branch, else_branch } => {
            let inside = variables_with(condition, outside);
            match found_in(
                then_branch,
                read_with_list(else_branch, inside),
                types,
                then_branch.len() as int,
            ) {
                Some(candidate) => Some(candidate),
                None => found_in(
                    else_branch,
                    read_with_list(then_branch, inside),
                    types,
                    else_branch.len() as int,
                ),
            }
        },
        _ => None,
    }
}

pub open spec fn found_in(
    list: Seq<InstModel>,
    outside: Set<VariableId>,
    types: Map<VariableId, VariableType>,
    count: int,
) -> Option<Candidate>
    decreases list, count,
{
    if count <= 0 || count > list.len() {
        None
    } else {
        match found_in(list, outside, types, count - 1) {
            Some(candidate) => Some(candidate),
            None => found(list[count - 1], around(list, count - 1, outside), types),
        }
    }
}

pub open spec fn found_in_body(
    list: Seq<(usize, InstModel)>,
    outside: Set<VariableId>,
    types: Map<VariableId, VariableType>,
    count: int,
) -> Option<Candidate>
    decreases list, count,
{
    if count <= 0 || count > list.len() {
        None
    } else {
        match found_in_body(list, outside, types, count - 1) {
            Some(candidate) => Some(candidate),
            None => found(list[count - 1].1, around_in_body(list, count - 1, outside), types),
        }
    }
}

fn ending(
    condition: &LoopCondition,
    body: &Vec<(usize, IRInst)>,
    source: VariableId,
    target: VariableId,
    header: usize,
) -> (res: bool)
    ensures
        res == ends_well(*condition, body_models(body@), source, target, header as int),
{
    let ghost all = body_models(body@);
    let tail: usize = match find_write(body, source, 0) {
        Some(tail) => tail,
        None => return false,
    };
    let total: usize = body.len();
    assert(tail < total);
    if find_write(body, source, tail + 1).is_some() {
        return false;
    }
    assert(only_write(all, source) == Some(tail as int));
    assert(all[tail as int].1 == body@[tail as int].1.model());
    match assigned(&body[tail].1) {
        Some((dest, value)) => {
            let last: bool = match (condition, value) {
                (LoopCondition::After { .. }, IRExpr::Variable(read)) => *read == target,
                _ => false,
            };
            dest == source && tail > header && is_untouched(body, target, tail + 1, body.len())
                && (expression_reads(condition.expression(), target) == 0 || last)
        },
        None => false,
    }
}

fn same_width(
    types: &Table<VariableId, VariableType>,
    source: VariableId,
    target: VariableId,
) -> (res:
    bool)
    ensures
        res == (type_of(types@, target) == type_of(types@, source) && has_width(
            type_of(types@, source),
        )),
{
    let ty: Option<VariableType> = find_type(types, source);
    let wide: bool = match ty {
        Some(VariableType::Unknown(Some(_))) => true,
        Some(VariableType::Bool) => true,
        _ => false,
    };
    wide && match (find_type(types, target), ty) {
        (Some(a), Some(b)) => a == b,
        _ => false,
    }
}

fn header_copy(
    condition: &LoopCondition,
    body: &Vec<(usize, IRInst)>,
    outside: &KeySet<VariableId>,
    types: &Table<VariableId, VariableType>,
    header: usize,
) -> (res: bool)
    requires
        header < body@.len(),
    ensures
        res == coalesces(*condition, body_models(body@), outside@, types@, header as int),
{
    let ghost all = body_models(body@);
    assert(all[header as int].1 == body@[header as int].1.model());
    let (target, source) = match assigned(&body[header].1) {
        Some((target, IRExpr::Variable(source))) => (target, *source),
        _ => return false,
    };
    assert(capped(1) == 1);
    target != source && same_width(types, source, target) && is_untouched(body, target, 0, header)
        && !outside.contains(target) && !outside.contains(source) && plus(
        expression_reads(condition.expression(), source),
        reads_body(body, source),
    ) == 1 && ending(condition, body, source, target, header)
}

fn find_header(
    condition: &LoopCondition,
    body: &Vec<(usize, IRInst)>,
    outside: &KeySet<VariableId>,
    types: &Table<VariableId, VariableType>,
) -> (res: Option<usize>)
    ensures
        match res {
            Some(header) => header < body@.len() && header_from(
                *condition,
                body_models(body@),
                outside@,
                types@,
                0,
            ) == Some(header as int),
            None => header_from(*condition, body_models(body@), outside@, types@, 0) is None,
        },
{
    let ghost all = body_models(body@);
    let mut i: usize = 0;
    while i < body.len()
        invariant
            i <= body@.len(),
            all == body_models(body@),
            header_from(*condition, all, outside@, types@, 0) == header_from(
                *condition,
                all,
                outside@,
                types@,
                i as int,
            ),
        decreases body@.len() - i,
    {
        assert(all[i as int].1 == body@[i as int].1.model());
        if assigned(&body[i].1).is_none() {
            return None;
        }
        if header_copy(condition, body, outside, types, i) {
            return Some(i);
        }
        i = i + 1;
    }
    None
}

fn find(
    instr: &IRInst,
    outside: &KeySet<VariableId>,
    types: &Table<VariableId, VariableType>,
) -> (res: Option<Candidate>)
    ensures
        res == found(instr.model(), outside@, types@),
    decreases instr, 0int,
{
    match instr {
        IRInst::While { entry_offset, condition, body, .. } => {
            if !continues_here_body(body, false) {
                if let Some(header) = find_header(condition, body, outside, types) {
                    assert(body_models(body@)[header as int].1
                        == body@[header as int].1.model());
                    return match assigned(&body[header].1) {
                        Some((target, IRExpr::Variable(source))) => Some(
                            Candidate {
                                source: *source,
                                target,
                                entry_offset: *entry_offset,
                            },
                        ),
                        _ => None,
                    };
                }
            }
            let mut inside: KeySet<VariableId> = outside.copied();
            read_variables(condition.expression(), &mut inside);
            find_in_body(body, &inside, types)
        },
        IRInst::If { condition, then_branch, else_branch } => {
            let mut first: KeySet<VariableId> = outside.copied();
            read_variables(condition, &mut first);
            let mut second: KeySet<VariableId> = first.copied();
            instruction_reads_list(else_branch, &mut first);
            instruction_reads_list(then_branch, &mut second);
            match find_in(then_branch, &first, types) {
                Some(candidate) => Some(candidate),
                None => find_in(else_branch, &second, types),
            }
        },
        _ => None,
    }
}

proof fn lemma_found_in_stays(
    list: Seq<InstModel>,
    outside: Set<VariableId>,
    types: Map<VariableId, VariableType>,
    small: int,
    count: int,
)
    requires
        0 <= small <= count <= list.len(),
        found_in(list, outside, types, small) is Some,
    ensures
        found_in(list, outside, types, count) == found_in(list, outside, types, small),
    decreases count - small,
{
    if small < count {
        lemma_found_in_stays(list, outside, types, small, count - 1);
    }
}

proof fn lemma_found_in_body_stays(
    list: Seq<(usize, InstModel)>,
    outside: Set<VariableId>,
    types: Map<VariableId, VariableType>,
    small: int,
    count: int,
)
    requires
        0 <= small <= count <= list.len(),
        found_in_body(list, outside, types, small) is Some,
    ensures
        found_in_body(list, outside, types, count) == found_in_body(list, outside, types, small),
    decreases count - small,
{
    if small < count {
        lemma_found_in_body_stays(list, outside, types, small, count - 1);
    }
}

fn find_in(
    list: &Vec<IRInst>,
    outside: &KeySet<VariableId>,
    types: &Table<VariableId, VariableType>,
) -> (res: Option<Candidate>)
    ensures
        res == found_in(models(list@), outside@, types@, list@.len() as int),
    decreases list, list@.len() as int,
{
    let ghost all = models(list@);
    let mut i: usize = 0;
    while i < list.len()
        invariant
            i <= list@.len(),
            all == models(list@),
            found_in(all, outside@, types@, i as int) is None,
        decreases list@.len() - i,
    {
        assert(all[i as int] == list@[i as int].model());
        assert(decreases_to!(list => list@[i as int]));
        let around: KeySet<VariableId> = reads_around(list, i, outside);
        let candidate: Option<Candidate> = find(&list[i], &around, types);
        if candidate.is_some() {
            proof {
                lemma_found_in_stays(all, outside@, types@, i + 1, all.len() as int);
            }
            return candidate;
        }
        i = i + 1;
    }
    None
}

fn find_in_body(
    list: &Vec<(usize, IRInst)>,
    outside: &KeySet<VariableId>,
    types: &Table<VariableId, VariableType>,
) -> (res: Option<Candidate>)
    ensures
        res == found_in_body(body_models(list@), outside@, types@, list@.len() as int),
    decreases list, list@.len() as int,
{
    let ghost all = body_models(list@);
    let mut i: usize = 0;
    while i < list.len()
        invariant
            i <= list@.len(),
            all == body_models(list@),
            found_in_body(all, outside@, types@, i as int) is None,
        decreases list@.len() - i,
    {
        assert(all[i as int].1 == list@[i as int].1.model());
        assert(decreases_to!(list => list@[i as int]));
        let around: KeySet<VariableId> = reads_around_in_body(list, i, outside);
        let candidate: Option<Candidate> = find(&list[i].1, &around, types);
        if candidate.is_some() {
            proof {
                lemma_found_in_body_stays(all, outside@, types@, i + 1, all.len() as int);
            }
            return candidate;
        }
        i = i + 1;
    }
    None
}

// ---------------------------------------------------------------------------
// Rewriting

pub open spec fn chosen(variable: VariableId, slot: VariableId, carried: VariableId) -> VariableId {
    if variable == slot {
        carried
    } else {
        variable
    }
}

fn choose_slot(variable: VariableId, slot: VariableId, carried: VariableId) -> (res: VariableId)
    ensures
        res == chosen(variable, slot, carried),
{
    if variable == slot {
        carried
    } else {
        variable
    }
}

pub open spec fn is_self_copy(instr: InstModel) -> bool {
    match assigned_of(instr) {
        Some((dest, IRExpr::Variable(source))) => dest == source,
        _ => false,
    }
}

fn self_copy(instr: &IRInst) -> (res: bool)
    ensures
        res == is_self_copy(instr.model()),
{
    match assigned(instr) {
        Some((dest, IRExpr::Variable(source))) => dest == *source,
        _ => false,
    }
}

/// The expression with the carried slot in place of another.
pub open spec fn renamed(expr: IRExpr, slot: VariableId, carried: VariableId) -> IRExpr
    decreases expr,
{
    match expr {
        IRExpr::BinOp { kind, lhs, rhs } => IRExpr::BinOp {
            kind,
            lhs: Box::new(renamed(*lhs, slot, carried)),
            rhs: Box::new(renamed(*rhs, slot, carried)),
        },
        IRExpr::Deref(address) => IRExpr::Deref(Box::new(renamed(*address, slot, carried))),
        IRExpr::CastUnknownPtr { address, size } => IRExpr::CastUnknownPtr {
            address: Box::new(renamed(*address, slot, carried)),
            size,
        },
        IRExpr::Convert { value, source, target } => IRExpr::Convert {
            value: Box::new(renamed(*value, slot, carried)),
            source,
            target,
        },
        IRExpr::Variable(variable) => IRExpr::Variable(chosen(variable, slot, carried)),
        IRExpr::Not(inner) => IRExpr::Not(Box::new(renamed(*inner, slot, carried))),
        _ => expr,
    }
}

/// Where two slots hold the same, one can take the place of the other.
pub proof fn law_renaming_a_slot_keeps_the_meaning(
    expr: IRExpr,
    slot: VariableId,
    carried: VariableId,
    algebra: Algebra,
)
    requires
        (algebra.leaf)(IRExpr::Variable(slot)) == (algebra.leaf)(IRExpr::Variable(carried)),
    ensures
        meaning(renamed(expr, slot, carried), algebra) == meaning(expr, algebra),
    decreases expr,
{
    match expr {
        IRExpr::BinOp { lhs, rhs, .. } => {
            law_renaming_a_slot_keeps_the_meaning(*lhs, slot, carried, algebra);
            law_renaming_a_slot_keeps_the_meaning(*rhs, slot, carried, algebra);
        },
        IRExpr::Deref(address) => law_renaming_a_slot_keeps_the_meaning(
            *address,
            slot,
            carried,
            algebra,
        ),
        IRExpr::CastUnknownPtr { address, .. } => {
            law_renaming_a_slot_keeps_the_meaning(*address, slot, carried, algebra);
        },
        IRExpr::Convert { value: inner, .. } => {
            law_renaming_a_slot_keeps_the_meaning(*inner, slot, carried, algebra);
        },
        IRExpr::Not(inner) => law_renaming_a_slot_keeps_the_meaning(*inner, slot, carried, algebra),
        _ => {},
    }
}

pub open spec fn renamed_all(
    list: Seq<IRExpr>,
    slot: VariableId,
    carried: VariableId,
) -> Seq<IRExpr> {
    Seq::new(list.len(), |i: int| renamed(list[i], slot, carried))
}

fn replace_expr(expr: &IRExpr, slot: VariableId, carried: VariableId) -> (res: IRExpr)
    ensures
        res == renamed(*expr, slot, carried),
    decreases expr,
{
    match expr {
        IRExpr::BinOp { kind, lhs, rhs } => IRExpr::BinOp {
            kind: *kind,
            lhs: Box::new(replace_expr(lhs, slot, carried)),
            rhs: Box::new(replace_expr(rhs, slot, carried)),
        },
        IRExpr::Deref(address) => IRExpr::Deref(Box::new(replace_expr(address, slot, carried))),
        IRExpr::CastUnknownPtr { address, size } => IRExpr::CastUnknownPtr {
            address: Box::new(replace_expr(address, slot, carried)),
            size: *size,
        },
        IRExpr::Convert { value, source, target } => IRExpr::Convert {
            value: Box::new(replace_expr(value, slot, carried)),
            source: *source,
            target: *target,
        },
        IRExpr::Variable(variable) => IRExpr::Variable(choose_slot(*variable, slot, carried)),
        IRExpr::Not(inner) => IRExpr::Not(Box::new(replace_expr(inner, slot, carried))),
        _ => expr.clone(),
    }
}

fn replace_expr_all(list: &Vec<IRExpr>, slot: VariableId, carried: VariableId) -> (res: Vec<IRExpr>)
    ensures
        res@ == renamed_all(list@, slot, carried),
{
    let mut res: Vec<IRExpr> = Vec::new();
    let mut i: usize = 0;
    while i < list.len()
        invariant
            i <= list@.len(),
            res@.len() == i,
            forall|k: int| 0 <= k < i ==> (#[trigger] res@[k]) == renamed(list@[k], slot, carried),
        decreases list@.len() - i,
    {
        res.push(replace_expr(&list[i], slot, carried));
        i = i + 1;
    }
    assert(res@ =~= renamed_all(list@, slot, carried));
    res
}

pub open spec fn renamed_condition(
    condition: LoopCondition,
    slot: VariableId,
    carried: VariableId,
) -> LoopCondition {
    condition.with(renamed(condition.check(), slot, carried))
}

fn replace_expr_condition(
    condition: &LoopCondition,
    slot: VariableId,
    carried: VariableId,
) -> (res: LoopCondition)
    ensures
        res == renamed_condition(*condition, slot, carried),
{
    condition.replaced(replace_expr(condition.expression(), slot, carried))
}

/// The instruction with the carried slot in place of another. A declaration of the
/// other one becomes an assignment.
pub open spec fn renamed_in(instr: InstModel, slot: VariableId, carried: VariableId) -> InstModel
    decreases instr,
{
    match instr {
        InstModel::Assign { dest, src } => InstModel::Assign {
            dest: renamed(dest, slot, carried),
            src: renamed(src, slot, carried),
        },
        InstModel::Return(value) => InstModel::Return(match value {
                Some(value) => Some(renamed(value, slot, carried)),
                None => None,
            }),
        InstModel::DeclareAndAssignVariable { variable, ty, value } => if variable == slot {
            InstModel::AssignVariable {
                variable: carried,
                value: renamed(value, slot, carried),
            }
        } else {
            InstModel::DeclareAndAssignVariable {
                variable,
                ty,
                value: renamed(value, slot, carried),
            }
        },
        InstModel::AssignVariable { variable, value } => InstModel::AssignVariable {
            variable: chosen(variable, slot, carried),
            value: renamed(value, slot, carried),
        },
        InstModel::LoadVariable { variable, address } => InstModel::LoadVariable {
            variable: chosen(variable, slot, carried),
            address: renamed(address, slot, carried),
        },
        InstModel::StoreVariable { address, variable } => InstModel::StoreVariable {
            address: renamed(address, slot, carried),
            variable: chosen(variable, slot, carried),
        },
        InstModel::If { condition, then_branch, else_branch } => InstModel::If {
            condition: renamed(condition, slot, carried),
            then_branch: renamed_in_list(then_branch, slot, carried),
            else_branch: renamed_in_list(else_branch, slot, carried),
        },
        InstModel::While { label, entry_offset, condition, body } => InstModel::While {
            label,
            entry_offset,
            condition: renamed_condition(condition, slot, carried),
            body: renamed_in_body(body, slot, carried),
        },
        InstModel::CallSynthetic { function, arguments } => InstModel::CallSynthetic {
            function,
            arguments: renamed_all(arguments, slot, carried),
        },
        InstModel::Jump(target) => InstModel::Jump(renamed(target, slot, carried)),
        _ => instr,
    }
}

pub open spec fn renamed_in_list(
    list: Seq<InstModel>,
    slot: VariableId,
    carried: VariableId,
) -> Seq<InstModel>
    decreases list,
{
    Seq::new(
        list.len(),
        |i: int|
            if 0 <= i < list.len() {
                renamed_in(list[i], slot, carried)
            } else {
                arbitrary()
            },
    )
}

pub open spec fn renamed_in_body(
    list: Seq<(usize, InstModel)>,
    slot: VariableId,
    carried: VariableId,
) -> Seq<(usize, InstModel)>
    decreases list,
{
    Seq::new(
        list.len(),
        |i: int|
            if 0 <= i < list.len() {
                (list[i].0, renamed_in(list[i].1, slot, carried))
            } else {
                arbitrary()
            },
    )
}

fn replace(instr: &IRInst, slot: VariableId, carried: VariableId) -> (res: IRInst)
    ensures
        res.model() == renamed_in(instr.model(), slot, carried),
    decreases instr,
{
    match instr {
        IRInst::Assign { dest, src } => IRInst::Assign {
            dest: replace_expr(dest, slot, carried),
            src: replace_expr(src, slot, carried),
        },
        IRInst::Return(value) => IRInst::Return(match value {
                Some(value) => Some(replace_expr(value, slot, carried)),
                None => None,
            }),
        IRInst::DeclareAndAssignVariable { variable, ty, value } => if *variable == slot {
            IRInst::AssignVariable {
                variable: carried,
                value: replace_expr(value, slot, carried),
            }
        } else {
            IRInst::DeclareAndAssignVariable {
                variable: *variable,
                ty: *ty,
                value: replace_expr(value, slot, carried),
            }
        },
        IRInst::AssignVariable { variable, value } => IRInst::AssignVariable {
            variable: choose_slot(*variable, slot, carried),
            value: replace_expr(value, slot, carried),
        },
        IRInst::LoadVariable { variable, address } => IRInst::LoadVariable {
            variable: choose_slot(*variable, slot, carried),
            address: replace_expr(address, slot, carried),
        },
        IRInst::StoreVariable { address, variable } => IRInst::StoreVariable {
            address: replace_expr(address, slot, carried),
            variable: choose_slot(*variable, slot, carried),
        },
        IRInst::If { condition, then_branch, else_branch } => IRInst::If {
            condition: replace_expr(condition, slot, carried),
            then_branch: replace_list(then_branch, slot, carried),
            else_branch: replace_list(else_branch, slot, carried),
        },
        IRInst::While { label, entry_offset, condition, body } => IRInst::While {
            label: *label,
            entry_offset: *entry_offset,
            condition: replace_expr_condition(condition, slot, carried),
            body: replace_body(body, slot, carried),
        },
        IRInst::CallSynthetic { function, arguments } => IRInst::CallSynthetic {
            function: *function,
            arguments: replace_expr_all(arguments, slot, carried),
        },
        IRInst::Jump(target) => IRInst::Jump(replace_expr(target, slot, carried)),
        _ => instr.clone(),
    }
}

fn replace_list(list: &Vec<IRInst>, slot: VariableId, carried: VariableId) -> (res: Vec<IRInst>)
    ensures
        models(res@) == renamed_in_list(models(list@), slot, carried),
    decreases list,
{
    let ghost all = models(list@);
    let mut res: Vec<IRInst> = Vec::new();
    let mut i: usize = 0;
    while i < list.len()
        invariant
            i <= list@.len(),
            all == models(list@),
            res@.len() == i,
            forall|k: int| 0 <= k < i ==> (#[trigger] res@[k]).model() == renamed_in(
                all[k],
                slot,
                carried,
            ),
        decreases list@.len() - i,
    {
        assert(decreases_to!(list => list@[i as int]));
        res.push(replace(&list[i], slot, carried));
        i = i + 1;
    }
    assert(models(res@) =~= renamed_in_list(all, slot, carried));
    res
}

fn replace_body(
    list: &Vec<(usize, IRInst)>,
    slot: VariableId,
    carried: VariableId,
) -> (res: Vec<(usize, IRInst)>)
    ensures
        body_models(res@) == renamed_in_body(body_models(list@), slot, carried),
    decreases list,
{
    let ghost all = body_models(list@);
    let mut res: Vec<(usize, IRInst)> = Vec::new();
    let mut i: usize = 0;
    while i < list.len()
        invariant
            i <= list@.len(),
            all == body_models(list@),
            res@.len() == i,
            forall|k: int| 0 <= k < i ==> (#[trigger] res@[k]).0 == all[k].0 && res@[k].1.model() == renamed_in(
                all[k].1,
                slot,
                carried,
            ),
        decreases list@.len() - i,
    {
        assert(decreases_to!(list => list@[i as int]));
        res.push((list[i].0, replace(&list[i].1, slot, carried)));
        i = i + 1;
    }
    assert(body_models(res@) =~= renamed_in_body(all, slot, carried));
    res
}

/// The instruction without copies of slots to themselves.
pub open spec fn without_copies(instr: InstModel) -> InstModel
    decreases instr,
{
    match instr {
        InstModel::If { condition, then_branch, else_branch } => InstModel::If {
            condition,
            then_branch: without_copies_list(then_branch),
            else_branch: without_copies_list(else_branch),
        },
        InstModel::While { label, entry_offset, condition, body } => InstModel::While {
            label,
            entry_offset,
            condition,
            body: without_copies_body(body),
        },
        _ => instr,
    }
}

pub open spec fn without_copies_list(list: Seq<InstModel>) -> Seq<InstModel>
    decreases list,
{
    if list.len() == 0 {
        Seq::empty()
    } else {
        let before = without_copies_list(list.drop_last());
        if is_self_copy(list[list.len() - 1]) {
            before
        } else {
            before.push(without_copies(list[list.len() - 1]))
        }
    }
}

pub open spec fn without_copies_body(list: Seq<(usize, InstModel)>) -> Seq<(usize, InstModel)>
    decreases list,
{
    if list.len() == 0 {
        Seq::empty()
    } else {
        let before = without_copies_body(list.drop_last());
        if is_self_copy(list[list.len() - 1].1) {
            before
        } else {
            before.push((list[list.len() - 1].0, without_copies(list[list.len() - 1].1)))
        }
    }
}

fn remove_self_copies(instr: &IRInst) -> (res: IRInst)
    ensures
        res.model() == without_copies(instr.model()),
    decreases instr,
{
    match instr {
        IRInst::If { condition, then_branch, else_branch } => IRInst::If {
            condition: condition.clone(),
            then_branch: remove_self_copies_list(then_branch),
            else_branch: remove_self_copies_list(else_branch),
        },
        IRInst::While { label, entry_offset, condition, body } => IRInst::While {
            label: *label,
            entry_offset: *entry_offset,
            condition: condition.clone(),
            body: remove_self_copies_body(body),
        },
        _ => instr.clone(),
    }
}

fn remove_self_copies_list(list: &Vec<IRInst>) -> (res: Vec<IRInst>)
    ensures
        models(res@) == without_copies_list(models(list@)),
    decreases list,
{
    let ghost all = models(list@);
    let mut res: Vec<IRInst> = Vec::new();
    assert(all.subrange(0, 0) =~= Seq::empty());
    assert(models(res@) =~= Seq::empty());
    let mut i: usize = 0;
    while i < list.len()
        invariant
            i <= list@.len(),
            all == models(list@),
            models(res@) == without_copies_list(all.subrange(0, i as int)),
        decreases list@.len() - i,
    {
        let ghost prefix = all.subrange(0, i + 1);
        assert(prefix.drop_last() =~= all.subrange(0, i as int));
        assert(decreases_to!(list => list@[i as int]));
        if !self_copy(&list[i]) {
            let ghost before = models(res@);
            res.push(remove_self_copies(&list[i]));
            assert(models(res@) =~= before.push(without_copies(all[i as int])));
        }
        i = i + 1;
    }
    assert(all.subrange(0, i as int) =~= all);
    res
}

fn remove_self_copies_body(list: &Vec<(usize, IRInst)>) -> (res: Vec<(usize, IRInst)>)
    ensures
        body_models(res@) == without_copies_body(body_models(list@)),
    decreases list,
{
    let ghost all = body_models(list@);
    let mut res: Vec<(usize, IRInst)> = Vec::new();
    assert(all.subrange(0, 0) =~= Seq::empty());
    assert(body_models(res@) =~= Seq::empty());
    let mut i: usize = 0;
    while i < list.len()
        invariant
            i <= list@.len(),
            all == body_models(list@),
            body_models(res@) == without_copies_body(all.subrange(0, i as int)),
        decreases list@.len() - i,
    {
        let ghost prefix = all.subrange(0, i + 1);
        assert(prefix.drop_last() =~= all.subrange(0, i as int));
        assert(decreases_to!(list => list@[i as int]));
        if !self_copy(&list[i].1) {
            let ghost before = body_models(res@);
            res.push((list[i].0, remove_self_copies(&list[i].1)));
            assert(body_models(res@) =~= before.push(
                (all[i as int].0, without_copies(all[i as int].1)),
            ));
        }
        i = i + 1;
    }
    assert(all.subrange(0, i as int) =~= all);
    res
}


/// Whether the instruction is the copy of a candidate.
pub open spec fn is_copy(instr: InstModel, candidate: Candidate) -> bool {
    assigned_of(instr) == Some((candidate.target, IRExpr::Variable(candidate.source)))
}

fn copies(instr: &IRInst, candidate: Candidate) -> (res: bool)
    ensures
        res == is_copy(instr.model(), candidate),
{
    match assigned(instr) {
        Some((target, IRExpr::Variable(source))) => target == candidate.target && *source
            == candidate.source,
        _ => false,
    }
}

/// The first copy of a candidate at or after an index.
pub open spec fn first_copy(
    body: Seq<(usize, InstModel)>,
    candidate: Candidate,
    from: int,
) -> Option<
    int,
>
    decreases body.len() - from,
{
    if from < 0 || from >= body.len() {
        None
    } else if is_copy(body[from].1, candidate) {
        Some(from)
    } else {
        first_copy(body, candidate, from + 1)
    }
}

fn find_copy(body: &Vec<(usize, IRInst)>, candidate: Candidate) -> (res: Option<usize>)
    ensures
        match res {
            Some(index) => index < body@.len() && first_copy(
                body_models(body@),
                candidate,
                0,
            ) == Some(index as int),
            None => first_copy(body_models(body@), candidate, 0) is None,
        },
{
    let ghost all = body_models(body@);
    let mut i: usize = 0;
    while i < body.len()
        invariant
            i <= body@.len(),
            all == body_models(body@),
            first_copy(all, candidate, 0) == first_copy(all, candidate, i as int),
        decreases body@.len() - i,
    {
        assert(all[i as int].1 == body@[i as int].1.model());
        if copies(&body[i].1, candidate) {
            return Some(i);
        }
        i = i + 1;
    }
    None
}

/// A loop without its header copy, working on the carried slot itself.
pub open spec fn merged(instr: InstModel, candidate: Candidate) -> InstModel {
    without_copies(renamed_in(instr, candidate.target, candidate.source))
}

/// The instruction with the candidate's loop rewritten, where it holds that loop.
pub open spec fn applied(instr: InstModel, candidate: Candidate) -> Option<InstModel>
    decreases instr,
{
    match instr {
        InstModel::While { label, entry_offset, condition, body } => {
            let header = if entry_offset == candidate.entry_offset {
                first_copy(body, candidate, 0)
            } else {
                None
            };
            match header {
                Some(header) => Some(
                    merged(
                        InstModel::While {
                            label,
                            entry_offset,
                            condition,
                            body: body.remove(header),
                        },
                        candidate,
                    ),
                ),
                None => match applied_body(body, candidate) {
                    Some(body) => Some(
                        InstModel::While { label, entry_offset, condition, body },
                    ),
                    None => None,
                },
            }
        },
        InstModel::If { condition, then_branch, else_branch } => match applied_list(
            then_branch,
            candidate,
        ) {
            Some(then_branch) => Some(InstModel::If { condition, then_branch, else_branch }),
            None => match applied_list(else_branch, candidate) {
                Some(else_branch) => Some(InstModel::If { condition, then_branch, else_branch }),
                None => None,
            },
        },
        _ => None,
    }
}

pub open spec fn applied_list(list: Seq<InstModel>, candidate: Candidate) -> Option<Seq<InstModel>>
    decreases list,
{
    if list.len() == 0 {
        None
    } else {
        match applied_list(list.drop_last(), candidate) {
            Some(before) => Some(before.push(list[list.len() - 1])),
            None => match applied(list[list.len() - 1], candidate) {
                Some(last) => Some(list.drop_last().push(last)),
                None => None,
            },
        }
    }
}

pub open spec fn applied_body(list: Seq<(usize, InstModel)>, candidate: Candidate) -> Option<
    Seq<(usize, InstModel)>,
>
    decreases list,
{
    if list.len() == 0 {
        None
    } else {
        match applied_body(list.drop_last(), candidate) {
            Some(before) => Some(before.push(list[list.len() - 1])),
            None => match applied(list[list.len() - 1].1, candidate) {
                Some(last) => Some(list.drop_last().push((list[list.len() - 1].0, last))),
                None => None,
            },
        }
    }
}

proof fn lemma_applied_list(list: Seq<InstModel>, candidate: Candidate, at: int)
    requires
        0 <= at < list.len(),
        applied_list(list.subrange(0, at), candidate) is None,
        applied(list[at], candidate) is Some,
    ensures
        applied_list(list, candidate) == Some(list.update(at, applied(list[at], candidate)->0)),
    decreases list.len(),
{
    let front = list.drop_last();
    let made = applied(list[at], candidate)->0;
    if at == list.len() - 1 {
        assert(front =~= list.subrange(0, at));
        assert(front.push(made) =~= list.update(at, made));
    } else {
        assert(front.subrange(0, at) =~= list.subrange(0, at));
        lemma_applied_list(front, candidate, at);
        assert(front.update(at, made).push(list.last()) =~= list.update(at, made));
    }
}

proof fn lemma_applied_body(list: Seq<(usize, InstModel)>, candidate: Candidate, at: int)
    requires
        0 <= at < list.len(),
        applied_body(list.subrange(0, at), candidate) is None,
        applied(list[at].1, candidate) is Some,
    ensures
        applied_body(list, candidate) == Some(
            list.update(at, (list[at].0, applied(list[at].1, candidate)->0)),
        ),
    decreases list.len(),
{
    let front = list.drop_last();
    let made = (list[at].0, applied(list[at].1, candidate)->0);
    if at == list.len() - 1 {
        assert(front =~= list.subrange(0, at));
        assert(front.push(made) =~= list.update(at, made));
    } else {
        assert(front.subrange(0, at) =~= list.subrange(0, at));
        lemma_applied_body(front, candidate, at);
        assert(front.update(at, made).push(list.last()) =~= list.update(at, made));
    }
}

#[verifier::rlimit(30)]
fn apply(instr: &IRInst, candidate: Candidate) -> (res: Option<IRInst>)
    ensures
        match res {
            Some(made) => applied(instr.model(), candidate) == Some(made.model()),
            None => applied(instr.model(), candidate) is None,
        },
    decreases instr,
{
    match instr {
        IRInst::While { label, entry_offset, condition, body } => {
            if *entry_offset == candidate.entry_offset {
                if let Some(header) = find_copy(body, candidate) {
                    let mut rest: Vec<(usize, IRInst)> = clone_body(body);
                    let ghost all = body_models(rest@);
                    rest.remove(header);
                    assert(body_models(rest@) =~= all.remove(header as int));
                    let made = IRInst::While {
                        label: *label,
                        entry_offset: *entry_offset,
                        condition: condition.clone(),
                        body: rest,
                    };
                    let made: IRInst = replace(&made, candidate.target, candidate.source);
                    return Some(remove_self_copies(&made));
                }
            }
            match apply_body(body, candidate) {
                Some(body) => Some(
                    IRInst::While {
                        label: *label,
                        entry_offset: *entry_offset,
                        condition: condition.clone(),
                        body,
                    },
                ),
                None => None,
            }
        },
        IRInst::If { condition, then_branch, else_branch } => {
            if let Some(then_branch) = apply_list(then_branch, candidate) {
                return Some(
                    IRInst::If {
                        condition: condition.clone(),
                        then_branch,
                        else_branch: super::ir::clone_instructions(else_branch),
                    },
                );
            }
            match apply_list(else_branch, candidate) {
                Some(else_branch) => Some(
                    IRInst::If {
                        condition: condition.clone(),
                        then_branch: super::ir::clone_instructions(then_branch),
                        else_branch,
                    },
                ),
                None => None,
            }
        },
        _ => None,
    }
}

fn apply_list(list: &Vec<IRInst>, candidate: Candidate) -> (res: Option<Vec<IRInst>>)
    ensures
        match res {
            Some(made) => applied_list(models(list@), candidate) == Some(models(made@)),
            None => applied_list(models(list@), candidate) is None,
        },
    decreases list,
{
    let ghost all = models(list@);
    assert(all.subrange(0, 0) =~= Seq::empty());
    let mut i: usize = 0;
    while i < list.len()
        invariant
            i <= list@.len(),
            all == models(list@),
            applied_list(all.subrange(0, i as int), candidate) is None,
        decreases list@.len() - i,
    {
        let ghost prefix = all.subrange(0, i + 1);
        assert(prefix.drop_last() =~= all.subrange(0, i as int));
        assert(decreases_to!(list => list@[i as int]));
        if let Some(made) = apply(&list[i], candidate) {
            let ghost model = made.model();
            let mut res: Vec<IRInst> = super::ir::clone_instructions(list);
            res.set(i, made);
            proof {
                lemma_applied_list(all, candidate, i as int);
                assert(models(res@) =~= all.update(i as int, model));
            }
            return Some(res);
        }
        i = i + 1;
    }
    assert(all.subrange(0, i as int) =~= all);
    None
}

fn apply_body(list: &Vec<(usize, IRInst)>, candidate: Candidate) -> (res: Option<
    Vec<(usize, IRInst)>,
>)
    ensures
        match res {
            Some(made) => applied_body(body_models(list@), candidate) == Some(
                body_models(made@),
            ),
            None => applied_body(body_models(list@), candidate) is None,
        },
    decreases list,
{
    let ghost all = body_models(list@);
    assert(all.subrange(0, 0) =~= Seq::empty());
    let mut i: usize = 0;
    while i < list.len()
        invariant
            i <= list@.len(),
            all == body_models(list@),
            applied_body(all.subrange(0, i as int), candidate) is None,
        decreases list@.len() - i,
    {
        let ghost prefix = all.subrange(0, i + 1);
        assert(prefix.drop_last() =~= all.subrange(0, i as int));
        assert(decreases_to!(list => list@[i as int]));
        if let Some(made) = apply(&list[i].1, candidate) {
            let ghost model = (list@[i as int].0, made.model());
            let mut res: Vec<(usize, IRInst)> = clone_body(list);
            res.set(i, (list[i].0, made));
            proof {
                lemma_applied_body(all, candidate, i as int);
                assert(body_models(res@) =~= all.update(i as int, model));
            }
            return Some(res);
        }
        i = i + 1;
    }
    assert(all.subrange(0, i as int) =~= all);
    None
}

/// The function with its first loop copy coalesced, where there is one.
pub open spec fn coalesced_once(function: FunctionModel) -> Option<FunctionModel> {
    match found_in_body(
        function.body,
        Set::empty(),
        function_types(function),
        function.body.len() as int,
    ) {
        None => None,
        Some(candidate) => match applied_body(function.body, candidate) {
            None => None,
            Some(body) => Some(FunctionModel { body, ..function }),
        },
    }
}

proof fn lemma_renamed_weight(instr: InstModel, slot: VariableId, carried: VariableId)
    ensures
        weight(renamed_in(instr, slot, carried)) <= weight(instr),
    decreases instr,
{
    match instr {
        InstModel::If { then_branch, else_branch, .. } => {
            lemma_renamed_weight_list(then_branch, slot, carried);
            lemma_renamed_weight_list(else_branch, slot, carried);
        },
        InstModel::While { body, .. } => lemma_renamed_weight_body(body, slot, carried),
        _ => {},
    }
}

proof fn lemma_renamed_weight_list(list: Seq<InstModel>, slot: VariableId, carried: VariableId)
    ensures
        weight_list(renamed_in_list(list, slot, carried)) <= weight_list(list),
    decreases list,
{
    let made = renamed_in_list(list, slot, carried);
    if list.len() > 0 {
        assert(made.drop_last() =~= renamed_in_list(list.drop_last(), slot, carried));
        lemma_renamed_weight_list(list.drop_last(), slot, carried);
        lemma_renamed_weight(list[list.len() - 1], slot, carried);
    }
}

proof fn lemma_renamed_weight_body(
    list: Seq<(usize, InstModel)>,
    slot: VariableId,
    carried: VariableId,
)
    ensures
        weight_body(renamed_in_body(list, slot, carried)) <= weight_body(list),
    decreases list,
{
    let made = renamed_in_body(list, slot, carried);
    if list.len() > 0 {
        assert(made.drop_last() =~= renamed_in_body(list.drop_last(), slot, carried));
        lemma_renamed_weight_body(list.drop_last(), slot, carried);
        lemma_renamed_weight(list[list.len() - 1].1, slot, carried);
    }
}

proof fn lemma_without_copies_weight(instr: InstModel)
    ensures
        weight(without_copies(instr)) <= weight(instr),
    decreases instr,
{
    match instr {
        InstModel::If { then_branch, else_branch, .. } => {
            lemma_without_copies_weight_list(then_branch);
            lemma_without_copies_weight_list(else_branch);
        },
        InstModel::While { body, .. } => lemma_without_copies_weight_body(body),
        _ => {},
    }
}

proof fn lemma_without_copies_weight_list(list: Seq<InstModel>)
    ensures
        weight_list(without_copies_list(list)) <= weight_list(list),
    decreases list,
{
    if list.len() > 0 {
        let last = list[list.len() - 1];
        lemma_without_copies_weight_list(list.drop_last());
        lemma_without_copies_weight(last);
        lemma_list_push(without_copies_list(list.drop_last()), without_copies(last));
    }
}

proof fn lemma_without_copies_weight_body(list: Seq<(usize, InstModel)>)
    ensures
        weight_body(without_copies_body(list)) <= weight_body(list),
    decreases list,
{
    if list.len() > 0 {
        let last = list[list.len() - 1];
        lemma_without_copies_weight_body(list.drop_last());
        lemma_without_copies_weight(last.1);
        lemma_body_push(
            without_copies_body(list.drop_last()),
            (last.0, without_copies(last.1)),
        );
    }
}

proof fn lemma_first_copy(body: Seq<(usize, InstModel)>, candidate: Candidate, from: int)
    ensures
        first_copy(body, candidate, from) matches Some(at) ==> 0 <= at < body.len(),
    decreases body.len() - from,
{
    if 0 <= from < body.len() {
        lemma_first_copy(body, candidate, from + 1);
    }
}

proof fn lemma_applied_weight(instr: InstModel, candidate: Candidate)
    ensures
        applied(instr, candidate) matches Some(made) ==> weight(made) < weight(instr),
    decreases instr,
{
    match instr {
        InstModel::While { label, entry_offset, condition, body } => {
            lemma_first_copy(body, candidate, 0);
            lemma_applied_weight_body(body, candidate);
            if let Some(header) = first_copy(body, candidate, 0) {
                let shorter = InstModel::While {
                    label,
                    entry_offset,
                    condition,
                    body: body.remove(header),
                };
                lemma_body_remove(body, header);
                lemma_positive(body[header].1);
                lemma_renamed_weight(shorter, candidate.target, candidate.source);
                lemma_without_copies_weight(
                    renamed_in(shorter, candidate.target, candidate.source),
                );
            }
        },
        InstModel::If { then_branch, else_branch, .. } => {
            lemma_applied_weight_list(then_branch, candidate);
            lemma_applied_weight_list(else_branch, candidate);
        },
        _ => {},
    }
}

proof fn lemma_applied_weight_list(list: Seq<InstModel>, candidate: Candidate)
    ensures
        applied_list(list, candidate) matches Some(made) ==> weight_list(made) < weight_list(list),
    decreases list,
{
    if list.len() > 0 {
        let last = list[list.len() - 1];
        lemma_applied_weight_list(list.drop_last(), candidate);
        lemma_applied_weight(last, candidate);
        if let Some(before) = applied_list(list.drop_last(), candidate) {
            lemma_list_push(before, last);
        } else if let Some(made) = applied(last, candidate) {
            lemma_list_push(list.drop_last(), made);
        }
    }
}

proof fn lemma_applied_weight_body(list: Seq<(usize, InstModel)>, candidate: Candidate)
    ensures
        applied_body(list, candidate) matches Some(made) ==> weight_body(made) < weight_body(list),
    decreases list,
{
    if list.len() > 0 {
        let last = list[list.len() - 1];
        lemma_applied_weight_body(list.drop_last(), candidate);
        lemma_applied_weight(last.1, candidate);
        if let Some(before) = applied_body(list.drop_last(), candidate) {
            lemma_body_push(before, last);
        } else if let Some(made) = applied(last.1, candidate) {
            lemma_body_push(list.drop_last(), (last.0, made));
        }
    }
}

/// Coalescing a copy makes a function lighter.
pub proof fn lemma_coalesced_weight(function: FunctionModel)
    ensures
        coalesced_once(function) matches Some(next) ==> weight_body(next.body) < weight_body(
            function.body,
        ),
{
    if let Some(candidate) = found_in_body(
        function.body,
        Set::empty(),
        function_types(function),
        function.body.len() as int,
    ) {
        lemma_applied_weight_body(function.body, candidate);
    }
}

/// The function with its loop copies coalesced, one after the other until there is
/// none left.
pub open spec fn coalesced(function: FunctionModel) -> FunctionModel
    decreases weight_body(function.body),
{
    proof {
        lemma_coalesced_weight(function);
    }
    match coalesced_once(function) {
        None => function,
        Some(next) => coalesced(next),
    }
}

pub open spec fn body_coalesced(function: FunctionModel) -> Seq<(usize, InstModel)> {
    coalesced(function).body
}

/// No copy is left to coalesce in a coalesced function.
pub proof fn law_coalesced_functions_are_stable(function: FunctionModel)
    ensures
        coalesced_once(coalesced(function)) is None,
        coalesced(coalesced(function)) == coalesced(function),
    decreases weight_body(function.body),
{
    lemma_coalesced_weight(function);
    if let Some(next) = coalesced_once(function) {
        law_coalesced_functions_are_stable(next);
    }
}

fn coalesce(function: &SyntheticFunction) -> (res: Vec<(usize, IRInst)>)
    ensures
        body_models(res@) == body_coalesced(function.model()),
{
    let mut current = SyntheticFunction {
        entry_offset: function.entry_offset,
        parameters: function.copied_parameters(),
        body: clone_body(&function.body),
    };
    assert(current.model() == function.model());
    let mut going: bool = true;
    while going
        invariant
            going ==> coalesced(current.model()) == coalesced(function.model()),
            !going ==> current.model() == coalesced(function.model()),
        decreases weight_body(current.model().body), going as int,
    {
        let types: Table<VariableId, VariableType> = types(&current);
        let outside: KeySet<VariableId> = KeySet::new();
        let made: Option<Vec<(usize, IRInst)>> = match find_in_body(
            &current.body,
            &outside,
            &types,
        ) {
            Some(candidate) => apply_body(&current.body, candidate),
            None => None,
        };
        let ghost before = current.model();
        match made {
            Some(body) => {
                current.body = body;
                proof {
                    assert(coalesced_once(before) == Some(current.model()));
                    lemma_coalesced_weight(before);
                }
            },
            None => {
                going = false;
            },
        }
    }
    current.body
}

pub open spec fn function_coalesced(function: FunctionModel) -> FunctionModel {
    FunctionModel { body: body_coalesced(function), ..function }
}

pub open spec fn program_coalesced(program: ProgramModel) -> ProgramModel {
    ProgramModel {
        functions: program.functions.map_values(|f: FunctionModel| function_coalesced(f)),
        ..program
    }
}

/// Coalesces the loop copies of every function.
pub fn run(program: &mut Program)
    ensures
        final(program).model() == program_coalesced(old(program).model()),
{
    let ghost before = function_models(program.functions@);
    let ghost initial = *program;
    let total: usize = program.functions.len();
    let mut i: usize = 0;
    while i < total
        invariant
            i <= total,
            total == program.functions@.len(),
            total == before.len(),
            *program == (Program { functions: program.functions, ..initial }),
            forall|k: int|
                0 <= k < i ==> (#[trigger] program.functions@[k]).model() == function_coalesced(
                    before[k],
                ),
            forall|k: int|
                i <= k < total ==> (#[trigger] program.functions@[k]).model() == before[k],
        decreases total - i,
    {
        let body: Vec<(usize, IRInst)> = coalesce(&program.functions[i]);
        program.functions[i].body = body;
        i = i + 1;
    }
    assert(program.model().functions =~= program_coalesced(initial.model()).functions);
}

} // verus!
