//! How often the variables of a body are read and written.
use super::effects::{expression_effects, expression_reads, instruction_effects, Effects};
use super::ir::{body_models, models, IRExpr, IRInst, InstModel, VariableId};
use vstd::prelude::*;

verus! {

/// A count, as far as it can be held.
pub open spec fn counted(n: nat) -> usize {
    if n < usize::MAX {
        n as usize
    } else {
        usize::MAX
    }
}

pub fn plus(a: usize, b: usize) -> (res: usize)
    ensures
        forall|m: nat, n: nat|
            a == #[trigger] counted(m) && b == #[trigger] counted(n) ==> res == counted(m + n),
{
    if a < usize::MAX - b {
        a + b
    } else {
        usize::MAX
    }
}

pub open spec fn reads_bit(expr: IRExpr, variable: VariableId) -> nat {
    if expression_effects(expr).reads.contains(variable) {
        1
    } else {
        0
    }
}

fn read_bit(expr: &IRExpr, variable: VariableId) -> (res: usize)
    ensures
        res == counted(reads_bit(*expr, variable)),
{
    if expression_reads(expr, variable) {
        1
    } else {
        0
    }
}

/// Whether a walk over elements writes the variable.
pub open spec fn element_bit(element: VariableId, variable: VariableId) -> nat {
    if element == variable {
        1
    } else {
        0
    }
}

fn write_bit(element: VariableId, variable: VariableId) -> (res: usize)
    ensures
        res == counted(element_bit(element, variable)),
{
    if element == variable {
        1
    } else {
        0
    }
}

/// How many instructions read a variable.
pub open spec fn reads_in(instr: InstModel, variable: VariableId) -> nat
    decreases instr,
{
    match instr {
        InstModel::If {
            condition,
            then_branch,
            else_branch,
        } => reads_bit(condition, variable) + reads_in_list(
            then_branch,
            variable,
        ) + reads_in_list(else_branch, variable),
        InstModel::While { condition, body, .. } => reads_bit(
            condition.check(),
            variable,
        ) + reads_in_body(body, variable),
        InstModel::ForEach {
            vector,
            body,
            ..
        } => reads_bit(vector, variable) + reads_in_body(body, variable),
        _ => if instruction_effects(instr).reads.contains(variable) {
            1
        } else {
            0
        },
    }
}

pub open spec fn reads_in_list(list: Seq<InstModel>, variable: VariableId) -> nat
    decreases list,
{
    if list.len() == 0 {
        0
    } else {
        reads_in_list(list.drop_last(), variable) + reads_in(list[list.len() - 1], variable)
    }
}

pub open spec fn reads_in_body(list: Seq<(usize, InstModel)>, variable: VariableId) -> nat
    decreases list,
{
    if list.len() == 0 {
        0
    } else {
        reads_in_body(list.drop_last(), variable) + reads_in(list[list.len() - 1].1, variable)
    }
}

pub fn count_reads(instr: &IRInst, variable: VariableId) -> (res: usize)
    ensures
        res == counted(reads_in(instr.model(), variable)),
    decreases instr,
{
    match instr {
        IRInst::If { condition, then_branch, else_branch } => plus(
            plus(read_bit(condition, variable), count_reads_list(then_branch, variable)),
            count_reads_list(else_branch, variable),
        ),
        IRInst::While { condition, body, .. } => plus(
            read_bit(condition.expression(), variable),
            count_reads_body(body, variable),
        ),
        IRInst::ForEach { vector, body, .. } => plus(
            read_bit(vector, variable),
            count_reads_body(body, variable),
        ),
        _ => if Effects::of_instruction(instr).reads.contains(variable) {
            1
        } else {
            0
        },
    }
}

pub fn count_reads_list(list: &Vec<IRInst>, variable: VariableId) -> (res: usize)
    ensures
        res == counted(reads_in_list(models(list@), variable)),
    decreases list,
{
    let ghost all = models(list@);
    assert(all.subrange(0, 0) =~= Seq::empty());
    let mut res: usize = 0;
    let mut i: usize = 0;
    while i < list.len()
        invariant
            i <= list@.len(),
            all == models(list@),
            res == counted(reads_in_list(all.subrange(0, i as int), variable)),
        decreases list@.len() - i,
    {
        let ghost prefix = all.subrange(0, i + 1);
        assert(prefix.drop_last() =~= all.subrange(0, i as int));
        assert(decreases_to!(list => list@[i as int]));
        res = plus(res, count_reads(&list[i], variable));
        i = i + 1;
    }
    assert(all.subrange(0, i as int) =~= all);
    res
}

pub fn count_reads_body(list: &Vec<(usize, IRInst)>, variable: VariableId) -> (res: usize)
    ensures
        res == counted(reads_in_body(body_models(list@), variable)),
    decreases list,
{
    let ghost all = body_models(list@);
    assert(all.subrange(0, 0) =~= Seq::empty());
    let mut res: usize = 0;
    let mut i: usize = 0;
    while i < list.len()
        invariant
            i <= list@.len(),
            all == body_models(list@),
            res == counted(reads_in_body(all.subrange(0, i as int), variable)),
        decreases list@.len() - i,
    {
        let ghost prefix = all.subrange(0, i + 1);
        assert(prefix.drop_last() =~= all.subrange(0, i as int));
        assert(decreases_to!(list => list@[i as int]));
        res = plus(res, count_reads(&list[i].1, variable));
        i = i + 1;
    }
    assert(all.subrange(0, i as int) =~= all);
    res
}

/// How many instructions write a variable. A walk writes its element.
pub open spec fn writes_in(instr: InstModel, variable: VariableId) -> nat
    decreases instr,
{
    match instr {
        InstModel::If {
            then_branch,
            else_branch,
            ..
        } => writes_in_list(then_branch, variable) + writes_in_list(else_branch, variable),
        InstModel::While { body, .. } => writes_in_body(body, variable),
        InstModel::ForEach {
            variable: element,
            body,
            ..
        } => element_bit(element, variable) + writes_in_body(body, variable),
        _ => if instruction_effects(instr).writes.contains(variable) {
            1
        } else {
            0
        },
    }
}

pub open spec fn writes_in_list(list: Seq<InstModel>, variable: VariableId) -> nat
    decreases list,
{
    if list.len() == 0 {
        0
    } else {
        writes_in_list(list.drop_last(), variable) + writes_in(list[list.len() - 1], variable)
    }
}

pub open spec fn writes_in_body(list: Seq<(usize, InstModel)>, variable: VariableId) -> nat
    decreases list,
{
    if list.len() == 0 {
        0
    } else {
        writes_in_body(list.drop_last(), variable) + writes_in(list[list.len() - 1].1, variable)
    }
}

pub fn count_writes(instr: &IRInst, variable: VariableId) -> (res: usize)
    ensures
        res == counted(writes_in(instr.model(), variable)),
    decreases instr,
{
    match instr {
        IRInst::If { then_branch, else_branch, .. } => plus(
            count_writes_list(then_branch, variable),
            count_writes_list(else_branch, variable),
        ),
        IRInst::While { body, .. } => count_writes_body(body, variable),
        IRInst::ForEach { variable: element, body, .. } => plus(
            write_bit(*element, variable),
            count_writes_body(body, variable),
        ),
        _ => if Effects::of_instruction(instr).writes.contains(variable) {
            1
        } else {
            0
        },
    }
}

pub fn count_writes_list(list: &Vec<IRInst>, variable: VariableId) -> (res: usize)
    ensures
        res == counted(writes_in_list(models(list@), variable)),
    decreases list,
{
    let ghost all = models(list@);
    assert(all.subrange(0, 0) =~= Seq::empty());
    let mut res: usize = 0;
    let mut i: usize = 0;
    while i < list.len()
        invariant
            i <= list@.len(),
            all == models(list@),
            res == counted(writes_in_list(all.subrange(0, i as int), variable)),
        decreases list@.len() - i,
    {
        let ghost prefix = all.subrange(0, i + 1);
        assert(prefix.drop_last() =~= all.subrange(0, i as int));
        assert(decreases_to!(list => list@[i as int]));
        res = plus(res, count_writes(&list[i], variable));
        i = i + 1;
    }
    assert(all.subrange(0, i as int) =~= all);
    res
}

pub fn count_writes_body(list: &Vec<(usize, IRInst)>, variable: VariableId) -> (res: usize)
    ensures
        res == counted(writes_in_body(body_models(list@), variable)),
    decreases list,
{
    let ghost all = body_models(list@);
    assert(all.subrange(0, 0) =~= Seq::empty());
    let mut res: usize = 0;
    let mut i: usize = 0;
    while i < list.len()
        invariant
            i <= list@.len(),
            all == body_models(list@),
            res == counted(writes_in_body(all.subrange(0, i as int), variable)),
        decreases list@.len() - i,
    {
        let ghost prefix = all.subrange(0, i + 1);
        assert(prefix.drop_last() =~= all.subrange(0, i as int));
        assert(decreases_to!(list => list@[i as int]));
        res = plus(res, count_writes(&list[i].1, variable));
        i = i + 1;
    }
    assert(all.subrange(0, i as int) =~= all);
    res
}


/// Whether a body reads and writes a variable that often.
pub open spec fn is_used(
    list: Seq<(usize, InstModel)>,
    variable: VariableId,
    reads: nat,
    writes: nat,
) -> bool {
    reads_in_body(list, variable) == reads && writes_in_body(list, variable) == writes
}

pub fn used(list: &Vec<(usize, IRInst)>, variable: VariableId, reads: u8, writes: u8) -> (res: bool)
    ensures
        res == is_used(body_models(list@), variable, reads as nat, writes as nat),
{
    count_reads_body(list, variable) == reads as usize && count_writes_body(list, variable)
        == writes as usize
}

} // verus!
