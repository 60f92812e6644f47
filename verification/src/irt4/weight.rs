//! A measure of instructions by which rewriting passes come to an end.
use super::ir::InstModel;
use vstd::prelude::*;

verus! {

/// One for an instruction, one more for an initial value, and what its lists weigh.
pub open spec fn weight(instr: InstModel) -> nat
    decreases instr,
{
    match instr {
        InstModel::If { then_branch, else_branch, .. } => 1 + weight_list(then_branch)
            + weight_list(else_branch),
        InstModel::While { body, .. } => 1 + weight_body(body),
        InstModel::DeclareAndAssignVariable { .. } => 2,
        _ => 1,
    }
}

pub open spec fn weight_list(list: Seq<InstModel>) -> nat
    decreases list,
{
    if list.len() == 0 {
        0
    } else {
        weight_list(list.drop_last()) + weight(list[list.len() - 1])
    }
}

pub open spec fn weight_body(list: Seq<(usize, InstModel)>) -> nat
    decreases list,
{
    if list.len() == 0 {
        0
    } else {
        weight_body(list.drop_last()) + weight(list[list.len() - 1].1)
    }
}

pub proof fn lemma_positive(instr: InstModel)
    ensures
        weight(instr) > 0,
{
}

pub proof fn lemma_list_push(list: Seq<InstModel>, item: InstModel)
    ensures
        weight_list(list.push(item)) == weight_list(list) + weight(item),
{
    assert(list.push(item).drop_last() =~= list);
}

pub proof fn lemma_body_push(list: Seq<(usize, InstModel)>, item: (usize, InstModel))
    ensures
        weight_body(list.push(item)) == weight_body(list) + weight(item.1),
{
    assert(list.push(item).drop_last() =~= list);
}

pub proof fn lemma_list_update(list: Seq<InstModel>, at: int, item: InstModel)
    requires
        0 <= at < list.len(),
    ensures
        weight_list(list.update(at, item)) + weight(list[at]) == weight_list(list) + weight(item),
    decreases list.len(),
{
    let made = list.update(at, item);
    if at == list.len() - 1 {
        assert(made.drop_last() =~= list.drop_last());
    } else {
        assert(made.drop_last() =~= list.drop_last().update(at, item));
        lemma_list_update(list.drop_last(), at, item);
    }
}

pub proof fn lemma_body_update(list: Seq<(usize, InstModel)>, at: int, item: (usize, InstModel))
    requires
        0 <= at < list.len(),
    ensures
        weight_body(list.update(at, item)) + weight(list[at].1) == weight_body(list) + weight(
            item.1,
        ),
    decreases list.len(),
{
    let made = list.update(at, item);
    if at == list.len() - 1 {
        assert(made.drop_last() =~= list.drop_last());
    } else {
        assert(made.drop_last() =~= list.drop_last().update(at, item));
        lemma_body_update(list.drop_last(), at, item);
    }
}

pub proof fn lemma_list_remove(list: Seq<InstModel>, at: int)
    requires
        0 <= at < list.len(),
    ensures
        weight_list(list.remove(at)) + weight(list[at]) == weight_list(list),
    decreases list.len(),
{
    let made = list.remove(at);
    if at == list.len() - 1 {
        assert(made =~= list.drop_last());
    } else {
        assert(made.drop_last() =~= list.drop_last().remove(at));
        assert(made[made.len() - 1] == list[list.len() - 1]);
        lemma_list_remove(list.drop_last(), at);
    }
}

pub proof fn lemma_body_remove(list: Seq<(usize, InstModel)>, at: int)
    requires
        0 <= at < list.len(),
    ensures
        weight_body(list.remove(at)) + weight(list[at].1) == weight_body(list),
    decreases list.len(),
{
    let made = list.remove(at);
    if at == list.len() - 1 {
        assert(made =~= list.drop_last());
    } else {
        assert(made.drop_last() =~= list.drop_last().remove(at));
        assert(made[made.len() - 1] == list[list.len() - 1]);
        lemma_body_remove(list.drop_last(), at);
    }
}

} // verus!
