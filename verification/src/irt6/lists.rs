//! Instruction lists of branches and bodies in one form, and their measures.
use super::ir::{body_models, models, IRInst, InstModel};
use vstd::prelude::*;

verus! {

/// A branch with each instruction at the offset of the branch.
pub open spec fn tagged(list: Seq<InstModel>, offset: usize) -> Seq<(usize, InstModel)> {
    Seq::new(list.len(), |i: int| (offset, list[i]))
}

/// A body without its offsets.
pub open spec fn untagged(list: Seq<(usize, InstModel)>) -> Seq<InstModel> {
    Seq::new(list.len(), |i: int| list[i].1)
}

pub fn tag(list: &Vec<IRInst>, offset: usize) -> (res: Vec<(usize, IRInst)>)
    ensures
        body_models(res@) == tagged(models(list@), offset),
{
    let mut res: Vec<(usize, IRInst)> = Vec::new();
    let mut i: usize = 0;
    while i < list.len()
        invariant
            i <= list@.len(),
            res@.len() == i,
            forall|k: int|
                0 <= k < i ==> (#[trigger] res@[k]).0 == offset && res@[k].1.model()
                    == list@[k].model(),
        decreases list@.len() - i,
    {
        res.push((offset, list[i].clone()));
        i = i + 1;
    }
    assert(body_models(res@) =~= tagged(models(list@), offset));
    res
}

pub fn untag(list: Vec<(usize, IRInst)>) -> (res: Vec<IRInst>)
    ensures
        models(res@) == untagged(body_models(list@)),
{
    let mut res: Vec<IRInst> = Vec::new();
    let mut i: usize = 0;
    while i < list.len()
        invariant
            i <= list@.len(),
            res@.len() == i,
            forall|k: int| 0 <= k < i ==> (#[trigger] res@[k]).model() == list@[k].1.model(),
        decreases list@.len() - i,
    {
        res.push(list[i].1.clone());
        i = i + 1;
    }
    assert(models(res@) =~= untagged(body_models(list@)));
    res
}

/// How deep instructions are nested in an instruction.
pub open spec fn depth(instr: InstModel) -> nat
    decreases instr,
{
    match instr {
        InstModel::If { then_branch, else_branch, .. } => 1 + larger(
            depth_list(then_branch),
            depth_list(else_branch),
        ),
        InstModel::While { body, .. } => 1 + depth_body(body),
        InstModel::ForEach { body, .. } => 1 + depth_body(body),
        _ => 0,
    }
}

pub open spec fn larger(a: nat, b: nat) -> nat {
    if a < b {
        b
    } else {
        a
    }
}

pub open spec fn depth_list(list: Seq<InstModel>) -> nat
    decreases list,
{
    if list.len() == 0 {
        0
    } else {
        larger(depth_list(list.drop_last()), depth(list[list.len() - 1]))
    }
}

pub open spec fn depth_body(list: Seq<(usize, InstModel)>) -> nat
    decreases list,
{
    if list.len() == 0 {
        0
    } else {
        larger(depth_body(list.drop_last()), depth(list[list.len() - 1].1))
    }
}

/// How many instructions an instruction holds, with itself.
pub open spec fn size(instr: InstModel) -> nat
    decreases instr,
{
    match instr {
        InstModel::If { then_branch, else_branch, .. } => 1 + size_list(then_branch) + size_list(
            else_branch,
        ),
        InstModel::While { body, .. } => 1 + size_body(body),
        InstModel::ForEach { body, .. } => 1 + size_body(body),
        _ => 1,
    }
}

pub open spec fn size_list(list: Seq<InstModel>) -> nat
    decreases list,
{
    if list.len() == 0 {
        0
    } else {
        size_list(list.drop_last()) + size(list[list.len() - 1])
    }
}

pub open spec fn size_body(list: Seq<(usize, InstModel)>) -> nat
    decreases list,
{
    if list.len() == 0 {
        0
    } else {
        size_body(list.drop_last()) + size(list[list.len() - 1].1)
    }
}

/// A branch is as deep and as large with offsets as without.
pub proof fn lemma_tagged(list: Seq<InstModel>, offset: usize)
    ensures
        depth_body(tagged(list, offset)) == depth_list(list),
        size_body(tagged(list, offset)) == size_list(list),
    decreases list.len(),
{
    let all = tagged(list, offset);
    if list.len() > 0 {
        lemma_tagged(list.drop_last(), offset);
        assert(all.drop_last() =~= tagged(list.drop_last(), offset));
    }
}

/// A body is as deep and as large without its offsets.
pub proof fn lemma_untagged(list: Seq<(usize, InstModel)>)
    ensures
        depth_list(untagged(list)) == depth_body(list),
        size_list(untagged(list)) == size_body(list),
    decreases list.len(),
{
    let all = untagged(list);
    if list.len() > 0 {
        lemma_untagged(list.drop_last());
        assert(all.drop_last() =~= untagged(list.drop_last()));
    }
}

/// The items of a body are at most as deep as it.
pub proof fn lemma_item_depth(list: Seq<(usize, InstModel)>, index: int)
    requires
        0 <= index < list.len(),
    ensures
        depth(list[index].1) <= depth_body(list),
    decreases list.len(),
{
    if index < list.len() - 1 {
        lemma_item_depth(list.drop_last(), index);
    }
}

/// A body is as deep as one of its items.
pub proof fn lemma_depth_bound(list: Seq<(usize, InstModel)>, bound: nat)
    requires
        forall|i: int| 0 <= i < list.len() ==> depth((#[trigger] list[i]).1) <= bound,
    ensures
        depth_body(list) <= bound,
    decreases list.len(),
{
    if list.len() > 0 {
        assert forall|i: int| 0 <= i < list.drop_last().len() implies depth(
            (#[trigger] list.drop_last()[i]).1,
        ) <= bound by {
            assert(list.drop_last()[i] == list[i]);
        }
        lemma_depth_bound(list.drop_last(), bound);
    }
}

/// The size of a body is the sum of those of its parts.
pub proof fn lemma_size_split(list: Seq<(usize, InstModel)>, index: int)
    requires
        0 <= index <= list.len(),
    ensures
        size_body(list) == size_body(list.subrange(0, index)) + size_body(
            list.subrange(index, list.len() as int),
        ),
    decreases list.len(),
{
    if index < list.len() {
        let last = list.drop_last();
        lemma_size_split(last, index);
        assert(last.subrange(0, index) =~= list.subrange(0, index));
        assert(last.subrange(index, last.len() as int) =~= list.subrange(
            index,
            list.len() as int,
        ).drop_last());
    } else {
        assert(list.subrange(0, index) =~= list);
        assert(list.subrange(index, list.len() as int) =~= Seq::empty());
    }
}

/// Removing an item takes its size away.
pub proof fn lemma_size_remove(list: Seq<(usize, InstModel)>, index: int)
    requires
        0 <= index < list.len(),
    ensures
        size_body(list) == size_body(list.remove(index)) + size(list[index].1),
{
    let kept = list.remove(index);
    lemma_size_split(list, index);
    lemma_size_split(list.subrange(index, list.len() as int), 1);
    lemma_size_split(kept, index);
    let tail = list.subrange(index, list.len() as int);
    assert(tail.subrange(0, 1).drop_last() =~= Seq::empty());
    assert(tail.subrange(0, 1)[0] == list[index]);
    assert(size_body(tail.subrange(0, 1).drop_last()) == 0);
    assert(kept.subrange(0, index) =~= list.subrange(0, index));
    assert(kept.subrange(index, kept.len() as int) =~= tail.subrange(1, tail.len() as int));
}

/// Replacing an item changes the size by theirs.
pub proof fn lemma_size_update(list: Seq<(usize, InstModel)>, index: int, item: (usize, InstModel))
    requires
        0 <= index < list.len(),
    ensures
        size_body(list.update(index, item)) + size(list[index].1) == size_body(list) + size(item.1),
{
    lemma_size_remove(list, index);
    lemma_size_remove(list.update(index, item), index);
    assert(list.remove(index) =~= list.update(index, item).remove(index));
}

/// Folding an item into a leaf that takes the place of the next one makes a body
/// smaller and not deeper.
pub proof fn lemma_fold(list: Seq<(usize, InstModel)>, index: int, instr: InstModel)
    requires
        0 <= index < list.len() - 1,
        depth(instr) == 0,
        size(instr) == 1,
    ensures
        depth_body(list.remove(index).update(index, (list[index + 1].0, instr))) <= depth_body(
            list,
        ),
        size_body(list.remove(index).update(index, (list[index + 1].0, instr))) < size_body(list),
{
    let item = (list[index + 1].0, instr);
    let shorter = list.remove(index);
    let made = shorter.update(index, item);
    lemma_size_remove(list, index);
    lemma_size_update(shorter, index, item);
    assert(shorter[index] == list[index + 1]);
    assert(size(list[index].1) >= 1 && size(list[index + 1].1) >= 1);
    assert forall|i: int| 0 <= i < made.len() implies depth((#[trigger] made[i]).1) <= depth_body(
        list,
    ) by {
        lemma_item_depth(
            list,
            if i < index {
                i
            } else {
                i + 1
            },
        );
    }
    lemma_depth_bound(made, depth_body(list));
}

} // verus!
