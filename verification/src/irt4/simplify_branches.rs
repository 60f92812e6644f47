//! Fold branch-local constant returns and combine identical early exits.
use super::cleanup::{find_mentioned, mentioned_slots};
use super::inline_loop_conditions::{assigned_to, assignment};
use super::ir::{
    body_models, clone_instructions, function_models, models, FunctionModel, IRBinOpKind, IRExpr,
    IRInst, InstModel, Program, ProgramModel, SyntheticFunction, VariableId, VariableType,
};
use super::variable_flow::{flow_of_function, Flow};
use super::walks::{collect_types_body, find_type, type_of, types_with_body};
use crate::table::{KeySet, Table};
use vstd::prelude::*;

verus! {

// ---------------------------------------------------------------------------
// Returned values

/// The slot that an instruction returns.
pub open spec fn returned_slot(instr: InstModel) -> Option<VariableId> {
    match instr {
        InstModel::Return(Some(IRExpr::Variable(target))) => Some(target),
        _ => None,
    }
}

fn returned(instr: &IRInst) -> (res: Option<VariableId>)
    ensures
        res == returned_slot(instr.model()),
{
    match instr {
        IRInst::Return(Some(IRExpr::Variable(target))) => Some(*target),
        _ => None,
    }
}

/// Whether the value is a literal of exactly the type. Where the widths differ,
/// the assignment stays as the width boundary.
pub open spec fn is_literal_of(value: IRExpr, ty: Option<VariableType>) -> bool {
    match value {
        IRExpr::CU8(_) => ty == Some(VariableType::Unknown(Some(1))),
        IRExpr::CU32(_) => ty == Some(VariableType::Unknown(Some(4))),
        IRExpr::CU64(_) => ty == Some(VariableType::Unknown(Some(8))),
        IRExpr::Bool(_) => ty == Some(VariableType::Bool),
        _ => false,
    }
}

fn literal_fits(value: &IRExpr, ty: Option<VariableType>) -> (res: bool)
    ensures
        res == is_literal_of(*value, ty),
{
    match (value, ty) {
        (IRExpr::CU8(_), Some(ty)) => ty == VariableType::Unknown(Some(1)),
        (IRExpr::CU32(_), Some(ty)) => ty == VariableType::Unknown(Some(4)),
        (IRExpr::CU64(_), Some(ty)) => ty == VariableType::Unknown(Some(8)),
        (IRExpr::Bool(_), Some(ty)) => ty == VariableType::Bool,
        _ => false,
    }
}

/// The constant that an assignment and the return after it give.
pub open spec fn constant_return(
    assignment: InstModel,
    returning: InstModel,
    types: Map<VariableId, VariableType>,
) -> Option<IRExpr> {
    match returned_slot(returning) {
        Some(target) => match assigned_to(assignment, target) {
            Some(value) => if is_literal_of(value, type_of(types, target)) {
                Some(value)
            } else {
                None
            },
            None => None,
        },
        None => None,
    }
}

/// Whether a value has exactly the type.
pub open spec fn has_type(
    value: IRExpr,
    ty: VariableType,
    types: Map<VariableId, VariableType>,
) -> bool {
    match value {
        IRExpr::Variable(variable) => type_of(types, variable) == Some(ty),
        IRExpr::Convert { target, .. } => ty == VariableType::Unknown(Some(target.size)),
        _ => is_literal_of(value, Some(ty)),
    }
}

fn value_fits(value: &IRExpr, ty: VariableType, types: &Table<VariableId, VariableType>) -> (res:
    bool)
    ensures
        res == has_type(*value, ty, types@),
{
    match value {
        IRExpr::Variable(variable) => match types.get(*variable) {
            Some(found) => *found == ty,
            None => false,
        },
        IRExpr::Convert { target, .. } => ty == VariableType::Unknown(Some(target.size)),
        _ => literal_fits(value, Some(ty)),
    }
}

/// Whether an arm ends by assigning the slot a value of its type.
pub open spec fn arm_assigns(
    arm: Seq<InstModel>,
    target: VariableId,
    types: Map<VariableId, VariableType>,
) -> bool {
    &&& arm.len() > 0
    &&& type_of(types, target) is Some
    &&& assigned_to(arm.last(), target) matches Some(value) && has_type(
        value,
        type_of(types, target)->0,
        types,
    )
}

fn assigns(arm: &Vec<IRInst>, target: VariableId, types: &Table<VariableId, VariableType>) -> (res:
    bool)
    ensures
        res == arm_assigns(models(arm@), target, types@),
{
    if arm.len() == 0 {
        return false;
    }
    assert(models(arm@).last() == arm@[arm@.len() - 1].model());
    match (find_type(types, target), assignment(&arm[arm.len() - 1], target)) {
        (Some(ty), Some(value)) => value_fits(value, ty, types),
        _ => false,
    }
}

/// Whether the return right after a branch needs no merge slot: both arms end by
/// assigning that slot.
pub open spec fn joins(
    conditional: InstModel,
    returning: InstModel,
    types: Map<VariableId, VariableType>,
) -> bool {
    match (conditional, returned_slot(returning)) {
        (InstModel::If { then_branch, else_branch, .. }, Some(target)) => arm_assigns(
            then_branch,
            target,
            types,
        ) && arm_assigns(else_branch, target, types),
        _ => false,
    }
}

fn joined_return(
    conditional: &IRInst,
    returning: &IRInst,
    types: &Table<VariableId, VariableType>,
) -> (res: bool)
    ensures
        res == joins(conditional.model(), returning.model(), types@),
{
    match (conditional, returned(returning)) {
        (IRInst::If { then_branch, else_branch, .. }, Some(target)) => assigns(
            then_branch,
            target,
            types,
        ) && assigns(else_branch, target, types),
        _ => false,
    }
}

// ---------------------------------------------------------------------------
// Joining the instructions of a list

/// An instruction of a list after returns have been folded into it: one of the
/// list, with the slot whose last assignment in its arms becomes a return, or the
/// return of a value in the place of one of the list.
pub enum Item {
    At { index: usize, joined: Option<VariableId> },
    Value { index: usize, value: IRExpr },
}

/// An instruction of an arm. Where the arm's last assignment becomes a return, the
/// last one is that return.
pub open spec fn shown(list: Seq<InstModel>, target: Option<VariableId>, index: int) -> InstModel {
    match target {
        Some(target) => match assigned_to(list[index], target) {
            Some(value) => if index == list.len() - 1 {
                InstModel::Return(Some(value))
            } else {
                list[index]
            },
            None => list[index],
        },
        None => list[index],
    }
}

/// The instruction of an item that has not been joined.
pub open spec fn item_instr(
    list: Seq<InstModel>,
    target: Option<VariableId>,
    item: Item,
) -> Option<InstModel> {
    match item {
        Item::At { index, joined: None } => Some(shown(list, target, index as int)),
        Item::At { .. } => None,
        Item::Value { value, .. } => Some(InstModel::Return(Some(value))),
    }
}

/// The items with the next instruction of the list.
pub open spec fn with_item(
    list: Seq<InstModel>,
    target: Option<VariableId>,
    items: Seq<Item>,
    index: int,
    types: Map<VariableId, VariableType>,
) -> Seq<Item> {
    let next = shown(list, target, index);
    let plain = items.push(Item::At { index: index as usize, joined: None });
    if items.len() == 0 {
        plain
    } else {
        match item_instr(list, target, items.last()) {
            Some(last) => if joins(last, next, types) {
                items.update(
                    items.len() - 1,
                    Item::At {
                        index: items.last()->At_index,
                        joined: returned_slot(next),
                    },
                )
            } else {
                match constant_return(last, next, types) {
                    Some(value) => items.drop_last().push(
                        Item::Value { index: index as usize, value },
                    ),
                    None => plain,
                }
            },
            None => plain,
        }
    }
}

/// The slots with the one that joining the next instruction folds.
pub open spec fn folded_with(
    list: Seq<InstModel>,
    target: Option<VariableId>,
    items: Seq<Item>,
    index: int,
    types: Map<VariableId, VariableType>,
    folded: Set<VariableId>,
) -> Set<VariableId> {
    let next = shown(list, target, index);
    if items.len() == 0 {
        folded
    } else {
        match item_instr(list, target, items.last()) {
            Some(last) => if joins(last, next, types) || constant_return(
                last,
                next,
                types,
            ) is Some {
                folded.insert(returned_slot(next)->0)
            } else {
                folded
            },
            None => folded,
        }
    }
}

/// The items of the first `count` instructions of a list, and the folded slots.
pub open spec fn items_of(
    list: Seq<InstModel>,
    target: Option<VariableId>,
    count: int,
    types: Map<VariableId, VariableType>,
    folded: Set<VariableId>,
) -> (Seq<Item>, Set<VariableId>)
    decreases count,
{
    if count <= 0 {
        (Seq::empty(), folded)
    } else {
        let before = items_of(list, target, count - 1, types, folded);
        (
            with_item(list, target, before.0, count - 1, types),
            folded_with(list, target, before.0, count - 1, types, before.1),
        )
    }
}

/// Joining never makes a list longer.
pub proof fn lemma_items_are_few(
    list: Seq<InstModel>,
    target: Option<VariableId>,
    count: int,
    types: Map<VariableId, VariableType>,
    folded: Set<VariableId>,
)
    ensures
        count >= 0 ==> items_of(list, target, count, types, folded).0.len() <= count,
    decreases count,
{
    if count > 0 {
        lemma_items_are_few(list, target, count - 1, types, folded);
    }
}

/// Whether every item stands for an instruction of a list of a length.
pub open spec fn items_within(items: Seq<Item>, len: int) -> bool {
    forall|k: int|
        0 <= k < items.len() ==> match #[trigger] items[k] {
            Item::At { index, .. } => index < len,
            Item::Value { index, .. } => index < len,
        }
}

/// The instructions of a body without their offsets.
pub open spec fn bare(list: Seq<(usize, InstModel)>) -> Seq<InstModel> {
    list.map_values(|item: (usize, InstModel)| item.1)
}

fn show(list: &Vec<IRInst>, target: Option<VariableId>, index: usize) -> (res: IRInst)
    requires
        index < list@.len(),
    ensures
        res.model() == shown(models(list@), target, index as int),
{
    assert(models(list@)[index as int] == list@[index as int].model());
    if let Some(target) = target {
        if let Some(value) = assignment(&list[index], target) {
            if index == list.len() - 1 {
                return IRInst::Return(Some(value.clone()));
            }
        }
    }
    list[index].clone()
}

fn show_item(list: &Vec<IRInst>, target: Option<VariableId>, item: &Item) -> (res: Option<IRInst>)
    requires
        item matches Item::At { index, .. } ==> index < list@.len(),
    ensures
        match res {
            Some(instr) => item_instr(models(list@), target, *item) == Some(instr.model()),
            None => item_instr(models(list@), target, *item) is None,
        },
{
    match item {
        Item::At { index, joined } => match joined {
            Some(_) => None,
            None => Some(show(list, target, *index)),
        },
        Item::Value { value, .. } => Some(IRInst::Return(Some(value.clone()))),
    }
}

fn push_item(
    list: &Vec<IRInst>,
    target: Option<VariableId>,
    items: &mut Vec<Item>,
    index: usize,
    types: &Table<VariableId, VariableType>,
    folded: &mut KeySet<VariableId>,
)
    requires
        index < list@.len(),
        items_within(old(items)@, list@.len() as int),
    ensures
        final(items)@ == with_item(models(list@), target, old(items)@, index as int, types@),
        final(folded)@ == folded_with(
            models(list@),
            target,
            old(items)@,
            index as int,
            types@,
            old(folded)@,
        ),
        items_within(final(items)@, list@.len() as int),
{
    let ghost all = models(list@);
    let ghost before = items@;
    let next: IRInst = show(list, target, index);
    if items.len() > 0 {
        assert(items_within(seq![items@.last()], list@.len() as int)) by {
            assert(items@[items@.len() - 1] == items@.last());
        }
        let last: Option<IRInst> = show_item(list, target, &items[items.len() - 1]);
        if let Some(last) = last {
            if joined_return(&last, &next, types) {
                let slot: Option<VariableId> = returned(&next);
                let top: usize = items.len() - 1;
                let at: usize = match &items[top] {
                    Item::At { index, .. } => *index,
                    Item::Value { index, .. } => *index,
                };
                assert(items@.last() is At);
                items.set(top, Item::At { index: at, joined: slot });
                if let Some(slot) = slot {
                    folded.insert(slot);
                }
                return;
            }
            if let Some(slot) = returned(&next) {
                if let Some(value) = assignment(&last, slot) {
                    if literal_fits(value, find_type(types, slot)) {
                        items.pop();
                        items.push(Item::Value { index, value: value.clone() });
                        folded.insert(slot);
                        return;
                    }
                }
            }
        }
    }
    items.push(Item::At { index, joined: None });
}

fn collect_items(
    list: &Vec<IRInst>,
    target: Option<VariableId>,
    types: &Table<VariableId, VariableType>,
    folded: &mut KeySet<VariableId>,
) -> (res: Vec<Item>)
    ensures
        (res@, final(folded)@) == items_of(
            models(list@),
            target,
            list@.len() as int,
            types@,
            old(folded)@,
        ),
        items_within(res@, list@.len() as int),
{
    let ghost all = models(list@);
    let ghost start = folded@;
    let mut items: Vec<Item> = Vec::new();
    assert(items@ =~= Seq::<Item>::empty());
    let mut i: usize = 0;
    while i < list.len()
        invariant
            i <= list@.len(),
            all == models(list@),
            (items@, folded@) == items_of(all, target, i as int, types@, start),
            items_within(items@, list@.len() as int),
        decreases list@.len() - i,
    {
        push_item(list, target, &mut items, i, types, folded);
        i = i + 1;
    }
    items
}

// ---------------------------------------------------------------------------
// Merging early exits

/// `left || right`, with the disjuncts of the right side in one chain.
pub open spec fn with_or(left: IRExpr, right: IRExpr) -> IRExpr
    decreases right,
{
    match right {
        IRExpr::BinOp { kind: IRBinOpKind::Or, lhs, rhs } => with_or(with_or(left, *lhs), *rhs),
        _ => IRExpr::BinOp { kind: IRBinOpKind::Or, lhs: Box::new(left), rhs: Box::new(right) },
    }
}

fn append_or(left: IRExpr, right: &IRExpr) -> (res: IRExpr)
    ensures
        res == with_or(left, *right),
    decreases right,
{
    match right {
        IRExpr::BinOp { kind: IRBinOpKind::Or, lhs, rhs } => append_or(append_or(left, lhs), rhs),
        _ => IRExpr::BinOp {
            kind: IRBinOpKind::Or,
            lhs: Box::new(left),
            rhs: Box::new(right.clone()),
        },
    }
}

/// A branch merged with the ones in its `else` arm that exit in the same way. The
/// disjunction short-circuits: the second condition is evaluated only after the
/// first is false.
pub open spec fn merged_if(
    condition: IRExpr,
    then_branch: Seq<InstModel>,
    else_branch: Seq<InstModel>,
) -> InstModel
    decreases else_branch,
{
    let plain = InstModel::If { condition, then_branch, else_branch };
    if then_branch.len() == 1 && then_branch[0] is Return && else_branch.len() == 1 {
        match else_branch[0] {
            InstModel::If { condition: nested, then_branch: inner, else_branch: rest } => {
                if inner.len() == 1 && inner[0] is Return && inner[0] == then_branch[0] {
                    merged_if(with_or(condition, nested), then_branch, rest)
                } else {
                    plain
                }
            },
            _ => plain,
        }
    } else {
        plain
    }
}

fn same_return(a: &Vec<IRInst>, b: &Vec<IRInst>) -> (res: bool)
    ensures
        res == (models(a@).len() == 1 && models(a@)[0] is Return && models(b@).len() == 1
            && models(b@)[0] is Return && models(b@)[0] == models(a@)[0]),
{
    if a.len() != 1 || b.len() != 1 {
        return false;
    }
    assert(models(a@)[0] == a@[0].model());
    assert(models(b@)[0] == b@[0].model());
    match (&a[0], &b[0]) {
        (IRInst::Return(left), IRInst::Return(right)) => match (left, right) {
            (Some(left), Some(right)) => left.same(right),
            (None, None) => true,
            _ => false,
        },
        _ => false,
    }
}

fn merge_if(condition: IRExpr, then_branch: Vec<IRInst>, else_branch: &Vec<IRInst>) -> (res: IRInst)
    ensures
        res.model() == merged_if(condition, models(then_branch@), models(else_branch@)),
    decreases else_branch,
{
    if else_branch.len() == 1 {
        assert(models(else_branch@)[0] == else_branch@[0].model());
        assert(decreases_to!(else_branch => else_branch@[0]));
        if let IRInst::If { condition: nested, then_branch: inner, else_branch: rest } =
            &else_branch[0] {
            if same_return(&then_branch, inner) {
                return merge_if(append_or(condition, nested), then_branch, rest);
            }
        }
    }
    IRInst::If { condition, then_branch, else_branch: clone_instructions(else_branch) }
}

// ---------------------------------------------------------------------------
// Simplification

/// An instruction with returns folded into its branches, and the slots with those
/// that this folds. With a slot, its arms end by returning what they assign to it.
pub open spec fn simplified(
    instr: InstModel,
    joined: Option<VariableId>,
    types: Map<VariableId, VariableType>,
    folded: Set<VariableId>,
) -> (InstModel, Set<VariableId>)
    decreases instr, 0int,
{
    match instr {
        InstModel::If { condition, then_branch, else_branch } => {
            let first = simplified_list(then_branch, joined, types, folded);
            let second = simplified_list(else_branch, joined, types, first.1);
            (merged_if(condition, first.0, second.0), second.1)
        },
        InstModel::While { label, entry_offset, condition, body } => {
            let inner = simplified_body(body, types, folded);
            (InstModel::While { label, entry_offset, condition, body: inner.0 }, inner.1)
        },
        _ => (instr, folded),
    }
}

pub open spec fn simplified_list(
    list: Seq<InstModel>,
    target: Option<VariableId>,
    types: Map<VariableId, VariableType>,
    folded: Set<VariableId>,
) -> (Seq<InstModel>, Set<VariableId>)
    decreases list, list.len() + 1,
{
    let items = items_of(list, target, list.len() as int, types, folded);
    proof {
        lemma_items_are_few(list, target, list.len() as int, types, folded);
    }
    simplified_items(list, target, items.0, types, items.1, items.0.len() as int)
}

/// The first `count` items, simplified.
pub open spec fn simplified_items(
    list: Seq<InstModel>,
    target: Option<VariableId>,
    items: Seq<Item>,
    types: Map<VariableId, VariableType>,
    folded: Set<VariableId>,
    count: int,
) -> (Seq<InstModel>, Set<VariableId>)
    decreases list, count,
{
    if count <= 0 || count > items.len() {
        (Seq::empty(), folded)
    } else {
        let before = simplified_items(list, target, items, types, folded, count - 1);
        match items[count - 1] {
            Item::At { index, joined } => if index >= list.len() {
                before
            } else if shown(list, target, index as int) == list[index as int] {
                let made = simplified(list[index as int], joined, types, before.1);
                (before.0.push(made.0), made.1)
            } else {
                (before.0.push(shown(list, target, index as int)), before.1)
            },
            Item::Value { value, .. } => (
                before.0.push(InstModel::Return(Some(value))),
                before.1,
            ),
        }
    }
}

pub open spec fn simplified_body(
    list: Seq<(usize, InstModel)>,
    types: Map<VariableId, VariableType>,
    folded: Set<VariableId>,
) -> (Seq<(usize, InstModel)>, Set<VariableId>)
    decreases list, list.len() + 1,
{
    let items = items_of(bare(list), None, list.len() as int, types, folded);
    proof {
        lemma_items_are_few(bare(list), None, list.len() as int, types, folded);
    }
    simplified_body_items(list, items.0, types, items.1, items.0.len() as int)
}

pub open spec fn simplified_body_items(
    list: Seq<(usize, InstModel)>,
    items: Seq<Item>,
    types: Map<VariableId, VariableType>,
    folded: Set<VariableId>,
    count: int,
) -> (Seq<(usize, InstModel)>, Set<VariableId>)
    decreases list, count,
{
    if count <= 0 || count > items.len() {
        (Seq::empty(), folded)
    } else {
        let before = simplified_body_items(list, items, types, folded, count - 1);
        match items[count - 1] {
            Item::At { index, joined } => if index >= list.len() {
                before
            } else {
                let made = simplified(list[index as int].1, joined, types, before.1);
                (before.0.push((list[index as int].0, made.0)), made.1)
            },
            Item::Value { index, value } => (
                before.0.push((list[index as int].0, InstModel::Return(Some(value)))),
                before.1,
            ),
        }
    }
}

fn simplify_instruction(
    instr: &IRInst,
    joined: Option<VariableId>,
    types: &Table<VariableId, VariableType>,
    folded: &mut KeySet<VariableId>,
) -> (res: IRInst)
    ensures
        (res.model(), final(folded)@) == simplified(
            instr.model(),
            joined,
            types@,
            old(folded)@,
        ),
    decreases instr, 0int,
{
    match instr {
        IRInst::If { condition, then_branch, else_branch } => {
            let then_branch: Vec<IRInst> = simplify_branch(then_branch, joined, types, folded);
            let else_branch: Vec<IRInst> = simplify_branch(else_branch, joined, types, folded);
            merge_if(condition.clone(), then_branch, &else_branch)
        },
        IRInst::While { label, entry_offset, condition, body } => IRInst::While {
            label: *label,
            entry_offset: *entry_offset,
            condition: condition.clone(),
            body: simplify_body(body, types, folded),
        },
        _ => instr.clone(),
    }
}

fn simplify_branch(
    list: &Vec<IRInst>,
    target: Option<VariableId>,
    types: &Table<VariableId, VariableType>,
    folded: &mut KeySet<VariableId>,
) -> (res: Vec<IRInst>)
    ensures
        (models(res@), final(folded)@) == simplified_list(
            models(list@),
            target,
            types@,
            old(folded)@,
        ),
    decreases list, list@.len() + 1,
{
    let ghost all = models(list@);
    let items: Vec<Item> = collect_items(list, target, types, folded);
    let ghost start = folded@;
    let mut res: Vec<IRInst> = Vec::new();
    assert(models(res@) =~= Seq::empty());
    let mut i: usize = 0;
    while i < items.len()
        invariant
            i <= items@.len(),
            all == models(list@),
            items_within(items@, list@.len() as int),
            (models(res@), folded@) == simplified_items(
                all,
                target,
                items@,
                types@,
                start,
                i as int,
            ),
        decreases items@.len() - i,
    {
        let ghost before = models(res@);
        assert(items_within(seq![items@[i as int]], list@.len() as int)) by {
            assert(items@[i as int] == items@[i as int]);
        }
        match &items[i] {
            Item::At { index, joined } => {
                let index: usize = *index;
                assert(index < list@.len());
                assert(all[index as int] == list@[index as int].model());
                assert(decreases_to!(list => list@[index as int]));
                let value: Option<&IRExpr> = match target {
                    Some(target) => if index == list.len() - 1 {
                        assignment(&list[index], target)
                    } else {
                        None
                    },
                    None => None,
                };
                match value {
                    Some(value) => {
                        assert(shown(all, target, index as int) != all[index as int]);
                        let made = IRInst::Return(Some(value.clone()));
                        let ghost model = made.model();
                        res.push(made);
                        assert(models(res@) =~= before.push(model));
                    },
                    None => {
                        assert(shown(all, target, index as int) == all[index as int]);
                        let made: IRInst = simplify_instruction(
                            &list[index],
                            *joined,
                            types,
                            folded,
                        );
                        let ghost model = made.model();
                        res.push(made);
                        assert(models(res@) =~= before.push(model));
                    },
                }
            },
            Item::Value { value, .. } => {
                let made = IRInst::Return(Some(value.clone()));
                let ghost model = made.model();
                res.push(made);
                assert(models(res@) =~= before.push(model));
            },
        }
        i = i + 1;
    }
    res
}

fn strip(list: &Vec<(usize, IRInst)>) -> (res: Vec<IRInst>)
    ensures
        models(res@) == bare(body_models(list@)),
{
    let mut res: Vec<IRInst> = Vec::new();
    let mut i: usize = 0;
    while i < list.len()
        invariant
            i <= list@.len(),
            res@.len() == i,
            forall|k: int| 0 <= k < i ==> (#[trigger] res@[k]).model() == list@[k].1.model(),
        decreases list@.len() - i,
    {
        res.push(list[i].1.clone());
        i = i + 1;
    }
    assert(models(res@) =~= bare(body_models(list@)));
    res
}

fn simplify_body(
    list: &Vec<(usize, IRInst)>,
    types: &Table<VariableId, VariableType>,
    folded: &mut KeySet<VariableId>,
) -> (res: Vec<(usize, IRInst)>)
    ensures
        (body_models(res@), final(folded)@) == simplified_body(
            body_models(list@),
            types@,
            old(folded)@,
        ),
    decreases list, list@.len() + 1,
{
    let ghost all = body_models(list@);
    let plain: Vec<IRInst> = strip(list);
    assert(plain@.len() == list@.len()) by {
        assert(models(plain@).len() == bare(all).len());
    }
    let items: Vec<Item> = collect_items(&plain, None, types, folded);
    let ghost start = folded@;
    let mut res: Vec<(usize, IRInst)> = Vec::new();
    assert(body_models(res@) =~= Seq::empty());
    let mut i: usize = 0;
    while i < items.len()
        invariant
            i <= items@.len(),
            all == body_models(list@),
            items_within(items@, list@.len() as int),
            (body_models(res@), folded@) == simplified_body_items(
                all,
                items@,
                types@,
                start,
                i as int,
            ),
        decreases items@.len() - i,
    {
        let ghost before = body_models(res@);
        assert(items_within(seq![items@[i as int]], list@.len() as int)) by {
            assert(items@[i as int] == items@[i as int]);
        }
        match &items[i] {
            Item::At { index, joined } => {
                let index: usize = *index;
                assert(index < list@.len());
                assert(all[index as int] == (list@[index as int].0, list@[index as int].1.model()));
                assert(decreases_to!(list => list@[index as int]));
                let made: IRInst = simplify_instruction(&list[index].1, *joined, types, folded);
                let ghost model = (list@[index as int].0, made.model());
                res.push((list[index].0, made));
                assert(body_models(res@) =~= before.push(model));
            },
            Item::Value { index, value } => {
                let index: usize = *index;
                assert(index < list@.len());
                let made = IRInst::Return(Some(value.clone()));
                let ghost model = (list@[index as int].0, made.model());
                res.push((list[index].0, made));
                assert(body_models(res@) =~= before.push(model));
            },
        }
        i = i + 1;
    }
    res
}

/// Whether the instruction only declares one of the slots.
pub open spec fn is_dead_declaration(instr: InstModel, unused: Set<VariableId>) -> bool {
    match instr {
        InstModel::DeclareVariable { variable, .. } => unused.contains(variable),
        _ => false,
    }
}

fn dead_declaration(instr: &IRInst, unused: &KeySet<VariableId>) -> (res: bool)
    ensures
        res == is_dead_declaration(instr.model(), unused@),
{
    match instr {
        IRInst::DeclareVariable { variable, .. } => unused.contains(*variable),
        _ => false,
    }
}

/// The instruction without declarations of the slots.
pub open spec fn undeclared(instr: InstModel, unused: Set<VariableId>) -> InstModel
    decreases instr,
{
    match instr {
        InstModel::If { condition, then_branch, else_branch } => InstModel::If {
            condition,
            then_branch: undeclared_list(then_branch, unused),
            else_branch: undeclared_list(else_branch, unused),
        },
        InstModel::While { label, entry_offset, condition, body } => InstModel::While {
            label,
            entry_offset,
            condition,
            body: undeclared_body(body, unused),
        },
        _ => instr,
    }
}

pub open spec fn undeclared_list(list: Seq<InstModel>, unused: Set<VariableId>) -> Seq<InstModel>
    decreases list,
{
    if list.len() == 0 {
        Seq::empty()
    } else {
        let before = undeclared_list(list.drop_last(), unused);
        if is_dead_declaration(list[list.len() - 1], unused) {
            before
        } else {
            before.push(undeclared(list[list.len() - 1], unused))
        }
    }
}

pub open spec fn undeclared_body(
    list: Seq<(usize, InstModel)>,
    unused: Set<VariableId>,
) -> Seq<(usize, InstModel)>
    decreases list,
{
    if list.len() == 0 {
        Seq::empty()
    } else {
        let before = undeclared_body(list.drop_last(), unused);
        if is_dead_declaration(list[list.len() - 1].1, unused) {
            before
        } else {
            before.push((list[list.len() - 1].0, undeclared(list[list.len() - 1].1, unused)))
        }
    }
}

fn remove_declarations(instr: &IRInst, unused: &KeySet<VariableId>) -> (res: IRInst)
    ensures
        res.model() == undeclared(instr.model(), unused@),
    decreases instr,
{
    match instr {
        IRInst::If { condition, then_branch, else_branch } => IRInst::If {
            condition: condition.clone(),
            then_branch: remove_declarations_list(then_branch, unused),
            else_branch: remove_declarations_list(else_branch, unused),
        },
        IRInst::While { label, entry_offset, condition, body } => IRInst::While {
            label: *label,
            entry_offset: *entry_offset,
            condition: condition.clone(),
            body: remove_declarations_body(body, unused),
        },
        _ => instr.clone(),
    }
}

fn remove_declarations_list(list: &Vec<IRInst>, unused: &KeySet<VariableId>) -> (res: Vec<IRInst>)
    ensures
        models(res@) == undeclared_list(models(list@), unused@),
    decreases list,
{
    let ghost all = models(list@);
    let mut res: Vec<IRInst> = Vec::new();
    assert(all.subrange(0, 0) =~= Seq::empty());
    assert(models(res@) =~= Seq::empty());
    let mut i: usize = 0;
    while i < list.len()
        invariant
            i <= list@.len(),
            all == models(list@),
            models(res@) == undeclared_list(all.subrange(0, i as int), unused@),
        decreases list@.len() - i,
    {
        let ghost prefix = all.subrange(0, i + 1);
        assert(prefix.drop_last() =~= all.subrange(0, i as int));
        assert(decreases_to!(list => list@[i as int]));
        if !dead_declaration(&list[i], unused) {
            let ghost before = models(res@);
            res.push(remove_declarations(&list[i], unused));
            assert(models(res@) =~= before.push(undeclared(all[i as int], unused@)));
        }
        i = i + 1;
    }
    assert(all.subrange(0, i as int) =~= all);
    res
}

fn remove_declarations_body(
    list: &Vec<(usize, IRInst)>,
    unused: &KeySet<VariableId>,
) -> (res: Vec<(usize, IRInst)>)
    ensures
        body_models(res@) == undeclared_body(body_models(list@), unused@),
    decreases list,
{
    let ghost all = body_models(list@);
    let mut res: Vec<(usize, IRInst)> = Vec::new();
    assert(all.subrange(0, 0) =~= Seq::empty());
    assert(body_models(res@) =~= Seq::empty());
    let mut i: usize = 0;
    while i < list.len()
        invariant
            i <= list@.len(),
            all == body_models(list@),
            body_models(res@) == undeclared_body(all.subrange(0, i as int), unused@),
        decreases list@.len() - i,
    {
        let ghost prefix = all.subrange(0, i + 1);
        assert(prefix.drop_last() =~= all.subrange(0, i as int));
        assert(decreases_to!(list => list@[i as int]));
        if !dead_declaration(&list[i].1, unused) {
            let ghost before = body_models(res@);
            res.push((list[i].0, remove_declarations(&list[i].1, unused)));
            assert(body_models(res@) =~= before.push(
                (all[i as int].0, undeclared(all[i as int].1, unused@)),
            ));
        }
        i = i + 1;
    }
    assert(all.subrange(0, i as int) =~= all);
    res
}


/// The body with returns folded into its branches, and without declarations of
/// slots that are not used any more.
pub open spec fn body_simplified(function: FunctionModel) -> Seq<(usize, InstModel)> {
    let made = simplified_body(
        function.body,
        types_with_body(function.body, Map::empty()),
        Set::empty(),
    );
    let nodes = flow_of_function(FunctionModel { body: made.0, ..function }).nodes;
    undeclared_body(made.0, made.1.difference(mentioned_slots(nodes)))
}

fn simplify_function(function: &SyntheticFunction) -> (res: Vec<(usize, IRInst)>)
    ensures
        body_models(res@) == body_simplified(function.model()),
{
    let mut types: Table<VariableId, VariableType> = Table::new();
    collect_types_body(&function.body, &mut types);
    let mut folded: KeySet<VariableId> = KeySet::new();
    let current = SyntheticFunction {
        entry_offset: function.entry_offset,
        parameters: function.copied_parameters(),
        body: simplify_body(&function.body, &types, &mut folded),
    };
    let flow: Flow = Flow::from_function(&current);
    let mentioned: KeySet<VariableId> = find_mentioned(&flow.nodes);
    let mut unused: KeySet<VariableId> = KeySet::new();
    let items: &Vec<VariableId> = folded.items();
    let mut i: usize = 0;
    while i < items.len()
        invariant
            i <= items@.len(),
            forall|v: VariableId| #[trigger]
                unused@.contains(v) <==> !mentioned@.contains(v) && exists|k: int|
                    0 <= k < i && #[trigger] items@[k] == v,
        decreases items@.len() - i,
    {
        let ghost before = unused@;
        if !mentioned.contains(items[i]) {
            unused.insert(items[i]);
        }
        proof {
            assert forall|v: VariableId| #[trigger] unused@.contains(v) <==> !mentioned@.contains(
                v,
            ) && exists|k: int| 0 <= k < i + 1 && #[trigger] items@[k] == v by {
                assert(before.contains(v) <==> !mentioned@.contains(v) && exists|k: int|
                    0 <= k < i && #[trigger] items@[k] == v);
                if v == items@[i as int] {
                    assert(items@[i as int] == v);
                }
            }
        }
        i = i + 1;
    }
    proof {
        assert forall|v: VariableId| unused@.contains(v) <==> #[trigger] folded@.difference(
            mentioned@,
        ).contains(v) by {
            assert(folded@.contains(v) <==> items@.contains(v));
        }
        assert(unused@ =~= folded@.difference(mentioned@));
    }
    remove_declarations_body(&current.body, &unused)
}

pub open spec fn function_branches_simplified(function: FunctionModel) -> FunctionModel {
    FunctionModel { body: body_simplified(function), ..function }
}

pub open spec fn program_branches_simplified(program: ProgramModel) -> ProgramModel {
    ProgramModel {
        functions: program.functions.map_values(|f: FunctionModel| function_branches_simplified(f)),
        ..program
    }
}

/// Folds returns into the branches of every function.
pub fn run(program: &mut Program)
    ensures
        final(program).model() == program_branches_simplified(old(program).model()),
{
    let ghost before = function_models(program.functions@);
    let ghost initial = *program;
    let total: usize = program.functions.len();
    let mut i: usize = 0;
    while i < total
        invariant
            i <= total,
            total == program.functions@.len(),
            total == before.len(),
            *program == (Program { functions: program.functions, ..initial }),
            forall|k: int|
                0 <= k < i ==> (#[trigger] program.functions@[k]).model() == function_branches_simplified(
                    before[k],
                ),
            forall|k: int|
                i <= k < total ==> (#[trigger] program.functions@[k]).model() == before[k],
        decreases total - i,
    {
        let body: Vec<(usize, IRInst)> = simplify_function(&program.functions[i]);
        program.functions[i].body = body;
        i = i + 1;
    }
    assert(program.model().functions =~= program_branches_simplified(initial.model()).functions);
}

} // verus!
