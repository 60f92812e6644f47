//! Folding returns into branches, and merging early exits, keep what a body comes
//! to.
use super::inline_loop_conditions::assigned_to;
use super::ir::{FunctionModel, IRBinOpKind, IRExpr, InstModel, VariableId, VariableType};
use super::outcome::{
    cut, holds, lemma_cut_twice, lemma_run_body_bare, lemma_run_body_push, lemma_run_list_push,
    lemma_same_loops, run, run_body, run_list, value, Meaning, Outcome, State,
};
use super::simplify_branches::{
    arm_assigns, bare, body_simplified, constant_return, has_type, item_instr, items_of, joins,
    lemma_items_are_few, merged_if, returned_slot, shown, simplified, simplified_body,
    simplified_body_items, simplified_items, simplified_list, undeclared, undeclared_body,
    undeclared_list, with_or, Item,
};
use super::walks::types_with_body;
use vstd::arithmetic::power2::pow2;
use vstd::prelude::*;

verus! {

// ---------------------------------------------------------------------------
// Early exits

/// An appended condition is true exactly where one of the two is.
pub proof fn law_an_appended_condition_is_the_disjunction(
    m: Meaning,
    state: State,
    left: IRExpr,
    right: IRExpr,
)
    ensures
        holds(m, state, with_or(left, right)) == (holds(m, state, left) || holds(m, state, right)),
    decreases right,
{
    match right {
        IRExpr::BinOp { kind: IRBinOpKind::Or, lhs, rhs } => {
            law_an_appended_condition_is_the_disjunction(m, state, left, *lhs);
            law_an_appended_condition_is_the_disjunction(m, state, with_or(left, *lhs), *rhs);
        },
        _ => {},
    }
}

/// A merged branch comes to what the nested ones come to.
pub proof fn law_merging_early_exits_keeps_the_outcome(
    m: Meaning,
    condition: IRExpr,
    then_branch: Seq<InstModel>,
    else_branch: Seq<InstModel>,
    state: State,
    fuel: nat,
)
    ensures
        run(m, merged_if(condition, then_branch, else_branch), state, fuel) == run(
            m,
            InstModel::If { condition, then_branch, else_branch },
            state,
            fuel,
        ),
    decreases else_branch,
{
    if then_branch.len() == 1 && then_branch[0] is Return && else_branch.len() == 1 {
        if let InstModel::If { condition: nested, then_branch: inner, else_branch: rest } =
            else_branch[0] {
            if inner.len() == 1 && inner[0] is Return && inner[0] == then_branch[0] {
                law_merging_early_exits_keeps_the_outcome(
                    m,
                    with_or(condition, nested),
                    then_branch,
                    rest,
                    state,
                    fuel,
                );
                law_an_appended_condition_is_the_disjunction(m, state, condition, nested);
                assert(inner =~= then_branch);
                lemma_run_list_push(m, Seq::empty(), else_branch[0], state, fuel);
                assert(Seq::empty().push(else_branch[0]) =~= else_branch);
                assert(run_list(m, Seq::empty(), state, fuel) == Outcome::Next(state));
            }
        }
    }
}

// ---------------------------------------------------------------------------
// Returned values

/// Whether the positions of every list can be counted.
pub open spec fn countable(instr: InstModel) -> bool
    decreases instr,
{
    match instr {
        InstModel::If { then_branch, else_branch, .. } => countable_list(then_branch)
            && countable_list(else_branch),
        InstModel::While { body, .. } => countable_body(body),
        _ => true,
    }
}

pub open spec fn countable_list(list: Seq<InstModel>) -> bool
    decreases list,
{
    &&& list.len() <= usize::MAX
    &&& forall|i: int| 0 <= i < list.len() ==> countable(#[trigger] list[i])
}

pub open spec fn countable_body(list: Seq<(usize, InstModel)>) -> bool
    decreases list,
{
    &&& list.len() <= usize::MAX
    &&& forall|i: int| 0 <= i < list.len() ==> countable((#[trigger] list[i]).1)
}

/// A value of exactly the type is kept whole by a slot of the type.
proof fn lemma_typed_value(m: Meaning, state: State, expr: IRExpr, ty: VariableType)
    requires
        has_type(expr, ty, m.types),
    ensures
        cut(ty, value(m, state, expr)) == value(m, state, expr),
{
    vstd::arithmetic::power2::lemma2_to64();
    match expr {
        IRExpr::Variable(variable) => {
            lemma_cut_twice(ty, (state.variables)(variable));
        },
        IRExpr::Convert { value: inner, source, target } => {
            lemma_cut_twice(ty, (m.conversion)(value(m, state, *inner), source, target));
        },
        IRExpr::CU8(constant) => {
            assert(pow2(8 * 1usize as nat) == 0x100);
            vstd::arithmetic::div_mod::lemma_small_mod(constant as nat, 0x100);
        },
        IRExpr::CU32(constant) => {
            assert(pow2(8 * 4usize as nat) == 0x1_0000_0000);
            vstd::arithmetic::div_mod::lemma_small_mod(constant as nat, 0x1_0000_0000);
        },
        IRExpr::CU64(constant) => {
            assert(pow2(8 * 8usize as nat) == 0x1_0000_0000_0000_0000);
            vstd::arithmetic::div_mod::lemma_small_mod(constant as nat, 0x1_0000_0000_0000_0000);
        },
        _ => {},
    }
}

/// Returning a slot right after assigning a value of its type to it is returning
/// the value.
proof fn lemma_assign_then_return(
    m: Meaning,
    instr: InstModel,
    target: VariableId,
    state: State,
    fuel: nat,
)
    requires
        assigned_to(instr, target) is Some,
        m.types.dom().contains(target),
        has_type(assigned_to(instr, target)->0, m.types[target], m.types),
    ensures
        run(m, instr, state, fuel) is Next,
        run(
            m,
            InstModel::Return(Some(IRExpr::Variable(target))),
            run(m, instr, state, fuel)->Next_0,
            fuel,
        ) == run(m, InstModel::Return(Some(assigned_to(instr, target)->0)), state, fuel),
{
    lemma_typed_value(m, state, assigned_to(instr, target)->0, m.types[target]);
}

/// The instructions of an arm, with the last one as the return that it becomes.
pub open spec fn shown_list(list: Seq<InstModel>, target: Option<VariableId>) -> Seq<InstModel> {
    Seq::new(list.len(), |i: int| shown(list, target, i))
}

proof fn lemma_shown(m: Meaning, list: Seq<InstModel>, target: VariableId, state: State, fuel: nat)
    requires
        arm_assigns(list, target, m.types),
    ensures
        run_list(m, shown_list(list, Some(target)), state, fuel) == run_list(
            m,
            list.push(InstModel::Return(Some(IRExpr::Variable(target)))),
            state,
            fuel,
        ),
{
    let last = list[list.len() - 1];
    let returning = InstModel::Return(Some(IRExpr::Variable(target)));
    let all = shown_list(list, Some(target));
    assert(all.drop_last() =~= list.drop_last()) by {
        assert forall|i: int| 0 <= i < list.len() - 1 implies #[trigger] all.drop_last()[i]
            == list.drop_last()[i] by {
            assert(all[i] == shown(list, Some(target), i));
        }
    }
    assert(all[all.len() - 1] == shown(list, Some(target), list.len() - 1));
    lemma_run_list_push(m, list, returning, state, fuel);
    if let Outcome::Next(before) = run_list(m, list.drop_last(), state, fuel) {
        lemma_assign_then_return(m, last, target, before, fuel);
    }
}

// ---------------------------------------------------------------------------
// Items

/// What running an item comes to.
pub open spec fn run_item(
    m: Meaning,
    list: Seq<InstModel>,
    target: Option<VariableId>,
    item: Item,
    state: State,
    fuel: nat,
) -> Outcome {
    match item {
        Item::At { index, joined: None } => run(m, shown(list, target, index as int), state, fuel),
        Item::At { index, joined: Some(slot) } => match run(
            m,
            shown(list, target, index as int),
            state,
            fuel,
        ) {
            Outcome::Next(after) => run(
                m,
                InstModel::Return(Some(IRExpr::Variable(slot))),
                after,
                fuel,
            ),
            other => other,
        },
        Item::Value { value, .. } => run(m, InstModel::Return(Some(value)), state, fuel),
    }
}

pub open spec fn run_items(
    m: Meaning,
    list: Seq<InstModel>,
    target: Option<VariableId>,
    items: Seq<Item>,
    state: State,
    fuel: nat,
) -> Outcome
    decreases items.len(),
{
    if items.len() == 0 {
        Outcome::Next(state)
    } else {
        match run_items(m, list, target, items.drop_last(), state, fuel) {
            Outcome::Next(after) => run_item(m, list, target, items.last(), after, fuel),
            other => other,
        }
    }
}

/// Whether every item stands for an instruction of the list, and each joined one
/// for a branch whose arms assign the slot.
pub open spec fn items_fit(
    m: Meaning,
    list: Seq<InstModel>,
    target: Option<VariableId>,
    items: Seq<Item>,
) -> bool {
    forall|k: int|
        0 <= k < items.len() ==> match #[trigger] items[k] {
            Item::At { index, joined } => index < list.len() && match joined {
                Some(slot) => joins(
                    shown(list, target, index as int),
                    InstModel::Return(Some(IRExpr::Variable(slot))),
                    m.types,
                ),
                None => true,
            },
            Item::Value { index, .. } => index < list.len(),
        }
}

proof fn lemma_items(
    m: Meaning,
    list: Seq<InstModel>,
    target: Option<VariableId>,
    count: int,
    folded: Set<VariableId>,
    state: State,
    fuel: nat,
)
    requires
        0 <= count <= list.len() <= usize::MAX,
    ensures
        items_fit(m, list, target, items_of(list, target, count, m.types, folded).0),
        run_items(
            m,
            list,
            target,
            items_of(list, target, count, m.types, folded).0,
            state,
            fuel,
        ) == run_list(m, shown_list(list, target).subrange(0, count), state, fuel),
    decreases count,
{
    let all = shown_list(list, target);
    if count == 0 {
        assert(all.subrange(0, 0) =~= Seq::empty());
    } else {
        lemma_items(m, list, target, count - 1, folded, state, fuel);
        let before = items_of(list, target, count - 1, m.types, folded).0;
        let after = items_of(list, target, count, m.types, folded).0;
        let next = shown(list, target, count - 1);
        assert(all[count - 1] == next);
        assert(all.subrange(0, count) =~= all.subrange(0, count - 1).push(next));
        lemma_run_list_push(m, all.subrange(0, count - 1), next, state, fuel);
        let plain = before.push(Item::At { index: (count - 1) as usize, joined: None });
        assert(plain.drop_last() =~= before);
        if before.len() > 0 && item_instr(list, target, before.last()) is Some {
            let last = item_instr(list, target, before.last())->0;
            let start = run_items(m, list, target, before.drop_last(), state, fuel);
            if joins(last, next, m.types) {
                assert(after.drop_last() =~= before.drop_last());
                assert(before.last() is At);
            } else if constant_return(last, next, m.types) is Some {
                assert(after.drop_last() =~= before.drop_last());
                let slot = returned_slot(next)->0;
                if let Outcome::Next(at) = start {
                    lemma_assign_then_return(m, last, slot, at, fuel);
                }
            }
        }
    }
}

// ---------------------------------------------------------------------------
// Simplification

proof fn lemma_simplified(
    m: Meaning,
    instr: InstModel,
    joined: Option<VariableId>,
    folded: Set<VariableId>,
    state: State,
    fuel: nat,
)
    requires
        countable(instr),
        joined matches Some(slot) ==> joins(
            instr,
            InstModel::Return(Some(IRExpr::Variable(slot))),
            m.types,
        ),
    ensures
        run(m, simplified(instr, joined, m.types, folded).0, state, fuel) == match joined {
            None => run(m, instr, state, fuel),
            Some(slot) => match run(m, instr, state, fuel) {
                Outcome::Next(after) => run(
                    m,
                    InstModel::Return(Some(IRExpr::Variable(slot))),
                    after,
                    fuel,
                ),
                other => other,
            },
        },
    decreases instr, 0int,
{
    match instr {
        InstModel::If { condition, then_branch, else_branch } => {
            let first = simplified_list(then_branch, joined, m.types, folded);
            let second = simplified_list(else_branch, joined, m.types, first.1);
            lemma_simplified_list(m, then_branch, joined, folded, state, fuel);
            lemma_simplified_list(m, else_branch, joined, first.1, state, fuel);
            law_merging_early_exits_keeps_the_outcome(
                m,
                condition,
                first.0,
                second.0,
                state,
                fuel,
            );
            match joined {
                None => {
                    assert(shown_list(then_branch, None) =~= then_branch);
                    assert(shown_list(else_branch, None) =~= else_branch);
                },
                Some(slot) => {
                    let returning = InstModel::Return(Some(IRExpr::Variable(slot)));
                    lemma_shown(m, then_branch, slot, state, fuel);
                    lemma_shown(m, else_branch, slot, state, fuel);
                    lemma_run_list_push(m, then_branch, returning, state, fuel);
                    lemma_run_list_push(m, else_branch, returning, state, fuel);
                },
            }
        },
        InstModel::While { label, condition, body, .. } => {
            let inner = simplified_body(body, m.types, folded).0;
            assert forall|s: State, n: nat| #[trigger]
                run_body(m, inner, s, n) == run_body(m, body, s, n) by {
                lemma_simplified_body(m, body, folded, s, n);
            }
            lemma_same_loops(m, label, condition, inner, body, state, fuel);
        },
        _ => {},
    }
}

proof fn lemma_simplified_list(
    m: Meaning,
    list: Seq<InstModel>,
    target: Option<VariableId>,
    folded: Set<VariableId>,
    state: State,
    fuel: nat,
)
    requires
        countable_list(list),
    ensures
        run_list(m, simplified_list(list, target, m.types, folded).0, state, fuel) == run_list(
            m,
            shown_list(list, target),
            state,
            fuel,
        ),
    decreases list, list.len() + 1,
{
    let items = items_of(list, target, list.len() as int, m.types, folded);
    lemma_items_are_few(list, target, list.len() as int, m.types, folded);
    lemma_items(m, list, target, list.len() as int, folded, state, fuel);
    lemma_simplified_items(
        m,
        list,
        target,
        items.0,
        items.1,
        items.0.len() as int,
        state,
        fuel,
    );
    assert(items.0.subrange(0, items.0.len() as int) =~= items.0);
    assert(shown_list(list, target).subrange(0, list.len() as int) =~= shown_list(list, target));
}

proof fn lemma_simplified_items(
    m: Meaning,
    list: Seq<InstModel>,
    target: Option<VariableId>,
    items: Seq<Item>,
    folded: Set<VariableId>,
    count: int,
    state: State,
    fuel: nat,
)
    requires
        countable_list(list),
        items_fit(m, list, target, items),
        0 <= count <= items.len(),
    ensures
        run_list(
            m,
            simplified_items(list, target, items, m.types, folded, count).0,
            state,
            fuel,
        ) == run_items(m, list, target, items.subrange(0, count), state, fuel),
    decreases list, count,
{
    if count > 0 {
        lemma_simplified_items(m, list, target, items, folded, count - 1, state, fuel);
        let before = simplified_items(list, target, items, m.types, folded, count - 1);
        let item = items[count - 1];
        assert(items.subrange(0, count).drop_last() =~= items.subrange(0, count - 1));
        assert(items.subrange(0, count).last() == item);
        match item {
            Item::At { index, joined } => {
                let here = shown(list, target, index as int);
                assert(countable(list[index as int]));
                if here == list[index as int] {
                    let made = simplified(list[index as int], joined, m.types, before.1).0;
                    lemma_run_list_push(m, before.0, made, state, fuel);
                    if let Outcome::Next(at) = run_list(m, before.0, state, fuel) {
                        lemma_simplified(m, list[index as int], joined, before.1, at, fuel);
                    }
                } else {
                    assert(joined is None);
                    lemma_run_list_push(m, before.0, here, state, fuel);
                }
            },
            Item::Value { value, .. } => {
                lemma_run_list_push(
                    m,
                    before.0,
                    InstModel::Return(Some(value)),
                    state,
                    fuel,
                );
            },
        }
    }
}

proof fn lemma_simplified_body(
    m: Meaning,
    list: Seq<(usize, InstModel)>,
    folded: Set<VariableId>,
    state: State,
    fuel: nat,
)
    requires
        countable_body(list),
    ensures
        run_body(m, simplified_body(list, m.types, folded).0, state, fuel) == run_body(
            m,
            list,
            state,
            fuel,
        ),
    decreases list, list.len() + 1,
{
    let plain = bare(list);
    let items = items_of(plain, None, list.len() as int, m.types, folded);
    lemma_items_are_few(plain, None, list.len() as int, m.types, folded);
    lemma_items(m, plain, None, list.len() as int, folded, state, fuel);
    lemma_simplified_body_items(m, list, items.0, items.1, items.0.len() as int, state, fuel);
    assert(items.0.subrange(0, items.0.len() as int) =~= items.0);
    assert(shown_list(plain, None).subrange(0, list.len() as int) =~= plain);
    lemma_run_body_bare(m, list, plain, state, fuel);
}

proof fn lemma_simplified_body_items(
    m: Meaning,
    list: Seq<(usize, InstModel)>,
    items: Seq<Item>,
    folded: Set<VariableId>,
    count: int,
    state: State,
    fuel: nat,
)
    requires
        countable_body(list),
        items_fit(m, bare(list), None, items),
        0 <= count <= items.len(),
    ensures
        run_body(
            m,
            simplified_body_items(list, items, m.types, folded, count).0,
            state,
            fuel,
        ) == run_items(m, bare(list), None, items.subrange(0, count), state, fuel),
    decreases list, count,
{
    if count > 0 {
        lemma_simplified_body_items(m, list, items, folded, count - 1, state, fuel);
        let before = simplified_body_items(list, items, m.types, folded, count - 1);
        let item = items[count - 1];
        assert(items.subrange(0, count).drop_last() =~= items.subrange(0, count - 1));
        assert(items.subrange(0, count).last() == item);
        match item {
            Item::At { index, joined } => {
                let here = list[index as int];
                assert(shown(bare(list), None, index as int) == here.1);
                assert(countable(here.1));
                let made = simplified(here.1, joined, m.types, before.1).0;
                lemma_run_body_push(m, before.0, (here.0, made), state, fuel);
                if let Outcome::Next(at) = run_body(m, before.0, state, fuel) {
                    lemma_simplified(m, here.1, joined, before.1, at, fuel);
                }
            },
            Item::Value { index, value } => {
                lemma_run_body_push(
                    m,
                    before.0,
                    (list[index as int].0, InstModel::Return(Some(value))),
                    state,
                    fuel,
                );
            },
        }
    }
}

// ---------------------------------------------------------------------------
// Declarations

proof fn lemma_undeclared(
    m: Meaning,
    instr: InstModel,
    unused: Set<VariableId>,
    state: State,
    fuel: nat,
)
    ensures
        run(m, undeclared(instr, unused), state, fuel) == run(m, instr, state, fuel),
    decreases instr,
{
    match instr {
        InstModel::If { then_branch, else_branch, .. } => {
            lemma_undeclared_list(m, then_branch, unused, state, fuel);
            lemma_undeclared_list(m, else_branch, unused, state, fuel);
        },
        InstModel::While { label, condition, body, .. } => {
            let inner = undeclared_body(body, unused);
            assert forall|s: State, n: nat| #[trigger]
                run_body(m, inner, s, n) == run_body(m, body, s, n) by {
                lemma_undeclared_body(m, body, unused, s, n);
            }
            lemma_same_loops(m, label, condition, inner, body, state, fuel);
        },
        _ => {},
    }
}

proof fn lemma_undeclared_list(
    m: Meaning,
    list: Seq<InstModel>,
    unused: Set<VariableId>,
    state: State,
    fuel: nat,
)
    ensures
        run_list(m, undeclared_list(list, unused), state, fuel) == run_list(m, list, state, fuel),
    decreases list,
{
    if list.len() > 0 {
        lemma_undeclared_list(m, list.drop_last(), unused, state, fuel);
        let last = list[list.len() - 1];
        let before = undeclared_list(list.drop_last(), unused);
        lemma_run_list_push(m, before, undeclared(last, unused), state, fuel);
        if let Outcome::Next(at) = run_list(m, before, state, fuel) {
            lemma_undeclared(m, last, unused, at, fuel);
        }
    }
}

proof fn lemma_undeclared_body(
    m: Meaning,
    list: Seq<(usize, InstModel)>,
    unused: Set<VariableId>,
    state: State,
    fuel: nat,
)
    ensures
        run_body(m, undeclared_body(list, unused), state, fuel) == run_body(m, list, state, fuel),
    decreases list,
{
    if list.len() > 0 {
        lemma_undeclared_body(m, list.drop_last(), unused, state, fuel);
        let last = list[list.len() - 1];
        let before = undeclared_body(list.drop_last(), unused);
        lemma_run_body_push(m, before, (last.0, undeclared(last.1, unused)), state, fuel);
        if let Outcome::Next(at) = run_body(m, before, state, fuel) {
            lemma_undeclared(m, last.1, unused, at, fuel);
        }
    }
}

/// Simplifying the branches of a function changes nothing of what it does: from
/// every state, under every meaning of the operations, it returns the same value
/// and leaves the same memory.
pub proof fn law_simplifying_branches_keeps_the_outcome(
    m: Meaning,
    function: FunctionModel,
    state: State,
    fuel: nat,
)
    requires
        countable_body(function.body),
        m.types == types_with_body(function.body, Map::empty()),
    ensures
        run_body(m, body_simplified(function), state, fuel) == run_body(
            m,
            function.body,
            state,
            fuel,
        ),
{
    lemma_simplified_body(m, function.body, Set::empty(), state, fuel);
    let made = simplified_body(function.body, m.types, Set::empty());
    let nodes = super::variable_flow::flow_of_function(
        FunctionModel { body: made.0, ..function },
    ).nodes;
    let unused = made.1.difference(super::cleanup::mentioned_slots(nodes));
    lemma_undeclared_body(m, made.0, unused, state, fuel);
}

} // verus!
