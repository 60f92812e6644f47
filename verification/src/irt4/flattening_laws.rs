//! Lifting an arm out of its branch, and taking the arm of a constant branch, keep
//! what a body comes to.
use super::cleanup::{body_collapsed, collapsed, collapsed_body, collapsed_list};
use super::ir::{FunctionModel, IRExpr, InstModel};
use super::lift_return_branches::{
    always_returns, at_offset, body_flattened, early_arm, exits_of, exits_of_list, flattened,
    flattened_body, flattened_if, flattened_list,
};
use super::lifter::{expression_of, guard_of};
use super::outcome::{
    holds, lemma_run_body_bare, lemma_run_list_push, lemma_same_loops, run, run_body, run_list,
    Meaning, Outcome, State,
};
use super::walks::negated;
use crate::irt3::ir as t3;
use vstd::prelude::*;

verus! {

/// A negated condition is true exactly where the condition is not.
pub proof fn law_a_negated_condition_is_the_opposite(m: Meaning, state: State, condition: IRExpr)
    ensures
        holds(m, state, negated(condition)) == !holds(m, state, condition),
{
}

proof fn lemma_run_joined(
    m: Meaning,
    first: Seq<InstModel>,
    second: Seq<InstModel>,
    state: State,
    fuel: nat,
)
    ensures
        run_list(m, first + second, state, fuel) == match run_list(m, first, state, fuel) {
            Outcome::Next(after) => run_list(m, second, after, fuel),
            other => other,
        },
    decreases second.len(),
{
    if second.len() == 0 {
        assert(first + second =~= first);
        if let Outcome::Next(after) = run_list(m, first, state, fuel) {
            assert(run_list(m, second, after, fuel) == Outcome::Next(after));
        }
    } else {
        lemma_run_joined(m, first, second.drop_last(), state, fuel);
        assert((first + second).drop_last() =~= first + second.drop_last());
        assert((first + second)[(first + second).len() - 1] == second[second.len() - 1]);
    }
}

proof fn lemma_run_single(m: Meaning, instr: InstModel, state: State, fuel: nat)
    ensures
        run_list(m, seq![instr], state, fuel) == run(m, instr, state, fuel),
{
    lemma_run_list_push(m, Seq::empty(), instr, state, fuel);
    assert(Seq::empty().push(instr) =~= seq![instr]);
    assert(run_list(m, Seq::empty(), state, fuel) == Outcome::Next(state));
}

proof fn lemma_run_placed(
    m: Meaning,
    body: Seq<(usize, InstModel)>,
    list: Seq<InstModel>,
    offset: usize,
    state: State,
    fuel: nat,
)
    ensures
        run_body(m, body + at_offset(list, offset), state, fuel) == match run_body(
            m,
            body,
            state,
            fuel,
        ) {
            Outcome::Next(after) => run_list(m, list, after, fuel),
            other => other,
        },
{
    let front = body.map_values(|item: (usize, InstModel)| item.1);
    lemma_run_body_bare(m, body, front, state, fuel);
    lemma_run_body_bare(m, body + at_offset(list, offset), front + list, state, fuel);
    lemma_run_joined(m, front, list, state, fuel);
}

// ---------------------------------------------------------------------------
// Early exits

proof fn lemma_exits(m: Meaning, instr: InstModel, state: State, fuel: nat)
    requires
        exits_of(instr) matches Some(exits) && !exits.falls_through
            && !exits.exits_without_return,
    ensures
        run(m, instr, state, fuel) is Return,
    decreases instr,
{
    if let InstModel::If { then_branch, else_branch, .. } = instr {
        lemma_always_returns(m, then_branch, state, fuel);
        lemma_always_returns(m, else_branch, state, fuel);
    }
}

proof fn lemma_goes_on(m: Meaning, instr: InstModel, state: State, fuel: nat)
    requires
        exits_of(instr) matches Some(exits) ==> !exits.exits_without_return,
    ensures
        run(m, instr, state, fuel) is Return || run(m, instr, state, fuel) is Next,
    decreases instr,
{
    if let InstModel::If { then_branch, else_branch, .. } = instr {
        lemma_list_goes_on(m, then_branch, state, fuel);
        lemma_list_goes_on(m, else_branch, state, fuel);
    }
}

proof fn lemma_list_goes_on(m: Meaning, list: Seq<InstModel>, state: State, fuel: nat)
    requires
        !exits_of_list(list).exits_without_return,
    ensures
        run_list(m, list, state, fuel) is Return || run_list(m, list, state, fuel) is Next,
        !exits_of_list(list).falls_through ==> run_list(m, list, state, fuel) is Return,
    decreases list,
{
    if list.len() > 0 {
        let last = list[list.len() - 1];
        lemma_list_goes_on(m, list.drop_last(), state, fuel);
        if exits_of_list(list.drop_last()).falls_through {
            if let Outcome::Next(after) = run_list(m, list.drop_last(), state, fuel) {
                lemma_goes_on(m, last, after, fuel);
                if let Some(exits) = exits_of(last) {
                    if !exits.falls_through {
                        lemma_exits(m, last, after, fuel);
                    }
                }
            }
        }
    }
}

/// A list of which every path ends in a return returns, in every state.
pub proof fn lemma_always_returns(m: Meaning, list: Seq<InstModel>, state: State, fuel: nat)
    requires
        always_returns(list),
    ensures
        run_list(m, list, state, fuel) is Return,
    decreases list,
{
    if list.len() > 0 {
        let last = list[list.len() - 1];
        let before = exits_of_list(list.drop_last());
        if before.falls_through {
            lemma_list_goes_on(m, list.drop_last(), state, fuel);
            if let Outcome::Next(after) = run_list(m, list.drop_last(), state, fuel) {
                lemma_exits(m, last, after, fuel);
            }
        } else {
            lemma_always_returns(m, list.drop_last(), state, fuel);
        }
    }
}

proof fn lemma_flattened_if(
    m: Meaning,
    condition: IRExpr,
    then_branch: Seq<InstModel>,
    else_branch: Seq<InstModel>,
    state: State,
    fuel: nat,
)
    ensures
        run_list(m, flattened_if(condition, then_branch, else_branch), state, fuel) == run(
            m,
            InstModel::If { condition, then_branch, else_branch },
            state,
            fuel,
        ),
{
    let none = Seq::<InstModel>::empty();
    match early_arm(then_branch, else_branch) {
        Some(true) => {
            let exit = InstModel::If { condition, then_branch, else_branch: none };
            lemma_run_joined(m, seq![exit], else_branch, state, fuel);
            lemma_run_single(m, exit, state, fuel);
            lemma_always_returns(m, then_branch, state, fuel);
            assert(run_list(m, none, state, fuel) == Outcome::Next(state));
        },
        Some(false) => {
            let exit = InstModel::If {
                condition: negated(condition),
                then_branch: else_branch,
                else_branch: none,
            };
            lemma_run_joined(m, seq![exit], then_branch, state, fuel);
            lemma_run_single(m, exit, state, fuel);
            lemma_always_returns(m, else_branch, state, fuel);
            law_a_negated_condition_is_the_opposite(m, state, condition);
            assert(run_list(m, none, state, fuel) == Outcome::Next(state));
        },
        None => {
            lemma_run_single(
                m,
                InstModel::If { condition, then_branch, else_branch },
                state,
                fuel,
            );
        },
    }
}

proof fn lemma_flattened(m: Meaning, instr: InstModel, state: State, fuel: nat)
    ensures
        run_list(m, flattened(instr), state, fuel) == run(m, instr, state, fuel),
    decreases instr,
{
    match instr {
        InstModel::If { condition, then_branch, else_branch } => {
            lemma_flattened_list(m, then_branch, state, fuel);
            lemma_flattened_list(m, else_branch, state, fuel);
            lemma_flattened_if(
                m,
                condition,
                flattened_list(then_branch),
                flattened_list(else_branch),
                state,
                fuel,
            );
        },
        InstModel::While { label, entry_offset, condition, body } => {
            let inner = flattened_body(body);
            assert forall|s: State, n: nat| #[trigger]
                run_body(m, inner, s, n) == run_body(m, body, s, n) by {
                lemma_flattened_body(m, body, s, n);
            }
            lemma_same_loops(m, label, condition, inner, body, state, fuel);
            lemma_run_single(
                m,
                InstModel::While { label, entry_offset, condition, body: inner },
                state,
                fuel,
            );
        },
        _ => {
            lemma_run_single(m, instr, state, fuel);
        },
    }
}

proof fn lemma_flattened_list(m: Meaning, list: Seq<InstModel>, state: State, fuel: nat)
    ensures
        run_list(m, flattened_list(list), state, fuel) == run_list(m, list, state, fuel),
    decreases list,
{
    if list.len() > 0 {
        let front = flattened_list(list.drop_last());
        let last = list[list.len() - 1];
        lemma_flattened_list(m, list.drop_last(), state, fuel);
        lemma_run_joined(m, front, flattened(last), state, fuel);
        if let Outcome::Next(after) = run_list(m, front, state, fuel) {
            lemma_flattened(m, last, after, fuel);
        }
    }
}

proof fn lemma_flattened_body(m: Meaning, list: Seq<(usize, InstModel)>, state: State, fuel: nat)
    ensures
        run_body(m, flattened_body(list), state, fuel) == run_body(m, list, state, fuel),
    decreases list,
{
    if list.len() > 0 {
        let front = flattened_body(list.drop_last());
        let last = list[list.len() - 1];
        lemma_flattened_body(m, list.drop_last(), state, fuel);
        lemma_run_placed(m, front, flattened(last.1), last.0, state, fuel);
        if let Outcome::Next(after) = run_body(m, front, state, fuel) {
            lemma_flattened(m, last.1, after, fuel);
        }
    }
}

/// Turning a returning arm into an early exit keeps what a function does.
pub proof fn law_lifting_branches_keeps_the_outcome(
    m: Meaning,
    function: FunctionModel,
    state: State,
    fuel: nat,
)
    ensures
        run_body(m, body_flattened(function), state, fuel) == run_body(
            m,
            function.body,
            state,
            fuel,
        ),
{
    lemma_flattened_body(m, function.body, state, fuel);
}

// ---------------------------------------------------------------------------
// Constant branches

proof fn lemma_collapsed(m: Meaning, instr: InstModel, state: State, fuel: nat)
    ensures
        run_list(m, collapsed(instr), state, fuel) == run(m, instr, state, fuel),
    decreases instr,
{
    match instr {
        InstModel::If { condition, then_branch, else_branch } => {
            lemma_collapsed_list(m, then_branch, state, fuel);
            lemma_collapsed_list(m, else_branch, state, fuel);
            lemma_run_single(
                m,
                InstModel::If {
                    condition,
                    then_branch: collapsed_list(then_branch),
                    else_branch: collapsed_list(else_branch),
                },
                state,
                fuel,
            );
        },
        InstModel::While { label, entry_offset, condition, body } => {
            let inner = collapsed_body(body);
            assert forall|s: State, n: nat| #[trigger]
                run_body(m, inner, s, n) == run_body(m, body, s, n) by {
                lemma_collapsed_body(m, body, s, n);
            }
            lemma_same_loops(m, label, condition, inner, body, state, fuel);
            lemma_run_single(
                m,
                InstModel::While { label, entry_offset, condition, body: inner },
                state,
                fuel,
            );
        },
        _ => {
            lemma_run_single(m, instr, state, fuel);
        },
    }
}

proof fn lemma_collapsed_list(m: Meaning, list: Seq<InstModel>, state: State, fuel: nat)
    ensures
        run_list(m, collapsed_list(list), state, fuel) == run_list(m, list, state, fuel),
    decreases list,
{
    if list.len() > 0 {
        let front = collapsed_list(list.drop_last());
        let last = list[list.len() - 1];
        lemma_collapsed_list(m, list.drop_last(), state, fuel);
        lemma_run_joined(m, front, collapsed(last), state, fuel);
        if let Outcome::Next(after) = run_list(m, front, state, fuel) {
            lemma_collapsed(m, last, after, fuel);
        }
    }
}

proof fn lemma_collapsed_body(m: Meaning, list: Seq<(usize, InstModel)>, state: State, fuel: nat)
    ensures
        run_body(m, collapsed_body(list), state, fuel) == run_body(m, list, state, fuel),
    decreases list,
{
    if list.len() > 0 {
        let front = collapsed_body(list.drop_last());
        let last = list[list.len() - 1];
        lemma_collapsed_body(m, list.drop_last(), state, fuel);
        lemma_run_placed(m, front, collapsed(last.1), last.0, state, fuel);
        if let Outcome::Next(after) = run_body(m, front, state, fuel) {
            lemma_collapsed(m, last.1, after, fuel);
        }
    }
}

/// Taking the arm of a branch on a constant keeps what a function does.
pub proof fn law_collapsing_branches_keeps_the_outcome(
    m: Meaning,
    function: FunctionModel,
    state: State,
    fuel: nat,
)
    ensures
        run_body(m, body_collapsed(function), state, fuel) == run_body(
            m,
            function.body,
            state,
            fuel,
        ),
{
    lemma_collapsed_body(m, function.body, state, fuel);
}

// ---------------------------------------------------------------------------
// Exit checks

/// Whether the list does nothing but leave the loop.
pub open spec fn only_breaks(list: Seq<t3::InstModel>) -> bool {
    list.len() == 1 && list[0] is Break
}

/// What an exit check does next: nothing where it leaves the loop, and otherwise
/// the instructions of the arm that is taken.
pub open spec fn goes_on_with(m: Meaning, state: State, instr: t3::InstModel) -> Option<
    Seq<t3::InstModel>,
> {
    match instr {
        t3::InstModel::If { condition, then_branch, else_branch } => {
            let taken = if holds(m, state, expression_of(condition)) {
                then_branch
            } else {
                else_branch
            };
            if only_breaks(taken) {
                None
            } else {
                Some(taken)
            }
        },
        _ => None,
    }
}

/// A loop repeats exactly where its exit check does not leave it, and then goes on
/// with what the check goes on with.
pub proof fn law_a_loop_repeats_where_its_check_does_not_leave_it(
    m: Meaning,
    state: State,
    instr: t3::InstModel,
)
    requires
        guard_of(instr) is Some,
        instr matches t3::InstModel::If { then_branch, else_branch, .. } ==> !(only_breaks(
            then_branch,
        ) && only_breaks(else_branch)),
    ensures
        ({
            let (repeats, work) = guard_of(instr)->0;
            match goes_on_with(m, state, instr) {
                Some(taken) => holds(m, state, repeats) && work == taken,
                None => !holds(m, state, repeats),
            }
        }),
{
    if let t3::InstModel::If { condition, .. } = instr {
        law_a_negated_condition_is_the_opposite(m, state, expression_of(condition));
    }
}

} // verus!
