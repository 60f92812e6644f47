//! A loop is checked first only where its check is true when it is first reached.
use super::rules::{captured, guarded_loop, repeats_guard, rotated, rotated_branch};
use crate::irt6::arithmetic::{bound_value, negation, plain_value, ContextModel, ValueModel};
use crate::irt6::effects::expression_effects;
use crate::irt6::ir::{IRExpr, InstModel, LoopCondition, VariableId};
use crate::irt6::meaning::{
    bindings_hold, bits_of, cut, differ_in, evaluated, holds, is_logical, is_proper, is_truth,
    law_a_value_depends_on_what_it_reads, law_a_value_stands_for_its_expression,
    law_an_expression_depends_on_what_it_reads, law_negation_is_the_opposite, measured, stands_for,
    weight, Meaning, State,
};
use crate::irt6::sums::law_values_are_flat;
use vstd::prelude::*;

verus! {

/// The state after a variable has been given the value of an expression.
pub open spec fn declared(
    m: Meaning,
    context: ContextModel,
    state: State,
    variable: VariableId,
    value: IRExpr,
) -> State {
    let given = evaluated(m, context, state, value);
    State {
        variables: |v: VariableId|
            if v == variable {
                given
            } else {
                (state.variables)(v)
            },
        ..state
    }
}

/// The state after the declarations from one position of a branch to another.
pub open spec fn after_declarations(
    m: Meaning,
    context: ContextModel,
    branch: Seq<InstModel>,
    from: int,
    to: int,
    state: State,
) -> State
    decreases to - from,
{
    if from >= to {
        state
    } else {
        match branch[from] {
            InstModel::DeclareAndAssignVariable { variable, value, .. } => after_declarations(
                m,
                context,
                branch,
                from + 1,
                to,
                declared(m, context, state, variable, value),
            ),
            _ => state,
        }
    }
}

/// Whether the declarations from a position on are of variables that are new, and
/// negation and the logical connectives are applied to truth values in them and in
/// the check of the loop after them.
pub open spec fn is_sound_entry(
    m: Meaning,
    context: ContextModel,
    branch: Seq<InstModel>,
    from: int,
    state: State,
    seen: Set<VariableId>,
) -> bool
    decreases branch.len() - from,
{
    0 <= from < branch.len() ==> match branch[from] {
        InstModel::DeclareAndAssignVariable { variable, value, .. } => {
            &&& !seen.contains(variable)
            &&& !expression_effects(value).reads.contains(variable)
            &&& is_logical(m, context, state, value)
            &&& is_sound_entry(
                m,
                context,
                branch,
                from + 1,
                declared(m, context, state, variable, value),
                seen.insert(variable),
            )
        },
        InstModel::While { condition, .. } => is_logical(m, context, state, condition.check()),
        _ => true,
    }
}

proof fn lemma_logical_depends(
    m: Meaning,
    context: ContextModel,
    a: State,
    b: State,
    expr: IRExpr,
    variable: VariableId,
)
    requires
        differ_in(a, b, variable),
        !expression_effects(expr).reads.contains(variable),
    ensures
        is_logical(m, context, a, expr) == is_logical(m, context, b, expr),
    decreases expr,
{
    match expr {
        IRExpr::BinOp { lhs, rhs, .. } => {
            lemma_logical_depends(m, context, a, b, *lhs, variable);
            lemma_logical_depends(m, context, a, b, *rhs, variable);
            law_an_expression_depends_on_what_it_reads(m, context, a, b, *lhs, variable);
            law_an_expression_depends_on_what_it_reads(m, context, a, b, *rhs, variable);
        },
        IRExpr::Not(inner) => {
            lemma_logical_depends(m, context, a, b, *inner, variable);
            law_an_expression_depends_on_what_it_reads(m, context, a, b, *inner, variable);
        },
        _ => {},
    }
}

/// A captured declaration binds its variable to what it stands for from then on.
proof fn lemma_captured(
    m: Meaning,
    context: ContextModel,
    instr: InstModel,
    guard: ValueModel,
    bindings: Map<VariableId, ValueModel>,
    state: State,
)
    requires
        instr is DeclareAndAssignVariable,
        captured(instr, guard, bindings, context) is Some,
        bindings_hold(m, context, state, bindings),
        !bindings.dom().contains(instr->DeclareAndAssignVariable_variable),
        !expression_effects(instr->DeclareAndAssignVariable_value).reads.contains(
            instr->DeclareAndAssignVariable_variable,
        ),
        is_logical(m, context, state, instr->DeclareAndAssignVariable_value),
    ensures
        ({
            let variable = instr->DeclareAndAssignVariable_variable;
            let after = declared(
                m,
                context,
                state,
                variable,
                instr->DeclareAndAssignVariable_value,
            );
            let more = captured(instr, guard, bindings, context)->0;
            &&& bindings_hold(m, context, after, more)
            &&& more.dom() == bindings.dom().insert(variable)
            &&& weight(m, context, after, guard) == weight(m, context, state, guard)
        }),
{
    let variable = instr->DeclareAndAssignVariable_variable;
    let value = instr->DeclareAndAssignVariable_value;
    let after = declared(m, context, state, variable, value);
    let more = captured(instr, guard, bindings, context)->0;
    let bound = bound_value(context, value, bindings);
    assert(differ_in(state, after, variable));
    law_a_value_depends_on_what_it_reads(m, context, state, after, guard, variable);
    assert(bindings_hold(m, context, after, bindings)) by {
        reveal(bindings_hold);
        assert forall|v: VariableId| #[trigger] bindings.dom().contains(v) implies is_proper(
            m,
            context,
            after,
            bindings[v],
        ) && weight(m, context, after, bindings[v]) == cut(
            (after.variables)(v),
            bindings[v].bits,
        ) by {
            assert(v != variable);
            law_a_value_depends_on_what_it_reads(
                m,
                context,
                state,
                after,
                bindings[v],
                variable,
            );
        }
    }
    lemma_logical_depends(m, context, state, after, value, variable);
    law_an_expression_depends_on_what_it_reads(m, context, state, after, value, variable);
    law_a_value_stands_for_its_expression(m, context, after, value, bindings);
    assert(more == bindings.insert(variable, bound));
    assert(more.dom() =~= bindings.dom().insert(variable));
    assert(bindings_hold(m, context, after, more)) by {
        reveal(bindings_hold);
        reveal(stands_for);
        law_values_are_flat(context, value, bindings);
        assert((after.variables)(variable) == evaluated(m, context, after, value));
        assert forall|v: VariableId| #[trigger] more.dom().contains(v) implies {
            &&& crate::irt6::sums::is_flat(more[v])
            &&& is_proper(m, context, after, more[v])
            &&& more[v].bits == bits_of(context, IRExpr::Variable(v))
            &&& weight(m, context, after, more[v]) == cut((after.variables)(v), more[v].bits)
        } by {
            if v == variable {
                assert(more[v] == bound);
            } else {
                assert(bindings.dom().contains(v));
                assert(more[v] == bindings[v]);
            }
        }
    }
}

/// What is known of the loop that is found under a guard that is true.
proof fn lemma_guarded_loop(
    m: Meaning,
    context: ContextModel,
    branch: Seq<InstModel>,
    from: int,
    guard: ValueModel,
    bindings: Map<VariableId, ValueModel>,
    state: State,
)
    requires
        0 <= from,
        guarded_loop(branch, from, guard, bindings, context) is Some,
        bindings_hold(m, context, state, bindings),
        is_sound_entry(m, context, branch, from, state, bindings.dom()),
        weight(m, context, state, guard) != 0,
    ensures
        ({
            let index = guarded_loop(branch, from, guard, bindings, context)->0;
            &&& from <= index < branch.len()
            &&& is_unlabelled_do(branch[index])
            &&& forall|j: int|
                from <= j < index ==> (#[trigger] branch[j]) is DeclareAndAssignVariable
            &&& holds(
                m,
                context,
                after_declarations(m, context, branch, from, index, state),
                branch[index]->While_condition.check(),
            )
        }),
    decreases branch.len() - from,
{
    match captured(branch[from], guard, bindings, context) {
        Some(more) => {
            let variable = branch[from]->DeclareAndAssignVariable_variable;
            let value = branch[from]->DeclareAndAssignVariable_value;
            let after = declared(m, context, state, variable, value);
            lemma_captured(m, context, branch[from], guard, bindings, state);
            lemma_guarded_loop(m, context, branch, from + 1, guard, more, after);
        },
        None => {
            assert(repeats_guard(branch[from], guard, bindings, context));
            let check = branch[from]->While_condition.check();
            law_a_value_stands_for_its_expression(m, context, state, check, bindings);
            reveal(stands_for);
        },
    }
}

/// Whether the instruction is a loop that checks after each pass, and that no jump
/// names.
pub open spec fn is_unlabelled_do(instr: InstModel) -> bool {
    match instr {
        InstModel::While { label: None, condition: LoopCondition::After { .. }, .. } => true,
        _ => false,
    }
}

/// Whether one instruction is the other with nothing but its check moved to before
/// each pass.
pub open spec fn is_checked_first(before: InstModel, after: InstModel) -> bool {
    match (before, after) {
        (
            InstModel::While { label, entry_offset, condition, body },
            InstModel::While {
                label: label2,
                entry_offset: entry_offset2,
                condition: condition2,
                body: body2,
            },
        ) => {
            &&& label == label2
            &&& entry_offset == entry_offset2
            &&& body == body2
            &&& condition is After
            &&& condition2 is Before
            &&& condition.check() == condition2.check()
        },
        _ => false,
    }
}

/// Whether one branch is the other with the loop at a position checked first, and
/// with nothing but declarations before the loop.
pub open spec fn rotates_at(before: Seq<InstModel>, after: Seq<InstModel>, index: int) -> bool {
    &&& 0 <= index < before.len()
    &&& after.len() == before.len()
    &&& is_checked_first(before[index], after[index])
    &&& forall|j: int| 0 <= j < before.len() && j != index ==> #[trigger] after[j] == before[j]
    &&& forall|j: int| 0 <= j < index ==> (#[trigger] before[j]) is DeclareAndAssignVariable
}

/// The instruction that takes the place of another.
pub open spec fn rotated_instruction(instr: InstModel, context: ContextModel) -> InstModel {
    match rotated(instr, context) {
        Some((made, _)) => made,
        None => instr,
    }
}

/// An arm of a conditional branch.
pub open spec fn arm(instr: InstModel, truth: bool) -> Seq<InstModel> {
    if truth {
        instr->then_branch
    } else {
        instr->else_branch
    }
}

/// What a loop with its check after each pass leaves, if it ends within `fuel`
/// passes.
pub open spec fn do_while(
    pass: spec_fn(State) -> Option<State>,
    check: spec_fn(State) -> bool,
    state: State,
    fuel: nat,
) -> Option<State>
    decreases fuel,
{
    if fuel == 0 {
        None
    } else {
        match pass(state) {
            Some(after) => if check(after) {
                do_while(pass, check, after, (fuel - 1) as nat)
            } else {
                Some(after)
            },
            None => None,
        }
    }
}

/// What a loop with its check before each pass leaves, if it ends within `fuel`
/// checks.
pub open spec fn while_do(
    pass: spec_fn(State) -> Option<State>,
    check: spec_fn(State) -> bool,
    state: State,
    fuel: nat,
) -> Option<State>
    decreases fuel,
{
    if fuel == 0 {
        None
    } else if !check(state) {
        Some(state)
    } else {
        match pass(state) {
            Some(after) => while_do(pass, check, after, (fuel - 1) as nat),
            None => None,
        }
    }
}

/// A loop whose check is true when it is first reached leaves the same whether it
/// checks before or after each pass.
pub proof fn law_a_loop_that_is_entered_can_check_first(
    pass: spec_fn(State) -> Option<State>,
    check: spec_fn(State) -> bool,
    state: State,
    fuel: nat,
)
    requires
        check(state),
    ensures
        while_do(pass, check, state, fuel + 1) == do_while(pass, check, state, fuel),
    decreases fuel,
{
    reveal_with_fuel(while_do, 2);
    if let Some(after) = pass(state) {
        if fuel > 0 && check(after) {
            law_a_loop_that_is_entered_can_check_first(pass, check, after, (fuel - 1) as nat);
        }
    }
}

/// A do loop under a guard becomes a while loop only where its check is true when
/// it is first reached: in every state in which the guard leads to its arm, the
/// check holds after the declarations before the loop. Nothing else of the branch
/// changes, and the loop leaves what it left before.
pub proof fn law_a_loop_is_checked_first_only_where_it_is_entered(
    m: Meaning,
    context: ContextModel,
    instr: InstModel,
    state: State,
    pass: spec_fn(State) -> Option<State>,
    fuel: nat,
)
    requires
        rotated(instr, context) is Some,
        is_truth(measured(m, context, state, instr->If_condition)),
        is_logical(m, context, state, instr->If_condition),
        is_sound_entry(
            m,
            context,
            arm(instr, holds(m, context, state, instr->If_condition)),
            0,
            state,
            Set::empty(),
        ),
    ensures
        ({
            let truth = holds(m, context, state, instr->If_condition);
            let made = rotated_instruction(instr, context);
            let before = arm(instr, truth);
            let after = arm(made, truth);
            &&& instr is If
            &&& made is If
            &&& made->If_condition == instr->If_condition
            &&& after == before || exists|index: int| #[trigger]
                rotates_at(before, after, index) && {
                    let entry = after_declarations(m, context, before, 0, index, state);
                    let check = before[index]->While_condition.check();
                    let checked = |s: State| holds(m, context, s, check);
                    &&& holds(m, context, entry, check)
                    &&& while_do(pass, checked, entry, fuel + 1) == do_while(
                        pass,
                        checked,
                        entry,
                        fuel,
                    )
                }
        }),
{
    if let InstModel::If { condition, then_branch, else_branch } = instr {
        let none = Map::<VariableId, ValueModel>::empty();
        let truth = holds(m, context, state, condition);
        let value = plain_value(context, condition);
        let guard = if truth {
            value
        } else {
            negation(value)
        };
        let before = arm(instr, truth);
        let made = rotated_instruction(instr, context);
        let after = arm(made, truth);
        assert(bindings_hold(m, context, state, none)) by {
            reveal(bindings_hold);
        }
        assert(none.dom() =~= Set::empty());
        law_a_value_stands_for_its_expression(m, context, state, condition, none);
        assert(weight(m, context, state, guard) != 0) by {
            reveal(stands_for);
            law_negation_is_the_opposite(m, context, state, value);
        }
        if after != before {
            assert(rotated_branch(before, guard, context) is Some);
            lemma_guarded_loop(m, context, before, 0, guard, none, state);
            let index = guarded_loop(before, 0, guard, none, context)->0;
            assert(rotates_at(before, after, index));
            let entry = after_declarations(m, context, before, 0, index, state);
            let check = before[index]->While_condition.check();
            let checked = |s: State| holds(m, context, s, check);
            assert(checked(entry));
            law_a_loop_that_is_entered_can_check_first(pass, checked, entry, fuel);
        }
    }
}

} // verus!
