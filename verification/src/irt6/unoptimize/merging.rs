//! Two checks become one only where the second one decides as the first did.
use super::rotation::arm;
use super::sequences::{leaves_reads, merged_branches};
use crate::irt6::arithmetic::ContextModel;
use crate::irt6::effects::{
    body_effects, expression_effects, instruction_effects, instructions_effects, is_repeatable,
};
use crate::irt6::ir::{IRExpr, InstModel, VariableId};
use crate::irt6::meaning::{evaluated, holds, Meaning, State};
use vstd::prelude::*;

verus! {

/// Whether running an instruction can change the variable.
pub open spec fn may_change(instr: InstModel, variable: VariableId) -> bool
    decreases instr,
{
    match instr {
        InstModel::Assign { dest, .. } => dest == IRExpr::Variable(variable),
        InstModel::CompoundAssign { dest, .. } => dest == IRExpr::Variable(variable),
        InstModel::DeclareVariable { variable: written, .. } => written == variable,
        InstModel::DeclareAndAssignVariable { variable: written, .. } => written == variable,
        InstModel::AssignVariable { variable: written, .. } => written == variable,
        InstModel::LoadVariable { variable: written, .. } => written == variable,
        InstModel::If { then_branch, else_branch, .. } => may_change_list(then_branch, variable)
            || may_change_list(else_branch, variable),
        InstModel::While { body, .. } => may_change_body(body, variable),
        InstModel::ForEach { variable: element, body, .. } => element == variable
            || may_change_body(body, variable),
        _ => false,
    }
}

pub open spec fn may_change_list(list: Seq<InstModel>, variable: VariableId) -> bool
    decreases list,
{
    list.len() > 0 && (may_change_list(list.drop_last(), variable) || may_change(
        list[list.len() - 1],
        variable,
    ))
}

pub open spec fn may_change_body(list: Seq<(usize, InstModel)>, variable: VariableId) -> bool
    decreases list,
{
    list.len() > 0 && (may_change_body(list.drop_last(), variable) || may_change(
        list[list.len() - 1].1,
        variable,
    ))
}

/// The effects of an instruction hold every variable that it can change.
pub proof fn law_effects_hold_what_is_changed(instr: InstModel, variable: VariableId)
    requires
        may_change(instr, variable),
    ensures
        instruction_effects(instr).writes.contains(variable),
    decreases instr,
{
    match instr {
        InstModel::If { then_branch, else_branch, .. } => {
            if may_change_list(then_branch, variable) {
                lemma_list_effects(then_branch, variable);
            } else {
                lemma_list_effects(else_branch, variable);
            }
        },
        InstModel::While { body, .. } => {
            lemma_body_effects(body, variable);
        },
        InstModel::ForEach { variable: element, body, .. } => {
            if element != variable {
                lemma_body_effects(body, variable);
            }
        },
        _ => {},
    }
}

proof fn lemma_list_effects(list: Seq<InstModel>, variable: VariableId)
    requires
        may_change_list(list, variable),
    ensures
        instructions_effects(list).writes.contains(variable),
    decreases list,
{
    if may_change_list(list.drop_last(), variable) {
        lemma_list_effects(list.drop_last(), variable);
    } else {
        law_effects_hold_what_is_changed(list[list.len() - 1], variable);
    }
}

proof fn lemma_body_effects(list: Seq<(usize, InstModel)>, variable: VariableId)
    requires
        may_change_body(list, variable),
    ensures
        body_effects(list).writes.contains(variable),
    decreases list,
{
    if may_change_body(list.drop_last(), variable) {
        lemma_body_effects(list.drop_last(), variable);
    } else {
        law_effects_hold_what_is_changed(list[list.len() - 1].1, variable);
    }
}

proof fn lemma_one_changes(list: Seq<InstModel>, variable: VariableId) -> (k: int)
    requires
        may_change_list(list, variable),
    ensures
        0 <= k < list.len(),
        may_change(list[k], variable),
    decreases list,
{
    if may_change_list(list.drop_last(), variable) {
        lemma_one_changes(list.drop_last(), variable)
    } else {
        list.len() - 1
    }
}

/// An expression that neither reads memory nor traps depends on the variables that
/// it reads, and on nothing else.
pub proof fn law_a_repeatable_expression_depends_on_its_variables(
    m: Meaning,
    context: ContextModel,
    a: State,
    b: State,
    expr: IRExpr,
)
    requires
        is_repeatable(expr),
        forall|v: VariableId| #[trigger]
            expression_effects(expr).reads.contains(v) ==> (a.variables)(v) == (b.variables)(v),
    ensures
        evaluated(m, context, a, expr) == evaluated(m, context, b, expr),
    decreases expr,
{
    let reads = expression_effects(expr).reads;
    match expr {
        IRExpr::Variable(variable) => {
            assert(reads.contains(variable));
        },
        IRExpr::BinOp { lhs, rhs, .. } => {
            assert forall|v: VariableId| #[trigger]
                expression_effects(*lhs).reads.contains(v) implies (a.variables)(v) == (
            b.variables)(v) by {
                assert(reads.contains(v));
            }
            assert forall|v: VariableId| #[trigger]
                expression_effects(*rhs).reads.contains(v) implies (a.variables)(v) == (
            b.variables)(v) by {
                assert(reads.contains(v));
            }
            law_a_repeatable_expression_depends_on_its_variables(m, context, a, b, *lhs);
            law_a_repeatable_expression_depends_on_its_variables(m, context, a, b, *rhs);
        },
        IRExpr::ElementAddress { base, index, .. } => {
            assert forall|v: VariableId| #[trigger]
                expression_effects(*base).reads.contains(v) implies (a.variables)(v) == (
            b.variables)(v) by {
                assert(reads.contains(v));
            }
            assert forall|v: VariableId| #[trigger]
                expression_effects(*index).reads.contains(v) implies (a.variables)(v) == (
            b.variables)(v) by {
                assert(reads.contains(v));
            }
            law_a_repeatable_expression_depends_on_its_variables(m, context, a, b, *base);
            law_a_repeatable_expression_depends_on_its_variables(m, context, a, b, *index);
        },
        IRExpr::MemoryAddress { address, .. } => {
            law_a_repeatable_expression_depends_on_its_variables(m, context, a, b, *address);
        },
        IRExpr::Convert { value, .. } => {
            law_a_repeatable_expression_depends_on_its_variables(m, context, a, b, *value);
        },
        IRExpr::Not(inner) => {
            law_a_repeatable_expression_depends_on_its_variables(m, context, a, b, *inner);
        },
        _ => {},
    }
}

/// Two checks are merged only where the second one decides as the first did: in
/// every state that the taken arm of the first can leave, whatever it does to
/// memory. The merged arms are those that the two checks lead to, one after the
/// other.
pub proof fn law_merged_checks_decide_alike(
    m: Meaning,
    context: ContextModel,
    first: InstModel,
    second: InstModel,
    before: State,
    after: State,
)
    requires
        merged_branches(first, second) is Some,
        forall|v: VariableId|
            !may_change_list(
                arm(first, holds(m, context, before, first->If_condition)),
                v,
            ) ==> #[trigger] (after.variables)(v) == (before.variables)(v),
    ensures
        ({
            let made = merged_branches(first, second)->0;
            let truth = holds(m, context, before, first->If_condition);
            &&& holds(m, context, after, second->If_condition) == truth
            &&& holds(m, context, before, made->If_condition) == truth
            &&& arm(made, truth) == arm(first, truth) + arm(second, truth)
        }),
{
    let condition = first->If_condition;
    let reads = expression_effects(condition).reads;
    let truth = holds(m, context, before, condition);
    let taken = arm(first, truth);
    assert(leaves_reads(taken, reads));
    assert forall|v: VariableId| #[trigger] reads.contains(v) implies (after.variables)(v) == (
    before.variables)(v) by {
        if may_change_list(taken, v) {
            let k = lemma_one_changes(taken, v);
            law_effects_hold_what_is_changed(taken[k], v);
            assert(instruction_effects(taken[k]).writes.disjoint(reads));
        }
    }
    law_a_repeatable_expression_depends_on_its_variables(m, context, after, before, condition);
}

} // verus!
