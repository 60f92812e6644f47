//! A declaration moves into a branch only where nothing else needs it.
use super::arithmetic::ContextModel;
use super::effects::{expression_effects, instruction_effects};
use super::ir::{InstModel, VariableId};
use super::meaning::{
    differ_in, holds, law_an_expression_depends_on_what_it_reads, Meaning, State,
};
use super::relocate_variables::{destination, is_mentioned, placed};
use super::unoptimize::merging::{law_effects_hold_what_is_changed, may_change};
use super::unoptimize::rotation::{arm, declared};
use vstd::prelude::*;

verus! {

/// A declaration that moves into an arm of the next branch is met where it was
/// met before: the condition decides as it did after the declaration, the arm that
/// the declaration moves to begins with it, and neither the other arm nor anything
/// after the branch reads or changes the variable.
pub proof fn law_a_moved_declaration_is_met_where_it_is_needed(
    m: Meaning,
    context: ContextModel,
    list: Seq<(usize, InstModel)>,
    index: int,
    parameters: Set<VariableId>,
    state: State,
)
    requires
        0 <= index,
        index + 1 < list.len(),
        destination(list, index, parameters) is Some,
        list[index].1 is DeclareAndAssignVariable,
    ensures
        ({
            let into = destination(list, index, parameters)->0;
            let declaration = list[index].1;
            let variable = declaration->DeclareAndAssignVariable_variable;
            let value = declaration->DeclareAndAssignVariable_value;
            let branch = list[index + 1].1;
            let made = placed(list, index, into)[index].1;
            let condition = branch->If_condition;
            let aside = arm(branch, !into);
            &&& branch is If && made is If && made->If_condition == condition
            &&& holds(m, context, declared(m, context, state, variable, value), condition)
                == holds(m, context, state, condition)
            &&& arm(made, into) == arm(branch, into).insert(0, declaration)
            &&& arm(made, !into) == aside
            &&& forall|k: int|
                0 <= k < aside.len() ==> {
                    let other = #[trigger] aside[k];
                    !may_change(other, variable) && !instruction_effects(other).reads.contains(
                        variable,
                    )
                }
            &&& forall|k: int|
                index + 2 <= k < list.len() ==> {
                    let other = (#[trigger] list[k]).1;
                    !may_change(other, variable) && !instruction_effects(other).reads.contains(
                        variable,
                    )
                }
        }),
{
    let into = destination(list, index, parameters)->0;
    let variable = list[index].1->DeclareAndAssignVariable_variable;
    let value = list[index].1->DeclareAndAssignVariable_value;
    let branch = list[index + 1].1;
    let condition = branch->If_condition;
    let after = declared(m, context, state, variable, value);
    assert(differ_in(state, after, variable));
    assert(!expression_effects(condition).reads.contains(variable));
    law_an_expression_depends_on_what_it_reads(m, context, state, after, condition, variable);
    let aside = arm(branch, !into);
    assert forall|k: int| 0 <= k < aside.len() implies {
        let other = #[trigger] aside[k];
        !may_change(other, variable) && !instruction_effects(other).reads.contains(variable)
    } by {
        let other = aside[k];
        assert(!is_mentioned(other, variable));
        if may_change(other, variable) {
            law_effects_hold_what_is_changed(other, variable);
        }
    }
    assert forall|k: int| index + 2 <= k < list.len() implies {
        let other = (#[trigger] list[k]).1;
        !may_change(other, variable) && !instruction_effects(other).reads.contains(variable)
    } by {
        let other = list[k].1;
        assert(!is_mentioned(other, variable));
        if may_change(other, variable) {
            law_effects_hold_what_is_changed(other, variable);
        }
    }
}

} // verus!
