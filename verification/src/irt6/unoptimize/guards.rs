//! The guard of a remainder is dropped only where it changes nothing.
use super::rotation::arm;
use crate::irt6::arithmetic::{
    arithmetic_width, modulus, negation, plain_value, ContextModel, ValueModel,
};
use crate::irt6::ir::{IRBinOpKind, IRExpr, InstModel, VariableId};
use crate::irt6::meaning::{
    bindings_hold, evaluated, holds, is_logical, is_truth,
    law_a_value_stands_for_its_expression, law_negation_is_the_opposite, measured, stands_for,
    weight, Meaning, State,
};
use crate::irt6::shapes::modulo::{
    guarded_modulo_of, law_guarded_remainder_is_a_remainder, remainder_parts,
};
use vstd::prelude::*;

verus! {

proof fn lemma_plain_value(m: Meaning, context: ContextModel, state: State, expr: IRExpr)
    requires
        is_logical(m, context, state, expr),
    ensures
        stands_for(m, context, state, plain_value(context, expr), expr),
{
    let none = Map::<VariableId, ValueModel>::empty();
    assert(bindings_hold(m, context, state, none)) by {
        reveal(bindings_hold);
    }
    law_a_value_stands_for_its_expression(m, context, state, expr, none);
}

/// A branch counts as a guarded remainder only where the arm that is not taken
/// leaves out nothing: either the remainder is what the branch does, or the branch
/// does nothing and the dividend is less than the divisor, so that it is its own
/// remainder.
pub proof fn law_a_guarded_remainder_needs_no_guard(
    m: Meaning,
    context: ContextModel,
    instr: InstModel,
    state: State,
)
    requires
        guarded_modulo_of(instr, context) is Some,
        is_truth(measured(m, context, state, instr->If_condition)),
        is_logical(m, context, state, instr->If_condition),
        remainder_parts((guarded_modulo_of(instr, context)->0).replacement) matches Some(
            (_, dividend, divisor),
        ) ==> is_logical(m, context, state, dividend) && is_logical(m, context, state, divisor),
    ensures
        ({
            let shape = guarded_modulo_of(instr, context)->0;
            let taken = arm(instr, holds(m, context, state, instr->If_condition));
            &&& instr is If
            &&& remainder_parts(shape.replacement) matches Some((destination, dividend, divisor))
                && {
                let x = measured(m, context, state, dividend);
                let y = measured(m, context, state, divisor);
                &&& shape.destination == destination && shape.dividend == dividend
                &&& taken == seq![shape.replacement] || (taken.len() == 0 && 0 <= x < y && x % y
                    == x)
            }
        }),
{
    let shape = guarded_modulo_of(instr, context)->0;
    let condition = instr->If_condition;
    let value = plain_value(context, condition);
    let truth = holds(m, context, state, condition);
    let taken = arm(instr, truth);
    let (destination, dividend, divisor) = remainder_parts(shape.replacement)->0;
    let expected = IRExpr::BinOp {
        kind: IRBinOpKind::UnsignedGe,
        lhs: Box::new(dividend),
        rhs: Box::new(divisor),
    };
    let x = measured(m, context, state, dividend);
    let y = measured(m, context, state, divisor);
    reveal(stands_for);
    lemma_plain_value(m, context, state, condition);
    lemma_plain_value(m, context, state, expected);
    lemma_plain_value(m, context, state, dividend);
    lemma_plain_value(m, context, state, divisor);
    law_negation_is_the_opposite(m, context, state, value);
    assert(holds(m, context, state, expected) == (x >= y));
    let guard = plain_value(context, expected);
    assert((weight(m, context, state, guard) != 0) == (x >= y));
    if instr->then_branch.len() == 1 && instr->else_branch.len() == 0 {
        assert(guard == value);
        if truth {
            assert(taken =~= seq![shape.replacement]);
        }
    } else {
        assert(guard == negation(value));
        if !truth {
            assert(taken =~= seq![shape.replacement]);
        }
    }
    if x < y {
        let bits = arithmetic_width(plain_value(context, dividend).bits)->0;
        assert(0 <= x) by {
            vstd::arithmetic::div_mod::lemma_mod_bound(
                evaluated(m, context, state, dividend),
                modulus(bits as int),
            );
        }
        law_guarded_remainder_is_a_remainder(x as nat, y as nat);
    }
}

} // verus!
