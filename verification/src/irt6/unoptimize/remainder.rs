//! What a loop that becomes a remainder does.
use super::facts::FactsModel;
use super::rules::as_remainder;
use super::Options;
use crate::irt6::arithmetic::{
    any_term_reads, arithmetic_width, atom, difference, modulus, plain_value, value_reads,
    ContextModel, KindModel, ValueModel,
};
use crate::irt6::ir::{IRExpr, InstModel, LoopCondition, VariableId};
use crate::irt6::shapes::loops::{blockers_of, subtraction_of, updates_of};
use crate::irt6::sums::{
    is_flat, law_checked_differences_are_exact, law_repeated_subtraction_is_a_remainder,
    law_values_are_flat, left_over, number, weighed,
};
use vstd::prelude::*;

verus! {

/// What atoms stand for while an accumulator takes one number after the other:
/// those that do not read it stay the same.
pub open spec fn is_state(
    at: spec_fn(int) -> spec_fn(ValueModel) -> int,
    accumulator: ValueModel,
    variable: VariableId,
) -> bool {
    &&& forall|x: int| #[trigger] at(x)(accumulator) == x
    &&& forall|x: int, value: ValueModel|
        !value_reads(value, variable) ==> #[trigger] at(x)(value) == at(0)(value)
}

proof fn lemma_terms_stay(
    terms: Seq<(ValueModel, u64)>,
    variable: VariableId,
    accumulator: ValueModel,
    at: spec_fn(int) -> spec_fn(ValueModel) -> int,
    x: int,
)
    requires
        is_state(at, accumulator, variable),
        !any_term_reads(terms, variable),
    ensures
        weighed(terms, at(x)) == weighed(terms, at(0)),
    decreases terms.len(),
{
    if terms.len() > 0 {
        lemma_terms_stay(terms.drop_last(), variable, accumulator, at, x);
        assert(!value_reads(terms[terms.len() - 1].0, variable));
        assert(at(x)(terms.last().0) == at(0)(terms.last().0));
    }
}

/// A value that does not read the accumulator stays the same.
proof fn lemma_number_stays(
    value: ValueModel,
    variable: VariableId,
    accumulator: ValueModel,
    at: spec_fn(int) -> spec_fn(ValueModel) -> int,
    x: int,
)
    requires
        is_state(at, accumulator, variable),
        !value_reads(value, variable),
    ensures
        number(value, at(x)) == number(value, at(0)),
{
    match value.kind {
        KindModel::Sum { terms, .. } => lemma_terms_stay(terms, variable, accumulator, at, x),
        _ => {
            assert(at(x)(value) == at(0)(value));
        },
    }
}

proof fn lemma_nothing_stands_in_the_way(
    label: bool,
    condition: LoopCondition,
    body: Seq<(usize, InstModel)>,
    accumulator: VariableId,
    stride: ValueModel,
    source: IRExpr,
)
    requires
        blockers_of(label, condition, body, accumulator, stride, source).len() == 0,
    ensures
        condition is Before,
        !label,
        body.len() == 1,
        !value_reads(stride, accumulator),
        stride.kind != KindModel::Constant(0),
{
}

/// A loop becomes a remainder only where it checks first, has no label and does
/// nothing but take the stride from the accumulator. The stride is then the same in
/// every round. While the accumulator is at least the stride, a round leaves exactly
/// the difference in it, and all rounds together leave the remainder of the division
/// by a stride that is not zero. Without assumptions the stride is known not to be
/// zero.
pub proof fn law_remainder_is_what_the_loop_leaves(
    instr: InstModel,
    facts: FactsModel,
    context: ContextModel,
    options: Options,
    at: spec_fn(int) -> spec_fn(ValueModel) -> int,
    x: int,
)
    requires
        as_remainder(instr, facts, context, options) is Some,
        instr matches InstModel::While { label, condition, body, .. } && (subtraction_of(
            label is Some,
            condition,
            body,
            context,
        ) matches Some(shape) && {
            &&& is_state(
                at,
                atom(Some(shape.bits), IRExpr::Variable(shape.accumulator)),
                shape.accumulator,
            )
            &&& 0 <= x < modulus(shape.bits as int)
        }),
    ensures
        instr matches InstModel::While { label, condition, body, .. } && (subtraction_of(
            label is Some,
            condition,
            body,
            context,
        ) matches Some(shape) && {
            let accumulator = atom(Some(shape.bits), IRExpr::Variable(shape.accumulator));
            let expected = difference(accumulator, shape.stride);
            let m = modulus(shape.bits as int);
            let stride = number(shape.stride, at(0)) % m;
            &&& label is None && condition is Before && body.len() == 1
            &&& expected is Some
            &&& updates_of(body, context).contains((shape.accumulator, expected->0))
            &&& number(shape.stride, at(x)) % m == stride
            &&& x >= stride ==> number(expected->0, at(x)) % m == x - stride
            &&& stride > 0 ==> left_over(x as nat, stride as nat) == x % stride
            &&& !options.allow_assumptions ==> facts.zero(shape.stride) == Some(false)
        }),
{
    if let InstModel::While { label, condition, body, .. } = instr {
        let check = plain_value(context, condition.check());
        let shape = subtraction_of(label is Some, condition, body, context)->0;
        if let KindModel::Binary { lhs, rhs, .. } = check.kind {
            let accumulator = atom(Some(shape.bits), IRExpr::Variable(shape.accumulator));
            let m = modulus(shape.bits as int);
            assert(arithmetic_width(lhs.bits) is Some);
            assert(*lhs == accumulator);
            lemma_nothing_stands_in_the_way(
                label is Some,
                condition,
                body,
                shape.accumulator,
                shape.stride,
                shape.stride_source,
            );
            law_values_are_flat(context, condition.check(), Map::empty());
            assert(is_flat(*lhs) && is_flat(*rhs));
            lemma_number_stays(shape.stride, shape.accumulator, accumulator, at, x);
            assert(number(accumulator, at(x)) == x);
            vstd::arithmetic::div_mod::lemma_small_mod(x as nat, m as nat);
            let stride = number(shape.stride, at(0)) % m;
            if x >= stride {
                law_checked_differences_are_exact(accumulator, shape.stride, shape.bits, at(x));
            }
            if stride > 0 {
                law_repeated_subtraction_is_a_remainder(x as nat, stride as nat);
            }
        }
    }
}

} // verus!
