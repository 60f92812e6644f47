//! What expressions and their arithmetic values stand for, in a state of the
//! variables and the memory.
use super::arithmetic::{
    access_width, adopted, arithmetic_width, atom, bits_of_type, bound_value, constant_value,
    add_term, add_terms, any_term_reads, gather, is_comparison, is_literal, is_width, modulus,
    negation, operation_value, plain_value, reduced_terms, sum_value, value_reads, ContextModel,
    KindModel, ValueModel,
};
use super::effects::{expression_effects, is_repeatable};
use super::ir::{DataId, IRBinOpKind, IRExpr, IntegerType, VariableId};
use super::sums::{is_flat, law_operations_keep_their_value, law_values_are_flat, number, weighed};
use vstd::arithmetic::div_mod::{
    lemma_add_mod_noop, lemma_mod_twice, lemma_mul_mod_noop, lemma_small_mod, lemma_sub_mod_noop,
};
use vstd::arithmetic::power2::pow2;
use vstd::prelude::*;

verus! {

/// What a run does not change: the arguments, and how the operations that are not
/// arithmetic compute. A memory is known by a number.
pub struct Meaning {
    pub operation: spec_fn(IRBinOpKind, int, int, Option<usize>, Option<usize>) -> int,
    pub argument: spec_fn(usize) -> int,
    pub conversion: spec_fn(int, IntegerType, IntegerType) -> int,
    pub place: spec_fn(int, Option<usize>) -> int,
    pub element: spec_fn(int, int, usize) -> int,
    pub load: spec_fn(int, int) -> int,
    pub length: spec_fn(int, int) -> int,
    pub data: spec_fn(int, DataId) -> int,
}

/// What a run changes.
pub struct State {
    pub variables: spec_fn(VariableId) -> int,
    pub memory: int,
}

pub open spec fn bit(truth: bool) -> int {
    if truth {
        1
    } else {
        0
    }
}

/// What is left of a number at a width.
pub open spec fn cut(value: int, bits: Option<usize>) -> int {
    match arithmetic_width(bits) {
        Some(bits) => value % modulus(bits as int),
        None => value,
    }
}

/// The signed number that the bits of an unsigned one stand for.
pub open spec fn signed(value: int, bits: Option<usize>) -> int {
    match arithmetic_width(bits) {
        Some(bits) => if 2 * value >= modulus(bits as int) {
            value - modulus(bits as int)
        } else {
            value
        },
        None => value,
    }
}

/// The width of an operation on two operands.
pub open spec fn joint_width(
    kind: IRBinOpKind,
    left: Option<usize>,
    right: Option<usize>,
) -> Option<usize> {
    if is_comparison(kind) {
        Some(1)
    } else if kind == IRBinOpKind::Shl || left == right {
        left
    } else {
        None
    }
}

/// The result of an operation on two numbers of given widths. Comparisons and the
/// logical connectives give a truth value; sums, differences and products count
/// modulo two to the power of the width.
pub open spec fn applied(
    m: Meaning,
    kind: IRBinOpKind,
    a: int,
    b: int,
    left: Option<usize>,
    right: Option<usize>,
) -> int {
    let wide = arithmetic_width(joint_width(kind, left, right)) is Some;
    match kind {
        IRBinOpKind::Eq => bit(a == b),
        IRBinOpKind::Ne => bit(a != b),
        IRBinOpKind::UnsignedLt => bit(a < b),
        IRBinOpKind::UnsignedGe => bit(a >= b),
        IRBinOpKind::SignedGt => bit(signed(a, left) > signed(b, right)),
        IRBinOpKind::SignedLe => bit(signed(a, left) <= signed(b, right)),
        IRBinOpKind::LogicalAnd => bit(a != 0 && b != 0),
        IRBinOpKind::Or => bit(a != 0 || b != 0),
        IRBinOpKind::Add if wide => a + b,
        IRBinOpKind::Sub if wide => a - b,
        IRBinOpKind::Mul if wide => a * b,
        IRBinOpKind::Shl if wide && b < left->0 => a * pow2(b as nat),
        _ => (m.operation)(kind, a, b, left, right),
    }
}

/// The widths at which an operation takes its operands. A literal takes the width
/// of the other operand.
pub open spec fn operand_widths(
    kind: IRBinOpKind,
    lhs: IRExpr,
    rhs: IRExpr,
    left: Option<usize>,
    right: Option<usize>,
) -> (Option<usize>, Option<usize>) {
    if kind != IRBinOpKind::Shl && is_literal(lhs) {
        (
            if arithmetic_width(right) is Some {
                right
            } else {
                left
            },
            right,
        )
    } else if kind != IRBinOpKind::Shl && is_literal(rhs) {
        (
            left,
            if arithmetic_width(left) is Some {
                left
            } else {
                right
            },
        )
    } else {
        (left, right)
    }
}

/// The width of an expression in bits, where it has one.
pub open spec fn bits_of(context: ContextModel, expr: IRExpr) -> Option<usize>
    decreases expr,
{
    match expr {
        IRExpr::Variable(variable) => if context.variables.dom().contains(variable) {
            bits_of_type(context.variables[variable])
        } else {
            None
        },
        IRExpr::Argument(ordinal) => if context.arguments.dom().contains(ordinal) {
            bits_of_type(context.arguments[ordinal])
        } else {
            None
        },
        IRExpr::CU8(_) => Some(8),
        IRExpr::CU32(_) => Some(32),
        IRExpr::CU64(_) => Some(64),
        IRExpr::BinOp { kind, lhs, rhs } => {
            let widths = operand_widths(
                kind,
                *lhs,
                *rhs,
                bits_of(context, *lhs),
                bits_of(context, *rhs),
            );
            joint_width(kind, widths.0, widths.1)
        },
        IRExpr::Not(inner) => if !is_repeatable(expr) {
            None
        } else {
            match *inner {
                // A negation that is taken back leaves what was negated.
                IRExpr::Not(twice) => bits_of(context, *twice),
                _ => Some(1),
            }
        },
        IRExpr::Convert { target, .. } => access_width(target.size as int),
        IRExpr::Deref(address) => match *address {
            IRExpr::MemoryAddress { size: Some(size), .. } => access_width(size as int),
            IRExpr::ElementAddress { element_size, .. } => access_width(element_size as int),
            _ => None,
        },
        _ => None,
    }
}

/// The number that an expression stands for. Operations take their operands at
/// the operands' widths.
pub open spec fn evaluated(m: Meaning, context: ContextModel, state: State, expr: IRExpr) -> int
    decreases expr,
{
    match expr {
        IRExpr::Variable(variable) => (state.variables)(variable),
        IRExpr::Argument(ordinal) => (m.argument)(ordinal),
        IRExpr::CU8(constant) => constant as int,
        IRExpr::CU32(constant) => constant as int,
        IRExpr::CU64(constant) => constant as int,
        IRExpr::Bool(truth) => bit(truth),
        IRExpr::Data(id) => (m.data)(state.memory, id),
        IRExpr::Deref(address) => (m.load)(state.memory, evaluated(m, context, state, *address)),
        IRExpr::CStringLength(base) => (m.length)(
            state.memory,
            evaluated(m, context, state, *base),
        ),
        IRExpr::MemoryAddress { address, size } => (m.place)(
            evaluated(m, context, state, *address),
            size,
        ),
        IRExpr::ElementAddress { base, index, element_size } => (m.element)(
            evaluated(m, context, state, *base),
            evaluated(m, context, state, *index),
            element_size,
        ),
        IRExpr::Convert { value, source, target } => (m.conversion)(
            evaluated(m, context, state, *value),
            source,
            target,
        ),
        IRExpr::Not(inner) => bit(
            cut(evaluated(m, context, state, *inner), bits_of(context, *inner)) == 0,
        ),
        IRExpr::BinOp { kind, lhs, rhs } => {
            let widths = operand_widths(
                kind,
                *lhs,
                *rhs,
                bits_of(context, *lhs),
                bits_of(context, *rhs),
            );
            applied(
                m,
                kind,
                cut(evaluated(m, context, state, *lhs), widths.0),
                cut(evaluated(m, context, state, *rhs), widths.1),
                widths.0,
                widths.1,
            )
        },
    }
}

/// The number that an expression stands for, at its width.
pub open spec fn measured(m: Meaning, context: ContextModel, state: State, expr: IRExpr) -> int {
    cut(evaluated(m, context, state, expr), bits_of(context, expr))
}

/// Whether a condition is true.
pub open spec fn holds(m: Meaning, context: ContextModel, state: State, condition: IRExpr) -> bool {
    measured(m, context, state, condition) != 0
}

pub open spec fn is_truth(value: int) -> bool {
    value == 0 || value == 1
}

/// Whether negation and the logical connectives are applied to truth values.
pub open spec fn is_logical(m: Meaning, context: ContextModel, state: State, expr: IRExpr) -> bool
    decreases expr,
{
    match expr {
        IRExpr::Not(inner) => is_truth(measured(m, context, state, *inner)) && is_logical(
            m,
            context,
            state,
            *inner,
        ),
        IRExpr::BinOp { kind, lhs, rhs } => {
            &&& is_logical(m, context, state, *lhs)
            &&& is_logical(m, context, state, *rhs)
            &&& kind == IRBinOpKind::Or || kind == IRBinOpKind::LogicalAnd ==> is_truth(
                measured(m, context, state, *lhs),
            ) && is_truth(measured(m, context, state, *rhs))
        },
        _ => true,
    }
}

// ---------------------------------------------------------------------------
// Values

/// The number that a value stands for.
pub open spec fn meant(m: Meaning, context: ContextModel, state: State, value: ValueModel) -> int
    decreases value,
{
    match value.kind {
        KindModel::Constant(constant) => constant as int,
        KindModel::Atom(expr) => evaluated(m, context, state, expr),
        KindModel::Sum { terms, constant } => meant_terms(m, context, state, terms) + constant,
        KindModel::Binary { kind, lhs, rhs } => applied(
            m,
            kind,
            cut(meant(m, context, state, *lhs), lhs.bits),
            cut(meant(m, context, state, *rhs), rhs.bits),
            lhs.bits,
            rhs.bits,
        ),
        KindModel::Not(inner) => bit(cut(meant(m, context, state, *inner), inner.bits) == 0),
    }
}

pub open spec fn meant_terms(
    m: Meaning,
    context: ContextModel,
    state: State,
    terms: Seq<(ValueModel, u64)>,
) -> int
    decreases terms,
{
    if terms.len() == 0 {
        0
    } else {
        meant_terms(m, context, state, terms.drop_last()) + terms[terms.len() - 1].1 * meant(
            m,
            context,
            state,
            terms[terms.len() - 1].0,
        )
    }
}

/// The number that a value stands for, at its width.
pub open spec fn weight(m: Meaning, context: ContextModel, state: State, value: ValueModel) -> int {
    cut(meant(m, context, state, value), value.bits)
}

/// Whether a value can be a term of a sum at a width: it has that width, and is
/// neither a truth value nor a sum.
pub open spec fn is_term(value: ValueModel, bits: Option<usize>) -> bool {
    &&& value.bits == bits
    &&& match value.kind {
        KindModel::Atom(_) => true,
        KindModel::Binary { kind, .. } => !is_comparison(kind),
        _ => false,
    }
}

pub open spec fn are_terms(terms: Seq<(ValueModel, u64)>, bits: Option<usize>) -> bool {
    forall|i: int| 0 <= i < terms.len() ==> is_term((#[trigger] terms[i]).0, bits)
}

/// Whether constants are reduced, sums have terms of their width, and negation and
/// the logical connectives are applied to truth values.
pub open spec fn is_proper(
    m: Meaning,
    context: ContextModel,
    state: State,
    value: ValueModel,
) -> bool
    decreases value,
{
    match value.kind {
        KindModel::Constant(constant) => cut(constant as int, value.bits) == constant,
        KindModel::Sum { terms, .. } => are_terms(terms, value.bits),
        KindModel::Not(inner) => {
            &&& value.bits == Some(1usize)
            &&& !(inner.kind is Not)
            &&& is_truth(weight(m, context, state, *inner))
            &&& is_proper(m, context, state, *inner)
        },
        KindModel::Binary { kind, lhs, rhs } => {
            &&& is_comparison(kind) ==> value.bits == Some(1usize)
            &&& kind == IRBinOpKind::Or || kind == IRBinOpKind::LogicalAnd ==> {
                &&& is_truth(weight(m, context, state, *lhs))
                &&& is_truth(weight(m, context, state, *rhs))
                &&& is_proper(m, context, state, *lhs)
                &&& is_proper(m, context, state, *rhs)
            }
        },
        _ => true,
    }
}

proof fn lemma_weighed(
    m: Meaning,
    context: ContextModel,
    state: State,
    terms: Seq<(ValueModel, u64)>,
)
    ensures
        weighed(terms, |v: ValueModel| meant(m, context, state, v)) == meant_terms(
            m,
            context,
            state,
            terms,
        ),
    decreases terms.len(),
{
    if terms.len() > 0 {
        lemma_weighed(m, context, state, terms.drop_last());
    }
}

proof fn lemma_number(m: Meaning, context: ContextModel, state: State, value: ValueModel)
    ensures
        number(value, |v: ValueModel| meant(m, context, state, v)) == meant(
            m,
            context,
            state,
            value,
        ),
{
    if let KindModel::Sum { terms, .. } = value.kind {
        lemma_weighed(m, context, state, terms);
    }
}

/// The negation of a truth value is the other truth value.
pub proof fn law_negation_is_the_opposite(
    m: Meaning,
    context: ContextModel,
    state: State,
    value: ValueModel,
)
    requires
        is_proper(m, context, state, value),
        is_truth(weight(m, context, state, value)),
    ensures
        weight(m, context, state, negation(value)) == 1 - weight(m, context, state, value),
        is_proper(m, context, state, negation(value)),
        !(value.kind is Not) ==> negation(value).bits == Some(1usize),
    decreases value,
{
    match value.kind {
        KindModel::Binary { kind, lhs, rhs } => {
            if kind == IRBinOpKind::Or || kind == IRBinOpKind::LogicalAnd {
                law_negation_is_the_opposite(m, context, state, *lhs);
                law_negation_is_the_opposite(m, context, state, *rhs);
            }
        },
        _ => {},
    }
}

/// A negation that is taken back has the width of what was negated.
proof fn lemma_negated_twice(m: Meaning, context: ContextModel, state: State, value: ValueModel)
    requires
        is_proper(m, context, state, value),
        is_truth(weight(m, context, state, value)),
    ensures
        negation(negation(value)).bits == value.bits,
{
    reveal_with_fuel(negation, 2);
    if let KindModel::Not(inner) = value.kind {
        law_negation_is_the_opposite(m, context, state, *inner);
    }
}

// ---------------------------------------------------------------------------
// Sums

proof fn lemma_add_term_terms(
    terms: Seq<(ValueModel, u64)>,
    value: ValueModel,
    coefficient: u64,
    bits: Option<usize>,
)
    requires
        are_terms(terms, bits),
        is_term(value, bits),
    ensures
        are_terms(add_term(terms, value, coefficient), bits),
    decreases terms.len(),
{
    if terms.len() > 0 && terms[0].0 != value && super::arithmetic::value_order(value, terms[0].0)
        >= 0 {
        let rest = terms.subrange(1, terms.len() as int);
        assert forall|i: int| 0 <= i < rest.len() implies is_term((#[trigger] rest[i]).0, bits) by {
            assert(rest[i] == terms[i + 1]);
        }
        lemma_add_term_terms(rest, value, coefficient, bits);
        let more = add_term(rest, value, coefficient);
        let made = add_term(terms, value, coefficient);
        assert forall|i: int| 0 <= i < made.len() implies is_term((#[trigger] made[i]).0, bits) by {
            if i > 0 {
                assert(made[i] == more[i - 1]);
            } else {
                assert(made[0] == terms[0]);
            }
        }
    } else {
        let made = add_term(terms, value, coefficient);
        assert forall|i: int| 0 <= i < made.len() implies is_term((#[trigger] made[i]).0, bits) by {
            if terms.len() > 0 {
                if terms[0].0 == value {
                    assert(i > 0 ==> made[i] == terms[i]);
                } else {
                    assert(i > 0 ==> made[i] == terms[i - 1]);
                }
            }
        }
    }
}

proof fn lemma_add_terms_terms(
    terms: Seq<(ValueModel, u64)>,
    nested: Seq<(ValueModel, u64)>,
    coefficient: u64,
    bits: Option<usize>,
)
    requires
        are_terms(terms, bits),
        are_terms(nested, bits),
    ensures
        are_terms(add_terms(terms, nested, coefficient), bits),
    decreases nested.len(),
{
    if nested.len() > 0 {
        let front = nested.drop_last();
        assert forall|i: int| 0 <= i < front.len() implies is_term(
            (#[trigger] front[i]).0,
            bits,
        ) by {
            assert(front[i] == nested[i]);
        }
        lemma_add_terms_terms(terms, front, coefficient, bits);
        assert(is_term(nested[nested.len() - 1].0, bits));
        lemma_add_term_terms(
            add_terms(terms, front, coefficient),
            nested.last().0,
            nested.last().1.wrapping_mul(coefficient),
            bits,
        );
    }
}

/// Whether a value can be added to a sum at a width.
pub open spec fn is_addend(value: ValueModel, bits: Option<usize>) -> bool {
    &&& value.bits == bits
    &&& match value.kind {
        KindModel::Constant(_) => true,
        KindModel::Sum { terms, .. } => are_terms(terms, bits),
        _ => is_term(value, bits),
    }
}

proof fn lemma_gather_terms(values: Seq<(ValueModel, u64)>, bits: Option<usize>)
    requires
        forall|i: int| 0 <= i < values.len() ==> is_addend((#[trigger] values[i]).0, bits),
    ensures
        are_terms(gather(values).terms, bits),
    decreases values.len(),
{
    if values.len() > 0 {
        let front = values.drop_last();
        assert forall|i: int| 0 <= i < front.len() implies is_addend(
            (#[trigger] front[i]).0,
            bits,
        ) by {
            assert(front[i] == values[i]);
        }
        lemma_gather_terms(front, bits);
        let last = values[values.len() - 1];
        assert(is_addend(last.0, bits));
        let before = gather(front);
        match last.0.kind {
            KindModel::Constant(_) => {},
            KindModel::Sum { terms, .. } => {
                lemma_add_terms_terms(before.terms, terms, last.1, bits);
            },
            _ => {
                lemma_add_term_terms(before.terms, last.0, last.1, bits);
            },
        }
    }
}

proof fn lemma_reduced_terms(terms: Seq<(ValueModel, u64)>, width: usize, bits: Option<usize>)
    requires
        are_terms(terms, bits),
    ensures
        are_terms(reduced_terms(terms, width), bits),
    decreases terms.len(),
{
    if terms.len() > 0 {
        let front = terms.drop_last();
        assert forall|i: int| 0 <= i < front.len() implies is_term(
            (#[trigger] front[i]).0,
            bits,
        ) by {
            assert(front[i] == terms[i]);
        }
        lemma_reduced_terms(front, width, bits);
        assert(is_term(terms[terms.len() - 1].0, bits));
    }
}

/// A normalized sum is proper, and has its width.
proof fn lemma_sum_is_proper(
    m: Meaning,
    context: ContextModel,
    state: State,
    values: Seq<(ValueModel, u64)>,
    bits: usize,
)
    requires
        is_width(bits as int),
        forall|i: int| 0 <= i < values.len() ==> is_addend((#[trigger] values[i]).0, Some(bits)),
    ensures
        ({
            let sum = sum_value(bits, gather(values));
            &&& is_proper(m, context, state, sum)
            &&& sum.bits == Some(bits)
            &&& !(sum.kind is Not)
        }),
{
    let sum = gather(values);
    lemma_gather_terms(values, Some(bits));
    lemma_reduced_terms(sum.terms, bits, Some(bits));
    let terms = reduced_terms(sum.terms, bits);
    let constant = (sum.constant as int % modulus(bits as int)) as u64;
    if terms.len() == 0 {
        lemma_reduced_constant(constant, bits);
    } else {
        assert(is_term(terms[0].0, Some(bits)));
    }
}

proof fn lemma_reduced_constant(constant: u64, bits: usize)
    requires
        is_width(bits as int),
    ensures
        ({
            let value = constant_value(constant, bits);
            &&& value.kind == KindModel::Constant((constant as int % modulus(bits as int)) as u64)
            &&& (constant as int % modulus(bits as int)) as u64 == constant as int % modulus(
                bits as int,
            )
            &&& cut(constant as int % modulus(bits as int), Some(bits)) == constant as int
                % modulus(bits as int)
        }),
{
    lemma_mod_twice(constant as int, modulus(bits as int));
}

// ---------------------------------------------------------------------------
// Expressions and their values

/// Whether every bound variable stands for what it is bound to.
#[verifier::opaque]
pub open spec fn bindings_hold(
    m: Meaning,
    context: ContextModel,
    state: State,
    bindings: Map<VariableId, ValueModel>,
) -> bool {
    forall|v: VariableId| #[trigger]
        bindings.dom().contains(v) ==> {
            &&& is_flat(bindings[v])
            &&& is_proper(m, context, state, bindings[v])
            &&& bindings[v].bits == bits_of(context, IRExpr::Variable(v))
            &&& weight(m, context, state, bindings[v]) == cut(
                (state.variables)(v),
                bindings[v].bits,
            )
        }
}

proof fn lemma_cut_twice(value: int, bits: Option<usize>)
    ensures
        cut(cut(value, bits), bits) == cut(value, bits),
{
    if let Some(bits) = arithmetic_width(bits) {
        lemma_mod_twice(value, modulus(bits as int));
    }
}

proof fn lemma_cut_truth(value: int, bits: Option<usize>)
    requires
        is_truth(value),
    ensures
        cut(value, bits) == value,
{
    if let Some(bits) = arithmetic_width(bits) {
        lemma_small_mod(value as nat, modulus(bits as int) as nat);
    }
}

/// A literal that takes the width of the other operand stands for the same number
/// at that width.
proof fn lemma_adopted(
    m: Meaning,
    context: ContextModel,
    state: State,
    literal: IRExpr,
    value: ValueModel,
    other: Option<usize>,
)
    requires
        is_literal(literal),
        value == plain_value(context, literal),
    ensures
        ({
            let made = adopted(value, other);
            &&& made.bits == if arithmetic_width(other) is Some {
                other
            } else {
                value.bits
            }
            &&& made.kind is Constant
            &&& is_flat(made)
            &&& is_proper(m, context, state, made)
            &&& weight(m, context, state, made) == cut(
                evaluated(m, context, state, literal),
                made.bits,
            )
        }),
{
    let (constant, own): (u64, usize) = match literal {
        IRExpr::CU8(value) => (value as u64, 8),
        IRExpr::CU32(value) => (value as u64, 32),
        IRExpr::CU64(value) => (value, 64),
        _ => (0, 0),
    };
    lemma_reduced_constant(constant, own);
    lemma_small_mod(constant as nat, modulus(own as int) as nat);
    assert(value.kind == KindModel::Constant(constant));
    if let Some(bits) = arithmetic_width(other) {
        lemma_reduced_constant(constant, bits);
    }
}

/// What is to be shown of the value of an operation: that it stands for the result
/// of the operation on what its operands stand for.
pub open spec fn operation_holds(
    m: Meaning,
    context: ContextModel,
    state: State,
    kind: IRBinOpKind,
    left: ValueModel,
    right: ValueModel,
    made: ValueModel,
) -> bool {
    &&& made.bits == joint_width(kind, left.bits, right.bits)
    &&& is_proper(m, context, state, made)
    &&& !(made.kind is Not)
    &&& weight(m, context, state, made) == cut(
        applied(
            m,
            kind,
            weight(m, context, state, left),
            weight(m, context, state, right),
            left.bits,
            right.bits,
        ),
        made.bits,
    )
}

proof fn lemma_plain_operation(
    m: Meaning,
    context: ContextModel,
    state: State,
    kind: IRBinOpKind,
    left: ValueModel,
    right: ValueModel,
)
    requires
        is_proper(m, context, state, left),
        is_proper(m, context, state, right),
        kind == IRBinOpKind::Or || kind == IRBinOpKind::LogicalAnd ==> is_truth(
            weight(m, context, state, left),
        ) && is_truth(weight(m, context, state, right)),
    ensures
        operation_holds(
            m,
            context,
            state,
            kind,
            left,
            right,
            ValueModel {
                bits: joint_width(kind, left.bits, right.bits),
                kind: KindModel::Binary { kind, lhs: Box::new(left), rhs: Box::new(right) },
            },
        ),
{
}

/// A proper value at a width of arithmetic can be added to a sum.
proof fn lemma_addend(
    m: Meaning,
    context: ContextModel,
    state: State,
    value: ValueModel,
    bits: usize,
)
    requires
        is_width(bits as int),
        value.bits == Some(bits),
        is_proper(m, context, state, value),
    ensures
        is_addend(value, Some(bits)),
{
}

proof fn lemma_sum_operation(
    m: Meaning,
    context: ContextModel,
    state: State,
    expr: IRExpr,
    kind: IRBinOpKind,
    left: ValueModel,
    right: ValueModel,
    bits: usize,
)
    requires
        is_width(bits as int),
        is_repeatable(expr),
        is_flat(left),
        is_flat(right),
        left.bits == Some(bits),
        right.bits == Some(bits),
        is_proper(m, context, state, left),
        is_proper(m, context, state, right),
        kind == IRBinOpKind::Add || kind == IRBinOpKind::Sub,
    ensures
        operation_holds(
            m,
            context,
            state,
            kind,
            left,
            right,
            operation_value(expr, kind, left, right),
        ),
{
    let made = operation_value(expr, kind, left, right);
    let x = meant(m, context, state, left);
    let y = meant(m, context, state, right);
    let n = modulus(bits as int);
    law_operations_keep_their_value(
        expr,
        kind,
        left,
        right,
        bits,
        |v: ValueModel| meant(m, context, state, v),
    );
    lemma_number(m, context, state, left);
    lemma_number(m, context, state, right);
    lemma_number(m, context, state, made);
    lemma_add_mod_noop(x, y, n);
    lemma_sub_mod_noop(x, y, n);
    lemma_addend(m, context, state, left, bits);
    lemma_addend(m, context, state, right, bits);
    let values = if kind == IRBinOpKind::Add {
        seq![(left, 1u64), (right, 1u64)]
    } else {
        seq![(left, 1u64), (right, u64::MAX)]
    };
    assert(made == sum_value(bits, gather(values)));
    lemma_sum_is_proper(m, context, state, values, bits);
}

proof fn lemma_product_operation(
    m: Meaning,
    context: ContextModel,
    state: State,
    expr: IRExpr,
    left: ValueModel,
    right: ValueModel,
    bits: usize,
)
    requires
        is_width(bits as int),
        is_repeatable(expr),
        is_flat(left),
        is_flat(right),
        left.bits == Some(bits),
        right.bits == Some(bits),
        is_proper(m, context, state, left),
        is_proper(m, context, state, right),
        left.kind is Constant || right.kind is Constant,
    ensures
        operation_holds(
            m,
            context,
            state,
            IRBinOpKind::Mul,
            left,
            right,
            operation_value(expr, IRBinOpKind::Mul, left, right),
        ),
{
    let made = operation_value(expr, IRBinOpKind::Mul, left, right);
    let x = meant(m, context, state, left);
    let y = meant(m, context, state, right);
    law_operations_keep_their_value(
        expr,
        IRBinOpKind::Mul,
        left,
        right,
        bits,
        |v: ValueModel| meant(m, context, state, v),
    );
    lemma_number(m, context, state, left);
    lemma_number(m, context, state, right);
    lemma_number(m, context, state, made);
    lemma_mul_mod_noop(x, y, modulus(bits as int));
    lemma_addend(m, context, state, left, bits);
    lemma_addend(m, context, state, right, bits);
    let values = match (left.kind, right.kind) {
        (_, KindModel::Constant(factor)) => seq![(left, factor)],
        (KindModel::Constant(factor), _) => seq![(right, factor)],
        _ => Seq::empty(),
    };
    assert(made == sum_value(bits, gather(values)));
    lemma_sum_is_proper(m, context, state, values, bits);
}

proof fn lemma_shift_operation(
    m: Meaning,
    context: ContextModel,
    state: State,
    expr: IRExpr,
    left: ValueModel,
    right: ValueModel,
    bits: usize,
)
    requires
        is_width(bits as int),
        is_repeatable(expr),
        is_flat(left),
        is_flat(right),
        left.bits == Some(bits),
        is_proper(m, context, state, left),
        is_proper(m, context, state, right),
        right.kind is Constant,
        right.kind->Constant_0 < bits,
    ensures
        operation_holds(
            m,
            context,
            state,
            IRBinOpKind::Shl,
            left,
            right,
            operation_value(expr, IRBinOpKind::Shl, left, right),
        ),
{
    let made = operation_value(expr, IRBinOpKind::Shl, left, right);
    let shift = right.kind->Constant_0;
    let x = meant(m, context, state, left);
    law_operations_keep_their_value(
        expr,
        IRBinOpKind::Shl,
        left,
        right,
        bits,
        |v: ValueModel| meant(m, context, state, v),
    );
    lemma_number(m, context, state, left);
    lemma_number(m, context, state, right);
    lemma_number(m, context, state, made);
    assert(weight(m, context, state, right) == shift);
    vstd::arithmetic::div_mod::lemma_mul_mod_noop_left(
        x,
        pow2(shift as nat) as int,
        modulus(bits as int),
    );
    lemma_addend(m, context, state, left, bits);
    let values = seq![(left, pow2(shift as nat) as u64)];
    assert(made == sum_value(bits, gather(values)));
    lemma_sum_is_proper(m, context, state, values, bits);
}

proof fn lemma_operation(
    m: Meaning,
    context: ContextModel,
    state: State,
    expr: IRExpr,
    kind: IRBinOpKind,
    left: ValueModel,
    right: ValueModel,
)
    requires
        is_repeatable(expr),
        is_flat(left),
        is_flat(right),
        is_proper(m, context, state, left),
        is_proper(m, context, state, right),
        kind == IRBinOpKind::Or || kind == IRBinOpKind::LogicalAnd ==> is_truth(
            weight(m, context, state, left),
        ) && is_truth(weight(m, context, state, right)),
    ensures
        operation_holds(
            m,
            context,
            state,
            kind,
            left,
            right,
            operation_value(expr, kind, left, right),
        ),
{
    lemma_plain_operation(m, context, state, kind, left, right);
    match arithmetic_width(joint_width(kind, left.bits, right.bits)) {
        Some(bits) => match kind {
            IRBinOpKind::Add | IRBinOpKind::Sub => {
                lemma_sum_operation(m, context, state, expr, kind, left, right, bits);
            },
            IRBinOpKind::Mul => {
                if left.kind is Constant || right.kind is Constant {
                    lemma_product_operation(m, context, state, expr, left, right, bits);
                }
            },
            IRBinOpKind::Shl => {
                if right.kind is Constant && right.kind->Constant_0 < bits {
                    lemma_shift_operation(m, context, state, expr, left, right, bits);
                }
            },
            _ => {},
        },
        None => {},
    }
}

/// What is to be shown of the value of an expression: that it stands for what the
/// expression stands for, at its width.
#[verifier::opaque]
pub open spec fn stands_for(
    m: Meaning,
    context: ContextModel,
    state: State,
    value: ValueModel,
    expr: IRExpr,
) -> bool {
    &&& value.bits == bits_of(context, expr)
    &&& is_proper(m, context, state, value)
    &&& !(expr is Not) ==> !(value.kind is Not)
    &&& weight(m, context, state, value) == measured(m, context, state, expr)
}

proof fn lemma_operation_stands_for(
    m: Meaning,
    context: ContextModel,
    state: State,
    expr: IRExpr,
    left: ValueModel,
    right: ValueModel,
)
    requires
        expr is BinOp,
        is_logical(m, context, state, expr),
        is_flat(left),
        is_flat(right),
        stands_for(m, context, state, left, *expr->lhs),
        stands_for(m, context, state, right, *expr->rhs),
        is_literal(*expr->lhs) ==> left == plain_value(context, *expr->lhs),
        is_literal(*expr->rhs) ==> right == plain_value(context, *expr->rhs),
    ensures
        stands_for(
            m,
            context,
            state,
            if expr->BinOp_kind != IRBinOpKind::Shl && is_literal(*expr->lhs) {
                operation_value(expr, expr->BinOp_kind, adopted(left, right.bits), right)
            } else if expr->BinOp_kind != IRBinOpKind::Shl && is_literal(*expr->rhs) {
                operation_value(expr, expr->BinOp_kind, left, adopted(right, left.bits))
            } else {
                operation_value(expr, expr->BinOp_kind, left, right)
            },
            expr,
        ),
{
    reveal(stands_for);
    let kind = expr->BinOp_kind;
    let lhs = *expr->lhs;
    let rhs = *expr->rhs;
    let widths = operand_widths(kind, lhs, rhs, left.bits, right.bits);
    let first = if kind != IRBinOpKind::Shl && is_literal(lhs) {
        adopted(left, right.bits)
    } else {
        left
    };
    let second = if kind != IRBinOpKind::Shl && !is_literal(lhs) && is_literal(rhs) {
        adopted(right, left.bits)
    } else {
        right
    };
    if is_literal(lhs) {
        lemma_adopted(m, context, state, lhs, left, right.bits);
    }
    if is_literal(rhs) {
        lemma_adopted(m, context, state, rhs, right, left.bits);
    }
    assert(first.bits == widths.0 && second.bits == widths.1);
    assert(weight(m, context, state, first) == cut(evaluated(m, context, state, lhs), widths.0));
    assert(weight(m, context, state, second) == cut(evaluated(m, context, state, rhs), widths.1));
    assert(kind == IRBinOpKind::Or || kind == IRBinOpKind::LogicalAnd ==> is_truth(
        weight(m, context, state, first),
    ) && is_truth(weight(m, context, state, second))) by {
        if kind == IRBinOpKind::Or || kind == IRBinOpKind::LogicalAnd {
            if is_literal(lhs) {
                lemma_literal_truth(m, context, state, lhs, widths.0);
            }
            if is_literal(rhs) {
                lemma_literal_truth(m, context, state, rhs, widths.1);
            }
        }
    }
    if is_repeatable(expr) {
        lemma_operation(m, context, state, expr, kind, first, second);
    }
}

proof fn lemma_negation_stands_for(
    m: Meaning,
    context: ContextModel,
    state: State,
    expr: IRExpr,
    value: ValueModel,
)
    requires
        expr is Not,
        is_repeatable(expr),
        is_logical(m, context, state, expr),
        stands_for(m, context, state, value, *expr->Not_0),
        *expr->Not_0 is Not ==> negation(value).bits == bits_of(context, expr),
    ensures
        stands_for(m, context, state, negation(value), expr),
{
    reveal(stands_for);
    law_negation_is_the_opposite(m, context, state, value);
    lemma_cut_truth(evaluated(m, context, state, expr), negation(value).bits);
}

proof fn lemma_double_negation_width(
    m: Meaning,
    context: ContextModel,
    state: State,
    expr: IRExpr,
    value: ValueModel,
)
    requires
        expr is Not,
        *expr->Not_0 is Not,
        is_repeatable(expr),
        is_logical(m, context, state, expr),
        stands_for(m, context, state, value, *(*expr->Not_0)->Not_0),
    ensures
        negation(negation(value)).bits == bits_of(context, expr),
{
    reveal(stands_for);
    reveal_with_fuel(is_logical, 2);
    lemma_negated_twice(m, context, state, value);
}

proof fn lemma_atom_stands_for(m: Meaning, context: ContextModel, state: State, expr: IRExpr)
    requires
        !(expr is Not) || !is_repeatable(expr),
    ensures
        stands_for(m, context, state, atom(bits_of(context, expr), expr), expr),
{
    reveal(stands_for);
}

proof fn lemma_variable_stands_for(
    m: Meaning,
    context: ContextModel,
    state: State,
    variable: VariableId,
    bindings: Map<VariableId, ValueModel>,
)
    requires
        bindings_hold(m, context, state, bindings),
        bindings.dom().contains(variable),
    ensures
        stands_for(m, context, state, bindings[variable], IRExpr::Variable(variable)),
{
    reveal(stands_for);
    reveal(bindings_hold);
    assert(bindings[variable].bits != Some(1usize));
}

proof fn lemma_literal_stands_for(m: Meaning, context: ContextModel, state: State, expr: IRExpr)
    requires
        is_literal(expr),
    ensures
        stands_for(m, context, state, plain_value(context, expr), expr),
{
    reveal(stands_for);
    lemma_adopted(m, context, state, expr, plain_value(context, expr), None);
}

proof fn lemma_bound_is_flat(
    m: Meaning,
    context: ContextModel,
    state: State,
    expr: IRExpr,
    bindings: Map<VariableId, ValueModel>,
)
    requires
        bindings_hold(m, context, state, bindings),
    ensures
        is_flat(bound_value(context, expr, bindings)),
{
    reveal(bindings_hold);
    law_values_are_flat(context, expr, bindings);
}

proof fn lemma_bound_operation(
    m: Meaning,
    context: ContextModel,
    state: State,
    expr: IRExpr,
    bindings: Map<VariableId, ValueModel>,
)
    requires
        expr is BinOp,
        bindings_hold(m, context, state, bindings),
        is_logical(m, context, state, expr),
        stands_for(m, context, state, bound_value(context, *expr->lhs, bindings), *expr->lhs),
        stands_for(m, context, state, bound_value(context, *expr->rhs, bindings), *expr->rhs),
    ensures
        stands_for(m, context, state, bound_value(context, expr, bindings), expr),
{
    let left = bound_value(context, *expr->lhs, bindings);
    let right = bound_value(context, *expr->rhs, bindings);
    lemma_bound_is_flat(m, context, state, *expr->lhs, bindings);
    lemma_bound_is_flat(m, context, state, *expr->rhs, bindings);
    assert(is_literal(*expr->lhs) ==> left == plain_value(context, *expr->lhs));
    assert(is_literal(*expr->rhs) ==> right == plain_value(context, *expr->rhs));
    lemma_operation_stands_for(m, context, state, expr, left, right);
}

proof fn lemma_bound_negation(
    m: Meaning,
    context: ContextModel,
    state: State,
    expr: IRExpr,
    bindings: Map<VariableId, ValueModel>,
)
    requires
        expr is Not,
        is_logical(m, context, state, expr),
        stands_for(m, context, state, bound_value(context, *expr->Not_0, bindings), *expr->Not_0),
        *expr->Not_0 is Not ==> stands_for(
            m,
            context,
            state,
            bound_value(context, *(*expr->Not_0)->Not_0, bindings),
            *(*expr->Not_0)->Not_0,
        ),
    ensures
        stands_for(m, context, state, bound_value(context, expr, bindings), expr),
{
    if is_repeatable(expr) {
        let value = bound_value(context, *expr->Not_0, bindings);
        if *expr->Not_0 is Not {
            let under = bound_value(context, *(*expr->Not_0)->Not_0, bindings);
            assert(is_repeatable(*expr->Not_0));
            assert(value == negation(under));
            lemma_double_negation_width(m, context, state, expr, under);
        }
        lemma_negation_stands_for(m, context, state, expr, value);
    } else {
        lemma_atom_stands_for(m, context, state, expr);
    }
}

proof fn lemma_bound_leaf(
    m: Meaning,
    context: ContextModel,
    state: State,
    expr: IRExpr,
    bindings: Map<VariableId, ValueModel>,
)
    requires
        !(expr is BinOp),
        !(expr is Not),
        bindings_hold(m, context, state, bindings),
    ensures
        stands_for(m, context, state, bound_value(context, expr, bindings), expr),
{
    match expr {
        IRExpr::Variable(variable) => {
            if bindings.dom().contains(variable) {
                lemma_variable_stands_for(m, context, state, variable, bindings);
            } else {
                lemma_atom_stands_for(m, context, state, expr);
            }
        },
        IRExpr::CU8(_) | IRExpr::CU32(_) | IRExpr::CU64(_) => {
            lemma_literal_stands_for(m, context, state, expr);
        },
        _ => {
            lemma_atom_stands_for(m, context, state, expr);
        },
    }
}

/// The value of an expression stands for what the expression stands for, at its
/// width, where the bound variables stand for what they are bound to.
pub proof fn law_a_value_stands_for_its_expression(
    m: Meaning,
    context: ContextModel,
    state: State,
    expr: IRExpr,
    bindings: Map<VariableId, ValueModel>,
)
    requires
        bindings_hold(m, context, state, bindings),
        is_logical(m, context, state, expr),
    ensures
        stands_for(m, context, state, bound_value(context, expr, bindings), expr),
    decreases expr,
{
    if let IRExpr::BinOp { lhs, rhs, .. } = expr {
        law_a_value_stands_for_its_expression(m, context, state, *lhs, bindings);
        law_a_value_stands_for_its_expression(m, context, state, *rhs, bindings);
        lemma_bound_operation(m, context, state, expr, bindings);
    } else if let IRExpr::Not(inner) = expr {
        law_a_value_stands_for_its_expression(m, context, state, *inner, bindings);
        if let IRExpr::Not(twice) = *inner {
            reveal_with_fuel(is_logical, 2);
            law_a_value_stands_for_its_expression(m, context, state, *twice, bindings);
        }
        lemma_bound_negation(m, context, state, expr, bindings);
    } else {
        lemma_bound_leaf(m, context, state, expr, bindings);
    }
}

/// A literal that is a truth value is the same one at any width.
proof fn lemma_literal_truth(
    m: Meaning,
    context: ContextModel,
    state: State,
    literal: IRExpr,
    bits: Option<usize>,
)
    requires
        is_literal(literal),
        is_truth(measured(m, context, state, literal)),
    ensures
        is_truth(cut(evaluated(m, context, state, literal), bits)),
{
    let number = evaluated(m, context, state, literal);
    lemma_small_mod(
        number as nat,
        modulus(bits_of(context, literal)->0 as int) as nat,
    );
    lemma_cut_truth(number, bits);
}

// ---------------------------------------------------------------------------
// What is not read

/// Two states that differ at most in one variable.
pub open spec fn differ_in(a: State, b: State, variable: VariableId) -> bool {
    &&& a.memory == b.memory
    &&& forall|v: VariableId| v != variable ==> #[trigger] (a.variables)(v) == (b.variables)(v)
}

/// What an expression stands for does not depend on a variable that it does not
/// read.
pub proof fn law_an_expression_depends_on_what_it_reads(
    m: Meaning,
    context: ContextModel,
    a: State,
    b: State,
    expr: IRExpr,
    variable: VariableId,
)
    requires
        differ_in(a, b, variable),
        !expression_effects(expr).reads.contains(variable),
    ensures
        evaluated(m, context, a, expr) == evaluated(m, context, b, expr),
    decreases expr,
{
    match expr {
        IRExpr::BinOp { lhs, rhs, .. } => {
            law_an_expression_depends_on_what_it_reads(m, context, a, b, *lhs, variable);
            law_an_expression_depends_on_what_it_reads(m, context, a, b, *rhs, variable);
        },
        IRExpr::Deref(inner) | IRExpr::CStringLength(inner) | IRExpr::Not(inner) => {
            law_an_expression_depends_on_what_it_reads(m, context, a, b, *inner, variable);
        },
        IRExpr::MemoryAddress { address, .. } => {
            law_an_expression_depends_on_what_it_reads(m, context, a, b, *address, variable);
        },
        IRExpr::ElementAddress { base, index, .. } => {
            law_an_expression_depends_on_what_it_reads(m, context, a, b, *base, variable);
            law_an_expression_depends_on_what_it_reads(m, context, a, b, *index, variable);
        },
        IRExpr::Convert { value, .. } => {
            law_an_expression_depends_on_what_it_reads(m, context, a, b, *value, variable);
        },
        _ => {},
    }
}

/// What a value stands for does not depend on a variable that it does not read.
pub proof fn law_a_value_depends_on_what_it_reads(
    m: Meaning,
    context: ContextModel,
    a: State,
    b: State,
    value: ValueModel,
    variable: VariableId,
)
    requires
        differ_in(a, b, variable),
        !value_reads(value, variable),
    ensures
        meant(m, context, a, value) == meant(m, context, b, value),
        is_proper(m, context, a, value) == is_proper(m, context, b, value),
    decreases value,
{
    match value.kind {
        KindModel::Atom(expr) => {
            law_an_expression_depends_on_what_it_reads(m, context, a, b, expr, variable);
        },
        KindModel::Sum { terms, .. } => {
            lemma_terms_depend(m, context, a, b, terms, variable);
        },
        KindModel::Binary { lhs, rhs, .. } => {
            law_a_value_depends_on_what_it_reads(m, context, a, b, *lhs, variable);
            law_a_value_depends_on_what_it_reads(m, context, a, b, *rhs, variable);
        },
        KindModel::Not(inner) => {
            law_a_value_depends_on_what_it_reads(m, context, a, b, *inner, variable);
        },
        KindModel::Constant(_) => {},
    }
}

proof fn lemma_terms_depend(
    m: Meaning,
    context: ContextModel,
    a: State,
    b: State,
    terms: Seq<(ValueModel, u64)>,
    variable: VariableId,
)
    requires
        differ_in(a, b, variable),
        !any_term_reads(terms, variable),
    ensures
        meant_terms(m, context, a, terms) == meant_terms(m, context, b, terms),
    decreases terms,
{
    if terms.len() > 0 {
        lemma_terms_depend(m, context, a, b, terms.drop_last(), variable);
        law_a_value_depends_on_what_it_reads(
            m,
            context,
            a,
            b,
            terms[terms.len() - 1].0,
            variable,
        );
    }
}

} // verus!
