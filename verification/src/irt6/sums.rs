//! What normalized sums amount to: the sum of their parts, modulo two to the power
//! of the width.
use super::arithmetic::{
    add_term, add_terms, adopted, arithmetic_width, bound_value, constant_value, difference, gather,
    gather_one, is_width, modulus, negation, operation_value, reduced_terms, sum_value,
    value_order, ContextModel, Gathered, KindModel, ValueModel,
};
use super::effects::is_repeatable;
use super::ir::{IRBinOpKind, IRExpr, VariableId};
use vstd::arithmetic::div_mod::{
    lemma_add_mod_noop, lemma_mod_sub_multiples_vanish, lemma_mul_mod_noop, lemma_small_mod,
    lemma_sub_mod_noop,
};
use vstd::arithmetic::power2::pow2;
use vstd::prelude::*;

verus! {

/// The weighted sum of terms, given the numbers that they stand for.
pub open spec fn weighed(terms: Seq<(ValueModel, u64)>, atoms: spec_fn(ValueModel) -> int) -> int
    decreases terms.len(),
{
    if terms.len() == 0 {
        0
    } else {
        weighed(terms.drop_last(), atoms) + terms.last().1 * atoms(terms.last().0)
    }
}

/// The number that a value stands for, given those that its atoms stand for.
pub open spec fn number(value: ValueModel, atoms: spec_fn(ValueModel) -> int) -> int {
    match value.kind {
        KindModel::Constant(constant) => constant as int,
        KindModel::Sum { terms, constant } => weighed(terms, atoms) + constant,
        _ => atoms(value),
    }
}

/// The weighted sum of values.
pub open spec fn total(values: Seq<(ValueModel, u64)>, atoms: spec_fn(ValueModel) -> int) -> int
    decreases values.len(),
{
    if values.len() == 0 {
        0
    } else {
        total(values.drop_last(), atoms) + values.last().1 * number(values.last().0, atoms)
    }
}

/// Whether a value is neither a constant nor a sum.
pub open spec fn is_atomic(value: ValueModel) -> bool {
    !(value.kind is Constant) && !(value.kind is Sum)
}

/// Whether the terms of all sums within a value are atomic.
pub open spec fn is_flat(value: ValueModel) -> bool
    decreases value,
{
    match value.kind {
        KindModel::Constant(_) => true,
        KindModel::Atom(_) => true,
        KindModel::Sum { terms, .. } => are_flat(terms),
        KindModel::Binary { lhs, rhs, .. } => is_flat(*lhs) && is_flat(*rhs),
        KindModel::Not(inner) => is_flat(*inner),
    }
}

pub open spec fn are_flat(terms: Seq<(ValueModel, u64)>) -> bool
    decreases terms,
{
    forall|i: int|
        #![trigger terms[i]]
        0 <= i < terms.len() ==> is_atomic(terms[i].0) && is_flat(terms[i].0)
}

/// Whether two numbers are the same at a width.
pub open spec fn same_at(a: int, b: int, bits: usize) -> bool {
    a % modulus(bits as int) == b % modulus(bits as int)
}

proof fn lemma_same_sum(a: int, b: int, c: int, d: int, bits: usize)
    requires
        same_at(a, b, bits),
        same_at(c, d, bits),
    ensures
        same_at(a + c, b + d, bits),
{
    let m = modulus(bits as int);
    lemma_add_mod_noop(a, c, m);
    lemma_add_mod_noop(b, d, m);
}

proof fn lemma_same_product(a: int, b: int, c: int, bits: usize)
    requires
        same_at(a, b, bits),
    ensures
        same_at(a * c, b * c, bits),
{
    let m = modulus(bits as int);
    lemma_mul_mod_noop(a, c, m);
    lemma_mul_mod_noop(b, c, m);
}

proof fn lemma_wrapped(a: u64, b: u64, bits: usize)
    requires
        is_width(bits as int),
    ensures
        same_at(a.wrapping_add(b) as int, a + b, bits),
        same_at(a.wrapping_mul(b) as int, a * b, bits),
{
    let sum: int = a + b;
    let product: int = a * b;
    let wrapped: int = a.wrapping_mul(b) as int;
    assert(0 <= product) by (nonlinear_arith)
        requires
            product == a * b,
    ;
    assert(wrapped == product % 0x1_0000_0000_0000_0000);
    if bits == 8 {
        assert(wrapped % 0x100 == product % 0x100);
    } else if bits == 16 {
        assert(wrapped % 0x1_0000 == product % 0x1_0000);
    } else if bits == 32 {
        assert(wrapped % 0x1_0000_0000 == product % 0x1_0000_0000);
    }
}

proof fn lemma_weighed_push(
    terms: Seq<(ValueModel, u64)>,
    term: (ValueModel, u64),
    atoms: spec_fn(ValueModel) -> int,
)
    ensures
        weighed(terms.push(term), atoms) == weighed(terms, atoms) + term.1 * atoms(term.0),
{
    assert(terms.push(term).drop_last() =~= terms);
}

proof fn lemma_weighed_front(terms: Seq<(ValueModel, u64)>, atoms: spec_fn(ValueModel) -> int)
    requires
        terms.len() > 0,
    ensures
        weighed(terms, atoms) == terms[0].1 * atoms(terms[0].0) + weighed(
            terms.subrange(1, terms.len() as int),
            atoms,
        ),
    decreases terms.len(),
{
    let rest = terms.subrange(1, terms.len() as int);
    if terms.len() == 1 {
        assert(terms.drop_last() =~= Seq::empty());
        assert(rest =~= Seq::empty());
        assert(weighed(terms.drop_last(), atoms) == 0);
    } else {
        lemma_weighed_front(terms.drop_last(), atoms);
        assert(terms.drop_last().subrange(1, terms.len() - 1) =~= rest.drop_last());
        assert(rest.last() == terms.last());
    }
}

proof fn lemma_weighed_joined(
    first: (ValueModel, u64),
    rest: Seq<(ValueModel, u64)>,
    atoms: spec_fn(ValueModel) -> int,
)
    ensures
        weighed(seq![first] + rest, atoms) == first.1 * atoms(first.0) + weighed(rest, atoms),
{
    let all = seq![first] + rest;
    lemma_weighed_front(all, atoms);
    assert(all.subrange(1, all.len() as int) =~= rest);
}

proof fn lemma_add_term(
    terms: Seq<(ValueModel, u64)>,
    value: ValueModel,
    coefficient: u64,
    atoms: spec_fn(ValueModel) -> int,
    bits: usize,
)
    requires
        is_width(bits as int),
    ensures
        same_at(
            weighed(add_term(terms, value, coefficient), atoms),
            weighed(terms, atoms) + coefficient * atoms(value),
            bits,
        ),
        are_flat(terms) && is_atomic(value) && is_flat(value) ==> are_flat(
            add_term(terms, value, coefficient),
        ),
    decreases terms.len(),
{
    let made = add_term(terms, value, coefficient);
    if terms.len() == 0 {
        lemma_weighed_joined((value, coefficient), terms, atoms);
        assert(made =~= seq![(value, coefficient)] + terms);
    } else if terms[0].0 == value {
        let rest = terms.subrange(1, terms.len() as int);
        let own = terms[0].1;
        let both = own.wrapping_add(coefficient);
        lemma_weighed_front(terms, atoms);
        lemma_weighed_front(made, atoms);
        assert(made.subrange(1, made.len() as int) =~= rest);
        lemma_wrapped(own, coefficient, bits);
        lemma_same_product(both as int, own + coefficient, atoms(value), bits);
        assert((own + coefficient) * atoms(value) == own * atoms(value) + coefficient * atoms(
            value,
        )) by (nonlinear_arith);
        lemma_same_sum(
            both * atoms(value),
            own * atoms(value) + coefficient * atoms(value),
            weighed(rest, atoms),
            weighed(rest, atoms),
            bits,
        );
    } else if value_order(value, terms[0].0) < 0 {
        lemma_weighed_joined((value, coefficient), terms, atoms);
    } else {
        let rest = terms.subrange(1, terms.len() as int);
        let more = add_term(rest, value, coefficient);
        lemma_add_term(rest, value, coefficient, atoms, bits);
        lemma_weighed_front(terms, atoms);
        lemma_weighed_joined(terms[0], more, atoms);
        lemma_same_sum(
            terms[0].1 * atoms(terms[0].0),
            terms[0].1 * atoms(terms[0].0),
            weighed(more, atoms),
            weighed(rest, atoms) + coefficient * atoms(value),
            bits,
        );
        if are_flat(terms) && is_atomic(value) && is_flat(value) {
            assert forall|i: int| 0 <= i < rest.len() implies is_atomic(
                (#[trigger] rest[i]).0,
            ) && is_flat(rest[i].0) by {
                assert(rest[i] == terms[i + 1]);
            }
            assert forall|i: int| 0 <= i < made.len() implies is_atomic(
                (#[trigger] made[i]).0,
            ) && is_flat(made[i].0) by {
                if i > 0 {
                    assert(made[i] == more[i - 1]);
                }
            }
        }
    }
}

proof fn lemma_add_terms(
    terms: Seq<(ValueModel, u64)>,
    nested: Seq<(ValueModel, u64)>,
    coefficient: u64,
    atoms: spec_fn(ValueModel) -> int,
    bits: usize,
)
    requires
        is_width(bits as int),
    ensures
        same_at(
            weighed(add_terms(terms, nested, coefficient), atoms),
            weighed(terms, atoms) + coefficient * weighed(nested, atoms),
            bits,
        ),
        are_flat(terms) && are_flat(nested) ==> are_flat(
            add_terms(terms, nested, coefficient),
        ),
    decreases nested.len(),
{
    if nested.len() == 0 {
        assert(coefficient * weighed(nested, atoms) == 0) by (nonlinear_arith)
            requires
                weighed(nested, atoms) == 0,
        ;
    } else {
        let before = add_terms(terms, nested.drop_last(), coefficient);
        let own = nested.last().1;
        let x = atoms(nested.last().0);
        let scaled = own.wrapping_mul(coefficient);
        lemma_add_terms(terms, nested.drop_last(), coefficient, atoms, bits);
        lemma_add_term(before, nested.last().0, scaled, atoms, bits);
        lemma_wrapped(own, coefficient, bits);
        lemma_same_product(scaled as int, own * coefficient, x, bits);
        lemma_same_sum(
            weighed(before, atoms),
            weighed(terms, atoms) + coefficient * weighed(nested.drop_last(), atoms),
            scaled * x,
            (own * coefficient) * x,
            bits,
        );
        let inner = weighed(nested.drop_last(), atoms);
        assert(coefficient * inner + (own * coefficient) * x == coefficient * (inner + own * x))
            by (nonlinear_arith);
        if are_flat(terms) && are_flat(nested) {
            assert forall|i: int| 0 <= i < nested.drop_last().len() implies is_atomic(
                (#[trigger] nested.drop_last()[i]).0,
            ) && is_flat(
                nested.drop_last()[i].0,
            ) by {
                assert(nested.drop_last()[i] == nested[i]);
            }
            assert(is_atomic(nested[nested.len() - 1].0));
        }
    }
}

proof fn lemma_gather_one(
    sum: Gathered,
    value: ValueModel,
    coefficient: u64,
    atoms: spec_fn(ValueModel) -> int,
    bits: usize,
)
    requires
        is_width(bits as int),
        are_flat(sum.terms),
        is_flat(value),
    ensures
        ({
            let made = gather_one(sum, value, coefficient);
            &&& same_at(
                weighed(made.terms, atoms) + made.constant,
                weighed(sum.terms, atoms) + sum.constant + coefficient * number(value, atoms),
                bits,
            )
            &&& are_flat(made.terms)
        }),
{
    match value.kind {
        KindModel::Constant(constant) => {
            lemma_constant(sum.constant, constant, coefficient, bits);
            lemma_same_sum(
                weighed(sum.terms, atoms),
                weighed(sum.terms, atoms),
                sum.constant.wrapping_add(constant.wrapping_mul(coefficient)) as int,
                sum.constant + coefficient * constant,
                bits,
            );
        },
        KindModel::Sum { terms, constant } => {
            lemma_constant(sum.constant, constant, coefficient, bits);
            lemma_add_terms(sum.terms, terms, coefficient, atoms, bits);
            lemma_same_sum(
                weighed(add_terms(sum.terms, terms, coefficient), atoms),
                weighed(sum.terms, atoms) + coefficient * weighed(terms, atoms),
                sum.constant.wrapping_add(constant.wrapping_mul(coefficient)) as int,
                sum.constant + coefficient * constant,
                bits,
            );
            let inner = weighed(terms, atoms);
            assert(coefficient * inner + coefficient * constant == coefficient * (inner
                + constant)) by (nonlinear_arith);
        },
        _ => {
            lemma_add_term(sum.terms, value, coefficient, atoms, bits);
            lemma_same_sum(
                weighed(add_term(sum.terms, value, coefficient), atoms),
                weighed(sum.terms, atoms) + coefficient * atoms(value),
                sum.constant as int,
                sum.constant as int,
                bits,
            );
        },
    }
}

proof fn lemma_constant(own: u64, constant: u64, coefficient: u64, bits: usize)
    requires
        is_width(bits as int),
    ensures
        same_at(
            own.wrapping_add(constant.wrapping_mul(coefficient)) as int,
            own + coefficient * constant,
            bits,
        ),
{
    let product = constant.wrapping_mul(coefficient);
    lemma_wrapped(constant, coefficient, bits);
    lemma_wrapped(own, product, bits);
    lemma_same_sum(own as int, own as int, product as int, constant * coefficient, bits);
    assert(constant * coefficient == coefficient * constant) by (nonlinear_arith);
}

proof fn lemma_gather(
    values: Seq<(ValueModel, u64)>,
    atoms: spec_fn(ValueModel) -> int,
    bits: usize,
)
    requires
        is_width(bits as int),
        forall|i: int| 0 <= i < values.len() ==> is_flat((#[trigger] values[i]).0),
    ensures
        same_at(
            weighed(gather(values).terms, atoms) + gather(values).constant,
            total(values, atoms),
            bits,
        ),
        are_flat(gather(values).terms),
    decreases values.len(),
{
    if values.len() > 0 {
        let shorter = values.drop_last();
        assert forall|i: int| 0 <= i < shorter.len() implies is_flat((#[trigger] shorter[i]).0) by {
            assert(shorter[i] == values[i]);
        }
        assert(is_flat(values[values.len() - 1].0));
        lemma_gather(shorter, atoms, bits);
        let before = gather(shorter);
        let item = values.last();
        lemma_gather_one(before, item.0, item.1, atoms, bits);
        lemma_same_sum(
            weighed(before.terms, atoms) + before.constant,
            total(shorter, atoms),
            item.1 * number(item.0, atoms),
            item.1 * number(item.0, atoms),
            bits,
        );
    }
}

proof fn lemma_reduced(
    terms: Seq<(ValueModel, u64)>,
    atoms: spec_fn(ValueModel) -> int,
    bits: usize,
)
    requires
        is_width(bits as int),
    ensures
        same_at(weighed(reduced_terms(terms, bits), atoms), weighed(terms, atoms), bits),
        are_flat(terms) ==> are_flat(reduced_terms(terms, bits)),
    decreases terms.len(),
{
    if terms.len() > 0 {
        let rest = reduced_terms(terms.drop_last(), bits);
        let own = terms.last().1;
        let x = atoms(terms.last().0);
        let coefficient = (own as int % modulus(bits as int)) as u64;
        lemma_reduced(terms.drop_last(), atoms, bits);
        assert(same_at(coefficient as int, own as int, bits));
        lemma_same_product(coefficient as int, own as int, x, bits);
        lemma_same_sum(
            weighed(rest, atoms),
            weighed(terms.drop_last(), atoms),
            coefficient * x,
            own * x,
            bits,
        );
        if coefficient != 0 {
            lemma_weighed_push(rest, (terms.last().0, coefficient), atoms);
        } else {
            assert(coefficient * x == 0) by (nonlinear_arith)
                requires
                    coefficient == 0,
            ;
        }
        if are_flat(terms) {
            assert forall|i: int| 0 <= i < terms.drop_last().len() implies is_atomic(
                (#[trigger] terms.drop_last()[i]).0,
            ) && is_flat(
                terms.drop_last()[i].0,
            ) by {
                assert(terms.drop_last()[i] == terms[i]);
            }
            assert(is_atomic(terms[terms.len() - 1].0));
        }
    }
}

/// A normalized sum stands for the weighted sum of its parts, modulo two to the
/// power of the width, whatever its atoms stand for. Its terms are atomic again.
pub proof fn law_sums_keep_their_value(
    values: Seq<(ValueModel, u64)>,
    atoms: spec_fn(ValueModel) -> int,
    bits: usize,
)
    requires
        is_width(bits as int),
        forall|i: int| 0 <= i < values.len() ==> is_flat((#[trigger] values[i]).0),
    ensures
        same_at(number(sum_value(bits, gather(values)), atoms), total(values, atoms), bits),
        is_flat(sum_value(bits, gather(values))),
{
    let sum = gather(values);
    let constant = (sum.constant as int % modulus(bits as int)) as u64;
    let terms = reduced_terms(sum.terms, bits);
    lemma_gather(values, atoms, bits);
    lemma_reduced(sum.terms, atoms, bits);
    assert(same_at(constant as int, sum.constant as int, bits));
    lemma_same_sum(
        weighed(terms, atoms),
        weighed(sum.terms, atoms),
        constant as int,
        sum.constant as int,
        bits,
    );
    if terms.len() == 0 {
        assert(number(constant_value(constant, bits), atoms) == constant);
    } else if constant == 0 && terms.len() == 1 && terms[0].1 == 1 {
        assert(terms.drop_last() =~= Seq::empty());
        assert(weighed(terms.drop_last(), atoms) == 0);
        assert(is_atomic(terms[0].0));
        assert(weighed(terms, atoms) == atoms(terms[0].0)) by {
            assert(1 * atoms(terms[0].0) == atoms(terms[0].0));
        }
    }
}

/// Taking the negation of a flat value gives a flat value.
proof fn lemma_negation_is_flat(value: ValueModel)
    requires
        is_flat(value),
    ensures
        is_flat(negation(value)),
    decreases value,
{
    match value.kind {
        KindModel::Binary { lhs, rhs, .. } => {
            lemma_negation_is_flat(*lhs);
            lemma_negation_is_flat(*rhs);
        },
        _ => {},
    }
}

/// What sums of one or two values stand for.
proof fn lemma_small_sums(
    left: ValueModel,
    scale: u64,
    right: ValueModel,
    other: u64,
    atoms: spec_fn(ValueModel) -> int,
    bits: usize,
)
    requires
        is_width(bits as int),
        is_flat(left),
        is_flat(right),
    ensures
        same_at(
            number(sum_value(bits, gather(seq![(left, scale)])), atoms),
            scale * number(left, atoms),
            bits,
        ),
        is_flat(sum_value(bits, gather(seq![(left, scale)]))),
        same_at(
            number(sum_value(bits, gather(seq![(left, scale), (right, other)])), atoms),
            scale * number(left, atoms) + other * number(right, atoms),
            bits,
        ),
        is_flat(sum_value(bits, gather(seq![(left, scale), (right, other)]))),
{
    let one = seq![(left, scale)];
    let two = seq![(left, scale), (right, other)];
    law_sums_keep_their_value(one, atoms, bits);
    law_sums_keep_their_value(two, atoms, bits);
    assert(one.drop_last() =~= Seq::empty());
    assert(two.drop_last() =~= one);
    assert(total(one.drop_last(), atoms) == 0);
    assert(total(one, atoms) == scale * number(left, atoms));
    assert(total(two, atoms) == total(one, atoms) + other * number(right, atoms));
}

/// A coefficient of all ones counts a value negatively.
proof fn lemma_counted_negatively(x: int, y: int, bits: usize)
    requires
        is_width(bits as int),
    ensures
        same_at(1 * x + u64::MAX * y, x - y, bits),
{
    let m = modulus(bits as int);
    assert(same_at(u64::MAX as int, -1, bits)) by {
        assert(0xffff_ffff_ffff_ffffint % 0x100 == (-1int) % 0x100);
        assert(0xffff_ffff_ffff_ffffint % 0x1_0000 == (-1int) % 0x1_0000);
        assert(0xffff_ffff_ffff_ffffint % 0x1_0000_0000 == (-1int) % 0x1_0000_0000);
        assert(0xffff_ffff_ffff_ffffint % 0x1_0000_0000_0000_0000 == (-1int)
            % 0x1_0000_0000_0000_0000);
    }
    lemma_same_product(u64::MAX as int, -1, y, bits);
    lemma_same_sum(x, x, u64::MAX * y, -1 * y, bits);
    assert(-1 * y == -y);
    assert(1 * x == x);
}

/// The values of expressions are flat where those of the bound variables are.
pub proof fn law_values_are_flat(
    context: ContextModel,
    expr: IRExpr,
    bindings: Map<VariableId, ValueModel>,
)
    requires
        forall|v: VariableId| #[trigger]
            bindings.dom().contains(v) ==> is_flat(bindings[v]),
    ensures
        is_flat(bound_value(context, expr, bindings)),
    decreases expr,
{
    match expr {
        IRExpr::BinOp { kind, lhs, rhs } => {
            law_values_are_flat(context, *lhs, bindings);
            law_values_are_flat(context, *rhs, bindings);
            let left = bound_value(context, *lhs, bindings);
            let right = bound_value(context, *rhs, bindings);
            lemma_operation_is_flat(expr, kind, adopted(left, right.bits), right);
            lemma_operation_is_flat(expr, kind, left, adopted(right, left.bits));
            lemma_operation_is_flat(expr, kind, left, right);
        },
        IRExpr::Not(inner) => {
            law_values_are_flat(context, *inner, bindings);
            lemma_negation_is_flat(bound_value(context, *inner, bindings));
        },
        _ => {},
    }
}

proof fn lemma_operation_is_flat(
    expr: IRExpr,
    kind: IRBinOpKind,
    left: ValueModel,
    right: ValueModel,
)
    requires
        is_flat(left),
        is_flat(right),
    ensures
        is_flat(operation_value(expr, kind, left, right)),
{
    let atoms = |value: ValueModel| 0int;
    let bits = if kind == IRBinOpKind::Shl || left.bits == right.bits {
        left.bits
    } else {
        None
    };
    if let Some(bits) = arithmetic_width(bits) {
        lemma_small_sums(left, 1, right, 1, atoms, bits);
        lemma_small_sums(left, 1, right, u64::MAX, atoms, bits);
        if let KindModel::Constant(factor) = right.kind {
            lemma_small_sums(left, factor, right, 1, atoms, bits);
            lemma_small_sums(left, pow2(factor as nat) as u64, right, 1, atoms, bits);
        }
        if let KindModel::Constant(factor) = left.kind {
            lemma_small_sums(right, factor, right, 1, atoms, bits);
        }
    }
}

/// The value of an addition, a subtraction, a multiplication by a constant or a
/// shift by a constant stands for the sum, the difference, the product or the
/// product with the power of two of what its operands stand for, modulo two to the
/// power of the width, whatever the atoms stand for.
pub proof fn law_operations_keep_their_value(
    expr: IRExpr,
    kind: IRBinOpKind,
    left: ValueModel,
    right: ValueModel,
    bits: usize,
    atoms: spec_fn(ValueModel) -> int,
)
    requires
        is_width(bits as int),
        is_flat(left),
        is_flat(right),
        is_repeatable(expr),
        left.bits == Some(bits),
        kind != IRBinOpKind::Shl ==> right.bits == Some(bits),
    ensures
        ({
            let made = number(operation_value(expr, kind, left, right), atoms);
            let x = number(left, atoms);
            let y = number(right, atoms);
            &&& kind == IRBinOpKind::Add ==> same_at(made, x + y, bits)
            &&& kind == IRBinOpKind::Sub ==> same_at(made, x - y, bits)
            &&& kind == IRBinOpKind::Mul && (left.kind is Constant || right.kind is Constant)
                ==> same_at(made, x * y, bits)
            &&& kind == IRBinOpKind::Shl && right.kind is Constant && y < bits ==> same_at(
                made,
                x * pow2(y as nat),
                bits,
            )
        }),
{
    let x = number(left, atoms);
    let y = number(right, atoms);
    lemma_small_sums(left, 1, right, 1, atoms, bits);
    lemma_small_sums(left, 1, right, u64::MAX, atoms, bits);
    lemma_counted_negatively(x, y, bits);
    if let KindModel::Constant(factor) = right.kind {
        lemma_small_sums(left, factor, right, 1, atoms, bits);
        assert(factor * x == x * factor) by (nonlinear_arith);
        if kind == IRBinOpKind::Shl && factor < bits {
            vstd::arithmetic::power2::lemma_pow2_strictly_increases(factor as nat, 64);
            vstd::arithmetic::power2::lemma2_to64();
            let power = pow2(factor as nat) as u64;
            assert(power == pow2(factor as nat));
            lemma_small_sums(left, power, right, 1, atoms, bits);
            assert(power * x == x * power) by (nonlinear_arith);
        }
    }
    if let KindModel::Constant(factor) = left.kind {
        lemma_small_sums(right, factor, right, 1, atoms, bits);
    }
}

/// The difference of two values, where the first is at least the second, does not
/// wrap around: it stands for exactly as much as the first exceeds the second.
pub proof fn law_checked_differences_are_exact(
    left: ValueModel,
    right: ValueModel,
    bits: usize,
    atoms: spec_fn(ValueModel) -> int,
)
    requires
        is_width(bits as int),
        is_flat(left),
        is_flat(right),
        left.bits == Some(bits),
        right.bits == Some(bits),
        number(left, atoms) % modulus(bits as int) >= number(right, atoms) % modulus(bits as int),
    ensures
        difference(left, right) is Some,
        number(difference(left, right)->0, atoms) % modulus(bits as int) == number(left, atoms)
            % modulus(bits as int) - number(right, atoms) % modulus(bits as int),
{
    let m = modulus(bits as int);
    let x = number(left, atoms);
    let y = number(right, atoms);
    lemma_small_sums(left, 1, right, u64::MAX, atoms, bits);
    lemma_counted_negatively(x, y, bits);
    lemma_sub_mod_noop(x, y, m);
    lemma_small_mod((x % m - y % m) as nat, m as nat);
}

/// What a loop leaves of a value when it subtracts the stride for as long as the
/// value is at least the stride.
pub open spec fn left_over(value: nat, stride: nat) -> nat
    decreases value,
{
    if stride > 0 && value >= stride {
        left_over((value - stride) as nat, stride)
    } else {
        value
    }
}

/// Subtracting a stride that is not zero for as long as the value is at least the
/// stride leaves the remainder of the division by the stride.
pub proof fn law_repeated_subtraction_is_a_remainder(value: nat, stride: nat)
    requires
        stride > 0,
    ensures
        left_over(value, stride) == value % stride,
    decreases value,
{
    if value >= stride {
        law_repeated_subtraction_is_a_remainder((value - stride) as nat, stride);
        lemma_mod_sub_multiples_vanish(value as int, stride as int);
    } else {
        lemma_small_mod(value, stride);
    }
}

/// The coefficients and the constant of a normalized sum are reduced modulo two to
/// the power of the width, and no coefficient is zero.
pub proof fn law_sums_are_reduced(values: Seq<(ValueModel, u64)>, bits: usize)
    requires
        is_width(bits as int),
        forall|i: int| 0 <= i < values.len() ==> is_flat((#[trigger] values[i]).0),
    ensures
        match sum_value(bits, gather(values)).kind {
            KindModel::Constant(constant) => constant < modulus(bits as int),
            KindModel::Sum { terms, constant } => {
                &&& constant < modulus(bits as int)
                &&& terms.len() > 0
                &&& forall|i: int|
                    0 <= i < terms.len() ==> 0 < (#[trigger] terms[i]).1 < modulus(bits as int)
            },
            _ => true,
        },
{
    let atoms = |value: ValueModel| 0int;
    let sum = gather(values);
    lemma_gather(values, atoms, bits);
    lemma_reduced(sum.terms, atoms, bits);
    lemma_coefficients(sum.terms, bits);
    assert(reduced_terms(sum.terms, bits).len() > 0 ==> is_atomic(
        reduced_terms(sum.terms, bits)[0].0,
    ));
}

proof fn lemma_coefficients(terms: Seq<(ValueModel, u64)>, bits: usize)
    requires
        is_width(bits as int),
    ensures
        forall|i: int|
            0 <= i < reduced_terms(terms, bits).len() ==> 0 < (#[trigger] reduced_terms(
                terms,
                bits,
            )[i]).1 < modulus(bits as int),
    decreases terms.len(),
{
    if terms.len() > 0 {
        lemma_coefficients(terms.drop_last(), bits);
        let rest = reduced_terms(terms.drop_last(), bits);
        let coefficient = (terms.last().1 as int % modulus(bits as int)) as u64;
        assert(coefficient < modulus(bits as int));
        assert forall|i: int| 0 <= i < reduced_terms(terms, bits).len() implies 0 < (
        #[trigger] reduced_terms(terms, bits)[i]).1 < modulus(bits as int) by {
            if i < rest.len() {
                assert(reduced_terms(terms, bits)[i] == rest[i]);
            }
        }
    }
}

} // verus!
