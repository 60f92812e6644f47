//! What is subtracted from itself leaves nothing.
use super::arithmetic::{
    add_term, add_terms, adopted, arithmetic_width, atom, bound_value, constant_value, gather,
    gather_one, is_literal, is_width, modulus, operation_value, reduced_terms, sum_value,
    value_order, ContextModel, Gathered, KindModel, ValueModel,
};
use super::effects::{expression_effects, is_repeatable};
use super::ir::{IRBinOpKind, IRExpr, VariableId};
use super::total_order::{law_value_order_is_transitive, law_values_are_ordered};
use vstd::prelude::*;

verus! {

/// Whether terms are in order, each value once.
pub open spec fn is_sorted(terms: Seq<(ValueModel, u64)>) -> bool {
    forall|i: int, j: int|
        0 <= i < j < terms.len() ==> #[trigger] value_order(terms[i].0, terms[j].0) < 0
}

/// The coefficient of a value among terms, which is zero where there is none.
pub open spec fn coefficient_of(terms: Seq<(ValueModel, u64)>, value: ValueModel) -> u64
    decreases terms.len(),
{
    if terms.len() == 0 {
        0
    } else if terms[0].0 == value {
        terms[0].1
    } else {
        coefficient_of(terms.subrange(1, terms.len() as int), value)
    }
}

/// All that terms, in any order, count a value.
pub open spec fn count_of(terms: Seq<(ValueModel, u64)>, value: ValueModel) -> int
    decreases terms.len(),
{
    if terms.len() == 0 {
        0
    } else {
        count_of(terms.drop_last(), value) + if terms.last().0 == value {
            terms.last().1 as int
        } else {
            0
        }
    }
}

proof fn lemma_absent(terms: Seq<(ValueModel, u64)>, value: ValueModel)
    requires
        forall|i: int| 0 <= i < terms.len() ==> (#[trigger] terms[i]).0 != value,
    ensures
        coefficient_of(terms, value) == 0,
    decreases terms.len(),
{
    if terms.len() > 0 {
        let rest = terms.subrange(1, terms.len() as int);
        assert forall|i: int| 0 <= i < rest.len() implies (#[trigger] rest[i]).0 != value by {
            assert(rest[i] == terms[i + 1]);
        }
        assert(terms[0].0 != value);
        lemma_absent(rest, value);
    }
}

proof fn lemma_sorted_rest(terms: Seq<(ValueModel, u64)>)
    requires
        is_sorted(terms),
        terms.len() > 0,
    ensures
        is_sorted(terms.subrange(1, terms.len() as int)),
{
    let rest = terms.subrange(1, terms.len() as int);
    assert forall|i: int, j: int| 0 <= i < j < rest.len() implies #[trigger] value_order(
        rest[i].0,
        rest[j].0,
    ) < 0 by {
        assert(value_order(terms[i + 1].0, terms[j + 1].0) < 0);
    }
}

proof fn lemma_joined(first: (ValueModel, u64), rest: Seq<(ValueModel, u64)>)
    requires
        is_sorted(rest),
        forall|i: int| 0 <= i < rest.len() ==> value_order(first.0, (#[trigger] rest[i]).0) < 0,
    ensures
        is_sorted(seq![first] + rest),
        forall|value: ValueModel| #[trigger]
            coefficient_of(seq![first] + rest, value) == if value == first.0 {
                first.1
            } else {
                coefficient_of(rest, value)
            },
{
    let all = seq![first] + rest;
    assert forall|i: int, j: int| 0 <= i < j < all.len() implies #[trigger] value_order(
        all[i].0,
        all[j].0,
    ) < 0 by {
        if i == 0 {
            assert(all[j] == rest[j - 1]);
        } else {
            assert(value_order(rest[i - 1].0, rest[j - 1].0) < 0);
        }
    }
    assert(all.subrange(1, all.len() as int) =~= rest);
}

proof fn lemma_add_term(terms: Seq<(ValueModel, u64)>, value: ValueModel, coefficient: u64)
    requires
        is_sorted(terms),
    ensures
        ({
            let made = add_term(terms, value, coefficient);
            &&& is_sorted(made)
            &&& forall|i: int|
                0 <= i < made.len() ==> (#[trigger] made[i]).0 == value || exists|k: int|
                    0 <= k < terms.len() && (#[trigger] terms[k]).0 == made[i].0
            &&& forall|other: ValueModel| #[trigger]
                coefficient_of(made, other) == if other == value {
                    coefficient_of(terms, value).wrapping_add(coefficient)
                } else {
                    coefficient_of(terms, other)
                }
        }),
    decreases terms.len(),
{
    let made = add_term(terms, value, coefficient);
    if terms.len() == 0 {
        lemma_joined((value, coefficient), terms);
        assert(made =~= seq![(value, coefficient)] + terms);
    } else {
        let rest = terms.subrange(1, terms.len() as int);
        lemma_sorted_rest(terms);
        assert forall|i: int| 0 <= i < rest.len() implies value_order(
            terms[0].0,
            (#[trigger] rest[i]).0,
        ) < 0 by {
            assert(rest[i] == terms[i + 1]);
            assert(value_order(terms[0].0, terms[i + 1].0) < 0);
        }
        law_values_are_ordered(value, terms[0].0);
        lemma_joined(terms[0], rest);
        assert(terms =~= seq![terms[0]] + rest);
        if terms[0].0 == value {
            let first = (value, terms[0].1.wrapping_add(coefficient));
            lemma_joined(first, rest);
            assert(made =~= seq![first] + rest);
            assert forall|i: int| 0 <= i < made.len() implies (#[trigger] made[i]).0 == value
                || exists|k: int| 0 <= k < terms.len() && (#[trigger] terms[k]).0 == made[i].0 by {
                assert(terms[i].0 == made[i].0);
            }
        } else if value_order(value, terms[0].0) < 0 {
            assert forall|i: int| 0 <= i < terms.len() implies value_order(
                value,
                (#[trigger] terms[i]).0,
            ) < 0 by {
                if i > 0 {
                    assert(value_order(terms[0].0, terms[i].0) < 0);
                    law_value_order_is_transitive(value, terms[0].0, terms[i].0);
                }
            }
            assert forall|i: int| 0 <= i < terms.len() implies (#[trigger] terms[i]).0 != value by {
                law_values_are_ordered(value, terms[i].0);
                assert(value_order(value, terms[i].0) < 0);
            }
            lemma_absent(terms, value);
            lemma_joined((value, coefficient), terms);
            assert forall|i: int| 0 <= i < made.len() implies (#[trigger] made[i]).0 == value
                || exists|k: int| 0 <= k < terms.len() && (#[trigger] terms[k]).0 == made[i].0 by {
                if i > 0 {
                    assert(terms[i - 1].0 == made[i].0);
                }
            }
        } else {
            let more = add_term(rest, value, coefficient);
            lemma_add_term(rest, value, coefficient);
            assert forall|i: int| 0 <= i < more.len() implies value_order(
                terms[0].0,
                (#[trigger] more[i]).0,
            ) < 0 by {
                if more[i].0 != value {
                    let k = choose|k: int|
                        0 <= k < rest.len() && (#[trigger] rest[k]).0 == more[i].0;
                    assert(value_order(terms[0].0, rest[k].0) < 0);
                }
            }
            lemma_joined(terms[0], more);
            assert(made =~= seq![terms[0]] + more);
            assert forall|i: int| 0 <= i < made.len() implies (#[trigger] made[i]).0 == value
                || exists|k: int| 0 <= k < terms.len() && (#[trigger] terms[k]).0 == made[i].0 by {
                if i == 0 {
                    assert(terms[0].0 == made[i].0);
                } else if more[i - 1].0 != value {
                    let k = choose|k: int|
                        0 <= k < rest.len() && (#[trigger] rest[k]).0 == more[i - 1].0;
                    assert(terms[k + 1].0 == made[i].0);
                }
            }
        }
    }
}

/// Two to the power of 64.
pub open spec fn whole() -> int {
    0x1_0000_0000_0000_0000
}

proof fn lemma_step(own: int, before: int, factor: int, count: int, last: int, made: int)
    requires
        own % whole() == (before + factor * count) % whole(),
        made % whole() == (own + factor * last) % whole(),
    ensures
        made % whole() == (before + factor * (count + last)) % whole(),
{
    assert(factor * (count + last) == factor * count + factor * last) by (nonlinear_arith);
    let rest = factor * last;
    let start = before + factor * count;
    assert((own + rest) % whole() == (start + rest) % whole()) by {
        vstd::arithmetic::div_mod::lemma_add_mod_noop(own, rest, whole());
        vstd::arithmetic::div_mod::lemma_add_mod_noop(start, rest, whole());
    }
}

proof fn lemma_add_terms(
    terms: Seq<(ValueModel, u64)>,
    nested: Seq<(ValueModel, u64)>,
    factor: u64,
)
    requires
        is_sorted(terms),
    ensures
        is_sorted(add_terms(terms, nested, factor)),
        forall|value: ValueModel|
            (#[trigger] coefficient_of(add_terms(terms, nested, factor), value)) as int % whole()
                == (coefficient_of(terms, value) + factor * count_of(nested, value)) % whole(),
    decreases nested.len(),
{
    if nested.len() == 0 {
        assert forall|value: ValueModel|
            (#[trigger] coefficient_of(add_terms(terms, nested, factor), value)) as int % whole()
                == (coefficient_of(terms, value) + factor * count_of(nested, value)) % whole() by {
            assert(factor * count_of(nested, value) == 0) by (nonlinear_arith)
                requires
                    count_of(nested, value) == 0,
            ;
        }
    } else {
        let before = add_terms(terms, nested.drop_last(), factor);
        let (last, own) = nested.last();
        let scaled = own.wrapping_mul(factor);
        lemma_add_terms(terms, nested.drop_last(), factor);
        lemma_add_term(before, last, scaled);
        let made = add_terms(terms, nested, factor);
        assert forall|value: ValueModel|
            (#[trigger] coefficient_of(made, value)) as int % whole() == (coefficient_of(
                terms,
                value,
            ) + factor * count_of(nested, value)) % whole() by {
            let held = coefficient_of(before, value);
            let counted: int = if last == value {
                own as int
            } else {
                0
            };
            assert(factor * own == own * factor) by (nonlinear_arith);
            assert(factor * counted == if last == value {
                own * factor
            } else {
                0
            }) by {
                assert(factor * 0 == 0);
            }
            assert(0 <= own * factor) by (nonlinear_arith);
            assert(coefficient_of(made, value) as int % whole() == (held + factor * counted)
                % whole()) by {
                if last == value {
                    assert(scaled as int == (own * factor) % whole());
                    vstd::arithmetic::div_mod::lemma_add_mod_noop(
                        held as int,
                        own * factor,
                        whole(),
                    );
                    vstd::arithmetic::div_mod::lemma_add_mod_noop(
                        held as int,
                        scaled as int,
                        whole(),
                    );
                    assert(scaled as int % whole() == (own * factor) % whole());
                    assert(held.wrapping_add(scaled) as int == (held + scaled) % whole());
                }
            }
            lemma_step(
                held as int,
                coefficient_of(terms, value) as int,
                factor as int,
                count_of(nested.drop_last(), value),
                counted,
                coefficient_of(made, value) as int,
            );
        }
    }
}

proof fn lemma_held(terms: Seq<(ValueModel, u64)>, at: int)
    requires
        is_sorted(terms),
        0 <= at < terms.len(),
    ensures
        coefficient_of(terms, terms[at].0) == terms[at].1,
    decreases terms.len(),
{
    if at > 0 {
        let rest = terms.subrange(1, terms.len() as int);
        assert(value_order(terms[0].0, terms[at].0) < 0);
        law_values_are_ordered(terms[0].0, terms[at].0);
        lemma_sorted_rest(terms);
        assert(rest[at - 1] == terms[at]);
        lemma_held(rest, at - 1);
    }
}

proof fn lemma_nothing_left(terms: Seq<(ValueModel, u64)>, bits: usize)
    requires
        is_width(bits as int),
        forall|i: int| 0 <= i < terms.len() ==> (#[trigger] terms[i]).1 == 0,
    ensures
        reduced_terms(terms, bits).len() == 0,
    decreases terms.len(),
{
    if terms.len() > 0 {
        let shorter = terms.drop_last();
        assert forall|i: int| 0 <= i < shorter.len() implies (#[trigger] shorter[i]).1 == 0 by {
            assert(shorter[i] == terms[i]);
        }
        assert(terms[terms.len() - 1].1 == 0);
        lemma_nothing_left(shorter, bits);
    }
}

proof fn lemma_constants_cancel(constant: u64)
    ensures
        0u64.wrapping_add(constant.wrapping_mul(1)).wrapping_add(
            constant.wrapping_mul(u64::MAX),
        ) == 0,
{
    assert(constant.wrapping_mul(1) == constant);
    let product: int = constant as int * u64::MAX as int;
    assert(product == constant * 0x1_0000_0000_0000_0000 - constant);
}

/// The difference of a value and itself is zero.
pub proof fn law_values_cancel(value: ValueModel, bits: usize)
    requires
        is_width(bits as int),
    ensures
        sum_value(bits, gather(seq![(value, 1u64), (value, u64::MAX)])) == constant_value(0, bits),
{
    let none = Seq::<(ValueModel, u64)>::empty();
    let one = seq![(value, 1u64)];
    let two = seq![(value, 1u64), (value, u64::MAX)];
    assert(two.drop_last() =~= one);
    assert(one.drop_last() =~= Seq::empty());
    let empty = Gathered { terms: Seq::empty(), constant: 0 };
    assert(gather(one.drop_last()) == empty);
    let first = gather_one(empty, value, 1);
    let second = gather_one(first, value, u64::MAX);
    assert(gather(one) == first);
    assert(gather(two) == second);
    match value.kind {
        KindModel::Constant(constant) => {
            lemma_constants_cancel(constant);
            lemma_nothing_left(second.terms, bits);
        },
        KindModel::Sum { terms, constant } => {
            lemma_constants_cancel(constant);
            lemma_add_terms(none, terms, 1);
            lemma_add_terms(first.terms, terms, u64::MAX);
            assert forall|i: int| 0 <= i < second.terms.len() implies (
            #[trigger] second.terms[i]).1 == 0 by {
                let key = second.terms[i].0;
                let count = count_of(terms, key);
                lemma_held(second.terms, i);
                assert(coefficient_of(none, key) == 0);
                let held = coefficient_of(first.terms, key) as int;
                assert(held % whole() == (0 + 1 * count) % whole());
                assert(1 * count == count);
                let made = coefficient_of(second.terms, key) as int;
                assert(made % whole() == (held + u64::MAX * count) % whole());
                assert(u64::MAX * count == whole() * count - count);
                assert((held + (whole() * count - count)) % whole() == 0) by {
                    vstd::arithmetic::div_mod::lemma_sub_mod_noop(held, count, whole());
                    vstd::arithmetic::div_mod::lemma_mod_multiples_vanish(
                        count,
                        held - count,
                        whole(),
                    );
                }
            }
            lemma_nothing_left(second.terms, bits);
        },
        _ => {
            assert(first.terms =~= seq![(value, 1u64)]);
            assert(second.terms =~= seq![(value, 0u64)]);
            lemma_nothing_left(second.terms, bits);
        },
    }
}

proof fn lemma_repeatable_twice(expr: IRExpr)
    ensures
        is_repeatable(
            IRExpr::BinOp { kind: IRBinOpKind::Sub, lhs: Box::new(expr), rhs: Box::new(expr) },
        ) == is_repeatable(expr),
{
    let twice = IRExpr::BinOp {
        kind: IRBinOpKind::Sub,
        lhs: Box::new(expr),
        rhs: Box::new(expr),
    };
    let own = expression_effects(expr);
    let both = expression_effects(twice);
    assert(both.memory_read == own.memory_read);
    assert(both.may_trap == own.may_trap);
}

proof fn lemma_constant_kept(constant: u64, bits: usize)
    requires
        is_width(bits as int),
    ensures
        ({
            let value = constant_value(constant, bits);
            adopted(value, value.bits) == value
        }),
{
    let whole = modulus(bits as int);
    let kept: int = constant as int % whole;
    assert(0 <= kept < whole <= 0x1_0000_0000_0000_0000) by {
        vstd::arithmetic::div_mod::lemma_mod_bound(constant as int, whole);
    }
    vstd::arithmetic::div_mod::lemma_small_mod(kept as nat, whole as nat);
    assert((kept as u64) as int == kept);
    assert(arithmetic_width(Some(bits)) == Some(bits));
}

proof fn lemma_literal_kept(
    context: ContextModel,
    expr: IRExpr,
    bindings: Map<VariableId, ValueModel>,
)
    requires
        is_literal(expr),
    ensures
        ({
            let value = bound_value(context, expr, bindings);
            adopted(value, value.bits) == value
        }),
{
    match expr {
        IRExpr::CU8(constant) => lemma_constant_kept(constant as u64, 8),
        IRExpr::CU32(constant) => lemma_constant_kept(constant as u64, 32),
        IRExpr::CU64(constant) => lemma_constant_kept(constant, 64),
        _ => {},
    }
}

proof fn lemma_bound_twice(
    context: ContextModel,
    expr: IRExpr,
    bindings: Map<VariableId, ValueModel>,
)
    ensures
        ({
            let twice = IRExpr::BinOp {
                kind: IRBinOpKind::Sub,
                lhs: Box::new(expr),
                rhs: Box::new(expr),
            };
            let value = bound_value(context, expr, bindings);
            bound_value(context, twice, bindings) == operation_value(
                twice,
                IRBinOpKind::Sub,
                value,
                value,
            )
        }),
{
    let twice = IRExpr::BinOp {
        kind: IRBinOpKind::Sub,
        lhs: Box::new(expr),
        rhs: Box::new(expr),
    };
    let value = bound_value(context, expr, bindings);
    let made = bound_value(context, twice, bindings);
    if is_literal(expr) {
        lemma_literal_kept(context, expr, bindings);
        assert(made == operation_value(
            twice,
            IRBinOpKind::Sub,
            adopted(value, value.bits),
            value,
        ));
    }
}

proof fn lemma_operation_twice(expr: IRExpr, value: ValueModel, bits: usize)
    requires
        is_width(bits as int),
        value.bits == Some(bits),
    ensures
        operation_value(expr, IRBinOpKind::Sub, value, value) == if is_repeatable(expr) {
            constant_value(0, bits)
        } else {
            atom(Some(bits), expr)
        },
{
    law_values_cancel(value, bits);
    assert(arithmetic_width(Some(bits)) == Some(bits));
}

/// An expression of a width at which sums are formed, subtracted from itself, is the
/// constant zero of that width. One that reads memory or can trap is not folded: the
/// subtraction stays as it is, an atom of that width.
pub proof fn law_an_expression_minus_itself(
    context: ContextModel,
    expr: IRExpr,
    bindings: Map<VariableId, ValueModel>,
    bits: usize,
)
    requires
        is_width(bits as int),
        bound_value(context, expr, bindings).bits == Some(bits),
    ensures
        ({
            let twice = IRExpr::BinOp {
                kind: IRBinOpKind::Sub,
                lhs: Box::new(expr),
                rhs: Box::new(expr),
            };
            let made = bound_value(context, twice, bindings);
            if is_repeatable(expr) {
                made == (ValueModel { bits: Some(bits), kind: KindModel::Constant(0) })
            } else {
                made == atom(Some(bits), twice)
            }
        }),
{
    let twice = IRExpr::BinOp {
        kind: IRBinOpKind::Sub,
        lhs: Box::new(expr),
        rhs: Box::new(expr),
    };
    lemma_repeatable_twice(expr);
    lemma_bound_twice(context, expr, bindings);
    lemma_operation_twice(twice, bound_value(context, expr, bindings), bits);
}

} // verus!
