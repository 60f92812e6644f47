//! The orders of expressions and of values are total.
use super::arithmetic::{terms_order, value_order, KindModel, ValueModel};
use super::ir::IRExpr;
use super::order::expression_order;
use vstd::prelude::*;

verus! {

/// Whether the orders of a first and a second, of the second and a third, and of the
/// first and the third agree with each other.
pub open spec fn is_transitive(first: int, second: int, both: int) -> bool {
    first <= 0 && second <= 0 ==> if first == 0 && second == 0 {
        both == 0
    } else {
        both < 0
    }
}

/// Two expressions are in the order opposite to that of the second and the first, and
/// only equal ones are in neither.
pub proof fn law_expressions_are_ordered(a: IRExpr, b: IRExpr)
    ensures
        -1 <= expression_order(a, b) <= 1,
        expression_order(b, a) == -expression_order(a, b),
        expression_order(a, b) == 0 <==> a == b,
    decreases a,
{
    match (a, b) {
        (IRExpr::BinOp { lhs, rhs, .. }, IRExpr::BinOp { lhs: lhs2, rhs: rhs2, .. }) => {
            law_expressions_are_ordered(*lhs, *lhs2);
            law_expressions_are_ordered(*rhs, *rhs2);
        },
        (IRExpr::Deref(x), IRExpr::Deref(y)) => law_expressions_are_ordered(*x, *y),
        (IRExpr::CStringLength(x), IRExpr::CStringLength(y)) => {
            law_expressions_are_ordered(*x, *y);
        },
        (
            IRExpr::MemoryAddress { address, .. },
            IRExpr::MemoryAddress { address: address2, .. },
        ) => law_expressions_are_ordered(*address, *address2),
        (
            IRExpr::ElementAddress { base, index, .. },
            IRExpr::ElementAddress { base: base2, index: index2, .. },
        ) => {
            law_expressions_are_ordered(*base, *base2);
            law_expressions_are_ordered(*index, *index2);
        },
        (IRExpr::Convert { value, .. }, IRExpr::Convert { value: value2, .. }) => {
            law_expressions_are_ordered(*value, *value2);
        },
        (IRExpr::Not(x), IRExpr::Not(y)) => law_expressions_are_ordered(*x, *y),
        _ => {},
    }
}

/// The order of expressions is transitive.
pub proof fn law_expression_order_is_transitive(a: IRExpr, b: IRExpr, c: IRExpr)
    ensures
        is_transitive(expression_order(a, b), expression_order(b, c), expression_order(a, c)),
    decreases a,
{
    match (a, b, c) {
        (
            IRExpr::BinOp { lhs, rhs, .. },
            IRExpr::BinOp { lhs: lhs2, rhs: rhs2, .. },
            IRExpr::BinOp { lhs: lhs3, rhs: rhs3, .. },
        ) => {
            law_expression_order_is_transitive(*lhs, *lhs2, *lhs3);
            law_expression_order_is_transitive(*rhs, *rhs2, *rhs3);
        },
        (IRExpr::Deref(x), IRExpr::Deref(y), IRExpr::Deref(z)) => {
            law_expression_order_is_transitive(*x, *y, *z);
        },
        (IRExpr::CStringLength(x), IRExpr::CStringLength(y), IRExpr::CStringLength(z)) => {
            law_expression_order_is_transitive(*x, *y, *z);
        },
        (
            IRExpr::MemoryAddress { address: x, .. },
            IRExpr::MemoryAddress { address: y, .. },
            IRExpr::MemoryAddress { address: z, .. },
        ) => law_expression_order_is_transitive(*x, *y, *z),
        (
            IRExpr::ElementAddress { base, index, .. },
            IRExpr::ElementAddress { base: base2, index: index2, .. },
            IRExpr::ElementAddress { base: base3, index: index3, .. },
        ) => {
            law_expression_order_is_transitive(*base, *base2, *base3);
            law_expression_order_is_transitive(*index, *index2, *index3);
        },
        (
            IRExpr::Convert { value: x, .. },
            IRExpr::Convert { value: y, .. },
            IRExpr::Convert { value: z, .. },
        ) => law_expression_order_is_transitive(*x, *y, *z),
        (IRExpr::Not(x), IRExpr::Not(y), IRExpr::Not(z)) => {
            law_expression_order_is_transitive(*x, *y, *z);
        },
        _ => {},
    }
}

/// Two values are in the order opposite to that of the second and the first, and only
/// equal ones are in neither.
pub proof fn law_values_are_ordered(a: ValueModel, b: ValueModel)
    ensures
        -1 <= value_order(a, b) <= 1,
        value_order(b, a) == -value_order(a, b),
        value_order(a, b) == 0 <==> a == b,
    decreases a,
{
    match (a.kind, b.kind) {
        (KindModel::Atom(x), KindModel::Atom(y)) => law_expressions_are_ordered(x, y),
        (KindModel::Sum { terms, .. }, KindModel::Sum { terms: terms2, .. }) => {
            lemma_terms_are_ordered(terms, terms2);
        },
        (
            KindModel::Binary { lhs, rhs, .. },
            KindModel::Binary { lhs: lhs2, rhs: rhs2, .. },
        ) => {
            law_values_are_ordered(*lhs, *lhs2);
            law_values_are_ordered(*rhs, *rhs2);
        },
        (KindModel::Not(x), KindModel::Not(y)) => law_values_are_ordered(*x, *y),
        _ => {},
    }
}

proof fn lemma_terms_are_ordered(a: Seq<(ValueModel, u64)>, b: Seq<(ValueModel, u64)>)
    ensures
        -1 <= terms_order(a, b) <= 1,
        terms_order(b, a) == -terms_order(a, b),
        terms_order(a, b) == 0 <==> a == b,
    decreases a,
{
    if a.len() > 0 && b.len() > 0 {
        let rest = a.subrange(1, a.len() as int);
        let rest2 = b.subrange(1, b.len() as int);
        law_values_are_ordered(a[0].0, b[0].0);
        lemma_terms_are_ordered(rest, rest2);
        if a[0] == b[0] && rest == rest2 {
            assert(a =~= seq![a[0]] + rest);
            assert(b =~= seq![b[0]] + rest2);
        }
    } else if a.len() == 0 && b.len() == 0 {
        assert(a =~= b);
    }
}

/// The order of values is transitive.
pub proof fn law_value_order_is_transitive(a: ValueModel, b: ValueModel, c: ValueModel)
    ensures
        is_transitive(value_order(a, b), value_order(b, c), value_order(a, c)),
    decreases a,
{
    match (a.kind, b.kind, c.kind) {
        (KindModel::Atom(x), KindModel::Atom(y), KindModel::Atom(z)) => {
            law_expression_order_is_transitive(x, y, z);
        },
        (
            KindModel::Sum { terms: x, .. },
            KindModel::Sum { terms: y, .. },
            KindModel::Sum { terms: z, .. },
        ) => lemma_terms_order_is_transitive(x, y, z),
        (
            KindModel::Binary { lhs, rhs, .. },
            KindModel::Binary { lhs: lhs2, rhs: rhs2, .. },
            KindModel::Binary { lhs: lhs3, rhs: rhs3, .. },
        ) => {
            law_value_order_is_transitive(*lhs, *lhs2, *lhs3);
            law_value_order_is_transitive(*rhs, *rhs2, *rhs3);
        },
        (KindModel::Not(x), KindModel::Not(y), KindModel::Not(z)) => {
            law_value_order_is_transitive(*x, *y, *z);
        },
        _ => {},
    }
}

proof fn lemma_terms_order_is_transitive(
    a: Seq<(ValueModel, u64)>,
    b: Seq<(ValueModel, u64)>,
    c: Seq<(ValueModel, u64)>,
)
    ensures
        is_transitive(terms_order(a, b), terms_order(b, c), terms_order(a, c)),
    decreases a,
{
    if a.len() > 0 && b.len() > 0 && c.len() > 0 {
        law_value_order_is_transitive(a[0].0, b[0].0, c[0].0);
        lemma_terms_order_is_transitive(
            a.subrange(1, a.len() as int),
            b.subrange(1, b.len() as int),
            c.subrange(1, c.len() as int),
        );
    }
}

} // verus!
