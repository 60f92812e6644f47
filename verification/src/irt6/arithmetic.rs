//! An auxiliary, width-aware arithmetic IR consumed by the shape analyzer.
//!
//! Sums live in Z/(2^bits): subtraction becomes a negative coefficient, constant
//! shifts become scaling, and like terms combine. Unsupported expressions are
//! retained as opaque atoms. Loads and potentially trapping operations are never
//! folded or reordered. This is a projection, not a replacement program IR.
use super::debug::{expression_text, kind_text, put_expression, put_kind};
use super::effects::{
    expression_effects, expression_reads, is_repeatable, repeatable,
};
use super::ir::{
    body_models, models, FunctionModel, IRBinOpKind, IRExpr, IRInst, InstModel, Parameter,
    SyntheticFunction, VariableId, VariableType,
};
use super::order::{
    expression_order, kind_order, number_order, order_of_expressions, order_of_kinds,
    order_of_numbers, order_of_sizes, size_order, then_by,
};
use crate::table::Table;
use crate::text::{decimal, hex, put, put_decimal, put_hex};
use vstd::arithmetic::power2::pow2;
use vstd::prelude::*;

verus! {

#[derive(Debug)]
pub struct Value {
    pub bits: Option<usize>,
    pub kind: Kind,
}

#[derive(Debug)]
pub enum Kind {
    Constant(u64),
    Atom(IRExpr),
    /// Coefficients and the constant are reduced modulo the explicit width.
    Sum { terms: Vec<(Value, u64)>, constant: u64 },
    Binary { kind: IRBinOpKind, lhs: Box<Value>, rhs: Box<Value> },
    Not(Box<Value>),
}

/// A value, with sequences in place of vectors.
pub struct ValueModel {
    pub bits: Option<usize>,
    pub kind: KindModel,
}

pub enum KindModel {
    Constant(u64),
    Atom(IRExpr),
    Sum { terms: Seq<(ValueModel, u64)>, constant: u64 },
    Binary { kind: IRBinOpKind, lhs: Box<ValueModel>, rhs: Box<ValueModel> },
    Not(Box<ValueModel>),
}

impl Value {
    /// The value behind the vectors.
    pub open spec fn model(self) -> ValueModel
        decreases self,
    {
        ValueModel { bits: self.bits, kind: self.kind.model() }
    }
}

impl Kind {
    pub open spec fn model(self) -> KindModel
        decreases self,
    {
        match self {
            Kind::Constant(value) => KindModel::Constant(value),
            Kind::Atom(expr) => KindModel::Atom(expr),
            Kind::Sum { terms, constant } => KindModel::Sum {
                terms: term_models(terms@),
                constant,
            },
            Kind::Binary { kind, lhs, rhs } => KindModel::Binary {
                kind,
                lhs: Box::new(lhs.model()),
                rhs: Box::new(rhs.model()),
            },
            Kind::Not(inner) => KindModel::Not(Box::new(inner.model())),
        }
    }
}

pub open spec fn term_models(terms: Seq<(Value, u64)>) -> Seq<(ValueModel, u64)>
    decreases terms,
{
    Seq::new(
        terms.len(),
        |i: int|
            if 0 <= i < terms.len() {
                (terms[i].0.model(), terms[i].1)
            } else {
                arbitrary()
            },
    )
}

impl Clone for Value {
    fn clone(&self) -> (res: Self)
        ensures
            res.model() == self.model(),
        decreases self,
    {
        let kind = match &self.kind {
            Kind::Constant(value) => Kind::Constant(*value),
            Kind::Atom(expr) => Kind::Atom(expr.clone()),
            Kind::Sum { terms, constant } => Kind::Sum {
                terms: clone_terms(terms),
                constant: *constant,
            },
            Kind::Binary { kind, lhs, rhs } => Kind::Binary {
                kind: *kind,
                lhs: Box::new((**lhs).clone()),
                rhs: Box::new((**rhs).clone()),
            },
            Kind::Not(inner) => Kind::Not(Box::new((**inner).clone())),
        };
        Value { bits: self.bits, kind }
    }
}

fn clone_terms(terms: &Vec<(Value, u64)>) -> (res: Vec<(Value, u64)>)
    ensures
        term_models(res@) == term_models(terms@),
    decreases terms,
{
    let mut res: Vec<(Value, u64)> = Vec::new();
    let mut i: usize = 0;
    while i < terms.len()
        invariant
            i <= terms@.len(),
            res@.len() == i,
            forall|k: int|
                0 <= k < i ==> (#[trigger] res@[k]).0.model() == terms@[k].0.model() && res@[k].1
                    == terms@[k].1,
        decreases terms@.len() - i,
    {
        assert(decreases_to!(terms => terms@[i as int]));
        res.push((terms[i].0.clone(), terms[i].1));
        i = i + 1;
    }
    assert(term_models(res@) =~= term_models(terms@));
    res
}

// ---------------------------------------------------------------------------
// Order and equality

pub open spec fn value_rank(kind: KindModel) -> int {
    match kind {
        KindModel::Constant(_) => 0,
        KindModel::Atom(_) => 1,
        KindModel::Sum { .. } => 2,
        KindModel::Binary { .. } => 3,
        KindModel::Not(_) => 4,
    }
}

/// The order of two values: by width, by kind, and then by what they hold.
pub open spec fn value_order(a: ValueModel, b: ValueModel) -> int
    decreases a,
{
    then_by(
        size_order(a.bits, b.bits),
        match (a.kind, b.kind) {
            (KindModel::Constant(x), KindModel::Constant(y)) => number_order(x as int, y as int),
            (KindModel::Atom(x), KindModel::Atom(y)) => expression_order(x, y),
            (
                KindModel::Sum { terms, constant },
                KindModel::Sum { terms: terms2, constant: constant2 },
            ) => then_by(
                terms_order(terms, terms2),
                number_order(constant as int, constant2 as int),
            ),
            (
                KindModel::Binary { kind, lhs, rhs },
                KindModel::Binary { kind: kind2, lhs: lhs2, rhs: rhs2 },
            ) => then_by(
                kind_order(kind, kind2),
                then_by(value_order(*lhs, *lhs2), value_order(*rhs, *rhs2)),
            ),
            (KindModel::Not(x), KindModel::Not(y)) => value_order(*x, *y),
            _ => number_order(value_rank(a.kind), value_rank(b.kind)),
        },
    )
}

/// The order of two lists of terms, by the first place where they differ.
pub open spec fn terms_order(a: Seq<(ValueModel, u64)>, b: Seq<(ValueModel, u64)>) -> int
    decreases a,
{
    if a.len() == 0 || b.len() == 0 {
        number_order(a.len() as int, b.len() as int)
    } else {
        then_by(
            value_order(a[0].0, b[0].0),
            then_by(
                number_order(a[0].1 as int, b[0].1 as int),
                terms_order(a.subrange(1, a.len() as int), b.subrange(1, b.len() as int)),
            ),
        )
    }
}

fn rank_of_value(kind: &Kind) -> (res: u128)
    ensures
        res == value_rank(kind.model()),
{
    match kind {
        Kind::Constant(_) => 0,
        Kind::Atom(_) => 1,
        Kind::Sum { .. } => 2,
        Kind::Binary { .. } => 3,
        Kind::Not(_) => 4,
    }
}

fn order_of_values(a: &Value, b: &Value) -> (res: i8)
    ensures
        res == value_order(a.model(), b.model()),
    decreases a,
{
    let first: i8 = order_of_sizes(a.bits, b.bits);
    if first != 0 {
        return first;
    }
    match (&a.kind, &b.kind) {
        (Kind::Constant(x), Kind::Constant(y)) => order_of_numbers(*x as u128, *y as u128),
        (Kind::Atom(x), Kind::Atom(y)) => order_of_expressions(x, y),
        (
            Kind::Sum { terms, constant },
            Kind::Sum { terms: terms2, constant: constant2 },
        ) => {
            let second: i8 = order_of_terms(terms, terms2, 0);
            proof {
                assert(term_models(terms@).subrange(0, terms@.len() as int) =~= term_models(
                    terms@,
                ));
                assert(term_models(terms2@).subrange(0, terms2@.len() as int) =~= term_models(
                    terms2@,
                ));
            }
            if second != 0 {
                return second;
            }
            order_of_numbers(*constant as u128, *constant2 as u128)
        },
        (
            Kind::Binary { kind, lhs, rhs },
            Kind::Binary { kind: kind2, lhs: lhs2, rhs: rhs2 },
        ) => {
            let second: i8 = order_of_kinds(*kind, *kind2);
            if second != 0 {
                return second;
            }
            let third: i8 = order_of_values(lhs, lhs2);
            if third != 0 {
                return third;
            }
            order_of_values(rhs, rhs2)
        },
        (Kind::Not(x), Kind::Not(y)) => order_of_values(x, y),
        _ => order_of_numbers(rank_of_value(&a.kind), rank_of_value(&b.kind)),
    }
}

fn order_of_terms(a: &Vec<(Value, u64)>, b: &Vec<(Value, u64)>, from: usize) -> (res: i8)
    requires
        from <= a@.len(),
        from <= b@.len(),
    ensures
        res == terms_order(
            term_models(a@).subrange(from as int, a@.len() as int),
            term_models(b@).subrange(from as int, b@.len() as int),
        ),
    decreases a, a@.len() - from,
{
    let ghost left = term_models(a@).subrange(from as int, a@.len() as int);
    let ghost right = term_models(b@).subrange(from as int, b@.len() as int);
    if from == a.len() || from == b.len() {
        return order_of_numbers((a.len() - from) as u128, (b.len() - from) as u128);
    }
    proof {
        assert(left.subrange(1, left.len() as int) =~= term_models(a@).subrange(
            from + 1,
            a@.len() as int,
        ));
        assert(right.subrange(1, right.len() as int) =~= term_models(b@).subrange(
            from + 1,
            b@.len() as int,
        ));
        assert(decreases_to!(a => a@[from as int]));
        assert(left[0] == term_models(a@)[from as int]);
        assert(right[0] == term_models(b@)[from as int]);
    }
    let first: i8 = order_of_values(&a[from].0, &b[from].0);
    if first != 0 {
        return first;
    }
    let second: i8 = order_of_numbers(a[from].1 as u128, b[from].1 as u128);
    if second != 0 {
        return second;
    }
    order_of_terms(a, b, from + 1)
}

impl Value {
    /// Structural equality.
    pub fn same(&self, other: &Self) -> (res: bool)
        ensures
            res == (self.model() == other.model()),
        decreases self,
    {
        if self.bits != other.bits {
            return false;
        }
        match (&self.kind, &other.kind) {
            (Kind::Constant(x), Kind::Constant(y)) => *x == *y,
            (Kind::Atom(x), Kind::Atom(y)) => x.same(y),
            (
                Kind::Sum { terms, constant },
                Kind::Sum { terms: terms2, constant: constant2 },
            ) => *constant == *constant2 && same_terms(terms, terms2),
            (
                Kind::Binary { kind, lhs, rhs },
                Kind::Binary { kind: kind2, lhs: lhs2, rhs: rhs2 },
            ) => *kind == *kind2 && lhs.same(lhs2) && rhs.same(rhs2),
            (Kind::Not(x), Kind::Not(y)) => x.same(y),
            _ => false,
        }
    }
}

fn same_terms(a: &Vec<(Value, u64)>, b: &Vec<(Value, u64)>) -> (res: bool)
    ensures
        res == (term_models(a@) == term_models(b@)),
    decreases a,
{
    if a.len() != b.len() {
        assert(term_models(a@).len() != term_models(b@).len());
        return false;
    }
    let mut i: usize = 0;
    while i < a.len()
        invariant
            a@.len() == b@.len(),
            i <= a@.len(),
            forall|k: int|
                0 <= k < i ==> #[trigger] term_models(a@)[k] == term_models(b@)[k],
        decreases a@.len() - i,
    {
        assert(decreases_to!(a => a@[i as int]));
        assert(term_models(a@)[i as int] == (a@[i as int].0.model(), a@[i as int].1));
        assert(term_models(b@)[i as int] == (b@[i as int].0.model(), b@[i as int].1));
        if a[i].1 != b[i].1 || !a[i].0.same(&b[i].0) {
            return false;
        }
        i = i + 1;
    }
    assert(term_models(a@) =~= term_models(b@));
    true
}

// ---------------------------------------------------------------------------
// Widths

/// Whether sums are formed at this width.
pub open spec fn is_width(bits: int) -> bool {
    bits == 8 || bits == 16 || bits == 32 || bits == 64
}

/// Two to the power of the width.
pub open spec fn modulus(bits: int) -> int {
    if bits == 8 {
        0x100
    } else if bits == 16 {
        0x1_0000
    } else if bits == 32 {
        0x1_0000_0000
    } else {
        0x1_0000_0000_0000_0000
    }
}

pub open spec fn bits_of_type(ty: VariableType) -> Option<usize> {
    match ty {
        VariableType::Integer(bits) => if is_width(bits as int) {
            Some(bits)
        } else {
            None
        },
        VariableType::UnsignedInteger(bits) => if is_width(bits as int) {
            Some(bits)
        } else {
            None
        },
        VariableType::Unknown(Some(bytes)) => if bytes == 1 || bytes == 2 || bytes == 4 || bytes
            == 8 {
            Some((bytes * 8) as usize)
        } else {
            None
        },
        // Pointer arithmetic must not accidentally become integer arithmetic.
        _ => None,
    }
}

fn type_bits(ty: &VariableType) -> (res: Option<usize>)
    ensures
        res == bits_of_type(*ty),
{
    match ty {
        VariableType::Integer(bits) => integer_bits(Some(*bits)),
        VariableType::UnsignedInteger(bits) => integer_bits(Some(*bits)),
        VariableType::Unknown(Some(bytes)) => if *bytes == 1 || *bytes == 2 || *bytes == 4
            || *bytes == 8 {
            Some(*bytes * 8)
        } else {
            None
        },
        _ => None,
    }
}

/// The width, if sums are formed at it.
pub open spec fn arithmetic_width(bits: Option<usize>) -> Option<usize> {
    match bits {
        Some(bits) => if is_width(bits as int) {
            Some(bits)
        } else {
            None
        },
        None => None,
    }
}

pub fn integer_bits(bits: Option<usize>) -> (res: Option<usize>)
    ensures
        res == arithmetic_width(bits),
{
    match bits {
        Some(bits) => if bits == 8 || bits == 16 || bits == 32 || bits == 64 {
            Some(bits)
        } else {
            None
        },
        None => None,
    }
}

/// The width of an access of this many bytes.
pub open spec fn access_width(bytes: int) -> Option<usize> {
    if is_width(bytes * 8) {
        Some((bytes * 8) as usize)
    } else {
        None
    }
}

fn access_bits(bytes: usize) -> (res: Option<usize>)
    ensures
        res == access_width(bytes as int),
{
    match bytes.checked_mul(8) {
        Some(bits) => integer_bits(Some(bits)),
        None => None,
    }
}

/// The value modulo two to the power of the width.
fn reduce(value: u64, bits: usize) -> (res: u64)
    requires
        is_width(bits as int),
    ensures
        res == value as int % modulus(bits as int),
{
    if bits == 8 {
        value % 0x100
    } else if bits == 16 {
        value % 0x1_0000
    } else if bits == 32 {
        value % 0x1_0000_0000
    } else {
        value
    }
}

/// Two to the power of a shift.
fn power_of_two(shift: u64) -> (res: u64)
    requires
        shift < 64,
    ensures
        res == pow2(shift as nat),
{
    let mut res: u64 = 1;
    let mut i: u64 = 0;
    proof {
        vstd::arithmetic::power2::lemma2_to64();
    }
    while i < shift
        invariant
            i <= shift,
            shift < 64,
            res == pow2(i as nat),
        decreases shift - i,
    {
        proof {
            vstd::arithmetic::power2::lemma_pow2_unfold((i + 1) as nat);
            vstd::arithmetic::power2::lemma2_to64();
            vstd::arithmetic::power2::lemma2_to64_rest();
            if i + 1 < 63 {
                vstd::arithmetic::power2::lemma_pow2_strictly_increases((i + 1) as nat, 63);
            }
        }
        res = res * 2;
        i = i + 1;
    }
    res
}

// ---------------------------------------------------------------------------
// Sums

pub open spec fn constant_value(value: u64, bits: usize) -> ValueModel {
    ValueModel {
        bits: Some(bits),
        kind: KindModel::Constant((value as int % modulus(bits as int)) as u64),
    }
}

/// The sorted terms with `coefficient` times `value` added.
pub open spec fn add_term(
    terms: Seq<(ValueModel, u64)>,
    value: ValueModel,
    coefficient: u64,
) -> Seq<(ValueModel, u64)>
    decreases terms.len(),
{
    if terms.len() == 0 {
        seq![(value, coefficient)]
    } else if terms[0].0 == value {
        terms.update(0, (value, terms[0].1.wrapping_add(coefficient)))
    } else if value_order(value, terms[0].0) < 0 {
        seq![(value, coefficient)] + terms
    } else {
        seq![terms[0]] + add_term(terms.subrange(1, terms.len() as int), value, coefficient)
    }
}

/// The sorted terms with each of `nested` added `coefficient` times.
pub open spec fn add_terms(
    terms: Seq<(ValueModel, u64)>,
    nested: Seq<(ValueModel, u64)>,
    coefficient: u64,
) -> Seq<(ValueModel, u64)>
    decreases nested.len(),
{
    if nested.len() == 0 {
        terms
    } else {
        add_term(
            add_terms(terms, nested.drop_last(), coefficient),
            nested.last().0,
            nested.last().1.wrapping_mul(coefficient),
        )
    }
}

/// A sum under construction: its terms and its constant, modulo 2^64.
pub struct Gathered {
    pub terms: Seq<(ValueModel, u64)>,
    pub constant: u64,
}

/// `coefficient` times `value` added to a sum; a nested sum is dissolved into it.
pub open spec fn gather_one(sum: Gathered, value: ValueModel, coefficient: u64) -> Gathered {
    match value.kind {
        KindModel::Constant(constant) => Gathered {
            terms: sum.terms,
            constant: sum.constant.wrapping_add(constant.wrapping_mul(coefficient)),
        },
        KindModel::Sum { terms, constant } => Gathered {
            terms: add_terms(sum.terms, terms, coefficient),
            constant: sum.constant.wrapping_add(constant.wrapping_mul(coefficient)),
        },
        _ => Gathered {
            terms: add_term(sum.terms, value, coefficient),
            constant: sum.constant,
        },
    }
}

pub open spec fn gather(values: Seq<(ValueModel, u64)>) -> Gathered
    decreases values.len(),
{
    if values.len() == 0 {
        Gathered { terms: Seq::empty(), constant: 0 }
    } else {
        gather_one(gather(values.drop_last()), values.last().0, values.last().1)
    }
}

/// The terms whose coefficients are not zero modulo the width.
pub open spec fn reduced_terms(terms: Seq<(ValueModel, u64)>, bits: usize) -> Seq<
    (ValueModel, u64),
>
    decreases terms.len(),
{
    if terms.len() == 0 {
        Seq::empty()
    } else {
        let rest = reduced_terms(terms.drop_last(), bits);
        let coefficient = (terms.last().1 as int % modulus(bits as int)) as u64;
        if coefficient != 0 {
            rest.push((terms.last().0, coefficient))
        } else {
            rest
        }
    }
}

/// The value of a sum: a constant, a lone term, or a sum of terms.
pub open spec fn sum_value(bits: usize, sum: Gathered) -> ValueModel {
    let constant = (sum.constant as int % modulus(bits as int)) as u64;
    let terms = reduced_terms(sum.terms, bits);
    if terms.len() == 0 {
        constant_value(constant, bits)
    } else if constant == 0 && terms.len() == 1 && terms[0].1 == 1 {
        terms[0].0
    } else {
        ValueModel { bits: Some(bits), kind: KindModel::Sum { terms, constant } }
    }
}

/// Adds `coefficient` times `value` to the sorted terms.
fn insert_term(terms: &mut Vec<(Value, u64)>, value: &Value, coefficient: u64)
    ensures
        term_models(final(terms)@) == add_term(
            term_models(old(terms)@),
            value.model(),
            coefficient,
        ),
{
    let ghost all = term_models(terms@);
    let ghost goal = add_term(all, value.model(), coefficient);
    let mut i: usize = 0;
    assert(all.subrange(0, all.len() as int) =~= all);
    assert(all.subrange(0, 0) + add_term(all, value.model(), coefficient) =~= goal);
    while i < terms.len()
        invariant
            i <= terms@.len(),
            all == term_models(terms@),
            goal == all.subrange(0, i as int) + add_term(
                all.subrange(i as int, all.len() as int),
                value.model(),
                coefficient,
            ),
            goal == add_term(term_models(old(terms)@), value.model(), coefficient),
            terms@ == old(terms)@,
        decreases terms@.len() - i,
    {
        let ghost rest = all.subrange(i as int, all.len() as int);
        assert(rest[0] == all[i as int]);
        if terms[i].0.same(value) {
            let total: u64 = terms[i].1.wrapping_add(coefficient);
            let kept = value.clone();
            terms.set(i, (kept, total));
            assert(term_models(terms@) =~= goal);
            return;
        }
        if order_of_values(value, &terms[i].0) < 0 {
            let kept = value.clone();
            terms.insert(i, (kept, coefficient));
            assert(term_models(terms@) =~= goal);
            return;
        }
        proof {
            let tail = rest.subrange(1, rest.len() as int);
            assert(tail =~= all.subrange(i + 1, all.len() as int));
            assert(all.subrange(0, i + 1) =~= all.subrange(0, i as int) + seq![rest[0]]);
            assert(goal =~= all.subrange(0, i + 1) + add_term(tail, value.model(), coefficient));
        }
        i = i + 1;
    }
    let kept = value.clone();
    terms.push((kept, coefficient));
    assert(term_models(terms@) =~= goal);
}

/// The sum of the values, each times its coefficient, at the width.
fn sum(bits: usize, values: &Vec<(Value, u64)>) -> (res: Value)
    requires
        is_width(bits as int),
    ensures
        res.model() == sum_value(bits, gather(term_models(values@))),
{
    let mut terms: Vec<(Value, u64)> = Vec::new();
    let mut constant: u64 = 0;
    let ghost all = term_models(values@);
    let mut i: usize = 0;
    assert(all.subrange(0, 0) =~= Seq::<(ValueModel, u64)>::empty());
    assert(term_models(terms@) =~= Seq::<(ValueModel, u64)>::empty());
    while i < values.len()
        invariant
            i <= values@.len(),
            all == term_models(values@),
            term_models(terms@) == gather(all.subrange(0, i as int)).terms,
            constant == gather(all.subrange(0, i as int)).constant,
        decreases values@.len() - i,
    {
        let ghost prefix = all.subrange(0, i + 1);
        assert(prefix.drop_last() =~= all.subrange(0, i as int));
        assert(prefix.last() == (values@[i as int].0.model(), values@[i as int].1));
        let value = &values[i].0;
        let coefficient: u64 = values[i].1;
        match &value.kind {
            Kind::Constant(held) => {
                constant = constant.wrapping_add((*held).wrapping_mul(coefficient));
            },
            Kind::Sum { terms: nested, constant: bias } => {
                constant = constant.wrapping_add((*bias).wrapping_mul(coefficient));
                insert_terms(&mut terms, nested, coefficient);
            },
            _ => {
                insert_term(&mut terms, value, coefficient);
            },
        }
        i = i + 1;
    }
    assert(all.subrange(0, i as int) =~= all);
    let constant: u64 = reduce(constant, bits);
    let terms = keep_nonzero(terms, bits);
    if terms.len() == 0 {
        return Value::constant(constant, bits);
    }
    assert(term_models(terms@)[0] == (terms@[0].0.model(), terms@[0].1));
    if constant == 0 && terms.len() == 1 && terms[0].1 == 1 {
        return terms[0].0.clone();
    }
    Value { bits: Some(bits), kind: Kind::Sum { terms, constant } }
}

fn insert_terms(terms: &mut Vec<(Value, u64)>, nested: &Vec<(Value, u64)>, coefficient: u64)
    ensures
        term_models(final(terms)@) == add_terms(
            term_models(old(terms)@),
            term_models(nested@),
            coefficient,
        ),
{
    let ghost all = term_models(nested@);
    let mut i: usize = 0;
    assert(all.subrange(0, 0) =~= Seq::<(ValueModel, u64)>::empty());
    while i < nested.len()
        invariant
            i <= nested@.len(),
            all == term_models(nested@),
            term_models(terms@) == add_terms(
                term_models(old(terms)@),
                all.subrange(0, i as int),
                coefficient,
            ),
        decreases nested@.len() - i,
    {
        let ghost prefix = all.subrange(0, i + 1);
        assert(prefix.drop_last() =~= all.subrange(0, i as int));
        assert(prefix.last() == (nested@[i as int].0.model(), nested@[i as int].1));
        insert_term(terms, &nested[i].0, nested[i].1.wrapping_mul(coefficient));
        i = i + 1;
    }
    assert(all.subrange(0, i as int) =~= all);
}

fn keep_nonzero(terms: Vec<(Value, u64)>, bits: usize) -> (res: Vec<(Value, u64)>)
    requires
        is_width(bits as int),
    ensures
        term_models(res@) == reduced_terms(term_models(terms@), bits),
{
    let ghost all = term_models(terms@);
    let mut res: Vec<(Value, u64)> = Vec::new();
    let mut i: usize = 0;
    assert(all.subrange(0, 0) =~= Seq::<(ValueModel, u64)>::empty());
    assert(term_models(res@) =~= Seq::<(ValueModel, u64)>::empty());
    while i < terms.len()
        invariant
            is_width(bits as int),
            i <= terms@.len(),
            all == term_models(terms@),
            term_models(res@) == reduced_terms(all.subrange(0, i as int), bits),
        decreases terms@.len() - i,
    {
        let ghost prefix = all.subrange(0, i + 1);
        let ghost before = term_models(res@);
        assert(prefix.drop_last() =~= all.subrange(0, i as int));
        assert(prefix.last() == (terms@[i as int].0.model(), terms@[i as int].1));
        let coefficient: u64 = reduce(terms[i].1, bits);
        if coefficient != 0 {
            res.push((terms[i].0.clone(), coefficient));
            assert(term_models(res@) =~= before.push((prefix.last().0, coefficient)));
        }
        i = i + 1;
    }
    assert(all.subrange(0, i as int) =~= all);
    res
}

// ---------------------------------------------------------------------------
// Operations on values

/// The comparison that holds exactly where the given one does not.
pub open spec fn opposite(kind: IRBinOpKind) -> Option<IRBinOpKind> {
    match kind {
        IRBinOpKind::Eq => Some(IRBinOpKind::Ne),
        IRBinOpKind::Ne => Some(IRBinOpKind::Eq),
        IRBinOpKind::SignedGt => Some(IRBinOpKind::SignedLe),
        IRBinOpKind::SignedLe => Some(IRBinOpKind::SignedGt),
        IRBinOpKind::UnsignedLt => Some(IRBinOpKind::UnsignedGe),
        IRBinOpKind::UnsignedGe => Some(IRBinOpKind::UnsignedLt),
        _ => None,
    }
}

pub fn opposite_of(kind: IRBinOpKind) -> (res: Option<IRBinOpKind>)
    ensures
        res == opposite(kind),
{
    match kind {
        IRBinOpKind::Eq => Some(IRBinOpKind::Ne),
        IRBinOpKind::Ne => Some(IRBinOpKind::Eq),
        IRBinOpKind::SignedGt => Some(IRBinOpKind::SignedLe),
        IRBinOpKind::SignedLe => Some(IRBinOpKind::SignedGt),
        IRBinOpKind::UnsignedLt => Some(IRBinOpKind::UnsignedGe),
        IRBinOpKind::UnsignedGe => Some(IRBinOpKind::UnsignedLt),
        _ => None,
    }
}

/// The negation of a truth value, pushed through short-circuit connectives and
/// absorbed by comparisons.
pub open spec fn negation(value: ValueModel) -> ValueModel
    decreases value,
{
    match value.kind {
        KindModel::Not(inner) => *inner,
        KindModel::Binary { kind, lhs, rhs } => if kind == IRBinOpKind::Or || kind
            == IRBinOpKind::LogicalAnd {
            ValueModel {
                bits: Some(1),
                kind: KindModel::Binary {
                    kind: if kind == IRBinOpKind::Or {
                        IRBinOpKind::LogicalAnd
                    } else {
                        IRBinOpKind::Or
                    },
                    lhs: Box::new(negation(*lhs)),
                    rhs: Box::new(negation(*rhs)),
                },
            }
        } else {
            match opposite(kind) {
                Some(kind) => ValueModel {
                    bits: value.bits,
                    kind: KindModel::Binary { kind, lhs, rhs },
                },
                None => ValueModel { bits: Some(1), kind: KindModel::Not(Box::new(value)) },
            }
        },
        _ => ValueModel { bits: Some(1), kind: KindModel::Not(Box::new(value)) },
    }
}

/// The difference of two values of the same arithmetic width.
pub open spec fn difference(left: ValueModel, right: ValueModel) -> Option<ValueModel> {
    match arithmetic_width(left.bits) {
        Some(bits) => if right.bits == Some(bits) {
            Some(sum_value(bits, gather(seq![(left, 1u64), (right, u64::MAX)])))
        } else {
            None
        },
        None => None,
    }
}

/// Whether the value depends on the variable.
pub open spec fn value_reads(value: ValueModel, variable: VariableId) -> bool
    decreases value,
{
    match value.kind {
        KindModel::Atom(expr) => expression_effects(expr).reads.contains(variable),
        KindModel::Sum { terms, .. } => any_term_reads(terms, variable),
        KindModel::Binary { lhs, rhs, .. } => value_reads(*lhs, variable) || value_reads(
            *rhs,
            variable,
        ),
        KindModel::Not(inner) => value_reads(*inner, variable),
        KindModel::Constant(_) => false,
    }
}

pub open spec fn any_term_reads(terms: Seq<(ValueModel, u64)>, variable: VariableId) -> bool
    decreases terms,
{
    terms.len() > 0 && (any_term_reads(terms.drop_last(), variable) || value_reads(
        terms[terms.len() - 1].0,
        variable,
    ))
}

impl Value {
    fn constant(value: u64, bits: usize) -> (res: Self)
        requires
            is_width(bits as int),
        ensures
            res.model() == constant_value(value, bits),
    {
        Value { bits: Some(bits), kind: Kind::Constant(reduce(value, bits)) }
    }

    pub fn subtract(&self, rhs: &Self) -> (res: Option<Self>)
        ensures
            match res {
                Some(value) => difference(self.model(), rhs.model()) == Some(value.model()),
                None => difference(self.model(), rhs.model()) is None,
            },
    {
        match integer_bits(self.bits) {
            None => None,
            Some(bits) => {
                if rhs.bits != Some(bits) {
                    return None;
                }
                Some(pair_sum(bits, self.clone(), 1, rhs.clone(), u64::MAX))
            },
        }
    }

    pub fn negated(self) -> (res: Self)
        ensures
            res.model() == negation(self.model()),
        decreases self,
    {
        let bits = self.bits;
        match self.kind {
            Kind::Not(inner) => *inner,
            Kind::Binary { kind, lhs, rhs } => {
                if kind == IRBinOpKind::Or || kind == IRBinOpKind::LogicalAnd {
                    return Value {
                        bits: Some(1),
                        kind: Kind::Binary {
                            kind: if kind == IRBinOpKind::Or {
                                IRBinOpKind::LogicalAnd
                            } else {
                                IRBinOpKind::Or
                            },
                            lhs: Box::new((*lhs).negated()),
                            rhs: Box::new((*rhs).negated()),
                        },
                    };
                }
                match opposite_of(kind) {
                    Some(kind) => Value { bits, kind: Kind::Binary { kind, lhs, rhs } },
                    None => Value {
                        bits: Some(1),
                        kind: Kind::Not(
                            Box::new(Value { bits, kind: Kind::Binary { kind, lhs, rhs } }),
                        ),
                    },
                }
            },
            kind => Value { bits: Some(1), kind: Kind::Not(Box::new(Value { bits, kind })) },
        }
    }

    pub fn reads(&self, variable: VariableId) -> (res: bool)
        ensures
            res == value_reads(self.model(), variable),
        decreases self,
    {
        match &self.kind {
            Kind::Atom(expr) => expression_reads(expr, variable),
            Kind::Sum { terms, .. } => terms_read(terms, variable),
            Kind::Binary { lhs, rhs, .. } => lhs.reads(variable) || rhs.reads(variable),
            Kind::Not(inner) => inner.reads(variable),
            Kind::Constant(_) => false,
        }
    }
}

fn terms_read(terms: &Vec<(Value, u64)>, variable: VariableId) -> (res: bool)
    ensures
        res == any_term_reads(term_models(terms@), variable),
    decreases terms,
{
    let ghost all = term_models(terms@);
    let mut res = false;
    let mut i: usize = 0;
    assert(all.subrange(0, 0) =~= Seq::<(ValueModel, u64)>::empty());
    while i < terms.len()
        invariant
            i <= terms@.len(),
            all == term_models(terms@),
            res == any_term_reads(all.subrange(0, i as int), variable),
        decreases terms@.len() - i,
    {
        let ghost prefix = all.subrange(0, i + 1);
        assert(prefix.drop_last() =~= all.subrange(0, i as int));
        assert(decreases_to!(terms => terms@[i as int]));
        res = terms[i].0.reads(variable) || res;
        i = i + 1;
    }
    assert(all.subrange(0, i as int) =~= all);
    res
}

fn pair_sum(bits: usize, left: Value, scale: u64, right: Value, other: u64) -> (res: Value)
    requires
        is_width(bits as int),
    ensures
        res.model() == sum_value(
            bits,
            gather(seq![(left.model(), scale), (right.model(), other)]),
        ),
{
    let ghost expected = seq![(left.model(), scale), (right.model(), other)];
    let mut values: Vec<(Value, u64)> = Vec::new();
    values.push((left, scale));
    values.push((right, other));
    assert(term_models(values@) =~= expected);
    sum(bits, &values)
}

fn scaled(bits: usize, value: Value, factor: u64) -> (res: Value)
    requires
        is_width(bits as int),
    ensures
        res.model() == sum_value(bits, gather(seq![(value.model(), factor)])),
{
    let ghost expected = seq![(value.model(), factor)];
    let mut values: Vec<(Value, u64)> = Vec::new();
    values.push((value, factor));
    assert(term_models(values@) =~= expected);
    sum(bits, &values)
}

// ---------------------------------------------------------------------------
// Contexts

/// The types of a function's variables and arguments.
pub struct ContextModel {
    pub variables: Map<VariableId, VariableType>,
    pub arguments: Map<usize, VariableType>,
}

pub struct Context {
    variables: Table<VariableId, VariableType>,
    arguments: Table<usize, VariableType>,
}

impl View for Context {
    type V = ContextModel;

    closed spec fn view(&self) -> ContextModel {
        ContextModel { variables: self.variables@, arguments: self.arguments@ }
    }
}

pub type Bindings = Table<VariableId, Value>;

pub open spec fn binding_models(bindings: Map<VariableId, Value>) -> Map<VariableId, ValueModel> {
    bindings.map_values(|value: Value| value.model())
}

/// The types with those that an instruction declares; a later declaration wins.
pub open spec fn declared(types: Map<VariableId, VariableType>, instr: InstModel) -> Map<
    VariableId,
    VariableType,
>
    decreases instr,
{
    match instr {
        InstModel::DeclareVariable { variable, ty } => types.insert(variable, ty),
        InstModel::DeclareAndAssignVariable { variable, ty, .. } => types.insert(variable, ty),
        InstModel::If { then_branch, else_branch, .. } => declared_by_all(
            declared_by_all(types, then_branch),
            else_branch,
        ),
        InstModel::While { body, .. } => declared_by_body(types, body),
        InstModel::ForEach { variable, element_type, body, .. } => declared_by_body(
            types.insert(variable, element_type),
            body,
        ),
        _ => types,
    }
}

pub open spec fn declared_by_all(
    types: Map<VariableId, VariableType>,
    instructions: Seq<InstModel>,
) -> Map<VariableId, VariableType>
    decreases instructions,
{
    if instructions.len() == 0 {
        types
    } else {
        declared(
            declared_by_all(types, instructions.drop_last()),
            instructions[instructions.len() - 1],
        )
    }
}

pub open spec fn declared_by_body(
    types: Map<VariableId, VariableType>,
    body: Seq<(usize, InstModel)>,
) -> Map<VariableId, VariableType>
    decreases body,
{
    if body.len() == 0 {
        types
    } else {
        declared(declared_by_body(types, body.drop_last()), body[body.len() - 1].1)
    }
}

/// The context with a function's parameters.
pub open spec fn with_parameters(parameters: Seq<Parameter>) -> ContextModel
    decreases parameters.len(),
{
    if parameters.len() == 0 {
        ContextModel { variables: Map::empty(), arguments: Map::empty() }
    } else {
        let context = with_parameters(parameters.drop_last());
        match parameters.last() {
            Parameter::Argument { ordinal, ty } => ContextModel {
                arguments: context.arguments.insert(ordinal, ty),
                ..context
            },
            Parameter::Slot { variable, ty } => ContextModel {
                variables: context.variables.insert(variable, ty),
                ..context
            },
        }
    }
}

/// The types of everything that a function declares.
pub open spec fn context_of(function: FunctionModel) -> ContextModel {
    let context = with_parameters(function.parameters);
    ContextModel {
        variables: declared_by_body(context.variables, function.body),
        arguments: context.arguments,
    }
}

/// Records the types that an instruction declares.
pub fn collect_types(instr: &IRInst, types: &mut Table<VariableId, VariableType>)
    ensures
        final(types)@ == declared(old(types)@, instr.model()),
    decreases instr,
{
    match instr {
        IRInst::DeclareVariable { variable, ty } => {
            types.insert(*variable, ty.clone());
        },
        IRInst::DeclareAndAssignVariable { variable, ty, .. } => {
            types.insert(*variable, ty.clone());
        },
        IRInst::If { then_branch, else_branch, .. } => {
            collect_all_types(then_branch, types);
            collect_all_types(else_branch, types);
        },
        IRInst::While { body, .. } => {
            collect_body_types(body, types);
        },
        IRInst::ForEach { variable, element_type, body, .. } => {
            types.insert(*variable, element_type.clone());
            collect_body_types(body, types);
        },
        _ => {},
    }
}

fn collect_all_types(instructions: &Vec<IRInst>, types: &mut Table<VariableId, VariableType>)
    ensures
        final(types)@ == declared_by_all(old(types)@, models(instructions@)),
    decreases instructions,
{
    let ghost all = models(instructions@);
    let mut i: usize = 0;
    assert(all.subrange(0, 0) =~= Seq::<InstModel>::empty());
    while i < instructions.len()
        invariant
            i <= instructions@.len(),
            all == models(instructions@),
            types@ == declared_by_all(old(types)@, all.subrange(0, i as int)),
        decreases instructions@.len() - i,
    {
        let ghost prefix = all.subrange(0, i + 1);
        assert(prefix.drop_last() =~= all.subrange(0, i as int));
        assert(decreases_to!(instructions => instructions@[i as int]));
        collect_types(&instructions[i], types);
        i = i + 1;
    }
    assert(all.subrange(0, i as int) =~= all);
}

pub fn collect_body_types(
    body: &Vec<(usize, IRInst)>,
    types: &mut Table<VariableId, VariableType>,
)
    ensures
        final(types)@ == declared_by_body(old(types)@, body_models(body@)),
    decreases body,
{
    let ghost all = body_models(body@);
    let mut i: usize = 0;
    assert(all.subrange(0, 0) =~= Seq::<(usize, InstModel)>::empty());
    while i < body.len()
        invariant
            i <= body@.len(),
            all == body_models(body@),
            types@ == declared_by_body(old(types)@, all.subrange(0, i as int)),
        decreases body@.len() - i,
    {
        let ghost prefix = all.subrange(0, i + 1);
        assert(prefix.drop_last() =~= all.subrange(0, i as int));
        assert(decreases_to!(body => body@[i as int]));
        collect_types(&body[i].1, types);
        i = i + 1;
    }
    assert(all.subrange(0, i as int) =~= all);
}

/// An expression kept as it is.
pub open spec fn atom(bits: Option<usize>, expr: IRExpr) -> ValueModel {
    ValueModel { bits, kind: KindModel::Atom(expr) }
}

pub open spec fn is_literal(expr: IRExpr) -> bool {
    expr is CU8 || expr is CU32 || expr is CU64
}

/// A literal's value at the width of the other operand, where that is one at
/// which sums are formed. The width of the immediate's encoding does not count.
pub open spec fn adopted(value: ValueModel, other: Option<usize>) -> ValueModel {
    match (value.kind, arithmetic_width(other)) {
        (KindModel::Constant(constant), Some(bits)) => constant_value(constant, bits),
        _ => value,
    }
}

pub open spec fn is_comparison(kind: IRBinOpKind) -> bool {
    match kind {
        IRBinOpKind::Eq
        | IRBinOpKind::Ne
        | IRBinOpKind::SignedGt
        | IRBinOpKind::SignedLe
        | IRBinOpKind::UnsignedLt
        | IRBinOpKind::UnsignedGe
        | IRBinOpKind::LogicalAnd
        | IRBinOpKind::Or => true,
        _ => false,
    }
}

/// The value of an operation on two values.
pub open spec fn operation_value(
    expr: IRExpr,
    kind: IRBinOpKind,
    left: ValueModel,
    right: ValueModel,
) -> ValueModel {
    let bits = if kind == IRBinOpKind::Shl || left.bits == right.bits {
        left.bits
    } else {
        None
    };
    let width = if is_comparison(kind) {
        Some(1usize)
    } else {
        bits
    };
    let plain = ValueModel {
        bits: width,
        kind: KindModel::Binary { kind, lhs: Box::new(left), rhs: Box::new(right) },
    };
    if !is_repeatable(expr) {
        // Infer the result width from operands even for effectful
        // operations, but preserve their original evaluation intact.
        atom(width, expr)
    } else {
        match arithmetic_width(bits) {
            None => plain,
            Some(bits) => match kind {
                IRBinOpKind::Add => sum_value(
                    bits,
                    gather(seq![(left, 1u64), (right, 1u64)]),
                ),
                IRBinOpKind::Sub => sum_value(
                    bits,
                    gather(seq![(left, 1u64), (right, u64::MAX)]),
                ),
                IRBinOpKind::Mul => match (left.kind, right.kind) {
                    (_, KindModel::Constant(factor)) => sum_value(
                        bits,
                        gather(seq![(left, factor)]),
                    ),
                    (KindModel::Constant(factor), _) => sum_value(
                        bits,
                        gather(seq![(right, factor)]),
                    ),
                    _ => plain,
                },
                IRBinOpKind::Shl => match right.kind {
                    KindModel::Constant(shift) => if shift < bits {
                        sum_value(bits, gather(seq![(left, pow2(shift as nat) as u64)]))
                    } else {
                        plain
                    },
                    _ => plain,
                },
                _ => plain,
            },
        }
    }
}

/// The arithmetic value of an expression, with some variables already bound.
pub open spec fn bound_value(
    context: ContextModel,
    expr: IRExpr,
    bindings: Map<VariableId, ValueModel>,
) -> ValueModel
    decreases expr,
{
    match expr {
        IRExpr::Variable(variable) => if bindings.dom().contains(variable) {
            bindings[variable]
        } else if context.variables.dom().contains(variable) {
            atom(bits_of_type(context.variables[variable]), expr)
        } else {
            atom(None, expr)
        },
        IRExpr::Argument(ordinal) => if context.arguments.dom().contains(ordinal) {
            atom(bits_of_type(context.arguments[ordinal]), expr)
        } else {
            atom(None, expr)
        },
        IRExpr::CU8(value) => constant_value(value as u64, 8),
        IRExpr::CU32(value) => constant_value(value as u64, 32),
        IRExpr::CU64(value) => constant_value(value, 64),
        IRExpr::BinOp { kind, lhs, rhs } => {
            let left = bound_value(context, *lhs, bindings);
            let right = bound_value(context, *rhs, bindings);
            if kind != IRBinOpKind::Shl && is_literal(*lhs) {
                operation_value(expr, kind, adopted(left, right.bits), right)
            } else if kind != IRBinOpKind::Shl && is_literal(*rhs) {
                operation_value(expr, kind, left, adopted(right, left.bits))
            } else {
                operation_value(expr, kind, left, right)
            }
        },
        IRExpr::Not(inner) => if is_repeatable(expr) {
            negation(bound_value(context, *inner, bindings))
        } else {
            atom(None, expr)
        },
        IRExpr::Convert { target, .. } => atom(access_width(target.size as int), expr),
        IRExpr::Deref(address) => match *address {
            IRExpr::MemoryAddress { size: Some(size), .. } => atom(
                access_width(size as int),
                expr,
            ),
            IRExpr::ElementAddress { element_size, .. } => atom(
                access_width(element_size as int),
                expr,
            ),
            _ => atom(None, expr),
        },
        _ => atom(None, expr),
    }
}

/// The arithmetic value of an expression.
pub open spec fn plain_value(context: ContextModel, expr: IRExpr) -> ValueModel {
    bound_value(context, expr, Map::empty())
}

/// The declared type of a variable or an argument.
pub open spec fn type_of(context: ContextModel, expr: IRExpr) -> Option<VariableType> {
    match expr {
        IRExpr::Variable(variable) => if context.variables.dom().contains(variable) {
            Some(context.variables[variable])
        } else {
            None
        },
        IRExpr::Argument(ordinal) => if context.arguments.dom().contains(ordinal) {
            Some(context.arguments[ordinal])
        } else {
            None
        },
        _ => None,
    }
}

fn literal(expr: &IRExpr) -> (res: bool)
    ensures
        res == is_literal(*expr),
{
    matches!(expr, IRExpr::CU8(_) | IRExpr::CU32(_) | IRExpr::CU64(_))
}

fn adopt(value: Value, other: Option<usize>) -> (res: Value)
    ensures
        res.model() == adopted(value.model(), other),
{
    match (&value.kind, integer_bits(other)) {
        (Kind::Constant(constant), Some(bits)) => Value::constant(*constant, bits),
        _ => value,
    }
}

fn atom_value(bits: Option<usize>, expr: &IRExpr) -> (res: Value)
    ensures
        res.model() == atom(bits, *expr),
{
    Value { bits, kind: Kind::Atom(expr.clone()) }
}

/// The value of an operation on two values.
fn operation(expr: &IRExpr, kind: IRBinOpKind, left: Value, right: Value) -> (res: Value)
    ensures
        res.model() == operation_value(*expr, kind, left.model(), right.model()),
{
    let bits: Option<usize> = if kind == IRBinOpKind::Shl || left.bits == right.bits {
        left.bits
    } else {
        None
    };
    let comparison = matches!(
        kind,
        IRBinOpKind::Eq
            | IRBinOpKind::Ne
            | IRBinOpKind::SignedGt
            | IRBinOpKind::SignedLe
            | IRBinOpKind::UnsignedLt
            | IRBinOpKind::UnsignedGe
            | IRBinOpKind::LogicalAnd
            | IRBinOpKind::Or
    );
    let width: Option<usize> = if comparison {
        Some(1)
    } else {
        bits
    };
    if !repeatable(expr) {
        return atom_value(width, expr);
    }
    if let Some(bits) = integer_bits(bits) {
        match kind {
            IRBinOpKind::Add => {
                return pair_sum(bits, left, 1, right, 1);
            },
            IRBinOpKind::Sub => {
                return pair_sum(bits, left, 1, right, u64::MAX);
            },
            IRBinOpKind::Mul => {
                if let Kind::Constant(factor) = right.kind {
                    return scaled(bits, left, factor);
                }
                if let Kind::Constant(factor) = left.kind {
                    return scaled(bits, right, factor);
                }
            },
            IRBinOpKind::Shl => {
                if let Kind::Constant(shift) = right.kind {
                    if shift < bits as u64 {
                        return scaled(bits, left, power_of_two(shift));
                    }
                }
            },
            _ => {},
        }
    }
    Value { bits: width, kind: Kind::Binary { kind, lhs: Box::new(left), rhs: Box::new(right) } }
}

impl Context {
    pub fn direct_type(&self, expr: &IRExpr) -> (res: Option<&VariableType>)
        ensures
            match res {
                Some(ty) => type_of(self@, *expr) == Some(*ty),
                None => type_of(self@, *expr) is None,
            },
    {
        match expr {
            IRExpr::Variable(variable) => self.variables.get(*variable),
            IRExpr::Argument(ordinal) => self.arguments.get(*ordinal),
            _ => None,
        }
    }

    pub fn from_function(function: &SyntheticFunction) -> (res: Self)
        ensures
            res@ == context_of(function.model()),
    {
        let mut variables: Table<VariableId, VariableType> = Table::new();
        let mut arguments: Table<usize, VariableType> = Table::new();
        let ghost parameters = function.parameters@;
        let mut i: usize = 0;
        assert(parameters.subrange(0, 0) =~= Seq::<Parameter>::empty());
        while i < function.parameters.len()
            invariant
                i <= function.parameters@.len(),
                parameters == function.parameters@,
                variables@ == with_parameters(parameters.subrange(0, i as int)).variables,
                arguments@ == with_parameters(parameters.subrange(0, i as int)).arguments,
            decreases function.parameters@.len() - i,
        {
            let ghost prefix = parameters.subrange(0, i + 1);
            assert(prefix.drop_last() =~= parameters.subrange(0, i as int));
            match &function.parameters[i] {
                Parameter::Argument { ordinal, ty } => {
                    arguments.insert(*ordinal, ty.clone());
                },
                Parameter::Slot { variable, ty } => {
                    variables.insert(*variable, ty.clone());
                },
            }
            i = i + 1;
        }
        assert(parameters.subrange(0, i as int) =~= parameters);
        collect_body_types(&function.body, &mut variables);
        Context { variables, arguments }
    }

    pub fn value(&self, expr: &IRExpr) -> (res: Value)
        ensures
            res.model() == plain_value(self@, *expr),
    {
        let bindings: Bindings = Table::new();
        assert(binding_models(bindings@) =~= Map::<VariableId, ValueModel>::empty());
        self.with_bindings(expr, &bindings)
    }

    pub fn with_bindings(&self, expr: &IRExpr, bindings: &Bindings) -> (res: Value)
        ensures
            res.model() == bound_value(self@, *expr, binding_models(bindings@)),
        decreases expr,
    {
        match expr {
            IRExpr::Variable(variable) => {
                match bindings.get(*variable) {
                    Some(value) => value.clone(),
                    None => {
                        let bits: Option<usize> = match self.variables.get(*variable) {
                            Some(ty) => type_bits(ty),
                            None => None,
                        };
                        atom_value(bits, expr)
                    },
                }
            },
            IRExpr::Argument(ordinal) => {
                let bits: Option<usize> = match self.arguments.get(*ordinal) {
                    Some(ty) => type_bits(ty),
                    None => None,
                };
                atom_value(bits, expr)
            },
            IRExpr::CU8(value) => Value::constant(*value as u64, 8),
            IRExpr::CU32(value) => Value::constant(*value as u64, 32),
            IRExpr::CU64(value) => Value::constant(*value, 64),
            IRExpr::BinOp { kind, lhs, rhs } => {
                let left = self.with_bindings(lhs, bindings);
                let right = self.with_bindings(rhs, bindings);
                // Literal operands adopt the operation width, not the width of
                // the immediate's encoding. Shift counts are independent.
                if *kind != IRBinOpKind::Shl && literal(lhs) {
                    let left = adopt(left, right.bits);
                    operation(expr, *kind, left, right)
                } else if *kind != IRBinOpKind::Shl && literal(rhs) {
                    let right = adopt(right, left.bits);
                    operation(expr, *kind, left, right)
                } else {
                    operation(expr, *kind, left, right)
                }
            },
            IRExpr::Not(inner) => if repeatable(expr) {
                self.with_bindings(inner, bindings).negated()
            } else {
                atom_value(None, expr)
            },
            IRExpr::Convert { target, .. } => atom_value(access_bits(target.size), expr),
            IRExpr::Deref(address) => {
                let bits: Option<usize> = match &**address {
                    IRExpr::MemoryAddress { size: Some(size), .. } => access_bits(*size),
                    IRExpr::ElementAddress { element_size, .. } => access_bits(*element_size),
                    _ => None,
                };
                atom_value(bits, expr)
            },
            _ => atom_value(None, expr),
        }
    }
}

// ---------------------------------------------------------------------------
// Text

/// The width at which a sum's coefficients are shown as signed.
pub open spec fn shown_width(bits: Option<usize>) -> usize {
    match bits {
        Some(bits) => bits,
        None => 64,
    }
}

/// The text after one term of a sum: its sign, its magnitude unless that is one,
/// and its value.
pub open spec fn term_text(
    out: Seq<char>,
    term: (ValueModel, u64),
    first: bool,
    bits: usize,
) -> Seq<char>
    decreases term, 0nat,
{
    let negative = term.1 > (modulus(bits as int) - 1) / 2;
    let magnitude = if negative {
        (modulus(bits as int) - term.1) % modulus(bits as int)
    } else {
        term.1 as int
    };
    let signed = if !first {
        out + (if negative {
            " - "@
        } else {
            " + "@
        })
    } else if negative {
        out + "-"@
    } else {
        out
    };
    let scaled = if magnitude != 1 {
        signed + decimal(magnitude as nat) + "*"@
    } else {
        signed
    };
    value_text(scaled, term.0)
}

pub open spec fn terms_text(
    out: Seq<char>,
    terms: Seq<(ValueModel, u64)>,
    bits: usize,
) -> Seq<char>
    decreases terms, 1nat,
{
    if terms.len() == 0 {
        out
    } else {
        term_text(
            terms_text(out, terms.drop_last(), bits),
            terms[terms.len() - 1],
            terms.len() == 1,
            bits,
        )
    }
}

/// The text after a value.
pub open spec fn value_text(out: Seq<char>, value: ValueModel) -> Seq<char>
    decreases value, 0nat,
{
    match value.kind {
        KindModel::Constant(constant) => out + "0x"@ + hex(constant as nat),
        KindModel::Atom(IRExpr::Variable(variable)) => out + "v"@ + decimal(variable.id as nat),
        KindModel::Atom(IRExpr::Argument(ordinal)) => out + "arg"@ + decimal(ordinal as nat),
        KindModel::Atom(expr) => expression_text(out + "opaque("@, expr) + ")"@,
        KindModel::Sum { terms, constant } => {
            let bits = shown_width(value.bits);
            let listed = terms_text(out + "("@, terms, bits);
            let biased = if constant != 0 {
                listed + " + 0x"@ + hex(constant as nat)
            } else {
                listed
            };
            biased + ") mod 2^"@ + decimal(bits as nat)
        },
        KindModel::Binary { kind, lhs, rhs } => value_text(
            value_text(kind_text(out, kind) + "("@, *lhs) + ", "@,
            *rhs,
        ) + ")"@,
        KindModel::Not(inner) => value_text(out + "!("@, *inner) + ")"@,
    }
}

fn put_term(out: &mut String, term: &(Value, u64), first: bool, bits: usize)
    ensures
        final(out)@ == term_text(old(out)@, (term.0.model(), term.1), first, bits),
    decreases term, 0nat,
{
    let width: u128 = if bits == 8 {
        0x100
    } else if bits == 16 {
        0x1_0000
    } else if bits == 32 {
        0x1_0000_0000
    } else {
        0x1_0000_0000_0000_0000
    };
    let coefficient: u128 = term.1 as u128;
    let negative = coefficient > (width - 1) / 2;
    let magnitude: u128 = if negative {
        if coefficient <= width {
            (width - coefficient) % width
        } else {
            let excess: u128 = (coefficient - width) % width;
            proof {
                vstd::arithmetic::div_mod::lemma_mod_multiples_vanish(
                    -1,
                    width - coefficient,
                    width as int,
                );
                lemma_negated_remainder((coefficient - width) as int, width as int);
            }
            if excess == 0 {
                0
            } else {
                width - excess
            }
        }
    } else {
        coefficient
    };
    if !first {
        put(
            out,
            if negative {
                " - "
            } else {
                " + "
            },
        );
    } else if negative {
        put(out, "-");
    }
    if magnitude != 1 {
        put_decimal(out, magnitude);
        put(out, "*");
    }
    put_value(out, &term.0);
}

proof fn lemma_negated_remainder(x: int, m: int)
    requires
        m > 0,
    ensures
        (-x) % m == if x % m == 0 {
            0
        } else {
            m - x % m
        },
{
    vstd::arithmetic::div_mod::lemma_fundamental_div_mod(x, m);
    let q = x / m;
    let r = x % m;
    if r == 0 {
        assert(-x == (-q) * m) by (nonlinear_arith)
            requires
                x == m * q,
        ;
        vstd::arithmetic::div_mod::lemma_fundamental_div_mod_converse(-x, m, -q, 0);
    } else {
        assert(-x == (-q - 1) * m + (m - r)) by (nonlinear_arith)
            requires
                x == m * q + r,
        ;
        vstd::arithmetic::div_mod::lemma_fundamental_div_mod_converse(-x, m, -q - 1, m - r);
    }
}

fn put_terms(out: &mut String, terms: &Vec<(Value, u64)>, bits: usize)
    ensures
        final(out)@ == terms_text(old(out)@, term_models(terms@), bits),
    decreases terms, 1nat,
{
    let ghost all = term_models(terms@);
    let mut i: usize = 0;
    assert(all.subrange(0, 0) =~= Seq::<(ValueModel, u64)>::empty());
    while i < terms.len()
        invariant
            i <= terms@.len(),
            all == term_models(terms@),
            out@ == terms_text(old(out)@, all.subrange(0, i as int), bits),
        decreases terms@.len() - i,
    {
        let ghost prefix = all.subrange(0, i + 1);
        assert(prefix.drop_last() =~= all.subrange(0, i as int));
        assert(prefix[i as int] == (terms@[i as int].0.model(), terms@[i as int].1));
        assert(decreases_to!(terms => terms@[i as int]));
        put_term(out, &terms[i], i == 0, bits);
        i = i + 1;
    }
    assert(all.subrange(0, i as int) =~= all);
}

/// Appends a value in its readable form.
pub fn put_value(out: &mut String, value: &Value)
    ensures
        final(out)@ == value_text(old(out)@, value.model()),
    decreases value, 0nat,
{
    match &value.kind {
        Kind::Constant(constant) => {
            put(out, "0x");
            put_hex(out, *constant as u128);
        },
        Kind::Atom(expr) => match expr {
            IRExpr::Variable(variable) => {
                put(out, "v");
                put_decimal(out, variable.id as u128);
            },
            IRExpr::Argument(ordinal) => {
                put(out, "arg");
                put_decimal(out, *ordinal as u128);
            },
            _ => {
                put(out, "opaque(");
                put_expression(out, expr);
                put(out, ")");
            },
        },
        Kind::Sum { terms, constant } => {
            let bits: usize = match value.bits {
                Some(bits) => bits,
                None => 64,
            };
            put(out, "(");
            put_terms(out, terms, bits);
            if *constant != 0 {
                put(out, " + 0x");
                put_hex(out, *constant as u128);
            }
            put(out, ") mod 2^");
            put_decimal(out, bits as u128);
        },
        Kind::Binary { kind, lhs, rhs } => {
            put_kind(out, *kind);
            put(out, "(");
            put_value(out, lhs);
            put(out, ", ");
            put_value(out, rhs);
            put(out, ")");
        },
        Kind::Not(inner) => {
            put(out, "!(");
            put_value(out, inner);
            put(out, ")");
        },
    }
}

} // verus!
