//! Simplify binary operations and direct negations.
use super::ir::{
    body_models, function_models, models, FunctionModel, IRBinOpKind, IRExpr, IRInst, InstModel,
    IntegerType, LoopCondition, Program, ProgramModel, SyntheticFunction,
};
use super::variable_flow::{effect_free, is_effect_free};
use vstd::prelude::*;

verus! {

pub open spec fn is_zero(expr: IRExpr) -> bool {
    expr == IRExpr::CU8(0) || expr == IRExpr::CU32(0) || expr == IRExpr::CU64(0)
}

fn zero(expr: &IRExpr) -> (res: bool)
    ensures
        res == is_zero(*expr),
{
    match expr {
        IRExpr::CU8(value) => *value == 0,
        IRExpr::CU32(value) => *value == 0,
        IRExpr::CU64(value) => *value == 0,
        _ => false,
    }
}

/// An operation without a neutral operand.
pub open spec fn reduced(kind: IRBinOpKind, lhs: IRExpr, rhs: IRExpr) -> IRExpr {
    if kind == IRBinOpKind::Add && is_zero(lhs) {
        rhs
    } else if (kind == IRBinOpKind::Add || kind == IRBinOpKind::Sub || kind == IRBinOpKind::Shl)
        && is_zero(rhs) {
        lhs
    } else if kind == IRBinOpKind::And && lhs == rhs && effect_free(lhs) {
        lhs
    } else {
        IRExpr::BinOp { kind, lhs: Box::new(lhs), rhs: Box::new(rhs) }
    }
}

fn reduce(kind: IRBinOpKind, lhs: IRExpr, rhs: IRExpr) -> (res: IRExpr)
    ensures
        res == reduced(kind, lhs, rhs),
{
    if kind == IRBinOpKind::Add && zero(&lhs) {
        rhs
    } else if (kind == IRBinOpKind::Add || kind == IRBinOpKind::Sub || kind == IRBinOpKind::Shl)
        && zero(&rhs) {
        lhs
    } else if kind == IRBinOpKind::And && lhs.same(&rhs) && is_effect_free(&lhs) {
        lhs
    } else {
        IRExpr::BinOp { kind, lhs: Box::new(lhs), rhs: Box::new(rhs) }
    }
}

/// The comparison that holds where another does not.
pub open spec fn opposite_of(kind: IRBinOpKind) -> Option<IRBinOpKind> {
    match kind {
        IRBinOpKind::Eq => Some(IRBinOpKind::Ne),
        IRBinOpKind::Ne => Some(IRBinOpKind::Eq),
        IRBinOpKind::UnsignedLt => Some(IRBinOpKind::UnsignedGe),
        IRBinOpKind::UnsignedGe => Some(IRBinOpKind::UnsignedLt),
        _ => None,
    }
}

fn opposite(kind: IRBinOpKind) -> (res: Option<IRBinOpKind>)
    ensures
        res == opposite_of(kind),
{
    match kind {
        IRBinOpKind::Eq => Some(IRBinOpKind::Ne),
        IRBinOpKind::Ne => Some(IRBinOpKind::Eq),
        IRBinOpKind::UnsignedLt => Some(IRBinOpKind::UnsignedGe),
        IRBinOpKind::UnsignedGe => Some(IRBinOpKind::UnsignedLt),
        _ => None,
    }
}

/// Taking the opposite of a comparison twice gives it back.
pub proof fn law_opposites_are_mutual(kind: IRBinOpKind)
    ensures
        opposite_of(kind) matches Some(other) ==> opposite_of(other) == Some(kind),
{
}

pub open spec fn inverted(inner: IRExpr) -> IRExpr {
    match inner {
        IRExpr::BinOp { kind, lhs, rhs } => match opposite_of(kind) {
            Some(other) => IRExpr::BinOp { kind: other, lhs, rhs },
            None => IRExpr::Not(Box::new(inner)),
        },
        IRExpr::Bool(value) => IRExpr::Bool(!value),
        _ => IRExpr::Not(Box::new(inner)),
    }
}

fn invert(inner: IRExpr) -> (res: IRExpr)
    ensures
        res == inverted(inner),
{
    match inner {
        IRExpr::BinOp { kind, lhs, rhs } => match opposite(kind) {
            Some(other) => IRExpr::BinOp { kind: other, lhs, rhs },
            None => IRExpr::Not(Box::new(IRExpr::BinOp { kind, lhs, rhs })),
        },
        IRExpr::Bool(value) => IRExpr::Bool(!value),
        other => IRExpr::Not(Box::new(other)),
    }
}

/// The expression with its operations simplified, innermost first.
pub open spec fn simplified(expr: IRExpr) -> IRExpr
    decreases expr,
{
    match expr {
        IRExpr::BinOp { kind, lhs, rhs } => reduced(kind, simplified(*lhs), simplified(*rhs)),
        IRExpr::Deref(address) => IRExpr::Deref(Box::new(simplified(*address))),
        IRExpr::CastUnknownPtr { address, size } => IRExpr::CastUnknownPtr {
            address: Box::new(simplified(*address)),
            size,
        },
        IRExpr::Convert { value, source, target } => IRExpr::Convert {
            value: Box::new(simplified(*value)),
            source,
            target,
        },
        IRExpr::Not(inner) => inverted(simplified(*inner)),
        _ => expr,
    }
}

pub open spec fn simplified_all(list: Seq<IRExpr>) -> Seq<IRExpr> {
    Seq::new(list.len(), |i: int| simplified(list[i]))
}

fn simplify_expression(expr: &IRExpr) -> (res: IRExpr)
    ensures
        res == simplified(*expr),
    decreases expr,
{
    match expr {
        IRExpr::BinOp { kind, lhs, rhs } => reduce(
            *kind,
            simplify_expression(lhs),
            simplify_expression(rhs),
        ),
        IRExpr::Deref(address) => IRExpr::Deref(Box::new(simplify_expression(address))),
        IRExpr::CastUnknownPtr { address, size } => IRExpr::CastUnknownPtr {
            address: Box::new(simplify_expression(address)),
            size: *size,
        },
        IRExpr::Convert { value, source, target } => IRExpr::Convert {
            value: Box::new(simplify_expression(value)),
            source: *source,
            target: *target,
        },
        IRExpr::Not(inner) => invert(simplify_expression(inner)),
        _ => expr.clone(),
    }
}

fn simplify_expression_all(list: &Vec<IRExpr>) -> (res: Vec<IRExpr>)
    ensures
        res@ == simplified_all(list@),
{
    let mut res: Vec<IRExpr> = Vec::new();
    let mut i: usize = 0;
    while i < list.len()
        invariant
            i <= list@.len(),
            res@.len() == i,
            forall|k: int| 0 <= k < i ==> (#[trigger] res@[k]) == simplified(list@[k]),
        decreases list@.len() - i,
    {
        res.push(simplify_expression(&list[i]));
        i = i + 1;
    }
    assert(res@ =~= simplified_all(list@));
    res
}

pub open spec fn simplified_condition(condition: LoopCondition) -> LoopCondition {
    condition.with(simplified(condition.check()))
}

fn simplify_expression_condition(condition: &LoopCondition) -> (res: LoopCondition)
    ensures
        res == simplified_condition(*condition),
{
    condition.replaced(simplify_expression(condition.expression()))
}

/// The instruction with its operations simplified.
pub open spec fn simplified_in(instr: InstModel) -> InstModel
    decreases instr,
{
    match instr {
        InstModel::Assign { dest, src } => InstModel::Assign {
            dest: simplified(dest),
            src: simplified(src),
        },
        InstModel::Return(value) => InstModel::Return(match value {
                Some(value) => Some(simplified(value)),
                None => None,
            }),
        InstModel::DeclareAndAssignVariable {
            variable,
            ty,
            value,
        } => InstModel::DeclareAndAssignVariable {
            variable,
            ty,
            value: simplified(value),
        },
        InstModel::AssignVariable { variable, value } => InstModel::AssignVariable {
            variable,
            value: simplified(value),
        },
        InstModel::LoadVariable { variable, address } => InstModel::LoadVariable {
            variable,
            address: simplified(address),
        },
        InstModel::StoreVariable { address, variable } => InstModel::StoreVariable {
            address: simplified(address),
            variable,
        },
        InstModel::If { condition, then_branch, else_branch } => InstModel::If {
            condition: simplified(condition),
            then_branch: simplified_in_list(then_branch),
            else_branch: simplified_in_list(else_branch),
        },
        InstModel::While { label, entry_offset, condition, body } => InstModel::While {
            label,
            entry_offset,
            condition: simplified_condition(condition),
            body: simplified_in_body(body),
        },
        InstModel::CallSynthetic { function, arguments } => InstModel::CallSynthetic {
            function,
            arguments: simplified_all(arguments),
        },
        InstModel::Jump(target) => InstModel::Jump(simplified(target)),
        _ => instr,
    }
}

pub open spec fn simplified_in_list(list: Seq<InstModel>) -> Seq<InstModel>
    decreases list,
{
    Seq::new(
        list.len(),
        |i: int|
            if 0 <= i < list.len() {
                simplified_in(list[i])
            } else {
                arbitrary()
            },
    )
}

pub open spec fn simplified_in_body(list: Seq<(usize, InstModel)>) -> Seq<(usize, InstModel)>
    decreases list,
{
    Seq::new(
        list.len(),
        |i: int|
            if 0 <= i < list.len() {
                (list[i].0, simplified_in(list[i].1))
            } else {
                arbitrary()
            },
    )
}

fn simplify_instruction(instr: &IRInst) -> (res: IRInst)
    ensures
        res.model() == simplified_in(instr.model()),
    decreases instr,
{
    match instr {
        IRInst::Assign { dest, src } => IRInst::Assign {
            dest: simplify_expression(dest),
            src: simplify_expression(src),
        },
        IRInst::Return(value) => IRInst::Return(match value {
                Some(value) => Some(simplify_expression(value)),
                None => None,
            }),
        IRInst::DeclareAndAssignVariable {
            variable,
            ty,
            value,
        } => IRInst::DeclareAndAssignVariable {
            variable: *variable,
            ty: ty.clone(),
            value: simplify_expression(value),
        },
        IRInst::AssignVariable { variable, value } => IRInst::AssignVariable {
            variable: *variable,
            value: simplify_expression(value),
        },
        IRInst::LoadVariable { variable, address } => IRInst::LoadVariable {
            variable: *variable,
            address: simplify_expression(address),
        },
        IRInst::StoreVariable { address, variable } => IRInst::StoreVariable {
            address: simplify_expression(address),
            variable: *variable,
        },
        IRInst::If { condition, then_branch, else_branch } => IRInst::If {
            condition: simplify_expression(condition),
            then_branch: simplify_instruction_list(then_branch),
            else_branch: simplify_instruction_list(else_branch),
        },
        IRInst::While { label, entry_offset, condition, body } => IRInst::While {
            label: *label,
            entry_offset: *entry_offset,
            condition: simplify_expression_condition(condition),
            body: simplify_instruction_body(body),
        },
        IRInst::CallSynthetic { function, arguments } => IRInst::CallSynthetic {
            function: *function,
            arguments: simplify_expression_all(arguments),
        },
        IRInst::Jump(target) => IRInst::Jump(simplify_expression(target)),
        _ => instr.clone(),
    }
}

fn simplify_instruction_list(list: &Vec<IRInst>) -> (res: Vec<IRInst>)
    ensures
        models(res@) == simplified_in_list(models(list@)),
    decreases list,
{
    let ghost all = models(list@);
    let mut res: Vec<IRInst> = Vec::new();
    let mut i: usize = 0;
    while i < list.len()
        invariant
            i <= list@.len(),
            all == models(list@),
            res@.len() == i,
            forall|k: int| 0 <= k < i ==> (#[trigger] res@[k]).model() == simplified_in(all[k]),
        decreases list@.len() - i,
    {
        assert(decreases_to!(list => list@[i as int]));
        res.push(simplify_instruction(&list[i]));
        i = i + 1;
    }
    assert(models(res@) =~= simplified_in_list(all));
    res
}

fn simplify_instruction_body(list: &Vec<(usize, IRInst)>) -> (res: Vec<(usize, IRInst)>)
    ensures
        body_models(res@) == simplified_in_body(body_models(list@)),
    decreases list,
{
    let ghost all = body_models(list@);
    let mut res: Vec<(usize, IRInst)> = Vec::new();
    let mut i: usize = 0;
    while i < list.len()
        invariant
            i <= list@.len(),
            all == body_models(list@),
            res@.len() == i,
            forall|k: int| 0 <= k < i ==> (#[trigger] res@[k]).0 == all[k].0 && res@[k].1.model() == simplified_in(
                all[k].1,
            ),
        decreases list@.len() - i,
    {
        assert(decreases_to!(list => list@[i as int]));
        res.push((list[i].0, simplify_instruction(&list[i].1)));
        i = i + 1;
    }
    assert(body_models(res@) =~= simplified_in_body(all));
    res
}

pub open spec fn body_simplified(function: FunctionModel) -> Seq<(usize, InstModel)> {
    simplified_in_body(function.body)
}

fn simplify(function: &SyntheticFunction) -> (res: Vec<(usize, IRInst)>)
    ensures
        body_models(res@) == body_simplified(function.model()),
{
    simplify_instruction_body(&function.body)
}

pub open spec fn function_simplified(function: FunctionModel) -> FunctionModel {
    FunctionModel { body: body_simplified(function), ..function }
}

pub open spec fn program_simplified(program: ProgramModel) -> ProgramModel {
    ProgramModel {
        functions: program.functions.map_values(|f: FunctionModel| function_simplified(f)),
        ..program
    }
}

/// Simplifies the operations of every function.
pub fn run(program: &mut Program)
    ensures
        final(program).model() == program_simplified(old(program).model()),
{
    let ghost before = function_models(program.functions@);
    let ghost initial = *program;
    let total: usize = program.functions.len();
    let mut i: usize = 0;
    while i < total
        invariant
            i <= total,
            total == program.functions@.len(),
            total == before.len(),
            *program == (Program { functions: program.functions, ..initial }),
            forall|k: int|
                0 <= k < i ==> (#[trigger] program.functions@[k]).model() == function_simplified(
                    before[k],
                ),
            forall|k: int|
                i <= k < total ==> (#[trigger] program.functions@[k]).model() == before[k],
        decreases total - i,
    {
        let body: Vec<(usize, IRInst)> = simplify(&program.functions[i]);
        program.functions[i].body = body;
        i = i + 1;
    }
    assert(program.model().functions =~= program_simplified(initial.model()).functions);
}

/// What operations do with numbers.
pub struct Algebra {
    pub leaf: spec_fn(IRExpr) -> int,
    pub operation: spec_fn(IRBinOpKind, int, int) -> int,
    pub load: spec_fn(int) -> int,
    pub pointer: spec_fn(int, Option<usize>) -> int,
    pub conversion: spec_fn(int, IntegerType, IntegerType) -> int,
    pub negation: spec_fn(int) -> int,
}

/// What an expression stands for.
pub open spec fn meaning(expr: IRExpr, algebra: Algebra) -> int
    decreases expr,
{
    match expr {
        IRExpr::BinOp { kind, lhs, rhs } => (algebra.operation)(
            kind,
            meaning(*lhs, algebra),
            meaning(*rhs, algebra),
        ),
        IRExpr::Deref(address) => (algebra.load)(meaning(*address, algebra)),
        IRExpr::CastUnknownPtr { address, size } => (algebra.pointer)(
            meaning(*address, algebra),
            size,
        ),
        IRExpr::Convert { value, source, target } => (algebra.conversion)(
            meaning(*value, algebra),
            source,
            target,
        ),
        IRExpr::Not(inner) => (algebra.negation)(meaning(*inner, algebra)),
        _ => (algebra.leaf)(expr),
    }
}

/// Whether zero is neutral, the conjunction of a number with itself the number, and
/// the negation of a comparison its opposite.
pub open spec fn is_lawful(algebra: Algebra) -> bool {
    &&& (algebra.leaf)(IRExpr::CU8(0)) == 0
    &&& (algebra.leaf)(IRExpr::CU32(0)) == 0
    &&& (algebra.leaf)(IRExpr::CU64(0)) == 0
    &&& forall|value: bool|
        (algebra.negation)(#[trigger] (algebra.leaf)(IRExpr::Bool(value))) == (algebra.leaf)(
            IRExpr::Bool(!value),
        )
    &&& forall|x: int| #[trigger] (algebra.operation)(IRBinOpKind::Add, 0, x) == x
    &&& forall|x: int| #[trigger] (algebra.operation)(IRBinOpKind::Add, x, 0) == x
    &&& forall|x: int| #[trigger] (algebra.operation)(IRBinOpKind::Sub, x, 0) == x
    &&& forall|x: int| #[trigger] (algebra.operation)(IRBinOpKind::Shl, x, 0) == x
    &&& forall|x: int| #[trigger] (algebra.operation)(IRBinOpKind::And, x, x) == x
    &&& forall|kind: IRBinOpKind, x: int, y: int|
        opposite_of(kind) matches Some(other) ==> (algebra.negation)(
            #[trigger] (algebra.operation)(kind, x, y),
        ) == (algebra.operation)(other, x, y)
}

/// Simplified expressions stand for the same as before.
pub proof fn law_simplification_keeps_the_meaning(expr: IRExpr, algebra: Algebra)
    requires
        is_lawful(algebra),
    ensures
        meaning(simplified(expr), algebra) == meaning(expr, algebra),
    decreases expr,
{
    match expr {
        IRExpr::BinOp { kind, lhs, rhs } => {
            law_simplification_keeps_the_meaning(*lhs, algebra);
            law_simplification_keeps_the_meaning(*rhs, algebra);
            let left = simplified(*lhs);
            let right = simplified(*rhs);
            assert(is_zero(left) ==> meaning(left, algebra) == 0);
            assert(is_zero(right) ==> meaning(right, algebra) == 0);
            assert(meaning(reduced(kind, left, right), algebra) == (algebra.operation)(
                kind,
                meaning(left, algebra),
                meaning(right, algebra),
            ));
        },
        IRExpr::Deref(address) => law_simplification_keeps_the_meaning(*address, algebra),
        IRExpr::CastUnknownPtr { address, .. } => {
            law_simplification_keeps_the_meaning(*address, algebra);
        },
        IRExpr::Convert { value, .. } => law_simplification_keeps_the_meaning(*value, algebra),
        IRExpr::Not(inner) => {
            law_simplification_keeps_the_meaning(*inner, algebra);
            let made = simplified(*inner);
            assert(meaning(inverted(made), algebra) == (algebra.negation)(
                meaning(made, algebra),
            ));
        },
        _ => {},
    }
}

} // verus!
