//! The rewrite rules, in the order in which they are tried.
use super::facts::{Facts, FactsModel};
use super::Options;
use crate::irt6::arithmetic::{
    binding_models, bound_value, negation, plain_value, value_reads, Bindings, Context,
    ContextModel, Value, ValueModel,
};
use crate::irt6::effects::{body_effects, is_repeatable, repeatable, Effects};
use crate::irt6::ir::{
    clone_body, clone_instructions, models, IRBinOpKind, IRExpr, IRInst, InstModel, LoopCondition,
    VariableId,
};
use crate::irt6::lists::{depth, depth_list};
use crate::irt6::shapes::assignment::{compound_assignment, compound_assignment_of};
use crate::irt6::shapes::boolean::{boolean_return, de_morgan, pushed_negation, returned_truth};
use crate::irt6::shapes::cstring::{cstring_empty_check, empty_check};
use crate::irt6::shapes::loops::{analysis_of, analyze, LoopAnalysis};
use crate::irt6::shapes::modulo::{guarded_modulo, guarded_modulo_of, GuardedModulo};
use crate::table::Table;
use vstd::prelude::*;

verus! {

/// An instruction after a rule, and the offset at which the rule applied.
pub struct AppliedModel {
    pub instr: InstModel,
    pub offset: usize,
    pub rule: Seq<char>,
}

pub struct Applied {
    pub instr: IRInst,
    pub offset: usize,
    pub rule: &'static str,
}

impl Applied {
    pub open spec fn model(self) -> AppliedModel {
        AppliedModel { instr: self.instr.model(), offset: self.offset, rule: self.rule@ }
    }
}

/// An expression with the negations in it pushed through short-circuit chains, and
/// whether there was one.
pub open spec fn simplified(expr: IRExpr) -> (IRExpr, bool)
    decreases expr,
{
    let inner = match expr {
        IRExpr::BinOp { kind, lhs, rhs } => (
            IRExpr::BinOp {
                kind,
                lhs: Box::new(simplified(*lhs).0),
                rhs: Box::new(simplified(*rhs).0),
            },
            simplified(*lhs).1 || simplified(*rhs).1,
        ),
        IRExpr::ElementAddress { base, index, element_size } => (
            IRExpr::ElementAddress {
                base: Box::new(simplified(*base).0),
                index: Box::new(simplified(*index).0),
                element_size,
            },
            simplified(*base).1 || simplified(*index).1,
        ),
        IRExpr::Deref(address) => (
            IRExpr::Deref(Box::new(simplified(*address).0)),
            simplified(*address).1,
        ),
        IRExpr::CStringLength(base) => (
            IRExpr::CStringLength(Box::new(simplified(*base).0)),
            simplified(*base).1,
        ),
        IRExpr::MemoryAddress { address, size } => (
            IRExpr::MemoryAddress { address: Box::new(simplified(*address).0), size },
            simplified(*address).1,
        ),
        IRExpr::Convert { value, source, target } => (
            IRExpr::Convert { value: Box::new(simplified(*value).0), source, target },
            simplified(*value).1,
        ),
        IRExpr::Not(inner) => (
            IRExpr::Not(Box::new(simplified(*inner).0)),
            simplified(*inner).1,
        ),
        _ => (expr, false),
    };
    match pushed_negation(inner.0) {
        Some(replacement) => (replacement, true),
        None => inner,
    }
}

fn simplify_boolean_expression(expr: &IRExpr) -> (res: (IRExpr, bool))
    ensures
        res == simplified(*expr),
    decreases expr,
{
    let (inner, changed): (IRExpr, bool) = match expr {
        IRExpr::BinOp { kind, lhs, rhs } => {
            let (left, left_changed) = simplify_boolean_expression(lhs);
            let (right, right_changed) = simplify_boolean_expression(rhs);
            (
                IRExpr::BinOp { kind: *kind, lhs: Box::new(left), rhs: Box::new(right) },
                left_changed || right_changed,
            )
        },
        IRExpr::ElementAddress { base, index, element_size } => {
            let (left, left_changed) = simplify_boolean_expression(base);
            let (right, right_changed) = simplify_boolean_expression(index);
            (
                IRExpr::ElementAddress {
                    base: Box::new(left),
                    index: Box::new(right),
                    element_size: *element_size,
                },
                left_changed || right_changed,
            )
        },
        IRExpr::Deref(address) => {
            let (value, changed) = simplify_boolean_expression(address);
            (IRExpr::Deref(Box::new(value)), changed)
        },
        IRExpr::CStringLength(base) => {
            let (value, changed) = simplify_boolean_expression(base);
            (IRExpr::CStringLength(Box::new(value)), changed)
        },
        IRExpr::MemoryAddress { address, size } => {
            let (value, changed) = simplify_boolean_expression(address);
            (IRExpr::MemoryAddress { address: Box::new(value), size: *size }, changed)
        },
        IRExpr::Convert { value, source, target } => {
            let (value, changed) = simplify_boolean_expression(value);
            (
                IRExpr::Convert { value: Box::new(value), source: *source, target: *target },
                changed,
            )
        },
        IRExpr::Not(inner) => {
            let (value, changed) = simplify_boolean_expression(inner);
            (IRExpr::Not(Box::new(value)), changed)
        },
        _ => (expr.clone(), false),
    };
    match de_morgan(&inner) {
        Some(replacement) => (replacement, true),
        None => (inner, changed),
    }
}

pub open spec fn simplified_all(list: Seq<IRExpr>) -> Seq<IRExpr> {
    list.map_values(|e: IRExpr| simplified(e).0)
}

pub open spec fn any_simplified(list: Seq<IRExpr>) -> bool {
    exists|i: int| 0 <= i < list.len() && simplified(#[trigger] list[i]).1
}

fn simplify_all(list: &Vec<IRExpr>) -> (res: (Vec<IRExpr>, bool))
    ensures
        res.0@ == simplified_all(list@),
        res.1 == any_simplified(list@),
{
    let mut made: Vec<IRExpr> = Vec::new();
    let mut changed: bool = false;
    let mut i: usize = 0;
    while i < list.len()
        invariant
            i <= list@.len(),
            made@.len() == i,
            forall|k: int| 0 <= k < i ==> (#[trigger] made@[k]) == simplified(list@[k]).0,
            changed ==> any_simplified(list@),
            !changed ==> forall|k: int| 0 <= k < i ==> !simplified(#[trigger] list@[k]).1,
        decreases list@.len() - i,
    {
        let (value, simpler) = simplify_boolean_expression(&list[i]);
        if simpler {
            assert(simplified(list@[i as int]).1);
            changed = true;
        }
        made.push(value);
        i = i + 1;
    }
    assert(made@ =~= simplified_all(list@));
    (made, changed)
}

/// An instruction with the negations in its own expressions pushed inwards, and
/// whether there was one.
pub open spec fn simplified_instruction(instr: InstModel) -> (InstModel, bool) {
    match instr {
        InstModel::Assign { dest, src } => (
            InstModel::Assign { dest: simplified(dest).0, src: simplified(src).0 },
            simplified(dest).1 || simplified(src).1,
        ),
        InstModel::CompoundAssign { dest, kind, value } => (
            InstModel::CompoundAssign {
                dest: simplified(dest).0,
                kind,
                value: simplified(value).0,
            },
            simplified(dest).1 || simplified(value).1,
        ),
        InstModel::Return(Some(value)) => (
            InstModel::Return(Some(simplified(value).0)),
            simplified(value).1,
        ),
        InstModel::DeclareAndAssignVariable { variable, ty, value } => (
            InstModel::DeclareAndAssignVariable { variable, ty, value: simplified(value).0 },
            simplified(value).1,
        ),
        InstModel::AssignVariable { variable, value } => (
            InstModel::AssignVariable { variable, value: simplified(value).0 },
            simplified(value).1,
        ),
        InstModel::Jump(target) => (InstModel::Jump(simplified(target).0), simplified(target).1),
        InstModel::LoadVariable { variable, address } => (
            InstModel::LoadVariable { variable, address: simplified(address).0 },
            simplified(address).1,
        ),
        InstModel::StoreVariable { address, variable } => (
            InstModel::StoreVariable { address: simplified(address).0, variable },
            simplified(address).1,
        ),
        InstModel::If { condition, then_branch, else_branch } => (
            InstModel::If { condition: simplified(condition).0, then_branch, else_branch },
            simplified(condition).1,
        ),
        InstModel::While { label, entry_offset, condition, body } => (
            InstModel::While {
                label,
                entry_offset,
                condition: checking(condition, simplified(condition.check()).0),
                body,
            },
            simplified(condition.check()).1,
        ),
        InstModel::ForEach {
            entry_offset,
            condition_offset,
            advance_offset,
            load_offset,
            variable,
            element_type,
            vector,
            start,
            index_bits,
            body,
        } => (
            InstModel::ForEach {
                entry_offset,
                condition_offset,
                advance_offset,
                load_offset,
                variable,
                element_type,
                vector: simplified(vector).0,
                start,
                index_bits,
                body,
            },
            simplified(vector).1,
        ),
        InstModel::CallSynthetic { function, arguments } => (
            InstModel::CallSynthetic { function, arguments: simplified_all(arguments) },
            any_simplified(arguments),
        ),
        _ => (instr, false),
    }
}

/// A loop condition with another check.
pub open spec fn checking(condition: LoopCondition, expression: IRExpr) -> LoopCondition {
    match condition {
        LoopCondition::Before { offset, .. } => LoopCondition::Before { offset, expression },
        LoopCondition::After { offset, .. } => LoopCondition::After { offset, expression },
    }
}

fn simplify_boolean_chains(instr: &IRInst) -> (res: Option<IRInst>)
    ensures
        match res {
            Some(made) => simplified_instruction(instr.model()) == (made.model(), true),
            None => !simplified_instruction(instr.model()).1,
        },
{
    let (made, changed): (IRInst, bool) = match instr {
        IRInst::Assign { dest, src } => {
            let (dest, dest_changed) = simplify_boolean_expression(dest);
            let (src, src_changed) = simplify_boolean_expression(src);
            (IRInst::Assign { dest, src }, dest_changed || src_changed)
        },
        IRInst::CompoundAssign { dest, kind, value } => {
            let (dest, dest_changed) = simplify_boolean_expression(dest);
            let (value, value_changed) = simplify_boolean_expression(value);
            (
                IRInst::CompoundAssign { dest, kind: *kind, value },
                dest_changed || value_changed,
            )
        },
        IRInst::Return(Some(value)) => {
            let (value, changed) = simplify_boolean_expression(value);
            (IRInst::Return(Some(value)), changed)
        },
        IRInst::DeclareAndAssignVariable { variable, ty, value } => {
            let (value, changed) = simplify_boolean_expression(value);
            (
                IRInst::DeclareAndAssignVariable { variable: *variable, ty: ty.clone(), value },
                changed,
            )
        },
        IRInst::AssignVariable { variable, value } => {
            let (value, changed) = simplify_boolean_expression(value);
            (IRInst::AssignVariable { variable: *variable, value }, changed)
        },
        IRInst::Jump(target) => {
            let (value, changed) = simplify_boolean_expression(target);
            (IRInst::Jump(value), changed)
        },
        IRInst::LoadVariable { variable, address } => {
            let (address, changed) = simplify_boolean_expression(address);
            (IRInst::LoadVariable { variable: *variable, address }, changed)
        },
        IRInst::StoreVariable { address, variable } => {
            let (address, changed) = simplify_boolean_expression(address);
            (IRInst::StoreVariable { address, variable: *variable }, changed)
        },
        IRInst::If { condition, then_branch, else_branch } => {
            let (condition, changed) = simplify_boolean_expression(condition);
            (
                IRInst::If {
                    condition,
                    then_branch: clone_instructions(then_branch),
                    else_branch: clone_instructions(else_branch),
                },
                changed,
            )
        },
        IRInst::While { label, entry_offset, condition, body } => {
            let (expression, changed) = simplify_boolean_expression(condition.expression());
            let condition: LoopCondition = match condition {
                LoopCondition::Before { offset, .. } => LoopCondition::Before {
                    offset: *offset,
                    expression,
                },
                LoopCondition::After { offset, .. } => LoopCondition::After {
                    offset: *offset,
                    expression,
                },
            };
            (
                IRInst::While {
                    label: *label,
                    entry_offset: *entry_offset,
                    condition,
                    body: clone_body(body),
                },
                changed,
            )
        },
        IRInst::ForEach {
            entry_offset,
            condition_offset,
            advance_offset,
            load_offset,
            variable,
            element_type,
            vector,
            start,
            index_bits,
            body,
        } => {
            let (vector, changed) = simplify_boolean_expression(vector);
            (
                IRInst::ForEach {
                    entry_offset: *entry_offset,
                    condition_offset: *condition_offset,
                    advance_offset: *advance_offset,
                    load_offset: *load_offset,
                    variable: *variable,
                    element_type: element_type.clone(),
                    vector,
                    start: *start,
                    index_bits: *index_bits,
                    body: clone_body(body),
                },
                changed,
            )
        },
        IRInst::CallSynthetic { function, arguments } => {
            let (arguments, changed) = simplify_all(arguments);
            (IRInst::CallSynthetic { function: *function, arguments }, changed)
        },
        _ => return None,
    };
    if changed {
        Some(made)
    } else {
        None
    }
}

/// The bindings after the declaration of a local between a guard and its loop, if
/// its value can be captured there.
pub open spec fn captured(
    instr: InstModel,
    guard: ValueModel,
    bindings: Map<VariableId, ValueModel>,
    context: ContextModel,
) -> Option<Map<VariableId, ValueModel>> {
    match instr {
        InstModel::DeclareAndAssignVariable { variable, value, .. } => {
            let bound = bound_value(context, value, bindings);
            if !is_repeatable(value) || value_reads(guard, variable) || (exists|v: VariableId|
                #[trigger]
                bindings.dom().contains(v) && value_reads(bindings[v], variable)) || plain_value(
                context,
                IRExpr::Variable(variable),
            ).bits != bound.bits {
                None
            } else {
                Some(bindings.insert(variable, bound))
            }
        },
        _ => None,
    }
}

/// Whether a loop checks after each iteration what its guard checks before.
pub open spec fn repeats_guard(
    instr: InstModel,
    guard: ValueModel,
    bindings: Map<VariableId, ValueModel>,
    context: ContextModel,
) -> bool {
    match instr {
        InstModel::While {
            label: None,
            condition: LoopCondition::After { expression, .. },
            body,
            ..
        } => {
            is_repeatable(expression) && bound_value(context, expression, bindings) == guard
                && !body_effects(body).control
        },
        _ => false,
    }
}

/// The loop with its check before each iteration.
pub open spec fn checked_before(instr: InstModel) -> InstModel {
    match instr {
        InstModel::While { label, entry_offset, condition, body } => InstModel::While {
            label,
            entry_offset,
            condition: match condition {
                LoopCondition::Before { .. } => condition,
                LoopCondition::After { offset, expression } => LoopCondition::Before {
                    offset,
                    expression,
                },
            },
            body,
        },
        _ => instr,
    }
}

pub open spec fn loop_entry(instr: InstModel) -> usize {
    match instr {
        InstModel::While { entry_offset, .. } => entry_offset,
        _ => 0,
    }
}

/// The position of the loop under a guard, from an item on. Only a prefix of fresh
/// local declarations may separate the guard from the loop.
pub open spec fn guarded_loop(
    branch: Seq<InstModel>,
    index: int,
    guard: ValueModel,
    bindings: Map<VariableId, ValueModel>,
    context: ContextModel,
) -> Option<int>
    decreases branch.len() - index,
{
    if index < 0 || index >= branch.len() {
        None
    } else {
        match captured(branch[index], guard, bindings, context) {
            Some(more) => guarded_loop(branch, index + 1, guard, more, context),
            None => if repeats_guard(branch[index], guard, bindings, context) {
                Some(index)
            } else {
                None
            },
        }
    }
}

/// The branch with the loop under its guard checked first, and the loop's offset.
pub open spec fn rotated_branch(
    branch: Seq<InstModel>,
    guard: ValueModel,
    context: ContextModel,
) -> Option<(Seq<InstModel>, usize)> {
    match guarded_loop(branch, 0, guard, Map::empty(), context) {
        Some(index) => Some(
            (branch.update(index, checked_before(branch[index])), loop_entry(branch[index])),
        ),
        None => None,
    }
}

/// A do loop under a guard that it repeats is a while loop.
pub open spec fn rotated(instr: InstModel, context: ContextModel) -> Option<(InstModel, usize)> {
    match instr {
        InstModel::If { condition, then_branch, else_branch } => {
            let guard = plain_value(context, condition);
            if !is_repeatable(condition) {
                None
            } else {
                match rotated_branch(then_branch, guard, context) {
                    Some((then_branch, offset)) => Some(
                        (InstModel::If { condition, then_branch, else_branch }, offset),
                    ),
                    None => match rotated_branch(else_branch, negation(guard), context) {
                        Some((else_branch, offset)) => Some(
                            (InstModel::If { condition, then_branch, else_branch }, offset),
                        ),
                        None => None,
                    },
                }
            }
        },
        _ => None,
    }
}

fn any_binding_reads(bindings: &Bindings, variable: VariableId) -> (res: bool)
    ensures
        res == exists|v: VariableId| #[trigger]
            binding_models(bindings@).dom().contains(v) && value_reads(
                binding_models(bindings@)[v],
                variable,
            ),
{
    let ghost all = binding_models(bindings@);
    let keys: Vec<VariableId> = bindings.keys();
    let mut i: usize = 0;
    while i < keys.len()
        invariant
            i <= keys@.len(),
            all == binding_models(bindings@),
            forall|v: VariableId| #[trigger] keys@.contains(v) <==> bindings@.dom().contains(v),
            forall|k: int| 0 <= k < i ==> !value_reads(all[#[trigger] keys@[k]], variable),
        decreases keys@.len() - i,
    {
        let key: VariableId = keys[i];
        assert(keys@.contains(key));
        if let Some(value) = bindings.get(key) {
            assert(all[key] == value.model());
            if value.reads(variable) {
                assert(all.dom().contains(key));
                return true;
            }
        }
        i = i + 1;
    }
    assert forall|v: VariableId| #[trigger] all.dom().contains(v) implies !value_reads(
        all[v],
        variable,
    ) by {
        assert(keys@.contains(v));
        let k = choose|k: int| 0 <= k < keys@.len() && keys@[k] == v;
        assert(!value_reads(all[keys@[k]], variable));
    }
    false
}

fn same_bits(a: Option<usize>, b: Option<usize>) -> (res: bool)
    ensures
        res == (a == b),
{
    match (a, b) {
        (Some(a), Some(b)) => a == b,
        (None, None) => true,
        _ => false,
    }
}

fn capture(instr: &IRInst, guard: &Value, bindings: &mut Bindings, context: &Context) -> (res: bool)
    ensures
        match captured(instr.model(), guard.model(), binding_models(old(bindings)@), context@) {
            Some(more) => res && binding_models(final(bindings)@) == more,
            None => !res && final(bindings)@ == old(bindings)@,
        },
{
    match instr {
        IRInst::DeclareAndAssignVariable { variable, value, .. } => {
            if !repeatable(value) || guard.reads(*variable) || any_binding_reads(
                bindings,
                *variable,
            ) {
                return false;
            }
            let bound: Value = context.with_bindings(value, bindings);
            let destination: Value = context.value(&IRExpr::Variable(*variable));
            if !same_bits(destination.bits, bound.bits) {
                return false;
            }
            let ghost before = binding_models(bindings@);
            let ghost model = bound.model();
            bindings.insert(*variable, bound);
            assert(binding_models(bindings@) =~= before.insert(*variable, model));
            true
        },
        _ => false,
    }
}

fn repeats(instr: &IRInst, guard: &Value, bindings: &Bindings, context: &Context) -> (res: bool)
    ensures
        res == repeats_guard(instr.model(), guard.model(), binding_models(bindings@), context@),
{
    match instr {
        IRInst::While {
            label: None,
            condition: LoopCondition::After { expression, .. },
            body,
            ..
        } => {
            if !repeatable(expression) {
                return false;
            }
            let value: Value = context.with_bindings(expression, bindings);
            // Continue in earlier tiers can bypass a trailing check.
            // Nested control flow requires a separate rotation proof.
            value.same(guard) && !Effects::of_body(body).control
        },
        _ => false,
    }
}

fn check_before(instr: &IRInst) -> (res: (IRInst, usize))
    ensures
        res.0.model() == checked_before(instr.model()),
        res.1 == loop_entry(instr.model()),
{
    match instr {
        IRInst::While { label, entry_offset, condition, body } => (
            IRInst::While {
                label: *label,
                entry_offset: *entry_offset,
                condition: match condition {
                    LoopCondition::Before { .. } => condition.clone(),
                    LoopCondition::After { offset, expression } => LoopCondition::Before {
                        offset: *offset,
                        expression: expression.clone(),
                    },
                },
                body: clone_body(body),
            },
            *entry_offset,
        ),
        _ => (instr.clone(), 0),
    }
}

fn rotate_branch(branch: &Vec<IRInst>, guard: &Value, context: &Context) -> (res: Option<
    (Vec<IRInst>, usize),
>)
    ensures
        match res {
            Some((made, offset)) => rotated_branch(models(branch@), guard.model(), context@)
                == Some((models(made@), offset)),
            None => rotated_branch(models(branch@), guard.model(), context@) is None,
        },
{
    let ghost all = models(branch@);
    let mut bindings: Bindings = Table::new();
    assert(binding_models(bindings@) =~= Map::empty());
    let mut index: usize = 0;
    while index < branch.len()
        invariant
            index <= branch@.len(),
            all == models(branch@),
            guarded_loop(all, 0, guard.model(), Map::empty(), context@) == guarded_loop(
                all,
                index as int,
                guard.model(),
                binding_models(bindings@),
                context@,
            ),
        decreases branch@.len() - index,
    {
        assert(all[index as int] == branch@[index as int].model());
        if !capture(&branch[index], guard, &mut bindings, context) {
            if !repeats(&branch[index], guard, &bindings, context) {
                return None;
            }
            let (made, offset) = check_before(&branch[index]);
            let mut list: Vec<IRInst> = clone_instructions(branch);
            list.set(index, made);
            assert(models(list@) =~= all.update(index as int, made.model()));
            return Some((list, offset));
        }
        index = index + 1;
    }
    None
}

fn rotate_guarded_loop(instr: &IRInst, context: &Context) -> (res: Option<(IRInst, usize)>)
    ensures
        match res {
            Some((made, offset)) => rotated(instr.model(), context@) == Some(
                (made.model(), offset),
            ),
            None => rotated(instr.model(), context@) is None,
        },
{
    match instr {
        IRInst::If { condition, then_branch, else_branch } => {
            if !repeatable(condition) {
                return None;
            }
            let guard: Value = context.value(condition);
            if let Some((made, offset)) = rotate_branch(then_branch, &guard, context) {
                return Some(
                    (
                        IRInst::If {
                            condition: condition.clone(),
                            then_branch: made,
                            else_branch: clone_instructions(else_branch),
                        },
                        offset,
                    ),
                );
            }
            let opposite: Value = guard.negated();
            match rotate_branch(else_branch, &opposite, context) {
                Some((made, offset)) => Some(
                    (
                        IRInst::If {
                            condition: condition.clone(),
                            then_branch: clone_instructions(then_branch),
                            else_branch: made,
                        },
                        offset,
                    ),
                ),
                None => None,
            }
        },
        _ => None,
    }
}

/// A comparison of a string's cached first byte with zero is a length check.
pub open spec fn with_empty_check(
    instr: InstModel,
    facts: FactsModel,
    context: ContextModel,
) -> Option<
    InstModel,
> {
    match instr {
        InstModel::If { condition, then_branch, else_branch } => match empty_check(
            condition,
            facts.loaded_from,
            context,
        ) {
            Some(condition) => Some(InstModel::If { condition, then_branch, else_branch }),
            None => None,
        },
        _ => None,
    }
}

fn recover_cstring_empty_check(instr: &IRInst, context: &Context, facts: &Facts) -> (res: Option<
    IRInst,
>)
    ensures
        match res {
            Some(made) => with_empty_check(instr.model(), facts.model(), context@) == Some(
                made.model(),
            ),
            None => with_empty_check(instr.model(), facts.model(), context@) is None,
        },
{
    match instr {
        IRInst::If { condition, then_branch, else_branch } => match cstring_empty_check(
            condition,
            &facts.loaded_from,
            context,
        ) {
            Some(condition) => Some(
                IRInst::If {
                    condition,
                    then_branch: clone_instructions(then_branch),
                    else_branch: clone_instructions(else_branch),
                },
            ),
            None => None,
        },
        _ => None,
    }
}

/// A loop that subtracts a stride as long as it can leaves the remainder. A zero
/// stride makes the loop nonterminating: it is recovered for terminating
/// executions, where the stride is nonzero.
pub open spec fn as_remainder(
    instr: InstModel,
    facts: FactsModel,
    context: ContextModel,
    options: Options,
) -> Option<(InstModel, usize)> {
    match analysis_of(instr, context) {
        Some(analysis) => match analysis.subtraction {
            Some(shape) => if shape.blockers.len() > 0 || facts.zero(shape.stride) == Some(true)
                || (facts.zero(shape.stride) is None && !options.allow_assumptions) {
                None
            } else {
                Some(
                    (
                        InstModel::AssignVariable {
                            variable: shape.accumulator,
                            value: IRExpr::BinOp {
                                kind: IRBinOpKind::UnsignedMod,
                                lhs: Box::new(IRExpr::Variable(shape.accumulator)),
                                rhs: Box::new(shape.stride_source),
                            },
                        },
                        analysis.offset,
                    ),
                )
            },
            None => None,
        },
        None => None,
    }
}

fn recover_remainder(
    instr: &IRInst,
    context: &Context,
    facts: &Facts,
    options: &Options,
) -> (res: Option<
    (IRInst, usize),
>)
    ensures
        match res {
            Some((made, offset)) => as_remainder(instr.model(), facts.model(), context@, *options)
                == Some((made.model(), offset)),
            None => as_remainder(instr.model(), facts.model(), context@, *options) is None,
        },
{
    let analysis: LoopAnalysis = match analyze(instr, context) {
        Some(analysis) => analysis,
        None => return None,
    };
    match analysis.subtraction {
        Some(shape) => {
            if shape.blockers.len() > 0 {
                return None;
            }
            match facts.is_zero(&shape.stride) {
                Some(true) => return None,
                Some(false) => {},
                None => {
                    if !options.allow_assumptions {
                        return None;
                    }
                },
            }
            Some(
                (
                    IRInst::AssignVariable {
                        variable: shape.accumulator,
                        value: IRExpr::BinOp {
                            kind: IRBinOpKind::UnsignedMod,
                            lhs: Box::new(IRExpr::Variable(shape.accumulator)),
                            rhs: Box::new(shape.stride_source),
                        },
                    },
                    analysis.offset,
                ),
            )
        },
        None => None,
    }
}

/// A remainder under the guard that the dividend is not smaller than the stride
/// needs no guard where the destination holds the dividend already: on the skipped
/// path the remainder is the dividend.
pub open spec fn without_guard(
    instr: InstModel,
    facts: FactsModel,
    context: ContextModel,
) -> Option<
    InstModel,
> {
    match guarded_modulo_of(instr, context) {
        Some(shape) => if facts.holds(shape.destination, shape.dividend) {
            Some(shape.replacement)
        } else {
            None
        },
        None => None,
    }
}

fn eliminate_guarded_modulo(instr: &IRInst, context: &Context, facts: &Facts) -> (res: Option<
    IRInst,
>)
    ensures
        match res {
            Some(made) => without_guard(instr.model(), facts.model(), context@) == Some(
                made.model(),
            ),
            None => without_guard(instr.model(), facts.model(), context@) is None,
        },
{
    match guarded_modulo(instr, context) {
        Some(shape) => {
            let shape: GuardedModulo = shape;
            if facts.destination_contains(&shape.destination, &shape.dividend) {
                Some(shape.replacement)
            } else {
                None
            }
        },
        None => None,
    }
}

pub open spec fn applied(instr: InstModel, offset: usize, rule: Seq<char>) -> Option<AppliedModel> {
    Some(AppliedModel { instr, offset, rule })
}

/// The first rule that applies to an instruction.
pub open spec fn first_rule(
    instr: InstModel,
    offset: usize,
    facts: FactsModel,
    context: ContextModel,
    options: Options,
) -> Option<AppliedModel> {
    if let Some(made) = with_empty_check(instr, facts, context) {
        applied(made, offset, "cstring-empty-check"@)
    } else if let Some(value) = returned_truth(instr) {
        applied(InstModel::Return(Some(value)), offset, "boolean-branch-to-return"@)
    } else if let Some((made, at)) = rotated(instr, context) {
        applied(made, at, "guarded-do-to-while"@)
    } else if let Some((made, at)) = as_remainder(instr, facts, context, options) {
        applied(made, at, "repeated-subtraction-to-remainder"@)
    } else if let Some(made) = without_guard(instr, facts, context) {
        applied(made, offset, "eliminate-guarded-modulo"@)
    } else if let Some(shape) = compound_assignment_of(instr) {
        applied(
            InstModel::CompoundAssign { dest: shape.dest, kind: shape.kind, value: shape.value },
            offset,
            "compound-assignment"@,
        )
    } else if simplified_instruction(instr).1 {
        applied(simplified_instruction(instr).0, offset, "de-morgan"@)
    } else {
        None
    }
}

pub fn apply_rules(
    instr: &IRInst,
    offset: usize,
    facts: &Facts,
    context: &Context,
    options: &Options,
) -> (res: Option<Applied>)
    ensures
        match res {
            Some(made) => first_rule(instr.model(), offset, facts.model(), context@, *options)
                == Some(made.model()),
            None => first_rule(instr.model(), offset, facts.model(), context@, *options) is None,
        },
{
    if let Some(instr) = recover_cstring_empty_check(instr, context, facts) {
        return Some(Applied { instr, offset, rule: "cstring-empty-check" });
    }
    if let Some(value) = boolean_return(instr) {
        return Some(
            Applied {
                instr: IRInst::Return(Some(value)),
                offset,
                rule: "boolean-branch-to-return",
            },
        );
    }
    if let Some((instr, offset)) = rotate_guarded_loop(instr, context) {
        return Some(Applied { instr, offset, rule: "guarded-do-to-while" });
    }
    if let Some((instr, offset)) = recover_remainder(instr, context, facts, options) {
        return Some(Applied { instr, offset, rule: "repeated-subtraction-to-remainder" });
    }
    if let Some(instr) = eliminate_guarded_modulo(instr, context, facts) {
        return Some(Applied { instr, offset, rule: "eliminate-guarded-modulo" });
    }
    if let Some(shape) = compound_assignment(instr) {
        return Some(
            Applied {
                instr: IRInst::CompoundAssign {
                    dest: shape.dest,
                    kind: shape.kind,
                    value: shape.value,
                },
                offset,
                rule: "compound-assignment",
            },
        );
    }
    match simplify_boolean_chains(instr) {
        Some(instr) => Some(Applied { instr, offset, rule: "de-morgan" }),
        None => None,
    }
}

proof fn lemma_updated_depth(list: Seq<InstModel>, index: int, instr: InstModel)
    requires
        0 <= index < list.len(),
        depth(instr) == depth(list[index]),
    ensures
        depth_list(list.update(index, instr)) == depth_list(list),
    decreases list.len(),
{
    let made = list.update(index, instr);
    if index == list.len() - 1 {
        assert(made.drop_last() =~= list.drop_last());
    } else {
        lemma_updated_depth(list.drop_last(), index, instr);
        assert(made.drop_last() =~= list.drop_last().update(index, instr));
        assert(made[made.len() - 1] == list[list.len() - 1]);
    }
}

proof fn lemma_guarded_loop(
    branch: Seq<InstModel>,
    index: int,
    guard: ValueModel,
    bindings: Map<VariableId, ValueModel>,
    context: ContextModel,
)
    ensures
        guarded_loop(branch, index, guard, bindings, context) matches Some(at) ==> 0 <= at
            < branch.len() && branch[at] is While,
    decreases branch.len() - index,
{
    if 0 <= index < branch.len() {
        if let Some(more) = captured(branch[index], guard, bindings, context) {
            lemma_guarded_loop(branch, index + 1, guard, more, context);
        }
    }
}

proof fn lemma_rotated_depth(branch: Seq<InstModel>, guard: ValueModel, context: ContextModel)
    ensures
        rotated_branch(branch, guard, context) matches Some((made, _)) ==> depth_list(made)
            == depth_list(branch),
{
    lemma_guarded_loop(branch, 0, guard, Map::empty(), context);
    if let Some(at) = guarded_loop(branch, 0, guard, Map::empty(), context) {
        lemma_updated_depth(branch, at, checked_before(branch[at]));
    }
}

/// No rule makes an instruction deeper.
pub proof fn law_rules_keep_depth(
    instr: InstModel,
    offset: usize,
    facts: FactsModel,
    context: ContextModel,
    options: Options,
)
    ensures
        first_rule(instr, offset, facts, context, options) matches Some(made) ==> depth(made.instr)
            <= depth(instr),
{
    if let InstModel::If { condition, then_branch, else_branch } = instr {
        let guard = plain_value(context, condition);
        lemma_rotated_depth(then_branch, guard, context);
        lemma_rotated_depth(else_branch, negation(guard), context);
    }
}

} // verus!
