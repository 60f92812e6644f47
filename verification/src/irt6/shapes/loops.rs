//! Loops that repeatedly subtract, and what stands in the way of replacing them.
use super::super::arithmetic::{
    difference, plain_value, value_reads, Context, ContextModel, Kind,
    KindModel, Value, ValueModel,
};
use super::super::effects::{body_effects, is_repeatable, repeatable, Effects};
use super::super::ir::{
    body_models, IRBinOpKind, IRExpr, IRInst, InstModel, LoopCondition, VariableId,
};
use super::visit::Analyzer;
use crate::table::KeySet;
use vstd::prelude::*;

verus! {

pub struct SubtractionLoop {
    pub accumulator: VariableId,
    pub stride: Value,
    /// Keep the source expression for code generation; normalization is a proof
    /// tool and does not invent evaluation or memory access order.
    pub stride_source: IRExpr,
    pub bits: usize,
    pub blockers: Vec<&'static str>,
}

pub struct LoopAnalysis {
    pub offset: usize,
    pub check: Value,
    pub updates: Vec<(VariableId, Value)>,
    pub subtraction: Option<SubtractionLoop>,
}

pub struct SubtractionModel {
    pub accumulator: VariableId,
    pub stride: ValueModel,
    pub stride_source: IRExpr,
    pub bits: usize,
    pub blockers: Seq<Seq<char>>,
}

pub struct AnalysisModel {
    pub offset: usize,
    pub check: ValueModel,
    pub updates: Seq<(VariableId, ValueModel)>,
    pub subtraction: Option<SubtractionModel>,
}

pub open spec fn texts(list: Seq<&'static str>) -> Seq<Seq<char>> {
    list.map_values(|text: &'static str| text@)
}

pub open spec fn update_models(updates: Seq<(VariableId, Value)>) -> Seq<(VariableId, ValueModel)> {
    updates.map_values(|update: (VariableId, Value)| (update.0, update.1.model()))
}

impl SubtractionLoop {
    pub open spec fn model(self) -> SubtractionModel {
        SubtractionModel {
            accumulator: self.accumulator,
            stride: self.stride.model(),
            stride_source: self.stride_source,
            bits: self.bits,
            blockers: texts(self.blockers@),
        }
    }
}

impl LoopAnalysis {
    pub open spec fn model(self) -> AnalysisModel {
        AnalysisModel {
            offset: self.offset,
            check: self.check.model(),
            updates: update_models(self.updates@),
            subtraction: match self.subtraction {
                Some(subtraction) => Some(subtraction.model()),
                None => None,
            },
        }
    }
}

pub open spec fn analysis_models(analyses: Seq<LoopAnalysis>) -> Seq<AnalysisModel> {
    analyses.map_values(|analysis: LoopAnalysis| analysis.model())
}

/// The variable that an instruction assigns, and the value.
pub open spec fn assigned(instr: InstModel) -> Option<(VariableId, IRExpr)> {
    match instr {
        InstModel::AssignVariable { variable, value } => Some((variable, value)),
        InstModel::DeclareAndAssignVariable { variable, value, .. } => Some((variable, value)),
        InstModel::Assign { dest: IRExpr::Variable(variable), src } => Some((variable, src)),
        _ => None,
    }
}

pub fn assignment(instr: &IRInst) -> (res: Option<(VariableId, &IRExpr)>)
    ensures
        match res {
            Some((variable, value)) => assigned(instr.model()) == Some((variable, *value)),
            None => assigned(instr.model()) is None,
        },
{
    match instr {
        IRInst::AssignVariable { variable, value } => Some((*variable, value)),
        IRInst::DeclareAndAssignVariable { variable, value, .. } => Some((*variable, value)),
        IRInst::Assign { dest: IRExpr::Variable(variable), src } => Some((*variable, src)),
        _ => None,
    }
}

/// The assignments at the top level of a body, in order.
pub open spec fn updates_of(body: Seq<(usize, InstModel)>, context: ContextModel) -> Seq<
    (VariableId, ValueModel),
>
    decreases body.len(),
{
    if body.len() == 0 {
        Seq::empty()
    } else {
        let rest = updates_of(body.drop_last(), context);
        match assigned(body.last().1) {
            Some((variable, value)) => rest.push((variable, plain_value(context, value))),
            None => rest,
        }
    }
}

/// The expression under any number of negations.
pub open spec fn without_negations(expr: IRExpr) -> IRExpr
    decreases expr,
{
    match expr {
        IRExpr::Not(inner) => without_negations(*inner),
        _ => expr,
    }
}

pub open spec fn push_if(list: Seq<Seq<char>>, condition: bool, text: Seq<char>) -> Seq<Seq<char>> {
    if condition {
        list.push(text)
    } else {
        list
    }
}

/// Whether the value reads any variable of the set.
pub open spec fn reads_any(value: ValueModel, variables: Set<VariableId>) -> bool {
    exists|v: VariableId| #[trigger] variables.contains(v) && value_reads(value, v)
}

/// Why a repeated subtraction must be kept as a loop.
pub open spec fn blockers_of(
    label: bool,
    condition: LoopCondition,
    body: Seq<(usize, InstModel)>,
    accumulator: VariableId,
    stride: ValueModel,
    stride_source: IRExpr,
) -> Seq<Seq<char>> {
    let effects = body_effects(body);
    let b = Seq::<Seq<char>>::empty();
    let b = push_if(
        b,
        condition is After,
        "entry condition has not been proved; guarded loop rotation required"@,
    );
    let b = push_if(b, label, "loop has a control-flow label"@);
    let b = push_if(b, value_reads(stride, accumulator), "stride depends on the accumulator"@);
    let b = push_if(
        b,
        !is_repeatable(stride_source),
        "stride evaluation can read memory or trap"@,
    );
    let b = push_if(b, reads_any(stride, effects.writes), "stride changes within the loop"@);
    let b = push_if(
        b,
        effects.memory_read,
        "loop reloads memory; no memory independence proof"@,
    );
    let b = push_if(b, effects.memory_write, "loop stores intermediate results"@);
    let b = push_if(b, effects.control, "loop contains additional control flow"@);
    let b = push_if(b, effects.may_trap, "loop contains a potentially trapping operation"@);
    let b = push_if(b, body.len() != 1, "loop contains additional operations"@);
    let b = push_if(
        b,
        body.len() > 0 && body[0].1 is DeclareAndAssignVariable,
        "update declares a binding inside the loop"@,
    );
    push_if(
        b,
        stride.kind == KindModel::Constant(0),
        "stride is zero; loop does not terminate"@,
    )
}

/// The repeated subtraction of a stride from the accumulator that the check
/// compares with it, if the loop is one.
pub open spec fn subtraction_of(
    label: bool,
    condition: LoopCondition,
    body: Seq<(usize, InstModel)>,
    context: ContextModel,
) -> Option<SubtractionModel> {
    let check = plain_value(context, condition.check());
    match check.kind {
        KindModel::Binary { kind: IRBinOpKind::UnsignedGe, lhs, rhs } => match (
            lhs.kind,
            difference(*lhs, *rhs),
            without_negations(condition.check()),
        ) {
            (
                KindModel::Atom(IRExpr::Variable(accumulator)),
                Some(expected),
                IRExpr::BinOp { rhs: stride_source, .. },
            ) => if updates_of(body, context).contains((accumulator, expected)) {
                Some(
                    SubtractionModel {
                        accumulator,
                        stride: *rhs,
                        stride_source: *stride_source,
                        bits: lhs.bits->0,
                        blockers: blockers_of(
                            label,
                            condition,
                            body,
                            accumulator,
                            *rhs,
                            *stride_source,
                        ),
                    },
                )
            } else {
                None
            },
            _ => None,
        },
        _ => None,
    }
}

/// What is known of a loop.
pub open spec fn analysis_of(instr: InstModel, context: ContextModel) -> Option<AnalysisModel> {
    match instr {
        InstModel::While { label, entry_offset, condition, body } => Some(
            AnalysisModel {
                offset: entry_offset,
                check: plain_value(context, condition.check()),
                updates: updates_of(body, context),
                subtraction: subtraction_of(label is Some, condition, body, context),
            },
        ),
        _ => None,
    }
}

fn collect_updates(body: &Vec<(usize, IRInst)>, context: &Context) -> (res: Vec<
    (VariableId, Value),
>)
    ensures
        update_models(res@) == updates_of(body_models(body@), context@),
{
    let ghost all = body_models(body@);
    let mut res: Vec<(VariableId, Value)> = Vec::new();
    let mut i: usize = 0;
    assert(all.subrange(0, 0) =~= Seq::<(usize, InstModel)>::empty());
    assert(update_models(res@) =~= Seq::<(VariableId, ValueModel)>::empty());
    while i < body.len()
        invariant
            i <= body@.len(),
            all == body_models(body@),
            update_models(res@) == updates_of(all.subrange(0, i as int), context@),
        decreases body@.len() - i,
    {
        let ghost prefix = all.subrange(0, i + 1);
        let ghost before = update_models(res@);
        assert(prefix.drop_last() =~= all.subrange(0, i as int));
        assert(prefix.last() == (body@[i as int].0, body@[i as int].1.model()));
        if let Some((variable, value)) = assignment(&body[i].1) {
            let value = context.value(value);
            let ghost added = (variable, value.model());
            res.push((variable, value));
            assert(update_models(res@) =~= before.push(added));
        }
        i = i + 1;
    }
    assert(all.subrange(0, i as int) =~= all);
    res
}

fn updates_contain(
    updates: &Vec<(VariableId, Value)>,
    variable: VariableId,
    value: &Value,
) -> (res: bool)
    ensures
        res == update_models(updates@).contains((variable, value.model())),
{
    let ghost all = update_models(updates@);
    let mut i: usize = 0;
    while i < updates.len()
        invariant
            i <= updates@.len(),
            all == update_models(updates@),
            forall|k: int| 0 <= k < i ==> all[k] != (variable, value.model()),
        decreases updates@.len() - i,
    {
        assert(all[i as int] == (updates@[i as int].0, updates@[i as int].1.model()));
        if updates[i].0 == variable && updates[i].1.same(value) {
            assert(all[i as int] == (variable, value.model()));
            return true;
        }
        i = i + 1;
    }
    false
}

fn strip_negations(expr: &IRExpr) -> (res: &IRExpr)
    ensures
        *res == without_negations(*expr),
    decreases expr,
{
    match expr {
        IRExpr::Not(inner) => strip_negations(inner),
        _ => expr,
    }
}

pub fn value_reads_any(value: &Value, variables: &KeySet<VariableId>) -> (res: bool)
    ensures
        res == reads_any(value.model(), variables@),
{
    let items = variables.items();
    let mut i: usize = 0;
    while i < items.len()
        invariant
            i <= items@.len(),
            forall|v: VariableId| variables@.contains(v) <==> #[trigger] items@.contains(v),
            forall|k: int| 0 <= k < i ==> !value_reads(value.model(), #[trigger] items@[k]),
        decreases items@.len() - i,
    {
        if value.reads(items[i]) {
            assert(items@.contains(items@[i as int]));
            assert(variables@.contains(items@[i as int]));
            return true;
        }
        i = i + 1;
    }
    assert(!reads_any(value.model(), variables@)) by {
        if reads_any(value.model(), variables@) {
            let v = choose|v: VariableId| #[trigger]
                variables@.contains(v) && value_reads(value.model(), v);
            assert(items@.contains(v));
        }
    }
    false
}

fn note(list: &mut Vec<&'static str>, condition: bool, text: &'static str)
    ensures
        texts(final(list)@) == push_if(texts(old(list)@), condition, text@),
{
    if condition {
        list.push(text);
        assert(texts(list@) =~= texts(old(list)@).push(text@));
    }
}

fn collect_blockers(
    label: bool,
    condition: &LoopCondition,
    body: &Vec<(usize, IRInst)>,
    accumulator: VariableId,
    stride: &Value,
    stride_source: &IRExpr,
) -> (res: Vec<&'static str>)
    ensures
        texts(res@) == blockers_of(
            label,
            *condition,
            body_models(body@),
            accumulator,
            stride.model(),
            *stride_source,
        ),
{
    let mut blockers: Vec<&'static str> = Vec::new();
    assert(texts(blockers@) =~= Seq::<Seq<char>>::empty());
    note(
        &mut blockers,
        matches!(condition, LoopCondition::After { .. }),
        "entry condition has not been proved; guarded loop rotation required",
    );
    note(&mut blockers, label, "loop has a control-flow label");
    note(&mut blockers, stride.reads(accumulator), "stride depends on the accumulator");
    note(
        &mut blockers,
        !repeatable(stride_source),
        "stride evaluation can read memory or trap",
    );
    let effects = Effects::of_body(body);
    note(
        &mut blockers,
        value_reads_any(stride, &effects.writes),
        "stride changes within the loop",
    );
    note(
        &mut blockers,
        effects.memory_read,
        "loop reloads memory; no memory independence proof",
    );
    note(&mut blockers, effects.memory_write, "loop stores intermediate results");
    note(&mut blockers, effects.control, "loop contains additional control flow");
    note(&mut blockers, effects.may_trap, "loop contains a potentially trapping operation");
    note(&mut blockers, body.len() != 1, "loop contains additional operations");
    let declares = body.len() > 0 && matches!(body[0].1, IRInst::DeclareAndAssignVariable { .. });
    assert(body@.len() > 0 ==> body_models(body@)[0].1 == body@[0].1.model());
    note(&mut blockers, declares, "update declares a binding inside the loop");
    note(
        &mut blockers,
        matches!(stride.kind, Kind::Constant(0)),
        "stride is zero; loop does not terminate",
    );
    blockers
}

fn find_subtraction(
    label: bool,
    condition: &LoopCondition,
    body: &Vec<(usize, IRInst)>,
    check: &Value,
    updates: &Vec<(VariableId, Value)>,
    context: &Context,
) -> (res: Option<SubtractionLoop>)
    requires
        check.model() == plain_value(context@, condition.check()),
        update_models(updates@) == updates_of(body_models(body@), context@),
    ensures
        match res {
            Some(subtraction) => subtraction_of(label, *condition, body_models(body@), context@)
                == Some(subtraction.model()),
            None => subtraction_of(label, *condition, body_models(body@), context@) is None,
        },
{
    let expression = match condition {
        LoopCondition::Before { expression, .. } => expression,
        LoopCondition::After { expression, .. } => expression,
    };
    let (lhs, rhs) = match &check.kind {
        Kind::Binary { kind: IRBinOpKind::UnsignedGe, lhs, rhs } => (lhs, rhs),
        _ => return None,
    };
    let accumulator: VariableId = match &lhs.kind {
        Kind::Atom(IRExpr::Variable(accumulator)) => *accumulator,
        _ => return None,
    };
    let expected = match lhs.subtract(rhs) {
        Some(expected) => expected,
        None => return None,
    };
    let bits: usize = match lhs.bits {
        Some(bits) => bits,
        None => return None,
    };
    if !updates_contain(updates, accumulator, &expected) {
        return None;
    }
    // Negation normalization preserves the operands, so the original right
    // operand is the expression whose evaluation the replacement must retain.
    let stride_source = match strip_negations(expression) {
        IRExpr::BinOp { rhs: stride_source, .. } => stride_source,
        _ => return None,
    };
    let blockers = collect_blockers(label, condition, body, accumulator, rhs, stride_source);
    Some(
        SubtractionLoop {
            accumulator,
            stride: (**rhs).clone(),
            stride_source: (**stride_source).clone(),
            bits,
            blockers,
        },
    )
}

pub fn analyze(instr: &IRInst, context: &Context) -> (res: Option<LoopAnalysis>)
    ensures
        match res {
            Some(analysis) => analysis_of(instr.model(), context@) == Some(analysis.model()),
            None => analysis_of(instr.model(), context@) is None,
        },
{
    match instr {
        IRInst::While { label, entry_offset, condition, body } => {
            let expression = match condition {
                LoopCondition::Before { expression, .. } => expression,
                LoopCondition::After { expression, .. } => expression,
            };
            let check = context.value(expression);
            let updates = collect_updates(body, context);
            let subtraction = find_subtraction(
                label.is_some(),
                condition,
                body,
                &check,
                &updates,
                context,
            );
            Some(LoopAnalysis { offset: *entry_offset, check, updates, subtraction })
        },
        _ => None,
    }
}

/// Gathers the analysis of every loop, outermost first.
pub struct Collector {
    pub analyses: Vec<LoopAnalysis>,
}

impl Analyzer for Collector {
    type Seen = Seq<AnalysisModel>;

    open spec fn seen(&self) -> Seq<AnalysisModel> {
        analysis_models(self.analyses@)
    }

    open spec fn after_instruction(
        seen: Seq<AnalysisModel>,
        instr: InstModel,
        offset: usize,
        context: ContextModel,
    ) -> Seq<AnalysisModel> {
        match analysis_of(instr, context) {
            Some(analysis) => seen.push(analysis),
            None => seen,
        }
    }

    open spec fn after_expression(
        seen: Seq<AnalysisModel>,
        expr: IRExpr,
        offset: usize,
        context: ContextModel,
    ) -> Seq<AnalysisModel> {
        seen
    }

    fn instruction(&mut self, instr: &IRInst, offset: usize, context: &Context) {
        if let Some(analysis) = analyze(instr, context) {
            let ghost added = analysis.model();
            self.analyses.push(analysis);
            assert(analysis_models(self.analyses@) =~= analysis_models(old(self).analyses@).push(
                added,
            ));
        }
    }

    fn expression(&mut self, expr: &IRExpr, offset: usize, context: &Context) {
    }
}

} // verus!
