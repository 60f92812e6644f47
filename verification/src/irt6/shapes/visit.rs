//! A single read-only walk for shape analyses that inspect nested Tier 6 IR.
use super::super::arithmetic::{context_of, Context, ContextModel};
use super::super::ir::{
    body_models, function_models, models, FunctionModel, IRExpr, IRInst, InstModel,
    LoopCondition, Program, ProgramModel,
};
use vstd::prelude::*;

verus! {

/// Implement either callback to inspect every node. Callbacks run before the
/// node's children, in source order. The offset is the closest recorded source
/// offset; branches without their own offset inherit their parent's offset.
pub trait Analyzer: Sized {
    /// What the analyzer has gathered.
    type Seen;

    spec fn seen(&self) -> Self::Seen;

    /// What has been gathered after an instruction.
    spec fn after_instruction(
        seen: Self::Seen,
        instr: InstModel,
        offset: usize,
        context: ContextModel,
    ) -> Self::Seen;

    /// What has been gathered after an expression.
    spec fn after_expression(
        seen: Self::Seen,
        expr: IRExpr,
        offset: usize,
        context: ContextModel,
    ) -> Self::Seen;

    fn instruction(&mut self, instr: &IRInst, offset: usize, context: &Context)
        ensures
            final(self).seen() == Self::after_instruction(
                old(self).seen(),
                instr.model(),
                offset,
                context@,
            ),
    ;

    fn expression(&mut self, expr: &IRExpr, offset: usize, context: &Context)
        ensures
            final(self).seen() == Self::after_expression(
                old(self).seen(),
                *expr,
                offset,
                context@,
            ),
    ;
}

/// What is gathered from an expression and then its operands.
pub open spec fn seen_in_expression<A: Analyzer>(
    seen: A::Seen,
    expr: IRExpr,
    offset: usize,
    context: ContextModel,
) -> A::Seen
    decreases expr,
{
    let seen = A::after_expression(seen, expr, offset, context);
    match expr {
        IRExpr::BinOp { lhs, rhs, .. } => seen_in_expression::<A>(
            seen_in_expression::<A>(seen, *lhs, offset, context),
            *rhs,
            offset,
            context,
        ),
        IRExpr::ElementAddress { base, index, .. } => seen_in_expression::<A>(
            seen_in_expression::<A>(seen, *base, offset, context),
            *index,
            offset,
            context,
        ),
        IRExpr::Deref(inner) => seen_in_expression::<A>(seen, *inner, offset, context),
        IRExpr::MemoryAddress { address, .. } => seen_in_expression::<A>(
            seen,
            *address,
            offset,
            context,
        ),
        IRExpr::CStringLength(inner) => seen_in_expression::<A>(seen, *inner, offset, context),
        IRExpr::Convert { value, .. } => seen_in_expression::<A>(seen, *value, offset, context),
        IRExpr::Not(inner) => seen_in_expression::<A>(seen, *inner, offset, context),
        _ => seen,
    }
}

pub open spec fn seen_in_expressions<A: Analyzer>(
    seen: A::Seen,
    expressions: Seq<IRExpr>,
    offset: usize,
    context: ContextModel,
) -> A::Seen
    decreases expressions.len(),
{
    if expressions.len() == 0 {
        seen
    } else {
        seen_in_expression::<A>(
            seen_in_expressions::<A>(seen, expressions.drop_last(), offset, context),
            expressions.last(),
            offset,
            context,
        )
    }
}

/// What is gathered from an instruction, then its expressions and its children.
pub open spec fn seen_in_instruction<A: Analyzer>(
    seen: A::Seen,
    instr: InstModel,
    offset: usize,
    context: ContextModel,
) -> A::Seen
    decreases instr,
{
    let seen = A::after_instruction(seen, instr, offset, context);
    match instr {
        InstModel::Assign { dest, src } => seen_in_expression::<A>(
            seen_in_expression::<A>(seen, dest, offset, context),
            src,
            offset,
            context,
        ),
        InstModel::CompoundAssign { dest, value, .. } => seen_in_expression::<A>(
            seen_in_expression::<A>(seen, dest, offset, context),
            value,
            offset,
            context,
        ),
        InstModel::Return(Some(value)) => seen_in_expression::<A>(seen, value, offset, context),
        InstModel::DeclareAndAssignVariable { value, .. } => seen_in_expression::<A>(
            seen,
            value,
            offset,
            context,
        ),
        InstModel::AssignVariable { value, .. } => seen_in_expression::<A>(
            seen,
            value,
            offset,
            context,
        ),
        InstModel::Jump(value) => seen_in_expression::<A>(seen, value, offset, context),
        InstModel::LoadVariable { address, .. } => seen_in_expression::<A>(
            seen,
            address,
            offset,
            context,
        ),
        InstModel::StoreVariable { address, .. } => seen_in_expression::<A>(
            seen,
            address,
            offset,
            context,
        ),
        InstModel::If { condition, then_branch, else_branch } => seen_in_instructions::<A>(
            seen_in_instructions::<A>(
                seen_in_expression::<A>(seen, condition, offset, context),
                then_branch,
                offset,
                context,
            ),
            else_branch,
            offset,
            context,
        ),
        InstModel::While { condition, body, .. } => seen_in_body::<A>(
            match condition {
                LoopCondition::Before { offset, expression } => seen_in_expression::<A>(
                    seen,
                    expression,
                    offset,
                    context,
                ),
                LoopCondition::After { offset, expression } => seen_in_expression::<A>(
                    seen,
                    expression,
                    offset,
                    context,
                ),
            },
            body,
            context,
        ),
        InstModel::ForEach { vector, body, .. } => seen_in_body::<A>(
            seen_in_expression::<A>(seen, vector, offset, context),
            body,
            context,
        ),
        InstModel::CallSynthetic { arguments, .. } => seen_in_expressions::<A>(
            seen,
            arguments,
            offset,
            context,
        ),
        _ => seen,
    }
}

pub open spec fn seen_in_instructions<A: Analyzer>(
    seen: A::Seen,
    instructions: Seq<InstModel>,
    offset: usize,
    context: ContextModel,
) -> A::Seen
    decreases instructions,
{
    if instructions.len() == 0 {
        seen
    } else {
        seen_in_instruction::<A>(
            seen_in_instructions::<A>(seen, instructions.drop_last(), offset, context),
            instructions[instructions.len() - 1],
            offset,
            context,
        )
    }
}

pub open spec fn seen_in_body<A: Analyzer>(
    seen: A::Seen,
    body: Seq<(usize, InstModel)>,
    context: ContextModel,
) -> A::Seen
    decreases body,
{
    if body.len() == 0 {
        seen
    } else {
        seen_in_instruction::<A>(
            seen_in_body::<A>(seen, body.drop_last(), context),
            body[body.len() - 1].1,
            body[body.len() - 1].0,
            context,
        )
    }
}

pub open spec fn seen_in_functions<A: Analyzer>(
    seen: A::Seen,
    functions: Seq<FunctionModel>,
) -> A::Seen
    decreases functions.len(),
{
    if functions.len() == 0 {
        seen
    } else {
        seen_in_body::<A>(
            seen_in_functions::<A>(seen, functions.drop_last()),
            functions.last().body,
            context_of(functions.last()),
        )
    }
}

/// What is gathered from a program, function by function.
pub open spec fn seen_in_program<A: Analyzer>(seen: A::Seen, program: ProgramModel) -> A::Seen {
    seen_in_functions::<A>(seen, program.functions)
}

/// Shows every node of the program to the analyzer.
pub fn walk<A: Analyzer>(program: &Program, analyzer: &mut A)
    ensures
        final(analyzer).seen() == seen_in_program::<A>(old(analyzer).seen(), program.model()),
{
    let ghost all = function_models(program.functions@);
    let mut i: usize = 0;
    assert(all.subrange(0, 0) =~= Seq::<FunctionModel>::empty());
    while i < program.functions.len()
        invariant
            i <= program.functions@.len(),
            all == function_models(program.functions@),
            analyzer.seen() == seen_in_functions::<A>(
                old(analyzer).seen(),
                all.subrange(0, i as int),
            ),
        decreases program.functions@.len() - i,
    {
        let ghost prefix = all.subrange(0, i + 1);
        assert(prefix.drop_last() =~= all.subrange(0, i as int));
        let context = Context::from_function(&program.functions[i]);
        walk_body(&program.functions[i].body, &context, analyzer);
        i = i + 1;
    }
    assert(all.subrange(0, i as int) =~= all);
}

fn walk_expression<A: Analyzer>(
    expr: &IRExpr,
    offset: usize,
    context: &Context,
    analyzer: &mut A,
)
    ensures
        final(analyzer).seen() == seen_in_expression::<A>(
            old(analyzer).seen(),
            *expr,
            offset,
            context@,
        ),
    decreases expr,
{
    analyzer.expression(expr, offset, context);
    match expr {
        IRExpr::BinOp { lhs, rhs, .. } => {
            walk_expression(lhs, offset, context, analyzer);
            walk_expression(rhs, offset, context, analyzer);
        },
        IRExpr::ElementAddress { base, index, .. } => {
            walk_expression(base, offset, context, analyzer);
            walk_expression(index, offset, context, analyzer);
        },
        IRExpr::Deref(inner) => {
            walk_expression(inner, offset, context, analyzer);
        },
        IRExpr::MemoryAddress { address: inner, .. } => {
            walk_expression(inner, offset, context, analyzer);
        },
        IRExpr::CStringLength(inner) => {
            walk_expression(inner, offset, context, analyzer);
        },
        IRExpr::Convert { value: inner, .. } => {
            walk_expression(inner, offset, context, analyzer);
        },
        IRExpr::Not(inner) => {
            walk_expression(inner, offset, context, analyzer);
        },
        _ => {},
    }
}

fn walk_expressions<A: Analyzer>(
    expressions: &Vec<IRExpr>,
    offset: usize,
    context: &Context,
    analyzer: &mut A,
)
    ensures
        final(analyzer).seen() == seen_in_expressions::<A>(
            old(analyzer).seen(),
            expressions@,
            offset,
            context@,
        ),
{
    let mut i: usize = 0;
    assert(expressions@.subrange(0, 0) =~= Seq::<IRExpr>::empty());
    while i < expressions.len()
        invariant
            i <= expressions@.len(),
            analyzer.seen() == seen_in_expressions::<A>(
                old(analyzer).seen(),
                expressions@.subrange(0, i as int),
                offset,
                context@,
            ),
        decreases expressions@.len() - i,
    {
        let ghost prefix = expressions@.subrange(0, i + 1);
        assert(prefix.drop_last() =~= expressions@.subrange(0, i as int));
        walk_expression(&expressions[i], offset, context, analyzer);
        i = i + 1;
    }
    assert(expressions@.subrange(0, i as int) =~= expressions@);
}

fn walk_instruction<A: Analyzer>(
    instr: &IRInst,
    offset: usize,
    context: &Context,
    analyzer: &mut A,
)
    ensures
        final(analyzer).seen() == seen_in_instruction::<A>(
            old(analyzer).seen(),
            instr.model(),
            offset,
            context@,
        ),
    decreases instr,
{
    analyzer.instruction(instr, offset, context);
    match instr {
        IRInst::Assign { dest, src } => {
            walk_expression(dest, offset, context, analyzer);
            walk_expression(src, offset, context, analyzer);
        },
        IRInst::CompoundAssign { dest, value, .. } => {
            walk_expression(dest, offset, context, analyzer);
            walk_expression(value, offset, context, analyzer);
        },
        IRInst::Return(value) => {
            if let Some(value) = value {
                walk_expression(value, offset, context, analyzer);
            }
        },
        IRInst::DeclareAndAssignVariable { value, .. } => {
            walk_expression(value, offset, context, analyzer);
        },
        IRInst::AssignVariable { value, .. } => {
            walk_expression(value, offset, context, analyzer);
        },
        IRInst::Jump(value) => {
            walk_expression(value, offset, context, analyzer);
        },
        IRInst::LoadVariable { address, .. } => {
            walk_expression(address, offset, context, analyzer);
        },
        IRInst::StoreVariable { address, .. } => {
            walk_expression(address, offset, context, analyzer);
        },
        IRInst::If { condition, then_branch, else_branch } => {
            walk_expression(condition, offset, context, analyzer);
            walk_instructions(then_branch, offset, context, analyzer);
            walk_instructions(else_branch, offset, context, analyzer);
        },
        IRInst::While { condition, body, .. } => {
            match condition {
                LoopCondition::Before { offset, expression } => {
                    walk_expression(expression, *offset, context, analyzer);
                },
                LoopCondition::After { offset, expression } => {
                    walk_expression(expression, *offset, context, analyzer);
                },
            }
            walk_body(body, context, analyzer);
        },
        IRInst::ForEach { vector, body, .. } => {
            walk_expression(vector, offset, context, analyzer);
            walk_body(body, context, analyzer);
        },
        IRInst::CallSynthetic { arguments, .. } => {
            walk_expressions(arguments, offset, context, analyzer);
        },
        IRInst::DeclareVariable { .. }
        | IRInst::Break
        | IRInst::Continue
        | IRInst::ContinueLoop(_)
        | IRInst::End => {},
    }
}

fn walk_instructions<A: Analyzer>(
    instructions: &Vec<IRInst>,
    offset: usize,
    context: &Context,
    analyzer: &mut A,
)
    ensures
        final(analyzer).seen() == seen_in_instructions::<A>(
            old(analyzer).seen(),
            models(instructions@),
            offset,
            context@,
        ),
    decreases instructions,
{
    let ghost all = models(instructions@);
    let mut i: usize = 0;
    assert(all.subrange(0, 0) =~= Seq::<InstModel>::empty());
    while i < instructions.len()
        invariant
            i <= instructions@.len(),
            all == models(instructions@),
            analyzer.seen() == seen_in_instructions::<A>(
                old(analyzer).seen(),
                all.subrange(0, i as int),
                offset,
                context@,
            ),
        decreases instructions@.len() - i,
    {
        let ghost prefix = all.subrange(0, i + 1);
        assert(prefix.drop_last() =~= all.subrange(0, i as int));
        assert(decreases_to!(instructions => instructions@[i as int]));
        walk_instruction(&instructions[i], offset, context, analyzer);
        i = i + 1;
    }
    assert(all.subrange(0, i as int) =~= all);
}

fn walk_body<A: Analyzer>(body: &Vec<(usize, IRInst)>, context: &Context, analyzer: &mut A)
    ensures
        final(analyzer).seen() == seen_in_body::<A>(
            old(analyzer).seen(),
            body_models(body@),
            context@,
        ),
    decreases body,
{
    let ghost all = body_models(body@);
    let mut i: usize = 0;
    assert(all.subrange(0, 0) =~= Seq::<(usize, InstModel)>::empty());
    while i < body.len()
        invariant
            i <= body@.len(),
            all == body_models(body@),
            analyzer.seen() == seen_in_body::<A>(
                old(analyzer).seen(),
                all.subrange(0, i as int),
                context@,
            ),
        decreases body@.len() - i,
    {
        let ghost prefix = all.subrange(0, i + 1);
        assert(prefix.drop_last() =~= all.subrange(0, i as int));
        assert(decreases_to!(body => body@[i as int]));
        walk_instruction(&body[i].1, body[i].0, context, analyzer);
        i = i + 1;
    }
    assert(all.subrange(0, i as int) =~= all);
}

} // verus!
