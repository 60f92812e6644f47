//! Conservative effects shared by restructuring and arithmetic recognition.
use super::ir::{
    body_models, models, IRBinOpKind, IRExpr, IRInst, InstModel, LoopCondition, VariableId,
};
use crate::table::KeySet;
use vstd::prelude::*;

verus! {

/// What an expression or an instruction may read, write, or cause.
#[verifier::ext_equal]
pub struct EffectsModel {
    pub reads: Set<VariableId>,
    pub writes: Set<VariableId>,
    pub memory_read: bool,
    pub memory_write: bool,
    pub control: bool,
    pub may_trap: bool,
    pub unknown_write: bool,
}

/// No effect at all.
pub open spec fn no_effects() -> EffectsModel {
    EffectsModel {
        reads: Set::empty(),
        writes: Set::empty(),
        memory_read: false,
        memory_write: false,
        control: false,
        may_trap: false,
        unknown_write: false,
    }
}

impl EffectsModel {
    /// The effects of either.
    pub open spec fn join(self, other: EffectsModel) -> EffectsModel {
        EffectsModel {
            reads: self.reads.union(other.reads),
            writes: self.writes.union(other.writes),
            memory_read: self.memory_read || other.memory_read,
            memory_write: self.memory_write || other.memory_write,
            control: self.control || other.control,
            may_trap: self.may_trap || other.may_trap,
            unknown_write: self.unknown_write || other.unknown_write,
        }
    }

    pub open spec fn reading(self, variable: VariableId) -> EffectsModel {
        EffectsModel { reads: self.reads.insert(variable), ..self }
    }

    pub open spec fn writing(self, variable: VariableId) -> EffectsModel {
        EffectsModel { writes: self.writes.insert(variable), ..self }
    }

    pub open spec fn reading_memory(self) -> EffectsModel {
        EffectsModel { memory_read: true, ..self }
    }

    pub open spec fn writing_memory(self) -> EffectsModel {
        EffectsModel { memory_write: true, ..self }
    }

    pub open spec fn controlling(self) -> EffectsModel {
        EffectsModel { control: true, ..self }
    }

    pub open spec fn trapping_if(self, trap: bool) -> EffectsModel {
        EffectsModel { may_trap: self.may_trap || trap, ..self }
    }

    pub open spec fn unknown_if(self, unknown: bool) -> EffectsModel {
        EffectsModel { unknown_write: self.unknown_write || unknown, ..self }
    }
}

/// The effects of evaluating an expression.
pub open spec fn expression_effects(expr: IRExpr) -> EffectsModel
    decreases expr,
{
    match expr {
        IRExpr::Variable(variable) => no_effects().reading(variable),
        IRExpr::BinOp { kind, lhs, rhs } => expression_effects(*lhs).join(
            expression_effects(*rhs),
        ).trapping_if(kind == IRBinOpKind::UnsignedMod),
        IRExpr::Deref(address) => expression_effects(*address).reading_memory(),
        IRExpr::CStringLength(base) => expression_effects(*base).reading_memory(),
        IRExpr::Data(_) => no_effects().reading_memory(),
        IRExpr::ElementAddress { base, index, .. } => expression_effects(*base).join(
            expression_effects(*index),
        ),
        IRExpr::MemoryAddress { address, .. } => expression_effects(*address),
        IRExpr::Convert { value, .. } => expression_effects(*value),
        IRExpr::Not(inner) => expression_effects(*inner),
        IRExpr::Argument(_)
        | IRExpr::CU8(_)
        | IRExpr::CU32(_)
        | IRExpr::CU64(_)
        | IRExpr::Bool(_) => no_effects(),
    }
}

/// The effects of evaluating every expression of a list.
pub open spec fn expressions_effects(expressions: Seq<IRExpr>) -> EffectsModel
    decreases expressions.len(),
{
    if expressions.len() == 0 {
        no_effects()
    } else {
        expressions_effects(expressions.drop_last()).join(expression_effects(expressions.last()))
    }
}

/// Where an assignment or a compound assignment writes: a variable, memory, or
/// somewhere unknown.
pub open spec fn destination_effects(dest: IRExpr) -> EffectsModel {
    match dest {
        IRExpr::Variable(variable) => no_effects().writing(variable),
        _ => expression_effects(dest).writing_memory().unknown_if(!(dest is Deref)),
    }
}

/// The effects of an instruction and everything nested in it.
pub open spec fn instruction_effects(instr: InstModel) -> EffectsModel
    decreases instr,
{
    match instr {
        InstModel::Assign { dest, src } => destination_effects(dest).join(
            expression_effects(src),
        ),
        InstModel::CompoundAssign { dest, kind, value } => destination_effects(dest).join(
            expression_effects(dest),
        ).join(expression_effects(value)).trapping_if(kind == IRBinOpKind::UnsignedMod),
        InstModel::AssignVariable { variable, value } => expression_effects(value).writing(
            variable,
        ),
        InstModel::DeclareAndAssignVariable { variable, value, .. } => expression_effects(
            value,
        ).writing(variable),
        InstModel::DeclareVariable { variable, .. } => no_effects().writing(variable),
        InstModel::LoadVariable { variable, address } => expression_effects(address).writing(
            variable,
        ).reading_memory(),
        InstModel::StoreVariable { address, variable } => expression_effects(address).reading(
            variable,
        ).writing_memory(),
        InstModel::If { condition, then_branch, else_branch } => expression_effects(
            condition,
        ).join(instructions_effects(then_branch)).join(
            instructions_effects(else_branch),
        ).controlling(),
        InstModel::While { condition, body, .. } => expression_effects(condition.check()).join(
            body_effects(body),
        ).controlling(),
        InstModel::ForEach { variable, vector, body, .. } => expression_effects(vector).join(
            body_effects(body),
        ).writing(variable).reading_memory().controlling(),
        InstModel::Return(value) => match value {
            Some(value) => expression_effects(value).controlling(),
            None => no_effects().controlling(),
        },
        InstModel::Jump(target) => expression_effects(target).controlling(),
        InstModel::CallSynthetic { arguments, .. } => expressions_effects(
            arguments,
        ).reading_memory().writing_memory().controlling(),
        InstModel::Break
        | InstModel::Continue
        | InstModel::ContinueLoop(_)
        | InstModel::End => no_effects().controlling(),
    }
}

/// The effects of every instruction of a branch.
pub open spec fn instructions_effects(instructions: Seq<InstModel>) -> EffectsModel
    decreases instructions,
{
    if instructions.len() == 0 {
        no_effects()
    } else {
        instructions_effects(instructions.drop_last()).join(
            instruction_effects(instructions[instructions.len() - 1]),
        )
    }
}

/// The effects of every instruction of a body.
pub open spec fn body_effects(body: Seq<(usize, InstModel)>) -> EffectsModel
    decreases body,
{
    if body.len() == 0 {
        no_effects()
    } else {
        body_effects(body.drop_last()).join(instruction_effects(body[body.len() - 1].1))
    }
}

/// Whether an expression may be evaluated again, or not at all, without a
/// difference: it neither reads memory nor traps.
pub open spec fn is_repeatable(expr: IRExpr) -> bool {
    !expression_effects(expr).memory_read && !expression_effects(expr).may_trap
}

pub struct Effects {
    pub reads: KeySet<VariableId>,
    pub writes: KeySet<VariableId>,
    pub memory_read: bool,
    pub memory_write: bool,
    pub control: bool,
    pub may_trap: bool,
    pub unknown_write: bool,
}

impl View for Effects {
    type V = EffectsModel;

    open spec fn view(&self) -> EffectsModel {
        EffectsModel {
            reads: self.reads@,
            writes: self.writes@,
            memory_read: self.memory_read,
            memory_write: self.memory_write,
            control: self.control,
            may_trap: self.may_trap,
            unknown_write: self.unknown_write,
        }
    }
}

impl Effects {
    pub fn new() -> (res: Self)
        ensures
            res@ == no_effects(),
    {
        Effects {
            reads: KeySet::new(),
            writes: KeySet::new(),
            memory_read: false,
            memory_write: false,
            control: false,
            may_trap: false,
            unknown_write: false,
        }
    }

    pub fn expression(&mut self, expr: &IRExpr)
        ensures
            final(self)@ == old(self)@.join(expression_effects(*expr)),
        decreases expr,
    {
        match expr {
            IRExpr::Variable(variable) => {
                self.reads.insert(*variable);
            },
            IRExpr::BinOp { kind, lhs, rhs } => {
                if *kind == IRBinOpKind::UnsignedMod {
                    self.may_trap = true;
                }
                self.expression(lhs);
                self.expression(rhs);
            },
            IRExpr::Deref(address) => {
                self.memory_read = true;
                self.expression(address);
            },
            IRExpr::CStringLength(base) => {
                self.memory_read = true;
                self.expression(base);
            },
            IRExpr::Data(_) => {
                self.memory_read = true;
            },
            IRExpr::ElementAddress { base, index, .. } => {
                self.expression(base);
                self.expression(index);
            },
            IRExpr::MemoryAddress { address: inner, .. } => {
                self.expression(inner);
            },
            IRExpr::Convert { value: inner, .. } => {
                self.expression(inner);
            },
            IRExpr::Not(inner) => {
                self.expression(inner);
            },
            IRExpr::Argument(_)
            | IRExpr::CU8(_)
            | IRExpr::CU32(_)
            | IRExpr::CU64(_)
            | IRExpr::Bool(_) => {},
        }
        assert(self@ =~= old(self)@.join(expression_effects(*expr)));
    }

    /// Records where `dest` writes.
    fn destination(&mut self, dest: &IRExpr)
        ensures
            final(self)@ == old(self)@.join(destination_effects(*dest)),
    {
        match dest {
            IRExpr::Variable(variable) => {
                self.writes.insert(*variable);
            },
            _ => {
                self.expression(dest);
                self.memory_write = true;
                if !matches!(dest, IRExpr::Deref(_)) {
                    self.unknown_write = true;
                }
            },
        }
        assert(self@ =~= old(self)@.join(destination_effects(*dest)));
    }

    #[verifier::rlimit(60)]
    pub fn instruction(&mut self, instr: &IRInst)
        ensures
            final(self)@ == old(self)@.join(instruction_effects(instr.model())),
        decreases instr,
    {
        match instr {
            IRInst::Assign { dest, src } => {
                self.destination(dest);
                self.expression(src);
            },
            IRInst::CompoundAssign { dest, kind, value } => {
                self.destination(dest);
                self.expression(dest);
                self.expression(value);
                if *kind == IRBinOpKind::UnsignedMod {
                    self.may_trap = true;
                }
            },
            IRInst::AssignVariable { variable, value } => {
                self.expression(value);
                self.writes.insert(*variable);
            },
            IRInst::DeclareAndAssignVariable { variable, value, .. } => {
                self.expression(value);
                self.writes.insert(*variable);
            },
            IRInst::DeclareVariable { variable, .. } => {
                self.writes.insert(*variable);
            },
            IRInst::LoadVariable { variable, address } => {
                self.expression(address);
                self.writes.insert(*variable);
                self.memory_read = true;
            },
            IRInst::StoreVariable { address, variable } => {
                self.expression(address);
                self.reads.insert(*variable);
                self.memory_write = true;
            },
            IRInst::If { condition, then_branch, else_branch } => {
                self.control = true;
                self.expression(condition);
                self.instructions(then_branch);
                self.instructions(else_branch);
            },
            IRInst::While { condition, body, .. } => {
                self.control = true;
                match condition {
                    LoopCondition::Before { expression, .. } => {
                        self.expression(expression);
                    },
                    LoopCondition::After { expression, .. } => {
                        self.expression(expression);
                    },
                }
                self.body(body);
            },
            IRInst::ForEach { variable, vector, body, .. } => {
                self.control = true;
                self.expression(vector);
                self.memory_read = true;
                self.writes.insert(*variable);
                self.body(body);
            },
            IRInst::Return(value) => {
                self.control = true;
                if let Some(value) = value {
                    self.expression(value);
                }
            },
            IRInst::Jump(value) => {
                self.control = true;
                self.expression(value);
            },
            IRInst::CallSynthetic { arguments, .. } => {
                self.control = true;
                self.memory_read = true;
                self.memory_write = true;
                self.expressions(arguments);
            },
            IRInst::Break | IRInst::Continue | IRInst::ContinueLoop(_) | IRInst::End => {
                self.control = true;
            },
        }
        assert(self@ =~= old(self)@.join(instruction_effects(instr.model())));
    }

    pub fn expressions(&mut self, expressions: &Vec<IRExpr>)
        ensures
            final(self)@ == old(self)@.join(expressions_effects(expressions@)),
    {
        let mut i: usize = 0;
        assert(expressions@.subrange(0, 0) =~= Seq::<IRExpr>::empty());
        assert(self@ =~= old(self)@.join(no_effects()));
        while i < expressions.len()
            invariant
                i <= expressions@.len(),
                self@ == old(self)@.join(
                    expressions_effects(expressions@.subrange(0, i as int)),
                ),
            decreases expressions@.len() - i,
        {
            let ghost prefix = expressions@.subrange(0, i + 1);
            assert(prefix.drop_last() =~= expressions@.subrange(0, i as int));
            self.expression(&expressions[i]);
            i = i + 1;
            assert(self@ =~= old(self)@.join(expressions_effects(prefix)));
        }
        assert(expressions@.subrange(0, i as int) =~= expressions@);
    }

    pub fn instructions(&mut self, instructions: &Vec<IRInst>)
        ensures
            final(self)@ == old(self)@.join(instructions_effects(models(instructions@))),
        decreases instructions,
    {
        let ghost all = models(instructions@);
        let mut i: usize = 0;
        assert(all.subrange(0, 0) =~= Seq::<InstModel>::empty());
        assert(self@ =~= old(self)@.join(no_effects()));
        while i < instructions.len()
            invariant
                i <= instructions@.len(),
                all == models(instructions@),
                self@ == old(self)@.join(instructions_effects(all.subrange(0, i as int))),
            decreases instructions@.len() - i,
        {
            let ghost prefix = all.subrange(0, i + 1);
            assert(prefix.drop_last() =~= all.subrange(0, i as int));
            assert(decreases_to!(instructions => instructions@[i as int]));
            self.instruction(&instructions[i]);
            i = i + 1;
            assert(self@ =~= old(self)@.join(instructions_effects(prefix)));
        }
        assert(all.subrange(0, i as int) =~= all);
    }

    pub fn body(&mut self, body: &Vec<(usize, IRInst)>)
        ensures
            final(self)@ == old(self)@.join(body_effects(body_models(body@))),
        decreases body,
    {
        let ghost all = body_models(body@);
        let mut i: usize = 0;
        assert(all.subrange(0, 0) =~= Seq::<(usize, InstModel)>::empty());
        assert(self@ =~= old(self)@.join(no_effects()));
        while i < body.len()
            invariant
                i <= body@.len(),
                all == body_models(body@),
                self@ == old(self)@.join(body_effects(all.subrange(0, i as int))),
            decreases body@.len() - i,
        {
            let ghost prefix = all.subrange(0, i + 1);
            assert(prefix.drop_last() =~= all.subrange(0, i as int));
            assert(decreases_to!(body => body@[i as int]));
            self.instruction(&body[i].1);
            i = i + 1;
            assert(self@ =~= old(self)@.join(body_effects(prefix)));
        }
        assert(all.subrange(0, i as int) =~= all);
    }

    pub fn of_expression(expr: &IRExpr) -> (res: Self)
        ensures
            res@ == expression_effects(*expr),
    {
        let mut effects = Effects::new();
        effects.expression(expr);
        assert(effects@ =~= expression_effects(*expr));
        effects
    }

    pub fn of_instruction(instr: &IRInst) -> (res: Self)
        ensures
            res@ == instruction_effects(instr.model()),
    {
        let mut effects = Effects::new();
        effects.instruction(instr);
        assert(effects@ =~= instruction_effects(instr.model()));
        effects
    }

    pub fn of_body(body: &Vec<(usize, IRInst)>) -> (res: Self)
        ensures
            res@ == body_effects(body_models(body@)),
    {
        let mut effects = Effects::new();
        effects.body(body);
        assert(effects@ =~= body_effects(body_models(body@)));
        effects
    }
}

pub fn repeatable(expr: &IRExpr) -> (res: bool)
    ensures
        res == is_repeatable(*expr),
{
    let effects = Effects::of_expression(expr);
    !effects.memory_read && !effects.may_trap
}

/// Whether evaluating the expression reads the variable.
pub fn expression_reads(expr: &IRExpr, variable: VariableId) -> (res: bool)
    ensures
        res == expression_effects(*expr).reads.contains(variable),
{
    Effects::of_expression(expr).reads.contains(variable)
}

/// Evaluating an expression writes nothing and transfers no control.
pub proof fn law_expressions_only_read(expr: IRExpr)
    ensures
        expression_effects(expr).writes == Set::<VariableId>::empty(),
        !expression_effects(expr).memory_write,
        !expression_effects(expr).control,
        !expression_effects(expr).unknown_write,
    decreases expr,
{
    match expr {
        IRExpr::BinOp { lhs, rhs, .. } => {
            law_expressions_only_read(*lhs);
            law_expressions_only_read(*rhs);
        },
        IRExpr::Deref(inner)
        | IRExpr::CStringLength(inner)
        | IRExpr::MemoryAddress { address: inner, .. }
        | IRExpr::Convert { value: inner, .. }
        | IRExpr::Not(inner) => {
            law_expressions_only_read(*inner);
        },
        IRExpr::ElementAddress { base, index, .. } => {
            law_expressions_only_read(*base);
            law_expressions_only_read(*index);
        },
        _ => {},
    }
    assert(expression_effects(expr).writes =~= Set::<VariableId>::empty());
}

/// What one instruction of a body reads or writes, the body does.
pub proof fn law_bodies_have_their_instructions_effects(
    body: Seq<(usize, InstModel)>,
    i: int,
)
    requires
        0 <= i < body.len(),
    ensures
        instruction_effects(body[i].1).reads.subset_of(body_effects(body).reads),
        instruction_effects(body[i].1).writes.subset_of(body_effects(body).writes),
        instruction_effects(body[i].1).memory_write ==> body_effects(body).memory_write,
        instruction_effects(body[i].1).control ==> body_effects(body).control,
        instruction_effects(body[i].1).may_trap ==> body_effects(body).may_trap,
    decreases body.len(),
{
    if i < body.len() - 1 {
        law_bodies_have_their_instructions_effects(body.drop_last(), i);
    }
}

} // verus!
