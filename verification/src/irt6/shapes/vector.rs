//! Walks over zero-terminated sequences.
use super::super::arithmetic::{is_width, modulus, type_of, Context, ContextModel};
use super::super::effects::{instruction_effects, Effects, EffectsModel};
use super::super::ir::{
    body_models, IRBinOpKind, IRExpr, IRInst, InstModel, IntegerType, LoopCondition, VariableId,
    VariableType,
};
use super::{literal_number, unsigned_constant};
use vstd::prelude::*;

verus! {

pub struct VectorIteration {
    pub counter: VariableId,
    pub element: VariableId,
    pub replacement: IRInst,
}

pub struct VectorIterationModel {
    pub counter: VariableId,
    pub element: VariableId,
    pub replacement: InstModel,
}

impl VectorIteration {
    pub open spec fn model(self) -> VectorIterationModel {
        VectorIterationModel {
            counter: self.counter,
            element: self.element,
            replacement: self.replacement.model(),
        }
    }
}

/// Whether the value is the counter plus one.
pub open spec fn is_successor(value: IRExpr, counter: VariableId) -> bool {
    match value {
        IRExpr::BinOp { kind, lhs, rhs } => kind == IRBinOpKind::Add && *lhs == IRExpr::Variable(
            counter,
        ) && literal_number(*rhs) == Some(1u64),
        _ => false,
    }
}

/// Whether the instruction adds one to the counter.
pub open spec fn increments(instr: InstModel, counter: VariableId) -> bool {
    match instr {
        InstModel::CompoundAssign { dest, kind, value } => dest == IRExpr::Variable(counter)
            && kind == IRBinOpKind::Add && literal_number(value) == Some(1u64),
        InstModel::AssignVariable { variable, value } => variable == counter && is_successor(
            value,
            counter,
        ),
        InstModel::Assign { dest, src } => dest == IRExpr::Variable(counter) && is_successor(
            src,
            counter,
        ),
        _ => false,
    }
}

fn successor_of(value: &IRExpr, counter: VariableId) -> (res: bool)
    ensures
        res == is_successor(*value, counter),
{
    match value {
        IRExpr::BinOp { kind, lhs, rhs } => *kind == IRBinOpKind::Add && is_variable(lhs, counter)
            && unsigned_constant(rhs) == Some(1),
        _ => false,
    }
}

fn is_variable(expr: &IRExpr, variable: VariableId) -> (res: bool)
    ensures
        res == (*expr == IRExpr::Variable(variable)),
{
    match expr {
        IRExpr::Variable(read) => *read == variable,
        _ => false,
    }
}

fn increment_of(instr: &IRInst, counter: VariableId) -> (res: bool)
    ensures
        res == increments(instr.model(), counter),
{
    match instr {
        IRInst::CompoundAssign { dest, kind, value } => is_variable(dest, counter) && *kind
            == IRBinOpKind::Add && unsigned_constant(value) == Some(1),
        IRInst::AssignVariable { variable, value } => *variable == counter && successor_of(
            value,
            counter,
        ),
        IRInst::Assign { dest, src } => is_variable(dest, counter) && successor_of(src, counter),
        _ => false,
    }
}

/// The base, the index and the size of the element that an address names.
pub open spec fn element_of(address: IRExpr) -> Option<(IRExpr, IRExpr, usize)> {
    match address {
        IRExpr::ElementAddress { base, index, element_size } => Some(
            (*base, *index, element_size),
        ),
        _ => None,
    }
}

/// The element that an instruction loads into `element`.
pub open spec fn loaded_element(instr: InstModel, element: VariableId) -> Option<
    (IRExpr, IRExpr, usize),
> {
    match instr {
        InstModel::LoadVariable { variable, address } => if variable == element {
            element_of(address)
        } else {
            None
        },
        InstModel::AssignVariable { variable, value: IRExpr::Deref(address) } => if variable
            == element {
            element_of(*address)
        } else {
            None
        },
        InstModel::Assign {
            dest: IRExpr::Variable(variable),
            src: IRExpr::Deref(address),
        } => if variable == element {
            element_of(*address)
        } else {
            None
        },
        _ => None,
    }
}

fn element_parts(address: &IRExpr) -> (res: Option<(&IRExpr, &IRExpr, usize)>)
    ensures
        match res {
            Some((base, index, size)) => element_of(*address) == Some((*base, *index, size)),
            None => element_of(*address) is None,
        },
{
    match address {
        IRExpr::ElementAddress { base, index, element_size } => Some(
            (&**base, &**index, *element_size),
        ),
        _ => None,
    }
}

fn load_from_index(instr: &IRInst, element: VariableId) -> (res: Option<
    (&IRExpr, &IRExpr, usize),
>)
    ensures
        match res {
            Some((base, index, size)) => loaded_element(instr.model(), element) == Some(
                (*base, *index, size),
            ),
            None => loaded_element(instr.model(), element) is None,
        },
{
    match instr {
        IRInst::LoadVariable { variable, address } => if *variable == element {
            element_parts(address)
        } else {
            None
        },
        IRInst::AssignVariable { variable, value: IRExpr::Deref(address) } => if *variable
            == element {
            element_parts(address)
        } else {
            None
        },
        IRInst::Assign { dest: IRExpr::Variable(variable), src: IRExpr::Deref(address) } => {
            if *variable == element {
                element_parts(address)
            } else {
                None
            }
        },
        _ => None,
    }
}

/// The width in bytes of an element type.
pub open spec fn element_width(ty: VariableType) -> Option<usize> {
    match ty {
        VariableType::Integer(bits) => if is_width(bits as int) {
            Some((bits / 8) as usize)
        } else {
            None
        },
        VariableType::UnsignedInteger(bits) => if is_width(bits as int) {
            Some((bits / 8) as usize)
        } else {
            None
        },
        _ => None,
    }
}

fn width_of_element(ty: &VariableType) -> (res: Option<usize>)
    ensures
        res == element_width(*ty),
{
    let bits: usize = match ty {
        VariableType::Integer(bits) => *bits,
        VariableType::UnsignedInteger(bits) => *bits,
        _ => return None,
    };
    if bits == 8 || bits == 16 || bits == 32 || bits == 64 {
        Some(bits / 8)
    } else {
        None
    }
}

/// Whether `vector` is a sequence of elements of the type.
pub open spec fn holds_elements(
    context: ContextModel,
    vector: IRExpr,
    element_type: VariableType,
) -> bool {
    match type_of(context, vector) {
        Some(VariableType::Vector(inner)) => *inner == element_type,
        Some(VariableType::CString) => element_type == VariableType::Integer(8),
        _ => false,
    }
}

fn vector_of(context: &Context, vector: &IRExpr, element_type: &VariableType) -> (res: bool)
    ensures
        res == holds_elements(context@, *vector, *element_type),
{
    match context.direct_type(vector) {
        Some(VariableType::Vector(inner)) => inner.same(element_type),
        Some(VariableType::CString) => match element_type {
            VariableType::Integer(bits) => *bits == 8,
            _ => false,
        },
        _ => false,
    }
}

/// Whether the check is that the element is not zero.
pub open spec fn checks_nonzero(check: IRExpr, element: VariableId) -> bool {
    match check {
        IRExpr::BinOp { kind, lhs, rhs } => kind == IRBinOpKind::Ne && ((*lhs == IRExpr::Variable(
            element,
        ) && literal_number(*rhs) == Some(0u64)) || (*rhs == IRExpr::Variable(element)
            && literal_number(*lhs) == Some(0u64))),
        _ => false,
    }
}

fn nonzero_check(check: &IRExpr, element: VariableId) -> (res: bool)
    ensures
        res == checks_nonzero(*check, element),
{
    match check {
        IRExpr::BinOp { kind, lhs, rhs } => *kind == IRBinOpKind::Ne && ((is_variable(lhs, element)
            && unsigned_constant(rhs) == Some(0)) || (is_variable(rhs, element)
            && unsigned_constant(lhs) == Some(0))),
        _ => false,
    }
}

/// The counter as a 64-bit index.
pub open spec fn counter_index(counter: VariableId, index_bits: usize) -> IRExpr {
    if index_bits == 64 {
        IRExpr::Variable(counter)
    } else {
        IRExpr::Convert {
            value: Box::new(IRExpr::Variable(counter)),
            source: IntegerType { size: (index_bits / 8) as usize, signed: false },
            target: IntegerType { size: 8, signed: false },
        }
    }
}

fn index_by(counter: VariableId, index_bits: usize) -> (res: IRExpr)
    ensures
        res == counter_index(counter, index_bits),
{
    if index_bits == 64 {
        IRExpr::Variable(counter)
    } else {
        IRExpr::Convert {
            value: Box::new(IRExpr::Variable(counter)),
            source: IntegerType { size: index_bits / 8, signed: false },
            target: IntegerType { size: 8, signed: false },
        }
    }
}

/// Whether an instruction of the body leaves the walk alone: it neither
/// transfers control, writes memory nor traps, and touches neither the counter,
/// the element nor the vector.
pub open spec fn leaves_walk_alone(
    effects: EffectsModel,
    counter: VariableId,
    element: VariableId,
    vector: IRExpr,
) -> bool {
    &&& !effects.control
    &&& !effects.memory_write
    &&& !effects.unknown_write
    &&& !effects.may_trap
    &&& !effects.reads.contains(counter)
    &&& !effects.writes.contains(counter)
    &&& !effects.writes.contains(element)
    &&& match vector {
        IRExpr::Variable(variable) => !effects.writes.contains(variable),
        _ => true,
    }
}

/// The body of a walk without its one increment, and the increment's offset.
pub struct WalkBody {
    pub advance: Option<usize>,
    pub remaining: Seq<(usize, InstModel)>,
}

pub open spec fn walk_body(
    body: Seq<(usize, InstModel)>,
    counter: VariableId,
    element: VariableId,
    vector: IRExpr,
) -> Option<WalkBody>
    decreases body.len(),
{
    if body.len() == 0 {
        Some(WalkBody { advance: None, remaining: Seq::empty() })
    } else {
        match walk_body(body.drop_last(), counter, element, vector) {
            None => None,
            Some(walk) => if increments(body.last().1, counter) {
                if walk.advance is Some {
                    None
                } else {
                    Some(WalkBody { advance: Some(body.last().0), ..walk })
                }
            } else if leaves_walk_alone(
                instruction_effects(body.last().1),
                counter,
                element,
                vector,
            ) {
                Some(WalkBody { remaining: walk.remaining.push(body.last()), ..walk })
            } else {
                None
            },
        }
    }
}

proof fn lemma_walk_prefix(
    body: Seq<(usize, InstModel)>,
    counter: VariableId,
    element: VariableId,
    vector: IRExpr,
    count: int,
)
    requires
        0 <= count <= body.len(),
        walk_body(body.subrange(0, count), counter, element, vector) is None,
    ensures
        walk_body(body, counter, element, vector) is None,
    decreases body.len() - count,
{
    if count < body.len() {
        assert(body.subrange(0, count + 1).drop_last() =~= body.subrange(0, count));
        lemma_walk_prefix(body, counter, element, vector, count + 1);
    } else {
        assert(body.subrange(0, count) =~= body);
    }
}

/// The body without its last instruction and its one increment.
fn split_walk(
    body: &Vec<(usize, IRInst)>,
    counter: VariableId,
    element: VariableId,
    vector: &IRExpr,
) -> (res: Option<(Option<usize>, Vec<(usize, IRInst)>)>)
    requires
        body@.len() > 0,
    ensures
        match res {
            Some((advance, remaining)) => walk_body(
                body_models(body@).drop_last(),
                counter,
                element,
                *vector,
            ) == Some(WalkBody { advance, remaining: body_models(remaining@) }),
            None => walk_body(
                body_models(body@).drop_last(),
                counter,
                element,
                *vector,
            ) is None,
        },
{
    let ghost all = body_models(body@).drop_last();
    let mut advance: Option<usize> = None;
    let mut remaining: Vec<(usize, IRInst)> = Vec::new();
    let mut i: usize = 0;
    assert(all.subrange(0, 0) =~= Seq::<(usize, InstModel)>::empty());
    assert(body_models(remaining@) =~= Seq::<(usize, InstModel)>::empty());
    while i < body.len() - 1
        invariant
            body@.len() > 0,
            i <= body@.len() - 1,
            all == body_models(body@).drop_last(),
            walk_body(all.subrange(0, i as int), counter, element, *vector) == Some(
                WalkBody { advance, remaining: body_models(remaining@) },
            ),
        decreases body@.len() - i,
    {
        let ghost prefix = all.subrange(0, i + 1);
        let ghost before = body_models(remaining@);
        assert(prefix.drop_last() =~= all.subrange(0, i as int));
        assert(prefix.last() == (body@[i as int].0, body@[i as int].1.model()));
        if increment_of(&body[i].1, counter) {
            if advance.is_some() {
                proof {
                    lemma_walk_prefix(all, counter, element, *vector, i + 1);
                }
                return None;
            }
            advance = Some(body[i].0);
        } else {
            let effects = Effects::of_instruction(&body[i].1);
            let touches_vector: bool = match vector {
                IRExpr::Variable(variable) => effects.writes.contains(*variable),
                _ => false,
            };
            if effects.control || effects.memory_write || effects.unknown_write
                || effects.may_trap || effects.reads.contains(counter) || effects.writes.contains(
                counter,
            ) || effects.writes.contains(element) || touches_vector {
                proof {
                    lemma_walk_prefix(all, counter, element, *vector, i + 1);
                }
                return None;
            }
            remaining.push((body[i].0, body[i].1.clone()));
            assert(body_models(remaining@) =~= before.push(prefix.last()));
        }
        i = i + 1;
    }
    assert(all.subrange(0, i as int) =~= all);
    Some((advance, remaining))
}

/// The walk that the three instructions make together.
pub open spec fn vector_iteration_of(
    counter_init: InstModel,
    element_init: InstModel,
    loop_instr: InstModel,
    context: ContextModel,
) -> Option<VectorIterationModel> {
    match (counter_init, element_init, loop_instr) {
        (
            InstModel::DeclareAndAssignVariable {
                variable: counter,
                ty: VariableType::UnsignedInteger(index_bits),
                value: start_expr,
            },
            InstModel::DeclareAndAssignVariable {
                variable: element,
                ty: element_type,
                value: IRExpr::Deref(initial_address),
            },
            InstModel::While {
                label: None,
                entry_offset,
                condition: LoopCondition::Before { offset: condition_offset, expression: check },
                body,
            },
        ) => match (
            literal_number(start_expr),
            element_of(*initial_address),
            element_width(element_type),
        ) {
            (Some(start), Some((vector, initial_index, element_size)), Some(width)) => {
                if is_width(index_bits as int) && start < modulus(index_bits as int)
                    && literal_number(initial_index) == Some(start) && holds_elements(
                    context,
                    vector,
                    element_type,
                ) && element_size == width && checks_nonzero(check, element) && body.len() > 0
                    && loaded_element(body.last().1, element) == Some(
                    (vector, counter_index(counter, index_bits), width),
                ) {
                    match walk_body(body.drop_last(), counter, element, vector) {
                        Some(WalkBody { advance: Some(advance_offset), remaining }) => Some(
                            VectorIterationModel {
                                counter,
                                element,
                                replacement: InstModel::ForEach {
                                    entry_offset,
                                    condition_offset,
                                    advance_offset,
                                    load_offset: body.last().0,
                                    variable: element,
                                    element_type,
                                    vector,
                                    start,
                                    index_bits,
                                    body: remaining,
                                },
                            },
                        ),
                        _ => None,
                    }
                } else {
                    None
                }
            },
            _ => None,
        },
        _ => None,
    }
}

/// Match a zero-terminated traversal whose only counter use is a wrapping
/// increment and the next element address. The caller checks that both local
/// variables have no uses outside this three-instruction sequence.
pub fn vector_iteration(
    counter_init: &IRInst,
    element_init: &IRInst,
    loop_instr: &IRInst,
    context: &Context,
) -> (res: Option<VectorIteration>)
    ensures
        match res {
            Some(shape) => vector_iteration_of(
                counter_init.model(),
                element_init.model(),
                loop_instr.model(),
                context@,
            ) == Some(shape.model()),
            None => vector_iteration_of(
                counter_init.model(),
                element_init.model(),
                loop_instr.model(),
                context@,
            ) is None,
        },
{
    let (counter, index_bits, start_expr): (VariableId, usize, &IRExpr) = match counter_init {
        IRInst::DeclareAndAssignVariable {
            variable,
            ty: VariableType::UnsignedInteger(bits),
            value,
        } => (*variable, *bits, value),
        _ => return None,
    };
    if !(index_bits == 8 || index_bits == 16 || index_bits == 32 || index_bits == 64) {
        return None;
    }
    let start: u64 = match unsigned_constant(start_expr) {
        Some(start) => start,
        None => return None,
    };
    if (index_bits == 8 && start >= 0x100) || (index_bits == 16 && start >= 0x1_0000) || (
    index_bits == 32 && start >= 0x1_0000_0000) {
        return None;
    }
    let (element, element_type, initial_address): (VariableId, &VariableType, &IRExpr) =
        match element_init {
        IRInst::DeclareAndAssignVariable { variable, ty, value: IRExpr::Deref(address) } => (
            *variable,
            ty,
            &**address,
        ),
        _ => return None,
    };
    let (vector, initial_index, element_size): (&IRExpr, &IRExpr, usize) = match element_parts(
        initial_address,
    ) {
        Some(parts) => parts,
        None => return None,
    };
    if unsigned_constant(initial_index) != Some(start) {
        return None;
    }
    if !vector_of(context, vector, element_type) {
        return None;
    }
    let width: usize = match width_of_element(element_type) {
        Some(width) => width,
        None => return None,
    };
    if element_size != width {
        return None;
    }
    let (entry_offset, condition_offset, check, body) = match loop_instr {
        IRInst::While {
            label: None,
            entry_offset,
            condition: LoopCondition::Before { offset, expression },
            body,
        } => (*entry_offset, *offset, expression, body),
        _ => return None,
    };
    if !nonzero_check(check, element) {
        return None;
    }
    if body.len() == 0 {
        return None;
    }
    assert(body_models(body@).last() == (body@.last().0, body@.last().1.model()));
    let load_offset: usize = body[body.len() - 1].0;
    let (next_vector, next_index, next_size): (&IRExpr, &IRExpr, usize) = match load_from_index(
        &body[body.len() - 1].1,
        element,
    ) {
        Some(parts) => parts,
        None => return None,
    };
    if !next_vector.same(vector) || next_size != width {
        return None;
    }
    if !next_index.same(&index_by(counter, index_bits)) {
        return None;
    }
    match split_walk(body, counter, element, vector) {
        Some((Some(advance_offset), remaining)) => Some(
            VectorIteration {
                counter,
                element,
                replacement: IRInst::ForEach {
                    entry_offset,
                    condition_offset,
                    advance_offset,
                    load_offset,
                    variable: element,
                    element_type: element_type.clone(),
                    vector: vector.clone(),
                    start,
                    index_bits,
                    body: remaining,
                },
            },
        ),
        _ => None,
    }
}

} // verus!
