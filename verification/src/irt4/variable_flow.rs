//! A tier 4 local view of slot operations and structured control flow.
//!
//! Each node reads its inputs before writing its destination. Dependencies
//! retain their base and displacement, so an address such as `slot + 0x24`
//! remains distinguishable from a plain read of `slot`.
use super::ir::{
    body_models, models, FunctionModel, IRBinOpKind, IRExpr, IRInst, InstModel, LoopCondition,
    LoopId, SyntheticFunction, VariableId,
};
use crate::table::{Key, KeySet};
use vstd::prelude::*;

verus! {

/// A slot and a constant distance from it.
#[derive(Clone, Copy, Debug, PartialEq, Eq, Structural)]
pub struct Offset {
    pub base: VariableId,
    pub displacement: i128,
}

impl Key for Offset {
    fn equal(&self, other: &Self) -> (res: bool) {
        *self == *other
    }
}

/// What one instruction does with slots.
pub struct Operation {
    pub dependencies: KeySet<Offset>,
    pub write: Option<VariableId>,
    pub offset: Option<Offset>,
    pub argument: Option<usize>,
    /// Whether the written value is computed without reading memory.
    pub pure_write: bool,
}

pub struct OperationModel {
    pub dependencies: Set<Offset>,
    pub write: Option<VariableId>,
    pub offset: Option<Offset>,
    pub argument: Option<usize>,
    pub pure_write: bool,
}

impl OperationModel {
    /// Whether the slot is read, at any displacement.
    pub open spec fn reads(self, variable: VariableId) -> bool {
        exists|d: Offset| #[trigger] self.dependencies.contains(d) && d.base == variable
    }

    /// Whether the slot is read or written.
    pub open spec fn mentions(self, variable: VariableId) -> bool {
        self.write == Some(variable) || self.reads(variable)
    }
}

impl Operation {
    pub open spec fn model(self) -> OperationModel {
        OperationModel {
            dependencies: self.dependencies@,
            write: self.write,
            offset: self.offset,
            argument: self.argument,
            pure_write: self.pure_write,
        }
    }

    /// Whether the slot is read, at any displacement.
    pub fn reads(&self, variable: VariableId) -> (res: bool)
        ensures
            res == self.model().reads(variable),
    {
        let items: &Vec<Offset> = self.dependencies.items();
        let mut i: usize = 0;
        while i < items.len()
            invariant
                i <= items@.len(),
                forall|d: Offset| #[trigger]
                    items@.contains(d) <==> self.dependencies@.contains(d),
                forall|k: int| 0 <= k < i ==> (#[trigger] items@[k]).base != variable,
            decreases items@.len() - i,
        {
            if items[i].base == variable {
                assert(items@.contains(items@[i as int]));
                assert(self.model().dependencies.contains(items@[i as int]));
                return true;
            }
            i = i + 1;
        }
        proof {
            if self.model().reads(variable) {
                let d = choose|d: Offset| #[trigger]
                    self.model().dependencies.contains(d) && d.base == variable;
                assert(items@.contains(d));
                let k = choose|k: int| 0 <= k < items@.len() && items@[k] == d;
                assert(items@[k].base != variable);
            }
        }
        false
    }

    fn empty() -> (res: Self)
        ensures
            res.model() == no_operation(),
    {
        Operation {
            dependencies: KeySet::new(),
            write: None,
            offset: None,
            argument: None,
            pure_write: false,
        }
    }
}

pub open spec fn no_operation() -> OperationModel {
    OperationModel {
        dependencies: Set::empty(),
        write: None,
        offset: None,
        argument: None,
        pure_write: false,
    }
}

pub struct Node {
    pub operation: Operation,
    pub successors: Vec<usize>,
}

pub struct NodeModel {
    pub operation: OperationModel,
    pub successors: Seq<usize>,
}

impl Node {
    pub open spec fn model(self) -> NodeModel {
        NodeModel { operation: self.operation.model(), successors: self.successors@ }
    }
}

pub open spec fn node_models(nodes: Seq<Node>) -> Seq<NodeModel> {
    nodes.map_values(|n: Node| n.model())
}

pub struct Flow {
    pub nodes: Vec<Node>,
    pub entry: usize,
}

pub struct FlowModel {
    pub nodes: Seq<NodeModel>,
    pub entry: usize,
}

impl Flow {
    pub open spec fn model(self) -> FlowModel {
        FlowModel { nodes: node_models(self.nodes@), entry: self.entry }
    }
}

// ---------------------------------------------------------------------------
// Operations

pub open spec fn constant_of(expr: IRExpr) -> Option<i128> {
    match expr {
        IRExpr::CU8(value) => Some(value as i128),
        IRExpr::CU32(value) => Some(value as i128),
        IRExpr::CU64(value) => Some(value as i128),
        _ => None,
    }
}

fn constant(expr: &IRExpr) -> (res: Option<i128>)
    ensures
        res == constant_of(*expr),
{
    match expr {
        IRExpr::CU8(value) => Some(*value as i128),
        IRExpr::CU32(value) => Some(*value as i128),
        IRExpr::CU64(value) => Some(*value as i128),
        _ => None,
    }
}

/// The offset moved on, unless the displacement leaves its range.
pub open spec fn moved(value: Offset, delta: int) -> Option<Offset> {
    let displacement = value.displacement + delta;
    if i128::MIN <= displacement <= i128::MAX {
        Some(Offset { base: value.base, displacement: displacement as i128 })
    } else {
        None
    }
}

/// Copies and base-plus-constant values, with the offset that they keep.
pub open spec fn offset_of(expr: IRExpr) -> Option<Offset>
    decreases expr,
{
    match expr {
        IRExpr::Variable(base) => Some(Offset { base, displacement: 0 }),
        IRExpr::BinOp { kind, lhs, rhs } => match kind {
            IRBinOpKind::Add => match (offset_of(*lhs), constant_of(*rhs)) {
                (Some(value), Some(delta)) => moved(value, delta as int),
                _ => match (constant_of(*lhs), offset_of(*rhs)) {
                    (Some(delta), Some(value)) => moved(value, delta as int),
                    _ => None,
                },
            },
            IRBinOpKind::Sub => match (offset_of(*lhs), constant_of(*rhs)) {
                (Some(value), Some(delta)) => moved(value, -(delta as int)),
                _ => None,
            },
            _ => None,
        },
        _ => None,
    }
}

fn offset(expr: &IRExpr) -> (res: Option<Offset>)
    ensures
        res == offset_of(*expr),
    decreases expr,
{
    match expr {
        IRExpr::Variable(base) => Some(Offset { base: *base, displacement: 0 }),
        IRExpr::BinOp { kind, lhs, rhs } => match kind {
            IRBinOpKind::Add => match (offset(lhs), constant(rhs)) {
                (Some(value), Some(delta)) => match value.displacement.checked_add(delta) {
                    Some(displacement) => Some(Offset { base: value.base, displacement }),
                    None => None,
                },
                _ => match (constant(lhs), offset(rhs)) {
                    (Some(delta), Some(value)) => match value.displacement.checked_add(delta) {
                        Some(displacement) => Some(Offset { base: value.base, displacement }),
                        None => None,
                    },
                    _ => None,
                },
            },
            IRBinOpKind::Sub => match (offset(lhs), constant(rhs)) {
                (Some(value), Some(delta)) => match value.displacement.checked_sub(delta) {
                    Some(displacement) => Some(Offset { base: value.base, displacement }),
                    None => None,
                },
                _ => None,
            },
            _ => None,
        },
        _ => None,
    }
}

/// The dependencies with those of an expression.
pub open spec fn reads_with(expr: IRExpr, found: Set<Offset>) -> Set<Offset>
    decreases expr,
{
    match offset_of(expr) {
        Some(dependency) => found.insert(dependency),
        None => match expr {
            IRExpr::BinOp { lhs, rhs, .. } => reads_with(*rhs, reads_with(*lhs, found)),
            IRExpr::Deref(inner) => reads_with(*inner, found),
            IRExpr::CastUnknownPtr { address, .. } => reads_with(*address, found),
            IRExpr::Convert { value, .. } => reads_with(*value, found),
            IRExpr::Not(inner) => reads_with(*inner, found),
            _ => found,
        },
    }
}

pub open spec fn reads_with_all(list: Seq<IRExpr>, found: Set<Offset>) -> Set<Offset>
    decreases list.len(),
{
    if list.len() == 0 {
        found
    } else {
        reads_with(list.last(), reads_with_all(list.drop_last(), found))
    }
}

fn reads(expr: &IRExpr, found: &mut KeySet<Offset>)
    ensures
        final(found)@ == reads_with(*expr, old(found)@),
    decreases expr,
{
    if let Some(dependency) = offset(expr) {
        found.insert(dependency);
        return;
    }
    match expr {
        IRExpr::BinOp { lhs, rhs, .. } => {
            reads(lhs, found);
            reads(rhs, found);
        },
        IRExpr::Deref(inner) => reads(inner, found),
        IRExpr::CastUnknownPtr { address, .. } => reads(address, found),
        IRExpr::Convert { value, .. } => reads(value, found),
        IRExpr::Not(inner) => reads(inner, found),
        _ => {},
    }
}

fn reads_all(list: &Vec<IRExpr>, found: &mut KeySet<Offset>)
    ensures
        final(found)@ == reads_with_all(list@, old(found)@),
{
    let ghost start = found@;
    assert(list@.subrange(0, 0) =~= Seq::empty());
    let mut i: usize = 0;
    while i < list.len()
        invariant
            i <= list@.len(),
            found@ == reads_with_all(list@.subrange(0, i as int), start),
        decreases list@.len() - i,
    {
        let ghost prefix = list@.subrange(0, i + 1);
        assert(prefix.drop_last() =~= list@.subrange(0, i as int));
        reads(&list[i], found);
        i = i + 1;
    }
    assert(list@.subrange(0, i as int) =~= list@);
}

/// Whether evaluating the expression reads no memory.
pub open spec fn effect_free(expr: IRExpr) -> bool
    decreases expr,
{
    match expr {
        IRExpr::BinOp { lhs, rhs, .. } => effect_free(*lhs) && effect_free(*rhs),
        IRExpr::Deref(_) => false,
        IRExpr::CastUnknownPtr { address, .. } => effect_free(*address),
        IRExpr::Convert { value, .. } => effect_free(*value),
        IRExpr::Data(_) => false,
        IRExpr::Not(inner) => effect_free(*inner),
        _ => true,
    }
}

pub fn is_effect_free(expr: &IRExpr) -> (res: bool)
    ensures
        res == effect_free(*expr),
    decreases expr,
{
    match expr {
        IRExpr::BinOp { lhs, rhs, .. } => is_effect_free(lhs) && is_effect_free(rhs),
        IRExpr::Deref(_) => false,
        IRExpr::CastUnknownPtr { address, .. } => is_effect_free(address),
        IRExpr::Convert { value, .. } => is_effect_free(value),
        IRExpr::Data(_) => false,
        IRExpr::Not(inner) => is_effect_free(inner),
        _ => true,
    }
}


/// An instruction that only reads.
pub open spec fn reading(found: Set<Offset>) -> OperationModel {
    OperationModel { dependencies: found, ..no_operation() }
}

/// An assignment of a value to a slot.
pub open spec fn writing(variable: VariableId, value: IRExpr) -> OperationModel {
    OperationModel {
        dependencies: reads_with(value, Set::empty()),
        write: Some(variable),
        offset: offset_of(value),
        argument: match value {
            IRExpr::Argument(ordinal) => Some(ordinal),
            _ => None,
        },
        pure_write: effect_free(value),
    }
}

/// What an instruction does with slots, apart from the instructions in it.
pub open spec fn operation_of(instr: InstModel) -> OperationModel {
    match instr {
        InstModel::Assign { dest, src } => match dest {
            IRExpr::Variable(variable) => writing(variable, src),
            _ => reading(reads_with(dest, reads_with(src, Set::empty()))),
        },
        InstModel::AssignVariable { variable, value } => writing(variable, value),
        InstModel::DeclareAndAssignVariable { variable, value, .. } => writing(variable, value),
        InstModel::LoadVariable { variable, address } => OperationModel {
            write: Some(variable),
            ..reading(reads_with(address, Set::empty()))
        },
        InstModel::StoreVariable { address, variable } => reading(
            reads_with(address, Set::empty()).insert(Offset { base: variable, displacement: 0 }),
        ),
        InstModel::Return(Some(value)) => reading(reads_with(value, Set::empty())),
        InstModel::Jump(value) => reading(reads_with(value, Set::empty())),
        InstModel::If { condition, .. } => reading(reads_with(condition, Set::empty())),
        InstModel::While { condition, .. } => reading(reads_with(condition.check(), Set::empty())),
        InstModel::CallSynthetic { arguments, .. } => reading(
            reads_with_all(arguments, Set::empty()),
        ),
        _ => no_operation(),
    }
}

fn write_operation(variable: VariableId, value: &IRExpr) -> (res: Operation)
    ensures
        res.model() == writing(variable, *value),
{
    let mut op: Operation = Operation::empty();
    reads(value, &mut op.dependencies);
    op.write = Some(variable);
    op.offset = offset(value);
    if let IRExpr::Argument(ordinal) = value {
        op.argument = Some(*ordinal);
    }
    op.pure_write = is_effect_free(value);
    op
}

fn operation(instr: &IRInst) -> (res: Operation)
    ensures
        res.model() == operation_of(instr.model()),
{
    let mut op: Operation = Operation::empty();
    match instr {
        IRInst::Assign { dest, src } => {
            if let IRExpr::Variable(variable) = dest {
                return write_operation(*variable, src);
            }
            reads(src, &mut op.dependencies);
            reads(dest, &mut op.dependencies);
        },
        IRInst::AssignVariable { variable, value } => {
            return write_operation(*variable, value);
        },
        IRInst::DeclareAndAssignVariable { variable, value, .. } => {
            return write_operation(*variable, value);
        },
        IRInst::LoadVariable { variable, address } => {
            reads(address, &mut op.dependencies);
            op.write = Some(*variable);
        },
        IRInst::StoreVariable { address, variable } => {
            reads(address, &mut op.dependencies);
            op.dependencies.insert(Offset { base: *variable, displacement: 0 });
        },
        IRInst::Return(Some(value)) => {
            reads(value, &mut op.dependencies);
        },
        IRInst::Jump(value) => {
            reads(value, &mut op.dependencies);
        },
        IRInst::If { condition, .. } => {
            reads(condition, &mut op.dependencies);
        },
        IRInst::While { condition, .. } => {
            reads(condition.expression(), &mut op.dependencies);
        },
        IRInst::CallSynthetic { arguments, .. } => {
            reads_all(arguments, &mut op.dependencies);
        },
        _ => {},
    }
    op
}

// ---------------------------------------------------------------------------
// Control flow

/// Where the jumps of a loop lead.
#[derive(Clone, Copy, Debug, PartialEq, Eq, Structural)]
pub struct LoopTargets {
    pub label: Option<LoopId>,
    pub break_to: usize,
    pub continue_to: usize,
}

/// The last of the first `count` loops with a label.
pub open spec fn labelled(loops: Seq<LoopTargets>, label: LoopId, count: int) -> Seq<usize>
    decreases count,
{
    if count <= 0 {
        Seq::empty()
    } else if loops[count - 1].label == Some(label) {
        seq![loops[count - 1].continue_to]
    } else {
        labelled(loops, label, count - 1)
    }
}

pub open spec fn linked(
    nodes: Seq<NodeModel>,
    operation: OperationModel,
    successors: Seq<usize>,
) -> (usize, Seq<NodeModel>) {
    (nodes.len() as usize, nodes.push(NodeModel { operation, successors }))
}

pub open spec fn relinked(nodes: Seq<NodeModel>, id: int, successors: Seq<usize>) -> Seq<
    NodeModel,
> {
    nodes.update(id, NodeModel { successors, ..nodes[id] })
}

/// The nodes with those of an instruction, and the one at which it starts.
pub open spec fn flow_of(
    instr: InstModel,
    next: usize,
    loops: Seq<LoopTargets>,
    nodes: Seq<NodeModel>,
) -> (usize, Seq<NodeModel>)
    decreases instr,
{
    let op = operation_of(instr);
    match instr {
        InstModel::If { then_branch, else_branch, .. } => {
            let first = flow_of_list(then_branch, next, loops, nodes);
            let second = flow_of_list(else_branch, next, loops, first.1);
            linked(second.1, op, seq![first.0, second.0])
        },
        InstModel::While { label, condition, body, .. } => {
            let check = nodes.len() as usize;
            let checked = nodes.push(NodeModel { operation: op, successors: Seq::empty() });
            match condition {
                LoopCondition::Before { .. } => {
                    let inner = flow_of_body(
                        body,
                        check,
                        loops.push(LoopTargets { label, break_to: next, continue_to: check }),
                        checked,
                    );
                    (check, relinked(inner.1, check as int, seq![inner.0, next]))
                },
                LoopCondition::After { .. } => {
                    let start = checked.len() as usize;
                    let started = checked.push(
                        NodeModel { operation: no_operation(), successors: Seq::empty() },
                    );
                    let inner = flow_of_body(
                        body,
                        check,
                        loops.push(LoopTargets { label, break_to: next, continue_to: start }),
                        started,
                    );
                    (
                        start,
                        relinked(
                            relinked(inner.1, start as int, seq![inner.0]),
                            check as int,
                            seq![start, next],
                        ),
                    )
                },
            }
        },
        InstModel::Break => linked(
            nodes,
            op,
            if loops.len() == 0 {
                Seq::empty()
            } else {
                seq![loops.last().break_to]
            },
        ),
        InstModel::Continue => linked(
            nodes,
            op,
            if loops.len() == 0 {
                Seq::empty()
            } else {
                seq![loops.last().continue_to]
            },
        ),
        InstModel::ContinueLoop(label) => linked(
            nodes,
            op,
            labelled(loops, label, loops.len() as int),
        ),
        InstModel::Return(_) => linked(nodes, op, Seq::empty()),
        InstModel::CallSynthetic { .. } => linked(nodes, op, Seq::empty()),
        InstModel::Jump(_) => linked(nodes, op, Seq::empty()),
        InstModel::End => linked(nodes, op, Seq::empty()),
        _ => linked(nodes, op, seq![next]),
    }
}

pub open spec fn flow_of_list(
    list: Seq<InstModel>,
    next: usize,
    loops: Seq<LoopTargets>,
    nodes: Seq<NodeModel>,
) -> (usize, Seq<NodeModel>)
    decreases list,
{
    if list.len() == 0 {
        (next, nodes)
    } else {
        let last = flow_of(list[list.len() - 1], next, loops, nodes);
        flow_of_list(list.drop_last(), last.0, loops, last.1)
    }
}

pub open spec fn flow_of_body(
    list: Seq<(usize, InstModel)>,
    next: usize,
    loops: Seq<LoopTargets>,
    nodes: Seq<NodeModel>,
) -> (usize, Seq<NodeModel>)
    decreases list,
{
    if list.len() == 0 {
        (next, nodes)
    } else {
        let last = flow_of(list[list.len() - 1].1, next, loops, nodes);
        flow_of_body(list.drop_last(), last.0, loops, last.1)
    }
}

/// The flow of a function. Its first node stands for leaving it.
pub open spec fn flow_of_function(function: FunctionModel) -> FlowModel {
    let built = flow_of_body(
        function.body,
        0,
        Seq::empty(),
        seq![NodeModel { operation: no_operation(), successors: Seq::empty() }],
    );
    FlowModel { nodes: built.1, entry: built.0 }
}

struct Builder {
    nodes: Vec<Node>,
}

impl Builder {
    spec fn made(self) -> Seq<NodeModel> {
        node_models(self.nodes@)
    }

    fn push(&mut self, operation: Operation, successors: Vec<usize>) -> (res: usize)
        ensures
            (res, final(self).made()) == linked(
                old(self).made(),
                operation.model(),
                successors@,
            ),
    {
        let ghost before = self.made();
        let id: usize = self.nodes.len();
        let node = Node { operation, successors };
        let ghost model = node.model();
        self.nodes.push(node);
        assert(self.made() =~= before.push(model));
        id
    }

    fn relink(&mut self, id: usize, successors: Vec<usize>)
        requires
            id < old(self).made().len(),
        ensures
            final(self).made() == relinked(old(self).made(), id as int, successors@),
    {
        let ghost before = self.made();
        self.nodes[id].successors = successors;
        assert(self.made() =~= relinked(before, id as int, successors@));
    }

    fn sequence(
        &mut self,
        list: &Vec<IRInst>,
        next: usize,
        loops: &Vec<LoopTargets>,
    ) -> (res: usize)
        ensures
            (res, final(self).made()) == flow_of_list(
                models(list@),
                next,
                loops@,
                old(self).made(),
            ),
            final(self).made().len() >= old(self).made().len(),
        decreases list, 0int,
    {
        let ghost all = models(list@);
        let ghost total = flow_of_list(all, next, loops@, self.made());
        let mut next: usize = next;
        let mut i: usize = list.len();
        assert(all.subrange(0, i as int) =~= all);
        while i > 0
            invariant
                i <= list@.len(),
                all == models(list@),
                total == flow_of_list(all.subrange(0, i as int), next, loops@, self.made()),
                self.made().len() >= old(self).made().len(),
            decreases i,
        {
            i = i - 1;
            let ghost prefix = all.subrange(0, i + 1);
            assert(prefix.drop_last() =~= all.subrange(0, i as int));
            assert(decreases_to!(list => list@[i as int]));
            next = self.instruction(&list[i], next, loops);
        }
        assert(all.subrange(0, 0) =~= Seq::empty());
        next
    }

    fn body(
        &mut self,
        list: &Vec<(usize, IRInst)>,
        next: usize,
        loops: &Vec<LoopTargets>,
    ) -> (res: usize)
        ensures
            (res, final(self).made()) == flow_of_body(
                body_models(list@),
                next,
                loops@,
                old(self).made(),
            ),
            final(self).made().len() >= old(self).made().len(),
        decreases list, 0int,
    {
        let ghost all = body_models(list@);
        let ghost total = flow_of_body(all, next, loops@, self.made());
        let mut next: usize = next;
        let mut i: usize = list.len();
        assert(all.subrange(0, i as int) =~= all);
        while i > 0
            invariant
                i <= list@.len(),
                all == body_models(list@),
                total == flow_of_body(all.subrange(0, i as int), next, loops@, self.made()),
                self.made().len() >= old(self).made().len(),
            decreases i,
        {
            i = i - 1;
            let ghost prefix = all.subrange(0, i + 1);
            assert(prefix.drop_last() =~= all.subrange(0, i as int));
            assert(decreases_to!(list => list@[i as int]));
            next = self.instruction(&list[i].1, next, loops);
        }
        assert(all.subrange(0, 0) =~= Seq::empty());
        next
    }

    #[verifier::rlimit(50)]
    fn instruction(
        &mut self,
        instr: &IRInst,
        next: usize,
        loops: &Vec<LoopTargets>,
    ) -> (res: usize)
        ensures
            (res, final(self).made()) == flow_of(
                instr.model(),
                next,
                loops@,
                old(self).made(),
            ),
            final(self).made().len() >= old(self).made().len(),
        decreases instr, 1int,
    {
        match instr {
            IRInst::If { then_branch, else_branch, .. } => {
                let then_entry: usize = self.sequence(then_branch, next, loops);
                let else_entry: usize = self.sequence(else_branch, next, loops);
                let successors: Vec<usize> = vec![then_entry, else_entry];
                assert(successors@ =~= seq![then_entry, else_entry]);
                self.push(operation(instr), successors)
            },
            IRInst::While { label, condition, body, .. } => {
                let none: Vec<usize> = Vec::new();
                assert(none@ =~= Seq::<usize>::empty());
                let check: usize = self.push(operation(instr), none);
                match condition {
                    LoopCondition::Before { .. } => {
                        let nested: Vec<LoopTargets> = nest(
                            loops,
                            LoopTargets { label: *label, break_to: next, continue_to: check },
                        );
                        let entry: usize = self.body(body, check, &nested);
                        let successors: Vec<usize> = vec![entry, next];
                        assert(successors@ =~= seq![entry, next]);
                        self.relink(check, successors);
                        check
                    },
                    LoopCondition::After { .. } => {
                        let none: Vec<usize> = Vec::new();
                        assert(none@ =~= Seq::<usize>::empty());
                        // A continue to a do-while loop skips its trailing check.
                        let start: usize = self.push(Operation::empty(), none);
                        let nested: Vec<LoopTargets> = nest(
                            loops,
                            LoopTargets { label: *label, break_to: next, continue_to: start },
                        );
                        let entry: usize = self.body(body, check, &nested);
                        let successors: Vec<usize> = vec![entry];
                        assert(successors@ =~= seq![entry]);
                        self.relink(start, successors);
                        let successors: Vec<usize> = vec![start, next];
                        assert(successors@ =~= seq![start, next]);
                        self.relink(check, successors);
                        start
                    },
                }
            },
            IRInst::Break => {
                let mut successors: Vec<usize> = Vec::new();
                if loops.len() > 0 {
                    successors.push(loops[loops.len() - 1].break_to);
                }
                assert(loops@.len() > 0 ==> successors@ =~= seq![loops@.last().break_to]);
                assert(loops@.len() == 0 ==> successors@ =~= Seq::empty());
                self.push(operation(instr), successors)
            },
            IRInst::Continue => {
                let mut successors: Vec<usize> = Vec::new();
                if loops.len() > 0 {
                    successors.push(loops[loops.len() - 1].continue_to);
                }
                assert(loops@.len() > 0 ==> successors@ =~= seq![loops@.last().continue_to]);
                assert(loops@.len() == 0 ==> successors@ =~= Seq::empty());
                self.push(operation(instr), successors)
            },
            IRInst::ContinueLoop(label) => {
                let successors: Vec<usize> = find_label(loops, *label);
                self.push(operation(instr), successors)
            },
            IRInst::Return(_)
            | IRInst::CallSynthetic { .. }
            | IRInst::Jump(_)
            | IRInst::End => {
                let none: Vec<usize> = Vec::new();
                assert(none@ =~= Seq::<usize>::empty());
                self.push(operation(instr), none)
            },
            _ => {
                let successors: Vec<usize> = vec![next];
                assert(successors@ =~= seq![next]);
                self.push(operation(instr), successors)
            },
        }
    }
}

fn nest(loops: &Vec<LoopTargets>, targets: LoopTargets) -> (res: Vec<LoopTargets>)
    ensures
        res@ == loops@.push(targets),
{
    let mut res: Vec<LoopTargets> = Vec::new();
    let mut i: usize = 0;
    while i < loops.len()
        invariant
            i <= loops@.len(),
            res@ == loops@.subrange(0, i as int),
        decreases loops@.len() - i,
    {
        res.push(loops[i]);
        i = i + 1;
        assert(res@ =~= loops@.subrange(0, i as int));
    }
    res.push(targets);
    assert(res@ =~= loops@.push(targets));
    res
}

fn find_label(loops: &Vec<LoopTargets>, label: LoopId) -> (res: Vec<usize>)
    ensures
        res@ == labelled(loops@, label, loops@.len() as int),
{
    let mut res: Vec<usize> = Vec::new();
    let mut i: usize = loops.len();
    while i > 0
        invariant
            i <= loops@.len(),
            res@ == Seq::<usize>::empty(),
            labelled(loops@, label, loops@.len() as int) == labelled(loops@, label, i as int),
        decreases i,
    {
        if loops[i - 1].label == Some(label) {
            res.push(loops[i - 1].continue_to);
            assert(res@ =~= labelled(loops@, label, i as int));
            return res;
        }
        i = i - 1;
    }
    res
}

impl Flow {
    /// The flow of a function.
    pub fn from_function(function: &SyntheticFunction) -> (res: Self)
        ensures
            res.model() == flow_of_function(function.model()),
    {
        let mut builder = Builder { nodes: Vec::new() };
        let none: Vec<usize> = Vec::new();
        assert(none@ =~= Seq::<usize>::empty());
        let exit: usize = builder.push(Operation::empty(), none);
        assert(builder.made() =~= seq![
            NodeModel { operation: no_operation(), successors: Seq::empty() },
        ]);
        let loops: Vec<LoopTargets> = Vec::new();
        assert(loops@ =~= Seq::<LoopTargets>::empty());
        let entry: usize = builder.body(&function.body, exit, &loops);
        Flow { nodes: builder.nodes, entry }
    }
}

// ---------------------------------------------------------------------------
// Reachability

/// Whether some marked node that does not stop leads to the node.
pub open spec fn led_to(
    nodes: Seq<NodeModel>,
    marks: Seq<bool>,
    stops: Seq<bool>,
    target: usize,
    count: int,
) -> bool {
    exists|j: int|
        0 <= j < count && marks[j] && !stops[j] && (#[trigger] nodes[j]).successors.contains(
            target,
        )
}

/// The marks, one edge further.
pub open spec fn spread(nodes: Seq<NodeModel>, marks: Seq<bool>, stops: Seq<bool>) -> Seq<bool> {
    Seq::new(
        nodes.len(),
        |k: int| marks[k] || led_to(nodes, marks, stops, k as usize, nodes.len() as int),
    )
}

/// The nodes reached from the marked ones within a number of edges. A node that
/// stops is reached, but nothing through it.
pub open spec fn reached(
    nodes: Seq<NodeModel>,
    marks: Seq<bool>,
    stops: Seq<bool>,
    edges: nat,
) -> Seq<bool>
    decreases edges,
{
    if edges == 0 {
        marks
    } else {
        spread(nodes, reached(nodes, marks, stops, (edges - 1) as nat), stops)
    }
}

/// The nodes reached from the marked ones.
pub open spec fn all_reached(nodes: Seq<NodeModel>, marks: Seq<bool>, stops: Seq<bool>) -> Seq<
    bool,
> {
    reached(nodes, marks, stops, nodes.len())
}

proof fn lemma_reached_settles(
    nodes: Seq<NodeModel>,
    marks: Seq<bool>,
    stops: Seq<bool>,
    edges: nat,
    later: nat,
)
    requires
        edges <= later,
        spread(nodes, reached(nodes, marks, stops, edges), stops) == reached(
            nodes,
            marks,
            stops,
            edges,
        ),
    ensures
        reached(nodes, marks, stops, later) == reached(nodes, marks, stops, edges),
    decreases later,
{
    if edges < later {
        lemma_reached_settles(nodes, marks, stops, edges, (later - 1) as nat);
    }
}

fn spread_once(nodes: &Vec<Node>, marks: &Vec<bool>, stops: &Vec<bool>) -> (res: Vec<bool>)
    requires
        marks@.len() == nodes@.len(),
        stops@.len() == nodes@.len(),
    ensures
        res@ == spread(node_models(nodes@), marks@, stops@),
{
    let ghost all = node_models(nodes@);
    let mut res: Vec<bool> = Vec::new();
    let mut i: usize = 0;
    while i < nodes.len()
        invariant
            i <= nodes@.len(),
            marks@.len() == nodes@.len(),
            res@ == marks@.subrange(0, i as int),
        decreases nodes@.len() - i,
    {
        res.push(marks[i]);
        i = i + 1;
        assert(res@ =~= marks@.subrange(0, i as int));
    }
    assert(res@ =~= marks@);
    let mut i: usize = 0;
    while i < nodes.len()
        invariant
            i <= nodes@.len(),
            all == node_models(nodes@),
            marks@.len() == nodes@.len(),
            stops@.len() == nodes@.len(),
            res@.len() == nodes@.len(),
            forall|k: int|
                0 <= k < nodes@.len() ==> (#[trigger] res@[k]) == (marks@[k] || led_to(
                    all,
                    marks@,
                    stops@,
                    k as usize,
                    i as int,
                )),
        decreases nodes@.len() - i,
    {
        let ghost before = res@;
        assert(all[i as int] == nodes@[i as int].model());
        if marks[i] && !stops[i] {
            let list = &nodes[i].successors;
            let mut j: usize = 0;
            while j < list.len()
                invariant
                    j <= list@.len(),
                    res@.len() == nodes@.len(),
                    forall|k: int|
                        0 <= k < nodes@.len() ==> (#[trigger] res@[k]) == (before[k] || (exists|m:
                            int| 0 <= m < j && #[trigger] list@[m] == k)),
                decreases list@.len() - j,
            {
                let ghost middle = res@;
                let target: usize = list[j];
                if target < res.len() {
                    res.set(target, true);
                }
                proof {
                    assert forall|k: int| 0 <= k < nodes@.len() implies (#[trigger] res@[k]) == (
                    before[k] || (exists|m: int| 0 <= m < j + 1 && #[trigger] list@[m] == k)) by {
                        assert(middle[k] == (before[k] || (exists|m: int|
                            0 <= m < j && #[trigger] list@[m] == k)));
                        if k == target {
                            assert(list@[j as int] == k);
                        }
                        if exists|m: int| 0 <= m < j + 1 && #[trigger] list@[m] == k {
                            let m = choose|m: int| 0 <= m < j + 1 && #[trigger] list@[m] == k;
                            if m < j {
                                assert(list@[m] == k);
                            }
                        }
                    }
                }
                j = j + 1;
            }
            proof {
                assert forall|k: int| 0 <= k < nodes@.len() implies (#[trigger] res@[k]) == (
                marks@[k] || led_to(all, marks@, stops@, k as usize, i + 1)) by {
                    assert(before[k] == (marks@[k] || led_to(
                        all,
                        marks@,
                        stops@,
                        k as usize,
                        i as int,
                    )));
                    if exists|m: int| 0 <= m < list@.len() && #[trigger] list@[m] == k {
                        let m = choose|m: int| 0 <= m < list@.len() && #[trigger] list@[m] == k;
                        assert(all[i as int].successors.contains(k as usize));
                    }
                    if led_to(all, marks@, stops@, k as usize, i + 1) {
                        let w = choose|w: int|
                            0 <= w < i + 1 && marks@[w] && !stops@[w] && (#[trigger] all[w]).successors.contains(
                                k as usize,
                            );
                        if w == i {
                            let m = choose|m: int|
                                0 <= m < list@.len() && list@[m] == k as usize;
                            assert(list@[m] == k);
                        } else {
                            assert(led_to(all, marks@, stops@, k as usize, i as int));
                        }
                    }
                }
            }
        } else {
            proof {
                assert forall|k: int| 0 <= k < nodes@.len() implies (#[trigger] res@[k]) == (
                marks@[k] || led_to(all, marks@, stops@, k as usize, i + 1)) by {
                    assert(before[k] == (marks@[k] || led_to(
                        all,
                        marks@,
                        stops@,
                        k as usize,
                        i as int,
                    )));
                    if led_to(all, marks@, stops@, k as usize, i + 1) {
                        let w = choose|w: int|
                            0 <= w < i + 1 && marks@[w] && !stops@[w] && (#[trigger] all[w]).successors.contains(
                                k as usize,
                            );
                        assert(w < i);
                        assert(led_to(all, marks@, stops@, k as usize, i as int));
                    }
                }
            }
        }
        i = i + 1;
    }
    assert(res@ =~= spread(all, marks@, stops@));
    res
}

fn same_marks(a: &Vec<bool>, b: &Vec<bool>) -> (res: bool)
    requires
        a@.len() == b@.len(),
    ensures
        res == (a@ == b@),
{
    let mut i: usize = 0;
    while i < a.len()
        invariant
            i <= a@.len(),
            a@.len() == b@.len(),
            forall|k: int| 0 <= k < i ==> a@[k] == b@[k],
        decreases a@.len() - i,
    {
        if a[i] != b[i] {
            return false;
        }
        i = i + 1;
    }
    assert(a@ =~= b@);
    true
}

/// The nodes reached from the marked ones, without passing a node that stops.
pub fn reach(nodes: &Vec<Node>, from: Vec<bool>, stops: &Vec<bool>) -> (res: Vec<bool>)
    requires
        from@.len() == nodes@.len(),
        stops@.len() == nodes@.len(),
    ensures
        res@ == all_reached(node_models(nodes@), from@, stops@),
        res@.len() == nodes@.len(),
{
    let ghost all = node_models(nodes@);
    let ghost start = from@;
    let mut marks: Vec<bool> = from;
    let mut edges: usize = 0;
    while edges < nodes.len()
        invariant
            edges <= nodes@.len(),
            all == node_models(nodes@),
            start == from@,
            marks@.len() == nodes@.len(),
            stops@.len() == nodes@.len(),
            marks@ == reached(all, start, stops@, edges as nat),
        decreases nodes@.len() - edges,
    {
        let next: Vec<bool> = spread_once(nodes, &marks, stops);
        if same_marks(&next, &marks) {
            proof {
                lemma_reached_settles(all, start, stops@, edges as nat, nodes@.len());
            }
            return marks;
        }
        marks = next;
        edges = edges + 1;
    }
    marks
}

} // verus!
