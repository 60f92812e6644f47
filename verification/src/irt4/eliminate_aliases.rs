//! Remove slot copies when the control-flow graph proves their source stable.
use super::ir::{
    body_models, capped, clone_body, function_models, models, plus, FunctionModel, IRExpr, IRInst,
    InstModel, LoopCondition, Program, ProgramModel, SyntheticFunction, VariableId, VariableType,
};
use super::simplify_binary_operations::{meaning, Algebra};
use super::variable_flow::{
    all_reached, effect_free, flow_of_function, is_effect_free, node_models, reach, Flow,
    FlowModel, Node, NodeModel, Offset,
};
use super::walks::{
    argument_sizes, find_type, function_types, negate, negated, parameter_slots, sizes, slots,
    type_of, types,
};
use super::weight::{
    lemma_body_push, lemma_list_push, lemma_positive, weight, weight_body, weight_list,
};
use crate::table::{KeySet, Table};
use vstd::prelude::*;

verus! {

// ---------------------------------------------------------------------------
// The value that a slot is assigned

/// The first value that an instruction assigns to the slot.
pub open spec fn value_of(instr: InstModel, target: VariableId) -> Option<IRExpr>
    decreases instr,
{
    match instr {
        InstModel::AssignVariable { variable, value } => if variable == target {
            Some(value)
        } else {
            None
        },
        InstModel::DeclareAndAssignVariable { variable, value, .. } => if variable == target {
            Some(value)
        } else {
            None
        },
        InstModel::Assign { dest, src } => if dest == IRExpr::Variable(target) {
            Some(src)
        } else {
            None
        },
        InstModel::If { then_branch, else_branch, .. } => match value_in(then_branch, target) {
            Some(value) => Some(value),
            None => value_in(else_branch, target),
        },
        InstModel::While { body, .. } => value_in_body(body, target),
        _ => None,
    }
}

pub open spec fn value_in(list: Seq<InstModel>, target: VariableId) -> Option<IRExpr>
    decreases list,
{
    if list.len() == 0 {
        None
    } else {
        match value_in(list.drop_last(), target) {
            Some(value) => Some(value),
            None => value_of(list[list.len() - 1], target),
        }
    }
}

pub open spec fn value_in_body(list: Seq<(usize, InstModel)>, target: VariableId) -> Option<IRExpr>
    decreases list,
{
    if list.len() == 0 {
        None
    } else {
        match value_in_body(list.drop_last(), target) {
            Some(value) => Some(value),
            None => value_of(list[list.len() - 1].1, target),
        }
    }
}

fn assignment(instr: &IRInst, target: VariableId) -> (res: Option<IRExpr>)
    ensures
        res == value_of(instr.model(), target),
    decreases instr,
{
    match instr {
        IRInst::AssignVariable { variable, value } => if *variable == target {
            Some(value.clone())
        } else {
            None
        },
        IRInst::DeclareAndAssignVariable { variable, value, .. } => if *variable == target {
            Some(value.clone())
        } else {
            None
        },
        IRInst::Assign { dest, src } => match dest {
            IRExpr::Variable(variable) => if *variable == target {
                Some(src.clone())
            } else {
                None
            },
            _ => None,
        },
        IRInst::If { then_branch, else_branch, .. } => match assignment_in(then_branch, target) {
            Some(value) => Some(value),
            None => assignment_in(else_branch, target),
        },
        IRInst::While { body, .. } => assignment_in_body(body, target),
        _ => None,
    }
}

fn assignment_in(list: &Vec<IRInst>, target: VariableId) -> (res: Option<IRExpr>)
    ensures
        res == value_in(models(list@), target),
    decreases list,
{
    let ghost all = models(list@);
    let mut res: Option<IRExpr> = None;
    assert(all.subrange(0, 0) =~= Seq::empty());
    let mut i: usize = 0;
    while i < list.len()
        invariant
            i <= list@.len(),
            all == models(list@),
            res == value_in(all.subrange(0, i as int), target),
        decreases list@.len() - i,
    {
        let ghost prefix = all.subrange(0, i + 1);
        assert(prefix.drop_last() =~= all.subrange(0, i as int));
        assert(decreases_to!(list => list@[i as int]));
        if res.is_none() {
            res = assignment(&list[i], target);
        }
        i = i + 1;
    }
    assert(all.subrange(0, i as int) =~= all);
    res
}

fn assignment_in_body(list: &Vec<(usize, IRInst)>, target: VariableId) -> (res: Option<IRExpr>)
    ensures
        res == value_in_body(body_models(list@), target),
    decreases list,
{
    let ghost all = body_models(list@);
    let mut res: Option<IRExpr> = None;
    assert(all.subrange(0, 0) =~= Seq::empty());
    let mut i: usize = 0;
    while i < list.len()
        invariant
            i <= list@.len(),
            all == body_models(list@),
            res == value_in_body(all.subrange(0, i as int), target),
        decreases list@.len() - i,
    {
        let ghost prefix = all.subrange(0, i + 1);
        assert(prefix.drop_last() =~= all.subrange(0, i as int));
        assert(decreases_to!(list => list@[i as int]));
        if res.is_none() {
            res = assignment(&list[i].1, target);
        }
        i = i + 1;
    }
    assert(all.subrange(0, i as int) =~= all);
    res
}

// ---------------------------------------------------------------------------
// Safety

/// The nodes that write a slot.
pub open spec fn write_marks(nodes: Seq<NodeModel>, slot: VariableId) -> Seq<bool> {
    Seq::new(nodes.len(), |k: int| nodes[k].operation.write == Some(slot))
}

pub open spec fn no_marks(nodes: Seq<NodeModel>) -> Seq<bool> {
    Seq::new(nodes.len(), |k: int| false)
}

pub open spec fn entry_marks(flow: FlowModel) -> Seq<bool> {
    Seq::new(flow.nodes.len(), |k: int| k == flow.entry)
}

/// The successors of the marked nodes.
pub open spec fn after_marks(nodes: Seq<NodeModel>, marks: Seq<bool>) -> Seq<bool> {
    Seq::new(
        nodes.len(),
        |k: int|
            exists|j: int|
                0 <= j < nodes.len() && marks[j] && (#[trigger] nodes[j]).successors.contains(
                    k as usize,
                ),
    )
}

pub open spec fn either(a: Seq<bool>, b: Seq<bool>) -> Seq<bool> {
    Seq::new(a.len(), |k: int| a[k] || b[k])
}

/// Whether some node has both marks.
pub open spec fn meet(a: Seq<bool>, b: Seq<bool>) -> bool {
    exists|k: int| 0 <= k < a.len() && #[trigger] a[k] && b[k]
}

/// Whether a marked node outside the definitions reads the slot.
pub open spec fn reads_outside(
    nodes: Seq<NodeModel>,
    marks: Seq<bool>,
    definitions: Seq<bool>,
    slot: VariableId,
) -> bool {
    exists|k: int|
        0 <= k < nodes.len() && marks[k] && !definitions[k] && (#[trigger] nodes[k]).operation.reads(
            slot,
        )
}

/// The nodes that a definition reaches before the base changes.
pub open spec fn clean_marks(
    nodes: Seq<NodeModel>,
    definitions: Seq<bool>,
    changes: Seq<bool>,
) -> Seq<bool> {
    all_reached(nodes, after_marks(nodes, definitions), either(definitions, changes))
}

/// The nodes that a definition reaches after the base has changed.
pub open spec fn changed_marks(
    nodes: Seq<NodeModel>,
    definitions: Seq<bool>,
    changes: Seq<bool>,
) -> Seq<bool> {
    let clean = clean_marks(nodes, definitions, changes);
    all_reached(
        nodes,
        after_marks(
            nodes,
            Seq::new(nodes.len(), |k: int| clean[k] && !definitions[k] && changes[k]),
        ),
        definitions,
    )
}

/// Whether the slot can be replaced: a read follows the copy on every path, and
/// for a slot source no path changes the base before reading the target. Arguments
/// need no such check. Re-entering the copy resets the slot-source check.
pub open spec fn is_safe(flow: FlowModel, target: VariableId, base: Option<VariableId>) -> bool {
    let definitions = write_marks(flow.nodes, target);
    &&& meet(all_reached(flow.nodes, entry_marks(flow), no_marks(flow.nodes)), definitions)
    &&& !reads_outside(
        flow.nodes,
        all_reached(flow.nodes, entry_marks(flow), definitions),
        definitions,
        target,
    )
    &&& match base {
        Some(base) => !reads_outside(
            flow.nodes,
            changed_marks(flow.nodes, definitions, write_marks(flow.nodes, base)),
            definitions,
            target,
        ),
        None => true,
    }
}

fn mark_writes(nodes: &Vec<Node>, slot: VariableId) -> (res: Vec<bool>)
    ensures
        res@ == write_marks(node_models(nodes@), slot),
        res@.len() == nodes@.len(),
{
    let ghost all = node_models(nodes@);
    let mut res: Vec<bool> = Vec::new();
    let mut i: usize = 0;
    while i < nodes.len()
        invariant
            i <= nodes@.len(),
            all == node_models(nodes@),
            res@.len() == i,
            forall|k: int|
                0 <= k < i ==> (#[trigger] res@[k]) == (all[k].operation.write == Some(slot)),
        decreases nodes@.len() - i,
    {
        assert(all[i as int] == nodes@[i as int].model());
        let written: bool = match nodes[i].operation.write {
            Some(variable) => variable == slot,
            None => false,
        };
        res.push(written);
        i = i + 1;
    }
    assert(res@ =~= write_marks(all, slot));
    res
}

fn mark_only(total: usize, entry: Option<usize>) -> (res: Vec<bool>)
    ensures
        res@ == Seq::new(total as nat, |k: int| entry matches Some(entry) && k == entry),
{
    let mut res: Vec<bool> = Vec::new();
    let mut i: usize = 0;
    while i < total
        invariant
            i <= total,
            res@.len() == i,
            forall|k: int|
                0 <= k < i ==> (#[trigger] res@[k]) == (entry matches Some(entry) && k == entry),
        decreases total - i,
    {
        let mark: bool = match entry {
            Some(entry) => entry == i,
            None => false,
        };
        res.push(mark);
        i = i + 1;
    }
    assert(res@ =~= Seq::new(total as nat, |k: int| entry matches Some(entry) && k == entry));
    res
}

fn mark_after(nodes: &Vec<Node>, marks: &Vec<bool>) -> (res: Vec<bool>)
    requires
        marks@.len() == nodes@.len(),
    ensures
        res@ == after_marks(node_models(nodes@), marks@),
        res@.len() == nodes@.len(),
{
    let ghost all = node_models(nodes@);
    let mut res: Vec<bool> = mark_only(nodes.len(), None);
    let mut i: usize = 0;
    while i < nodes.len()
        invariant
            i <= nodes@.len(),
            all == node_models(nodes@),
            marks@.len() == nodes@.len(),
            res@.len() == nodes@.len(),
            forall|k: int|
                0 <= k < nodes@.len() ==> ((#[trigger] res@[k]) <==> exists|j: int|
                    0 <= j < i && marks@[j] && (#[trigger] all[j]).successors.contains(
                        k as usize,
                    )),
        decreases nodes@.len() - i,
    {
        let ghost before = res@;
        assert(all[i as int] == nodes@[i as int].model());
        if marks[i] {
            let list = &nodes[i].successors;
            let mut j: usize = 0;
            while j < list.len()
                invariant
                    j <= list@.len(),
                    res@.len() == nodes@.len(),
                    forall|k: int|
                        0 <= k < nodes@.len() ==> ((#[trigger] res@[k]) <==> before[k] || exists|m:
                            int| 0 <= m < j && #[trigger] list@[m] == k as usize),
                decreases list@.len() - j,
            {
                let ghost middle = res@;
                let target: usize = list[j];
                if target < res.len() {
                    res.set(target, true);
                }
                proof {
                    assert forall|k: int| 0 <= k < nodes@.len() implies ((#[trigger] res@[k])
                        <==> before[k] || exists|m: int|
                        0 <= m < j + 1 && #[trigger] list@[m] == k as usize) by {
                        assert(middle[k] <==> before[k] || exists|m: int|
                            0 <= m < j && #[trigger] list@[m] == k as usize);
                        if k == target {
                            assert(list@[j as int] == k as usize);
                        }
                        if exists|m: int| 0 <= m < j + 1 && #[trigger] list@[m] == k as usize {
                            let m = choose|m: int|
                                0 <= m < j + 1 && #[trigger] list@[m] == k as usize;
                            if m < j {
                                assert(list@[m] == k as usize);
                            }
                        }
                    }
                }
                j = j + 1;
            }
            proof {
                assert forall|k: int| 0 <= k < nodes@.len() implies ((#[trigger] res@[k])
                    <==> exists|j: int|
                    0 <= j < i + 1 && marks@[j] && (#[trigger] all[j]).successors.contains(
                        k as usize,
                    )) by {
                    assert(before[k] <==> exists|j: int|
                        0 <= j < i && marks@[j] && (#[trigger] all[j]).successors.contains(
                            k as usize,
                        ));
                    if exists|m: int| 0 <= m < list@.len() && #[trigger] list@[m] == k as usize {
                        assert(all[i as int].successors.contains(k as usize));
                    }
                    if all[i as int].successors.contains(k as usize) {
                        let m = choose|m: int| 0 <= m < list@.len() && list@[m] == k as usize;
                        assert(list@[m] == k as usize);
                    }
                }
            }
        } else {
            proof {
                assert forall|k: int| 0 <= k < nodes@.len() implies ((#[trigger] res@[k])
                    <==> exists|j: int|
                    0 <= j < i + 1 && marks@[j] && (#[trigger] all[j]).successors.contains(
                        k as usize,
                    )) by {
                    assert(before[k] <==> exists|j: int|
                        0 <= j < i && marks@[j] && (#[trigger] all[j]).successors.contains(
                            k as usize,
                        ));
                }
            }
        }
        i = i + 1;
    }
    assert(res@ =~= after_marks(all, marks@));
    res
}

fn mark_either(a: &Vec<bool>, b: &Vec<bool>) -> (res: Vec<bool>)
    requires
        a@.len() == b@.len(),
    ensures
        res@ == either(a@, b@),
{
    let mut res: Vec<bool> = Vec::new();
    let mut i: usize = 0;
    while i < a.len()
        invariant
            i <= a@.len(),
            a@.len() == b@.len(),
            res@.len() == i,
            forall|k: int| 0 <= k < i ==> (#[trigger] res@[k]) == (a@[k] || b@[k]),
        decreases a@.len() - i,
    {
        res.push(a[i] || b[i]);
        i = i + 1;
    }
    assert(res@ =~= either(a@, b@));
    res
}

fn marks_meet(a: &Vec<bool>, b: &Vec<bool>) -> (res: bool)
    requires
        a@.len() == b@.len(),
    ensures
        res == meet(a@, b@),
{
    let mut i: usize = 0;
    while i < a.len()
        invariant
            i <= a@.len(),
            a@.len() == b@.len(),
            forall|k: int| 0 <= k < i ==> !(#[trigger] a@[k] && b@[k]),
        decreases a@.len() - i,
    {
        if a[i] && b[i] {
            assert(a@[i as int] && b@[i as int]);
            return true;
        }
        i = i + 1;
    }
    false
}

fn read_outside(
    nodes: &Vec<Node>,
    marks: &Vec<bool>,
    definitions: &Vec<bool>,
    slot: VariableId,
) -> (res: bool)
    requires
        marks@.len() == nodes@.len(),
        definitions@.len() == nodes@.len(),
    ensures
        res == reads_outside(node_models(nodes@), marks@, definitions@, slot),
{
    let ghost all = node_models(nodes@);
    let mut i: usize = 0;
    while i < nodes.len()
        invariant
            i <= nodes@.len(),
            all == node_models(nodes@),
            marks@.len() == nodes@.len(),
            definitions@.len() == nodes@.len(),
            forall|k: int|
                0 <= k < i ==> !(marks@[k] && !definitions@[k]
                    && (#[trigger] all[k]).operation.reads(slot)),
        decreases nodes@.len() - i,
    {
        assert(all[i as int] == nodes@[i as int].model());
        if marks[i] && !definitions[i] && nodes[i].operation.reads(slot) {
            assert(all[i as int].operation.reads(slot));
            return true;
        }
        i = i + 1;
    }
    false
}

fn changed(nodes: &Vec<Node>, definitions: &Vec<bool>, base: VariableId) -> (res: Vec<bool>)
    requires
        definitions@.len() == nodes@.len(),
    ensures
        res@ == changed_marks(
            node_models(nodes@),
            definitions@,
            write_marks(node_models(nodes@), base),
        ),
        res@.len() == nodes@.len(),
{
    let changes: Vec<bool> = mark_writes(nodes, base);
    let stops: Vec<bool> = mark_either(definitions, &changes);
    let start: Vec<bool> = mark_after(nodes, definitions);
    let clean: Vec<bool> = reach(nodes, start, &stops);
    let mut turning: Vec<bool> = Vec::new();
    let mut i: usize = 0;
    while i < nodes.len()
        invariant
            i <= nodes@.len(),
            clean@.len() == nodes@.len(),
            definitions@.len() == nodes@.len(),
            changes@.len() == nodes@.len(),
            turning@.len() == i,
            forall|k: int|
                0 <= k < i ==> (#[trigger] turning@[k]) == (clean@[k] && !definitions@[k]
                    && changes@[k]),
        decreases nodes@.len() - i,
    {
        turning.push(clean[i] && !definitions[i] && changes[i]);
        i = i + 1;
    }
    assert(turning@ =~= Seq::new(
        node_models(nodes@).len(),
        |k: int| clean@[k] && !definitions@[k] && changes@[k],
    ));
    let start: Vec<bool> = mark_after(nodes, &turning);
    reach(nodes, start, definitions)
}

fn safe(flow: &Flow, target: VariableId, base: Option<VariableId>) -> (res: bool)
    ensures
        res == is_safe(flow.model(), target, base),
{
    let nodes = &flow.nodes;
    let ghost all = flow.model().nodes;
    let definitions: Vec<bool> = mark_writes(nodes, target);
    let none: Vec<bool> = mark_only(nodes.len(), None);
    let entry: Vec<bool> = mark_only(nodes.len(), Some(flow.entry));
    let again: Vec<bool> = mark_only(nodes.len(), Some(flow.entry));
    assert(none@ =~= no_marks(all));
    assert(entry@ =~= entry_marks(flow.model()));
    assert(again@ =~= entry_marks(flow.model()));
    let everywhere: Vec<bool> = reach(nodes, entry, &none);
    if !marks_meet(&everywhere, &definitions) {
        return false;
    }
    let before: Vec<bool> = reach(nodes, again, &definitions);
    if read_outside(nodes, &before, &definitions, target) {
        return false;
    }
    match base {
        Some(base) => {
            let changed: Vec<bool> = changed(nodes, &definitions, base);
            !read_outside(nodes, &changed, &definitions, target)
        },
        None => true,
    }
}

// ---------------------------------------------------------------------------
// Candidates

pub open spec fn width_of(ty: Option<VariableType>) -> Option<usize> {
    match ty {
        Some(VariableType::Unknown(size)) => size,
        _ => None,
    }
}

fn width(ty: Option<VariableType>) -> (res: Option<usize>)
    ensures
        res == width_of(ty),
{
    match ty {
        Some(VariableType::Unknown(size)) => size,
        _ => None,
    }
}

/// Whether an earlier node writes the slot.
pub open spec fn written_before(nodes: Seq<NodeModel>, slot: VariableId, count: int) -> bool {
    exists|k: int|
        0 <= k < count && (#[trigger] nodes[k]).operation.write == Some(slot)
}

/// Whether every node that writes the slot copies an argument.
pub open spec fn all_copy_argument(
    nodes: Seq<NodeModel>,
    slot: VariableId,
    ordinal: usize,
) -> bool {
    forall|k: int|
        0 <= k < nodes.len() && (#[trigger] nodes[k]).operation.write == Some(slot)
            ==> nodes[k].operation.argument == Some(ordinal)
}

/// Whether every node that writes the slot derives it in the same way.
pub open spec fn all_derive(nodes: Seq<NodeModel>, slot: VariableId, offset: Offset) -> bool {
    forall|k: int|
        0 <= k < nodes.len() && (#[trigger] nodes[k]).operation.write == Some(slot)
            ==> nodes[k].operation.offset == Some(offset)
}

/// Where the value of a slot comes from: an argument, which has no base, or
/// another slot. Address offsets are only substituted at pointer width, so a
/// narrower assignment keeps its truncation point.
pub open spec fn source_of(
    function: FunctionModel,
    nodes: Seq<NodeModel>,
    types: Map<VariableId, VariableType>,
    target: VariableId,
    value: IRExpr,
    width: usize,
    first: int,
) -> Option<Option<VariableId>> {
    let sizes = argument_sizes(function.parameters);
    if value matches IRExpr::Argument(ordinal) && sizes.dom().contains(ordinal) && sizes[ordinal]
        == width && all_copy_argument(nodes, target, ordinal) {
        Some(None)
    } else {
        match nodes[first].operation.offset {
            None => None,
            Some(derived) => if target == derived.base || !all_derive(nodes, target, derived)
                || width_of(type_of(types, derived.base)) != Some(width) || (!(value is Variable)
                && width != 8) {
                None
            } else {
                Some(Some(derived.base))
            },
        }
    }
}

/// The value that a slot, first written at a node, can be replaced with.
pub open spec fn alias_at(
    function: FunctionModel,
    flow: FlowModel,
    types: Map<VariableId, VariableType>,
    first: int,
) -> Option<(VariableId, IRExpr)> {
    match flow.nodes[first].operation.write {
        None => None,
        Some(target) => if written_before(flow.nodes, target, first) || parameter_slots(
            function.parameters,
        ).contains(target) {
            None
        } else {
            match (width_of(type_of(types, target)), value_in_body(function.body, target)) {
                (Some(width), Some(value)) => match source_of(
                    function,
                    flow.nodes,
                    types,
                    target,
                    value,
                    width,
                    first,
                ) {
                    Some(base) => if is_safe(flow, target, base) {
                        Some((target, value))
                    } else {
                        None
                    },
                    None => None,
                },
                _ => None,
            }
        },
    }
}

/// The first replaceable slot at or after a node.
pub open spec fn alias_from(
    function: FunctionModel,
    flow: FlowModel,
    types: Map<VariableId, VariableType>,
    first: int,
) -> Option<(VariableId, IRExpr)>
    decreases flow.nodes.len() - first,
{
    if first < 0 || first >= flow.nodes.len() {
        None
    } else {
        match alias_at(function, flow, types, first) {
            Some(alias) => Some(alias),
            None => alias_from(function, flow, types, first + 1),
        }
    }
}

fn was_written(nodes: &Vec<Node>, slot: VariableId, count: usize) -> (res: bool)
    requires
        count <= nodes@.len(),
    ensures
        res == written_before(node_models(nodes@), slot, count as int),
{
    let ghost all = node_models(nodes@);
    let mut i: usize = 0;
    while i < count
        invariant
            i <= count <= nodes@.len(),
            all == node_models(nodes@),
            forall|k: int| 0 <= k < i ==> (#[trigger] all[k]).operation.write != Some(slot),
        decreases count - i,
    {
        assert(all[i as int] == nodes@[i as int].model());
        if let Some(variable) = nodes[i].operation.write {
            if variable == slot {
                return true;
            }
        }
        i = i + 1;
    }
    false
}

fn copies_argument(nodes: &Vec<Node>, slot: VariableId, ordinal: usize) -> (res: bool)
    ensures
        res == all_copy_argument(node_models(nodes@), slot, ordinal),
{
    let ghost all = node_models(nodes@);
    let mut i: usize = 0;
    while i < nodes.len()
        invariant
            i <= nodes@.len(),
            all == node_models(nodes@),
            forall|k: int|
                0 <= k < i && (#[trigger] all[k]).operation.write == Some(slot)
                    ==> all[k].operation.argument == Some(ordinal),
        decreases nodes@.len() - i,
    {
        assert(all[i as int] == nodes@[i as int].model());
        if let Some(variable) = nodes[i].operation.write {
            let same: bool = match nodes[i].operation.argument {
                Some(found) => found == ordinal,
                None => false,
            };
            if variable == slot && !same {
                return false;
            }
        }
        i = i + 1;
    }
    true
}

fn derives(nodes: &Vec<Node>, slot: VariableId, offset: Offset) -> (res: bool)
    ensures
        res == all_derive(node_models(nodes@), slot, offset),
{
    let ghost all = node_models(nodes@);
    let mut i: usize = 0;
    while i < nodes.len()
        invariant
            i <= nodes@.len(),
            all == node_models(nodes@),
            forall|k: int|
                0 <= k < i && (#[trigger] all[k]).operation.write == Some(slot)
                    ==> all[k].operation.offset == Some(offset),
        decreases nodes@.len() - i,
    {
        assert(all[i as int] == nodes@[i as int].model());
        if let Some(variable) = nodes[i].operation.write {
            let same: bool = match nodes[i].operation.offset {
                Some(found) => found == offset,
                None => false,
            };
            if variable == slot && !same {
                return false;
            }
        }
        i = i + 1;
    }
    true
}

fn source(
    function: &SyntheticFunction,
    nodes: &Vec<Node>,
    types: &Table<VariableId, VariableType>,
    target: VariableId,
    value: &IRExpr,
    width_wanted: usize,
    first: usize,
) -> (res: Option<Option<VariableId>>)
    requires
        first < nodes@.len(),
    ensures
        res == source_of(
            function.model(),
            node_models(nodes@),
            types@,
            target,
            *value,
            width_wanted,
            first as int,
        ),
{
    let ghost all = node_models(nodes@);
    assert(all[first as int] == nodes@[first as int].model());
    if let IRExpr::Argument(ordinal) = value {
        let sizes: Table<usize, usize> = sizes(function);
        if let Some(size) = sizes.get(*ordinal) {
            if *size == width_wanted && copies_argument(nodes, target, *ordinal) {
                return Some(None);
            }
        }
    }
    let derived: Offset = match nodes[first].operation.offset {
        Some(derived) => derived,
        None => return None,
    };
    let wide: bool = match width(find_type(types, derived.base)) {
        Some(found) => found == width_wanted,
        None => false,
    };
    let plain: bool = matches!(value, IRExpr::Variable(_));
    if target == derived.base || !derives(nodes, target, derived) || !wide || (!plain
        && width_wanted != 8) {
        return None;
    }
    Some(Some(derived.base))
}

fn alias(
    function: &SyntheticFunction,
    flow: &Flow,
    types: &Table<VariableId, VariableType>,
    first: usize,
) -> (res: Option<(VariableId, IRExpr)>)
    requires
        first < flow.nodes@.len(),
    ensures
        res == alias_at(function.model(), flow.model(), types@, first as int),
{
    assert(flow.model().nodes[first as int] == flow.nodes@[first as int].model());
    let target: VariableId = match flow.nodes[first].operation.write {
        Some(target) => target,
        None => return None,
    };
    if was_written(&flow.nodes, target, first) || slots(function).contains(target) {
        return None;
    }
    let wanted: usize = match width(find_type(types, target)) {
        Some(wanted) => wanted,
        None => return None,
    };
    let value: IRExpr = match assignment_in_body(&function.body, target) {
        Some(value) => value,
        None => return None,
    };
    match source(function, &flow.nodes, types, target, &value, wanted, first) {
        Some(base) => if safe(flow, target, base) {
            Some((target, value))
        } else {
            None
        },
        None => None,
    }
}

fn candidate(function: &SyntheticFunction, flow: &Flow) -> (res: Option<(VariableId, IRExpr)>)
    ensures
        res == alias_from(
            function.model(),
            flow.model(),
            function_types(function.model()),
            0,
        ),
{
    let types: Table<VariableId, VariableType> = types(function);
    let mut i: usize = 0;
    while i < flow.nodes.len()
        invariant
            i <= flow.nodes@.len(),
            types@ == function_types(function.model()),
            alias_from(function.model(), flow.model(), types@, 0) == alias_from(
                function.model(),
                flow.model(),
                types@,
                i as int,
            ),
        decreases flow.nodes@.len() - i,
    {
        let found: Option<(VariableId, IRExpr)> = alias(function, flow, &types, i);
        if found.is_some() {
            return found;
        }
        i = i + 1;
    }
    None
}

// ---------------------------------------------------------------------------
// Rewriting

/// Whether the instruction declares or assigns one of the slots.
pub open spec fn is_removed(instr: InstModel, dropped: Set<VariableId>) -> bool {
    match instr {
        InstModel::DeclareVariable { variable, .. } => dropped.contains(variable),
        InstModel::AssignVariable { variable, .. } => dropped.contains(variable),
        InstModel::DeclareAndAssignVariable { variable, .. } => dropped.contains(variable),
        InstModel::Assign { dest: IRExpr::Variable(variable), .. } => dropped.contains(variable),
        _ => false,
    }
}

fn removes(instr: &IRInst, dropped: &KeySet<VariableId>) -> (res: bool)
    ensures
        res == is_removed(instr.model(), dropped@),
{
    match instr {
        IRInst::DeclareVariable { variable, .. } => dropped.contains(*variable),
        IRInst::AssignVariable { variable, .. } => dropped.contains(*variable),
        IRInst::DeclareAndAssignVariable { variable, .. } => dropped.contains(*variable),
        IRInst::Assign { dest: IRExpr::Variable(variable), .. } => dropped.contains(*variable),
        _ => false,
    }
}

/// The expression with the value in place of the slot.
pub open spec fn replaced(expr: IRExpr, slot: VariableId, meaning: IRExpr) -> IRExpr
    decreases expr,
{
    match expr {
        IRExpr::BinOp { kind, lhs, rhs } => IRExpr::BinOp {
            kind,
            lhs: Box::new(replaced(*lhs, slot, meaning)),
            rhs: Box::new(replaced(*rhs, slot, meaning)),
        },
        IRExpr::Deref(address) => IRExpr::Deref(Box::new(replaced(*address, slot, meaning))),
        IRExpr::CastUnknownPtr { address, size } => IRExpr::CastUnknownPtr {
            address: Box::new(replaced(*address, slot, meaning)),
            size,
        },
        IRExpr::Convert { value, source, target } => IRExpr::Convert {
            value: Box::new(replaced(*value, slot, meaning)),
            source,
            target,
        },
        IRExpr::Variable(variable) => if variable == slot {
            meaning
        } else {
            expr
        },
        IRExpr::Not(inner) => IRExpr::Not(Box::new(replaced(*inner, slot, meaning))),
        _ => expr,
    }
}

/// Where a slot holds what a value stands for, the value can take its place.
pub proof fn law_replacing_a_slot_keeps_the_meaning(
    expr: IRExpr,
    slot: VariableId,
    value: IRExpr,
    algebra: Algebra,
)
    requires
        (algebra.leaf)(IRExpr::Variable(slot)) == meaning(value, algebra),
    ensures
        meaning(replaced(expr, slot, value), algebra) == meaning(expr, algebra),
    decreases expr,
{
    match expr {
        IRExpr::BinOp { lhs, rhs, .. } => {
            law_replacing_a_slot_keeps_the_meaning(*lhs, slot, value, algebra);
            law_replacing_a_slot_keeps_the_meaning(*rhs, slot, value, algebra);
        },
        IRExpr::Deref(address) => law_replacing_a_slot_keeps_the_meaning(
            *address,
            slot,
            value,
            algebra,
        ),
        IRExpr::CastUnknownPtr { address, .. } => {
            law_replacing_a_slot_keeps_the_meaning(*address, slot, value, algebra);
        },
        IRExpr::Convert { value: inner, .. } => {
            law_replacing_a_slot_keeps_the_meaning(*inner, slot, value, algebra);
        },
        IRExpr::Not(inner) => law_replacing_a_slot_keeps_the_meaning(*inner, slot, value, algebra),
        _ => {},
    }
}

pub open spec fn replaced_all(list: Seq<IRExpr>, slot: VariableId, meaning: IRExpr) -> Seq<IRExpr> {
    Seq::new(list.len(), |i: int| replaced(list[i], slot, meaning))
}

fn replace_expression(expr: &IRExpr, slot: VariableId, meaning: &IRExpr) -> (res: IRExpr)
    ensures
        res == replaced(*expr, slot, *meaning),
    decreases expr,
{
    match expr {
        IRExpr::BinOp { kind, lhs, rhs } => IRExpr::BinOp {
            kind: *kind,
            lhs: Box::new(replace_expression(lhs, slot, meaning)),
            rhs: Box::new(replace_expression(rhs, slot, meaning)),
        },
        IRExpr::Deref(address) => IRExpr::Deref(
            Box::new(replace_expression(address, slot, meaning)),
        ),
        IRExpr::CastUnknownPtr { address, size } => IRExpr::CastUnknownPtr {
            address: Box::new(replace_expression(address, slot, meaning)),
            size: *size,
        },
        IRExpr::Convert { value, source, target } => IRExpr::Convert {
            value: Box::new(replace_expression(value, slot, meaning)),
            source: *source,
            target: *target,
        },
        IRExpr::Variable(variable) => if *variable == slot {
            meaning.clone()
        } else {
            IRExpr::Variable(*variable)
        },
        IRExpr::Not(inner) => IRExpr::Not(Box::new(replace_expression(inner, slot, meaning))),
        _ => expr.clone(),
    }
}

fn replace_expression_all(
    list: &Vec<IRExpr>,
    slot: VariableId,
    meaning: &IRExpr,
) -> (res: Vec<IRExpr>)
    ensures
        res@ == replaced_all(list@, slot, *meaning),
{
    let mut res: Vec<IRExpr> = Vec::new();
    let mut i: usize = 0;
    while i < list.len()
        invariant
            i <= list@.len(),
            res@.len() == i,
            forall|k: int| 0 <= k < i ==> (#[trigger] res@[k]) == replaced(
                list@[k],
                slot,
                *meaning,
            ),
        decreases list@.len() - i,
    {
        res.push(replace_expression(&list[i], slot, meaning));
        i = i + 1;
    }
    assert(res@ =~= replaced_all(list@, slot, *meaning));
    res
}

pub open spec fn replaced_condition(
    condition: LoopCondition,
    slot: VariableId,
    meaning: IRExpr,
) -> LoopCondition {
    condition.with(replaced(condition.check(), slot, meaning))
}

fn replace_expression_condition(
    condition: &LoopCondition,
    slot: VariableId,
    meaning: &IRExpr,
) -> (res: LoopCondition)
    ensures
        res == replaced_condition(*condition, slot, *meaning),
{
    condition.replaced(replace_expression(condition.expression(), slot, meaning))
}

/// The instruction with the value in place of reads of the slot.
pub open spec fn replaced_in(instr: InstModel, slot: VariableId, meaning: IRExpr) -> InstModel
    decreases instr,
{
    match instr {
        InstModel::Assign { dest, src } => match dest {
            IRExpr::Variable(_) => InstModel::Assign { dest, src: replaced(src, slot, meaning) },
            _ => InstModel::Assign {
                dest: replaced(dest, slot, meaning),
                src: replaced(src, slot, meaning),
            },
        },
        InstModel::Return(value) => InstModel::Return(match value {
                Some(value) => Some(replaced(value, slot, meaning)),
                None => None,
            }),
        InstModel::DeclareAndAssignVariable {
            variable,
            ty,
            value,
        } => InstModel::DeclareAndAssignVariable {
            variable,
            ty,
            value: replaced(value, slot, meaning),
        },
        InstModel::AssignVariable { variable, value } => InstModel::AssignVariable {
            variable,
            value: replaced(value, slot, meaning),
        },
        InstModel::LoadVariable { variable, address } => InstModel::LoadVariable {
            variable,
            address: replaced(address, slot, meaning),
        },
        InstModel::StoreVariable { address, variable } => if variable == slot {
            InstModel::Assign {
                dest: IRExpr::Deref(Box::new(replaced(address, slot, meaning))),
                src: meaning,
            }
        } else {
            InstModel::StoreVariable { address: replaced(address, slot, meaning), variable }
        },
        InstModel::If { condition, then_branch, else_branch } => InstModel::If {
            condition: replaced(condition, slot, meaning),
            then_branch: replaced_in_list(then_branch, slot, meaning),
            else_branch: replaced_in_list(else_branch, slot, meaning),
        },
        InstModel::While { label, entry_offset, condition, body } => InstModel::While {
            label,
            entry_offset,
            condition: replaced_condition(condition, slot, meaning),
            body: replaced_in_body(body, slot, meaning),
        },
        InstModel::CallSynthetic { function, arguments } => InstModel::CallSynthetic {
            function,
            arguments: replaced_all(arguments, slot, meaning),
        },
        InstModel::Jump(target) => InstModel::Jump(replaced(target, slot, meaning)),
        _ => instr,
    }
}

pub open spec fn replaced_in_list(
    list: Seq<InstModel>,
    slot: VariableId,
    meaning: IRExpr,
) -> Seq<InstModel>
    decreases list,
{
    Seq::new(
        list.len(),
        |i: int|
            if 0 <= i < list.len() {
                replaced_in(list[i], slot, meaning)
            } else {
                arbitrary()
            },
    )
}

pub open spec fn replaced_in_body(
    list: Seq<(usize, InstModel)>,
    slot: VariableId,
    meaning: IRExpr,
) -> Seq<(usize, InstModel)>
    decreases list,
{
    Seq::new(
        list.len(),
        |i: int|
            if 0 <= i < list.len() {
                (list[i].0, replaced_in(list[i].1, slot, meaning))
            } else {
                arbitrary()
            },
    )
}

fn rewrite(instr: &IRInst, slot: VariableId, meaning: &IRExpr) -> (res: IRInst)
    ensures
        res.model() == replaced_in(instr.model(), slot, *meaning),
    decreases instr,
{
    match instr {
        IRInst::Assign { dest, src } => match dest {
            IRExpr::Variable(variable) => IRInst::Assign {
                dest: IRExpr::Variable(*variable),
                src: replace_expression(src, slot, meaning),
            },
            _ => IRInst::Assign {
                dest: replace_expression(dest, slot, meaning),
                src: replace_expression(src, slot, meaning),
            },
        },
        IRInst::Return(value) => IRInst::Return(match value {
                Some(value) => Some(replace_expression(value, slot, meaning)),
                None => None,
            }),
        IRInst::DeclareAndAssignVariable {
            variable,
            ty,
            value,
        } => IRInst::DeclareAndAssignVariable {
            variable: *variable,
            ty: ty.clone(),
            value: replace_expression(value, slot, meaning),
        },
        IRInst::AssignVariable { variable, value } => IRInst::AssignVariable {
            variable: *variable,
            value: replace_expression(value, slot, meaning),
        },
        IRInst::LoadVariable { variable, address } => IRInst::LoadVariable {
            variable: *variable,
            address: replace_expression(address, slot, meaning),
        },
        IRInst::StoreVariable { address, variable } => if *variable == slot {
            IRInst::Assign {
                dest: IRExpr::Deref(Box::new(replace_expression(address, slot, meaning))),
                src: meaning.clone(),
            }
        } else {
            IRInst::StoreVariable {
                address: replace_expression(address, slot, meaning),
                variable: *variable,
            }
        },
        IRInst::If { condition, then_branch, else_branch } => IRInst::If {
            condition: replace_expression(condition, slot, meaning),
            then_branch: rewrite_list(then_branch, slot, meaning),
            else_branch: rewrite_list(else_branch, slot, meaning),
        },
        IRInst::While { label, entry_offset, condition, body } => IRInst::While {
            label: *label,
            entry_offset: *entry_offset,
            condition: replace_expression_condition(condition, slot, meaning),
            body: rewrite_body(body, slot, meaning),
        },
        IRInst::CallSynthetic { function, arguments } => IRInst::CallSynthetic {
            function: *function,
            arguments: replace_expression_all(arguments, slot, meaning),
        },
        IRInst::Jump(target) => IRInst::Jump(replace_expression(target, slot, meaning)),
        _ => instr.clone(),
    }
}

fn rewrite_list(list: &Vec<IRInst>, slot: VariableId, meaning: &IRExpr) -> (res: Vec<IRInst>)
    ensures
        models(res@) == replaced_in_list(models(list@), slot, *meaning),
    decreases list,
{
    let ghost all = models(list@);
    let mut res: Vec<IRInst> = Vec::new();
    let mut i: usize = 0;
    while i < list.len()
        invariant
            i <= list@.len(),
            all == models(list@),
            res@.len() == i,
            forall|k: int| 0 <= k < i ==> (#[trigger] res@[k]).model() == replaced_in(
                all[k],
                slot,
                *meaning,
            ),
        decreases list@.len() - i,
    {
        assert(decreases_to!(list => list@[i as int]));
        res.push(rewrite(&list[i], slot, meaning));
        i = i + 1;
    }
    assert(models(res@) =~= replaced_in_list(all, slot, *meaning));
    res
}

fn rewrite_body(
    list: &Vec<(usize, IRInst)>,
    slot: VariableId,
    meaning: &IRExpr,
) -> (res: Vec<(usize, IRInst)>)
    ensures
        body_models(res@) == replaced_in_body(body_models(list@), slot, *meaning),
    decreases list,
{
    let ghost all = body_models(list@);
    let mut res: Vec<(usize, IRInst)> = Vec::new();
    let mut i: usize = 0;
    while i < list.len()
        invariant
            i <= list@.len(),
            all == body_models(list@),
            res@.len() == i,
            forall|k: int| 0 <= k < i ==> (#[trigger] res@[k]).0 == all[k].0 && res@[k].1.model() == replaced_in(
                all[k].1,
                slot,
                *meaning,
            ),
        decreases list@.len() - i,
    {
        assert(decreases_to!(list => list@[i as int]));
        res.push((list[i].0, rewrite(&list[i].1, slot, meaning)));
        i = i + 1;
    }
    assert(body_models(res@) =~= replaced_in_body(all, slot, *meaning));
    res
}

/// The instruction without declarations of and assignments to the slots.
pub open spec fn removed_from(instr: InstModel, dropped: Set<VariableId>) -> InstModel
    decreases instr,
{
    match instr {
        InstModel::If { condition, then_branch, else_branch } => InstModel::If {
            condition,
            then_branch: removed_from_list(then_branch, dropped),
            else_branch: removed_from_list(else_branch, dropped),
        },
        InstModel::While { label, entry_offset, condition, body } => InstModel::While {
            label,
            entry_offset,
            condition,
            body: removed_from_body(body, dropped),
        },
        _ => instr,
    }
}

pub open spec fn removed_from_list(list: Seq<InstModel>, dropped: Set<VariableId>) -> Seq<InstModel>
    decreases list,
{
    if list.len() == 0 {
        Seq::empty()
    } else {
        let before = removed_from_list(list.drop_last(), dropped);
        if is_removed(list[list.len() - 1], dropped) {
            before
        } else {
            before.push(removed_from(list[list.len() - 1], dropped))
        }
    }
}

pub open spec fn removed_from_body(
    list: Seq<(usize, InstModel)>,
    dropped: Set<VariableId>,
) -> Seq<(usize, InstModel)>
    decreases list,
{
    if list.len() == 0 {
        Seq::empty()
    } else {
        let before = removed_from_body(list.drop_last(), dropped);
        if is_removed(list[list.len() - 1].1, dropped) {
            before
        } else {
            before.push((list[list.len() - 1].0, removed_from(list[list.len() - 1].1, dropped)))
        }
    }
}

fn remove(instr: &IRInst, dropped: &KeySet<VariableId>) -> (res: IRInst)
    ensures
        res.model() == removed_from(instr.model(), dropped@),
    decreases instr,
{
    match instr {
        IRInst::If { condition, then_branch, else_branch } => IRInst::If {
            condition: condition.clone(),
            then_branch: remove_list(then_branch, dropped),
            else_branch: remove_list(else_branch, dropped),
        },
        IRInst::While { label, entry_offset, condition, body } => IRInst::While {
            label: *label,
            entry_offset: *entry_offset,
            condition: condition.clone(),
            body: remove_body(body, dropped),
        },
        _ => instr.clone(),
    }
}

fn remove_list(list: &Vec<IRInst>, dropped: &KeySet<VariableId>) -> (res: Vec<IRInst>)
    ensures
        models(res@) == removed_from_list(models(list@), dropped@),
    decreases list,
{
    let ghost all = models(list@);
    let mut res: Vec<IRInst> = Vec::new();
    assert(all.subrange(0, 0) =~= Seq::empty());
    assert(models(res@) =~= Seq::empty());
    let mut i: usize = 0;
    while i < list.len()
        invariant
            i <= list@.len(),
            all == models(list@),
            models(res@) == removed_from_list(all.subrange(0, i as int), dropped@),
        decreases list@.len() - i,
    {
        let ghost prefix = all.subrange(0, i + 1);
        assert(prefix.drop_last() =~= all.subrange(0, i as int));
        assert(decreases_to!(list => list@[i as int]));
        if !removes(&list[i], dropped) {
            let ghost before = models(res@);
            res.push(remove(&list[i], dropped));
            assert(models(res@) =~= before.push(removed_from(all[i as int], dropped@)));
        }
        i = i + 1;
    }
    assert(all.subrange(0, i as int) =~= all);
    res
}

fn remove_body(
    list: &Vec<(usize, IRInst)>,
    dropped: &KeySet<VariableId>,
) -> (res: Vec<(usize, IRInst)>)
    ensures
        body_models(res@) == removed_from_body(body_models(list@), dropped@),
    decreases list,
{
    let ghost all = body_models(list@);
    let mut res: Vec<(usize, IRInst)> = Vec::new();
    assert(all.subrange(0, 0) =~= Seq::empty());
    assert(body_models(res@) =~= Seq::empty());
    let mut i: usize = 0;
    while i < list.len()
        invariant
            i <= list@.len(),
            all == body_models(list@),
            body_models(res@) == removed_from_body(all.subrange(0, i as int), dropped@),
        decreases list@.len() - i,
    {
        let ghost prefix = all.subrange(0, i + 1);
        assert(prefix.drop_last() =~= all.subrange(0, i as int));
        assert(decreases_to!(list => list@[i as int]));
        if !removes(&list[i].1, dropped) {
            let ghost before = body_models(res@);
            res.push((list[i].0, remove(&list[i].1, dropped)));
            assert(body_models(res@) =~= before.push(
                (all[i as int].0, removed_from(all[i as int].1, dropped@)),
            ));
        }
        i = i + 1;
    }
    assert(all.subrange(0, i as int) =~= all);
    res
}


/// The function without its first replaceable slot, where there is one.
pub open spec fn unaliased_once(function: FunctionModel) -> Option<FunctionModel> {
    match alias_from(function, flow_of_function(function), function_types(function), 0) {
        Some((target, value)) => Some(
            FunctionModel {
                body: removed_from_body(
                    replaced_in_body(function.body, target, value),
                    set![target],
                ),
                ..function
            },
        ),
        None => None,
    }
}

proof fn lemma_replaced_weight(instr: InstModel, slot: VariableId, meaning: IRExpr)
    ensures
        weight(replaced_in(instr, slot, meaning)) == weight(instr),
    decreases instr,
{
    match instr {
        InstModel::If { then_branch, else_branch, .. } => {
            lemma_replaced_weight_list(then_branch, slot, meaning);
            lemma_replaced_weight_list(else_branch, slot, meaning);
        },
        InstModel::While { body, .. } => lemma_replaced_weight_body(body, slot, meaning),
        _ => {},
    }
}

proof fn lemma_replaced_weight_list(list: Seq<InstModel>, slot: VariableId, meaning: IRExpr)
    ensures
        weight_list(replaced_in_list(list, slot, meaning)) == weight_list(list),
    decreases list,
{
    let made = replaced_in_list(list, slot, meaning);
    if list.len() > 0 {
        assert(made.drop_last() =~= replaced_in_list(list.drop_last(), slot, meaning));
        lemma_replaced_weight_list(list.drop_last(), slot, meaning);
        lemma_replaced_weight(list[list.len() - 1], slot, meaning);
    }
}

proof fn lemma_replaced_weight_body(
    list: Seq<(usize, InstModel)>,
    slot: VariableId,
    meaning: IRExpr,
)
    ensures
        weight_body(replaced_in_body(list, slot, meaning)) == weight_body(list),
    decreases list,
{
    let made = replaced_in_body(list, slot, meaning);
    if list.len() > 0 {
        assert(made.drop_last() =~= replaced_in_body(list.drop_last(), slot, meaning));
        lemma_replaced_weight_body(list.drop_last(), slot, meaning);
        lemma_replaced_weight(list[list.len() - 1].1, slot, meaning);
    }
}

/// What an instruction that gives the slot a value weighs after the value takes the
/// place of the slot, and without the slot.
proof fn lemma_removed_weight(instr: InstModel, slot: VariableId, meaning: IRExpr)
    ensures
        ({
            let made = replaced_in(instr, slot, meaning);
            let left = removed_from(made, set![slot]);
            &&& weight(left) <= weight(instr)
            &&& value_of(instr, slot) is Some ==> is_removed(made, set![slot]) || weight(left)
                < weight(instr)
        }),
    decreases instr,
{
    lemma_replaced_weight(instr, slot, meaning);
    match instr {
        InstModel::If { then_branch, else_branch, .. } => {
            lemma_removed_weight_list(then_branch, slot, meaning);
            lemma_removed_weight_list(else_branch, slot, meaning);
        },
        InstModel::While { body, .. } => lemma_removed_weight_body(body, slot, meaning),
        _ => {},
    }
}

proof fn lemma_removed_weight_list(list: Seq<InstModel>, slot: VariableId, meaning: IRExpr)
    ensures
        ({
            let left = removed_from_list(replaced_in_list(list, slot, meaning), set![slot]);
            &&& weight_list(left) <= weight_list(list)
            &&& value_in(list, slot) is Some ==> weight_list(left) < weight_list(list)
        }),
    decreases list,
{
    let made = replaced_in_list(list, slot, meaning);
    if list.len() > 0 {
        let last = list[list.len() - 1];
        assert(made.drop_last() =~= replaced_in_list(list.drop_last(), slot, meaning));
        assert(made[made.len() - 1] == replaced_in(last, slot, meaning));
        lemma_removed_weight_list(list.drop_last(), slot, meaning);
        lemma_removed_weight(last, slot, meaning);
        lemma_positive(last);
        lemma_list_push(
            removed_from_list(made.drop_last(), set![slot]),
            removed_from(made[made.len() - 1], set![slot]),
        );
    }
}

proof fn lemma_removed_weight_body(
    list: Seq<(usize, InstModel)>,
    slot: VariableId,
    meaning: IRExpr,
)
    ensures
        ({
            let left = removed_from_body(replaced_in_body(list, slot, meaning), set![slot]);
            &&& weight_body(left) <= weight_body(list)
            &&& value_in_body(list, slot) is Some ==> weight_body(left) < weight_body(list)
        }),
    decreases list,
{
    let made = replaced_in_body(list, slot, meaning);
    if list.len() > 0 {
        let last = list[list.len() - 1];
        assert(made.drop_last() =~= replaced_in_body(list.drop_last(), slot, meaning));
        assert(made[made.len() - 1] == (last.0, replaced_in(last.1, slot, meaning)));
        lemma_removed_weight_body(list.drop_last(), slot, meaning);
        lemma_removed_weight(last.1, slot, meaning);
        lemma_positive(last.1);
        lemma_body_push(
            removed_from_body(made.drop_last(), set![slot]),
            (last.0, removed_from(made[made.len() - 1].1, set![slot])),
        );
    }
}

proof fn lemma_alias_has_value(
    function: FunctionModel,
    flow: FlowModel,
    types: Map<VariableId, VariableType>,
    first: int,
)
    ensures
        alias_from(function, flow, types, first) matches Some((target, _)) ==> value_in_body(
            function.body,
            target,
        ) is Some,
    decreases flow.nodes.len() - first,
{
    if 0 <= first < flow.nodes.len() {
        lemma_alias_has_value(function, flow, types, first + 1);
    }
}

/// Replacing a slot makes a function lighter.
pub proof fn lemma_unaliased_weight(function: FunctionModel)
    ensures
        unaliased_once(function) matches Some(next) ==> weight_body(next.body) < weight_body(
            function.body,
        ),
{
    let flow = flow_of_function(function);
    lemma_alias_has_value(function, flow, function_types(function), 0);
    if let Some((target, value)) = alias_from(function, flow, function_types(function), 0) {
        lemma_removed_weight_body(function.body, target, value);
    }
}

/// The function without replaceable slots, one replaced after the other until there
/// is none left.
pub open spec fn unaliased(function: FunctionModel) -> FunctionModel
    decreases weight_body(function.body),
{
    proof {
        lemma_unaliased_weight(function);
    }
    match unaliased_once(function) {
        None => function,
        Some(next) => unaliased(next),
    }
}

/// No slot is left to replace once all copies are removed.
pub proof fn law_no_alias_is_left(function: FunctionModel)
    ensures
        unaliased_once(unaliased(function)) is None,
        unaliased(unaliased(function)) == unaliased(function),
    decreases weight_body(function.body),
{
    lemma_unaliased_weight(function);
    if let Some(next) = unaliased_once(function) {
        law_no_alias_is_left(next);
    }
}

// ---------------------------------------------------------------------------
// Returned values

/// How often slots of a function are used.
pub struct UsageModel {
    pub nodes: Seq<NodeModel>,
    pub types: Map<VariableId, VariableType>,
    pub arguments: Map<usize, usize>,
    pub parameters: Set<VariableId>,
}

/// The number of nodes that read the slot.
pub open spec fn readers(nodes: Seq<NodeModel>, slot: VariableId) -> nat
    decreases nodes.len(),
{
    if nodes.len() == 0 {
        0
    } else {
        readers(nodes.drop_last(), slot) + if nodes.last().operation.reads(slot) {
            1nat
        } else {
            0nat
        }
    }
}

/// The number of nodes that write the slot.
pub open spec fn writers(nodes: Seq<NodeModel>, slot: VariableId) -> nat
    decreases nodes.len(),
{
    if nodes.len() == 0 {
        0
    } else {
        writers(nodes.drop_last(), slot) + if nodes.last().operation.write == Some(slot) {
            1nat
        } else {
            0nat
        }
    }
}

/// Whether the value has the width of the type.
pub open spec fn fits(value: IRExpr, ty: VariableType, usage: UsageModel) -> bool {
    match value {
        IRExpr::Variable(variable) => type_of(usage.types, variable) == Some(ty),
        IRExpr::Argument(ordinal) => ty matches VariableType::Unknown(Some(size))
            && usage.arguments.dom().contains(ordinal) && usage.arguments[ordinal] == size,
        IRExpr::Deref(address) => match *address {
            IRExpr::CastUnknownPtr { size: Some(read), .. } => ty == VariableType::Unknown(
                Some(read),
            ),
            _ => false,
        },
        IRExpr::Convert { target, .. } => ty == VariableType::Unknown(Some(target.size)),
        IRExpr::CU8(_) => ty == VariableType::Unknown(Some(1)),
        IRExpr::CU32(_) => ty == VariableType::Unknown(Some(4)),
        IRExpr::CU64(_) => ty == VariableType::Unknown(Some(8)),
        IRExpr::Bool(_) => ty == VariableType::Bool,
        IRExpr::Not(_) => ty == VariableType::Bool,
        _ => false,
    }
}

/// The value that an instruction puts into the slot.
pub open spec fn defined_value(instr: InstModel, target: VariableId) -> Option<IRExpr> {
    match instr {
        InstModel::AssignVariable { variable, value } => if variable == target {
            Some(value)
        } else {
            None
        },
        InstModel::DeclareAndAssignVariable { variable, value, .. } => if variable == target {
            Some(value)
        } else {
            None
        },
        InstModel::Assign { dest, src } => if dest == IRExpr::Variable(target) {
            Some(src)
        } else {
            None
        },
        InstModel::LoadVariable { variable, address } => if variable == target {
            Some(IRExpr::Deref(Box::new(address)))
        } else {
            None
        },
        _ => None,
    }
}

/// The slot that a definition and an adjacent return go through, and its value.
/// Moving a load or expression across another instruction could change what it
/// reads, so only adjacent ones are considered.
pub open spec fn returned_value(
    assignment: InstModel,
    returning: InstModel,
    usage: UsageModel,
) -> Option<(VariableId, IRExpr)> {
    match returning {
        InstModel::Return(Some(IRExpr::Variable(target))) => if usage.parameters.contains(target)
            || readers(usage.nodes, target) != 1 || writers(usage.nodes, target) != 1 {
            None
        } else {
            match (type_of(usage.types, target), defined_value(assignment, target)) {
                (Some(ty), Some(value)) => if fits(value, ty, usage) {
                    Some((target, value))
                } else {
                    None
                },
                _ => None,
            }
        },
        _ => None,
    }
}

/// A list with one more instruction, which takes the value of a definition before
/// it where it returns it.
pub open spec fn with_return(list: Seq<InstModel>, next: InstModel, usage: UsageModel) -> Seq<
    InstModel,
>
    decreases list.len(),
{
    if list.len() == 0 {
        list.push(next)
    } else {
        match returned_value(list.last(), next, usage) {
            Some((_, value)) => with_return(
                list.drop_last(),
                InstModel::Return(Some(value)),
                usage,
            ),
            None => list.push(next),
        }
    }
}

/// The slots with those that such an instruction makes useless.
pub open spec fn useless_with(
    list: Seq<InstModel>,
    next: InstModel,
    usage: UsageModel,
    useless: Set<VariableId>,
) -> Set<VariableId>
    decreases list.len(),
{
    if list.len() == 0 {
        useless
    } else {
        match returned_value(list.last(), next, usage) {
            Some((target, value)) => useless_with(
                list.drop_last(),
                InstModel::Return(Some(value)),
                usage,
                useless.insert(target),
            ),
            None => useless,
        }
    }
}

pub open spec fn with_return_at(
    list: Seq<(usize, InstModel)>,
    offset: usize,
    next: InstModel,
    usage: UsageModel,
) -> Seq<(usize, InstModel)>
    decreases list.len(),
{
    if list.len() == 0 {
        list.push((offset, next))
    } else {
        match returned_value(list.last().1, next, usage) {
            Some((_, value)) => with_return_at(
                list.drop_last(),
                offset,
                InstModel::Return(Some(value)),
                usage,
            ),
            None => list.push((offset, next)),
        }
    }
}

pub open spec fn useless_with_at(
    list: Seq<(usize, InstModel)>,
    next: InstModel,
    usage: UsageModel,
    useless: Set<VariableId>,
) -> Set<VariableId>
    decreases list.len(),
{
    if list.len() == 0 {
        useless
    } else {
        match returned_value(list.last().1, next, usage) {
            Some((target, value)) => useless_with_at(
                list.drop_last(),
                InstModel::Return(Some(value)),
                usage,
                useless.insert(target),
            ),
            None => useless,
        }
    }
}

/// The instruction with definitions put into the returns after them, and the
/// slots with those that this makes useless.
pub open spec fn joined(instr: InstModel, usage: UsageModel, useless: Set<VariableId>) -> (
    InstModel,
    Set<VariableId>,
)
    decreases instr,
{
    match instr {
        InstModel::If { condition, then_branch, else_branch } => {
            let first = joined_list(then_branch, usage, useless);
            let second = joined_list(else_branch, usage, first.1);
            (
                InstModel::If { condition, then_branch: first.0, else_branch: second.0 },
                second.1,
            )
        },
        InstModel::While { label, entry_offset, condition, body } => {
            let inner = joined_body(body, usage, useless);
            (InstModel::While { label, entry_offset, condition, body: inner.0 }, inner.1)
        },
        _ => (instr, useless),
    }
}

pub open spec fn joined_list(
    list: Seq<InstModel>,
    usage: UsageModel,
    useless: Set<VariableId>,
) -> (Seq<InstModel>, Set<VariableId>)
    decreases list,
{
    if list.len() == 0 {
        (Seq::empty(), useless)
    } else {
        let before = joined_list(list.drop_last(), usage, useless);
        let last = joined(list[list.len() - 1], usage, before.1);
        (with_return(before.0, last.0, usage), useless_with(before.0, last.0, usage, last.1))
    }
}

pub open spec fn joined_body(
    list: Seq<(usize, InstModel)>,
    usage: UsageModel,
    useless: Set<VariableId>,
) -> (Seq<(usize, InstModel)>, Set<VariableId>)
    decreases list,
{
    if list.len() == 0 {
        (Seq::empty(), useless)
    } else {
        let before = joined_body(list.drop_last(), usage, useless);
        let last = joined(list[list.len() - 1].1, usage, before.1);
        (
            with_return_at(before.0, list[list.len() - 1].0, last.0, usage),
            useless_with_at(before.0, last.0, usage, last.1),
        )
    }
}

pub struct Usage {
    pub flow: Flow,
    pub types: Table<VariableId, VariableType>,
    pub arguments: Table<usize, usize>,
    pub parameters: KeySet<VariableId>,
}

impl Usage {
    pub open spec fn model(self) -> UsageModel {
        UsageModel {
            nodes: self.flow.model().nodes,
            types: self.types@,
            arguments: self.arguments@,
            parameters: self.parameters@,
        }
    }

    fn counts(&self, slot: VariableId) -> (res: (u8, u8))
        ensures
            res.0 == capped(readers(self.model().nodes, slot)),
            res.1 == capped(writers(self.model().nodes, slot)),
    {
        let nodes = &self.flow.nodes;
        let ghost all = self.model().nodes;
        let mut reads: u8 = 0;
        let mut writes: u8 = 0;
        assert(all.subrange(0, 0) =~= Seq::empty());
        let mut i: usize = 0;
        while i < nodes.len()
            invariant
                i <= nodes@.len(),
                all == node_models(nodes@),
                reads == capped(readers(all.subrange(0, i as int), slot)),
                writes == capped(writers(all.subrange(0, i as int), slot)),
            decreases nodes@.len() - i,
        {
            let ghost prefix = all.subrange(0, i + 1);
            assert(prefix.drop_last() =~= all.subrange(0, i as int));
            assert(all[i as int] == nodes@[i as int].model());
            assert(capped(1) == 1);
            if nodes[i].operation.reads(slot) {
                reads = plus(reads, 1);
            }
            let written: bool = match nodes[i].operation.write {
                Some(variable) => variable == slot,
                None => false,
            };
            if written {
                writes = plus(writes, 1);
            }
            i = i + 1;
        }
        assert(all.subrange(0, i as int) =~= all);
        (reads, writes)
    }

    fn fit(&self, value: &IRExpr, ty: VariableType) -> (res: bool)
        ensures
            res == fits(*value, ty, self.model()),
    {
        match value {
            IRExpr::Variable(variable) => match self.types.get(*variable) {
                Some(found) => *found == ty,
                None => false,
            },
            IRExpr::Argument(ordinal) => match (self.arguments.get(*ordinal), ty) {
                (Some(found), VariableType::Unknown(Some(size))) => *found == size,
                _ => false,
            },
            IRExpr::Deref(address) => match &**address {
                IRExpr::CastUnknownPtr { size: Some(read), .. } => ty == VariableType::Unknown(
                    Some(*read),
                ),
                _ => false,
            },
            IRExpr::Convert { target, .. } => ty == VariableType::Unknown(Some(target.size)),
            IRExpr::CU8(_) => ty == VariableType::Unknown(Some(1)),
            IRExpr::CU32(_) => ty == VariableType::Unknown(Some(4)),
            IRExpr::CU64(_) => ty == VariableType::Unknown(Some(8)),
            IRExpr::Bool(_) => ty == VariableType::Bool,
            IRExpr::Not(_) => ty == VariableType::Bool,
            _ => false,
        }
    }

    fn value(&self, assignment: &IRInst, returning: &IRInst) -> (res: Option<(VariableId, IRExpr)>)
        ensures
            res == returned_value(assignment.model(), returning.model(), self.model()),
    {
        let target: VariableId = match returning {
            IRInst::Return(Some(IRExpr::Variable(target))) => *target,
            _ => return None,
        };
        if self.parameters.contains(target) {
            return None;
        }
        let (reads, writes) = self.counts(target);
        assert(capped(1) == 1);
        if reads != 1 || writes != 1 {
            return None;
        }
        let ty: VariableType = match find_type(&self.types, target) {
            Some(ty) => ty,
            None => return None,
        };
        let value: IRExpr = match assignment {
            IRInst::AssignVariable { variable, value } => if *variable == target {
                value.clone()
            } else {
                return None
            },
            IRInst::DeclareAndAssignVariable { variable, value, .. } => if *variable == target {
                value.clone()
            } else {
                return None
            },
            IRInst::Assign { dest, src } => match dest {
                IRExpr::Variable(variable) => if *variable == target {
                    src.clone()
                } else {
                    return None
                },
                _ => return None,
            },
            IRInst::LoadVariable { variable, address } => if *variable == target {
                IRExpr::Deref(Box::new(address.clone()))
            } else {
                return None
            },
            _ => return None,
        };
        if self.fit(&value, ty) {
            Some((target, value))
        } else {
            None
        }
    }
}

fn push_return(
    list: &mut Vec<IRInst>,
    next: IRInst,
    usage: &Usage,
    useless: &mut KeySet<VariableId>,
)
    ensures
        models(final(list)@) == with_return(models(old(list)@), next.model(), usage.model()),
        final(useless)@ == useless_with(
            models(old(list)@),
            next.model(),
            usage.model(),
            old(useless)@,
        ),
{
    let ghost whole = with_return(models(list@), next.model(), usage.model());
    let ghost all = useless_with(models(list@), next.model(), usage.model(), useless@);
    let mut next: IRInst = next;
    let mut going: bool = true;
    while going
        invariant
            going ==> whole == with_return(models(list@), next.model(), usage.model()),
            going ==> all == useless_with(
                models(list@),
                next.model(),
                usage.model(),
                useless@,
            ),
            !going ==> whole == models(list@).push(next.model()),
            !going ==> all == useless@,
        decreases list@.len(), going as int,
    {
        if list.len() == 0 {
            going = false;
        } else {
            let ghost before = models(list@);
            assert(before.last() == list@[list@.len() - 1].model());
            match usage.value(&list[list.len() - 1], &next) {
                Some((target, value)) => {
                    list.pop();
                    assert(models(list@) =~= before.drop_last());
                    next = IRInst::Return(Some(value));
                    useless.insert(target);
                },
                None => {
                    going = false;
                },
            }
        }
    }
    let ghost before = models(list@);
    let ghost model = next.model();
    list.push(next);
    assert(models(list@) =~= before.push(model));
}

fn push_return_at(
    list: &mut Vec<(usize, IRInst)>,
    offset: usize,
    next: IRInst,
    usage: &Usage,
    useless: &mut KeySet<VariableId>,
)
    ensures
        body_models(final(list)@) == with_return_at(
            body_models(old(list)@),
            offset,
            next.model(),
            usage.model(),
        ),
        final(useless)@ == useless_with_at(
            body_models(old(list)@),
            next.model(),
            usage.model(),
            old(useless)@,
        ),
{
    let ghost whole = with_return_at(body_models(list@), offset, next.model(), usage.model());
    let ghost all = useless_with_at(body_models(list@), next.model(), usage.model(), useless@);
    let mut next: IRInst = next;
    let mut going: bool = true;
    while going
        invariant
            going ==> whole == with_return_at(
                body_models(list@),
                offset,
                next.model(),
                usage.model(),
            ),
            going ==> all == useless_with_at(
                body_models(list@),
                next.model(),
                usage.model(),
                useless@,
            ),
            !going ==> whole == body_models(list@).push((offset, next.model())),
            !going ==> all == useless@,
        decreases list@.len(), going as int,
    {
        if list.len() == 0 {
            going = false;
        } else {
            let ghost before = body_models(list@);
            assert(before.last().1 == list@[list@.len() - 1].1.model());
            match usage.value(&list[list.len() - 1].1, &next) {
                Some((target, value)) => {
                    list.pop();
                    assert(body_models(list@) =~= before.drop_last());
                    next = IRInst::Return(Some(value));
                    useless.insert(target);
                },
                None => {
                    going = false;
                },
            }
        }
    }
    let ghost before = body_models(list@);
    let ghost model = next.model();
    list.push((offset, next));
    assert(body_models(list@) =~= before.push((offset, model)));
}

fn join(instr: &IRInst, usage: &Usage, useless: &mut KeySet<VariableId>) -> (res: IRInst)
    ensures
        (res.model(), final(useless)@) == joined(instr.model(), usage.model(), old(useless)@),
    decreases instr,
{
    match instr {
        IRInst::If { condition, then_branch, else_branch } => {
            let then_branch: Vec<IRInst> = join_list(then_branch, usage, useless);
            let else_branch: Vec<IRInst> = join_list(else_branch, usage, useless);
            IRInst::If { condition: condition.clone(), then_branch, else_branch }
        },
        IRInst::While { label, entry_offset, condition, body } => IRInst::While {
            label: *label,
            entry_offset: *entry_offset,
            condition: condition.clone(),
            body: join_body(body, usage, useless),
        },
        _ => instr.clone(),
    }
}

fn join_list(list: &Vec<IRInst>, usage: &Usage, useless: &mut KeySet<VariableId>) -> (res: Vec<
    IRInst,
>)
    ensures
        (models(res@), final(useless)@) == joined_list(
            models(list@),
            usage.model(),
            old(useless)@,
        ),
    decreases list,
{
    let ghost all = models(list@);
    let ghost start = useless@;
    let mut res: Vec<IRInst> = Vec::new();
    assert(all.subrange(0, 0) =~= Seq::empty());
    assert(models(res@) =~= Seq::empty());
    let mut i: usize = 0;
    while i < list.len()
        invariant
            i <= list@.len(),
            all == models(list@),
            (models(res@), useless@) == joined_list(
                all.subrange(0, i as int),
                usage.model(),
                start,
            ),
        decreases list@.len() - i,
    {
        let ghost prefix = all.subrange(0, i + 1);
        assert(prefix.drop_last() =~= all.subrange(0, i as int));
        assert(decreases_to!(list => list@[i as int]));
        let next: IRInst = join(&list[i], usage, useless);
        push_return(&mut res, next, usage, useless);
        i = i + 1;
    }
    assert(all.subrange(0, i as int) =~= all);
    res
}

fn join_body(list: &Vec<(usize, IRInst)>, usage: &Usage, useless: &mut KeySet<VariableId>) -> (res:
    Vec<(usize, IRInst)>)
    ensures
        (body_models(res@), final(useless)@) == joined_body(
            body_models(list@),
            usage.model(),
            old(useless)@,
        ),
    decreases list,
{
    let ghost all = body_models(list@);
    let ghost start = useless@;
    let mut res: Vec<(usize, IRInst)> = Vec::new();
    assert(all.subrange(0, 0) =~= Seq::empty());
    assert(body_models(res@) =~= Seq::empty());
    let mut i: usize = 0;
    while i < list.len()
        invariant
            i <= list@.len(),
            all == body_models(list@),
            (body_models(res@), useless@) == joined_body(
                all.subrange(0, i as int),
                usage.model(),
                start,
            ),
        decreases list@.len() - i,
    {
        let ghost prefix = all.subrange(0, i + 1);
        assert(prefix.drop_last() =~= all.subrange(0, i as int));
        assert(decreases_to!(list => list@[i as int]));
        let next: IRInst = join(&list[i].1, usage, useless);
        push_return_at(&mut res, list[i].0, next, usage, useless);
        i = i + 1;
    }
    assert(all.subrange(0, i as int) =~= all);
    res
}

// ---------------------------------------------------------------------------
// Empty branches

/// Whether the branch does nothing and its condition reads no memory.
pub open spec fn is_empty_if(instr: InstModel) -> bool {
    match instr {
        InstModel::If { condition, then_branch, else_branch } => then_branch.len() == 0
            && else_branch.len() == 0 && effect_free(condition),
        _ => false,
    }
}

fn empty_if(instr: &IRInst) -> (res: bool)
    ensures
        res == is_empty_if(instr.model()),
{
    match instr {
        IRInst::If { condition, then_branch, else_branch } => then_branch.len() == 0
            && else_branch.len() == 0 && is_effect_free(condition),
        _ => false,
    }
}

/// A branch with something in its `then` arm, where it has something at all.
pub open spec fn turned(
    condition: IRExpr,
    then_branch: Seq<InstModel>,
    else_branch: Seq<InstModel>,
) -> InstModel {
    if then_branch.len() == 0 && else_branch.len() > 0 {
        InstModel::If {
            condition: negated(condition),
            then_branch: else_branch,
            else_branch: then_branch,
        }
    } else {
        InstModel::If { condition, then_branch, else_branch }
    }
}

/// The instruction without branches that do nothing.
pub open spec fn tidied(instr: InstModel) -> InstModel
    decreases instr,
{
    match instr {
        InstModel::If { condition, then_branch, else_branch } => turned(
            condition,
            tidied_list(then_branch),
            tidied_list(else_branch),
        ),
        InstModel::While { label, entry_offset, condition, body } => InstModel::While {
            label,
            entry_offset,
            condition,
            body: tidied_body(body),
        },
        _ => instr,
    }
}

pub open spec fn tidied_list(list: Seq<InstModel>) -> Seq<InstModel>
    decreases list,
{
    if list.len() == 0 {
        Seq::empty()
    } else {
        let before = tidied_list(list.drop_last());
        let last = tidied(list[list.len() - 1]);
        if is_empty_if(last) {
            before
        } else {
            before.push(last)
        }
    }
}

pub open spec fn tidied_body(list: Seq<(usize, InstModel)>) -> Seq<(usize, InstModel)>
    decreases list,
{
    if list.len() == 0 {
        Seq::empty()
    } else {
        let before = tidied_body(list.drop_last());
        let last = tidied(list[list.len() - 1].1);
        if is_empty_if(last) {
            before
        } else {
            before.push((list[list.len() - 1].0, last))
        }
    }
}

fn simplify(instr: &IRInst) -> (res: IRInst)
    ensures
        res.model() == tidied(instr.model()),
    decreases instr,
{
    match instr {
        IRInst::If { condition, then_branch, else_branch } => {
            let then_branch: Vec<IRInst> = simplify_branch(then_branch);
            let else_branch: Vec<IRInst> = simplify_branch(else_branch);
            if then_branch.len() == 0 && else_branch.len() > 0 {
                IRInst::If {
                    condition: negate(condition.clone()),
                    then_branch: else_branch,
                    else_branch: then_branch,
                }
            } else {
                IRInst::If { condition: condition.clone(), then_branch, else_branch }
            }
        },
        IRInst::While { label, entry_offset, condition, body } => IRInst::While {
            label: *label,
            entry_offset: *entry_offset,
            condition: condition.clone(),
            body: simplify_body(body),
        },
        _ => instr.clone(),
    }
}

fn simplify_branch(list: &Vec<IRInst>) -> (res: Vec<IRInst>)
    ensures
        models(res@) == tidied_list(models(list@)),
    decreases list,
{
    let ghost all = models(list@);
    let mut res: Vec<IRInst> = Vec::new();
    assert(all.subrange(0, 0) =~= Seq::empty());
    assert(models(res@) =~= Seq::empty());
    let mut i: usize = 0;
    while i < list.len()
        invariant
            i <= list@.len(),
            all == models(list@),
            models(res@) == tidied_list(all.subrange(0, i as int)),
        decreases list@.len() - i,
    {
        let ghost prefix = all.subrange(0, i + 1);
        assert(prefix.drop_last() =~= all.subrange(0, i as int));
        assert(decreases_to!(list => list@[i as int]));
        let ghost before = models(res@);
        let made: IRInst = simplify(&list[i]);
        let ghost model = made.model();
        if !empty_if(&made) {
            res.push(made);
            assert(models(res@) =~= before.push(model));
        }
        i = i + 1;
    }
    assert(all.subrange(0, i as int) =~= all);
    res
}

fn simplify_body(list: &Vec<(usize, IRInst)>) -> (res: Vec<(usize, IRInst)>)
    ensures
        body_models(res@) == tidied_body(body_models(list@)),
    decreases list,
{
    let ghost all = body_models(list@);
    let mut res: Vec<(usize, IRInst)> = Vec::new();
    assert(all.subrange(0, 0) =~= Seq::empty());
    assert(body_models(res@) =~= Seq::empty());
    let mut i: usize = 0;
    while i < list.len()
        invariant
            i <= list@.len(),
            all == body_models(list@),
            body_models(res@) == tidied_body(all.subrange(0, i as int)),
        decreases list@.len() - i,
    {
        let ghost prefix = all.subrange(0, i + 1);
        assert(prefix.drop_last() =~= all.subrange(0, i as int));
        assert(decreases_to!(list => list@[i as int]));
        let ghost before = body_models(res@);
        let made: IRInst = simplify(&list[i].1);
        let ghost model = made.model();
        if !empty_if(&made) {
            res.push((list[i].0, made));
            assert(body_models(res@) =~= before.push((list@[i as int].0, model)));
        }
        i = i + 1;
    }
    assert(all.subrange(0, i as int) =~= all);
    res
}

// ---------------------------------------------------------------------------
// The pass

pub open spec fn usage_of(function: FunctionModel) -> UsageModel {
    UsageModel {
        nodes: flow_of_function(function).nodes,
        types: function_types(function),
        arguments: argument_sizes(function.parameters),
        parameters: parameter_slots(function.parameters),
    }
}

/// The body without slot copies, without slots that only carry a value to the
/// return after it, and without branches that do nothing.
pub open spec fn body_unaliased(function: FunctionModel) -> Seq<(usize, InstModel)> {
    let copied = unaliased(function);
    let returned = joined_body(copied.body, usage_of(copied), Set::empty());
    tidied_body(removed_from_body(returned.0, returned.1))
}

fn eliminate(function: &SyntheticFunction) -> (res: Vec<(usize, IRInst)>)
    ensures
        body_models(res@) == body_unaliased(function.model()),
{
    let mut current = SyntheticFunction {
        entry_offset: function.entry_offset,
        parameters: function.copied_parameters(),
        body: clone_body(&function.body),
    };
    assert(current.model() == function.model());
    let ghost total = unaliased(function.model());
    let mut going: bool = true;
    while going
        invariant
            going ==> unaliased(current.model()) == total,
            !going ==> current.model() == total,
        decreases weight_body(current.model().body), going as int,
    {
        let flow: Flow = Flow::from_function(&current);
        match candidate(&current, &flow) {
            Some((target, value)) => {
                let mut dropped: KeySet<VariableId> = KeySet::new();
                dropped.insert(target);
                assert(dropped@ =~= set![target]);
                let ghost before = current.model();
                let body: Vec<(usize, IRInst)> = rewrite_body(&current.body, target, &value);
                current.body = remove_body(&body, &dropped);
                proof {
                    assert(unaliased_once(before) == Some(current.model()));
                    lemma_unaliased_weight(before);
                }
            },
            None => {
                going = false;
            },
        }
    }
    let usage = Usage {
        flow: Flow::from_function(&current),
        types: types(&current),
        arguments: sizes(&current),
        parameters: slots(&current),
    };
    assert(usage.model() == usage_of(total));
    let mut useless: KeySet<VariableId> = KeySet::new();
    let body: Vec<(usize, IRInst)> = join_body(&current.body, &usage, &mut useless);
    let body: Vec<(usize, IRInst)> = remove_body(&body, &useless);
    simplify_body(&body)
}

pub open spec fn function_unaliased(function: FunctionModel) -> FunctionModel {
    FunctionModel { body: body_unaliased(function), ..function }
}

pub open spec fn program_unaliased(program: ProgramModel) -> ProgramModel {
    ProgramModel {
        functions: program.functions.map_values(|f: FunctionModel| function_unaliased(f)),
        ..program
    }
}

/// Removes the slot copies of every function.
pub fn run(program: &mut Program)
    ensures
        final(program).model() == program_unaliased(old(program).model()),
{
    let ghost before = function_models(program.functions@);
    let ghost initial = *program;
    let total: usize = program.functions.len();
    let mut i: usize = 0;
    while i < total
        invariant
            i <= total,
            total == program.functions@.len(),
            total == before.len(),
            *program == (Program { functions: program.functions, ..initial }),
            forall|k: int|
                0 <= k < i ==> (#[trigger] program.functions@[k]).model() == function_unaliased(
                    before[k],
                ),
            forall|k: int|
                i <= k < total ==> (#[trigger] program.functions@[k]).model() == before[k],
        decreases total - i,
    {
        let body: Vec<(usize, IRInst)> = eliminate(&program.functions[i]);
        program.functions[i].body = body;
        i = i + 1;
    }
    assert(program.model().functions =~= program_unaliased(initial.model()).functions);
}

} // verus!
