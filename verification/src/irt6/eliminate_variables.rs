//! Fold local copies and adjacent single-use initializers. Adjacency preserves
//! evaluation order even when an initializer reads memory.
use super::arithmetic::{
    collect_body_types, context_of, declared_by_body, plain_value, Context, ContextModel,
};
use super::effects::{expression_effects, expression_reads};
use super::ir::{
    body_models, clone_body, function_models, models, FunctionModel, IRExpr, IRInst, InstModel,
    Parameter, Program, ProgramModel, SyntheticFunction, VariableId, VariableType,
};
use super::lists::{
    depth, depth_body, lemma_fold, lemma_item_depth, lemma_size_update, lemma_tagged,
    lemma_untagged, size, size_body, tag, tagged, untag, untagged,
};
use super::relocate_variables::{collect_parameters, slot_parameters};
use super::uses::{is_used, used};
use crate::table::{KeySet, Table};
use vstd::prelude::*;

verus! {

/// The variable that an instruction copies another one to.
pub open spec fn copy_target(instr: InstModel, source: VariableId) -> Option<VariableId> {
    match assigned_to(instr) {
        Some((variable, value)) => if value == IRExpr::Variable(source) && variable != source {
            Some(variable)
        } else {
            None
        },
        None => None,
    }
}

/// The variable that an instruction gives a value, and the value.
pub open spec fn assigned_to(instr: InstModel) -> Option<(VariableId, IRExpr)> {
    match instr {
        InstModel::DeclareAndAssignVariable { variable, value, .. } => Some((variable, value)),
        InstModel::AssignVariable { variable, value } => Some((variable, value)),
        InstModel::Assign { dest, src } => match dest {
            IRExpr::Variable(variable) => Some((variable, src)),
            _ => None,
        },
        _ => None,
    }
}

fn assignment(instr: &IRInst) -> (res: Option<(VariableId, &IRExpr)>)
    ensures
        match res {
            Some((variable, value)) => assigned_to(instr.model()) == Some((variable, *value)),
            None => assigned_to(instr.model()) is None,
        },
{
    match instr {
        IRInst::DeclareAndAssignVariable { variable, value, .. } => Some((*variable, value)),
        IRInst::AssignVariable { variable, value } => Some((*variable, value)),
        IRInst::Assign { dest, src } => match dest {
            IRExpr::Variable(variable) => Some((*variable, src)),
            _ => None,
        },
        _ => None,
    }
}

fn copy_destination(instr: &IRInst, source: VariableId) -> (res: Option<VariableId>)
    ensures
        res == copy_target(instr.model(), source),
{
    match assignment(instr) {
        Some((variable, value)) => match value {
            IRExpr::Variable(read) => if *read == source && variable != source {
                Some(variable)
            } else {
                None
            },
            _ => None,
        },
        None => None,
    }
}

/// The instruction with another value in place of that which it assigns.
pub open spec fn with_value(instr: InstModel, value: IRExpr) -> InstModel {
    match instr {
        InstModel::DeclareAndAssignVariable { variable, ty, .. } => {
            InstModel::DeclareAndAssignVariable { variable, ty, value }
        },
        InstModel::AssignVariable { variable, .. } => InstModel::AssignVariable { variable, value },
        InstModel::Assign { dest, .. } => InstModel::Assign { dest, src: value },
        _ => instr,
    }
}

fn replace_copy(instr: &IRInst, value: IRExpr) -> (res: IRInst)
    ensures
        res.model() == with_value(instr.model(), value),
{
    match instr {
        IRInst::DeclareAndAssignVariable { variable, ty, .. } => IRInst::DeclareAndAssignVariable {
            variable: *variable,
            ty: ty.clone(),
            value,
        },
        IRInst::AssignVariable { variable, .. } => IRInst::AssignVariable {
            variable: *variable,
            value,
        },
        IRInst::Assign { dest, .. } => IRInst::Assign { dest: dest.clone(), src: value },
        _ => instr.clone(),
    }
}

/// The value that an instruction assigns to a variable that is declared before.
pub open spec fn update_value(instr: InstModel, variable: VariableId) -> Option<IRExpr> {
    if instr is DeclareAndAssignVariable {
        None
    } else {
        match assigned_to(instr) {
            Some((dest, value)) => if dest == variable {
                Some(value)
            } else {
                None
            },
            None => None,
        }
    }
}

fn assignment_value(instr: &IRInst, variable: VariableId) -> (res: Option<&IRExpr>)
    ensures
        match res {
            Some(value) => update_value(instr.model(), variable) == Some(*value),
            None => update_value(instr.model(), variable) is None,
        },
{
    if let IRInst::DeclareAndAssignVariable { .. } = instr {
        return None;
    }
    match assignment(instr) {
        Some((dest, value)) => if dest == variable {
            Some(value)
        } else {
            None
        },
        None => None,
    }
}

/// The expression with the reads of a variable replaced.
pub open spec fn replaced_read(expr: IRExpr, variable: VariableId, replacement: IRExpr) -> IRExpr
    decreases expr,
{
    match expr {
        IRExpr::BinOp { kind, lhs, rhs } => IRExpr::BinOp {
            kind,
            lhs: Box::new(replaced_read(*lhs, variable, replacement)),
            rhs: Box::new(replaced_read(*rhs, variable, replacement)),
        },
        IRExpr::Deref(address) => IRExpr::Deref(
            Box::new(replaced_read(*address, variable, replacement)),
        ),
        IRExpr::CStringLength(base) => IRExpr::CStringLength(
            Box::new(replaced_read(*base, variable, replacement)),
        ),
        IRExpr::MemoryAddress { address, size } => IRExpr::MemoryAddress {
            address: Box::new(replaced_read(*address, variable, replacement)),
            size,
        },
        IRExpr::ElementAddress { base, index, element_size } => IRExpr::ElementAddress {
            base: Box::new(replaced_read(*base, variable, replacement)),
            index: Box::new(replaced_read(*index, variable, replacement)),
            element_size,
        },
        IRExpr::Convert { value, source, target } => IRExpr::Convert {
            value: Box::new(replaced_read(*value, variable, replacement)),
            source,
            target,
        },
        IRExpr::Variable(read) => if read == variable {
            replacement
        } else {
            expr
        },
        IRExpr::Not(inner) => IRExpr::Not(Box::new(replaced_read(*inner, variable, replacement))),
        _ => expr,
    }
}

fn replace_read(expr: &IRExpr, variable: VariableId, replacement: &IRExpr) -> (res: IRExpr)
    ensures
        res == replaced_read(*expr, variable, *replacement),
    decreases expr,
{
    match expr {
        IRExpr::BinOp { kind, lhs, rhs } => IRExpr::BinOp {
            kind: *kind,
            lhs: Box::new(replace_read(lhs, variable, replacement)),
            rhs: Box::new(replace_read(rhs, variable, replacement)),
        },
        IRExpr::Deref(address) => IRExpr::Deref(
            Box::new(replace_read(address, variable, replacement)),
        ),
        IRExpr::CStringLength(base) => IRExpr::CStringLength(
            Box::new(replace_read(base, variable, replacement)),
        ),
        IRExpr::MemoryAddress { address, size } => IRExpr::MemoryAddress {
            address: Box::new(replace_read(address, variable, replacement)),
            size: *size,
        },
        IRExpr::ElementAddress { base, index, element_size } => IRExpr::ElementAddress {
            base: Box::new(replace_read(base, variable, replacement)),
            index: Box::new(replace_read(index, variable, replacement)),
            element_size: *element_size,
        },
        IRExpr::Convert { value, source, target } => IRExpr::Convert {
            value: Box::new(replace_read(value, variable, replacement)),
            source: *source,
            target: *target,
        },
        IRExpr::Variable(read) => if *read == variable {
            replacement.clone()
        } else {
            expr.clone()
        },
        IRExpr::Not(inner) => IRExpr::Not(Box::new(replace_read(inner, variable, replacement))),
        _ => expr.clone(),
    }
}


/// The walk with the copy of its element inlined. An element copied into a local
/// and consumed by the next accumulator update can be read directly. The
/// preceding initializer accounts for the local's only other read, so its value
/// is never needed after the loop.
pub open spec fn inlined_walk(
    first: InstModel,
    second: InstModel,
    third: InstModel,
    whole: Seq<(usize, InstModel)>,
    types: Map<VariableId, VariableType>,
    parameters: Set<VariableId>,
) -> Option<InstModel> {
    match (first, second, third) {
        (
            InstModel::DeclareAndAssignVariable { variable: temporary, .. },
            InstModel::DeclareAndAssignVariable { variable: accumulator, value: initial, .. },
            InstModel::ForEach {
                entry_offset,
                condition_offset,
                advance_offset,
                load_offset,
                variable: element,
                element_type,
                vector,
                start,
                index_bits,
                body,
            },
        ) => if temporary != accumulator && !parameters.contains(temporary)
            && types.dom().contains(temporary) && types[temporary] == element_type && is_used(
            whole,
            temporary,
            2,
            2,
        ) && expression_effects(initial).reads.contains(temporary) && body.len() == 2
            && update_value(body[0].1, temporary) == Some(IRExpr::Variable(element)) && (
        update_value(body[1].1, accumulator) matches Some(value) && expression_effects(
            value,
        ).reads.contains(temporary)) {
            Some(
                InstModel::ForEach {
                    entry_offset,
                    condition_offset,
                    advance_offset,
                    load_offset,
                    variable: element,
                    element_type,
                    vector,
                    start,
                    index_bits,
                    body: seq![
                        (
                            body[1].0,
                            with_value(
                                body[1].1,
                                replaced_read(
                                    update_value(body[1].1, accumulator)->0,
                                    temporary,
                                    IRExpr::Variable(element),
                                ),
                            ),
                        ),
                    ],
                },
            )
        } else {
            None
        },
        _ => None,
    }
}

/// The list with the first walk from an item on that has a copy to inline.
pub open spec fn inlined_from(
    list: Seq<(usize, InstModel)>,
    index: int,
    whole: Seq<(usize, InstModel)>,
    types: Map<VariableId, VariableType>,
    parameters: Set<VariableId>,
) -> Option<Seq<(usize, InstModel)>>
    decreases list.len() - index,
{
    if index < 2 || index >= list.len() {
        None
    } else {
        match inlined_walk(
            list[index - 2].1,
            list[index - 1].1,
            list[index].1,
            whole,
            types,
            parameters,
        ) {
            Some(instr) => Some(list.update(index, (list[index].0, instr))),
            None => inlined_from(list, index + 1, whole, types, parameters),
        }
    }
}

/// The list with the first copy inlined, unless one was before, and whether one
/// was.
pub open spec fn inlined(
    list: Seq<(usize, InstModel)>,
    done: bool,
    whole: Seq<(usize, InstModel)>,
    types: Map<VariableId, VariableType>,
    parameters: Set<VariableId>,
) -> (Seq<(usize, InstModel)>, bool)
    decreases depth_body(list), 2int, 0nat,
{
    if done {
        (list, true)
    } else {
        match inlined_from(list, 2, whole, types, parameters) {
            Some(made) => (made, true),
            None => inlined_children(list, false, whole, types, parameters),
        }
    }
}

fn inline_walk(
    first: &IRInst,
    second: &IRInst,
    third: &IRInst,
    whole: &Vec<(usize, IRInst)>,
    types: &Table<VariableId, VariableType>,
    parameters: &KeySet<VariableId>,
) -> (res: Option<IRInst>)
    ensures
        match res {
            Some(instr) => inlined_walk(
                first.model(),
                second.model(),
                third.model(),
                body_models(whole@),
                types@,
                parameters@,
            ) == Some(instr.model()),
            None => inlined_walk(
                first.model(),
                second.model(),
                third.model(),
                body_models(whole@),
                types@,
                parameters@,
            ) is None,
        },
{
    let temporary: VariableId = match first {
        IRInst::DeclareAndAssignVariable { variable, .. } => *variable,
        _ => return None,
    };
    let (accumulator, initial): (VariableId, &IRExpr) = match second {
        IRInst::DeclareAndAssignVariable { variable, value, .. } => (*variable, value),
        _ => return None,
    };
    match third {
        IRInst::ForEach {
            entry_offset,
            condition_offset,
            advance_offset,
            load_offset,
            variable,
            element_type,
            vector,
            start,
            index_bits,
            body,
        } => {
            let typed: bool = match types.get(temporary) {
                Some(ty) => ty.same(element_type),
                None => false,
            };
            if temporary == accumulator || parameters.contains(temporary) || !typed || !used(
                whole,
                temporary,
                2,
                2,
            ) || !expression_reads(initial, temporary) || body.len() != 2 {
                return None;
            }
            assert(body_models(body@)[0] == (body@[0].0, body@[0].1.model()));
            assert(body_models(body@)[1] == (body@[1].0, body@[1].1.model()));
            let copies: bool = match assignment_value(&body[0].1, temporary) {
                Some(IRExpr::Variable(source)) => *source == *variable,
                _ => false,
            };
            if !copies {
                return None;
            }
            match assignment_value(&body[1].1, accumulator) {
                Some(value) => {
                    if !expression_reads(value, temporary) {
                        return None;
                    }
                    let made: IRExpr = replace_read(value, temporary, &IRExpr::Variable(*variable));
                    let mut kept: Vec<(usize, IRInst)> = Vec::new();
                    kept.push((body[1].0, replace_copy(&body[1].1, made)));
                    assert(body_models(kept@) =~= seq![
                        (
                            body@[1].0,
                            with_value(
                                body@[1].1.model(),
                                replaced_read(*value, temporary, IRExpr::Variable(*variable)),
                            ),
                        ),
                    ]);
                    Some(
                        IRInst::ForEach {
                            entry_offset: *entry_offset,
                            condition_offset: *condition_offset,
                            advance_offset: *advance_offset,
                            load_offset: *load_offset,
                            variable: *variable,
                            element_type: element_type.clone(),
                            vector: vector.clone(),
                            start: *start,
                            index_bits: *index_bits,
                            body: kept,
                        },
                    )
                },
                None => None,
            }
        },
        _ => None,
    }
}

fn inline_foreach_copy(
    list: Vec<(usize, IRInst)>,
    done: &mut bool,
    whole: &Vec<(usize, IRInst)>,
    types: &Table<VariableId, VariableType>,
    parameters: &KeySet<VariableId>,
) -> (res: Vec<(usize, IRInst)>)
    ensures
        (body_models(res@), *final(done)) == inlined(
            body_models(list@),
            *old(done),
            body_models(whole@),
            types@,
            parameters@,
        ),
    decreases depth_body(body_models(list@)), 2int, 0nat,
{
    if *done {
        return list;
    }
    let ghost all = body_models(list@);
    let mut items: Vec<(usize, IRInst)> = list;
    let mut index: usize = 2;
    while index < items.len()
        invariant
            2 <= index,
            all == body_models(items@),
            all == body_models(list@),
            inlined_from(all, 2, body_models(whole@), types@, parameters@) == inlined_from(
                all,
                index as int,
                body_models(whole@),
                types@,
                parameters@,
            ),
            !*done,
            !*old(done),
        decreases items@.len() - index,
    {
        assert(all[index - 2].1 == items@[index - 2].1.model());
        assert(all[index - 1].1 == items@[index - 1].1.model());
        assert(all[index as int].1 == items@[index as int].1.model());
        match inline_walk(
            &items[index - 2].1,
            &items[index - 1].1,
            &items[index].1,
            whole,
            types,
            parameters,
        ) {
            Some(instr) => {
                let offset: usize = items[index].0;
                items.set(index, (offset, instr));
                assert(body_models(items@) =~= all.update(index as int, (offset, instr.model())));
                *done = true;
                return items;
            },
            None => {},
        }
        index = index + 1;
    }
    inline_foreach_copy_children(&items, done, whole, types, parameters)
}

/// An instruction with a copy in its lists inlined, unless one was before.
pub open spec fn inlined_child(
    offset: usize,
    instr: InstModel,
    done: bool,
    whole: Seq<(usize, InstModel)>,
    types: Map<VariableId, VariableType>,
    parameters: Set<VariableId>,
) -> (InstModel, bool)
    decreases depth(instr), 0int, 0nat,
{
    match instr {
        InstModel::If { condition, then_branch, else_branch } => {
            proof {
                lemma_tagged(then_branch, offset);
                lemma_tagged(else_branch, offset);
            }
            let first = inlined(tagged(then_branch, offset), done, whole, types, parameters);
            let second = inlined(tagged(else_branch, offset), first.1, whole, types, parameters);
            (InstModel::If {
                condition,
                then_branch: untagged(first.0),
                else_branch: untagged(second.0),
            }, second.1)
        },
        InstModel::While { label, entry_offset, condition, body } => {
            let inner = inlined(body, done, whole, types, parameters);
            (InstModel::While { label, entry_offset, condition, body: inner.0 }, inner.1)
        },
        InstModel::ForEach {
            entry_offset,
            condition_offset,
            advance_offset,
            load_offset,
            variable,
            element_type,
            vector,
            start,
            index_bits,
            body,
        } => {
            let inner = inlined(body, done, whole, types, parameters);
            (InstModel::ForEach {
                entry_offset,
                condition_offset,
                advance_offset,
                load_offset,
                variable,
                element_type,
                vector,
                start,
                index_bits,
                body: inner.0,
            }, inner.1)
        },
        _ => (instr, done),
    }
}

pub open spec fn inlined_children(
    list: Seq<(usize, InstModel)>,
    done: bool,
    whole: Seq<(usize, InstModel)>,
    types: Map<VariableId, VariableType>,
    parameters: Set<VariableId>,
) -> (Seq<(usize, InstModel)>, bool)
    decreases depth_body(list), 1int, list.len(),
{
    if list.len() == 0 {
        (Seq::empty(), done)
    } else {
        let before = inlined_children(list.drop_last(), done, whole, types, parameters);
        let item = list[list.len() - 1];
        let child = inlined_child(item.0, item.1, before.1, whole, types, parameters);
        (before.0.push((item.0, child.0)), child.1)
    }
}

fn inline_foreach_copy_child(
    offset: usize,
    instr: &IRInst,
    done: &mut bool,
    whole: &Vec<(usize, IRInst)>,
    types: &Table<VariableId, VariableType>,
    parameters: &KeySet<VariableId>,
) -> (res: IRInst)
    ensures
        (res.model(), *final(done)) == inlined_child(
            offset,
            instr.model(),
            *old(done),
            body_models(whole@),
            types@,
            parameters@,
        ),
    decreases depth(instr.model()), 0int, 0nat,
{
    match instr {
        IRInst::If { condition, then_branch, else_branch } => {
            proof {
                lemma_tagged(models(then_branch@), offset);
                lemma_tagged(models(else_branch@), offset);
            }
            let first: Vec<(usize, IRInst)> = inline_foreach_copy(
                tag(then_branch, offset),
                done,
                whole,
                types,
                parameters,
            );
            let second: Vec<(usize, IRInst)> = inline_foreach_copy(
                tag(else_branch, offset),
                done,
                whole,
                types,
                parameters,
            );
            IRInst::If {
                condition: condition.clone(),
                then_branch: untag(first),
                else_branch: untag(second),
            }
        },
        IRInst::While { label, entry_offset, condition, body } => IRInst::While {
            label: *label,
            entry_offset: *entry_offset,
            condition: condition.clone(),
            body: inline_foreach_copy(clone_body(body), done, whole, types, parameters),
        },
        IRInst::ForEach {
            entry_offset,
            condition_offset,
            advance_offset,
            load_offset,
            variable,
            element_type,
            vector,
            start,
            index_bits,
            body,
        } => IRInst::ForEach {
            entry_offset: *entry_offset,
            condition_offset: *condition_offset,
            advance_offset: *advance_offset,
            load_offset: *load_offset,
            variable: *variable,
            element_type: element_type.clone(),
            vector: vector.clone(),
            start: *start,
            index_bits: *index_bits,
            body: inline_foreach_copy(clone_body(body), done, whole, types, parameters),
        },
        _ => instr.clone(),
    }
}

fn inline_foreach_copy_children(
    list: &Vec<(usize, IRInst)>,
    done: &mut bool,
    whole: &Vec<(usize, IRInst)>,
    types: &Table<VariableId, VariableType>,
    parameters: &KeySet<VariableId>,
) -> (res: Vec<(usize, IRInst)>)
    ensures
        (body_models(res@), *final(done)) == inlined_children(
            body_models(list@),
            *old(done),
            body_models(whole@),
            types@,
            parameters@,
        ),
    decreases depth_body(body_models(list@)), 1int, list@.len(),
{
    let ghost all = body_models(list@);
    let ghost start = *done;
    let mut res: Vec<(usize, IRInst)> = Vec::new();
    assert(all.subrange(0, 0) =~= Seq::empty());
    assert(body_models(res@) =~= Seq::empty());
    let mut i: usize = 0;
    while i < list.len()
        invariant
            i <= list@.len(),
            all == body_models(list@),
            (body_models(res@), *done) == inlined_children(
                all.subrange(0, i as int),
                start,
                body_models(whole@),
                types@,
                parameters@,
            ),
        decreases list@.len() - i,
    {
        let ghost prefix = all.subrange(0, i + 1);
        assert(prefix.drop_last() =~= all.subrange(0, i as int));
        proof {
            lemma_item_depth(all, i as int);
        }
        let ghost before = body_models(res@);
        let child: IRInst = inline_foreach_copy_child(
            list[i].0,
            &list[i].1,
            done,
            whole,
            types,
            parameters,
        );
        res.push((list[i].0, child));
        assert(body_models(res@) =~= before.push((all[i as int].0, child.model())));
        i = i + 1;
    }
    assert(all.subrange(0, i as int) =~= all);
    res
}


/// The destination of a converted copy and the width of the value in bytes.
pub open spec fn converted_target(instr: InstModel, source: VariableId) -> Option<
    (VariableId, usize),
> {
    match assigned_to(instr) {
        Some((destination, value)) => match value {
            IRExpr::Convert { value: inner, source: kind, .. } => if *inner == IRExpr::Variable(
                source,
            ) {
                Some((destination, kind.size))
            } else {
                None
            },
            _ => None,
        },
        None => None,
    }
}

fn converted_copy(instr: &IRInst, source: VariableId) -> (res: Option<(VariableId, usize)>)
    ensures
        res == converted_target(instr.model(), source),
{
    match assignment(instr) {
        Some((destination, value)) => match value {
            IRExpr::Convert { value: inner, source: kind, .. } => {
                if inner.same(&IRExpr::Variable(source)) {
                    Some((destination, kind.size))
                } else {
                    None
                }
            },
            _ => None,
        },
        None => None,
    }
}

/// The instruction with another value under the conversion that it assigns.
pub open spec fn with_converted(instr: InstModel, made: IRExpr) -> InstModel {
    match assigned_to(instr) {
        Some((_, value)) => match value {
            IRExpr::Convert { source, target, .. } => with_value(
                instr,
                IRExpr::Convert { value: Box::new(made), source, target },
            ),
            _ => instr,
        },
        None => instr,
    }
}

fn replace_converted_copy(instr: &IRInst, made: IRExpr) -> (res: IRInst)
    ensures
        res.model() == with_converted(instr.model(), made),
{
    match assignment(instr) {
        Some((_, value)) => match value {
            IRExpr::Convert { source, target, .. } => replace_copy(
                instr,
                IRExpr::Convert { value: Box::new(made), source: *source, target: *target },
            ),
            _ => instr.clone(),
        },
        None => instr.clone(),
    }
}

pub open spec fn in_bits(size: usize) -> Option<usize> {
    if size * 8 <= usize::MAX {
        Some((size * 8) as usize)
    } else {
        None
    }
}

/// The instruction after an initializer, with the initial value in place of the
/// only read of the variable.
pub open spec fn folded(
    first: InstModel,
    next: InstModel,
    whole: Seq<(usize, InstModel)>,
    types: Map<VariableId, VariableType>,
    parameters: Set<VariableId>,
    context: ContextModel,
) -> Option<InstModel> {
    match first {
        InstModel::DeclareAndAssignVariable { variable, ty, value } => {
            let reads = expression_effects(value).reads;
            let bits = plain_value(context, value).bits;
            if parameters.contains(variable) || !is_used(whole, variable, 1, 1) || reads.contains(
                variable,
            ) {
                None
            } else if copy_target(next, variable) matches Some(destination)
                && types.dom().contains(destination) && types[destination] == ty
                && !reads.contains(destination) {
                Some(with_value(next, value))
            } else if converted_target(next, variable) matches Some((destination, size))
                && destination != variable && !reads.contains(destination) && plain_value(
                context,
                IRExpr::Variable(variable),
            ).bits == bits && bits == in_bits(size) {
                Some(with_converted(next, value))
            } else {
                None
            }
        },
        _ => None,
    }
}

fn same_bits(a: Option<usize>, b: Option<usize>) -> (res: bool)
    ensures
        res == (a == b),
{
    match (a, b) {
        (Some(a), Some(b)) => a == b,
        (None, None) => true,
        _ => false,
    }
}

fn fold(
    first: &IRInst,
    next: &IRInst,
    whole: &Vec<(usize, IRInst)>,
    types: &Table<VariableId, VariableType>,
    parameters: &KeySet<VariableId>,
    context: &Context,
) -> (res: Option<IRInst>)
    ensures
        match res {
            Some(instr) => folded(
                first.model(),
                next.model(),
                body_models(whole@),
                types@,
                parameters@,
                context@,
            ) == Some(instr.model()),
            None => folded(
                first.model(),
                next.model(),
                body_models(whole@),
                types@,
                parameters@,
                context@,
            ) is None,
        },
{
    match first {
        IRInst::DeclareAndAssignVariable { variable, ty, value } => {
            if parameters.contains(*variable) || !used(whole, *variable, 1, 1) || expression_reads(
                value,
                *variable,
            ) {
                return None;
            }
            if let Some(destination) = copy_destination(next, *variable) {
                let typed: bool = match types.get(destination) {
                    Some(found) => found.same(ty),
                    None => false,
                };
                if typed && !expression_reads(value, destination) {
                    return Some(replace_copy(next, value.clone()));
                }
            }
            if let Some((destination, size)) = converted_copy(next, *variable) {
                let bits: Option<usize> = context.value(value).bits;
                let own: Option<usize> = context.value(&IRExpr::Variable(*variable)).bits;
                let wide: Option<usize> = if size <= usize::MAX / 8 {
                    Some(size * 8)
                } else {
                    None
                };
                if destination != *variable && !expression_reads(value, destination) && same_bits(
                    own,
                    bits,
                ) && same_bits(bits, wide) {
                    return Some(replace_converted_copy(next, value.clone()));
                }
            }
            None
        },
        _ => None,
    }
}

/// The list with its own copies folded, from an item on, and whether one was.
pub open spec fn folded_from(
    list: Seq<(usize, InstModel)>,
    index: nat,
    changed: bool,
    whole: Seq<(usize, InstModel)>,
    types: Map<VariableId, VariableType>,
    parameters: Set<VariableId>,
    context: ContextModel,
) -> (Seq<(usize, InstModel)>, bool)
    decreases list.len() - index,
{
    if index + 1 >= list.len() {
        (list, changed)
    } else {
        let next = list[index as int + 1];
        match folded(list[index as int].1, next.1, whole, types, parameters, context) {
            Some(instr) => folded_from(
                list.remove(index as int).update(index as int, (next.0, instr)),
                index,
                true,
                whole,
                types,
                parameters,
                context,
            ),
            None => folded_from(list, index + 1, changed, whole, types, parameters, context),
        }
    }
}

proof fn lemma_folded_is_leaf(
    first: InstModel,
    next: InstModel,
    whole: Seq<(usize, InstModel)>,
    types: Map<VariableId, VariableType>,
    parameters: Set<VariableId>,
    context: ContextModel,
)
    ensures
        folded(first, next, whole, types, parameters, context) matches Some(instr) ==> depth(instr)
            == 0 && size(instr) == 1,
{
}

/// Folding makes no list deeper or larger, and leaves a list without a copy as it is.
pub proof fn lemma_folded_from(
    list: Seq<(usize, InstModel)>,
    index: nat,
    changed: bool,
    whole: Seq<(usize, InstModel)>,
    types: Map<VariableId, VariableType>,
    parameters: Set<VariableId>,
    context: ContextModel,
)
    ensures
        ({
            let made = folded_from(list, index, changed, whole, types, parameters, context);
            &&& depth_body(made.0) <= depth_body(list)
            &&& size_body(made.0) <= size_body(list)
            &&& !changed && made.1 ==> size_body(made.0) < size_body(list)
            &&& changed ==> made.1
            &&& !made.1 ==> made.0 == list
        }),
    decreases list.len() - index,
{
    if index + 1 < list.len() {
        let next = list[index as int + 1];
        match folded(list[index as int].1, next.1, whole, types, parameters, context) {
            Some(instr) => {
                let made = list.remove(index as int).update(index as int, (next.0, instr));
                lemma_folded_is_leaf(
                    list[index as int].1,
                    next.1,
                    whole,
                    types,
                    parameters,
                    context,
                );
                lemma_fold(list, index as int, instr);
                lemma_folded_from(made, index, true, whole, types, parameters, context);
            },
            None => {
                lemma_folded_from(list, index + 1, changed, whole, types, parameters, context);
            },
        }
    }
}

/// The list with the copies in it and in its lists folded, and whether one was.
pub open spec fn eliminated(
    list: Seq<(usize, InstModel)>,
    changed: bool,
    whole: Seq<(usize, InstModel)>,
    types: Map<VariableId, VariableType>,
    parameters: Set<VariableId>,
    context: ContextModel,
) -> (Seq<(usize, InstModel)>, bool)
    decreases depth_body(list), 2int, 0nat,
{
    proof {
        lemma_folded_from(list, 0, changed, whole, types, parameters, context);
    }
    let made = folded_from(list, 0, changed, whole, types, parameters, context);
    eliminated_children(made.0, made.1, whole, types, parameters, context)
}

fn eliminate(
    list: Vec<(usize, IRInst)>,
    changed: &mut bool,
    whole: &Vec<(usize, IRInst)>,
    types: &Table<VariableId, VariableType>,
    parameters: &KeySet<VariableId>,
    context: &Context,
) -> (res: Vec<(usize, IRInst)>)
    ensures
        (body_models(res@), *final(changed)) == eliminated(
            body_models(list@),
            *old(changed),
            body_models(whole@),
            types@,
            parameters@,
            context@,
        ),
    decreases depth_body(body_models(list@)), 2int, 0nat,
{
    let ghost start = body_models(list@);
    let ghost before = *changed;
    let mut list: Vec<(usize, IRInst)> = list;
    let mut index: usize = 0;
    while index < list.len() && index + 1 < list.len()
        invariant
            folded_from(start, 0, before, body_models(whole@), types@, parameters@, context@)
                == folded_from(
                body_models(list@),
                index as nat,
                *changed,
                body_models(whole@),
                types@,
                parameters@,
                context@,
            ),
        decreases list@.len() - index,
    {
        let ghost all = body_models(list@);
        assert(all[index as int].1 == list@[index as int].1.model());
        assert(all[index + 1].1 == list@[index + 1].1.model());
        match fold(&list[index].1, &list[index + 1].1, whole, types, parameters, context) {
            Some(instr) => {
                let offset: usize = list[index + 1].0;
                list.remove(index);
                list.set(index, (offset, instr));
                assert(body_models(list@) =~= all.remove(index as int).update(
                    index as int,
                    (offset, instr.model()),
                ));
                *changed = true;
            },
            None => {
                index = index + 1;
            },
        }
    }
    proof {
        lemma_folded_from(
            start,
            0,
            before,
            body_models(whole@),
            types@,
            parameters@,
            context@,
        );
    }
    eliminate_children(&list, changed, whole, types, parameters, context)
}

/// An instruction with the copies in its lists folded.
pub open spec fn eliminated_child(
    offset: usize,
    instr: InstModel,
    changed: bool,
    whole: Seq<(usize, InstModel)>,
    types: Map<VariableId, VariableType>,
    parameters: Set<VariableId>,
    context: ContextModel,
) -> (InstModel, bool)
    decreases depth(instr), 0int, 0nat,
{
    match instr {
        InstModel::If { condition, then_branch, else_branch } => {
            proof {
                lemma_tagged(then_branch, offset);
                lemma_tagged(else_branch, offset);
            }
            let first = eliminated(
                tagged(then_branch, offset),
                changed,
                whole,
                types,
                parameters,
                context,
            );
            let second = eliminated(
                tagged(else_branch, offset),
                first.1,
                whole,
                types,
                parameters,
                context,
            );
            (InstModel::If {
                condition,
                then_branch: untagged(first.0),
                else_branch: untagged(second.0),
            }, second.1)
        },
        InstModel::While { label, entry_offset, condition, body } => {
            let inner = eliminated(body, changed, whole, types, parameters, context);
            (InstModel::While { label, entry_offset, condition, body: inner.0 }, inner.1)
        },
        InstModel::ForEach {
            entry_offset,
            condition_offset,
            advance_offset,
            load_offset,
            variable,
            element_type,
            vector,
            start,
            index_bits,
            body,
        } => {
            let inner = eliminated(body, changed, whole, types, parameters, context);
            (InstModel::ForEach {
                entry_offset,
                condition_offset,
                advance_offset,
                load_offset,
                variable,
                element_type,
                vector,
                start,
                index_bits,
                body: inner.0,
            }, inner.1)
        },
        _ => (instr, changed),
    }
}

pub open spec fn eliminated_children(
    list: Seq<(usize, InstModel)>,
    changed: bool,
    whole: Seq<(usize, InstModel)>,
    types: Map<VariableId, VariableType>,
    parameters: Set<VariableId>,
    context: ContextModel,
) -> (Seq<(usize, InstModel)>, bool)
    decreases depth_body(list), 1int, list.len(),
{
    if list.len() == 0 {
        (Seq::empty(), changed)
    } else {
        let before = eliminated_children(
            list.drop_last(),
            changed,
            whole,
            types,
            parameters,
            context,
        );
        let item = list[list.len() - 1];
        let child = eliminated_child(item.0, item.1, before.1, whole, types, parameters, context);
        (before.0.push((item.0, child.0)), child.1)
    }
}

fn eliminate_child(
    offset: usize,
    instr: &IRInst,
    changed: &mut bool,
    whole: &Vec<(usize, IRInst)>,
    types: &Table<VariableId, VariableType>,
    parameters: &KeySet<VariableId>,
    context: &Context,
) -> (res: IRInst)
    ensures
        (res.model(), *final(changed)) == eliminated_child(
            offset,
            instr.model(),
            *old(changed),
            body_models(whole@),
            types@,
            parameters@,
            context@,
        ),
    decreases depth(instr.model()), 0int, 0nat,
{
    match instr {
        IRInst::If { condition, then_branch, else_branch } => {
            proof {
                lemma_tagged(models(then_branch@), offset);
                lemma_tagged(models(else_branch@), offset);
            }
            let first: Vec<(usize, IRInst)> = eliminate(
                tag(then_branch, offset),
                changed,
                whole,
                types,
                parameters,
                context,
            );
            let second: Vec<(usize, IRInst)> = eliminate(
                tag(else_branch, offset),
                changed,
                whole,
                types,
                parameters,
                context,
            );
            IRInst::If {
                condition: condition.clone(),
                then_branch: untag(first),
                else_branch: untag(second),
            }
        },
        IRInst::While { label, entry_offset, condition, body } => IRInst::While {
            label: *label,
            entry_offset: *entry_offset,
            condition: condition.clone(),
            body: eliminate(clone_body(body), changed, whole, types, parameters, context),
        },
        IRInst::ForEach {
            entry_offset,
            condition_offset,
            advance_offset,
            load_offset,
            variable,
            element_type,
            vector,
            start,
            index_bits,
            body,
        } => IRInst::ForEach {
            entry_offset: *entry_offset,
            condition_offset: *condition_offset,
            advance_offset: *advance_offset,
            load_offset: *load_offset,
            variable: *variable,
            element_type: element_type.clone(),
            vector: vector.clone(),
            start: *start,
            index_bits: *index_bits,
            body: eliminate(clone_body(body), changed, whole, types, parameters, context),
        },
        _ => instr.clone(),
    }
}

fn eliminate_children(
    list: &Vec<(usize, IRInst)>,
    changed: &mut bool,
    whole: &Vec<(usize, IRInst)>,
    types: &Table<VariableId, VariableType>,
    parameters: &KeySet<VariableId>,
    context: &Context,
) -> (res: Vec<(usize, IRInst)>)
    ensures
        (body_models(res@), *final(changed)) == eliminated_children(
            body_models(list@),
            *old(changed),
            body_models(whole@),
            types@,
            parameters@,
            context@,
        ),
    decreases depth_body(body_models(list@)), 1int, list@.len(),
{
    let ghost all = body_models(list@);
    let ghost start = *changed;
    let mut res: Vec<(usize, IRInst)> = Vec::new();
    assert(all.subrange(0, 0) =~= Seq::empty());
    assert(body_models(res@) =~= Seq::empty());
    let mut i: usize = 0;
    while i < list.len()
        invariant
            i <= list@.len(),
            all == body_models(list@),
            (body_models(res@), *changed) == eliminated_children(
                all.subrange(0, i as int),
                start,
                body_models(whole@),
                types@,
                parameters@,
                context@,
            ),
        decreases list@.len() - i,
    {
        let ghost prefix = all.subrange(0, i + 1);
        assert(prefix.drop_last() =~= all.subrange(0, i as int));
        proof {
            lemma_item_depth(all, i as int);
        }
        let ghost before = body_models(res@);
        let child: IRInst = eliminate_child(
            list[i].0,
            &list[i].1,
            changed,
            whole,
            types,
            parameters,
            context,
        );
        res.push((list[i].0, child));
        assert(body_models(res@) =~= before.push((all[i as int].0, child.model())));
        i = i + 1;
    }
    assert(all.subrange(0, i as int) =~= all);
    res
}


proof fn lemma_inlined_child_size(
    offset: usize,
    instr: InstModel,
    done: bool,
    whole: Seq<(usize, InstModel)>,
    types: Map<VariableId, VariableType>,
    parameters: Set<VariableId>,
)
    ensures
        size(inlined_child(offset, instr, done, whole, types, parameters).0) <= size(instr),
        !done && inlined_child(offset, instr, done, whole, types, parameters).1 ==> size(
            inlined_child(offset, instr, done, whole, types, parameters).0,
        ) < size(instr),
        done ==> inlined_child(offset, instr, done, whole, types, parameters).1,
        !inlined_child(
            offset,
            instr,
            done,
            whole,
            types,
            parameters,
        ).1 ==> inlined_child(offset, instr, done, whole, types, parameters).0 == instr,
    decreases depth(instr), 0int, 0nat,
{
    match instr {
        InstModel::If { condition, then_branch, else_branch } => {
            lemma_tagged(then_branch, offset);
            lemma_tagged(else_branch, offset);
            let first = inlined(tagged(then_branch, offset), done, whole, types, parameters);
            let second = inlined(tagged(else_branch, offset), first.1, whole, types, parameters);
            lemma_inlined_size(tagged(then_branch, offset), done, whole, types, parameters);
            lemma_inlined_size(tagged(else_branch, offset), first.1, whole, types, parameters);
            assert(untagged(tagged(then_branch, offset)) =~= then_branch);
            assert(untagged(tagged(else_branch, offset)) =~= else_branch);
            lemma_untagged(first.0);
            lemma_untagged(second.0);
        },
        InstModel::While { body, .. } => {
            lemma_inlined_size(body, done, whole, types, parameters);
        },
        InstModel::ForEach { body, .. } => {
            lemma_inlined_size(body, done, whole, types, parameters);
        },
        _ => {},
    }
}

proof fn lemma_inlined_children_size(
    list: Seq<(usize, InstModel)>,
    done: bool,
    whole: Seq<(usize, InstModel)>,
    types: Map<VariableId, VariableType>,
    parameters: Set<VariableId>,
)
    ensures
        size_body(inlined_children(list, done, whole, types, parameters).0) <= size_body(list),
        !done && inlined_children(list, done, whole, types, parameters).1 ==> size_body(
            inlined_children(list, done, whole, types, parameters).0,
        ) < size_body(list),
        done ==> inlined_children(list, done, whole, types, parameters).1,
        !inlined_children(
            list,
            done,
            whole,
            types,
            parameters,
        ).1 ==> inlined_children(list, done, whole, types, parameters).0 == list,
    decreases depth_body(list), 1int, list.len(),
{
    if list.len() > 0 {
        let before = inlined_children(list.drop_last(), done, whole, types, parameters);
        let item = list[list.len() - 1];
        let child = inlined_child(item.0, item.1, before.1, whole, types, parameters);
        lemma_inlined_children_size(list.drop_last(), done, whole, types, parameters);
        lemma_inlined_child_size(item.0, item.1, before.1, whole, types, parameters);
        let made = before.0.push((item.0, child.0));
        assert(list.drop_last().push(list[list.len() - 1]) =~= list);
        assert(made.drop_last() =~= before.0);
        assert(size_body(made) == size_body(before.0) + size(child.0));
    }
}

/// Inlining a copy takes an instruction away; without one, nothing changes.
pub proof fn lemma_inlined_size(
    list: Seq<(usize, InstModel)>,
    done: bool,
    whole: Seq<(usize, InstModel)>,
    types: Map<VariableId, VariableType>,
    parameters: Set<VariableId>,
)
    ensures
        size_body(inlined(list, done, whole, types, parameters).0) <= size_body(list),
        !done && inlined(list, done, whole, types, parameters).1 ==> size_body(
            inlined(list, done, whole, types, parameters).0,
        )
            < size_body(list),
        done ==> inlined(list, done, whole, types, parameters).1,
        !inlined(
            list,
            done,
            whole,
            types,
            parameters,
        ).1 ==> inlined(list, done, whole, types, parameters).0 == list,
    decreases depth_body(list), 2int, 0nat,

{
    if !done {
        match inlined_from(list, 2, whole, types, parameters) {
            Some(made) => {
                lemma_inlined_from_size(list, 2, whole, types, parameters);
            },
            None => {
                lemma_inlined_children_size(list, false, whole, types, parameters);
            },
        }
    }
}

proof fn lemma_inlined_from_size(
    list: Seq<(usize, InstModel)>,
    index: int,
    whole: Seq<(usize, InstModel)>,
    types: Map<VariableId, VariableType>,
    parameters: Set<VariableId>,
)
    ensures
        inlined_from(list, index, whole, types, parameters) matches Some(made) ==> size_body(made)
            < size_body(list),
    decreases list.len() - index,
{
    if 2 <= index < list.len() {
        match inlined_walk(
            list[index - 2].1,
            list[index - 1].1,
            list[index].1,
            whole,
            types,
            parameters,
        ) {
            Some(instr) => {
                lemma_size_update(list, index, (list[index].0, instr));
                if let (
                    InstModel::ForEach { body: before, .. },
                    InstModel::ForEach { body: after, .. },
                ) = (list[index].1, instr) {
                    assert(size(before[1].1) == 1 && size(after[0].1) == 1);
                    assert(size(before[0].1) == 1);
                    assert(after.drop_last() =~= Seq::empty());
                    assert(size_body(after.drop_last()) == 0);
                    assert(before.drop_last().drop_last() =~= Seq::empty());
                    assert(size_body(before.drop_last().drop_last()) == 0);
                    assert(before.drop_last()[0] == before[0]);
                    assert(size_body(before.drop_last()) == 1);
                }
            },
            None => {
                lemma_inlined_from_size(list, index + 1, whole, types, parameters);
            },
        }
    }
}

proof fn lemma_eliminated_child_size(
    offset: usize,
    instr: InstModel,
    changed: bool,
    whole: Seq<(usize, InstModel)>,
    types: Map<VariableId, VariableType>,
    parameters: Set<VariableId>,
    context: ContextModel,
)
    ensures
        size(
            eliminated_child(offset, instr, changed, whole, types, parameters, context).0,
        ) <= size(instr),
        !changed && eliminated_child(
            offset,
            instr,
            changed,
            whole,
            types,
            parameters,
            context,
        ).1 ==> size(
            eliminated_child(offset, instr, changed, whole, types, parameters, context).0,
        ) < size(instr),
        changed ==> eliminated_child(offset, instr, changed, whole, types, parameters, context).1,
        !eliminated_child(
            offset,
            instr,
            changed,
            whole,
            types,
            parameters,
            context,
        ).1 ==> eliminated_child(
            offset,
            instr,
            changed,
            whole,
            types,
            parameters,
            context,
        ).0 == instr,
    decreases depth(instr), 0int, 0nat,
{
    match instr {
        InstModel::If { condition, then_branch, else_branch } => {
            lemma_tagged(then_branch, offset);
            lemma_tagged(else_branch, offset);
            let first = eliminated(
                tagged(then_branch, offset),
                changed,
                whole,
                types,
                parameters,
                context,
            );
            let second = eliminated(
                tagged(else_branch, offset),
                first.1,
                whole,
                types,
                parameters,
                context,
            );
            lemma_eliminated_size(
                tagged(then_branch, offset),
                changed,
                whole,
                types,
                parameters,
                context,
            );
            lemma_eliminated_size(
                tagged(else_branch, offset),
                first.1,
                whole,
                types,
                parameters,
                context,
            );
            assert(untagged(tagged(then_branch, offset)) =~= then_branch);
            assert(untagged(tagged(else_branch, offset)) =~= else_branch);
            lemma_untagged(first.0);
            lemma_untagged(second.0);
        },
        InstModel::While { body, .. } => {
            lemma_eliminated_size(body, changed, whole, types, parameters, context);
        },
        InstModel::ForEach { body, .. } => {
            lemma_eliminated_size(body, changed, whole, types, parameters, context);
        },
        _ => {},
    }
}

proof fn lemma_eliminated_children_size(
    list: Seq<(usize, InstModel)>,
    changed: bool,
    whole: Seq<(usize, InstModel)>,
    types: Map<VariableId, VariableType>,
    parameters: Set<VariableId>,
    context: ContextModel,
)
    ensures
        size_body(
            eliminated_children(list, changed, whole, types, parameters, context).0,
        ) <= size_body(list),
        !changed && eliminated_children(
            list,
            changed,
            whole,
            types,
            parameters,
            context,
        ).1 ==> size_body(
            eliminated_children(list, changed, whole, types, parameters, context).0,
        ) < size_body(list),
        changed ==> eliminated_children(list, changed, whole, types, parameters, context).1,
        !eliminated_children(
            list,
            changed,
            whole,
            types,
            parameters,
            context,
        ).1 ==> eliminated_children(list, changed, whole, types, parameters, context).0 == list,
    decreases depth_body(list), 1int, list.len(),
{
    if list.len() > 0 {
        let before = eliminated_children(
            list.drop_last(),
            changed,
            whole,
            types,
            parameters,
            context,
        );
        let item = list[list.len() - 1];
        let child = eliminated_child(item.0, item.1, before.1, whole, types, parameters, context);
        lemma_eliminated_children_size(
            list.drop_last(),
            changed,
            whole,
            types,
            parameters,
            context,
        );
        lemma_eliminated_child_size(item.0, item.1, before.1, whole, types, parameters, context);
        let made = before.0.push((item.0, child.0));
        assert(list.drop_last().push(list[list.len() - 1]) =~= list);
        assert(made.drop_last() =~= before.0);
        assert(size_body(made) == size_body(before.0) + size(child.0));
    }
}

/// Folding a copy takes an instruction away; without one, nothing changes.
pub proof fn lemma_eliminated_size(
    list: Seq<(usize, InstModel)>,
    changed: bool,
    whole: Seq<(usize, InstModel)>,
    types: Map<VariableId, VariableType>,
    parameters: Set<VariableId>,
    context: ContextModel,
)
    ensures
        size_body(
            eliminated(list, changed, whole, types, parameters, context).0,
        ) <= size_body(list),
        !changed && eliminated(list, changed, whole, types, parameters, context).1 ==> size_body(
            eliminated(list, changed, whole, types, parameters, context).0,
        )
            < size_body(list),
        changed ==> eliminated(list, changed, whole, types, parameters, context).1,
        !eliminated(
            list,
            changed,
            whole,
            types,
            parameters,
            context,
        ).1 ==> eliminated(list, changed, whole, types, parameters, context).0 == list,
    decreases depth_body(list), 2int, 0nat,

{
    let made = folded_from(list, 0, changed, whole, types, parameters, context);
    lemma_folded_from(list, 0, changed, whole, types, parameters, context);
    lemma_eliminated_children_size(made.0, made.1, whole, types, parameters, context);
}

/// A body with every copy inlined or folded. Each round takes an instruction
/// away, so the rounds come to an end.
pub open spec fn settled(
    body: Seq<(usize, InstModel)>,
    types: Map<VariableId, VariableType>,
    parameters: Set<VariableId>,
    context: ContextModel,
) -> Seq<(usize, InstModel)>
    decreases size_body(body),
{
    proof {
        lemma_inlined_size(body, false, body, types, parameters);
    }
    let first = inlined(body, false, body, types, parameters);
    proof {
        lemma_eliminated_size(first.0, false, body, types, parameters, context);
    }
    let second = eliminated(first.0, false, body, types, parameters, context);
    if first.1 {
        settled(first.0, types, parameters, context)
    } else if second.1 {
        settled(second.0, types, parameters, context)
    } else {
        second.0
    }
}

/// A settled body stays as it is: nothing in it is left to inline or to fold.
pub proof fn law_settled_bodies_are_stable(
    body: Seq<(usize, InstModel)>,
    types: Map<VariableId, VariableType>,
    parameters: Set<VariableId>,
    context: ContextModel,
)
    ensures
        ({
            let end = settled(body, types, parameters, context);
            &&& inlined(end, false, end, types, parameters) == (end, false)
            &&& eliminated(end, false, end, types, parameters, context) == (end, false)
            &&& settled(end, types, parameters, context) == end
        }),
    decreases size_body(body),
{
    let first = inlined(body, false, body, types, parameters);
    let second = eliminated(first.0, false, body, types, parameters, context);
    lemma_inlined_size(body, false, body, types, parameters);
    lemma_eliminated_size(first.0, false, body, types, parameters, context);
    if first.1 {
        law_settled_bodies_are_stable(first.0, types, parameters, context);
    } else if second.1 {
        law_settled_bodies_are_stable(second.0, types, parameters, context);
    }
}

fn settle(
    body: Vec<(usize, IRInst)>,
    types: &Table<VariableId, VariableType>,
    parameters: &KeySet<VariableId>,
    context: &Context,
) -> (res: Vec<(usize, IRInst)>)
    ensures
        body_models(res@) == settled(body_models(body@), types@, parameters@, context@),
{
    let ghost start = body_models(body@);
    let mut body: Vec<(usize, IRInst)> = body;
    let mut going: bool = true;
    while going
        invariant
            going ==> settled(start, types@, parameters@, context@) == settled(
                body_models(body@),
                types@,
                parameters@,
                context@,
            ),
            !going ==> settled(start, types@, parameters@, context@) == body_models(body@),
        decreases size_body(body_models(body@)), going as int,
    {
        let ghost before = body_models(body@);
        let mut done: bool = false;
        let first: Vec<(usize, IRInst)> = inline_foreach_copy(
            clone_body(&body),
            &mut done,
            &body,
            types,
            parameters,
        );
        proof {
            lemma_inlined_size(before, false, before, types@, parameters@);
            lemma_eliminated_size(
                body_models(first@),
                false,
                before,
                types@,
                parameters@,
                context@,
            );
        }
        if done {
            body = first;
        } else {
            let mut changed: bool = false;
            let second: Vec<(usize, IRInst)> = eliminate(
                first,
                &mut changed,
                &body,
                types,
                parameters,
                context,
            );
            body = second;
            going = changed;
        }
    }
    body
}

/// The types of the slots that a function gets and declares.
pub open spec fn types_of(function: FunctionModel) -> Map<VariableId, VariableType> {
    declared_by_body(slot_types(function.parameters), function.body)
}

pub open spec fn slot_types(parameters: Seq<Parameter>) -> Map<VariableId, VariableType>
    decreases parameters.len(),
{
    if parameters.len() == 0 {
        Map::empty()
    } else {
        match parameters.last() {
            Parameter::Slot { variable, ty } => slot_types(parameters.drop_last()).insert(
                variable,
                ty,
            ),
            Parameter::Argument { .. } => slot_types(parameters.drop_last()),
        }
    }
}

fn collect_types(function: &SyntheticFunction) -> (res: Table<VariableId, VariableType>)
    ensures
        res@ == types_of(function.model()),
{
    let mut types: Table<VariableId, VariableType> = Table::new();
    let parameters = &function.parameters;
    assert(parameters@.subrange(0, 0) =~= Seq::empty());
    let mut i: usize = 0;
    while i < parameters.len()
        invariant
            i <= parameters@.len(),
            types@ == slot_types(parameters@.subrange(0, i as int)),
        decreases parameters@.len() - i,
    {
        let ghost prefix = parameters@.subrange(0, i + 1);
        assert(prefix.drop_last() =~= parameters@.subrange(0, i as int));
        if let Parameter::Slot { variable, ty } = &parameters[i] {
            types.insert(*variable, ty.clone());
        }
        i = i + 1;
    }
    assert(parameters@.subrange(0, i as int) =~= parameters@);
    collect_body_types(&function.body, &mut types);
    types
}

pub open spec fn function_without_copies(function: FunctionModel) -> FunctionModel {
    FunctionModel {
        body: settled(
            function.body,
            types_of(function),
            slot_parameters(function.parameters),
            context_of(function),
        ),
        ..function
    }
}

/// A program without the copies that can be inlined or folded.
pub open spec fn program_without_copies(program: ProgramModel) -> ProgramModel {
    ProgramModel {
        functions: program.functions.map_values(|f: FunctionModel| function_without_copies(f)),
        ..program
    }
}

/// Inlines and folds the local copies of a program.
pub fn run(program: &mut Program)
    ensures
        final(program).model() == program_without_copies(old(program).model()),
{
    let ghost before = function_models(program.functions@);
    let ghost initial = *program;
    let total: usize = program.functions.len();
    let mut i: usize = 0;
    while i < total
        invariant
            i <= total,
            total == program.functions@.len(),
            total == before.len(),
            *program == (Program { functions: program.functions, ..initial }),
            forall|k: int|
                0 <= k < i ==> (#[trigger] program.functions@[k]).model()
                    == function_without_copies(before[k]),
            forall|k: int|
                i <= k < total ==> (#[trigger] program.functions@[k]).model() == before[k],
        decreases total - i,
    {
        let context: Context = Context::from_function(&program.functions[i]);
        let types: Table<VariableId, VariableType> = collect_types(&program.functions[i]);
        let parameters: KeySet<VariableId> = collect_parameters(&program.functions[i].parameters);
        let body: Vec<(usize, IRInst)> = settle(
            clone_body(&program.functions[i].body),
            &types,
            &parameters,
            &context,
        );
        program.functions[i].body = body;
        i = i + 1;
    }
    assert(program.model().functions =~= program_without_copies(initial.model()).functions);
}

} // verus!
