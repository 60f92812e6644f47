//! Questions about tier 4 expressions and instructions that several passes ask.
use super::ir::{
    body_models, models, FunctionModel, IRExpr, IRInst, InstModel, LoopCondition, Parameter,
    SyntheticFunction, VariableId, VariableType,
};
use crate::table::{KeySet, Table};
use vstd::prelude::*;

verus! {

/// Whether the expression reads the slot.
pub open spec fn mentions(expr: IRExpr, slot: VariableId) -> bool
    decreases expr,
{
    match expr {
        IRExpr::BinOp { lhs, rhs, .. } => mentions(*lhs, slot) || mentions(*rhs, slot),
        IRExpr::Deref(address) => mentions(*address, slot),
        IRExpr::CastUnknownPtr { address, .. } => mentions(*address, slot),
        IRExpr::Convert { value, .. } => mentions(*value, slot),
        IRExpr::Variable(variable) => variable == slot,
        IRExpr::Not(inner) => mentions(*inner, slot),
        _ => false,
    }
}

pub open spec fn mentions_all(list: Seq<IRExpr>, slot: VariableId) -> bool
    decreases list.len(),
{
    if list.len() == 0 {
        false
    } else {
        mentions_all(list.drop_last(), slot) || mentions(list.last(), slot)
    }
}

pub fn reads_variable(expr: &IRExpr, slot: VariableId) -> (res: bool)
    ensures
        res == mentions(*expr, slot),
    decreases expr,
{
    match expr {
        IRExpr::BinOp { lhs, rhs, .. } => reads_variable(lhs, slot) || reads_variable(rhs, slot),
        IRExpr::Deref(address) => reads_variable(address, slot),
        IRExpr::CastUnknownPtr { address, .. } => reads_variable(address, slot),
        IRExpr::Convert { value, .. } => reads_variable(value, slot),
        IRExpr::Variable(variable) => *variable == slot,
        IRExpr::Not(inner) => reads_variable(inner, slot),
        _ => false,
    }
}

pub fn reads_variable_all(list: &Vec<IRExpr>, slot: VariableId) -> (res: bool)
    ensures
        res == mentions_all(list@, slot),
{
    assert(list@.subrange(0, 0) =~= Seq::empty());
    let mut res: bool = false;
    let mut i: usize = 0;
    while i < list.len()
        invariant
            i <= list@.len(),
            res == mentions_all(list@.subrange(0, i as int), slot),
        decreases list@.len() - i,
    {
        let ghost prefix = list@.subrange(0, i + 1);
        assert(prefix.drop_last() =~= list@.subrange(0, i as int));
        res = res || reads_variable(&list[i], slot);
        i = i + 1;
    }
    assert(list@.subrange(0, i as int) =~= list@);
    res
}

/// The types with those of the declarations in an instruction.
pub open spec fn types_with(
    instr: InstModel,
    types: Map<VariableId, VariableType>,
) -> Map<VariableId, VariableType>
    decreases instr,
{
    match instr {
        InstModel::DeclareVariable { variable, ty } => types.insert(variable, ty),
        InstModel::DeclareAndAssignVariable { variable, ty, .. } => types.insert(variable, ty),
        InstModel::If { then_branch, else_branch, .. } => types_with_list(
            else_branch,
            types_with_list(then_branch, types),
        ),
        InstModel::While { body, .. } => types_with_body(body, types),
        _ => types,
    }
}

pub open spec fn types_with_list(
    list: Seq<InstModel>,
    types: Map<VariableId, VariableType>,
) -> Map<VariableId, VariableType>
    decreases list,
{
    if list.len() == 0 {
        types
    } else {
        types_with(list[list.len() - 1], types_with_list(list.drop_last(), types))
    }
}

pub open spec fn types_with_body(
    list: Seq<(usize, InstModel)>,
    types: Map<VariableId, VariableType>,
) -> Map<VariableId, VariableType>
    decreases list,
{
    if list.len() == 0 {
        types
    } else {
        types_with(list[list.len() - 1].1, types_with_body(list.drop_last(), types))
    }
}

pub fn collect_types(instr: &IRInst, types: &mut Table<VariableId, VariableType>)
    ensures
        final(types)@ == types_with(instr.model(), old(types)@),
    decreases instr,
{
    match instr {
        IRInst::DeclareVariable { variable, ty } => {
            types.insert(*variable, *ty);
        },
        IRInst::DeclareAndAssignVariable { variable, ty, .. } => {
            types.insert(*variable, *ty);
        },
        IRInst::If { then_branch, else_branch, .. } => {
            collect_types_list(then_branch, types);
            collect_types_list(else_branch, types);
        },
        IRInst::While { body, .. } => {
            collect_types_body(body, types);
        },
        _ => {},
    }
}

pub fn collect_types_list(list: &Vec<IRInst>, types: &mut Table<VariableId, VariableType>)
    ensures
        final(types)@ == types_with_list(models(list@), old(types)@),
    decreases list,
{
    let ghost all = models(list@);
    let ghost start = types@;
    assert(all.subrange(0, 0) =~= Seq::empty());
    let mut i: usize = 0;
    while i < list.len()
        invariant
            i <= list@.len(),
            all == models(list@),
            types@ == types_with_list(all.subrange(0, i as int), start),
        decreases list@.len() - i,
    {
        let ghost prefix = all.subrange(0, i + 1);
        assert(prefix.drop_last() =~= all.subrange(0, i as int));
        assert(decreases_to!(list => list@[i as int]));
        collect_types(&list[i], types);
        i = i + 1;
    }
    assert(all.subrange(0, i as int) =~= all);
}

pub fn collect_types_body(list: &Vec<(usize, IRInst)>, types: &mut Table<VariableId, VariableType>)
    ensures
        final(types)@ == types_with_body(body_models(list@), old(types)@),
    decreases list,
{
    let ghost all = body_models(list@);
    let ghost start = types@;
    assert(all.subrange(0, 0) =~= Seq::empty());
    let mut i: usize = 0;
    while i < list.len()
        invariant
            i <= list@.len(),
            all == body_models(list@),
            types@ == types_with_body(all.subrange(0, i as int), start),
        decreases list@.len() - i,
    {
        let ghost prefix = all.subrange(0, i + 1);
        assert(prefix.drop_last() =~= all.subrange(0, i as int));
        assert(decreases_to!(list => list@[i as int]));
        collect_types(&list[i].1, types);
        i = i + 1;
    }
    assert(all.subrange(0, i as int) =~= all);
}

/// The variables with those that an expression reads.
pub open spec fn variables_with(expr: IRExpr, found: Set<VariableId>) -> Set<VariableId>
    decreases expr,
{
    match expr {
        IRExpr::BinOp { lhs, rhs, .. } => variables_with(*rhs, variables_with(*lhs, found)),
        IRExpr::Deref(address) => variables_with(*address, found),
        IRExpr::CastUnknownPtr { address, .. } => variables_with(*address, found),
        IRExpr::Convert { value, .. } => variables_with(*value, found),
        IRExpr::Variable(variable) => found.insert(variable),
        IRExpr::Not(inner) => variables_with(*inner, found),
        _ => found,
    }
}

pub fn read_variables(expr: &IRExpr, found: &mut KeySet<VariableId>)
    ensures
        final(found)@ == variables_with(*expr, old(found)@),
    decreases expr,
{
    match expr {
        IRExpr::BinOp { lhs, rhs, .. } => {
            read_variables(lhs, found);
            read_variables(rhs, found);
        },
        IRExpr::Deref(address) => {
            read_variables(address, found);
        },
        IRExpr::CastUnknownPtr { address, .. } => {
            read_variables(address, found);
        },
        IRExpr::Convert { value, .. } => {
            read_variables(value, found);
        },
        IRExpr::Variable(variable) => {
            found.insert(*variable);
        },
        IRExpr::Not(inner) => {
            read_variables(inner, found);
        },
        _ => {},
    }
}

pub open spec fn variables_with_all(list: Seq<IRExpr>, found: Set<VariableId>) -> Set<VariableId>
    decreases list.len(),
{
    if list.len() == 0 {
        found
    } else {
        variables_with(list.last(), variables_with_all(list.drop_last(), found))
    }
}

fn read_variables_all(list: &Vec<IRExpr>, found: &mut KeySet<VariableId>)
    ensures
        final(found)@ == variables_with_all(list@, old(found)@),
{
    let ghost start = found@;
    assert(list@.subrange(0, 0) =~= Seq::empty());
    let mut i: usize = 0;
    while i < list.len()
        invariant
            i <= list@.len(),
            found@ == variables_with_all(list@.subrange(0, i as int), start),
        decreases list@.len() - i,
    {
        let ghost prefix = list@.subrange(0, i + 1);
        assert(prefix.drop_last() =~= list@.subrange(0, i as int));
        read_variables(&list[i], found);
        i = i + 1;
    }
    assert(list@.subrange(0, i as int) =~= list@);
}

/// The variables with those that an instruction reads.
pub open spec fn read_with(instr: InstModel, found: Set<VariableId>) -> Set<VariableId>
    decreases instr,
{
    match instr {
        InstModel::Assign { dest, src } => match dest {
            IRExpr::Variable(_) => variables_with(src, found),
            _ => variables_with(dest, variables_with(src, found)),
        },
        InstModel::Return(value) => match value {
            Some(value) => variables_with(value, found),
            None => found,
        },
        InstModel::DeclareAndAssignVariable { value, .. } => variables_with(value, found),
        InstModel::AssignVariable { value, .. } => variables_with(value, found),
        InstModel::LoadVariable { address, .. } => variables_with(address, found),
        InstModel::StoreVariable {
            address,
            variable,
        } => variables_with(address, found).insert(variable),
        InstModel::If { condition, then_branch, else_branch } => read_with_list(
            else_branch,
            read_with_list(then_branch, variables_with(condition, found)),
        ),
        InstModel::While { condition, body, .. } => read_with_body(
            body,
            variables_with(condition.check(), found),
        ),
        InstModel::CallSynthetic { arguments, .. } => variables_with_all(arguments, found),
        InstModel::Jump(target) => variables_with(target, found),
        _ => found,
    }
}

pub open spec fn read_with_list(list: Seq<InstModel>, found: Set<VariableId>) -> Set<VariableId>
    decreases list,
{
    if list.len() == 0 {
        found
    } else {
        read_with(list[list.len() - 1], read_with_list(list.drop_last(), found))
    }
}

pub open spec fn read_with_body(
    list: Seq<(usize, InstModel)>,
    found: Set<VariableId>,
) -> Set<VariableId>
    decreases list,
{
    if list.len() == 0 {
        found
    } else {
        read_with(list[list.len() - 1].1, read_with_body(list.drop_last(), found))
    }
}

pub fn instruction_reads(instr: &IRInst, found: &mut KeySet<VariableId>)
    ensures
        final(found)@ == read_with(instr.model(), old(found)@),
    decreases instr,
{
    match instr {
        IRInst::Assign { dest, src } => {
            read_variables(src, found);
            match dest {
                IRExpr::Variable(_) => {},
                _ => read_variables(dest, found),
            }
        },
        IRInst::Return(value) => {
            if let Some(value) = value {
                read_variables(value, found);
            }
        },
        IRInst::DeclareAndAssignVariable { value, .. } => {
            read_variables(value, found);
        },
        IRInst::AssignVariable { value, .. } => {
            read_variables(value, found);
        },
        IRInst::LoadVariable { address, .. } => {
            read_variables(address, found);
        },
        IRInst::StoreVariable { address, variable } => {
            read_variables(address, found);
            found.insert(*variable);
        },
        IRInst::If { condition, then_branch, else_branch } => {
            read_variables(condition, found);
            instruction_reads_list(then_branch, found);
            instruction_reads_list(else_branch, found);
        },
        IRInst::While { condition, body, .. } => {
            match condition {
                LoopCondition::Before { expression, .. } => read_variables(expression, found),
                LoopCondition::After { expression, .. } => read_variables(expression, found),
            }
            instruction_reads_body(body, found);
        },
        IRInst::CallSynthetic { arguments, .. } => {
            read_variables_all(arguments, found);
        },
        IRInst::Jump(target) => {
            read_variables(target, found);
        },
        _ => {},
    }
}

pub fn instruction_reads_list(list: &Vec<IRInst>, found: &mut KeySet<VariableId>)
    ensures
        final(found)@ == read_with_list(models(list@), old(found)@),
    decreases list,
{
    let ghost all = models(list@);
    let ghost start = found@;
    assert(all.subrange(0, 0) =~= Seq::empty());
    let mut i: usize = 0;
    while i < list.len()
        invariant
            i <= list@.len(),
            all == models(list@),
            found@ == read_with_list(all.subrange(0, i as int), start),
        decreases list@.len() - i,
    {
        let ghost prefix = all.subrange(0, i + 1);
        assert(prefix.drop_last() =~= all.subrange(0, i as int));
        assert(decreases_to!(list => list@[i as int]));
        instruction_reads(&list[i], found);
        i = i + 1;
    }
    assert(all.subrange(0, i as int) =~= all);
}

pub fn instruction_reads_body(list: &Vec<(usize, IRInst)>, found: &mut KeySet<VariableId>)
    ensures
        final(found)@ == read_with_body(body_models(list@), old(found)@),
    decreases list,
{
    let ghost all = body_models(list@);
    let ghost start = found@;
    assert(all.subrange(0, 0) =~= Seq::empty());
    let mut i: usize = 0;
    while i < list.len()
        invariant
            i <= list@.len(),
            all == body_models(list@),
            found@ == read_with_body(all.subrange(0, i as int), start),
        decreases list@.len() - i,
    {
        let ghost prefix = all.subrange(0, i + 1);
        assert(prefix.drop_last() =~= all.subrange(0, i as int));
        assert(decreases_to!(list => list@[i as int]));
        instruction_reads(&list[i].1, found);
        i = i + 1;
    }
    assert(all.subrange(0, i as int) =~= all);
}

/// The variables read outside an item of a branch.
pub open spec fn around(list: Seq<InstModel>, index: int, outside: Set<VariableId>) -> Set<
    VariableId,
> {
    read_with_list(
        list.subrange(index + 1, list.len() as int),
        read_with_list(list.subrange(0, index), outside),
    )
}

/// The variables read outside an item of a body.
pub open spec fn around_in_body(
    list: Seq<(usize, InstModel)>,
    index: int,
    outside: Set<VariableId>,
) -> Set<VariableId> {
    read_with_body(
        list.subrange(index + 1, list.len() as int),
        read_with_body(list.subrange(0, index), outside),
    )
}

pub fn reads_around(list: &Vec<IRInst>, index: usize, outside: &KeySet<VariableId>) -> (res: KeySet<
    VariableId,
>)
    requires
        index < list@.len(),
    ensures
        res@ == around(models(list@), index as int, outside@),
{
    let ghost all = models(list@);
    let mut res: KeySet<VariableId> = outside.copied();
    let ghost start = res@;
    assert(all.subrange(0, 0) =~= Seq::empty());
    let mut i: usize = 0;
    while i < index
        invariant
            i <= index < list@.len(),
            all == models(list@),
            res@ == read_with_list(all.subrange(0, i as int), start),
        decreases index - i,
    {
        let ghost prefix = all.subrange(0, i + 1);
        assert(prefix.drop_last() =~= all.subrange(0, i as int));
        instruction_reads(&list[i], &mut res);
        i = i + 1;
    }
    let ghost middle = res@;
    let total: usize = list.len();
    let mut i: usize = index + 1;
    assert(all.subrange(index + 1, i as int) =~= Seq::empty());
    while i < total
        invariant
            index < i <= total,
            total == list@.len(),
            all == models(list@),
            res@ == read_with_list(all.subrange(index + 1, i as int), middle),
        decreases total - i,
    {
        let ghost prefix = all.subrange(index + 1, i + 1);
        assert(prefix.drop_last() =~= all.subrange(index + 1, i as int));
        instruction_reads(&list[i], &mut res);
        i = i + 1;
    }
    res
}

pub fn reads_around_in_body(
    list: &Vec<(usize, IRInst)>,
    index: usize,
    outside: &KeySet<VariableId>,
) -> (res: KeySet<
    VariableId,
>)
    requires
        index < list@.len(),
    ensures
        res@ == around_in_body(body_models(list@), index as int, outside@),
{
    let ghost all = body_models(list@);
    let mut res: KeySet<VariableId> = outside.copied();
    let ghost start = res@;
    assert(all.subrange(0, 0) =~= Seq::empty());
    let mut i: usize = 0;
    while i < index
        invariant
            i <= index < list@.len(),
            all == body_models(list@),
            res@ == read_with_body(all.subrange(0, i as int), start),
        decreases index - i,
    {
        let ghost prefix = all.subrange(0, i + 1);
        assert(prefix.drop_last() =~= all.subrange(0, i as int));
        instruction_reads(&list[i].1, &mut res);
        i = i + 1;
    }
    let ghost middle = res@;
    let total: usize = list.len();
    let mut i: usize = index + 1;
    assert(all.subrange(index + 1, i as int) =~= Seq::empty());
    while i < total
        invariant
            index < i <= total,
            total == list@.len(),
            all == body_models(list@),
            res@ == read_with_body(all.subrange(index + 1, i as int), middle),
        decreases total - i,
    {
        let ghost prefix = all.subrange(index + 1, i + 1);
        assert(prefix.drop_last() =~= all.subrange(index + 1, i as int));
        instruction_reads(&list[i].1, &mut res);
        i = i + 1;
    }
    res
}

/// The types of the slots that are parameters.
pub open spec fn slot_types(parameters: Seq<Parameter>) -> Map<VariableId, VariableType>
    decreases parameters.len(),
{
    if parameters.len() == 0 {
        Map::empty()
    } else {
        let before = slot_types(parameters.drop_last());
        match parameters.last() {
            Parameter::Slot { variable, size } => before.insert(
                variable,
                VariableType::Unknown(Some(size)),
            ),
            Parameter::Argument { .. } => before,
        }
    }
}

/// The slots that are parameters.
pub open spec fn parameter_slots(parameters: Seq<Parameter>) -> Set<VariableId>
    decreases parameters.len(),
{
    if parameters.len() == 0 {
        Set::empty()
    } else {
        let before = parameter_slots(parameters.drop_last());
        match parameters.last() {
            Parameter::Slot { variable, .. } => before.insert(variable),
            Parameter::Argument { .. } => before,
        }
    }
}

/// The sizes of the arguments.
pub open spec fn argument_sizes(parameters: Seq<Parameter>) -> Map<usize, usize>
    decreases parameters.len(),
{
    if parameters.len() == 0 {
        Map::empty()
    } else {
        let before = argument_sizes(parameters.drop_last());
        match parameters.last() {
            Parameter::Slot { .. } => before,
            Parameter::Argument { ordinal, size } => before.insert(ordinal, size),
        }
    }
}

/// The types of all slots of a function.
pub open spec fn function_types(function: FunctionModel) -> Map<VariableId, VariableType> {
    types_with_body(function.body, slot_types(function.parameters))
}

pub fn types(function: &SyntheticFunction) -> (res: Table<VariableId, VariableType>)
    ensures
        res@ == function_types(function.model()),
{
    let mut res: Table<VariableId, VariableType> = Table::new();
    let list = &function.parameters;
    assert(list@.subrange(0, 0) =~= Seq::empty());
    let mut i: usize = 0;
    while i < list.len()
        invariant
            i <= list@.len(),
            res@ == slot_types(list@.subrange(0, i as int)),
        decreases list@.len() - i,
    {
        let ghost prefix = list@.subrange(0, i + 1);
        assert(prefix.drop_last() =~= list@.subrange(0, i as int));
        if let Parameter::Slot { variable, size } = list[i] {
            res.insert(variable, VariableType::Unknown(Some(size)));
        }
        i = i + 1;
    }
    assert(list@.subrange(0, i as int) =~= list@);
    collect_types_body(&function.body, &mut res);
    res
}

pub fn slots(function: &SyntheticFunction) -> (res: KeySet<VariableId>)
    ensures
        res@ == parameter_slots(function.model().parameters),
{
    let mut res: KeySet<VariableId> = KeySet::new();
    let list = &function.parameters;
    assert(list@.subrange(0, 0) =~= Seq::empty());
    let mut i: usize = 0;
    while i < list.len()
        invariant
            i <= list@.len(),
            res@ == parameter_slots(list@.subrange(0, i as int)),
        decreases list@.len() - i,
    {
        let ghost prefix = list@.subrange(0, i + 1);
        assert(prefix.drop_last() =~= list@.subrange(0, i as int));
        if let Parameter::Slot { variable, .. } = list[i] {
            res.insert(variable);
        }
        i = i + 1;
    }
    assert(list@.subrange(0, i as int) =~= list@);
    res
}

pub fn sizes(function: &SyntheticFunction) -> (res: Table<usize, usize>)
    ensures
        res@ == argument_sizes(function.model().parameters),
{
    let mut res: Table<usize, usize> = Table::new();
    let list = &function.parameters;
    assert(list@.subrange(0, 0) =~= Seq::empty());
    let mut i: usize = 0;
    while i < list.len()
        invariant
            i <= list@.len(),
            res@ == argument_sizes(list@.subrange(0, i as int)),
        decreases list@.len() - i,
    {
        let ghost prefix = list@.subrange(0, i + 1);
        assert(prefix.drop_last() =~= list@.subrange(0, i as int));
        if let Parameter::Argument { ordinal, size } = list[i] {
            res.insert(ordinal, size);
        }
        i = i + 1;
    }
    assert(list@.subrange(0, i as int) =~= list@);
    res
}

/// The type of a slot, where it has one.
pub open spec fn type_of(types: Map<VariableId, VariableType>, variable: VariableId) -> Option<
    VariableType,
> {
    if types.dom().contains(variable) {
        Some(types[variable])
    } else {
        None
    }
}

pub fn find_type(types: &Table<VariableId, VariableType>, variable: VariableId) -> (res: Option<
    VariableType,
>)
    ensures
        res == type_of(types@, variable),
{
    match types.get(variable) {
        Some(ty) => Some(*ty),
        None => None,
    }
}

/// The negation, without a double one.
pub open spec fn negated(expr: IRExpr) -> IRExpr {
    match expr {
        IRExpr::Not(inner) => *inner,
        other => IRExpr::Not(Box::new(other)),
    }
}

pub fn negate(expr: IRExpr) -> (res: IRExpr)
    ensures
        res == negated(expr),
{
    match expr {
        IRExpr::Not(inner) => *inner,
        other => IRExpr::Not(Box::new(other)),
    }
}

} // verus!
