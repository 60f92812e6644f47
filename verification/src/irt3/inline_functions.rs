//! Merge reachable synthetic functions using their complete control-flow graph.
//!
//! Tail calls become parallel assignments to destination-local slots. Linear
//! edges are eliminated to a fixed point, then postdominators keep shared tails
//! outside branch arms. Only paths without a shared continuation need copies;
//! back edges become loops, including irreducible, multi-entry cycles.
use super::cfg::{
    build, built, closed, eliminate_branches, eliminated, joins_of, node_models, postdominators,
    Node, NodeModel, Transfer, TransferModel,
};
use super::inline_variables::{loads, mentions, reads_memory, reads_variable};
use super::ir::{
    body_models, clone_body, function_models, models, FunctionModel, IRExpr, IRInst, InstModel,
    LoopId, Parameter, Program, ProgramModel, SyntheticFunction, SyntheticFunctionId, VariableId,
    VariableType,
};
use crate::numbers::Numbers;
use crate::table::{KeySet, Table};
use vstd::prelude::*;

verus! {

pub open spec fn bindings(parameters: Seq<Vec<(VariableId, usize)>>) -> Seq<
    Seq<(VariableId, usize)>,
> {
    parameters.map_values(|list: Vec<(VariableId, usize)>| list@)
}

/// The expression over the slots of the merged function.
pub open spec fn localized(
    expr: IRExpr,
    variables: Map<VariableId, VariableId>,
    natives: Map<usize, VariableId>,
) -> IRExpr
    decreases expr,
{
    match expr {
        IRExpr::BinOp { kind, lhs, rhs } => IRExpr::BinOp {
            kind,
            lhs: Box::new(localized(*lhs, variables, natives)),
            rhs: Box::new(localized(*rhs, variables, natives)),
        },
        IRExpr::Deref(address) => IRExpr::Deref(Box::new(localized(*address, variables, natives))),
        IRExpr::CastUnknownPtr { address, size } => IRExpr::CastUnknownPtr {
            address: Box::new(localized(*address, variables, natives)),
            size,
        },
        IRExpr::Argument(ordinal) => if natives.dom().contains(ordinal) {
            IRExpr::Variable(natives[ordinal])
        } else {
            expr
        },
        IRExpr::Convert { value, source, target } => IRExpr::Convert {
            value: Box::new(localized(*value, variables, natives)),
            source,
            target,
        },
        IRExpr::Variable(variable) => if variables.dom().contains(variable) {
            IRExpr::Variable(variables[variable])
        } else {
            expr
        },
        IRExpr::Not(inner) => IRExpr::Not(Box::new(localized(*inner, variables, natives))),
        _ => expr,
    }
}

fn local_expression(
    expr: &IRExpr,
    variables: &Table<VariableId, VariableId>,
    natives: &Table<usize, VariableId>,
) -> (res: IRExpr)
    ensures
        res == localized(*expr, variables@, natives@),
    decreases expr,
{
    match expr {
        IRExpr::BinOp { kind, lhs, rhs } => IRExpr::BinOp {
            kind: *kind,
            lhs: Box::new(local_expression(lhs, variables, natives)),
            rhs: Box::new(local_expression(rhs, variables, natives)),
        },
        IRExpr::Deref(address) => IRExpr::Deref(
            Box::new(local_expression(address, variables, natives)),
        ),
        IRExpr::CastUnknownPtr { address, size } => IRExpr::CastUnknownPtr {
            address: Box::new(local_expression(address, variables, natives)),
            size: *size,
        },
        IRExpr::Argument(ordinal) => match natives.get(*ordinal) {
            Some(local) => IRExpr::Variable(*local),
            None => IRExpr::Argument(*ordinal),
        },
        IRExpr::Convert { value, source, target } => IRExpr::Convert {
            value: Box::new(local_expression(value, variables, natives)),
            source: *source,
            target: *target,
        },
        IRExpr::Variable(variable) => match variables.get(*variable) {
            Some(local) => IRExpr::Variable(*local),
            None => IRExpr::Variable(*variable),
        },
        IRExpr::Not(inner) => IRExpr::Not(Box::new(local_expression(inner, variables, natives))),
        _ => expr.clone(),
    }
}

/// Whether every variable and argument of an expression has a slot.
pub open spec fn has_slots(
    expr: IRExpr,
    variables: Map<VariableId, VariableId>,
    natives: Map<usize, VariableId>,
) -> bool
    decreases expr,
{
    match expr {
        IRExpr::BinOp { lhs, rhs, .. } => has_slots(
            *lhs,
            variables,
            natives,
        ) && has_slots(*rhs, variables, natives),
        IRExpr::Deref(address) => has_slots(*address, variables, natives),
        IRExpr::CastUnknownPtr { address, .. } => has_slots(*address, variables, natives),
        IRExpr::Argument(ordinal) => natives.dom().contains(ordinal),
        IRExpr::Convert { value, .. } => has_slots(*value, variables, natives),
        IRExpr::Variable(variable) => variables.dom().contains(variable),
        IRExpr::Not(inner) => has_slots(*inner, variables, natives),
        _ => true,
    }
}

pub open spec fn has_slots_all(
    list: Seq<IRExpr>,
    variables: Map<VariableId, VariableId>,
    natives: Map<usize, VariableId>,
) -> bool
    decreases list.len(),
{
    if list.len() == 0 {
        true
    } else {
        has_slots_all(
            list.drop_last(),
            variables,
            natives,
        ) && has_slots(list.last(), variables, natives)
    }
}

fn knows_expression(
    expr: &IRExpr,
    variables: &Table<VariableId, VariableId>,
    natives: &Table<usize, VariableId>,
) -> (res: bool)
    ensures
        res == has_slots(*expr, variables@, natives@),
    decreases expr,
{
    match expr {
        IRExpr::BinOp { lhs, rhs, .. } => knows_expression(
            lhs,
            variables,
            natives,
        ) && knows_expression(rhs, variables, natives),
        IRExpr::Deref(address) => knows_expression(address, variables, natives),
        IRExpr::CastUnknownPtr { address, .. } => knows_expression(address, variables, natives),
        IRExpr::Argument(ordinal) => natives.contains(*ordinal),
        IRExpr::Convert { value, .. } => knows_expression(value, variables, natives),
        IRExpr::Variable(variable) => variables.contains(*variable),
        IRExpr::Not(inner) => knows_expression(inner, variables, natives),
        _ => true,
    }
}

fn knows_expression_all(
    list: &Vec<IRExpr>,
    variables: &Table<VariableId, VariableId>,
    natives: &Table<usize, VariableId>,
) -> (res: bool)
    ensures
        res == has_slots_all(list@, variables@, natives@),
{
    assert(list@.subrange(0, 0) =~= Seq::empty());
    let mut res: bool = true;
    let mut i: usize = 0;
    while i < list.len()
        invariant
            i <= list@.len(),
            res == has_slots_all(list@.subrange(0, i as int), variables@, natives@),
        decreases list@.len() - i,
    {
        let ghost prefix = list@.subrange(0, i + 1);
        assert(prefix.drop_last() =~= list@.subrange(0, i as int));
        res = res && knows_expression(&list[i], variables, natives);
        i = i + 1;
    }
    assert(list@.subrange(0, i as int) =~= list@);
    res
}

/// Whether everything that an instruction names has a slot, and its calls have as
/// many arguments as the called functions have parameters.
pub open spec fn is_known(
    instr: InstModel,
    variables: Map<VariableId, VariableId>,
    natives: Map<usize, VariableId>,
    parameters: Seq<Seq<(VariableId, usize)>>,
) -> bool
    decreases instr,
{
    match instr {
        InstModel::Assign { dest, src } => has_slots(
            dest,
            variables,
            natives,
        ) && has_slots(src, variables, natives),
        InstModel::Return(value) => match value {
            Some(value) => has_slots(value, variables, natives),
            None => true,
        },
        InstModel::DeclareVariable { .. } => true,
        InstModel::AssignVariable {
            variable,
            value,
        } => variables.dom().contains(variable) && has_slots(
            value,
            variables,
            natives,
        ),
        InstModel::LoadVariable {
            variable,
            address,
        } => variables.dom().contains(variable) && has_slots(
            address,
            variables,
            natives,
        ),
        InstModel::StoreVariable {
            address,
            variable,
        } => variables.dom().contains(variable) && has_slots(
            address,
            variables,
            natives,
        ),
        InstModel::If {
            condition,
            then_branch,
            else_branch,
        } => has_slots(condition, variables, natives) && is_known_list(
            then_branch,
            variables,
            natives,
            parameters,
        ) && is_known_list(else_branch, variables, natives, parameters),
        InstModel::Loop { body, .. } => is_known_body(body, variables, natives, parameters),
        InstModel::CallSynthetic {
            function,
            arguments,
        } => function.id < parameters.len() && arguments.len() == parameters[function.id as int].len()
            && has_slots_all(arguments, variables, natives),
        InstModel::Jump(target) => has_slots(target, variables, natives),
        _ => true,
    }
}

pub open spec fn is_known_list(
    list: Seq<InstModel>,
    variables: Map<VariableId, VariableId>,
    natives: Map<usize, VariableId>,
    parameters: Seq<Seq<(VariableId, usize)>>,
) -> bool
    decreases list,
{
    if list.len() == 0 {
        true
    } else {
        is_known_list(list.drop_last(), variables, natives, parameters) && is_known(
            list[list.len() - 1],
            variables,
            natives,
            parameters,
        )
    }
}

pub open spec fn is_known_body(
    list: Seq<(usize, InstModel)>,
    variables: Map<VariableId, VariableId>,
    natives: Map<usize, VariableId>,
    parameters: Seq<Seq<(VariableId, usize)>>,
) -> bool
    decreases list,
{
    if list.len() == 0 {
        true
    } else {
        is_known_body(list.drop_last(), variables, natives, parameters) && is_known(
            list[list.len() - 1].1,
            variables,
            natives,
            parameters,
        )
    }
}

fn knows_instruction(
    instr: &IRInst,
    variables: &Table<VariableId, VariableId>,
    natives: &Table<usize, VariableId>,
    parameters: &Vec<Vec<(VariableId, usize)>>,
) -> (res: bool)
    ensures
        res == is_known(instr.model(), variables@, natives@, bindings(parameters@)),
    decreases instr,
{
    match instr {
        IRInst::Assign { dest, src } => knows_expression(
            dest,
            variables,
            natives,
        ) && knows_expression(src, variables, natives),
        IRInst::Return(value) => match value {
            Some(value) => knows_expression(value, variables, natives),
            None => true,
        },
        IRInst::DeclareVariable { .. } => true,
        IRInst::AssignVariable {
            variable,
            value,
        } => variables.contains(*variable) && knows_expression(
            value,
            variables,
            natives,
        ),
        IRInst::LoadVariable {
            variable,
            address,
        } => variables.contains(*variable) && knows_expression(
            address,
            variables,
            natives,
        ),
        IRInst::StoreVariable {
            address,
            variable,
        } => variables.contains(*variable) && knows_expression(
            address,
            variables,
            natives,
        ),
        IRInst::If {
            condition,
            then_branch,
            else_branch,
        } => knows_expression(condition, variables, natives) && knows_instruction_list(
            then_branch,
            variables,
            natives,
            parameters,
        ) && knows_instruction_list(else_branch, variables, natives, parameters),
        IRInst::Loop { body, .. } => knows_instruction_body(body, variables, natives, parameters),
        IRInst::CallSynthetic {
            function,
            arguments,
        } => function.id < parameters.len() && arguments.len() == parameters[function.id].len()
            && knows_expression_all(arguments, variables, natives),
        IRInst::Jump(target) => knows_expression(target, variables, natives),
        _ => true,
    }
}

fn knows_instruction_list(
    list: &Vec<IRInst>,
    variables: &Table<VariableId, VariableId>,
    natives: &Table<usize, VariableId>,
    parameters: &Vec<Vec<(VariableId, usize)>>,
) -> (res: bool)
    ensures
        res == is_known_list(models(list@), variables@, natives@, bindings(parameters@)),
    decreases list,
{
    let ghost all = models(list@);
    assert(all.subrange(0, 0) =~= Seq::empty());
    let mut res: bool = true;
    let mut i: usize = 0;
    while i < list.len()
        invariant
            i <= list@.len(),
            all == models(list@),
            res == is_known_list(
                all.subrange(0, i as int),
                variables@,
                natives@,
                bindings(parameters@),
            ),
        decreases list@.len() - i,
    {
        let ghost prefix = all.subrange(0, i + 1);
        assert(prefix.drop_last() =~= all.subrange(0, i as int));
        assert(decreases_to!(list => list@[i as int]));
        res = res && knows_instruction(&list[i], variables, natives, parameters);
        i = i + 1;
    }
    assert(all.subrange(0, i as int) =~= all);
    res
}

fn knows_instruction_body(
    list: &Vec<(usize, IRInst)>,
    variables: &Table<VariableId, VariableId>,
    natives: &Table<usize, VariableId>,
    parameters: &Vec<Vec<(VariableId, usize)>>,
) -> (res: bool)
    ensures
        res == is_known_body(body_models(list@), variables@, natives@, bindings(parameters@)),
    decreases list,
{
    let ghost all = body_models(list@);
    assert(all.subrange(0, 0) =~= Seq::empty());
    let mut res: bool = true;
    let mut i: usize = 0;
    while i < list.len()
        invariant
            i <= list@.len(),
            all == body_models(list@),
            res == is_known_body(
                all.subrange(0, i as int),
                variables@,
                natives@,
                bindings(parameters@),
            ),
        decreases list@.len() - i,
    {
        let ghost prefix = all.subrange(0, i + 1);
        assert(prefix.drop_last() =~= all.subrange(0, i as int));
        assert(decreases_to!(list => list@[i as int]));
        res = res && knows_instruction(&list[i].1, variables, natives, parameters);
        i = i + 1;
    }
    assert(all.subrange(0, i as int) =~= all);
    res
}

/// The variables with those of an expression.
pub open spec fn variables_with(expr: IRExpr, variables: Set<VariableId>) -> Set<VariableId>
    decreases expr,
{
    match expr {
        IRExpr::BinOp { lhs, rhs, .. } => variables_with(*rhs, variables_with(*lhs, variables)),
        IRExpr::Deref(address) => variables_with(*address, variables),
        IRExpr::CastUnknownPtr { address, .. } => variables_with(*address, variables),
        IRExpr::Convert { value, .. } => variables_with(*value, variables),
        IRExpr::Variable(variable) => variables.insert(variable),
        IRExpr::Not(inner) => variables_with(*inner, variables),
        _ => variables,
    }
}

fn expression_variables(expr: &IRExpr, variables: &mut KeySet<VariableId>)
    ensures
        final(variables)@ == variables_with(*expr, old(variables)@),
    decreases expr,
{
    match expr {
        IRExpr::BinOp { lhs, rhs, .. } => {
            expression_variables(lhs, variables);
            expression_variables(rhs, variables);
        },
        IRExpr::Deref(address) => {
            expression_variables(address, variables);
        },
        IRExpr::CastUnknownPtr { address, .. } => {
            expression_variables(address, variables);
        },
        IRExpr::Convert { value, .. } => {
            expression_variables(value, variables);
        },
        IRExpr::Variable(variable) => {
            variables.insert(*variable);
        },
        IRExpr::Not(inner) => {
            expression_variables(inner, variables);
        },
        _ => {},
    }
}

pub open spec fn variables_with_all(
    list: Seq<IRExpr>,
    variables: Set<VariableId>,
) -> Set<VariableId>
    decreases list.len(),
{
    if list.len() == 0 {
        variables
    } else {
        variables_with(list.last(), variables_with_all(list.drop_last(), variables))
    }
}

fn expression_variables_all(list: &Vec<IRExpr>, variables: &mut KeySet<VariableId>)
    ensures
        final(variables)@ == variables_with_all(list@, old(variables)@),
{
    let ghost start = variables@;
    assert(list@.subrange(0, 0) =~= Seq::empty());
    let mut i: usize = 0;
    while i < list.len()
        invariant
            i <= list@.len(),
            variables@ == variables_with_all(list@.subrange(0, i as int), start),
        decreases list@.len() - i,
    {
        let ghost prefix = list@.subrange(0, i + 1);
        assert(prefix.drop_last() =~= list@.subrange(0, i as int));
        expression_variables(&list[i], variables);
        i = i + 1;
    }
    assert(list@.subrange(0, i as int) =~= list@);
}

/// The variables with those that an instruction uses.
pub open spec fn used_with(instr: InstModel, variables: Set<VariableId>) -> Set<VariableId>
    decreases instr,
{
    match instr {
        InstModel::Assign { dest, src } => variables_with(src, variables_with(dest, variables)),
        InstModel::Return(value) => match value {
            Some(value) => variables_with(value, variables),
            None => variables,
        },
        InstModel::DeclareVariable { .. } => variables,
        InstModel::AssignVariable { variable, value } => variables_with(
            value,
            variables.insert(variable),
        ),
        InstModel::LoadVariable { variable, address } => variables_with(
            address,
            variables.insert(variable),
        ),
        InstModel::StoreVariable { address, variable } => variables_with(
            address,
            variables.insert(variable),
        ),
        InstModel::If { condition, then_branch, else_branch } => used_with_list(
            else_branch,
            used_with_list(then_branch, variables_with(condition, variables)),
        ),
        InstModel::Loop { body, .. } => used_with_body(body, variables),
        InstModel::CallSynthetic { arguments, .. } => variables_with_all(arguments, variables),
        InstModel::Jump(target) => variables_with(target, variables),
        _ => variables,
    }
}

pub open spec fn used_with_list(list: Seq<InstModel>, variables: Set<VariableId>) -> Set<VariableId>
    decreases list,
{
    if list.len() == 0 {
        variables
    } else {
        used_with(list[list.len() - 1], used_with_list(list.drop_last(), variables))
    }
}

pub open spec fn used_with_body(
    list: Seq<(usize, InstModel)>,
    variables: Set<VariableId>,
) -> Set<VariableId>
    decreases list,
{
    if list.len() == 0 {
        variables
    } else {
        used_with(list[list.len() - 1].1, used_with_body(list.drop_last(), variables))
    }
}

fn instruction_variables(instr: &IRInst, variables: &mut KeySet<VariableId>)
    ensures
        final(variables)@ == used_with(instr.model(), old(variables)@),
    decreases instr,
{
    match instr {
        IRInst::Assign { dest, src } => {
            expression_variables(dest, variables);
            expression_variables(src, variables);
        },
        IRInst::Return(value) => {
            if let Some(value) = value {
                expression_variables(value, variables);
            }
        },
        IRInst::DeclareVariable { .. } => {
            
        },
        IRInst::AssignVariable { variable, value } => {
            variables.insert(*variable);
            expression_variables(value, variables);
        },
        IRInst::LoadVariable { variable, address } => {
            variables.insert(*variable);
            expression_variables(address, variables);
        },
        IRInst::StoreVariable { address, variable } => {
            variables.insert(*variable);
            expression_variables(address, variables);
        },
        IRInst::If { condition, then_branch, else_branch } => {
            expression_variables(condition, variables);
            instruction_variables_list(then_branch, variables);
            instruction_variables_list(else_branch, variables);
        },
        IRInst::Loop { body, .. } => {
            instruction_variables_body(body, variables);
        },
        IRInst::CallSynthetic { arguments, .. } => {
            expression_variables_all(arguments, variables);
        },
        IRInst::Jump(target) => {
            expression_variables(target, variables);
        },
        _ => {},
    }
}

fn instruction_variables_list(list: &Vec<IRInst>, variables: &mut KeySet<VariableId>)
    ensures
        final(variables)@ == used_with_list(models(list@), old(variables)@),
    decreases list,
{
    let ghost all = models(list@);
    let ghost start = variables@;
    assert(all.subrange(0, 0) =~= Seq::empty());
    let mut i: usize = 0;
    while i < list.len()
        invariant
            i <= list@.len(),
            all == models(list@),
            variables@ == used_with_list(all.subrange(0, i as int), start),
        decreases list@.len() - i,
    {
        let ghost prefix = all.subrange(0, i + 1);
        assert(prefix.drop_last() =~= all.subrange(0, i as int));
        assert(decreases_to!(list => list@[i as int]));
        instruction_variables(&list[i], variables);
        i = i + 1;
    }
    assert(all.subrange(0, i as int) =~= all);
}

fn instruction_variables_body(list: &Vec<(usize, IRInst)>, variables: &mut KeySet<VariableId>)
    ensures
        final(variables)@ == used_with_body(body_models(list@), old(variables)@),
    decreases list,
{
    let ghost all = body_models(list@);
    let ghost start = variables@;
    assert(all.subrange(0, 0) =~= Seq::empty());
    let mut i: usize = 0;
    while i < list.len()
        invariant
            i <= list@.len(),
            all == body_models(list@),
            variables@ == used_with_body(all.subrange(0, i as int), start),
        decreases list@.len() - i,
    {
        let ghost prefix = all.subrange(0, i + 1);
        assert(prefix.drop_last() =~= all.subrange(0, i as int));
        assert(decreases_to!(list => list@[i as int]));
        instruction_variables(&list[i].1, variables);
        i = i + 1;
    }
    assert(all.subrange(0, i as int) =~= all);
}


// ---------------------------------------------------------------------------
// Slots

/// The slots of the merged function: which slot stands for a variable, and the
/// declarations of all.
pub struct SlotsModel {
    pub numbers: Numbers,
    pub variables: Map<VariableId, VariableId>,
    pub declarations: Seq<(usize, InstModel)>,
}

struct Slots {
    numbers: Numbers,
    variables: Table<VariableId, VariableId>,
    declarations: Vec<(usize, IRInst)>,
}

/// The variable of the merged function with a number.
pub open spec fn slot(number: usize) -> VariableId {
    VariableId { owner: SyntheticFunctionId { id: 0 }, id: number }
}

impl SlotsModel {
    /// The slots with a new one, which is the variable with the next number.
    pub open spec fn fresh(self, offset: usize, ty: VariableType) -> SlotsModel {
        SlotsModel {
            numbers: self.numbers.after(),
            declarations: self.declarations.push(
                (
                    offset,
                    InstModel::DeclareVariable { variable: slot(self.numbers.next), ty },
                ),
            ),
            ..self
        }
    }

    /// The slots with one for a variable.
    pub open spec fn local(
        self,
        source: VariableId,
        offset: usize,
        ty: VariableType,
    ) -> SlotsModel {
        if self.variables.dom().contains(source) {
            self
        } else {
            let after = self.fresh(offset, ty);
            SlotsModel {
                variables: after.variables.insert(source, slot(self.numbers.next)),
                ..after
            }
        }
    }
}

pub open spec fn no_slots() -> SlotsModel {
    SlotsModel {
        numbers: Numbers { next: 0, spent: false },
        variables: Map::empty(),
        declarations: Seq::empty(),
    }
}

impl Slots {
    spec fn model(self) -> SlotsModel {
        SlotsModel {
            numbers: self.numbers,
            variables: self.variables@,
            declarations: body_models(self.declarations@),
        }
    }

    fn new() -> (res: Self)
        ensures
            res.model() == no_slots(),
    {
        let res = Slots {
            numbers: Numbers { next: 0, spent: false },
            variables: Table::new(),
            declarations: Vec::new(),
        };
        assert(res.model().declarations =~= Seq::<(usize, InstModel)>::empty());
        res
    }

    fn fresh(&mut self, offset: usize, ty: VariableType) -> (res: VariableId)
        ensures
            res == slot(old(self).numbers.next),
            final(self).model() == old(self).model().fresh(offset, ty),
    {
        let variable: VariableId = VariableId {
            owner: SyntheticFunctionId { id: 0 },
            id: self.numbers.next,
        };
        self.numbers.advance();
        let ghost before = body_models(self.declarations@);
        self.declarations.push((offset, IRInst::DeclareVariable { variable, ty }));
        assert(body_models(self.declarations@) =~= before.push(
            (offset, InstModel::DeclareVariable { variable, ty }),
        ));
        variable
    }

    fn local(&mut self, source: VariableId, offset: usize, ty: VariableType) -> (res: VariableId)
        ensures
            final(self).model() == old(self).model().local(source, offset, ty),
            final(self).model().variables.dom().contains(source),
            res == final(self).model().variables[source],
    {
        if let Some(variable) = self.variables.get(source) {
            return *variable;
        }
        let variable: VariableId = self.fresh(offset, ty);
        self.variables.insert(source, variable);
        variable
    }
}

/// The slots with those of the variables that an instruction declares.
pub open spec fn collected(slots: SlotsModel, offset: usize, instr: InstModel) -> SlotsModel
    decreases instr,
{
    match instr {
        InstModel::DeclareVariable { variable, ty } => slots.local(variable, offset, ty),
        InstModel::If { then_branch, else_branch, .. } => collected_list(
            collected_list(slots, offset, then_branch),
            offset,
            else_branch,
        ),
        InstModel::Loop { body, .. } => collected_body(slots, body),
        _ => slots,
    }
}

pub open spec fn collected_list(
    slots: SlotsModel,
    offset: usize,
    list: Seq<InstModel>,
) -> SlotsModel
    decreases list,
{
    if list.len() == 0 {
        slots
    } else {
        collected(
            collected_list(slots, offset, list.drop_last()),
            offset,
            list[list.len() - 1],
        )
    }
}

pub open spec fn collected_body(slots: SlotsModel, list: Seq<(usize, InstModel)>) -> SlotsModel
    decreases list,
{
    if list.len() == 0 {
        slots
    } else {
        collected(
            collected_body(slots, list.drop_last()),
            list[list.len() - 1].0,
            list[list.len() - 1].1,
        )
    }
}

fn collect(slots: &mut Slots, offset: usize, instr: &IRInst)
    ensures
        final(slots).model() == collected(old(slots).model(), offset, instr.model()),
    decreases instr,
{
    match instr {
        IRInst::DeclareVariable { variable, ty } => {
            slots.local(*variable, offset, *ty);
        },
        IRInst::If { then_branch, else_branch, .. } => {
            collect_list(slots, offset, then_branch);
            collect_list(slots, offset, else_branch);
        },
        IRInst::Loop { body, .. } => {
            collect_body(slots, body);
        },
        _ => {},
    }
}

fn collect_list(slots: &mut Slots, offset: usize, list: &Vec<IRInst>)
    ensures
        final(slots).model() == collected_list(old(slots).model(), offset, models(list@)),
    decreases list,
{
    let ghost all = models(list@);
    let ghost start = slots.model();
    assert(all.subrange(0, 0) =~= Seq::empty());
    let mut i: usize = 0;
    while i < list.len()
        invariant
            i <= list@.len(),
            all == models(list@),
            slots.model() == collected_list(start, offset, all.subrange(0, i as int)),
        decreases list@.len() - i,
    {
        let ghost prefix = all.subrange(0, i + 1);
        assert(prefix.drop_last() =~= all.subrange(0, i as int));
        assert(decreases_to!(list => list@[i as int]));
        collect(slots, offset, &list[i]);
        i = i + 1;
    }
    assert(all.subrange(0, i as int) =~= all);
}

fn collect_body(slots: &mut Slots, list: &Vec<(usize, IRInst)>)
    ensures
        final(slots).model() == collected_body(old(slots).model(), body_models(list@)),
    decreases list,
{
    let ghost all = body_models(list@);
    let ghost start = slots.model();
    assert(all.subrange(0, 0) =~= Seq::empty());
    let mut i: usize = 0;
    while i < list.len()
        invariant
            i <= list@.len(),
            all == body_models(list@),
            slots.model() == collected_body(start, all.subrange(0, i as int)),
        decreases list@.len() - i,
    {
        let ghost prefix = all.subrange(0, i + 1);
        assert(prefix.drop_last() =~= all.subrange(0, i as int));
        assert(decreases_to!(list => list@[i as int]));
        collect(slots, list[i].0, &list[i].1);
        i = i + 1;
    }
    assert(all.subrange(0, i as int) =~= all);
}

// ---------------------------------------------------------------------------
// Calls as assignments

/// The assignments that a call needs: those that would change their slot.
pub open spec fn needed(
    arguments: Seq<IRExpr>,
    bound: Seq<(VariableId, usize)>,
    variables: Map<VariableId, VariableId>,
    natives: Map<usize, VariableId>,
    count: int,
) -> Seq<(VariableId, usize, IRExpr)>
    decreases count,
{
    if count <= 0 {
        Seq::empty()
    } else {
        let before = needed(arguments, bound, variables, natives, count - 1);
        let value = localized(arguments[count - 1], variables, natives);
        let (variable, size) = bound[count - 1];
        if value == IRExpr::Variable(variable) {
            before
        } else {
            before.push((variable, size, value))
        }
    }
}

pub open spec fn shorter(a: nat, b: nat) -> int {
    if a <= b {
        a as int
    } else {
        b as int
    }
}

/// Whether an assignment reads a slot that another one changes.
pub open spec fn conflicts(assignments: Seq<(VariableId, usize, IRExpr)>) -> bool {
    exists|i: int, j: int|
        0 <= i < assignments.len() && 0 <= j < assignments.len() && #[trigger] overwrites(
            assignments,
            i,
            j,
        )
}

pub open spec fn overwrites(
    assignments: Seq<(VariableId, usize, IRExpr)>,
    i: int,
    j: int,
) -> bool {
    assignments[j].0 != assignments[i].0 && mentions(assignments[i].2, assignments[j].0)
}

/// Every value in a temporary of its own.
pub open spec fn staged(
    slots: SlotsModel,
    offset: usize,
    assignments: Seq<(VariableId, usize, IRExpr)>,
) -> (SlotsModel, Seq<(usize, InstModel)>, Seq<(VariableId, usize, IRExpr)>)
    decreases assignments.len(),
{
    if assignments.len() == 0 {
        (slots, Seq::empty(), Seq::empty())
    } else {
        let before = staged(slots, offset, assignments.drop_last());
        let (variable, size, value) = assignments.last();
        let temporary = slot(before.0.numbers.next);
        (
            before.0.fresh(offset, VariableType::Unknown(Some(size))),
            before.1.push((offset, InstModel::AssignVariable { variable: temporary, value })),
            before.2.push((variable, size, IRExpr::Variable(temporary))),
        )
    }
}

pub open spec fn assignments_at(
    offset: usize,
    assignments: Seq<(VariableId, usize, IRExpr)>,
) -> Seq<(usize, InstModel)> {
    assignments.map_values(
        |a: (VariableId, usize, IRExpr)|
            (offset, InstModel::AssignVariable { variable: a.0, value: a.2 }),
    )
}

/// The assignments in front of a call. Every right-hand side is evaluated before
/// the parameter slots change: `f(b, a)` must not become `a = b; b = a`.
pub open spec fn passed(
    slots: SlotsModel,
    offset: usize,
    assignments: Seq<(VariableId, usize, IRExpr)>,
) -> (SlotsModel, Seq<(usize, InstModel)>) {
    if conflicts(assignments) {
        let made = staged(slots, offset, assignments);
        (made.0, made.1 + assignments_at(offset, made.2))
    } else {
        (slots, assignments_at(offset, assignments))
    }
}

/// An instruction over the slots of the merged function, with what its calls
/// assign in front of it.
pub open spec fn sequenced(
    slots: SlotsModel,
    offset: usize,
    instr: InstModel,
    natives: Map<usize, VariableId>,
    parameters: Seq<Seq<(VariableId, usize)>>,
) -> (SlotsModel, Seq<(usize, InstModel)>)
    decreases instr,
{
    let variables = slots.variables;
    match instr {
        InstModel::DeclareVariable { .. } => (slots, Seq::empty()),
        InstModel::Assign { dest, src } => (
            slots,
            seq![
                (
                    offset,
                    InstModel::Assign {
                        dest: localized(dest, variables, natives),
                        src: localized(src, variables, natives),
                    },
                ),
            ],
        ),
        InstModel::AssignVariable { variable, value } => (
            slots,
            seq![
                (
                    offset,
                    InstModel::AssignVariable {
                        variable: variables[variable],
                        value: localized(value, variables, natives),
                    },
                ),
            ],
        ),
        InstModel::LoadVariable { variable, address } => (
            slots,
            seq![
                (
                    offset,
                    InstModel::LoadVariable {
                        variable: variables[variable],
                        address: localized(address, variables, natives),
                    },
                ),
            ],
        ),
        InstModel::StoreVariable { address, variable } => (
            slots,
            seq![
                (
                    offset,
                    InstModel::StoreVariable {
                        address: localized(address, variables, natives),
                        variable: variables[variable],
                    },
                ),
            ],
        ),
        InstModel::Return(Some(value)) => (
            slots,
            seq![(offset, InstModel::Return(Some(localized(value, variables, natives))))],
        ),
        InstModel::Jump(value) => (
            slots,
            seq![(offset, InstModel::Jump(localized(value, variables, natives)))],
        ),
        InstModel::If { condition, then_branch, else_branch } => {
            let first = sequenced_list(slots, offset, then_branch, natives, parameters);
            let second = sequenced_list(first.0, offset, else_branch, natives, parameters);
            (
                second.0,
                seq![
                    (
                        offset,
                        InstModel::If {
                            condition: localized(condition, variables, natives),
                            then_branch: first.1,
                            else_branch: second.1,
                        },
                    ),
                ],
            )
        },
        InstModel::Loop { label, entry_offset, body } => {
            let inner = sequenced_body(slots, body, natives, parameters);
            (
                inner.0,
                seq![(offset, InstModel::Loop { label, entry_offset, body: inner.1 })],
            )
        },
        InstModel::CallSynthetic { function, arguments } => {
            let bound = parameters[function.id as int];
            let made = passed(
                slots,
                offset,
                needed(
                    arguments,
                    bound,
                    variables,
                    natives,
                    shorter(arguments.len(), bound.len()),
                ),
            );
            (
                made.0,
                made.1.push(
                    (offset, InstModel::CallSynthetic { function, arguments: Seq::empty() }),
                ),
            )
        },
        _ => (slots, seq![(offset, instr)]),
    }
}

pub open spec fn without_offsets(list: Seq<(usize, InstModel)>) -> Seq<InstModel> {
    list.map_values(|item: (usize, InstModel)| item.1)
}

pub open spec fn sequenced_list(
    slots: SlotsModel,
    offset: usize,
    list: Seq<InstModel>,
    natives: Map<usize, VariableId>,
    parameters: Seq<Seq<(VariableId, usize)>>,
) -> (SlotsModel, Seq<InstModel>)
    decreases list,
{
    if list.len() == 0 {
        (slots, Seq::empty())
    } else {
        let before = sequenced_list(slots, offset, list.drop_last(), natives, parameters);
        let last = sequenced(before.0, offset, list[list.len() - 1], natives, parameters);
        (last.0, before.1 + without_offsets(last.1))
    }
}

pub open spec fn sequenced_body(
    slots: SlotsModel,
    list: Seq<(usize, InstModel)>,
    natives: Map<usize, VariableId>,
    parameters: Seq<Seq<(VariableId, usize)>>,
) -> (SlotsModel, Seq<(usize, InstModel)>)
    decreases list,
{
    if list.len() == 0 {
        (slots, Seq::empty())
    } else {
        let before = sequenced_body(slots, list.drop_last(), natives, parameters);
        let item = list[list.len() - 1];
        let last = sequenced(before.0, item.0, item.1, natives, parameters);
        (last.0, before.1 + last.1)
    }
}

fn find_needed(
    arguments: &Vec<IRExpr>,
    bound: &Vec<(VariableId, usize)>,
    variables: &Table<VariableId, VariableId>,
    natives: &Table<usize, VariableId>,
) -> (res: Vec<(VariableId, usize, IRExpr)>)
    ensures
        res@ == needed(
            arguments@,
            bound@,
            variables@,
            natives@,
            shorter(arguments@.len(), bound@.len()),
        ),
{
    let mut res: Vec<(VariableId, usize, IRExpr)> = Vec::new();
    let mut i: usize = 0;
    while i < arguments.len() && i < bound.len()
        invariant
            i <= arguments@.len(),
            i <= bound@.len(),
            res@ == needed(arguments@, bound@, variables@, natives@, i as int),
        decreases arguments@.len() - i,
    {
        let value: IRExpr = local_expression(&arguments[i], variables, natives);
        let (variable, size) = bound[i];
        let same: bool = match &value {
            IRExpr::Variable(found) => *found == variable,
            _ => false,
        };
        if !same {
            res.push((variable, size, value));
        }
        i = i + 1;
    }
    res
}

fn needs_staging(assignments: &Vec<(VariableId, usize, IRExpr)>) -> (res: bool)
    ensures
        res == conflicts(assignments@),
{
    let mut i: usize = 0;
    while i < assignments.len()
        invariant
            i <= assignments@.len(),
            forall|k: int, j: int|
                0 <= k < i && 0 <= j < assignments@.len() ==> !#[trigger] overwrites(
                    assignments@,
                    k,
                    j,
                ),
        decreases assignments@.len() - i,
    {
        let mut j: usize = 0;
        while j < assignments.len()
            invariant
                i < assignments@.len(),
                j <= assignments@.len(),
                forall|k: int|
                    0 <= k < j ==> !#[trigger] overwrites(assignments@, i as int, k),
            decreases assignments@.len() - j,
        {
            if assignments[j].0 != assignments[i].0 && reads_variable(
                &assignments[i].2,
                assignments[j].0,
            ) {
                assert(overwrites(assignments@, i as int, j as int));
                return true;
            }
            j = j + 1;
        }
        i = i + 1;
    }
    false
}

fn put_assignments(
    offset: usize,
    assignments: &Vec<(VariableId, usize, IRExpr)>,
    out: &mut Vec<(usize, IRInst)>,
)
    ensures
        body_models(final(out)@) == body_models(old(out)@) + assignments_at(offset, assignments@),
{
    let ghost before = body_models(out@);
    assert(body_models(out@) =~= before + assignments_at(offset, assignments@.subrange(0, 0)));
    let mut i: usize = 0;
    while i < assignments.len()
        invariant
            i <= assignments@.len(),
            body_models(out@) == before + assignments_at(
                offset,
                assignments@.subrange(0, i as int),
            ),
        decreases assignments@.len() - i,
    {
        let ghost last = body_models(out@);
        let variable: VariableId = assignments[i].0;
        let value: IRExpr = assignments[i].2.clone();
        out.push((offset, IRInst::AssignVariable { variable, value }));
        i = i + 1;
        proof {
            assert(body_models(out@) =~= last.push(
                (offset, InstModel::AssignVariable { variable, value }),
            ));
            assert(body_models(out@) =~= before + assignments_at(
                offset,
                assignments@.subrange(0, i as int),
            ));
        }
    }
    assert(assignments@.subrange(0, i as int) =~= assignments@);
}

fn stage(
    slots: &mut Slots,
    offset: usize,
    assignments: &Vec<(VariableId, usize, IRExpr)>,
    out: &mut Vec<(usize, IRInst)>,
) -> (res: Vec<(VariableId, usize, IRExpr)>)
    ensures
        ({
            let made = staged(old(slots).model(), offset, assignments@);
            &&& final(slots).model() == made.0
            &&& body_models(final(out)@) == body_models(old(out)@) + made.1
            &&& res@ == made.2
        }),
{
    let ghost start = slots.model();
    let ghost before = body_models(out@);
    let mut res: Vec<(VariableId, usize, IRExpr)> = Vec::new();
    assert(assignments@.subrange(0, 0) =~= Seq::empty());
    assert(body_models(out@) =~= before + Seq::<(usize, InstModel)>::empty());
    let mut i: usize = 0;
    while i < assignments.len()
        invariant
            i <= assignments@.len(),
            ({
                let made = staged(start, offset, assignments@.subrange(0, i as int));
                &&& slots.model() == made.0
                &&& body_models(out@) == before + made.1
                &&& res@ == made.2
            }),
        decreases assignments@.len() - i,
    {
        let ghost prefix = assignments@.subrange(0, i + 1);
        assert(prefix.drop_last() =~= assignments@.subrange(0, i as int));
        let ghost last = body_models(out@);
        let variable: VariableId = assignments[i].0;
        let size: usize = assignments[i].1;
        let value: IRExpr = assignments[i].2.clone();
        let temporary: VariableId = slots.fresh(
            offset,
            VariableType::Unknown(Some(size)),
        );
        out.push((offset, IRInst::AssignVariable { variable: temporary, value }));
        res.push((variable, size, IRExpr::Variable(temporary)));
        i = i + 1;
        proof {
            assert(body_models(out@) =~= last.push(
                (offset, InstModel::AssignVariable { variable: temporary, value }),
            ));
            let made = staged(start, offset, prefix);
            assert(body_models(out@) =~= before + made.1);
        }
    }
    assert(assignments@.subrange(0, i as int) =~= assignments@);
    res
}

fn pass(
    slots: &mut Slots,
    offset: usize,
    assignments: &Vec<(VariableId, usize, IRExpr)>,
    out: &mut Vec<(usize, IRInst)>,
)
    ensures
        ({
            let made = passed(old(slots).model(), offset, assignments@);
            &&& final(slots).model() == made.0
            &&& body_models(final(out)@) == body_models(old(out)@) + made.1
        }),
{
    let ghost start = slots.model();
    let ghost before = body_models(out@);
    if needs_staging(assignments) {
        let moved: Vec<(VariableId, usize, IRExpr)> = stage(slots, offset, assignments, out);
        put_assignments(offset, &moved, out);
        proof {
            let made = staged(start, offset, assignments@);
            assert(body_models(out@) =~= before + (made.1 + assignments_at(offset, made.2)));
        }
    } else {
        put_assignments(offset, assignments, out);
    }
}

/// The slot of a variable that has one.
fn slot_of(slots: &Slots, variable: VariableId) -> (res: VariableId)
    requires
        slots.model().variables.dom().contains(variable),
    ensures
        res == slots.model().variables[variable],
{
    match slots.variables.get(variable) {
        Some(local) => *local,
        None => variable,
    }
}

proof fn lemma_staged_keeps_variables(
    slots: SlotsModel,
    offset: usize,
    assignments: Seq<(VariableId, usize, IRExpr)>,
)
    ensures
        staged(slots, offset, assignments).0.variables == slots.variables,
    decreases assignments.len(),
{
    if assignments.len() > 0 {
        lemma_staged_keeps_variables(slots, offset, assignments.drop_last());
    }
}

fn push_at(out: &mut Vec<(usize, IRInst)>, offset: usize, instr: IRInst)
    ensures
        body_models(final(out)@) == body_models(old(out)@).push((offset, instr.model())),
        body_models(final(out)@) == body_models(old(out)@) + seq![(offset, instr.model())],
{
    let ghost before = body_models(out@);
    let ghost model = instr.model();
    out.push((offset, instr));
    assert(body_models(out@) =~= before.push((offset, model)));
    assert(body_models(out@) =~= before + seq![(offset, model)]);
}

#[verifier::rlimit(40)]
fn sequence_inst(
    slots: &mut Slots,
    offset: usize,
    instr: &IRInst,
    natives: &Table<usize, VariableId>,
    parameters: &Vec<Vec<(VariableId, usize)>>,
    out: &mut Vec<(usize, IRInst)>,
)
    requires
        is_known(
            instr.model(),
            old(slots).model().variables,
            natives@,
            bindings(parameters@),
        ),
    ensures
        ({
            let made = sequenced(
                old(slots).model(),
                offset,
                instr.model(),
                natives@,
                bindings(parameters@),
            );
            &&& final(slots).model() == made.0
            &&& body_models(final(out)@) == body_models(old(out)@) + made.1
        }),
        final(slots).model().variables == old(slots).model().variables,
    decreases instr,
{
    let ghost start = slots.model();
    let ghost before = body_models(out@);
    match instr {
        IRInst::DeclareVariable { .. } => {
            assert(body_models(out@) =~= before + Seq::<(usize, InstModel)>::empty());
        },
        IRInst::Assign { dest, src } => {
            let dest: IRExpr = local_expression(dest, &slots.variables, natives);
            let src: IRExpr = local_expression(src, &slots.variables, natives);
            push_at(out, offset, IRInst::Assign { dest, src });
        },
        IRInst::AssignVariable { variable, value } => {
            let variable: VariableId = slot_of(slots, *variable);
            let value: IRExpr = local_expression(value, &slots.variables, natives);
            push_at(out, offset, IRInst::AssignVariable { variable, value });
        },
        IRInst::LoadVariable { variable, address } => {
            let variable: VariableId = slot_of(slots, *variable);
            let address: IRExpr = local_expression(address, &slots.variables, natives);
            push_at(out, offset, IRInst::LoadVariable { variable, address });
        },
        IRInst::StoreVariable { address, variable } => {
            let variable: VariableId = slot_of(slots, *variable);
            let address: IRExpr = local_expression(address, &slots.variables, natives);
            push_at(out, offset, IRInst::StoreVariable { address, variable });
        },
        IRInst::Return(Some(value)) => {
            let value: IRExpr = local_expression(value, &slots.variables, natives);
            push_at(out, offset, IRInst::Return(Some(value)));
        },
        IRInst::Jump(value) => {
            let value: IRExpr = local_expression(value, &slots.variables, natives);
            push_at(out, offset, IRInst::Jump(value));
        },
        IRInst::If { condition, then_branch, else_branch } => {
            let condition: IRExpr = local_expression(condition, &slots.variables, natives);
            let first: Vec<IRInst> = sequence_list(
                slots,
                offset,
                then_branch,
                natives,
                parameters,
            );
            let second: Vec<IRInst> = sequence_list(
                slots,
                offset,
                else_branch,
                natives,
                parameters,
            );
            push_at(
                out,
                offset,
                IRInst::If { condition, then_branch: first, else_branch: second },
            );
        },
        IRInst::Loop { label, entry_offset, body } => {
            let inner: Vec<(usize, IRInst)> = sequence(slots, body, natives, parameters);
            push_at(
                out,
                offset,
                IRInst::Loop { label: *label, entry_offset: *entry_offset, body: inner },
            );
        },
        IRInst::CallSynthetic { function, arguments } => {
            let bound = &parameters[function.id];
            assert(bindings(parameters@)[function.id as int] == bound@);
            let assignments: Vec<(VariableId, usize, IRExpr)> = find_needed(
                arguments,
                bound,
                &slots.variables,
                natives,
            );
            pass(slots, offset, &assignments, out);
            let ghost middle = body_models(out@);
            let none: Vec<IRExpr> = Vec::new();
            push_at(
                out,
                offset,
                IRInst::CallSynthetic { function: *function, arguments: none },
            );
            proof {
                lemma_staged_keeps_variables(start, offset, assignments@);
                let made = sequenced(
                    start,
                    offset,
                    instr.model(),
                    natives@,
                    bindings(parameters@),
                );
                assert(none@ =~= Seq::<IRExpr>::empty());
                assert(body_models(out@) =~= before + made.1);
            }
        },
        other => {
            push_at(out, offset, other.clone());
        },
    }
}

fn sequence_list(
    slots: &mut Slots,
    offset: usize,
    list: &Vec<IRInst>,
    natives: &Table<usize, VariableId>,
    parameters: &Vec<Vec<(VariableId, usize)>>,
) -> (res: Vec<IRInst>)
    requires
        is_known_list(
            models(list@),
            old(slots).model().variables,
            natives@,
            bindings(parameters@),
        ),
    ensures
        ({
            let made = sequenced_list(
                old(slots).model(),
                offset,
                models(list@),
                natives@,
                bindings(parameters@),
            );
            &&& final(slots).model() == made.0
            &&& models(res@) == made.1
        }),
        final(slots).model().variables == old(slots).model().variables,
    decreases list,
{
    let ghost all = models(list@);
    let ghost start = slots.model();
    let mut res: Vec<IRInst> = Vec::new();
    assert(all.subrange(0, 0) =~= Seq::empty());
    assert(models(res@) =~= Seq::<InstModel>::empty());
    let mut i: usize = 0;
    while i < list.len()
        invariant
            i <= list@.len(),
            all == models(list@),
            is_known_list(all, start.variables, natives@, bindings(parameters@)),
            slots.model().variables == start.variables,
            ({
                let made = sequenced_list(
                    start,
                    offset,
                    all.subrange(0, i as int),
                    natives@,
                    bindings(parameters@),
                );
                &&& slots.model() == made.0
                &&& models(res@) == made.1
            }),
        decreases list@.len() - i,
    {
        let ghost prefix = all.subrange(0, i + 1);
        assert(prefix.drop_last() =~= all.subrange(0, i as int));
        assert(decreases_to!(list => list@[i as int]));
        proof {
            lemma_known_at(all, start.variables, natives@, bindings(parameters@), i as int);
        }
        let mut made: Vec<(usize, IRInst)> = Vec::new();
        assert(body_models(made@) =~= Seq::<(usize, InstModel)>::empty());
        sequence_inst(slots, offset, &list[i], natives, parameters, &mut made);
        let ghost before = models(res@);
        let ghost more = body_models(made@);
        append_instructions(&mut res, &made);
        assert(more =~= Seq::<(usize, InstModel)>::empty() + more);
        i = i + 1;
    }
    assert(all.subrange(0, i as int) =~= all);
    res
}

fn append_instructions(out: &mut Vec<IRInst>, more: &Vec<(usize, IRInst)>)
    ensures
        models(final(out)@) == models(old(out)@) + without_offsets(body_models(more@)),
{
    let ghost before = models(out@);
    let ghost all = body_models(more@);
    assert(models(out@) =~= before + without_offsets(all.subrange(0, 0)));
    let mut i: usize = 0;
    while i < more.len()
        invariant
            i <= more@.len(),
            all == body_models(more@),
            models(out@) == before + without_offsets(all.subrange(0, i as int)),
        decreases more@.len() - i,
    {
        let ghost last = models(out@);
        out.push(more[i].1.clone());
        i = i + 1;
        proof {
            assert(models(out@) =~= last.push(all[i - 1].1));
            assert(models(out@) =~= before + without_offsets(all.subrange(0, i as int)));
        }
    }
    assert(all.subrange(0, i as int) =~= all);
}

proof fn lemma_known_at(
    list: Seq<InstModel>,
    variables: Map<VariableId, VariableId>,
    natives: Map<usize, VariableId>,
    parameters: Seq<Seq<(VariableId, usize)>>,
    at: int,
)
    requires
        is_known_list(list, variables, natives, parameters),
        0 <= at < list.len(),
    ensures
        is_known(list[at], variables, natives, parameters),
    decreases list.len(),
{
    if at < list.len() - 1 {
        lemma_known_at(list.drop_last(), variables, natives, parameters, at);
    }
}

proof fn lemma_known_in_body(
    list: Seq<(usize, InstModel)>,
    variables: Map<VariableId, VariableId>,
    natives: Map<usize, VariableId>,
    parameters: Seq<Seq<(VariableId, usize)>>,
    at: int,
)
    requires
        is_known_body(list, variables, natives, parameters),
        0 <= at < list.len(),
    ensures
        is_known(list[at].1, variables, natives, parameters),
    decreases list.len(),
{
    if at < list.len() - 1 {
        lemma_known_in_body(list.drop_last(), variables, natives, parameters, at);
    }
}

fn sequence(
    slots: &mut Slots,
    list: &Vec<(usize, IRInst)>,
    natives: &Table<usize, VariableId>,
    parameters: &Vec<Vec<(VariableId, usize)>>,
) -> (res: Vec<(usize, IRInst)>)
    requires
        is_known_body(
            body_models(list@),
            old(slots).model().variables,
            natives@,
            bindings(parameters@),
        ),
    ensures
        ({
            let made = sequenced_body(
                old(slots).model(),
                body_models(list@),
                natives@,
                bindings(parameters@),
            );
            &&& final(slots).model() == made.0
            &&& body_models(res@) == made.1
        }),
        final(slots).model().variables == old(slots).model().variables,
    decreases list,
{
    let ghost all = body_models(list@);
    let ghost start = slots.model();
    let mut res: Vec<(usize, IRInst)> = Vec::new();
    assert(all.subrange(0, 0) =~= Seq::empty());
    assert(body_models(res@) =~= Seq::<(usize, InstModel)>::empty());
    let mut i: usize = 0;
    while i < list.len()
        invariant
            i <= list@.len(),
            all == body_models(list@),
            is_known_body(all, start.variables, natives@, bindings(parameters@)),
            slots.model().variables == start.variables,
            ({
                let made = sequenced_body(
                    start,
                    all.subrange(0, i as int),
                    natives@,
                    bindings(parameters@),
                );
                &&& slots.model() == made.0
                &&& body_models(res@) == made.1
            }),
        decreases list@.len() - i,
    {
        let ghost prefix = all.subrange(0, i + 1);
        assert(prefix.drop_last() =~= all.subrange(0, i as int));
        assert(decreases_to!(list => list@[i as int]));
        proof {
            lemma_known_in_body(
                all,
                start.variables,
                natives@,
                bindings(parameters@),
                i as int,
            );
        }
        sequence_inst(slots, list[i].0, &list[i].1, natives, parameters, &mut res);
        i = i + 1;
    }
    assert(all.subrange(0, i as int) =~= all);
    res
}

// ---------------------------------------------------------------------------
// Loops

/// Whether control never falls through an instruction.
pub open spec fn is_terminal(instr: InstModel) -> bool
    decreases instr,
{
    match instr {
        InstModel::Return(_)
        | InstModel::Jump(_)
        | InstModel::End
        | InstModel::Break
        | InstModel::Continue
        | InstModel::ContinueLoop(_) => true,
        InstModel::If { then_branch, else_branch, .. } => {
            &&& then_branch.len() > 0
            &&& is_terminal(then_branch[then_branch.len() - 1])
            &&& else_branch.len() > 0
            &&& is_terminal(else_branch[else_branch.len() - 1])
        },
        _ => false,
    }
}

fn terminal(instr: &IRInst) -> (res: bool)
    ensures
        res == is_terminal(instr.model()),
    decreases instr,
{
    match instr {
        IRInst::Return(_)
        | IRInst::Jump(_)
        | IRInst::End
        | IRInst::Break
        | IRInst::Continue
        | IRInst::ContinueLoop(_) => true,
        IRInst::If { then_branch, else_branch, .. } => {
            if then_branch.len() == 0 || else_branch.len() == 0 {
                return false;
            }
            assert(decreases_to!(then_branch => then_branch@[then_branch@.len() - 1]));
            assert(decreases_to!(else_branch => else_branch@[else_branch@.len() - 1]));
            terminal(&then_branch[then_branch.len() - 1]) && terminal(
                &else_branch[else_branch.len() - 1],
            )
        },
        _ => false,
    }
}

pub open spec fn ends(body: Seq<(usize, InstModel)>) -> bool {
    body.len() > 0 && is_terminal(body.last().1)
}

fn terminates(body: &Vec<(usize, IRInst)>) -> (res: bool)
    ensures
        res == ends(body_models(body@)),
{
    if body.len() == 0 {
        return false;
    }
    assert(body_models(body@).last().1 == body@[body@.len() - 1].1.model());
    terminal(&body[body.len() - 1].1)
}

/// Whether an instruction leaves the loop around it.
pub open spec fn leaves_loop(instr: InstModel, nested: bool) -> bool
    decreases instr,
{
    match instr {
        InstModel::If {
            then_branch,
            else_branch,
            ..
        } => leaves_loop_list(then_branch, nested) || leaves_loop_list(else_branch, nested),
        InstModel::Loop { body, .. } => leaves_loop_body(body, true),
        InstModel::Break => !nested,
        _ => false,
    }
}

pub open spec fn leaves_loop_list(list: Seq<InstModel>, nested: bool) -> bool
    decreases list,
{
    if list.len() == 0 {
        false
    } else {
        leaves_loop_list(list.drop_last(), nested) || leaves_loop(list[list.len() - 1], nested)
    }
}

pub open spec fn leaves_loop_body(list: Seq<(usize, InstModel)>, nested: bool) -> bool
    decreases list,
{
    if list.len() == 0 {
        false
    } else {
        leaves_loop_body(list.drop_last(), nested) || leaves_loop(list[list.len() - 1].1, nested)
    }
}

fn breaks(instr: &IRInst, nested: bool) -> (res: bool)
    ensures
        res == leaves_loop(instr.model(), nested),
    decreases instr,
{
    match instr {
        IRInst::If {
            then_branch,
            else_branch,
            ..
        } => breaks_list(then_branch, nested) || breaks_list(else_branch, nested),
        IRInst::Loop { body, .. } => breaks_body(body, true),
        IRInst::Break => !nested,
        _ => false,
    }
}

fn breaks_list(list: &Vec<IRInst>, nested: bool) -> (res: bool)
    ensures
        res == leaves_loop_list(models(list@), nested),
    decreases list,
{
    let ghost all = models(list@);
    assert(all.subrange(0, 0) =~= Seq::empty());
    let mut res: bool = false;
    let mut i: usize = 0;
    while i < list.len()
        invariant
            i <= list@.len(),
            all == models(list@),
            res == leaves_loop_list(all.subrange(0, i as int), nested),
        decreases list@.len() - i,
    {
        let ghost prefix = all.subrange(0, i + 1);
        assert(prefix.drop_last() =~= all.subrange(0, i as int));
        assert(decreases_to!(list => list@[i as int]));
        res = res || breaks(&list[i], nested);
        i = i + 1;
    }
    assert(all.subrange(0, i as int) =~= all);
    res
}

fn breaks_body(list: &Vec<(usize, IRInst)>, nested: bool) -> (res: bool)
    ensures
        res == leaves_loop_body(body_models(list@), nested),
    decreases list,
{
    let ghost all = body_models(list@);
    assert(all.subrange(0, 0) =~= Seq::empty());
    let mut res: bool = false;
    let mut i: usize = 0;
    while i < list.len()
        invariant
            i <= list@.len(),
            all == body_models(list@),
            res == leaves_loop_body(all.subrange(0, i as int), nested),
        decreases list@.len() - i,
    {
        let ghost prefix = all.subrange(0, i + 1);
        assert(prefix.drop_last() =~= all.subrange(0, i as int));
        assert(decreases_to!(list => list@[i as int]));
        res = res || breaks(&list[i].1, nested);
        i = i + 1;
    }
    assert(all.subrange(0, i as int) =~= all);
    res
}

/// Whether an instruction repeats the loop. Labeled continues can still reach it
/// from a nested loop.
pub open spec fn repeats_loop(instr: InstModel, target: LoopId, nested: bool) -> bool
    decreases instr,
{
    match instr {
        InstModel::If {
            then_branch,
            else_branch,
            ..
        } => repeats_loop_list(
            then_branch,
            target,
            nested,
        ) || repeats_loop_list(else_branch, target, nested),
        InstModel::Loop { body, .. } => repeats_loop_body(body, target, true),
        InstModel::Continue => !nested,
        InstModel::ContinueLoop(label) => label == target,
        _ => false,
    }
}

pub open spec fn repeats_loop_list(list: Seq<InstModel>, target: LoopId, nested: bool) -> bool
    decreases list,
{
    if list.len() == 0 {
        false
    } else {
        repeats_loop_list(list.drop_last(), target, nested) || repeats_loop(
            list[list.len() - 1],
            target,
            nested,
        )
    }
}

pub open spec fn repeats_loop_body(
    list: Seq<(usize, InstModel)>,
    target: LoopId,
    nested: bool,
) -> bool
    decreases list,
{
    if list.len() == 0 {
        false
    } else {
        repeats_loop_body(list.drop_last(), target, nested) || repeats_loop(
            list[list.len() - 1].1,
            target,
            nested,
        )
    }
}

fn continues(instr: &IRInst, target: LoopId, nested: bool) -> (res: bool)
    ensures
        res == repeats_loop(instr.model(), target, nested),
    decreases instr,
{
    match instr {
        IRInst::If {
            then_branch,
            else_branch,
            ..
        } => continues_list(
            then_branch,
            target,
            nested,
        ) || continues_list(else_branch, target, nested),
        IRInst::Loop { body, .. } => continues_body(body, target, true),
        IRInst::Continue => !nested,
        IRInst::ContinueLoop(label) => *label == target,
        _ => false,
    }
}

fn continues_list(list: &Vec<IRInst>, target: LoopId, nested: bool) -> (res: bool)
    ensures
        res == repeats_loop_list(models(list@), target, nested),
    decreases list,
{
    let ghost all = models(list@);
    assert(all.subrange(0, 0) =~= Seq::empty());
    let mut res: bool = false;
    let mut i: usize = 0;
    while i < list.len()
        invariant
            i <= list@.len(),
            all == models(list@),
            res == repeats_loop_list(all.subrange(0, i as int), target, nested),
        decreases list@.len() - i,
    {
        let ghost prefix = all.subrange(0, i + 1);
        assert(prefix.drop_last() =~= all.subrange(0, i as int));
        assert(decreases_to!(list => list@[i as int]));
        res = res || continues(&list[i], target, nested);
        i = i + 1;
    }
    assert(all.subrange(0, i as int) =~= all);
    res
}

fn continues_body(list: &Vec<(usize, IRInst)>, target: LoopId, nested: bool) -> (res: bool)
    ensures
        res == repeats_loop_body(body_models(list@), target, nested),
    decreases list,
{
    let ghost all = body_models(list@);
    assert(all.subrange(0, 0) =~= Seq::empty());
    let mut res: bool = false;
    let mut i: usize = 0;
    while i < list.len()
        invariant
            i <= list@.len(),
            all == body_models(list@),
            res == repeats_loop_body(all.subrange(0, i as int), target, nested),
        decreases list@.len() - i,
    {
        let ghost prefix = all.subrange(0, i + 1);
        assert(prefix.drop_last() =~= all.subrange(0, i as int));
        assert(decreases_to!(list => list@[i as int]));
        res = res || continues(&list[i].1, target, nested);
        i = i + 1;
    }
    assert(all.subrange(0, i as int) =~= all);
    res
}


/// Whether an instruction starts the loop again.
pub open spec fn is_repeat(instr: InstModel, label: LoopId) -> bool {
    instr == InstModel::Continue || instr == InstModel::ContinueLoop(label)
}

/// Whether an instruction is a branch of which one arm is empty and the other
/// ends by starting the loop again.
pub open spec fn is_repeat_test(instr: InstModel, label: LoopId) -> bool {
    match instr {
        InstModel::If { then_branch, else_branch, .. } => {
            ||| else_branch.len() == 0 && then_branch.len() > 0 && is_repeat(
                then_branch.last(),
                label,
            )
            ||| then_branch.len() == 0 && else_branch.len() > 0 && is_repeat(
                else_branch.last(),
                label,
            )
        },
        _ => false,
    }
}

/// The last of the first `count` instructions that is such a branch.
pub open spec fn last_repeat_test(
    body: Seq<(usize, InstModel)>,
    label: LoopId,
    count: int,
) -> Option<int>
    decreases count,
{
    if count <= 0 {
        None
    } else if is_repeat_test(body[count - 1].1, label) {
        Some(count - 1)
    } else {
        last_repeat_test(body, label, count - 1)
    }
}

/// The opposite of a condition.
pub open spec fn inverted(condition: IRExpr) -> IRExpr {
    match condition {
        IRExpr::Not(inner) => *inner,
        _ => IRExpr::Not(Box::new(condition)),
    }
}

fn invert(condition: &IRExpr) -> (res: IRExpr)
    ensures
        res == inverted(*condition),
{
    match condition {
        IRExpr::Not(inner) => (**inner).clone(),
        _ => IRExpr::Not(Box::new(condition.clone())),
    }
}

/// The branch with its repeating arm falling through the loop body. Updates on
/// that path stay, and the other path leaves the loop.
pub open spec fn exit_test(instr: InstModel) -> InstModel {
    match instr {
        InstModel::If { condition, then_branch, else_branch } => if else_branch.len() == 0 {
            InstModel::If {
                condition: inverted(condition),
                then_branch: seq![InstModel::Break],
                else_branch: then_branch.drop_last(),
            }
        } else {
            InstModel::If {
                condition,
                then_branch: seq![InstModel::Break],
                else_branch: else_branch.drop_last(),
            }
        },
        _ => instr,
    }
}

/// A loop body without the tail that only runs once, and that tail. An earlier
/// break would bypass the tail, and a tail that jumps back to the loop cannot be
/// moved outside its scope: then both stay.
pub open spec fn tail_hoisted(body: Seq<(usize, InstModel)>, label: LoopId) -> (
    Seq<(usize, InstModel)>,
    Seq<(usize, InstModel)>,
) {
    match last_repeat_test(body, label, body.len() as int) {
        None => (body, Seq::empty()),
        Some(index) => {
            let end = if body.last().1 == InstModel::Break {
                body.len() - 1
            } else {
                body.len() as int
            };
            let front = body.subrange(0, index + 1);
            let tail = body.subrange(index + 1, end);
            if leaves_loop_body(front, false) || leaves_loop_body(tail, false)
                || repeats_loop_body(tail, label, false) {
                (body, Seq::empty())
            } else {
                (
                    front.update(index, (front[index].0, exit_test(front[index].1))),
                    tail,
                )
            }
        },
    }
}

proof fn lemma_last_repeat_test(body: Seq<(usize, InstModel)>, label: LoopId, count: int)
    requires
        0 <= count <= body.len(),
    ensures
        last_repeat_test(body, label, count) matches Some(index) ==> 0 <= index < count
            && is_repeat_test(body[index].1, label),
    decreases count,
{
    if count > 0 {
        lemma_last_repeat_test(body, label, count - 1);
    }
}

fn repeats(instr: &IRInst, label: LoopId) -> (res: bool)
    ensures
        res == is_repeat(instr.model(), label),
{
    match instr {
        IRInst::Continue => true,
        IRInst::ContinueLoop(target) => *target == label,
        _ => false,
    }
}

fn repeat_test(instr: &IRInst, label: LoopId) -> (res: bool)
    ensures
        res == is_repeat_test(instr.model(), label),
{
    match instr {
        IRInst::If { then_branch, else_branch, .. } => {
            if else_branch.len() == 0 && then_branch.len() > 0 {
                assert(models(then_branch@).last() == then_branch@[then_branch@.len()
                    - 1].model());
                repeats(&then_branch[then_branch.len() - 1], label)
            } else if then_branch.len() == 0 && else_branch.len() > 0 {
                assert(models(else_branch@).last() == else_branch@[else_branch@.len()
                    - 1].model());
                repeats(&else_branch[else_branch.len() - 1], label)
            } else {
                false
            }
        },
        _ => false,
    }
}

fn clone_front(list: &Vec<IRInst>) -> (res: Vec<IRInst>)
    requires
        list@.len() > 0,
    ensures
        models(res@) == models(list@).drop_last(),
{
    let mut res: Vec<IRInst> = super::ir::clone_instructions(list);
    let ghost before = models(res@);
    res.pop();
    assert(models(res@) =~= before.drop_last());
    res
}

fn make_exit_test(instr: &IRInst, label: LoopId) -> (res: IRInst)
    requires
        is_repeat_test(instr.model(), label),
    ensures
        res.model() == exit_test(instr.model()),
{
    match instr {
        IRInst::If { condition, then_branch, else_branch } => {
            let mut exit: Vec<IRInst> = Vec::new();
            exit.push(IRInst::Break);
            assert(models(exit@) =~= seq![InstModel::Break]);
            if else_branch.len() == 0 {
                IRInst::If {
                    condition: invert(condition),
                    then_branch: exit,
                    else_branch: clone_front(then_branch),
                }
            } else {
                IRInst::If {
                    condition: condition.clone(),
                    then_branch: exit,
                    else_branch: clone_front(else_branch),
                }
            }
        },
        _ => instr.clone(),
    }
}

fn clone_range(body: &Vec<(usize, IRInst)>, from: usize, to: usize) -> (res: Vec<(usize, IRInst)>)
    requires
        from <= to <= body@.len(),
    ensures
        body_models(res@) == body_models(body@).subrange(from as int, to as int),
{
    let ghost all = body_models(body@);
    let mut res: Vec<(usize, IRInst)> = Vec::new();
    let mut i: usize = from;
    while i < to
        invariant
            from <= i <= to,
            to <= body@.len(),
            all == body_models(body@),
            res@.len() == i - from,
            forall|k: int|
                0 <= k < res@.len() ==> (#[trigger] res@[k]).0 == all[from + k].0
                    && res@[k].1.model() == all[from + k].1,
        decreases to - i,
    {
        res.push((body[i].0, body[i].1.clone()));
        i = i + 1;
    }
    assert(body_models(res@) =~= all.subrange(from as int, to as int));
    res
}

fn hoist_loop_tail(body: Vec<(usize, IRInst)>, label: LoopId) -> (res: (
    Vec<(usize, IRInst)>,
    Vec<(usize, IRInst)>,
))
    ensures
        (body_models(res.0@), body_models(res.1@)) == tail_hoisted(body_models(body@), label),
{
    let ghost all = body_models(body@);
    let none: Vec<(usize, IRInst)> = Vec::new();
    assert(body_models(none@) =~= Seq::<(usize, InstModel)>::empty());
    let mut count: usize = body.len();
    let mut found: bool = false;
    while count > 0 && !found
        invariant
            count <= body@.len(),
            all == body_models(body@),
            !found ==> last_repeat_test(all, label, all.len() as int) == last_repeat_test(
                all,
                label,
                count as int,
            ),
            found ==> count > 0 && last_repeat_test(all, label, all.len() as int) == Some(
                count - 1,
            ),
        decreases count + (if found {
            0int
        } else {
            1int
        }),
    {
        assert(all[count - 1].1 == body@[count - 1].1.model());
        if repeat_test(&body[count - 1].1, label) {
            found = true;
        } else {
            count = count - 1;
        }
    }
    if !found {
        return (body, none);
    }
    let index: usize = count - 1;
    proof {
        lemma_last_repeat_test(all, label, all.len() as int);
    }
    assert(all.last().1 == body@[body@.len() - 1].1.model());
    let end: usize = if matches!(body[body.len() - 1].1, IRInst::Break) {
        body.len() - 1
    } else {
        body.len()
    };
    assert(end >= index + 1) by {
        assert(all[index as int].1 is If);
    }
    let mut front: Vec<(usize, IRInst)> = clone_range(&body, 0, index + 1);
    let tail: Vec<(usize, IRInst)> = clone_range(&body, index + 1, end);
    if breaks_body(&front, false) || breaks_body(&tail, false) || continues_body(
        &tail,
        label,
        false,
    ) {
        return (body, none);
    }
    let ghost before = body_models(front@);
    assert(before[index as int].1 == front@[index as int].1.model());
    assert(before[index as int] == all[index as int]);
    let test: IRInst = make_exit_test(&front[index].1, label);
    front[index].1 = test;
    assert(body_models(front@) =~= before.update(
        index as int,
        (before[index as int].0, exit_test(before[index as int].1)),
    ));
    (front, tail)
}

/// The loop around a body that some path repeats. A path which reaches the end
/// of the body leaves the loop; explicit back edges continue it.
pub open spec fn loop_of(offset: usize, body: Seq<(usize, InstModel)>, label: LoopId) -> Seq<
    (usize, InstModel),
> {
    let closed_body = if ends(body) {
        body
    } else {
        body.push((offset, InstModel::Break))
    };
    let (inner, tail) = tail_hoisted(closed_body, label);
    let entry_offset = if inner.len() == 0 {
        offset
    } else {
        inner[0].0
    };
    seq![
        (
            entry_offset,
            InstModel::Loop {
                label: if repeats_loop_body(inner, label, false) {
                    Some(label)
                } else {
                    None
                },
                entry_offset,
                body: inner,
            },
        ),
    ] + tail
}

fn make_loop(offset: usize, body: Vec<(usize, IRInst)>, label: LoopId) -> (res: Vec<
    (usize, IRInst),
>)
    ensures
        body_models(res@) == loop_of(offset, body_models(body@), label),
{
    let mut body = body;
    if !terminates(&body) {
        push_at(&mut body, offset, IRInst::Break);
    }
    let (inner, tail) = hoist_loop_tail(body, label);
    let needs_label: bool = continues_body(&inner, label, false);
    let entry_offset: usize = if inner.len() == 0 {
        offset
    } else {
        inner[0].0
    };
    let ghost inner_model = body_models(inner@);
    let ghost tail_model = body_models(tail@);
    let mut tail = tail;
    let mut res: Vec<(usize, IRInst)> = Vec::new();
    assert(body_models(res@) =~= Seq::<(usize, InstModel)>::empty());
    push_at(
        &mut res,
        entry_offset,
        IRInst::Loop {
            label: if needs_label {
                Some(label)
            } else {
                None
            },
            entry_offset,
            body: inner,
        },
    );
    let ghost front = body_models(res@);
    res.append(&mut tail);
    assert(body_models(res@) =~= front + tail_model);
    res
}

// ---------------------------------------------------------------------------
// Regions

/// What the structuring of regions has found: the loops that are repeated, and
/// the numbers that are left for loops.
pub struct Flow {
    pub back_edges: Set<LoopId>,
    pub numbers: Numbers,
}

/// The number of nodes whose region is not being made.
pub open spec fn inactive(active: Seq<Option<LoopId>>) -> nat
    decreases active.len(),
{
    if active.len() == 0 {
        0
    } else {
        inactive(active.drop_last()) + if active.last() is None {
            1nat
        } else {
            0nat
        }
    }
}

pub proof fn lemma_activate(active: Seq<Option<LoopId>>, id: int, label: LoopId)
    requires
        0 <= id < active.len(),
        active[id] is None,
    ensures
        inactive(active.update(id, Some(label))) + 1 == inactive(active),
    decreases active.len(),
{
    let after = active.update(id, Some(label));
    if id < active.len() - 1 {
        lemma_activate(active.drop_last(), id, label);
        assert(after.drop_last() =~= active.drop_last().update(id, Some(label)));
    } else {
        assert(after.drop_last() =~= active.drop_last());
    }
}

/// The branch of a node. An empty conditional has no effect unless evaluating its
/// condition reads memory.
pub open spec fn branch_of(
    offset: usize,
    condition: IRExpr,
    then_branch: Seq<InstModel>,
    else_branch: Seq<InstModel>,
) -> Seq<(usize, InstModel)> {
    if then_branch.len() == 0 && else_branch.len() == 0 && !loads(condition) {
        Seq::empty()
    } else if then_branch.len() == 0 && else_branch.len() > 0 {
        seq![
            (
                offset,
                InstModel::If {
                    condition: inverted(condition),
                    then_branch: else_branch,
                    else_branch: then_branch,
                },
            ),
        ]
    } else {
        seq![(offset, InstModel::If { condition, then_branch, else_branch })]
    }
}

/// The structured instructions from a node up to `stop`.
pub open spec fn region(
    nodes: Seq<NodeModel>,
    joins: Seq<Option<usize>>,
    id: usize,
    stop: Option<usize>,
    active: Seq<Option<LoopId>>,
    flow: Flow,
) -> (Seq<(usize, InstModel)>, Flow)
    decreases inactive(active),
{
    if stop == Some(id) || id >= active.len() {
        (Seq::empty(), flow)
    } else {
        let node = nodes[id as int];
        match active[id as int] {
            Some(label) => (
                seq![(node.offset, InstModel::ContinueLoop(label))],
                Flow { back_edges: flow.back_edges.insert(label), ..flow },
            ),
            None => {
                let label = LoopId { id: flow.numbers.next };
                let start = Flow { numbers: flow.numbers.after(), ..flow };
                let inner = active.update(id as int, Some(label));
                proof {
                    lemma_activate(active, id as int, label);
                }
                let (body, after) = match node.transfer {
                    TransferModel::Goto(target) => {
                        let rest = region(nodes, joins, target, stop, inner, start);
                        (node.body + rest.0, rest.1)
                    },
                    TransferModel::Exit(instr) => (node.body.push((node.offset, instr)), start),
                    TransferModel::Branch { condition, then_node, else_node } => {
                        // An active header is a back edge, not a forward continuation.
                        let join = match joins[id as int] {
                            Some(join) => if inner[join as int] is None {
                                Some(join)
                            } else {
                                None
                            },
                            None => None,
                        };
                        let boundary = if join is Some {
                            join
                        } else {
                            stop
                        };
                        let first = region(nodes, joins, then_node, boundary, inner, start);
                        let second = region(nodes, joins, else_node, boundary, inner, first.1);
                        let front = node.body + branch_of(
                            node.offset,
                            condition,
                            without_offsets(first.0),
                            without_offsets(second.0),
                        );
                        match join {
                            Some(join) => {
                                let rest = region(nodes, joins, join, stop, inner, second.1);
                                (front + rest.0, rest.1)
                            },
                            None => (front, second.1),
                        }
                    },
                };
                if after.back_edges.contains(label) {
                    (
                        loop_of(node.offset, body, label),
                        Flow { back_edges: after.back_edges.remove(label), ..after },
                    )
                } else {
                    (body, after)
                }
            },
        }
    }
}

struct Inliner {
    active: Vec<Option<LoopId>>,
    back_edges: Vec<LoopId>,
    numbers: Numbers,
}

impl Inliner {
    spec fn flow(self) -> Flow {
        Flow { back_edges: self.back_edges@.to_set(), numbers: self.numbers }
    }
}

/// Whether the label is among the back edges; it is then taken out.
fn take_edge(edges: &mut Vec<LoopId>, label: LoopId) -> (res: bool)
    ensures
        res == old(edges)@.to_set().contains(label),
        res ==> final(edges)@.to_set() == old(edges)@.to_set().remove(label),
        !res ==> final(edges)@ == old(edges)@,
{
    let ghost before = edges@;
    let mut kept: Vec<LoopId> = Vec::new();
    let mut found: bool = false;
    let mut i: usize = 0;
    while i < edges.len()
        invariant
            i <= edges@.len(),
            edges@ == before,
            found == exists|k: int| 0 <= k < i && #[trigger] before[k] == label,
            forall|l: LoopId| #[trigger]
                kept@.contains(l) <==> l != label && exists|k: int|
                    0 <= k < i && #[trigger] before[k] == l,
        decreases edges@.len() - i,
    {
        let edge: LoopId = edges[i];
        let ghost old_kept = kept@;
        if edge == label {
            found = true;
            assert(before[i as int] == label);
        } else {
            kept.push(edge);
        }
        proof {
            assert forall|l: LoopId| #[trigger] kept@.contains(l) <==> l != label && exists|k: int|
                0 <= k < i + 1 && #[trigger] before[k] == l by {
                if old_kept.contains(l) {
                    let k = choose|k: int| 0 <= k < old_kept.len() && old_kept[k] == l;
                    assert(kept@[k] == l);
                    let m = choose|m: int| 0 <= m < i && #[trigger] before[m] == l;
                    assert(before[m] == l && m < i + 1);
                }
                if kept@.contains(l) && !old_kept.contains(l) {
                    let k = choose|k: int| 0 <= k < kept@.len() && kept@[k] == l;
                    if k < old_kept.len() {
                        assert(old_kept[k] == l);
                    }
                    assert(l == edge);
                    assert(before[i as int] == l);
                }
                if l != label && exists|k: int| 0 <= k < i + 1 && #[trigger] before[k] == l {
                    let k = choose|k: int| 0 <= k < i + 1 && #[trigger] before[k] == l;
                    if k < i {
                        assert(old_kept.contains(l));
                    } else {
                        assert(kept@[old_kept.len() as int] == l);
                    }
                }
            }
            if exists|k: int| 0 <= k < i + 1 && #[trigger] before[k] == label {
                let k = choose|k: int| 0 <= k < i + 1 && #[trigger] before[k] == label;
                if k < i {
                    assert(before[k] == label);
                }
            }
        }
        i = i + 1;
    }
    proof {
        assert(before.to_set().contains(label) == before.contains(label));
        if before.contains(label) {
            let k = choose|k: int| 0 <= k < before.len() && before[k] == label;
            assert(before[k] == label);
        }
    }
    if found {
        proof {
            assert forall|l: LoopId| #[trigger] kept@.to_set().contains(l)
                == before.to_set().remove(label).contains(l) by {
                assert(kept@.to_set().contains(l) == kept@.contains(l));
                if before.contains(l) {
                    let k = choose|k: int| 0 <= k < before.len() && before[k] == l;
                    assert(before[k] == l);
                }
            }
            assert(kept@.to_set() =~= before.to_set().remove(label));
        }
        *edges = kept;
    }
    found
}

/// Whether every node has a place in the tables.
spec fn fits(
    nodes: Seq<NodeModel>,
    joins: Seq<Option<usize>>,
    active: Seq<Option<LoopId>>,
) -> bool {
    &&& closed(nodes)
    &&& joins.len() == nodes.len()
    &&& active.len() == nodes.len()
    &&& forall|k: int|
        0 <= k < joins.len() && #[trigger] joins[k] is Some ==> joins[k]->0 < nodes.len()
}

#[verifier::rlimit(60)]
fn make_region(
    inliner: &mut Inliner,
    nodes: &Vec<Node>,
    joins: &Vec<Option<usize>>,
    id: usize,
    stop: Option<usize>,
) -> (res: Vec<(usize, IRInst)>)
    requires
        fits(node_models(nodes@), joins@, old(inliner).active@),
        id < nodes@.len(),
    ensures
        final(inliner).active@ == old(inliner).active@,
        (body_models(res@), final(inliner).flow()) == region(
            node_models(nodes@),
            joins@,
            id,
            stop,
            old(inliner).active@,
            old(inliner).flow(),
        ),
    decreases inactive(old(inliner).active@),
{
    let ghost all = node_models(nodes@);
    let ghost outer = inliner.active@;
    let ghost flow = inliner.flow();
    let mut res: Vec<(usize, IRInst)> = Vec::new();
    assert(body_models(res@) =~= Seq::<(usize, InstModel)>::empty());
    let at_stop: bool = match stop {
        Some(stop) => stop == id,
        None => false,
    };
    if at_stop {
        return res;
    }
    let node = &nodes[id];
    assert(all[id as int] == node.model());
    assert(all[id as int].transfer.stays_within(all.len() as int));
    if let Some(label) = inliner.active[id] {
        let ghost before = inliner.back_edges@;
        inliner.back_edges.push(label);
        push_at(&mut res, node.offset, IRInst::ContinueLoop(label));
        proof {
            lemma_push_set(before, label);
            assert(body_models(res@) =~= seq![(node.offset, InstModel::ContinueLoop(label))]);
        }
        return res;
    }
    let label: LoopId = LoopId { id: inliner.numbers.next };
    inliner.numbers.advance();
    proof {
        lemma_activate(outer, id as int, label);
    }
    inliner.active.set(id, Some(label));
    let ghost inner = inliner.active@;
    let ghost start = inliner.flow();
    let mut body: Vec<(usize, IRInst)> = clone_body(&node.body);
    let ghost own = body_models(body@);
    match &node.transfer {
        Transfer::Goto(target) => {
            let mut rest: Vec<(usize, IRInst)> = make_region(inliner, nodes, joins, *target, stop);
            let ghost more = body_models(rest@);
            body.append(&mut rest);
            assert(body_models(body@) =~= own + more);
        },
        Transfer::Exit(instr) => {
            push_at(&mut body, node.offset, instr.clone());
        },
        Transfer::Branch { condition, then_node, else_node } => {
            let join: Option<usize> = match joins[id] {
                Some(join) => if inliner.active[join].is_none() {
                    Some(join)
                } else {
                    None
                },
                None => None,
            };
            let boundary: Option<usize> = if join.is_some() {
                join
            } else {
                stop
            };
            let first: Vec<(usize, IRInst)> = make_region(
                inliner,
                nodes,
                joins,
                *then_node,
                boundary,
            );
            let second: Vec<(usize, IRInst)> = make_region(
                inliner,
                nodes,
                joins,
                *else_node,
                boundary,
            );
            let mut then_branch: Vec<IRInst> = Vec::new();
            let mut else_branch: Vec<IRInst> = Vec::new();
            assert(models(then_branch@) =~= Seq::<InstModel>::empty());
            assert(models(else_branch@) =~= Seq::<InstModel>::empty());
            append_instructions(&mut then_branch, &first);
            append_instructions(&mut else_branch, &second);
            let ghost firsts = without_offsets(body_models(first@));
            let ghost seconds = without_offsets(body_models(second@));
            assert(models(then_branch@) =~= firsts);
            assert(models(else_branch@) =~= seconds);
            assert(firsts.len() == then_branch@.len());
            assert(seconds.len() == else_branch@.len());
            if then_branch.len() > 0 || else_branch.len() > 0 || reads_memory(condition) {
                if then_branch.len() == 0 && else_branch.len() > 0 {
                    push_at(
                        &mut body,
                        node.offset,
                        IRInst::If {
                            condition: invert(condition),
                            then_branch: else_branch,
                            else_branch: then_branch,
                        },
                    );
                } else {
                    push_at(
                        &mut body,
                        node.offset,
                        IRInst::If { condition: condition.clone(), then_branch, else_branch },
                    );
                }
            }
            let ghost front = body_models(body@);
            assert(front =~= own + branch_of(node.offset, *condition, firsts, seconds));
            if let Some(join) = join {
                let mut rest: Vec<(usize, IRInst)> = make_region(
                    inliner,
                    nodes,
                    joins,
                    join,
                    stop,
                );
                let ghost more = body_models(rest@);
                body.append(&mut rest);
                assert(body_models(body@) =~= front + more);
            }
        },
    }
    inliner.active.set(id, None);
    assert(inliner.active@ =~= outer);
    if take_edge(&mut inliner.back_edges, label) {
        make_loop(node.offset, body, label)
    } else {
        body
    }
}

proof fn lemma_push_set(list: Seq<LoopId>, label: LoopId)
    ensures
        list.push(label).to_set() == list.to_set().insert(label),
{
    let after = list.push(label);
    assert forall|l: LoopId| #[trigger] after.to_set().contains(l) == list.to_set().insert(
        label,
    ).contains(l) by {
        assert(after.to_set().contains(l) == after.contains(l));
        if list.contains(l) {
            let k = choose|k: int| 0 <= k < list.len() && list[k] == l;
            assert(after[k] == l);
        }
        if after.contains(l) {
            let k = choose|k: int| 0 <= k < after.len() && after[k] == l;
            if k < list.len() {
                assert(list[k] == l);
            }
        }
        assert(after[list.len() as int] == label);
    }
    assert(after.to_set() =~= list.to_set().insert(label));
}

// ---------------------------------------------------------------------------
// Merging

/// What the functions bring along: the slots, the bindings of the parameters,
/// the slots of the arguments, and what initializes those of the entry.
pub struct Entered {
    pub slots: SlotsModel,
    pub bound: Seq<(VariableId, usize)>,
    pub natives: Map<usize, VariableId>,
    pub initializers: Seq<(usize, InstModel)>,
}

/// The parameters of one function.
pub open spec fn bound_parameters(
    slots: SlotsModel,
    parameters: Seq<Parameter>,
    offset: usize,
    is_entry: bool,
) -> Entered
    decreases parameters.len(),
{
    if parameters.len() == 0 {
        Entered {
            slots,
            bound: Seq::empty(),
            natives: Map::empty(),
            initializers: Seq::empty(),
        }
    } else {
        let before = bound_parameters(slots, parameters.drop_last(), offset, is_entry);
        let parameter = parameters.last();
        let ty = parameter.ty();
        let size = parameter.width();
        match parameter {
            Parameter::Slot { variable, .. } | Parameter::Value { variable, .. } => {
                let after = before.slots.local(variable, offset, ty);
                Entered {
                    slots: after,
                    bound: before.bound.push((after.variables[variable], size)),
                    ..before
                }
            },
            Parameter::Native { ordinal, .. } | Parameter::Input { ordinal, .. } => {
                let variable = slot(before.slots.numbers.next);
                Entered {
                    slots: before.slots.fresh(offset, ty),
                    bound: before.bound.push((variable, size)),
                    natives: before.natives.insert(ordinal, variable),
                    initializers: if is_entry {
                        before.initializers.push(
                            (
                                offset,
                                InstModel::AssignVariable {
                                    variable,
                                    value: IRExpr::Argument(ordinal),
                                },
                            ),
                        )
                    } else {
                        before.initializers
                    },
                }
            },
        }
    }
}

/// What all functions bring along.
pub struct Gathered {
    pub slots: SlotsModel,
    pub parameters: Seq<Seq<(VariableId, usize)>>,
    pub natives: Seq<Map<usize, VariableId>>,
    pub initializers: Seq<(usize, InstModel)>,
}

pub open spec fn gathered(functions: Seq<FunctionModel>, entry: usize) -> Gathered
    decreases functions.len(),
{
    if functions.len() == 0 {
        Gathered {
            slots: no_slots(),
            parameters: Seq::empty(),
            natives: Seq::empty(),
            initializers: Seq::empty(),
        }
    } else {
        let before = gathered(functions.drop_last(), entry);
        let function = functions.last();
        let entered = bound_parameters(
            before.slots,
            function.parameters,
            function.entry_offset,
            functions.len() - 1 == entry,
        );
        Gathered {
            slots: collected_body(entered.slots, function.body),
            parameters: before.parameters.push(entered.bound),
            natives: before.natives.push(entered.natives),
            initializers: before.initializers + entered.initializers,
        }
    }
}

fn bind_parameters(
    slots: &mut Slots,
    list: &Vec<Parameter>,
    offset: usize,
    is_entry: bool,
    natives: &mut Table<usize, VariableId>,
    initializers: &mut Vec<(usize, IRInst)>,
) -> (res: Vec<(VariableId, usize)>)
    requires
        old(natives)@ == Map::<usize, VariableId>::empty(),
    ensures
        ({
            let made = bound_parameters(old(slots).model(), list@, offset, is_entry);
            &&& final(slots).model() == made.slots
            &&& res@ == made.bound
            &&& final(natives)@ == made.natives
            &&& body_models(final(initializers)@) == body_models(old(initializers)@)
                + made.initializers
        }),
{
    let ghost start = slots.model();
    let ghost before = body_models(initializers@);
    let mut res: Vec<(VariableId, usize)> = Vec::new();
    assert(list@.subrange(0, 0) =~= Seq::empty());
    assert(before =~= before + Seq::<(usize, InstModel)>::empty());
    let mut i: usize = 0;
    while i < list.len()
        invariant
            i <= list@.len(),
            ({
                let made = bound_parameters(
                    start,
                    list@.subrange(0, i as int),
                    offset,
                    is_entry,
                );
                &&& slots.model() == made.slots
                &&& res@ == made.bound
                &&& natives@ == made.natives
                &&& body_models(initializers@) == before + made.initializers
            }),
        decreases list@.len() - i,
    {
        let ghost prefix = list@.subrange(0, i + 1);
        assert(prefix.drop_last() =~= list@.subrange(0, i as int));
        let ghost last = body_models(initializers@);
        let ty: VariableType = list[i].slot_type();
        let size: usize = list[i].size();
        match list[i] {
            Parameter::Slot { variable, .. } | Parameter::Value { variable, .. } => {
                let local: VariableId = slots.local(variable, offset, ty);
                res.push((local, size));
            },
            Parameter::Native { ordinal, .. } | Parameter::Input { ordinal, .. } => {
                let variable: VariableId = slots.fresh(offset, ty);
                res.push((variable, size));
                natives.insert(ordinal, variable);
                if is_entry {
                    push_at(
                        initializers,
                        offset,
                        IRInst::AssignVariable { variable, value: IRExpr::Argument(ordinal) },
                    );
                    let ghost made = bound_parameters(start, prefix, offset, is_entry);
                    assert(body_models(initializers@) =~= before + made.initializers);
                }
            },
        }
        i = i + 1;
    }
    assert(list@.subrange(0, i as int) =~= list@);
    res
}

pub open spec fn native_maps(natives: Seq<Table<usize, VariableId>>) -> Seq<
    Map<usize, VariableId>,
> {
    natives.map_values(|t: Table<usize, VariableId>| t@)
}

fn gather(
    functions: &Vec<SyntheticFunction>,
    entry: usize,
    slots: &mut Slots,
    natives: &mut Vec<Table<usize, VariableId>>,
    initializers: &mut Vec<(usize, IRInst)>,
) -> (res: Vec<Vec<(VariableId, usize)>>)
    requires
        old(slots).model() == no_slots(),
        old(natives)@.len() == 0,
        old(initializers)@.len() == 0,
    ensures
        (Gathered {
            slots: final(slots).model(),
            parameters: bindings(res@),
            natives: native_maps(final(natives)@),
            initializers: body_models(final(initializers)@),
        }) == gathered(function_models(functions@), entry),
        res@.len() == functions@.len(),
        final(natives)@.len() == functions@.len(),
{
    let ghost all = function_models(functions@);
    let mut parameters: Vec<Vec<(VariableId, usize)>> = Vec::new();
    assert(all.subrange(0, 0) =~= Seq::empty());
    assert(bindings(parameters@) =~= Seq::empty());
    assert(native_maps(natives@) =~= Seq::empty());
    assert(body_models(initializers@) =~= Seq::empty());
    let mut i: usize = 0;
    while i < functions.len()
        invariant
            i <= functions@.len(),
            all == function_models(functions@),
            parameters@.len() == i,
            natives@.len() == i,
            (Gathered {
                slots: slots.model(),
                parameters: bindings(parameters@),
                natives: native_maps(natives@),
                initializers: body_models(initializers@),
            }) == gathered(all.subrange(0, i as int), entry),
        decreases functions@.len() - i,
    {
        let ghost prefix = all.subrange(0, i + 1);
        assert(prefix.drop_last() =~= all.subrange(0, i as int));
        let function = &functions[i];
        assert(prefix.last() == function.model());
        let ghost old_parameters = bindings(parameters@);
        let ghost old_natives = native_maps(natives@);
        let mut own: Table<usize, VariableId> = Table::new();
        let bound: Vec<(VariableId, usize)> = bind_parameters(
            slots,
            &function.parameters,
            function.entry_offset,
            i == entry,
            &mut own,
            initializers,
        );
        collect_body(slots, &function.body);
        let ghost bound_seq = bound@;
        let ghost own_map = own@;
        parameters.push(bound);
        natives.push(own);
        proof {
            assert(bindings(parameters@) =~= old_parameters.push(bound_seq));
            assert(native_maps(natives@) =~= old_natives.push(own_map));
        }
        i = i + 1;
    }
    assert(all.subrange(0, i as int) =~= all);
    parameters
}

/// Whether everything that the functions name has a slot.
pub open spec fn all_known(functions: Seq<FunctionModel>, gathered: Gathered) -> bool {
    forall|i: int|
        0 <= i < functions.len() ==> is_known_body(
            (#[trigger] functions[i]).body,
            gathered.slots.variables,
            gathered.natives[i],
            gathered.parameters,
        )
}

/// The functions over the slots of the merged function.
pub open spec fn all_sequenced(
    functions: Seq<FunctionModel>,
    slots: SlotsModel,
    natives: Seq<Map<usize, VariableId>>,
    parameters: Seq<Seq<(VariableId, usize)>>,
) -> (SlotsModel, Seq<FunctionModel>)
    decreases functions.len(),
{
    if functions.len() == 0 {
        (slots, Seq::empty())
    } else {
        let before = all_sequenced(functions.drop_last(), slots, natives, parameters);
        let function = functions.last();
        let made = sequenced_body(
            before.0,
            function.body,
            natives[functions.len() - 1],
            parameters,
        );
        (made.0, before.1.push(FunctionModel { body: made.1, ..function }))
    }
}

fn knows_all(
    functions: &Vec<SyntheticFunction>,
    slots: &Slots,
    natives: &Vec<Table<usize, VariableId>>,
    parameters: &Vec<Vec<(VariableId, usize)>>,
) -> (res: bool)
    requires
        natives@.len() == functions@.len(),
    ensures
        res == (forall|i: int|
            0 <= i < functions@.len() ==> is_known_body(
                (#[trigger] function_models(functions@)[i]).body,
                slots.model().variables,
                native_maps(natives@)[i],
                bindings(parameters@),
            )),
{
    let ghost all = function_models(functions@);
    let mut i: usize = 0;
    while i < functions.len()
        invariant
            i <= functions@.len(),
            natives@.len() == functions@.len(),
            all == function_models(functions@),
            forall|k: int|
                0 <= k < i ==> is_known_body(
                    (#[trigger] all[k]).body,
                    slots.model().variables,
                    native_maps(natives@)[k],
                    bindings(parameters@),
                ),
        decreases functions@.len() - i,
    {
        assert(all[i as int] == functions@[i as int].model());
        assert(native_maps(natives@)[i as int] == natives@[i as int]@);
        if !knows_instruction_body(
            &functions[i].body,
            &slots.variables,
            &natives[i],
            parameters,
        ) {
            return false;
        }
        i = i + 1;
    }
    true
}

fn sequence_all(
    functions: &Vec<SyntheticFunction>,
    slots: &mut Slots,
    natives: &Vec<Table<usize, VariableId>>,
    parameters: &Vec<Vec<(VariableId, usize)>>,
) -> (res: Vec<SyntheticFunction>)
    requires
        natives@.len() == functions@.len(),
        forall|i: int|
            0 <= i < functions@.len() ==> is_known_body(
                (#[trigger] function_models(functions@)[i]).body,
                old(slots).model().variables,
                native_maps(natives@)[i],
                bindings(parameters@),
            ),
    ensures
        (final(slots).model(), function_models(res@)) == all_sequenced(
            function_models(functions@),
            old(slots).model(),
            native_maps(natives@),
            bindings(parameters@),
        ),
        final(slots).model().variables == old(slots).model().variables,
        res@.len() == functions@.len(),
{
    let ghost all = function_models(functions@);
    let ghost start = slots.model();
    let mut res: Vec<SyntheticFunction> = Vec::new();
    assert(all.subrange(0, 0) =~= Seq::empty());
    assert(function_models(res@) =~= Seq::<FunctionModel>::empty());
    let mut i: usize = 0;
    while i < functions.len()
        invariant
            i <= functions@.len(),
            res@.len() == i,
            natives@.len() == functions@.len(),
            all == function_models(functions@),
            slots.model().variables == start.variables,
            forall|k: int|
                0 <= k < functions@.len() ==> is_known_body(
                    (#[trigger] all[k]).body,
                    start.variables,
                    native_maps(natives@)[k],
                    bindings(parameters@),
                ),
            (slots.model(), function_models(res@)) == all_sequenced(
                all.subrange(0, i as int),
                start,
                native_maps(natives@),
                bindings(parameters@),
            ),
        decreases functions@.len() - i,
    {
        let ghost prefix = all.subrange(0, i + 1);
        assert(prefix.drop_last() =~= all.subrange(0, i as int));
        assert(all[i as int] == functions@[i as int].model());
        assert(native_maps(natives@)[i as int] == natives@[i as int]@);
        let ghost before = function_models(res@);
        let body: Vec<(usize, IRInst)> = sequence(
            slots,
            &functions[i].body,
            &natives[i],
            parameters,
        );
        let mut signature: Vec<Parameter> = Vec::new();
        let mut k: usize = 0;
        while k < functions[i].parameters.len()
            invariant
                i < functions@.len(),
                k <= functions@[i as int].parameters@.len(),
                signature@ == functions@[i as int].parameters@.subrange(0, k as int),
            decreases functions@[i as int].parameters@.len() - k,
        {
            signature.push(functions[i].parameters[k]);
            k = k + 1;
            assert(signature@ =~= functions@[i as int].parameters@.subrange(0, k as int));
        }
        assert(signature@ =~= functions@[i as int].parameters@);
        let function: SyntheticFunction = SyntheticFunction {
            entry_offset: functions[i].entry_offset,
            parameters: signature,
            body,
        };
        let ghost model = function.model();
        res.push(function);
        assert(function_models(res@) =~= before.push(model));
        i = i + 1;
    }
    assert(all.subrange(0, i as int) =~= all);
    res
}

/// The parameters of the entry over the slots of the merged function.
pub open spec fn signature_of(
    parameters: Seq<Parameter>,
    variables: Map<VariableId, VariableId>,
) -> Seq<Parameter> {
    parameters.map_values(
        |p: Parameter|
            match p {
                Parameter::Slot { variable, register } => Parameter::Slot {
                    variable: if variables.dom().contains(variable) {
                        variables[variable]
                    } else {
                        variable
                    },
                    register,
                },
                Parameter::Value { variable, size } => Parameter::Value {
                    variable: if variables.dom().contains(variable) {
                        variables[variable]
                    } else {
                        variable
                    },
                    size,
                },
                Parameter::Native { .. } | Parameter::Input { .. } => p,
            },
    )
}

fn make_signature(list: &Vec<Parameter>, variables: &Table<VariableId, VariableId>) -> (res: Vec<
    Parameter,
>)
    ensures
        res@ == signature_of(list@, variables@),
{
    let mut res: Vec<Parameter> = Vec::new();
    let mut i: usize = 0;
    while i < list.len()
        invariant
            i <= list@.len(),
            res@ == signature_of(list@.subrange(0, i as int), variables@),
        decreases list@.len() - i,
    {
        res.push(
            match list[i] {
                Parameter::Slot { variable, register } => Parameter::Slot {
                    variable: match variables.get(variable) {
                        Some(local) => *local,
                        None => variable,
                    },
                    register,
                },
                Parameter::Value { variable, size } => Parameter::Value {
                    variable: match variables.get(variable) {
                        Some(local) => *local,
                        None => variable,
                    },
                    size,
                },
                Parameter::Native { .. } | Parameter::Input { .. } => list[i],
            },
        );
        i = i + 1;
        assert(res@ =~= signature_of(list@.subrange(0, i as int), variables@));
    }
    assert(list@.subrange(0, i as int) =~= list@);
    res
}

/// The slots among the parameters.
pub open spec fn signature_slots(parameters: Seq<Parameter>) -> Set<VariableId>
    decreases parameters.len(),
{
    if parameters.len() == 0 {
        Set::empty()
    } else {
        let before = signature_slots(parameters.drop_last());
        match parameters.last().local() {
            Some(variable) => before.insert(variable),
            None => before,
        }
    }
}

fn collect_signature(list: &Vec<Parameter>) -> (res: KeySet<VariableId>)
    ensures
        res@ == signature_slots(list@),
{
    let mut res: KeySet<VariableId> = KeySet::new();
    assert(list@.subrange(0, 0) =~= Seq::empty());
    let mut i: usize = 0;
    while i < list.len()
        invariant
            i <= list@.len(),
            res@ == signature_slots(list@.subrange(0, i as int)),
        decreases list@.len() - i,
    {
        let ghost prefix = list@.subrange(0, i + 1);
        assert(prefix.drop_last() =~= list@.subrange(0, i as int));
        if let Some(variable) = list[i].variable() {
            res.insert(variable);
        }
        i = i + 1;
    }
    assert(list@.subrange(0, i as int) =~= list@);
    res
}

/// The assignments and declarations of variables that are used and not excepted.
pub open spec fn only_used(
    list: Seq<(usize, InstModel)>,
    used: Set<VariableId>,
    excepted: Set<VariableId>,
) -> Seq<(usize, InstModel)>
    decreases list.len(),
{
    if list.len() == 0 {
        Seq::empty()
    } else {
        let before = only_used(list.drop_last(), used, excepted);
        match list.last().1 {
            InstModel::AssignVariable { variable, .. }
            | InstModel::DeclareVariable { variable, .. } => if used.contains(variable)
                && !excepted.contains(variable) {
                before.push(list.last())
            } else {
                before
            },
            _ => before,
        }
    }
}

fn keep_used(
    list: &Vec<(usize, IRInst)>,
    used: &KeySet<VariableId>,
    excepted: &KeySet<VariableId>,
    out: &mut Vec<(usize, IRInst)>,
)
    ensures
        body_models(final(out)@) == body_models(old(out)@) + only_used(
            body_models(list@),
            used@,
            excepted@,
        ),
{
    let ghost all = body_models(list@);
    let ghost before = body_models(out@);
    assert(all.subrange(0, 0) =~= Seq::empty());
    assert(before =~= before + Seq::<(usize, InstModel)>::empty());
    let mut i: usize = 0;
    while i < list.len()
        invariant
            i <= list@.len(),
            all == body_models(list@),
            body_models(out@) == before + only_used(
                all.subrange(0, i as int),
                used@,
                excepted@,
            ),
        decreases list@.len() - i,
    {
        let ghost prefix = all.subrange(0, i + 1);
        assert(prefix.drop_last() =~= all.subrange(0, i as int));
        let variable: Option<VariableId> = match &list[i].1 {
            IRInst::AssignVariable { variable, .. } => Some(*variable),
            IRInst::DeclareVariable { variable, .. } => Some(*variable),
            _ => None,
        };
        if let Some(variable) = variable {
            if used.contains(variable) && !excepted.contains(variable) {
                push_at(out, list[i].0, list[i].1.clone());
                assert(body_models(out@) =~= before + only_used(prefix, used@, excepted@));
            }
        }
        i = i + 1;
    }
    assert(all.subrange(0, i as int) =~= all);
}

/// The program as one function, unless a variable or an argument has no slot, a
/// call does not match its function, a transfer has no target, or the numbers run
/// out.
pub open spec fn merged(program: ProgramModel) -> Option<ProgramModel> {
    match program.entry {
        None => Some(program),
        Some(entry) => {
            let functions = program.functions;
            let all = gathered(functions, entry.id);
            if entry.id >= functions.len() || !all_known(functions, all) {
                None
            } else {
                let made = all_sequenced(functions, all.slots, all.natives, all.parameters);
                match built(made.1) {
                    None => None,
                    Some(nodes) => {
                        let (graph, start) = eliminated(nodes, entry.id as int);
                        let structured = region(
                            graph,
                            joins_of(graph, start as int),
                            start as usize,
                            None,
                            Seq::new(graph.len(), |i: int| None),
                            Flow {
                                back_edges: Set::empty(),
                                numbers: Numbers { next: 0, spent: false },
                            },
                        );
                        let signature = signature_of(
                            functions[entry.id as int].parameters,
                            all.slots.variables,
                        );
                        let used = used_with_body(structured.0, Set::empty());
                        if graph.len() >= usize::MAX || made.0.numbers.spent
                            || structured.1.numbers.spent {
                            None
                        } else {
                            Some(
                                ProgramModel {
                                    entry: Some(SyntheticFunctionId { id: 0 }),
                                    functions: seq![
                                        FunctionModel {
                                            entry_offset: functions[entry.id as int].entry_offset,
                                            parameters: signature,
                                            body: only_used(
                                                made.0.declarations,
                                                used,
                                                signature_slots(signature),
                                            ) + only_used(all.initializers, used, Set::empty())
                                                + structured.0,
                                        },
                                    ],
                                    ..program
                                },
                            )
                        }
                    },
                }
            }
        },
    }
}

/// Merges the functions of a program into one, if that can be done.
pub fn try_tr(program: Program) -> (res: Option<Program>)
    ensures
        match res {
            Some(after) => merged(program.model()) == Some(after.model()),
            None => merged(program.model()) is None,
        },
{
    let entry: usize = match program.entry {
        Some(entry) => entry.id,
        None => return Some(program),
    };
    let ghost functions = function_models(program.functions@);
    if entry >= program.functions.len() {
        return None;
    }
    let mut slots: Slots = Slots::new();
    let mut natives: Vec<Table<usize, VariableId>> = Vec::new();
    let mut initializers: Vec<(usize, IRInst)> = Vec::new();
    let parameters: Vec<Vec<(VariableId, usize)>> = gather(
        &program.functions,
        entry,
        &mut slots,
        &mut natives,
        &mut initializers,
    );
    let ghost all = gathered(functions, entry);
    if !knows_all(&program.functions, &slots, &natives, &parameters) {
        return None;
    }
    assert(functions[entry as int] == program.functions@[entry as int].model());
    let signature: Vec<Parameter> = make_signature(
        &program.functions[entry].parameters,
        &slots.variables,
    );
    let local: Vec<SyntheticFunction> = sequence_all(
        &program.functions,
        &mut slots,
        &natives,
        &parameters,
    );
    let nodes: Vec<Node> = match build(&local) {
        Some(nodes) => nodes,
        None => return None,
    };
    let (graph, start) = eliminate_branches(nodes, entry);
    if graph.len() == usize::MAX || slots.numbers.spent {
        return None;
    }
    let joins: Vec<Option<usize>> = postdominators(&graph, start);
    let mut active: Vec<Option<LoopId>> = Vec::new();
    let mut i: usize = 0;
    while i < graph.len()
        invariant
            i <= graph@.len(),
            active@.len() == i,
            forall|k: int| 0 <= k < i ==> (#[trigger] active@[k]) is None,
        decreases graph@.len() - i,
    {
        active.push(None);
        i = i + 1;
    }
    assert(active@ =~= Seq::new(node_models(graph@).len(), |i: int| None));
    let mut inliner: Inliner = Inliner {
        active,
        back_edges: Vec::new(),
        numbers: Numbers { next: 0, spent: false },
    };
    assert(inliner.flow().back_edges =~= Set::<LoopId>::empty());
    let mut body: Vec<(usize, IRInst)> = make_region(&mut inliner, &graph, &joins, start, None);
    if inliner.numbers.spent {
        return None;
    }
    let mut used: KeySet<VariableId> = KeySet::new();
    instruction_variables_body(&body, &mut used);
    let excepted: KeySet<VariableId> = collect_signature(&signature);
    let mut out: Vec<(usize, IRInst)> = Vec::new();
    assert(body_models(out@) =~= Seq::<(usize, InstModel)>::empty());
    keep_used(&slots.declarations, &used, &excepted, &mut out);
    let nothing: KeySet<VariableId> = KeySet::new();
    keep_used(&initializers, &used, &nothing, &mut out);
    let ghost front = body_models(out@);
    let ghost back = body_models(body@);
    out.append(&mut body);
    assert(body_models(out@) =~= front + back);
    let function: SyntheticFunction = SyntheticFunction {
        entry_offset: program.functions[entry].entry_offset,
        parameters: signature,
        body: out,
    };
    let ghost model = function.model();
    let mut merged_functions: Vec<SyntheticFunction> = Vec::new();
    merged_functions.push(function);
    assert(function_models(merged_functions@) =~= seq![model]);
    proof {
        let declared = only_used(
            body_models(slots.declarations@),
            used@,
            excepted@,
        );
        assert(Seq::<(usize, InstModel)>::empty() + declared =~= declared);
    }
    Some(
        Program {
            entry_address: program.entry_address,
            entry: Some(SyntheticFunctionId { id: 0 }),
            data: program.data,
            functions: merged_functions,
        },
    )
}

/// Merges the functions of a program into one. Everything that is named has to
/// have a slot, and every transfer a target.
pub fn tr(program: Program) -> (res: Program)
    requires
        merged(program.model()) is Some,
    ensures
        Some(res.model()) == merged(program.model()),
{
    match try_tr(program) {
        Some(program) => program,
        None => vstd::pervasive::unreached(),
    }
}

} // verus!
