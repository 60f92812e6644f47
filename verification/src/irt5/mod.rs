//! Tier 5: types inferred from operations with decisive shapes.
pub mod addressing;
pub mod ids;
pub mod infer_types;
pub mod ir;
pub mod signedness;
pub mod sizes;

use crate::irt4::ir as t4;
use crate::text::owned;
use ids::{all_slots, translated, VariableIds};
use infer_types::program_typed;
use ir::{
    body_models, data_models, function_models, models, DataId, DataModel, DataVariable,
    FunctionModel, IRBinOpKind, IRExpr, IRInst, InstModel, IntegerType, LoopCondition, LoopId,
    Parameter, Program, ProgramModel, StructModel, SyntheticFunction, SyntheticFunctionId,
    VariableId, VariableType,
};
use vstd::prelude::*;

verus! {

pub open spec fn function_of(id: t4::SyntheticFunctionId) -> SyntheticFunctionId {
    SyntheticFunctionId { id: id.id }
}

fn function_id(id: t4::SyntheticFunctionId) -> (res: SyntheticFunctionId)
    ensures
        res == function_of(id),
{
    SyntheticFunctionId { id: id.id }
}

pub open spec fn integer_of(ty: t4::IntegerType) -> IntegerType {
    IntegerType { size: ty.size, signed: ty.signed }
}

fn integer(ty: t4::IntegerType) -> (res: IntegerType)
    ensures
        res == integer_of(ty),
{
    IntegerType { size: ty.size, signed: ty.signed }
}

pub open spec fn data_of(id: t4::DataId) -> DataId {
    DataId { id: id.id }
}

fn data_id(id: t4::DataId) -> (res: DataId)
    ensures
        res == data_of(id),
{
    DataId { id: id.id }
}

pub open spec fn loop_of(id: t4::LoopId) -> LoopId {
    LoopId { id: id.id }
}

fn loop_id(id: t4::LoopId) -> (res: LoopId)
    ensures
        res == loop_of(id),
{
    LoopId { id: id.id }
}

pub open spec fn label_of(label: Option<t4::LoopId>) -> Option<LoopId> {
    match label {
        Some(id) => Some(loop_of(id)),
        None => None,
    }
}

fn loop_label(label: Option<t4::LoopId>) -> (res: Option<LoopId>)
    ensures
        res == label_of(label),
{
    match label {
        Some(id) => Some(loop_id(id)),
        None => None,
    }
}

pub open spec fn kind_of(kind: t4::IRBinOpKind) -> IRBinOpKind {
    match kind {
        t4::IRBinOpKind::Add => IRBinOpKind::Add,
        t4::IRBinOpKind::Sub => IRBinOpKind::Sub,
        t4::IRBinOpKind::Mul => IRBinOpKind::Mul,
        t4::IRBinOpKind::Shl => IRBinOpKind::Shl,
        t4::IRBinOpKind::Shr => IRBinOpKind::Shr,
        t4::IRBinOpKind::BitOr => IRBinOpKind::BitOr,
        t4::IRBinOpKind::And => IRBinOpKind::And,
        t4::IRBinOpKind::Or => IRBinOpKind::Or,
        t4::IRBinOpKind::Eq => IRBinOpKind::Eq,
        t4::IRBinOpKind::SignedGt => IRBinOpKind::SignedGt,
        t4::IRBinOpKind::Ne => IRBinOpKind::Ne,
        t4::IRBinOpKind::UnsignedLt => IRBinOpKind::UnsignedLt,
        t4::IRBinOpKind::UnsignedGe => IRBinOpKind::UnsignedGe,
    }
}

fn bin_op(kind: t4::IRBinOpKind) -> (res: IRBinOpKind)
    ensures
        res == kind_of(kind),
{
    match kind {
        t4::IRBinOpKind::Add => IRBinOpKind::Add,
        t4::IRBinOpKind::Sub => IRBinOpKind::Sub,
        t4::IRBinOpKind::Mul => IRBinOpKind::Mul,
        t4::IRBinOpKind::Shl => IRBinOpKind::Shl,
        t4::IRBinOpKind::Shr => IRBinOpKind::Shr,
        t4::IRBinOpKind::BitOr => IRBinOpKind::BitOr,
        t4::IRBinOpKind::And => IRBinOpKind::And,
        t4::IRBinOpKind::Or => IRBinOpKind::Or,
        t4::IRBinOpKind::Eq => IRBinOpKind::Eq,
        t4::IRBinOpKind::SignedGt => IRBinOpKind::SignedGt,
        t4::IRBinOpKind::Ne => IRBinOpKind::Ne,
        t4::IRBinOpKind::UnsignedLt => IRBinOpKind::UnsignedLt,
        t4::IRBinOpKind::UnsignedGe => IRBinOpKind::UnsignedGe,
    }
}

pub open spec fn type_of(ty: t4::VariableType) -> VariableType {
    match ty {
        t4::VariableType::Unknown(size) => VariableType::Unknown(size),
        t4::VariableType::Bool => VariableType::Bool,
    }
}

fn variable_type(ty: t4::VariableType) -> (res: VariableType)
    ensures
        res == type_of(ty),
{
    match ty {
        t4::VariableType::Unknown(size) => VariableType::Unknown(size),
        t4::VariableType::Bool => VariableType::Bool,
    }
}

/// The same expression in this tier.
pub open spec fn expression_of(expr: t4::IRExpr, ids: Seq<t4::VariableId>) -> IRExpr
    decreases expr,
{
    match expr {
        t4::IRExpr::BinOp { kind, lhs, rhs } => IRExpr::BinOp {
            kind: kind_of(kind),
            lhs: Box::new(expression_of(*lhs, ids)),
            rhs: Box::new(expression_of(*rhs, ids)),
        },
        t4::IRExpr::Deref(address) => IRExpr::Deref(Box::new(expression_of(*address, ids))),
        t4::IRExpr::CastUnknownPtr { address, size } => IRExpr::MemoryAddress {
            address: Box::new(expression_of(*address, ids)),
            size,
        },
        t4::IRExpr::Argument(ordinal) => IRExpr::Argument(ordinal),
        t4::IRExpr::Convert { value, source, target } => IRExpr::Convert {
            value: Box::new(expression_of(*value, ids)),
            source: integer_of(source),
            target: integer_of(target),
        },
        t4::IRExpr::CU8(value) => IRExpr::CU8(value),
        t4::IRExpr::CU32(value) => IRExpr::CU32(value),
        t4::IRExpr::CU64(value) => IRExpr::CU64(value),
        t4::IRExpr::Variable(variable) => IRExpr::Variable(translated(ids, variable)),
        t4::IRExpr::Data(id) => IRExpr::Data(data_of(id)),
        t4::IRExpr::Bool(value) => IRExpr::Bool(value),
        t4::IRExpr::Not(inner) => IRExpr::Not(Box::new(expression_of(*inner, ids))),
    }
}

fn expression(expr: &t4::IRExpr, ids: &VariableIds) -> (res: IRExpr)
    ensures
        res == expression_of(*expr, ids.model()),
    decreases expr,
{
    match expr {
        t4::IRExpr::BinOp { kind, lhs, rhs } => IRExpr::BinOp {
            kind: bin_op(*kind),
            lhs: Box::new(expression(lhs, ids)),
            rhs: Box::new(expression(rhs, ids)),
        },
        t4::IRExpr::Deref(address) => IRExpr::Deref(Box::new(expression(address, ids))),
        t4::IRExpr::CastUnknownPtr { address, size } => IRExpr::MemoryAddress {
            address: Box::new(expression(address, ids)),
            size: *size,
        },
        t4::IRExpr::Argument(ordinal) => IRExpr::Argument(*ordinal),
        t4::IRExpr::Convert { value, source, target } => IRExpr::Convert {
            value: Box::new(expression(value, ids)),
            source: integer(*source),
            target: integer(*target),
        },
        t4::IRExpr::CU8(value) => IRExpr::CU8(*value),
        t4::IRExpr::CU32(value) => IRExpr::CU32(*value),
        t4::IRExpr::CU64(value) => IRExpr::CU64(*value),
        t4::IRExpr::Variable(variable) => IRExpr::Variable(ids.translate(*variable)),
        t4::IRExpr::Data(id) => IRExpr::Data(data_id(*id)),
        t4::IRExpr::Bool(value) => IRExpr::Bool(*value),
        t4::IRExpr::Not(inner) => IRExpr::Not(Box::new(expression(inner, ids))),
    }
}

pub open spec fn expressions_of(list: Seq<t4::IRExpr>, ids: Seq<t4::VariableId>) -> Seq<IRExpr> {
    list.map_values(|e: t4::IRExpr| expression_of(e, ids))
}

fn expressions(list: &Vec<t4::IRExpr>, ids: &VariableIds) -> (res: Vec<IRExpr>)
    ensures
        res@ == expressions_of(list@, ids.model()),
{
    let mut res: Vec<IRExpr> = Vec::new();
    let mut i: usize = 0;
    while i < list.len()
        invariant
            i <= list@.len(),
            res@.len() == i,
            forall|k: int| 0 <= k < i ==> (#[trigger] res@[k]) == expression_of(
                list@[k],
                ids.model(),
            ),
        decreases list@.len() - i,
    {
        res.push(expression(&list[i], ids));
        i = i + 1;
    }
    assert(res@ =~= expressions_of(list@, ids.model()));
    res
}

pub open spec fn condition_of(
    condition: t4::LoopCondition,
    ids: Seq<t4::VariableId>,
) -> LoopCondition {
    match condition {
        t4::LoopCondition::Before { offset, expression } => LoopCondition::Before {
            offset,
            expression: expression_of(expression, ids),
        },
        t4::LoopCondition::After { offset, expression } => LoopCondition::After {
            offset,
            expression: expression_of(expression, ids),
        },
    }
}

fn loop_condition(condition: &t4::LoopCondition, ids: &VariableIds) -> (res: LoopCondition)
    ensures
        res == condition_of(*condition, ids.model()),
{
    match condition {
        t4::LoopCondition::Before { offset, expression: value } => LoopCondition::Before {
            offset: *offset,
            expression: expression(value, ids),
        },
        t4::LoopCondition::After { offset, expression: value } => LoopCondition::After {
            offset: *offset,
            expression: expression(value, ids),
        },
    }
}

/// The same instruction in this tier.
pub open spec fn instruction_of(instr: t4::InstModel, ids: Seq<t4::VariableId>) -> InstModel
    decreases instr,
{
    match instr {
        t4::InstModel::Assign { dest, src } => InstModel::Assign {
            dest: expression_of(dest, ids),
            src: expression_of(src, ids),
        },
        t4::InstModel::Return(value) => InstModel::Return(match value {
                Some(value) => Some(expression_of(value, ids)),
                None => None,
            }),
        t4::InstModel::DeclareVariable { variable, ty } => InstModel::DeclareVariable {
            variable: translated(ids, variable),
            ty: type_of(ty),
        },
        t4::InstModel::DeclareAndAssignVariable {
            variable,
            ty,
            value,
        } => InstModel::DeclareAndAssignVariable {
            variable: translated(ids, variable),
            ty: type_of(ty),
            value: expression_of(value, ids),
        },
        t4::InstModel::AssignVariable { variable, value } => InstModel::AssignVariable {
            variable: translated(ids, variable),
            value: expression_of(value, ids),
        },
        t4::InstModel::LoadVariable { variable, address } => InstModel::LoadVariable {
            variable: translated(ids, variable),
            address: expression_of(address, ids),
        },
        t4::InstModel::StoreVariable { address, variable } => InstModel::StoreVariable {
            address: expression_of(address, ids),
            variable: translated(ids, variable),
        },
        t4::InstModel::If { condition, then_branch, else_branch } => InstModel::If {
            condition: expression_of(condition, ids),
            then_branch: branch_of(then_branch, ids),
            else_branch: branch_of(else_branch, ids),
        },
        t4::InstModel::While { label, entry_offset, condition, body } => InstModel::While {
            label: label_of(label),
            entry_offset,
            condition: condition_of(condition, ids),
            body: body_of(body, ids),
        },
        t4::InstModel::Break => InstModel::Break,
        t4::InstModel::Continue => InstModel::Continue,
        t4::InstModel::ContinueLoop(label) => InstModel::ContinueLoop(loop_of(label)),
        t4::InstModel::CallSynthetic { function, arguments } => InstModel::CallSynthetic {
            function: function_of(function),
            arguments: expressions_of(arguments, ids),
        },
        t4::InstModel::Jump(target) => InstModel::Jump(expression_of(target, ids)),
        t4::InstModel::End => InstModel::End,
    }
}

pub open spec fn branch_of(list: Seq<t4::InstModel>, ids: Seq<t4::VariableId>) -> Seq<InstModel>
    decreases list,
{
    Seq::new(
        list.len(),
        |i: int|
            if 0 <= i < list.len() {
                instruction_of(list[i], ids)
            } else {
                arbitrary()
            },
    )
}

pub open spec fn body_of(
    list: Seq<(usize, t4::InstModel)>,
    ids: Seq<t4::VariableId>,
) -> Seq<(usize, InstModel)>
    decreases list,
{
    Seq::new(
        list.len(),
        |i: int|
            if 0 <= i < list.len() {
                (list[i].0, instruction_of(list[i].1, ids))
            } else {
                arbitrary()
            },
    )
}

fn instruction(instr: &t4::IRInst, ids: &VariableIds) -> (res: IRInst)
    ensures
        res.model() == instruction_of(instr.model(), ids.model()),
    decreases instr,
{
    match instr {
        t4::IRInst::Assign { dest, src } => IRInst::Assign {
            dest: expression(dest, ids),
            src: expression(src, ids),
        },
        t4::IRInst::Return(value) => IRInst::Return(match value {
                Some(value) => Some(expression(value, ids)),
                None => None,
            }),
        t4::IRInst::DeclareVariable { variable, ty } => IRInst::DeclareVariable {
            variable: ids.translate(*variable),
            ty: variable_type(*ty),
        },
        t4::IRInst::DeclareAndAssignVariable {
            variable,
            ty,
            value,
        } => IRInst::DeclareAndAssignVariable {
            variable: ids.translate(*variable),
            ty: variable_type(*ty),
            value: expression(value, ids),
        },
        t4::IRInst::AssignVariable { variable, value } => IRInst::AssignVariable {
            variable: ids.translate(*variable),
            value: expression(value, ids),
        },
        t4::IRInst::LoadVariable { variable, address } => IRInst::LoadVariable {
            variable: ids.translate(*variable),
            address: expression(address, ids),
        },
        t4::IRInst::StoreVariable { address, variable } => IRInst::StoreVariable {
            address: expression(address, ids),
            variable: ids.translate(*variable),
        },
        t4::IRInst::If { condition, then_branch, else_branch } => IRInst::If {
            condition: expression(condition, ids),
            then_branch: branch(then_branch, ids),
            else_branch: branch(else_branch, ids),
        },
        t4::IRInst::While { label, entry_offset, condition, body } => IRInst::While {
            label: loop_label(*label),
            entry_offset: *entry_offset,
            condition: loop_condition(condition, ids),
            body: body_list(body, ids),
        },
        t4::IRInst::Break => IRInst::Break,
        t4::IRInst::Continue => IRInst::Continue,
        t4::IRInst::ContinueLoop(label) => IRInst::ContinueLoop(loop_id(*label)),
        t4::IRInst::CallSynthetic { function, arguments } => IRInst::CallSynthetic {
            function: function_id(*function),
            arguments: expressions(arguments, ids),
        },
        t4::IRInst::Jump(target) => IRInst::Jump(expression(target, ids)),
        t4::IRInst::End => IRInst::End,
    }
}

fn branch(list: &Vec<t4::IRInst>, ids: &VariableIds) -> (res: Vec<IRInst>)
    ensures
        models(res@) == branch_of(t4::models(list@), ids.model()),
    decreases list,
{
    let ghost all = t4::models(list@);
    let mut res: Vec<IRInst> = Vec::new();
    let mut i: usize = 0;
    while i < list.len()
        invariant
            i <= list@.len(),
            all == t4::models(list@),
            res@.len() == i,
            forall|k: int| 0 <= k < i ==> (#[trigger] res@[k]).model() == instruction_of(
                all[k],
                ids.model(),
            ),
        decreases list@.len() - i,
    {
        assert(decreases_to!(list => list@[i as int]));
        res.push(instruction(&list[i], ids));
        i = i + 1;
    }
    assert(models(res@) =~= branch_of(all, ids.model()));
    res
}

fn body_list(list: &Vec<(usize, t4::IRInst)>, ids: &VariableIds) -> (res: Vec<(usize, IRInst)>)
    ensures
        body_models(res@) == body_of(t4::body_models(list@), ids.model()),
    decreases list,
{
    let ghost all = t4::body_models(list@);
    let mut res: Vec<(usize, IRInst)> = Vec::new();
    let mut i: usize = 0;
    while i < list.len()
        invariant
            i <= list@.len(),
            all == t4::body_models(list@),
            res@.len() == i,
            forall|k: int| 0 <= k < i ==> (#[trigger] res@[k]).0 == all[k].0 && res@[k].1.model() == instruction_of(
                all[k].1,
                ids.model(),
            ),
        decreases list@.len() - i,
    {
        assert(decreases_to!(list => list@[i as int]));
        res.push((list[i].0, instruction(&list[i].1, ids)));
        i = i + 1;
    }
    assert(body_models(res@) =~= body_of(all, ids.model()));
    res
}

pub open spec fn parameter_of(parameter: t4::Parameter, ids: Seq<t4::VariableId>) -> Parameter {
    match parameter {
        t4::Parameter::Argument { ordinal, size } => Parameter::Argument {
            ordinal,
            ty: VariableType::Unknown(Some(size)),
        },
        t4::Parameter::Slot { variable, size } => Parameter::Slot {
            variable: translated(ids, variable),
            ty: VariableType::Unknown(Some(size)),
        },
    }
}

pub open spec fn parameters_of(list: Seq<t4::Parameter>, ids: Seq<t4::VariableId>) -> Seq<
    Parameter,
> {
    list.map_values(|p: t4::Parameter| parameter_of(p, ids))
}

pub open spec fn data_slot_of(data: t4::DataModel) -> DataModel {
    DataModel {
        id: data_of(data.id),
        address: data.address,
        name: data.name,
        ty: type_of(data.ty),
    }
}

pub open spec fn function_in(
    function: t4::FunctionModel,
    ids: Seq<t4::VariableId>,
) -> FunctionModel {
    FunctionModel {
        entry_offset: function.entry_offset,
        parameters: parameters_of(function.parameters, ids),
        body: body_of(function.body, ids),
    }
}

/// The same program in this tier, with dense slot numbers and no inferred types.
pub open spec fn program_in(source: t4::ProgramModel) -> ProgramModel {
    let ids = all_slots(source.functions);
    ProgramModel {
        entry: match source.entry {
            Some(entry) => Some(function_of(entry)),
            None => None,
        },
        data: source.data.map_values(|d: t4::DataModel| data_slot_of(d)),
        functions: source.functions.map_values(|f: t4::FunctionModel| function_in(f, ids)),
        structs: Seq::empty(),
    }
}

/// The tier 5 program of a tier 4 program.
pub open spec fn lifted(source: t4::ProgramModel) -> ProgramModel {
    program_typed(program_in(source))
}

fn parameters(list: &Vec<t4::Parameter>, ids: &VariableIds) -> (res: Vec<Parameter>)
    ensures
        res@ == parameters_of(list@, ids.model()),
{
    let mut res: Vec<Parameter> = Vec::new();
    let mut i: usize = 0;
    while i < list.len()
        invariant
            i <= list@.len(),
            res@.len() == i,
            forall|k: int|
                0 <= k < i ==> (#[trigger] res@[k]) == parameter_of(list@[k], ids.model()),
        decreases list@.len() - i,
    {
        let made: Parameter = match list[i] {
            t4::Parameter::Argument { ordinal, size } => Parameter::Argument {
                ordinal,
                ty: VariableType::Unknown(Some(size)),
            },
            t4::Parameter::Slot { variable, size } => Parameter::Slot {
                variable: ids.translate(variable),
                ty: VariableType::Unknown(Some(size)),
            },
        };
        res.push(made);
        i = i + 1;
    }
    assert(res@ =~= parameters_of(list@, ids.model()));
    res
}

fn data_slots(data: &Vec<t4::DataVariable>) -> (res: Vec<DataVariable>)
    ensures
        data_models(res@) == t4::data_models(data@).map_values(|d: t4::DataModel| data_slot_of(d)),
{
    let mut res: Vec<DataVariable> = Vec::new();
    let mut i: usize = 0;
    while i < data.len()
        invariant
            i <= data@.len(),
            res@.len() == i,
            forall|k: int|
                0 <= k < i ==> (#[trigger] res@[k]).model() == data_slot_of(data@[k].model()),
        decreases data@.len() - i,
    {
        res.push(
            DataVariable {
                id: data_id(data[i].id),
                address: data[i].address,
                name: owned(data[i].name.as_str()),
                ty: variable_type(data[i].ty),
            },
        );
        i = i + 1;
    }
    assert(data_models(res@) =~= t4::data_models(data@).map_values(
        |d: t4::DataModel| data_slot_of(d),
    ));
    res
}

fn functions(list: &Vec<t4::SyntheticFunction>, ids: &VariableIds) -> (res: Vec<SyntheticFunction>)
    ensures
        function_models(res@) == t4::function_models(list@).map_values(
            |f: t4::FunctionModel| function_in(f, ids.model()),
        ),
{
    let mut res: Vec<SyntheticFunction> = Vec::new();
    let mut i: usize = 0;
    while i < list.len()
        invariant
            i <= list@.len(),
            res@.len() == i,
            forall|k: int|
                0 <= k < i ==> (#[trigger] res@[k]).model() == function_in(
                    list@[k].model(),
                    ids.model(),
                ),
        decreases list@.len() - i,
    {
        res.push(
            SyntheticFunction {
                entry_offset: list[i].entry_offset,
                parameters: parameters(&list[i].parameters, ids),
                body: body_list(&list[i].body, ids),
            },
        );
        i = i + 1;
    }
    assert(function_models(res@) =~= t4::function_models(list@).map_values(
        |f: t4::FunctionModel| function_in(f, ids.model()),
    ));
    res
}

/// Lifts a tier 4 program.
pub fn lift(source: &t4::Program) -> (res: Program)
    ensures
        res.model() == lifted(source.model()),
{
    let ids: VariableIds = ids::collect(&source.functions);
    let mut program = Program {
        entry: match source.entry {
            Some(entry) => Some(function_id(entry)),
            None => None,
        },
        data: data_slots(&source.data),
        functions: functions(&source.functions, &ids),
        structs: Vec::new(),
    };
    assert(program.model().structs =~= Seq::<StructModel>::empty());
    assert(program.model() == program_in(source.model()));
    infer_types::run(&mut program);
    program
}

} // verus!
