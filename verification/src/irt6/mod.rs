//! Tier 6 owns its complete program IR. Arithmetic analysis and recovery are
//! separate from the lossless tier 5 translation.
pub mod arithmetic;
pub mod cancellation;
pub mod comments;
pub mod debug;
pub mod effects;
pub mod eliminate_variables;
pub mod infer_returns;
pub mod infer_types;
pub mod lists;
pub mod lossless;
pub mod meaning;
pub mod relocate_variables;
pub mod relocation_laws;
pub mod sums;
pub mod total_order;
pub mod unoptimize;
pub mod uses;
pub mod ir;
pub mod order;
pub mod render;
pub mod shapes;

use crate::irt5::ir as t5;
use crate::text::owned;
use ir::{
    body_models, data_models, function_models, models, struct_models, DataId, DataModel,
    DataVariable, FunctionModel, IRBinOpKind, IRExpr, IRInst, InstModel, IntegerType,
    LoopCondition, LoopId, Parameter, Program, ProgramModel, StructDefinition, StructField,
    StructId, StructModel, SyntheticFunction, SyntheticFunctionId, VariableId, VariableType,
};
use vstd::prelude::*;

verus! {

pub open spec fn function_of(id: t5::SyntheticFunctionId) -> SyntheticFunctionId {
    SyntheticFunctionId { id: id.id }
}

fn function_id(id: t5::SyntheticFunctionId) -> (res: SyntheticFunctionId)
    ensures
        res == function_of(id),
{
    SyntheticFunctionId { id: id.id }
}

pub open spec fn variable_of(id: t5::VariableId) -> VariableId {
    VariableId { owner: function_of(id.owner), id: id.id }
}

fn variable_id(id: t5::VariableId) -> (res: VariableId)
    ensures
        res == variable_of(id),
{
    VariableId { owner: function_id(id.owner), id: id.id }
}

pub open spec fn integer_of(ty: t5::IntegerType) -> IntegerType {
    IntegerType { size: ty.size, signed: ty.signed }
}

fn integer(ty: t5::IntegerType) -> (res: IntegerType)
    ensures
        res == integer_of(ty),
{
    IntegerType { size: ty.size, signed: ty.signed }
}

pub open spec fn data_of(id: t5::DataId) -> DataId {
    DataId { id: id.id }
}

fn data_id(id: t5::DataId) -> (res: DataId)
    ensures
        res == data_of(id),
{
    DataId { id: id.id }
}

pub open spec fn loop_of(id: t5::LoopId) -> LoopId {
    LoopId { id: id.id }
}

fn loop_id(id: t5::LoopId) -> (res: LoopId)
    ensures
        res == loop_of(id),
{
    LoopId { id: id.id }
}

pub open spec fn label_of(label: Option<t5::LoopId>) -> Option<LoopId> {
    match label {
        Some(id) => Some(loop_of(id)),
        None => None,
    }
}

fn loop_label(label: Option<t5::LoopId>) -> (res: Option<LoopId>)
    ensures
        res == label_of(label),
{
    match label {
        Some(id) => Some(loop_id(id)),
        None => None,
    }
}

pub open spec fn kind_of(kind: t5::IRBinOpKind) -> IRBinOpKind {
    match kind {
        t5::IRBinOpKind::Add => IRBinOpKind::Add,
        t5::IRBinOpKind::Sub => IRBinOpKind::Sub,
        t5::IRBinOpKind::Mul => IRBinOpKind::Mul,
        t5::IRBinOpKind::Shl => IRBinOpKind::Shl,
        t5::IRBinOpKind::Shr => IRBinOpKind::Shr,
        t5::IRBinOpKind::BitOr => IRBinOpKind::BitOr,
        t5::IRBinOpKind::And => IRBinOpKind::And,
        t5::IRBinOpKind::Or => IRBinOpKind::Or,
        t5::IRBinOpKind::Eq => IRBinOpKind::Eq,
        t5::IRBinOpKind::SignedGt => IRBinOpKind::SignedGt,
        t5::IRBinOpKind::Ne => IRBinOpKind::Ne,
        t5::IRBinOpKind::UnsignedLt => IRBinOpKind::UnsignedLt,
        t5::IRBinOpKind::UnsignedGe => IRBinOpKind::UnsignedGe,
    }
}

fn bin_op(kind: t5::IRBinOpKind) -> (res: IRBinOpKind)
    ensures
        res == kind_of(kind),
{
    match kind {
        t5::IRBinOpKind::Add => IRBinOpKind::Add,
        t5::IRBinOpKind::Sub => IRBinOpKind::Sub,
        t5::IRBinOpKind::Mul => IRBinOpKind::Mul,
        t5::IRBinOpKind::Shl => IRBinOpKind::Shl,
        t5::IRBinOpKind::Shr => IRBinOpKind::Shr,
        t5::IRBinOpKind::BitOr => IRBinOpKind::BitOr,
        t5::IRBinOpKind::And => IRBinOpKind::And,
        t5::IRBinOpKind::Or => IRBinOpKind::Or,
        t5::IRBinOpKind::Eq => IRBinOpKind::Eq,
        t5::IRBinOpKind::SignedGt => IRBinOpKind::SignedGt,
        t5::IRBinOpKind::Ne => IRBinOpKind::Ne,
        t5::IRBinOpKind::UnsignedLt => IRBinOpKind::UnsignedLt,
        t5::IRBinOpKind::UnsignedGe => IRBinOpKind::UnsignedGe,
    }
}

/// The same type in this tier.
pub open spec fn type_of(ty: t5::VariableType) -> VariableType
    decreases ty,
{
    match ty {
        t5::VariableType::Unknown(size) => VariableType::Unknown(size),
        t5::VariableType::UnknownPointer => VariableType::UnknownPointer,
        t5::VariableType::Pointer(inner) => VariableType::Pointer(Box::new(type_of(*inner))),
        t5::VariableType::Vector(inner) => VariableType::Vector(Box::new(type_of(*inner))),
        t5::VariableType::Struct(id) => VariableType::Struct(StructId { id: id.id }),
        t5::VariableType::Bool => VariableType::Bool,
        t5::VariableType::Integer(bits) => VariableType::Integer(bits),
        t5::VariableType::UnsignedInteger(bits) => VariableType::UnsignedInteger(bits),
    }
}

fn variable_type(ty: &t5::VariableType) -> (res: VariableType)
    ensures
        res == type_of(*ty),
    decreases ty,
{
    match ty {
        t5::VariableType::Unknown(size) => VariableType::Unknown(*size),
        t5::VariableType::UnknownPointer => VariableType::UnknownPointer,
        t5::VariableType::Pointer(inner) => VariableType::Pointer(Box::new(variable_type(inner))),
        t5::VariableType::Vector(inner) => VariableType::Vector(Box::new(variable_type(inner))),
        t5::VariableType::Struct(id) => VariableType::Struct(StructId { id: id.id }),
        t5::VariableType::Bool => VariableType::Bool,
        t5::VariableType::Integer(bits) => VariableType::Integer(*bits),
        t5::VariableType::UnsignedInteger(bits) => VariableType::UnsignedInteger(*bits),
    }
}

/// The same expression in this tier.
pub open spec fn expression_of(expr: t5::IRExpr) -> IRExpr
    decreases expr,
{
    match expr {
        t5::IRExpr::BinOp { kind, lhs, rhs } => IRExpr::BinOp {
            kind: kind_of(kind),
            lhs: Box::new(expression_of(*lhs)),
            rhs: Box::new(expression_of(*rhs)),
        },
        t5::IRExpr::Deref(address) => IRExpr::Deref(Box::new(expression_of(*address))),
        t5::IRExpr::MemoryAddress { address, size } => IRExpr::MemoryAddress {
            address: Box::new(expression_of(*address)),
            size,
        },
        t5::IRExpr::ElementAddress { base, index, element_size } => IRExpr::ElementAddress {
            base: Box::new(expression_of(*base)),
            index: Box::new(expression_of(*index)),
            element_size,
        },
        t5::IRExpr::Argument(ordinal) => IRExpr::Argument(ordinal),
        t5::IRExpr::Convert { value, source, target } => IRExpr::Convert {
            value: Box::new(expression_of(*value)),
            source: integer_of(source),
            target: integer_of(target),
        },
        t5::IRExpr::CU8(value) => IRExpr::CU8(value),
        t5::IRExpr::CU32(value) => IRExpr::CU32(value),
        t5::IRExpr::CU64(value) => IRExpr::CU64(value),
        t5::IRExpr::Variable(variable) => IRExpr::Variable(variable_of(variable)),
        t5::IRExpr::Data(id) => IRExpr::Data(data_of(id)),
        t5::IRExpr::Bool(value) => IRExpr::Bool(value),
        t5::IRExpr::Not(inner) => IRExpr::Not(Box::new(expression_of(*inner))),
    }
}

fn expression(expr: &t5::IRExpr) -> (res: IRExpr)
    ensures
        res == expression_of(*expr),
    decreases expr,
{
    match expr {
        t5::IRExpr::BinOp { kind, lhs, rhs } => IRExpr::BinOp {
            kind: bin_op(*kind),
            lhs: Box::new(expression(lhs)),
            rhs: Box::new(expression(rhs)),
        },
        t5::IRExpr::Deref(address) => IRExpr::Deref(Box::new(expression(address))),
        t5::IRExpr::MemoryAddress { address, size } => IRExpr::MemoryAddress {
            address: Box::new(expression(address)),
            size: *size,
        },
        t5::IRExpr::ElementAddress { base, index, element_size } => IRExpr::ElementAddress {
            base: Box::new(expression(base)),
            index: Box::new(expression(index)),
            element_size: *element_size,
        },
        t5::IRExpr::Argument(ordinal) => IRExpr::Argument(*ordinal),
        t5::IRExpr::Convert { value, source, target } => IRExpr::Convert {
            value: Box::new(expression(value)),
            source: integer(*source),
            target: integer(*target),
        },
        t5::IRExpr::CU8(value) => IRExpr::CU8(*value),
        t5::IRExpr::CU32(value) => IRExpr::CU32(*value),
        t5::IRExpr::CU64(value) => IRExpr::CU64(*value),
        t5::IRExpr::Variable(variable) => IRExpr::Variable(variable_id(*variable)),
        t5::IRExpr::Data(id) => IRExpr::Data(data_id(*id)),
        t5::IRExpr::Bool(value) => IRExpr::Bool(*value),
        t5::IRExpr::Not(inner) => IRExpr::Not(Box::new(expression(inner))),
    }
}

pub open spec fn expressions_of(list: Seq<t5::IRExpr>) -> Seq<IRExpr> {
    list.map_values(|e: t5::IRExpr| expression_of(e))
}

fn expressions(list: &Vec<t5::IRExpr>) -> (res: Vec<IRExpr>)
    ensures
        res@ == expressions_of(list@),
{
    let mut res: Vec<IRExpr> = Vec::new();
    let mut i: usize = 0;
    while i < list.len()
        invariant
            i <= list@.len(),
            res@.len() == i,
            forall|k: int| 0 <= k < i ==> (#[trigger] res@[k]) == expression_of(list@[k]),
        decreases list@.len() - i,
    {
        res.push(expression(&list[i]));
        i = i + 1;
    }
    assert(res@ =~= expressions_of(list@));
    res
}

pub open spec fn condition_of(condition: t5::LoopCondition) -> LoopCondition {
    match condition {
        t5::LoopCondition::Before { offset, expression } => LoopCondition::Before {
            offset,
            expression: expression_of(expression),
        },
        t5::LoopCondition::After { offset, expression } => LoopCondition::After {
            offset,
            expression: expression_of(expression),
        },
    }
}

fn loop_condition(condition: &t5::LoopCondition) -> (res: LoopCondition)
    ensures
        res == condition_of(*condition),
{
    match condition {
        t5::LoopCondition::Before { offset, expression: value } => LoopCondition::Before {
            offset: *offset,
            expression: expression(value),
        },
        t5::LoopCondition::After { offset, expression: value } => LoopCondition::After {
            offset: *offset,
            expression: expression(value),
        },
    }
}

/// The same instruction in this tier.
pub open spec fn instruction_of(instr: t5::InstModel) -> InstModel
    decreases instr,
{
    match instr {
        t5::InstModel::Assign { dest, src } => InstModel::Assign {
            dest: expression_of(dest),
            src: expression_of(src),
        },
        t5::InstModel::Return(value) => InstModel::Return(match value {
                Some(value) => Some(expression_of(value)),
                None => None,
            }),
        t5::InstModel::DeclareVariable { variable, ty } => InstModel::DeclareVariable {
            variable: variable_of(variable),
            ty: type_of(ty),
        },
        t5::InstModel::DeclareAndAssignVariable {
            variable,
            ty,
            value,
        } => InstModel::DeclareAndAssignVariable {
            variable: variable_of(variable),
            ty: type_of(ty),
            value: expression_of(value),
        },
        t5::InstModel::AssignVariable { variable, value } => InstModel::AssignVariable {
            variable: variable_of(variable),
            value: expression_of(value),
        },
        t5::InstModel::LoadVariable { variable, address } => InstModel::LoadVariable {
            variable: variable_of(variable),
            address: expression_of(address),
        },
        t5::InstModel::StoreVariable { address, variable } => InstModel::StoreVariable {
            address: expression_of(address),
            variable: variable_of(variable),
        },
        t5::InstModel::If { condition, then_branch, else_branch } => InstModel::If {
            condition: expression_of(condition),
            then_branch: branch_of(then_branch),
            else_branch: branch_of(else_branch),
        },
        t5::InstModel::While { label, entry_offset, condition, body } => InstModel::While {
            label: label_of(label),
            entry_offset,
            condition: condition_of(condition),
            body: body_of(body),
        },
        t5::InstModel::Break => InstModel::Break,
        t5::InstModel::Continue => InstModel::Continue,
        t5::InstModel::ContinueLoop(label) => InstModel::ContinueLoop(loop_of(label)),
        t5::InstModel::CallSynthetic { function, arguments } => InstModel::CallSynthetic {
            function: function_of(function),
            arguments: expressions_of(arguments),
        },
        t5::InstModel::Jump(target) => InstModel::Jump(expression_of(target)),
        t5::InstModel::End => InstModel::End,
    }
}

pub open spec fn branch_of(list: Seq<t5::InstModel>) -> Seq<InstModel>
    decreases list,
{
    Seq::new(
        list.len(),
        |i: int|
            if 0 <= i < list.len() {
                instruction_of(list[i])
            } else {
                arbitrary()
            },
    )
}

pub open spec fn body_of(list: Seq<(usize, t5::InstModel)>) -> Seq<(usize, InstModel)>
    decreases list,
{
    Seq::new(
        list.len(),
        |i: int|
            if 0 <= i < list.len() {
                (list[i].0, instruction_of(list[i].1))
            } else {
                arbitrary()
            },
    )
}

fn instruction(instr: &t5::IRInst) -> (res: IRInst)
    ensures
        res.model() == instruction_of(instr.model()),
    decreases instr,
{
    match instr {
        t5::IRInst::Assign { dest, src } => IRInst::Assign {
            dest: expression(dest),
            src: expression(src),
        },
        t5::IRInst::Return(value) => IRInst::Return(match value {
                Some(value) => Some(expression(value)),
                None => None,
            }),
        t5::IRInst::DeclareVariable { variable, ty } => IRInst::DeclareVariable {
            variable: variable_id(*variable),
            ty: variable_type(ty),
        },
        t5::IRInst::DeclareAndAssignVariable {
            variable,
            ty,
            value,
        } => IRInst::DeclareAndAssignVariable {
            variable: variable_id(*variable),
            ty: variable_type(ty),
            value: expression(value),
        },
        t5::IRInst::AssignVariable { variable, value } => IRInst::AssignVariable {
            variable: variable_id(*variable),
            value: expression(value),
        },
        t5::IRInst::LoadVariable { variable, address } => IRInst::LoadVariable {
            variable: variable_id(*variable),
            address: expression(address),
        },
        t5::IRInst::StoreVariable { address, variable } => IRInst::StoreVariable {
            address: expression(address),
            variable: variable_id(*variable),
        },
        t5::IRInst::If { condition, then_branch, else_branch } => IRInst::If {
            condition: expression(condition),
            then_branch: branch(then_branch),
            else_branch: branch(else_branch),
        },
        t5::IRInst::While { label, entry_offset, condition, body } => IRInst::While {
            label: loop_label(*label),
            entry_offset: *entry_offset,
            condition: loop_condition(condition),
            body: body_list(body),
        },
        t5::IRInst::Break => IRInst::Break,
        t5::IRInst::Continue => IRInst::Continue,
        t5::IRInst::ContinueLoop(label) => IRInst::ContinueLoop(loop_id(*label)),
        t5::IRInst::CallSynthetic { function, arguments } => IRInst::CallSynthetic {
            function: function_id(*function),
            arguments: expressions(arguments),
        },
        t5::IRInst::Jump(target) => IRInst::Jump(expression(target)),
        t5::IRInst::End => IRInst::End,
    }
}

fn branch(list: &Vec<t5::IRInst>) -> (res: Vec<IRInst>)
    ensures
        models(res@) == branch_of(t5::models(list@)),
    decreases list,
{
    let ghost all = t5::models(list@);
    let mut res: Vec<IRInst> = Vec::new();
    let mut i: usize = 0;
    while i < list.len()
        invariant
            i <= list@.len(),
            all == t5::models(list@),
            res@.len() == i,
            forall|k: int| 0 <= k < i ==> (#[trigger] res@[k]).model() == instruction_of(all[k]),
        decreases list@.len() - i,
    {
        assert(decreases_to!(list => list@[i as int]));
        res.push(instruction(&list[i]));
        i = i + 1;
    }
    assert(models(res@) =~= branch_of(all));
    res
}

fn body_list(list: &Vec<(usize, t5::IRInst)>) -> (res: Vec<(usize, IRInst)>)
    ensures
        body_models(res@) == body_of(t5::body_models(list@)),
    decreases list,
{
    let ghost all = t5::body_models(list@);
    let mut res: Vec<(usize, IRInst)> = Vec::new();
    let mut i: usize = 0;
    while i < list.len()
        invariant
            i <= list@.len(),
            all == t5::body_models(list@),
            res@.len() == i,
            forall|k: int| 0 <= k < i ==> (#[trigger] res@[k]).0 == all[k].0 && res@[k].1.model() == instruction_of(
                all[k].1,
            ),
        decreases list@.len() - i,
    {
        assert(decreases_to!(list => list@[i as int]));
        res.push((list[i].0, instruction(&list[i].1)));
        i = i + 1;
    }
    assert(body_models(res@) =~= body_of(all));
    res
}

pub open spec fn parameter_of(parameter: t5::Parameter) -> Parameter {
    match parameter {
        t5::Parameter::Argument { ordinal, ty } => Parameter::Argument { ordinal, ty: type_of(ty) },
        t5::Parameter::Slot { variable, ty } => Parameter::Slot {
            variable: variable_of(variable),
            ty: type_of(ty),
        },
    }
}

pub open spec fn field_in(field: t5::StructField) -> StructField {
    StructField { offset: field.offset, ty: type_of(field.ty) }
}

pub open spec fn struct_of(definition: t5::StructModel) -> StructModel {
    StructModel {
        name: definition.name,
        fields: definition.fields.map_values(|f: t5::StructField| field_in(f)),
    }
}

pub open spec fn data_slot_of(data: t5::DataModel) -> DataModel {
    DataModel {
        id: data_of(data.id),
        address: data.address,
        name: data.name,
        ty: type_of(data.ty),
    }
}

pub open spec fn function_in(function: t5::FunctionModel) -> FunctionModel {
    FunctionModel {
        entry_offset: function.entry_offset,
        parameters: function.parameters.map_values(|p: t5::Parameter| parameter_of(p)),
        return_type: None,
        body: body_of(function.body),
    }
}

/// The same program in this tier.
pub open spec fn lifted(source: t5::ProgramModel) -> ProgramModel {
    ProgramModel {
        entry: match source.entry {
            Some(entry) => Some(function_of(entry)),
            None => None,
        },
        data: source.data.map_values(|d: t5::DataModel| data_slot_of(d)),
        functions: source.functions.map_values(|f: t5::FunctionModel| function_in(f)),
        structs: source.structs.map_values(|s: t5::StructModel| struct_of(s)),
    }
}

fn parameter(source: &t5::Parameter) -> (res: Parameter)
    ensures
        res == parameter_of(*source),
{
    match source {
        t5::Parameter::Argument { ordinal, ty } => Parameter::Argument {
            ordinal: *ordinal,
            ty: variable_type(ty),
        },
        t5::Parameter::Slot { variable, ty } => Parameter::Slot {
            variable: variable_id(*variable),
            ty: variable_type(ty),
        },
    }
}

fn parameters(list: &Vec<t5::Parameter>) -> (res: Vec<Parameter>)
    ensures
        res@ == list@.map_values(|x: t5::Parameter| parameter_of(x)),
{
    let mut res: Vec<Parameter> = Vec::new();
    let mut i: usize = 0;
    while i < list.len()
        invariant
            i <= list@.len(),
            res@.len() == i,
            forall|k: int| 0 <= k < i ==> (#[trigger] res@[k]) == parameter_of(list@[k]),
        decreases list@.len() - i,
    {
        res.push(parameter(&list[i]));
        i = i + 1;
    }
    assert(res@ =~= list@.map_values(|x: t5::Parameter| parameter_of(x)));
    res
}

fn fields(list: &Vec<t5::StructField>) -> (res: Vec<StructField>)
    ensures
        res@ == list@.map_values(|x: t5::StructField| field_in(x)),
{
    let mut res: Vec<StructField> = Vec::new();
    let mut i: usize = 0;
    while i < list.len()
        invariant
            i <= list@.len(),
            res@.len() == i,
            forall|k: int| 0 <= k < i ==> (#[trigger] res@[k]) == field_in(list@[k]),
        decreases list@.len() - i,
    {
        res.push(StructField { offset: list[i].offset, ty: variable_type(&list[i].ty) });
        i = i + 1;
    }
    assert(res@ =~= list@.map_values(|x: t5::StructField| field_in(x)));
    res
}

fn structs(list: &Vec<t5::StructDefinition>) -> (res: Vec<StructDefinition>)
    ensures
        struct_models(res@) == t5::struct_models(list@).map_values(
            |x: t5::StructModel| struct_of(x),
        ),
{
    let mut res: Vec<StructDefinition> = Vec::new();
    let mut i: usize = 0;
    while i < list.len()
        invariant
            i <= list@.len(),
            res@.len() == i,
            forall|k: int| 0 <= k < i ==> (#[trigger] res@[k]).model() == struct_of(
                list@[k].model(),
            ),
        decreases list@.len() - i,
    {
        res.push(
            StructDefinition {
                name: owned(list[i].name.as_str()),
                fields: fields(&list[i].fields),
            },
        );
        i = i + 1;
    }
    assert(struct_models(res@) =~= t5::struct_models(list@).map_values(
        |x: t5::StructModel| struct_of(x),
    ));
    res
}

fn data_slots(list: &Vec<t5::DataVariable>) -> (res: Vec<DataVariable>)
    ensures
        data_models(res@) == t5::data_models(list@).map_values(|x: t5::DataModel| data_slot_of(x)),
{
    let mut res: Vec<DataVariable> = Vec::new();
    let mut i: usize = 0;
    while i < list.len()
        invariant
            i <= list@.len(),
            res@.len() == i,
            forall|k: int| 0 <= k < i ==> (#[trigger] res@[k]).model() == data_slot_of(
                list@[k].model(),
            ),
        decreases list@.len() - i,
    {
        res.push(
            DataVariable {
                id: data_id(list[i].id),
                address: list[i].address,
                name: owned(list[i].name.as_str()),
                ty: variable_type(&list[i].ty),
            },
        );
        i = i + 1;
    }
    assert(data_models(res@) =~= t5::data_models(list@).map_values(
        |x: t5::DataModel| data_slot_of(x),
    ));
    res
}

fn functions(list: &Vec<t5::SyntheticFunction>) -> (res: Vec<SyntheticFunction>)
    ensures
        function_models(res@) == t5::function_models(list@).map_values(
            |x: t5::FunctionModel| function_in(x),
        ),
{
    let mut res: Vec<SyntheticFunction> = Vec::new();
    let mut i: usize = 0;
    while i < list.len()
        invariant
            i <= list@.len(),
            res@.len() == i,
            forall|k: int| 0 <= k < i ==> (#[trigger] res@[k]).model() == function_in(
                list@[k].model(),
            ),
        decreases list@.len() - i,
    {
        res.push(
            SyntheticFunction {
                entry_offset: list[i].entry_offset,
                parameters: parameters(&list[i].parameters),
                return_type: None,
                body: body_list(&list[i].body),
            },
        );
        i = i + 1;
    }
    assert(function_models(res@) =~= t5::function_models(list@).map_values(
        |x: t5::FunctionModel| function_in(x),
    ));
    res
}

/// Lifts a tier 5 program.
pub fn lift(source: &t5::Program) -> (res: Program)
    ensures
        res.model() == lifted(source.model()),
{
    Program {
        entry: match source.entry {
            Some(entry) => Some(function_id(entry)),
            None => None,
        },
        data: data_slots(&source.data),
        functions: functions(&source.functions),
        structs: structs(&source.structs),
    }
}

} // verus!
