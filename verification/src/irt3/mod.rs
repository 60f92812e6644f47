//! Tier 3: structured control flow in one function.
pub mod aliases;
pub mod cfg;
pub mod inline_functions;
pub mod inline_trivial_loops;
pub mod inline_variables;
pub mod inlining_laws;
pub mod ir;
pub mod outcome;
pub mod parallel;
pub mod render;
pub mod return_slots;

use crate::irt2::ir as t2;
use crate::text::owned;
use inline_functions::merged;
use inline_trivial_loops::program_lowered;
use inline_variables::program_inlined;
use ir::{
    body_models, data_models, function_models, models, DataId, DataModel, DataVariable,
    FunctionModel, IRBinOpKind, IRExpr, IRInst, InstModel, IntegerType, Parameter, Program,
    ProgramModel, SyntheticFunction, SyntheticFunctionId, VariableId, VariableType,
};
use return_slots::program_returns_named;
use vstd::prelude::*;

verus! {

pub open spec fn function_of(id: t2::SyntheticFunctionId) -> SyntheticFunctionId {
    SyntheticFunctionId { id: id.id }
}

fn function_id(id: t2::SyntheticFunctionId) -> (res: SyntheticFunctionId)
    ensures
        res == function_of(id),
{
    SyntheticFunctionId { id: id.id }
}

pub open spec fn variable_of(id: t2::VariableId) -> VariableId {
    VariableId { owner: function_of(id.owner), id: id.id }
}

fn variable_id(id: t2::VariableId) -> (res: VariableId)
    ensures
        res == variable_of(id),
{
    VariableId { owner: function_id(id.owner), id: id.id }
}

pub open spec fn integer_of(ty: t2::IntegerType) -> IntegerType {
    IntegerType { size: ty.size, signed: ty.signed }
}

fn integer(ty: t2::IntegerType) -> (res: IntegerType)
    ensures
        res == integer_of(ty),
{
    IntegerType { size: ty.size, signed: ty.signed }
}

pub open spec fn data_of(id: t2::DataId) -> DataId {
    DataId { id: id.id }
}

fn data_id(id: t2::DataId) -> (res: DataId)
    ensures
        res == data_of(id),
{
    DataId { id: id.id }
}

pub open spec fn kind_of(kind: t2::IRBinOpKind) -> IRBinOpKind {
    match kind {
        t2::IRBinOpKind::Add => IRBinOpKind::Add,
        t2::IRBinOpKind::Sub => IRBinOpKind::Sub,
        t2::IRBinOpKind::Mul => IRBinOpKind::Mul,
        t2::IRBinOpKind::Shl => IRBinOpKind::Shl,
        t2::IRBinOpKind::Shr => IRBinOpKind::Shr,
        t2::IRBinOpKind::BitOr => IRBinOpKind::BitOr,
        t2::IRBinOpKind::And => IRBinOpKind::And,
        t2::IRBinOpKind::Or => IRBinOpKind::Or,
        t2::IRBinOpKind::Eq => IRBinOpKind::Eq,
        t2::IRBinOpKind::SignedGt => IRBinOpKind::SignedGt,
        t2::IRBinOpKind::UnsignedLt => IRBinOpKind::UnsignedLt,
    }
}

fn bin_op(kind: t2::IRBinOpKind) -> (res: IRBinOpKind)
    ensures
        res == kind_of(kind),
{
    match kind {
        t2::IRBinOpKind::Add => IRBinOpKind::Add,
        t2::IRBinOpKind::Sub => IRBinOpKind::Sub,
        t2::IRBinOpKind::Mul => IRBinOpKind::Mul,
        t2::IRBinOpKind::Shl => IRBinOpKind::Shl,
        t2::IRBinOpKind::Shr => IRBinOpKind::Shr,
        t2::IRBinOpKind::BitOr => IRBinOpKind::BitOr,
        t2::IRBinOpKind::And => IRBinOpKind::And,
        t2::IRBinOpKind::Or => IRBinOpKind::Or,
        t2::IRBinOpKind::Eq => IRBinOpKind::Eq,
        t2::IRBinOpKind::SignedGt => IRBinOpKind::SignedGt,
        t2::IRBinOpKind::UnsignedLt => IRBinOpKind::UnsignedLt,
    }
}

pub open spec fn type_of(ty: t2::VariableType) -> VariableType {
    match ty {
        t2::VariableType::Unknown(size) => VariableType::Unknown(size),
        t2::VariableType::Register(register) => VariableType::Register(register),
        t2::VariableType::Bool => VariableType::Bool,
    }
}

fn variable_type(ty: t2::VariableType) -> (res: VariableType)
    ensures
        res == type_of(ty),
{
    match ty {
        t2::VariableType::Unknown(size) => VariableType::Unknown(size),
        t2::VariableType::Register(register) => VariableType::Register(register),
        t2::VariableType::Bool => VariableType::Bool,
    }
}

/// The same expression in this tier.
pub open spec fn expression_of(expr: t2::IRExpr) -> IRExpr
    decreases expr,
{
    match expr {
        t2::IRExpr::BinOp { kind, lhs, rhs } => IRExpr::BinOp {
            kind: kind_of(kind),
            lhs: Box::new(expression_of(*lhs)),
            rhs: Box::new(expression_of(*rhs)),
        },
        t2::IRExpr::Deref(address) => IRExpr::Deref(Box::new(expression_of(*address))),
        t2::IRExpr::CastUnknownPtr { address, size } => IRExpr::CastUnknownPtr {
            address: Box::new(expression_of(*address)),
            size,
        },
        t2::IRExpr::Argument(ordinal) => IRExpr::Argument(ordinal),
        t2::IRExpr::Convert { value, source, target } => IRExpr::Convert {
            value: Box::new(expression_of(*value)),
            source: integer_of(source),
            target: integer_of(target),
        },
        t2::IRExpr::CU8(value) => IRExpr::CU8(value),
        t2::IRExpr::CU32(value) => IRExpr::CU32(value),
        t2::IRExpr::CU64(value) => IRExpr::CU64(value),
        t2::IRExpr::Variable(variable) => IRExpr::Variable(variable_of(variable)),
        t2::IRExpr::Data(id) => IRExpr::Data(data_of(id)),
        t2::IRExpr::Bool(value) => IRExpr::Bool(value),
        t2::IRExpr::Not(inner) => IRExpr::Not(Box::new(expression_of(*inner))),
    }
}

fn expression(expr: &t2::IRExpr) -> (res: IRExpr)
    ensures
        res == expression_of(*expr),
    decreases expr,
{
    match expr {
        t2::IRExpr::BinOp { kind, lhs, rhs } => IRExpr::BinOp {
            kind: bin_op(*kind),
            lhs: Box::new(expression(lhs)),
            rhs: Box::new(expression(rhs)),
        },
        t2::IRExpr::Deref(address) => IRExpr::Deref(Box::new(expression(address))),
        t2::IRExpr::CastUnknownPtr { address, size } => IRExpr::CastUnknownPtr {
            address: Box::new(expression(address)),
            size: *size,
        },
        t2::IRExpr::Argument(ordinal) => IRExpr::Argument(*ordinal),
        t2::IRExpr::Convert { value, source, target } => IRExpr::Convert {
            value: Box::new(expression(value)),
            source: integer(*source),
            target: integer(*target),
        },
        t2::IRExpr::CU8(value) => IRExpr::CU8(*value),
        t2::IRExpr::CU32(value) => IRExpr::CU32(*value),
        t2::IRExpr::CU64(value) => IRExpr::CU64(*value),
        t2::IRExpr::Variable(variable) => IRExpr::Variable(variable_id(*variable)),
        t2::IRExpr::Data(id) => IRExpr::Data(data_id(*id)),
        t2::IRExpr::Bool(value) => IRExpr::Bool(*value),
        t2::IRExpr::Not(inner) => IRExpr::Not(Box::new(expression(inner))),
    }
}

pub open spec fn expressions_of(list: Seq<t2::IRExpr>) -> Seq<IRExpr> {
    list.map_values(|e: t2::IRExpr| expression_of(e))
}

fn expressions(list: &Vec<t2::IRExpr>) -> (res: Vec<IRExpr>)
    ensures
        res@ == expressions_of(list@),
{
    let mut res: Vec<IRExpr> = Vec::new();
    let mut i: usize = 0;
    while i < list.len()
        invariant
            i <= list@.len(),
            res@.len() == i,
            forall|k: int| 0 <= k < i ==> (#[trigger] res@[k]) == expression_of(list@[k]),
        decreases list@.len() - i,
    {
        res.push(expression(&list[i]));
        i = i + 1;
    }
    assert(res@ =~= expressions_of(list@));
    res
}

/// The same instruction in this tier.
pub open spec fn instruction_of(instr: t2::InstModel) -> InstModel
    decreases instr,
{
    match instr {
        t2::InstModel::Assign { dest, src } => InstModel::Assign {
            dest: expression_of(dest),
            src: expression_of(src),
        },
        t2::InstModel::Return(value) => InstModel::Return(match value {
                Some(value) => Some(expression_of(value)),
                None => None,
            }),
        t2::InstModel::DeclareVariable { variable, ty } => InstModel::DeclareVariable {
            variable: variable_of(variable),
            ty: type_of(ty),
        },
        t2::InstModel::AssignVariable { variable, value } => InstModel::AssignVariable {
            variable: variable_of(variable),
            value: expression_of(value),
        },
        t2::InstModel::LoadVariable { variable, address } => InstModel::LoadVariable {
            variable: variable_of(variable),
            address: expression_of(address),
        },
        t2::InstModel::StoreVariable { address, variable } => InstModel::StoreVariable {
            address: expression_of(address),
            variable: variable_of(variable),
        },
        t2::InstModel::If { condition, then_branch, else_branch } => InstModel::If {
            condition: expression_of(condition),
            then_branch: branch_of(then_branch),
            else_branch: branch_of(else_branch),
        },
        t2::InstModel::CallSynthetic { function, arguments } => InstModel::CallSynthetic {
            function: function_of(function),
            arguments: expressions_of(arguments),
        },
        t2::InstModel::Jump(target) => InstModel::Jump(expression_of(target)),
        t2::InstModel::End => InstModel::End,
    }
}

pub open spec fn branch_of(list: Seq<t2::InstModel>) -> Seq<InstModel>
    decreases list,
{
    Seq::new(
        list.len(),
        |i: int|
            if 0 <= i < list.len() {
                instruction_of(list[i])
            } else {
                arbitrary()
            },
    )
}

pub open spec fn body_of(list: Seq<(usize, t2::InstModel)>) -> Seq<(usize, InstModel)>
    decreases list,
{
    Seq::new(
        list.len(),
        |i: int|
            if 0 <= i < list.len() {
                (list[i].0, instruction_of(list[i].1))
            } else {
                arbitrary()
            },
    )
}

fn instruction(instr: &t2::IRInst) -> (res: IRInst)
    ensures
        res.model() == instruction_of(instr.model()),
    decreases instr,
{
    match instr {
        t2::IRInst::Assign { dest, src } => IRInst::Assign {
            dest: expression(dest),
            src: expression(src),
        },
        t2::IRInst::Return(value) => IRInst::Return(match value {
                Some(value) => Some(expression(value)),
                None => None,
            }),
        t2::IRInst::DeclareVariable { variable, ty } => IRInst::DeclareVariable {
            variable: variable_id(*variable),
            ty: variable_type(*ty),
        },
        t2::IRInst::AssignVariable { variable, value } => IRInst::AssignVariable {
            variable: variable_id(*variable),
            value: expression(value),
        },
        t2::IRInst::LoadVariable { variable, address } => IRInst::LoadVariable {
            variable: variable_id(*variable),
            address: expression(address),
        },
        t2::IRInst::StoreVariable { address, variable } => IRInst::StoreVariable {
            address: expression(address),
            variable: variable_id(*variable),
        },
        t2::IRInst::If { condition, then_branch, else_branch } => IRInst::If {
            condition: expression(condition),
            then_branch: branch(then_branch),
            else_branch: branch(else_branch),
        },
        t2::IRInst::CallSynthetic { function, arguments } => IRInst::CallSynthetic {
            function: function_id(*function),
            arguments: expressions(arguments),
        },
        t2::IRInst::Jump(target) => IRInst::Jump(expression(target)),
        t2::IRInst::End => IRInst::End,
    }
}

fn branch(list: &Vec<t2::IRInst>) -> (res: Vec<IRInst>)
    ensures
        models(res@) == branch_of(t2::models(list@)),
    decreases list,
{
    let ghost all = t2::models(list@);
    let mut res: Vec<IRInst> = Vec::new();
    let mut i: usize = 0;
    while i < list.len()
        invariant
            i <= list@.len(),
            all == t2::models(list@),
            res@.len() == i,
            forall|k: int| 0 <= k < i ==> (#[trigger] res@[k]).model() == instruction_of(all[k]),
        decreases list@.len() - i,
    {
        assert(decreases_to!(list => list@[i as int]));
        res.push(instruction(&list[i]));
        i = i + 1;
    }
    assert(models(res@) =~= branch_of(all));
    res
}

fn body(list: &Vec<(usize, t2::IRInst)>) -> (res: Vec<(usize, IRInst)>)
    ensures
        body_models(res@) == body_of(t2::body_models(list@)),
    decreases list,
{
    let ghost all = t2::body_models(list@);
    let mut res: Vec<(usize, IRInst)> = Vec::new();
    let mut i: usize = 0;
    while i < list.len()
        invariant
            i <= list@.len(),
            all == t2::body_models(list@),
            res@.len() == i,
            forall|k: int| 0 <= k < i ==> (#[trigger] res@[k]).0 == all[k].0 && res@[k].1.model() == instruction_of(
                all[k].1,
            ),
        decreases list@.len() - i,
    {
        assert(decreases_to!(list => list@[i as int]));
        res.push((list[i].0, instruction(&list[i].1)));
        i = i + 1;
    }
    assert(body_models(res@) =~= body_of(all));
    res
}

/// The same parameter in this tier.
pub open spec fn parameter_of(parameter: t2::Parameter) -> Parameter {
    match parameter {
        t2::Parameter::Input { ordinal, size } => Parameter::Input { ordinal, size },
        t2::Parameter::Native { ordinal, register } => Parameter::Native { ordinal, register },
        t2::Parameter::Slot { variable, register } => Parameter::Slot {
            variable: variable_of(variable),
            register,
        },
        t2::Parameter::Value { variable, size } => Parameter::Value {
            variable: variable_of(variable),
            size,
        },
    }
}

pub open spec fn slot_of_data(data: t2::DataModel) -> DataModel {
    DataModel {
        id: data_of(data.id),
        address: data.address,
        name: data.name,
        ty: type_of(data.ty),
    }
}

pub open spec fn function_in(function: t2::FunctionModel) -> FunctionModel {
    FunctionModel {
        entry_offset: function.entry_offset,
        parameters: function.parameters.map_values(|p: t2::Parameter| parameter_of(p)),
        body: body_of(function.body),
    }
}

/// The same program in this tier.
pub open spec fn program_in(source: t2::ProgramModel) -> ProgramModel {
    ProgramModel {
        entry_address: source.entry_address,
        entry: match source.entry {
            Some(entry) => Some(function_of(entry)),
            None => None,
        },
        data: source.data.map_values(|d: t2::DataModel| slot_of_data(d)),
        functions: source.functions.map_values(|f: t2::FunctionModel| function_in(f)),
    }
}

/// The tier 3 program of a tier 2 program: variables inlined, direct loops and
/// then all other transfers structured, and returns named.
pub open spec fn lifted(source: t2::ProgramModel) -> Option<ProgramModel> {
    match program_lowered(program_inlined(program_in(source))) {
        None => None,
        Some(program) => match merged(program_inlined(program)) {
            None => None,
            Some(program) => Some(program_returns_named(program)),
        },
    }
}

fn parameters(list: &Vec<t2::Parameter>) -> (res: Vec<Parameter>)
    ensures
        res@ == list@.map_values(|p: t2::Parameter| parameter_of(p)),
{
    let mut res: Vec<Parameter> = Vec::new();
    let mut i: usize = 0;
    while i < list.len()
        invariant
            i <= list@.len(),
            res@.len() == i,
            forall|k: int| 0 <= k < i ==> (#[trigger] res@[k]) == parameter_of(list@[k]),
        decreases list@.len() - i,
    {
        let made: Parameter = match list[i] {
            t2::Parameter::Input { ordinal, size } => Parameter::Input { ordinal, size },
            t2::Parameter::Native { ordinal, register } => Parameter::Native { ordinal, register },
            t2::Parameter::Slot { variable, register } => Parameter::Slot {
                variable: variable_id(variable),
                register,
            },
            t2::Parameter::Value { variable, size } => Parameter::Value {
                variable: variable_id(variable),
                size,
            },
        };
        res.push(made);
        i = i + 1;
    }
    assert(res@ =~= list@.map_values(|p: t2::Parameter| parameter_of(p)));
    res
}

fn data_slots(data: &Vec<t2::DataVariable>) -> (res: Vec<DataVariable>)
    ensures
        data_models(res@) == t2::data_models(data@).map_values(|d: t2::DataModel| slot_of_data(d)),
{
    let mut res: Vec<DataVariable> = Vec::new();
    let mut i: usize = 0;
    while i < data.len()
        invariant
            i <= data@.len(),
            res@.len() == i,
            forall|k: int|
                0 <= k < i ==> (#[trigger] res@[k]).model() == slot_of_data(data@[k].model()),
        decreases data@.len() - i,
    {
        res.push(
            DataVariable {
                id: data_id(data[i].id),
                address: data[i].address,
                name: owned(data[i].name.as_str()),
                ty: variable_type(data[i].ty),
            },
        );
        i = i + 1;
    }
    assert(data_models(res@) =~= t2::data_models(data@).map_values(
        |d: t2::DataModel| slot_of_data(d),
    ));
    res
}

fn functions(list: &Vec<t2::SyntheticFunction>) -> (res: Vec<SyntheticFunction>)
    ensures
        function_models(res@) == t2::function_models(list@).map_values(
            |f: t2::FunctionModel| function_in(f),
        ),
{
    let mut res: Vec<SyntheticFunction> = Vec::new();
    let mut i: usize = 0;
    while i < list.len()
        invariant
            i <= list@.len(),
            res@.len() == i,
            forall|k: int|
                0 <= k < i ==> (#[trigger] res@[k]).model() == function_in(list@[k].model()),
        decreases list@.len() - i,
    {
        res.push(
            SyntheticFunction {
                entry_offset: list[i].entry_offset,
                parameters: parameters(&list[i].parameters),
                body: body(&list[i].body),
            },
        );
        i = i + 1;
    }
    assert(function_models(res@) =~= t2::function_models(list@).map_values(
        |f: t2::FunctionModel| function_in(f),
    ));
    res
}

/// Lifts a tier 2 program, if its control flow can be structured.
pub fn try_lift(source: &t2::Program) -> (res: Option<Program>)
    ensures
        match res {
            Some(program) => lifted(source.model()) == Some(program.model()),
            None => lifted(source.model()) is None,
        },
{
    let program = Program {
        entry_address: source.entry_address,
        entry: match source.entry {
            Some(entry) => Some(function_id(entry)),
            None => None,
        },
        data: data_slots(&source.data),
        functions: functions(&source.functions),
    };
    assert(program_in(source.model()) == program.model());
    let program: Program = match inline_trivial_loops::try_tr(inline_variables::tr(program)) {
        Some(program) => program,
        None => return None,
    };
    match inline_functions::try_tr(inline_variables::tr(program)) {
        Some(program) => Some(return_slots::tr(program)),
        None => None,
    }
}

/// Lifts a tier 2 program. Its control flow has to have a structure.
pub fn lift(source: &t2::Program) -> (res: Program)
    requires
        lifted(source.model()) is Some,
    ensures
        lifted(source.model()) == Some(res.model()),
{
    match try_lift(source) {
        Some(program) => program,
        None => vstd::pervasive::unreached(),
    }
}

} // verus!
