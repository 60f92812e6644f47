//! Tier 4: loops with their checks, and local cleanups.
pub mod branch_laws;
pub mod cleanup;
pub mod coalesce_loop_copies;
pub mod eliminate_aliases;
pub mod flattening_laws;
pub mod fold_constants;
pub mod folding_laws;
pub mod inline_loop_conditions;
pub mod ir;
pub mod lift_return_branches;
pub mod lifter;
pub mod loop_check_laws;
pub mod loops;
pub mod outcome;
pub mod place_declarations;
pub mod simplify_binary_operations;
pub mod simplify_branches;
pub mod variable_flow;
pub mod walks;
pub mod weight;

use crate::irt3::ir as t3;
use crate::text::owned;
use cleanup::{
    collapse_branches, program_collapsed, program_declared, program_with_used,
    prune_unused_entry_arguments, remove_declarations,
};
use coalesce_loop_copies::program_coalesced;
use eliminate_aliases::program_unaliased;
use fold_constants::program_constant_folded;
use inline_loop_conditions::program_conditions_inlined;
use ir::{
    data_models, function_models, DataModel, DataVariable, FunctionModel, Parameter, Program,
    ProgramModel, SyntheticFunction,
};
use lift_return_branches::program_flattened;
use lifter::{
    data_id, data_of, function_id, function_of, lift_body, lifted_body, type_of, variable_id,
    variable_of, variable_type,
};
use place_declarations::program_placed;
use simplify_binary_operations::program_simplified;
use simplify_branches::program_branches_simplified;
use vstd::prelude::*;

verus! {

/// The same parameter in this tier, with a width in place of a register.
pub open spec fn parameter_of(parameter: t3::Parameter) -> Parameter {
    match parameter {
        t3::Parameter::Input { ordinal, size } => Parameter::Argument { ordinal, size },
        t3::Parameter::Value { variable, size } => Parameter::Slot {
            variable: variable_of(variable),
            size,
        },
        t3::Parameter::Native { ordinal, register } => Parameter::Argument {
            ordinal,
            size: register.width(),
        },
        t3::Parameter::Slot { variable, register } => Parameter::Slot {
            variable: variable_of(variable),
            size: register.width(),
        },
    }
}

pub open spec fn data_slot_of(data: t3::DataModel) -> DataModel {
    DataModel {
        id: data_of(data.id),
        address: data.address,
        name: data.name,
        ty: type_of(data.ty),
    }
}

pub open spec fn function_in(function: t3::FunctionModel) -> FunctionModel {
    FunctionModel {
        entry_offset: function.entry_offset,
        parameters: function.parameters.map_values(|p: t3::Parameter| parameter_of(p)),
        body: lifted_body(function.body),
    }
}

/// The same program in this tier, before it is cleaned up.
pub open spec fn program_in(source: t3::ProgramModel) -> ProgramModel {
    ProgramModel {
        entry_address: source.entry_address,
        entry: match source.entry {
            Some(entry) => Some(function_of(entry)),
            None => None,
        },
        data: source.data.map_values(|d: t3::DataModel| data_slot_of(d)),
        functions: source.functions.map_values(|f: t3::FunctionModel| function_in(f)),
    }
}

/// A program with its constants, copies and loop checks in place.
pub open spec fn program_settled(program: ProgramModel) -> ProgramModel {
    let folded = program_constant_folded(
        program_collapsed(program_constant_folded(program)),
    );
    program_conditions_inlined(
        program_unaliased(program_coalesced(program_unaliased(folded))),
    )
}

/// The tier 4 program of a tier 3 program.
pub open spec fn lifted(source: t3::ProgramModel) -> ProgramModel {
    let simple = program_branches_simplified(
        program_simplified(program_settled(program_in(source))),
    );
    program_with_used(program_declared(program_placed(program_flattened(simple))))
}

fn parameters(list: &Vec<t3::Parameter>) -> (res: Vec<Parameter>)
    ensures
        res@ == list@.map_values(|p: t3::Parameter| parameter_of(p)),
{
    let mut res: Vec<Parameter> = Vec::new();
    let mut i: usize = 0;
    while i < list.len()
        invariant
            i <= list@.len(),
            res@.len() == i,
            forall|k: int| 0 <= k < i ==> (#[trigger] res@[k]) == parameter_of(list@[k]),
        decreases list@.len() - i,
    {
        let made: Parameter = match list[i] {
            t3::Parameter::Input { ordinal, size } => Parameter::Argument { ordinal, size },
            t3::Parameter::Value { variable, size } => Parameter::Slot {
                variable: variable_id(variable),
                size,
            },
            t3::Parameter::Native { ordinal, register } => Parameter::Argument {
                ordinal,
                size: register.size(),
            },
            t3::Parameter::Slot { variable, register } => Parameter::Slot {
                variable: variable_id(variable),
                size: register.size(),
            },
        };
        res.push(made);
        i = i + 1;
    }
    assert(res@ =~= list@.map_values(|p: t3::Parameter| parameter_of(p)));
    res
}

fn data_slots(data: &Vec<t3::DataVariable>) -> (res: Vec<DataVariable>)
    ensures
        data_models(res@) == t3::data_models(data@).map_values(|d: t3::DataModel| data_slot_of(d)),
{
    let mut res: Vec<DataVariable> = Vec::new();
    let mut i: usize = 0;
    while i < data.len()
        invariant
            i <= data@.len(),
            res@.len() == i,
            forall|k: int|
                0 <= k < i ==> (#[trigger] res@[k]).model() == data_slot_of(data@[k].model()),
        decreases data@.len() - i,
    {
        res.push(
            DataVariable {
                id: data_id(data[i].id),
                address: data[i].address,
                name: owned(data[i].name.as_str()),
                ty: variable_type(data[i].ty),
            },
        );
        i = i + 1;
    }
    assert(data_models(res@) =~= t3::data_models(data@).map_values(
        |d: t3::DataModel| data_slot_of(d),
    ));
    res
}

fn functions(list: &Vec<t3::SyntheticFunction>) -> (res: Vec<SyntheticFunction>)
    ensures
        function_models(res@) == t3::function_models(list@).map_values(
            |f: t3::FunctionModel| function_in(f),
        ),
{
    let mut res: Vec<SyntheticFunction> = Vec::new();
    let mut i: usize = 0;
    while i < list.len()
        invariant
            i <= list@.len(),
            res@.len() == i,
            forall|k: int|
                0 <= k < i ==> (#[trigger] res@[k]).model() == function_in(list@[k].model()),
        decreases list@.len() - i,
    {
        res.push(
            SyntheticFunction {
                entry_offset: list[i].entry_offset,
                parameters: parameters(&list[i].parameters),
                body: lift_body(&list[i].body),
            },
        );
        i = i + 1;
    }
    assert(function_models(res@) =~= t3::function_models(list@).map_values(
        |f: t3::FunctionModel| function_in(f),
    ));
    res
}

/// Lifts a tier 3 program.
pub fn lift(source: &t3::Program) -> (res: Program)
    ensures
        res.model() == lifted(source.model()),
{
    let mut program = Program {
        entry_address: source.entry_address,
        entry: match source.entry {
            Some(entry) => Some(function_id(entry)),
            None => None,
        },
        data: data_slots(&source.data),
        functions: functions(&source.functions),
    };
    assert(program.model() == program_in(source.model()));
    fold_constants::run(&mut program);
    collapse_branches(&mut program);
    fold_constants::run(&mut program);
    eliminate_aliases::run(&mut program);
    coalesce_loop_copies::run(&mut program);
    eliminate_aliases::run(&mut program);
    inline_loop_conditions::run(&mut program);
    simplify_binary_operations::run(&mut program);
    simplify_branches::run(&mut program);
    lift_return_branches::run(&mut program);
    place_declarations::run(&mut program);
    remove_declarations(&mut program);
    prune_unused_entry_arguments(&mut program);
    program
}

} // verus!
