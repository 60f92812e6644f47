//! A slot takes as many bytes after its type has been inferred as before.
use super::infer_types::{
    analysis_of, id_of, parameter_typed, program_typed, retyped, retyped_body, retyped_list,
    AnalysisModel, Slot,
};
use super::ir::{InstModel, Parameter, ProgramModel, VariableId, VariableType};
use vstd::prelude::*;

verus! {

/// The bytes that a value of the type takes, where the type says so. An integer
/// takes eight bits to the byte, an address eight bytes.
pub open spec fn byte_size(ty: VariableType) -> Option<nat> {
    match ty {
        VariableType::Unknown(Some(size)) => Some(size as nat),
        VariableType::Unknown(None) => None,
        VariableType::UnknownPointer => Some(8),
        VariableType::Pointer(_) => Some(8),
        VariableType::Vector(_) => Some(8),
        VariableType::Struct(_) => None,
        VariableType::Bool => Some(1),
        VariableType::Integer(bits) => if bits % 8 == 0 {
            Some((bits / 8) as nat)
        } else {
            None
        },
        VariableType::UnsignedInteger(bits) => if bits % 8 == 0 {
            Some((bits / 8) as nat)
        } else {
            None
        },
    }
}

/// The type of a parameter.
pub open spec fn type_of_parameter(parameter: Parameter) -> VariableType {
    match parameter {
        Parameter::Argument { ty, .. } => ty,
        Parameter::Slot { ty, .. } => ty,
    }
}

/// The variables that an instruction declares, each with the bytes that it takes.
pub open spec fn declared_sizes(instr: InstModel) -> Seq<(VariableId, Option<nat>)>
    decreases instr,
{
    match instr {
        InstModel::DeclareVariable { variable, ty } => seq![(variable, byte_size(ty))],
        InstModel::DeclareAndAssignVariable { variable, ty, .. } => seq![
            (variable, byte_size(ty)),
        ],
        InstModel::If { then_branch, else_branch, .. } => declared_sizes_list(then_branch)
            + declared_sizes_list(else_branch),
        InstModel::While { body, .. } => declared_sizes_body(body),
        _ => Seq::empty(),
    }
}

pub open spec fn declared_sizes_list(list: Seq<InstModel>) -> Seq<(VariableId, Option<nat>)>
    decreases list,
{
    if list.len() == 0 {
        Seq::empty()
    } else {
        declared_sizes_list(list.drop_last()) + declared_sizes(list[list.len() - 1])
    }
}

pub open spec fn declared_sizes_body(list: Seq<(usize, InstModel)>) -> Seq<
    (VariableId, Option<nat>),
>
    decreases list,
{
    if list.len() == 0 {
        Seq::empty()
    } else {
        declared_sizes_body(list.drop_last()) + declared_sizes(list[list.len() - 1].1)
    }
}

/// An inferred type takes the bytes of the slot: an integer of a slot of `n` bytes
/// has `8 * n` bits, and only a slot of eight bytes becomes an address. A type that
/// is known already stays.
pub proof fn law_an_inferred_type_is_as_wide_as_the_slot(
    analysis: AnalysisModel,
    slot: Slot,
    original: VariableType,
)
    ensures
        byte_size(analysis.typed(slot, original)) == byte_size(original),
        !(original is Unknown) ==> analysis.typed(slot, original) == original,
        original matches VariableType::Unknown(Some(size)) ==> match analysis.typed(
            slot,
            original,
        ) {
            VariableType::Integer(bits) => bits == 8 * size,
            VariableType::UnsignedInteger(bits) => bits == 8 * size,
            VariableType::Pointer(_) => size == 8,
            VariableType::UnknownPointer => size == 8,
            other => other == original,
        },
{
}

proof fn lemma_retyped_sizes(instr: InstModel, analysis: AnalysisModel)
    ensures
        declared_sizes(retyped(instr, analysis)) == declared_sizes(instr),
    decreases instr,
{
    match instr {
        InstModel::DeclareVariable { variable, ty } => {
            law_an_inferred_type_is_as_wide_as_the_slot(analysis, Slot::Variable(variable), ty);
        },
        InstModel::DeclareAndAssignVariable { variable, ty, .. } => {
            law_an_inferred_type_is_as_wide_as_the_slot(analysis, Slot::Variable(variable), ty);
        },
        InstModel::If { then_branch, else_branch, .. } => {
            lemma_retyped_sizes_list(then_branch, analysis);
            lemma_retyped_sizes_list(else_branch, analysis);
        },
        InstModel::While { body, .. } => {
            lemma_retyped_sizes_body(body, analysis);
        },
        _ => {},
    }
}

proof fn lemma_retyped_sizes_list(list: Seq<InstModel>, analysis: AnalysisModel)
    ensures
        declared_sizes_list(retyped_list(list, analysis)) == declared_sizes_list(list),
    decreases list,
{
    if list.len() > 0 {
        lemma_retyped_sizes_list(list.drop_last(), analysis);
        lemma_retyped_sizes(list[list.len() - 1], analysis);
        assert(retyped_list(list, analysis).drop_last() =~= retyped_list(
            list.drop_last(),
            analysis,
        ));
    }
}

proof fn lemma_retyped_sizes_body(list: Seq<(usize, InstModel)>, analysis: AnalysisModel)
    ensures
        declared_sizes_body(retyped_body(list, analysis)) == declared_sizes_body(list),
    decreases list,
{
    if list.len() > 0 {
        lemma_retyped_sizes_body(list.drop_last(), analysis);
        lemma_retyped_sizes(list[list.len() - 1].1, analysis);
        assert(retyped_body(list, analysis).drop_last() =~= retyped_body(
            list.drop_last(),
            analysis,
        ));
    }
}

/// Inference changes how the slots of a program are read, never how many bytes
/// they take: each parameter and each declared variable is as wide as before.
pub proof fn law_inference_keeps_the_width_of_every_slot(program: ProgramModel, index: int)
    requires
        0 <= index < program.functions.len(),
    ensures
        ({
            let before = program.functions[index];
            let after = program_typed(program).functions[index];
            &&& after.parameters.len() == before.parameters.len()
            &&& forall|i: int|
                0 <= i < before.parameters.len() ==> byte_size(
                    type_of_parameter(#[trigger] after.parameters[i]),
                ) == byte_size(type_of_parameter(before.parameters[i]))
            &&& declared_sizes_body(after.body) == declared_sizes_body(before.body)
        }),
{
    let analysis = analysis_of(program.functions);
    let before = program.functions[index];
    let after = program_typed(program).functions[index];
    lemma_retyped_sizes_body(before.body, analysis);
    assert forall|i: int| 0 <= i < before.parameters.len() implies byte_size(
        type_of_parameter(#[trigger] after.parameters[i]),
    ) == byte_size(type_of_parameter(before.parameters[i])) by {
        assert(after.parameters[i] == parameter_typed(
            before.parameters[i],
            id_of(index),
            analysis,
        ));
        match before.parameters[i] {
            Parameter::Argument { ordinal, ty } => {
                law_an_inferred_type_is_as_wide_as_the_slot(
                    analysis,
                    Slot::Argument(id_of(index), ordinal),
                    ty,
                );
            },
            Parameter::Slot { variable, ty } => {
                law_an_inferred_type_is_as_wide_as_the_slot(analysis, Slot::Variable(variable), ty);
            },
        }
    }
}

} // verus!
