//! Tier 2: integer values in place of the bytes of registers and of the stack.
pub mod constants;
pub mod folding_laws;
pub mod ir;
pub mod lifter;
pub mod values;

use crate::irt1::ir as t1;
use constants::program_folded;
use ir::{
    function_models, FunctionModel, Program, ProgramModel, SyntheticFunction, SyntheticFunctionId,
};
use lifter::{lift_function, lifted_function};
use vstd::prelude::*;

verus! {

/// The first `count` functions of a tier 1 program, lifted.
pub open spec fn lifted_functions(source: t1::ProgramModel, count: int) -> Option<
    Seq<FunctionModel>,
>
    decreases count,
{
    if count <= 0 {
        Some(Seq::empty())
    } else {
        let id = (count - 1) as usize;
        match (
            lifted_functions(source, count - 1),
            lifted_function(
                id,
                source.functions[count - 1],
                source.entry == Some(t1::SyntheticFunctionId { id }),
                source.stack_widths,
            ),
        ) {
            (Some(before), Some(function)) => Some(before.push(function)),
            _ => None,
        }
    }
}

/// The tier 2 program of a tier 1 program, with its constants folded.
pub open spec fn lifted(source: t1::ProgramModel) -> Option<ProgramModel> {
    match lifted_functions(source, source.functions.len() as int) {
        Some(functions) => Some(
            program_folded(
                ProgramModel {
                    entry_address: source.entry_address,
                    entry: match source.entry {
                        Some(entry) => Some(SyntheticFunctionId { id: entry.id }),
                        None => None,
                    },
                    data: Seq::empty(),
                    functions,
                },
            ),
        ),
        None => None,
    }
}

proof fn lemma_functions_stop(source: t1::ProgramModel, small: int, count: int)
    requires
        0 < small <= count,
        lifted_functions(source, small) is None,
    ensures
        lifted_functions(source, count) is None,
    decreases count - small,
{
    if small < count {
        lemma_functions_stop(source, small, count - 1);
    }
}

/// Lifts a tier 1 program, if everything in it has a form in tier 2.
pub fn try_lift(source: &t1::Program) -> (res: Option<Program>)
    ensures
        match res {
            Some(program) => lifted(source.model()) == Some(program.model()),
            None => lifted(source.model()) is None,
        },
{
    let ghost model = source.model();
    let mut functions: Vec<SyntheticFunction> = Vec::new();
    assert(function_models(functions@) =~= Seq::<FunctionModel>::empty());
    let mut i: usize = 0;
    while i < source.functions.len()
        invariant
            i <= source.functions@.len(),
            model == source.model(),
            model.functions.len() == source.functions@.len(),
            lifted_functions(model, i as int) == Some(function_models(functions@)),
        decreases source.functions@.len() - i,
    {
        assert(model.functions[i as int] == source.functions@[i as int].model());
        let entry: bool = match source.entry {
            Some(entry) => entry.id == i,
            None => false,
        };
        let ghost before = function_models(functions@);
        match lift_function(i, &source.functions[i], entry, &source.stack_widths) {
            Some(function) => {
                let ghost added = function.model();
                functions.push(function);
                assert(function_models(functions@) =~= before.push(added));
            },
            None => {
                proof {
                    lemma_functions_stop(model, i + 1, model.functions.len() as int);
                }
                return None;
            },
        }
        i = i + 1;
    }
    let mut program = Program {
        entry_address: source.entry_address,
        entry: match source.entry {
            Some(entry) => Some(SyntheticFunctionId { id: entry.id }),
            None => None,
        },
        data: Vec::new(),
        functions,
    };
    assert(program.model().data =~= Seq::<ir::DataModel>::empty());
    constants::run(&mut program);
    Some(program)
}

/// Lifts a tier 1 program. Everything in it has to have a form in tier 2.
pub fn lift(source: &t1::Program) -> (res: Program)
    requires
        lifted(source.model()) is Some,
    ensures
        lifted(source.model()) == Some(res.model()),
{
    match try_lift(source) {
        Some(program) => program,
        None => vstd::pervasive::unreached(),
    }
}

} // verus!
