//! Tier 1: shared partitions of the machine code as synthetic functions.
pub mod builder;
pub mod condition_laws;
pub mod conditions;
pub mod frame;
pub mod ir;
pub mod numbering;
pub mod prune_flags;
pub mod register_parameters;
pub mod render;
pub mod return_registers;

use crate::irt0::ir as t0;
use crate::table::Table;
use builder::{is_well_shaped, partition, partitioned, well_shaped};
use conditions::{lift_conditions, lifted_body};
use frame::{strip_frame_saves, stripped};
use ir::{
    body_calls_within, calls_within, function_models, functions_linked, is_linked,
    FunctionModel, InstModel, Parameter, Program, ProgramModel, SyntheticFunction,
    SyntheticFunctionId,
};
use prune_flags::{flags_are_local, has_local_flags, prune, pruned, pruned_body};
use register_parameters::{try_tr, with_parameters};
use return_registers::{
    body_with_returns, is_least_solution, law_least_solution_is_unique,
    law_there_is_a_least_solution, returns_named,
    with_return, State,
};
use vstd::prelude::*;

verus! {

/// The first `count` functions with boolean variables for the flags that their
/// branches read.
pub open spec fn conditions_lifted(functions: Seq<FunctionModel>, count: int) -> Option<
    Seq<FunctionModel>,
>
    decreases count,
{
    if count <= 0 {
        Some(Seq::empty())
    } else {
        match (
            conditions_lifted(functions, count - 1),
            lifted_body(
                SyntheticFunctionId { id: (count - 1) as usize },
                functions[count - 1].body,
            ),
        ) {
            (Some(before), Some(body)) => Some(
                before.push(FunctionModel { body, ..functions[count - 1] }),
            ),
            _ => None,
        }
    }
}

/// The program with the register named that each return hands back.
pub open spec fn with_returns(program: ProgramModel) -> ProgramModel {
    choose|after: ProgramModel| returns_named(program, after)
}

/// There is only one way to name what the returns hand back.
pub proof fn law_returns_are_unique(program: ProgramModel, a: ProgramModel, b: ProgramModel)
    requires
        returns_named(program, a),
        returns_named(program, b),
    ensures
        a == b,
{
    if let Some(entry) = program.entry {
        let first = choose|incoming: Seq<State>| #[trigger]
            is_least_solution(program.functions, entry.id as int, incoming) && a == (ProgramModel {
                functions: return_registers::functions_with_returns(program.functions, incoming),
                ..program
            });
        let second = choose|incoming: Seq<State>| #[trigger]
            is_least_solution(program.functions, entry.id as int, incoming) && b == (ProgramModel {
                functions: return_registers::functions_with_returns(program.functions, incoming),
                ..program
            });
        law_least_solution_is_unique(program.functions, entry.id as int, first, second);
    }
}

/// What the returns hand back can be named in every program whose entry is one of its
/// functions.
pub proof fn law_returns_can_be_named(program: ProgramModel)
    requires
        program.entry matches Some(entry) ==> entry.id < program.functions.len(),
    ensures
        returns_named(program, with_returns(program)),
{
    match program.entry {
        Some(entry) => {
            law_there_is_a_least_solution(program.functions, entry.id as int);
            let incoming = choose|incoming: Seq<State>| #[trigger]
                is_least_solution(program.functions, entry.id as int, incoming);
            let after = ProgramModel {
                functions: return_registers::functions_with_returns(program.functions, incoming),
                ..program
            };
            assert(returns_named(program, after));
        },
        None => {
            assert(returns_named(program, program));
        },
    }
}

/// The program before its functions have parameters.
pub open spec fn partitions_of(
    entry_address: usize,
    functions: Seq<FunctionModel>,
) -> ProgramModel {
    ProgramModel {
        entry_address,
        entry: Some(SyntheticFunctionId { id: 0 }),
        stack_widths: Map::empty(),
        functions,
    }
}

/// The tier 1 program of a tier 0 program. There is none where a conditional
/// operation is neither a jump nor a move, a condition cannot be expressed, a
/// function needs flags from its caller, or a requirement has no register.
pub open spec fn lifted(source: t0::ProgramModel) -> Option<ProgramModel> {
    let operations = stripped(source.instructions);
    let functions = partitioned(operations, source.entry_address);
    if operations.len() == 0 {
        Some(
            ProgramModel {
                entry_address: source.entry_address,
                entry: None,
                stack_widths: Map::empty(),
                functions: Seq::empty(),
            },
        )
    } else if !is_well_shaped(operations) {
        None
    } else {
        match conditions_lifted(functions, functions.len() as int) {
            None => None,
            Some(functions) => {
                let after = pruned(partitions_of(source.entry_address, functions));
                if flags_are_local(after.functions) {
                    with_parameters(with_returns(after))
                } else {
                    None
                }
            },
        }
    }
}

proof fn lemma_conditions_stop(functions: Seq<FunctionModel>, small: int, count: int)
    requires
        0 < small <= count,
        conditions_lifted(functions, small) is None,
    ensures
        conditions_lifted(functions, count) is None,
    decreases count - small,
{
    if small < count {
        lemma_conditions_stop(functions, small, count - 1);
    }
}

proof fn lemma_rewritten_linked(
    body: Seq<(usize, InstModel)>,
    function: SyntheticFunctionId,
    flags: Seq<ir::NativeFlag>,
    done: int,
    count: int,
)
    requires
        body_calls_within(body, count),
        0 <= done <= body.len(),
        conditions::rewritten(body, function, flags, done) is Some,
    ensures
        body_calls_within(conditions::rewritten(body, function, flags, done)->0, count),
    decreases done,
{
    if done == 0 {
        lemma_declarations_linked(function, body[0].0, flags.len() as int, count);
    } else {
        lemma_rewritten_linked(body, function, flags, done - 1, count);
        lemma_assignments_linked(body, function, flags, done - 1, flags.len() as int, count);
        let before = conditions::rewritten(body, function, flags, done - 1)->0;
        let added = conditions::assignments(body, function, flags, done - 1, flags.len() as int)->0;
        let last = conditions::with_condition(body[done - 1].1, function, flags)->0;
        assert(calls_within(body[done - 1].1, count));
        assert(calls_within(last, count));
        let all = (before + added).push((body[done - 1].0, last));
        assert forall|i: int| 0 <= i < all.len() implies calls_within(
            (#[trigger] all[i]).1,
            count,
        ) by {
            if i < before.len() {
                assert(all[i] == before[i]);
            } else if i < before.len() + added.len() {
                assert(all[i] == added[i - before.len()]);
            }
        }
    }
}

proof fn lemma_declarations_linked(
    function: SyntheticFunctionId,
    offset: usize,
    done: int,
    count: int,
)
    ensures
        body_calls_within(conditions::declarations(function, offset, done), count),
    decreases done,
{
    if done > 0 {
        lemma_declarations_linked(function, offset, done - 1, count);
        let before = conditions::declarations(function, offset, done - 1);
        let all = conditions::declarations(function, offset, done);
        assert forall|i: int| 0 <= i < all.len() implies calls_within(
            (#[trigger] all[i]).1,
            count,
        ) by {
            if i < before.len() {
                assert(all[i] == before[i]);
            }
        }
    }
}

proof fn lemma_assignments_linked(
    body: Seq<(usize, InstModel)>,
    function: SyntheticFunctionId,
    flags: Seq<ir::NativeFlag>,
    index: int,
    done: int,
    count: int,
)
    requires
        conditions::assignments(body, function, flags, index, done) is Some,
    ensures
        body_calls_within(
            conditions::assignments(body, function, flags, index, done)->0,
            count,
        ),
    decreases done,
{
    if done > 0 {
        lemma_assignments_linked(body, function, flags, index, done - 1, count);
        let before = conditions::assignments(body, function, flags, index, done - 1)->0;
        let all = conditions::assignments(body, function, flags, index, done)->0;
        assert forall|i: int| 0 <= i < all.len() implies calls_within(
            (#[trigger] all[i]).1,
            count,
        ) by {
            if i < before.len() {
                assert(all[i] == before[i]);
            }
        }
    }
}

proof fn lemma_lifted_body_linked(
    function: SyntheticFunctionId,
    body: Seq<(usize, InstModel)>,
    count: int,
)
    requires
        body_calls_within(body, count),
        lifted_body(function, body) is Some,
    ensures
        body_calls_within(lifted_body(function, body)->0, count),
{
    let flags = conditions::branch_flags(body);
    if flags.len() > 0 {
        lemma_rewritten_linked(body, function, flags, body.len() as int, count);
    }
}

proof fn lemma_pruned_body_linked(body: Seq<(usize, InstModel)>, count: int)
    requires
        body_calls_within(body, count),
    ensures
        body_calls_within(pruned_body(body).kept, count),
    decreases body.len(),
{
    if body.len() > 0 {
        let rest = body.subrange(1, body.len() as int);
        assert(body_calls_within(rest, count)) by {
            assert forall|i: int| 0 <= i < rest.len() implies calls_within(
                (#[trigger] rest[i]).1,
                count,
            ) by {
                assert(rest[i] == body[i + 1]);
            }
        }
        lemma_pruned_body_linked(rest, count);
        let after = pruned_body(rest).kept;
        let all = pruned_body(body).kept;
        assert(calls_within(body[0].1, count));
        assert forall|i: int| 0 <= i < all.len() implies calls_within(
            (#[trigger] all[i]).1,
            count,
        ) by {
            if all.len() == after.len() {
                assert(all[i] == after[i]);
            } else if i > 0 {
                assert(all[i] == after[i - 1]);
            }
        }
    }
}

proof fn lemma_return_linked(instr: InstModel, state: State, count: int)
    requires
        calls_within(instr, count),
    ensures
        calls_within(with_return(instr, state), count),
    decreases instr,
{
    if let InstModel::If { then_branch, else_branch, .. } = instr {
        lemma_return_linked(*then_branch, state, count);
        lemma_return_linked(*else_branch, state, count);
    }
}

/// Removing flag writes keeps every call inside the program.
pub proof fn law_pruning_keeps_links(program: ProgramModel)
    requires
        is_linked(program),
    ensures
        is_linked(pruned(program)),
{
    let after = pruned(program).functions;
    assert forall|i: int| 0 <= i < after.len() implies body_calls_within(
        (#[trigger] after[i]).body,
        after.len() as int,
    ) by {
        assert(body_calls_within(program.functions[i].body, after.len() as int));
        lemma_pruned_body_linked(program.functions[i].body, after.len() as int);
    }
}

/// Naming what returns hand back keeps every call inside the program.
pub proof fn law_returns_keep_links(program: ProgramModel, after: ProgramModel)
    requires
        is_linked(program),
        returns_named(program, after),
    ensures
        is_linked(after),
{
    if let Some(entry) = program.entry {
        let incoming = choose|incoming: Seq<State>| #[trigger]
            is_least_solution(program.functions, entry.id as int, incoming) && after == (
            ProgramModel {
                functions: return_registers::functions_with_returns(program.functions, incoming),
                ..program
            });
        assert forall|i: int| 0 <= i < after.functions.len() implies body_calls_within(
            (#[trigger] after.functions[i]).body,
            after.functions.len() as int,
        ) by {
            let body = program.functions[i].body;
            assert(body_calls_within(program.functions[i].body, after.functions.len() as int));
            let named = body_with_returns(body, incoming[i]);
            assert forall|k: int| 0 <= k < named.len() implies calls_within(
                (#[trigger] named[k]).1,
                after.functions.len() as int,
            ) by {
                assert(calls_within(body[k].1, after.functions.len() as int));
                lemma_return_linked(
                    body[k].1,
                    return_registers::state_after(body, k + 1, incoming[i]),
                    after.functions.len() as int,
                );
            }
        }
    }
}

fn copy_parameters(parameters: &Vec<Parameter>) -> (res: Vec<Parameter>)
    ensures
        res@ == parameters@,
{
    let mut res: Vec<Parameter> = Vec::new();
    let mut i: usize = 0;
    while i < parameters.len()
        invariant
            i <= parameters@.len(),
            res@ == parameters@.subrange(0, i as int),
        decreases parameters@.len() - i,
    {
        res.push(parameters[i]);
        i = i + 1;
        assert(res@ =~= parameters@.subrange(0, i as int));
    }
    assert(res@ =~= parameters@);
    res
}

fn lift_all_conditions(functions: Vec<SyntheticFunction>) -> (res: Option<Vec<SyntheticFunction>>)
    requires
        functions_linked(function_models(functions@), functions@.len() as int),
    ensures
        match res {
            Some(after) => {
                &&& conditions_lifted(
                    function_models(functions@),
                    functions@.len() as int,
                ) == Some(function_models(after@))
                &&& after@.len() == functions@.len()
                &&& functions_linked(function_models(after@), functions@.len() as int)
            },
            None => conditions_lifted(
                function_models(functions@),
                functions@.len() as int,
            ) is None,
        },
{
    let ghost all = function_models(functions@);
    let ghost count = functions@.len() as int;
    let mut res: Vec<SyntheticFunction> = Vec::new();
    assert(function_models(res@) =~= Seq::<FunctionModel>::empty());
    let mut i: usize = 0;
    while i < functions.len()
        invariant
            i <= functions@.len(),
            count == functions@.len(),
            all == function_models(functions@),
            functions_linked(all, count),
            res@.len() == i,
            conditions_lifted(all, i as int) == Some(function_models(res@)),
            functions_linked(function_models(res@), count),
        decreases functions@.len() - i,
    {
        assert(all[i as int] == functions@[i as int].model());
        assert(body_calls_within(all[i as int].body, count));
        let ghost before = function_models(res@);
        match lift_conditions(SyntheticFunctionId { id: i }, &functions[i].body) {
            Some(body) => {
                proof {
                    lemma_lifted_body_linked(
                        SyntheticFunctionId { id: i },
                        all[i as int].body,
                        count,
                    );
                }
                let function = SyntheticFunction {
                    entry_offset: functions[i].entry_offset,
                    parameters: copy_parameters(&functions[i].parameters),
                    external_flags: functions[i].external_flags,
                    body,
                };
                let ghost model = function.model();
                res.push(function);
                proof {
                    assert(function_models(res@) =~= before.push(model));
                    assert forall|k: int| 0 <= k < i + 1 implies body_calls_within(
                        (#[trigger] function_models(res@)[k]).body,
                        count,
                    ) by {
                        if k < i {
                            assert(body_calls_within(before[k].body, count));
                        }
                    }
                }
            },
            None => {
                proof {
                    lemma_conditions_stop(all, i + 1, count);
                }
                return None;
            },
        }
        i = i + 1;
    }
    Some(res)
}

/// Lifts a tier 0 program, if everything in it has a form in tier 1.
pub fn try_lift(source: &t0::Program) -> (res: Option<Program>)
    ensures
        match res {
            Some(program) => lifted(source.model()) == Some(program.model()),
            None => lifted(source.model()) is None,
        },
{
    let operations: Vec<(usize, t0::IRInst)> = strip_frame_saves(&source.instructions);
    if operations.len() == 0 {
        let program = Program {
            entry_address: source.entry_address,
            entry: None,
            stack_widths: Table::new(),
            functions: Vec::new(),
        };
        assert(program.model().functions =~= Seq::<FunctionModel>::empty());
        return Some(program);
    }
    if !well_shaped(&operations) {
        return None;
    }
    let functions: Vec<SyntheticFunction> = partition(&operations, source.entry_address);
    let functions: Vec<SyntheticFunction> = match lift_all_conditions(functions) {
        Some(functions) => functions,
        None => return None,
    };
    let program = Program {
        entry_address: source.entry_address,
        entry: Some(SyntheticFunctionId { id: 0 }),
        stack_widths: Table::new(),
        functions,
    };
    let ghost before = program.model();
    let mut program: Program = prune(program);
    proof {
        law_pruning_keeps_links(before);
    }
    if !has_local_flags(&program) {
        return None;
    }
    let ghost pruned_program = program.model();
    return_registers::run(&mut program);
    proof {
        law_returns_are_unique(pruned_program, program.model(), with_returns(pruned_program));
        law_returns_keep_links(pruned_program, program.model());
    }
    try_tr(&program)
}

/// Lifts a tier 0 program. Everything in it has to have a form in tier 1.
pub fn lift(source: &t0::Program) -> (res: Program)
    requires
        lifted(source.model()) is Some,
    ensures
        lifted(source.model()) == Some(res.model()),
{
    match try_lift(source) {
        Some(program) => program,
        None => vstd::pervasive::unreached(),
    }
}

} // verus!
