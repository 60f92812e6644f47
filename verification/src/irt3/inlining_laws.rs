//! Inlining a value keeps what a function does.
use super::inline_variables::{
    accessed_by, accessed_by_body, accessed_by_list, accesses_of, any_disturbs, candidate_at,
    candidate_from, definition_of, disturbed_between, disturbs, first_with, inlined, inlined_at,
    lemma_absent, lemma_counts_absent, loads, mentions, read_by, read_by_all, substituted,
    substituted_all, substituted_in, substituted_in_body, substituted_in_list, times, times_in,
    undeclared, used_in_condition, Access,
};
use super::ir::{FunctionModel, IRExpr, InstModel, LoopId, VariableId};
use super::outcome::{
    agree, alike, goes_on, lemma_run_body_push, run, run_body, run_list, run_loop, seen,
    state_after, value, values, with_variable, Meaning, Outcome, State,
};
use vstd::prelude::*;

verus! {

// ---------------------------------------------------------------------------
// Accesses

proof fn lemma_read_by(expr: IRExpr, accesses: Seq<Access>)
    ensures
        read_by(expr, accesses) == accesses + read_by(expr, Seq::empty()),
    decreases expr,
{
    let none = Seq::<Access>::empty();
    match expr {
        IRExpr::BinOp { lhs, rhs, .. } => {
            lemma_read_by(*lhs, accesses);
            lemma_read_by(*rhs, read_by(*lhs, accesses));
            lemma_read_by(*rhs, read_by(*lhs, none));
        },
        IRExpr::Deref(address) => lemma_read_by(*address, accesses),
        IRExpr::CastUnknownPtr { address, .. } => lemma_read_by(*address, accesses),
        IRExpr::Convert { value, .. } => lemma_read_by(*value, accesses),
        IRExpr::Not(inner) => lemma_read_by(*inner, accesses),
        _ => {},
    }
    assert(read_by(expr, accesses) =~= accesses + read_by(expr, none));
}

proof fn lemma_read_by_all(list: Seq<IRExpr>, accesses: Seq<Access>)
    ensures
        read_by_all(list, accesses) == accesses + read_by_all(list, Seq::empty()),
    decreases list.len(),
{
    let none = Seq::<Access>::empty();
    if list.len() > 0 {
        lemma_read_by_all(list.drop_last(), accesses);
        lemma_read_by(list.last(), read_by_all(list.drop_last(), accesses));
        lemma_read_by(list.last(), read_by_all(list.drop_last(), none));
    }
    assert(read_by_all(list, accesses) =~= accesses + read_by_all(list, none));
}

/// The variables that an expression reads are those it mentions.
proof fn lemma_mentions(expr: IRExpr, slot: VariableId)
    ensures
        mentions(expr, slot) <==> read_by(expr, Seq::empty()).contains(Access::Read(slot)),
        forall|a: Access| #[trigger] read_by(expr, Seq::empty()).contains(a) ==> a is Read,
    decreases expr,
{
    let none = Seq::<Access>::empty();
    match expr {
        IRExpr::BinOp { lhs, rhs, .. } => {
            lemma_mentions(*lhs, slot);
            lemma_mentions(*rhs, slot);
            lemma_read_by(*rhs, read_by(*lhs, none));
            lemma_contains(read_by(*lhs, none), read_by(*rhs, none));
        },
        IRExpr::Deref(address) => lemma_mentions(*address, slot),
        IRExpr::CastUnknownPtr { address, .. } => lemma_mentions(*address, slot),
        IRExpr::Convert { value, .. } => lemma_mentions(*value, slot),
        IRExpr::Not(inner) => lemma_mentions(*inner, slot),
        IRExpr::Variable(variable) => {
            assert(read_by(expr, none) =~= seq![Access::Read(variable)]);
            assert(seq![Access::Read(variable)][0] == Access::Read(variable));
        },
        _ => {},
    }
}

proof fn lemma_contains(a: Seq<Access>, b: Seq<Access>)
    ensures
        forall|x: Access| #[trigger] (a + b).contains(x) <==> a.contains(x) || b.contains(x),
{
    assert forall|x: Access| #[trigger] (a + b).contains(x) <==> a.contains(x) || b.contains(
        x,
    ) by {
        if a.contains(x) {
            let i = choose|i: int| 0 <= i < a.len() && a[i] == x;
            assert((a + b)[i] == x);
        }
        if b.contains(x) {
            let i = choose|i: int| 0 <= i < b.len() && b[i] == x;
            assert((a + b)[a.len() + i] == x);
        }
    }
}

proof fn lemma_accessed_by(instr: InstModel, accesses: Seq<Access>)
    ensures
        accessed_by(instr, accesses) == accesses + accesses_of(instr),
    decreases instr,
{
    let none = Seq::<Access>::empty();
    match instr {
        InstModel::Assign { dest, src } => {
            lemma_read_by(src, accesses);
            lemma_read_by(dest, read_by(src, accesses));
            lemma_read_by(dest, read_by(src, none));
        },
        InstModel::Return(Some(value)) => lemma_read_by(value, accesses),
        InstModel::AssignVariable { value, .. } => lemma_read_by(value, accesses),
        InstModel::LoadVariable { address, .. } => lemma_read_by(address, accesses),
        InstModel::StoreVariable { address, .. } => lemma_read_by(address, accesses),
        InstModel::If { condition, then_branch, else_branch } => {
            lemma_read_by(condition, accesses);
            let first = read_by(condition, accesses);
            lemma_accessed_by_list(then_branch, first);
            lemma_accessed_by_list(then_branch, read_by(condition, none));
            lemma_accessed_by_list(else_branch, accessed_by_list(then_branch, first));
            lemma_accessed_by_list(
                else_branch,
                accessed_by_list(then_branch, read_by(condition, none)),
            );
        },
        InstModel::Loop { body, .. } => lemma_accessed_by_body(body, accesses),
        InstModel::CallSynthetic { arguments, .. } => lemma_read_by_all(arguments, accesses),
        InstModel::Jump(target) => lemma_read_by(target, accesses),
        _ => {},
    }
    assert(accessed_by(instr, accesses) =~= accesses + accesses_of(instr));
}

proof fn lemma_accessed_by_list(list: Seq<InstModel>, accesses: Seq<Access>)
    ensures
        accessed_by_list(list, accesses) == accesses + accessed_by_list(list, Seq::empty()),
    decreases list,
{
    let none = Seq::<Access>::empty();
    if list.len() > 0 {
        lemma_accessed_by_list(list.drop_last(), accesses);
        lemma_accessed_by(list[list.len() - 1], accessed_by_list(list.drop_last(), accesses));
        lemma_accessed_by(list[list.len() - 1], accessed_by_list(list.drop_last(), none));
    }
    assert(accessed_by_list(list, accesses) =~= accesses + accessed_by_list(list, none));
}

proof fn lemma_accessed_by_body(list: Seq<(usize, InstModel)>, accesses: Seq<Access>)
    ensures
        accessed_by_body(list, accesses) == accesses + accessed_by_body(list, Seq::empty()),
    decreases list,
{
    let none = Seq::<Access>::empty();
    if list.len() > 0 {
        lemma_accessed_by_body(list.drop_last(), accesses);
        lemma_accessed_by(list[list.len() - 1].1, accessed_by_body(list.drop_last(), accesses));
        lemma_accessed_by(list[list.len() - 1].1, accessed_by_body(list.drop_last(), none));
    }
    assert(accessed_by_body(list, accesses) =~= accesses + accessed_by_body(list, none));
}

/// Whether the instruction has the access.
pub open spec fn makes(instr: InstModel, access: Access) -> bool {
    accesses_of(instr).contains(access)
}

pub open spec fn list_makes(list: Seq<InstModel>, access: Access) -> bool {
    accessed_by_list(list, Seq::empty()).contains(access)
}

pub open spec fn body_makes(list: Seq<(usize, InstModel)>, access: Access) -> bool {
    accessed_by_body(list, Seq::empty()).contains(access)
}

pub open spec fn expression_makes(expr: IRExpr, access: Access) -> bool {
    read_by(expr, Seq::empty()).contains(access)
}

proof fn lemma_list_makes(list: Seq<InstModel>, access: Access)
    requires
        list.len() > 0,
    ensures
        list_makes(list, access) <==> list_makes(list.drop_last(), access) || makes(
            list[list.len() - 1],
            access,
        ),
{
    let before = accessed_by_list(list.drop_last(), Seq::empty());
    lemma_accessed_by(list[list.len() - 1], before);
    lemma_contains(before, accesses_of(list[list.len() - 1]));
}

proof fn lemma_body_makes(list: Seq<(usize, InstModel)>, access: Access)
    requires
        list.len() > 0,
    ensures
        body_makes(list, access) <==> body_makes(list.drop_last(), access) || makes(
            list[list.len() - 1].1,
            access,
        ),
{
    let before = accessed_by_body(list.drop_last(), Seq::empty());
    lemma_accessed_by(list[list.len() - 1].1, before);
    lemma_contains(before, accesses_of(list[list.len() - 1].1));
}

proof fn lemma_branch_makes(instr: InstModel, access: Access)
    requires
        instr is If,
    ensures
        makes(instr, access) <==> expression_makes(instr->condition, access) || list_makes(
            instr->then_branch,
            access,
        ) || list_makes(instr->else_branch, access),
{
    let none = Seq::<Access>::empty();
    let first = read_by(instr->condition, none);
    let second = accessed_by_list(instr->then_branch, first);
    lemma_accessed_by_list(instr->then_branch, first);
    lemma_accessed_by_list(instr->else_branch, second);
    lemma_contains(first, accessed_by_list(instr->then_branch, none));
    lemma_contains(second, accessed_by_list(instr->else_branch, none));
}

/// How the accesses of the other instructions are made up.
proof fn lemma_leaf_makes(instr: InstModel, access: Access)
    ensures
        match instr {
            InstModel::Assign { dest, src } => makes(instr, access) <==> expression_makes(
                src,
                access,
            ) || match dest {
                IRExpr::Variable(variable) => access == Access::Write(variable),
                _ => expression_makes(dest, access) || access == Access::WriteMemory,
            },
            InstModel::Return(Some(value)) => makes(instr, access) <==> expression_makes(
                value,
                access,
            ),
            InstModel::AssignVariable { variable, value } => makes(instr, access)
                <==> expression_makes(value, access) || access == Access::Write(variable),
            InstModel::LoadVariable { variable, address } => makes(instr, access)
                <==> expression_makes(address, access) || access == Access::Write(variable),
            InstModel::StoreVariable { address, variable } => makes(instr, access)
                <==> expression_makes(address, access) || access == Access::Read(variable) || access
                == Access::WriteMemory,
            InstModel::Jump(target) => makes(instr, access) <==> expression_makes(target, access),
            _ => true,
        },
{
    let none = Seq::<Access>::empty();
    match instr {
        InstModel::Assign { dest, src } => {
            let reads = read_by(src, none);
            match dest {
                IRExpr::Variable(variable) => {
                    lemma_pushed(reads, Access::Write(variable));
                },
                _ => {
                    lemma_read_by(dest, reads);
                    lemma_contains(reads, read_by(dest, none));
                    lemma_pushed(read_by(dest, reads), Access::WriteMemory);
                },
            }
        },
        InstModel::AssignVariable { variable, value } => {
            lemma_pushed(read_by(value, none), Access::Write(variable));
        },
        InstModel::LoadVariable { variable, address } => {
            lemma_pushed(read_by(address, none), Access::Write(variable));
        },
        InstModel::StoreVariable { address, variable } => {
            let reads = read_by(address, none);
            lemma_pushed(reads, Access::Read(variable));
            lemma_pushed(reads.push(Access::Read(variable)), Access::WriteMemory);
        },
        _ => {},
    }
}

proof fn lemma_pushed(a: Seq<Access>, last: Access)
    ensures
        forall|x: Access| #[trigger] a.push(last).contains(x) <==> a.contains(x) || x == last,
{
    assert forall|x: Access| #[trigger] a.push(last).contains(x) <==> a.contains(x) || x
        == last by {
        if a.contains(x) {
            let i = choose|i: int| 0 <= i < a.len() && a[i] == x;
            assert(a.push(last)[i] == x);
        }
        assert(a.push(last)[a.len() as int] == last);
    }
}

proof fn lemma_arguments_read(list: Seq<IRExpr>, i: int, access: Access)
    requires
        0 <= i < list.len(),
        expression_makes(list[i], access),
    ensures
        read_by_all(list, Seq::empty()).contains(access),
    decreases list.len(),
{
    let none = Seq::<Access>::empty();
    let before = read_by_all(list.drop_last(), none);
    lemma_read_by(list.last(), before);
    lemma_contains(before, read_by(list.last(), none));
    if i < list.len() - 1 {
        lemma_arguments_read(list.drop_last(), i, access);
    }
}

// ---------------------------------------------------------------------------
// Values

/// A value depends on the variables that it mentions, and on memory where it reads
/// it.
pub proof fn law_a_value_depends_on_what_it_reads(m: Meaning, a: State, b: State, expr: IRExpr)
    requires
        forall|v: VariableId| #[trigger]
            mentions(expr, v) ==> (a.variables)(v) == (b.variables)(v),
        loads(expr) ==> a.memory == b.memory,
    ensures
        value(m, a, expr) == value(m, b, expr),
    decreases expr,
{
    match expr {
        IRExpr::BinOp { lhs, rhs, .. } => {
            assert forall|v: VariableId| #[trigger] mentions(*lhs, v) implies (a.variables)(v) == (
            b.variables)(v) by {
                assert(mentions(expr, v));
            }
            assert forall|v: VariableId| #[trigger] mentions(*rhs, v) implies (a.variables)(v) == (
            b.variables)(v) by {
                assert(mentions(expr, v));
            }
            law_a_value_depends_on_what_it_reads(m, a, b, *lhs);
            law_a_value_depends_on_what_it_reads(m, a, b, *rhs);
        },
        IRExpr::Deref(inner) | IRExpr::Not(inner) => {
            assert forall|v: VariableId| #[trigger] mentions(*inner, v) implies (a.variables)(v)
                == (b.variables)(v) by {
                assert(mentions(expr, v));
            }
            law_a_value_depends_on_what_it_reads(m, a, b, *inner);
        },
        IRExpr::CastUnknownPtr { address, .. } => {
            assert forall|v: VariableId| #[trigger] mentions(*address, v) implies (a.variables)(v)
                == (b.variables)(v) by {
                assert(mentions(expr, v));
            }
            law_a_value_depends_on_what_it_reads(m, a, b, *address);
        },
        IRExpr::Convert { value: inner, .. } => {
            assert forall|v: VariableId| #[trigger] mentions(*inner, v) implies (a.variables)(v)
                == (b.variables)(v) by {
                assert(mentions(expr, v));
            }
            law_a_value_depends_on_what_it_reads(m, a, b, *inner);
        },
        IRExpr::Variable(variable) => {
            assert(mentions(expr, variable));
        },
        _ => {},
    }
}

/// Replacing a variable by an expression with its value keeps the value.
pub proof fn law_substitution_keeps_the_value(
    m: Meaning,
    a: State,
    b: State,
    expr: IRExpr,
    slot: VariableId,
    replacement: IRExpr,
)
    requires
        agree(a, b, slot),
        (a.variables)(slot) == value(m, b, replacement),
    ensures
        value(m, b, substituted(expr, slot, replacement)) == value(m, a, expr),
    decreases expr,
{
    match expr {
        IRExpr::BinOp { lhs, rhs, .. } => {
            law_substitution_keeps_the_value(m, a, b, *lhs, slot, replacement);
            law_substitution_keeps_the_value(m, a, b, *rhs, slot, replacement);
        },
        IRExpr::Deref(inner) | IRExpr::Not(inner) => {
            law_substitution_keeps_the_value(m, a, b, *inner, slot, replacement);
        },
        IRExpr::CastUnknownPtr { address, .. } => {
            law_substitution_keeps_the_value(m, a, b, *address, slot, replacement);
        },
        IRExpr::Convert { value: inner, .. } => {
            law_substitution_keeps_the_value(m, a, b, *inner, slot, replacement);
        },
        _ => {},
    }
}

proof fn lemma_unread_value(m: Meaning, a: State, b: State, expr: IRExpr, slot: VariableId)
    requires
        agree(a, b, slot),
        !mentions(expr, slot),
    ensures
        value(m, a, expr) == value(m, b, expr),
{
    assert forall|v: VariableId| #[trigger] mentions(expr, v) implies (a.variables)(v) == (
    b.variables)(v) by {
        assert(v != slot);
    }
    law_a_value_depends_on_what_it_reads(m, a, b, expr);
}

// ---------------------------------------------------------------------------
// What a run leaves alone

/// Whether a run left a variable, or with none the memory, as it was.
pub open spec fn keeps(before: State, outcome: Outcome, access: Access) -> bool {
    match state_after(outcome) {
        Some(after) => match access {
            Access::Write(variable) => (after.variables)(variable) == (before.variables)(variable),
            Access::WriteMemory => after.memory == before.memory,
            Access::Read(_) => true,
        },
        None => true,
    }
}

/// A run changes no variable, and no memory, that its instruction does not write.
pub proof fn law_a_run_keeps_what_is_not_written(
    m: Meaning,
    instr: InstModel,
    state: State,
    fuel: nat,
    access: Access,
)
    requires
        !makes(instr, access),
    ensures
        keeps(state, run(m, instr, state, fuel), access),
    decreases fuel, instr,
{
    lemma_leaf_makes(instr, access);
    match instr {
        InstModel::If { condition, then_branch, else_branch } => {
            lemma_branch_makes(instr, access);
            lemma_list_keeps(m, then_branch, state, fuel, access);
            lemma_list_keeps(m, else_branch, state, fuel, access);
        },
        InstModel::Loop { label, body, .. } => {
            lemma_loop_keeps(m, label, body, state, fuel, access);
        },
        _ => {},
    }
}

proof fn lemma_list_keeps(
    m: Meaning,
    list: Seq<InstModel>,
    state: State,
    fuel: nat,
    access: Access,
)
    requires
        !list_makes(list, access),
    ensures
        keeps(state, run_list(m, list, state, fuel), access),
    decreases fuel, list,
{
    if list.len() > 0 {
        lemma_list_makes(list, access);
        lemma_list_keeps(m, list.drop_last(), state, fuel, access);
        if let Outcome::Next(after) = run_list(m, list.drop_last(), state, fuel) {
            law_a_run_keeps_what_is_not_written(m, list[list.len() - 1], after, fuel, access);
        }
    }
}

proof fn lemma_body_keeps(
    m: Meaning,
    list: Seq<(usize, InstModel)>,
    state: State,
    fuel: nat,
    access: Access,
)
    requires
        !body_makes(list, access),
    ensures
        keeps(state, run_body(m, list, state, fuel), access),
    decreases fuel, list,
{
    if list.len() > 0 {
        lemma_body_makes(list, access);
        lemma_body_keeps(m, list.drop_last(), state, fuel, access);
        if let Outcome::Next(after) = run_body(m, list.drop_last(), state, fuel) {
            law_a_run_keeps_what_is_not_written(m, list[list.len() - 1].1, after, fuel, access);
        }
    }
}

proof fn lemma_loop_keeps(
    m: Meaning,
    label: Option<LoopId>,
    body: Seq<(usize, InstModel)>,
    state: State,
    fuel: nat,
    access: Access,
)
    requires
        !body_makes(body, access),
    ensures
        keeps(state, run_loop(m, label, body, state, fuel), access),
    decreases fuel, body,
{
    if fuel > 0 {
        lemma_body_keeps(m, body, state, (fuel - 1) as nat, access);
        let outcome = run_body(m, body, state, (fuel - 1) as nat);
        if let Some(after) = goes_on(outcome, label) {
            lemma_loop_keeps(m, label, body, after, (fuel - 1) as nat, access);
        }
    }
}

// ---------------------------------------------------------------------------
// Runs that do not read a variable

/// A run does not depend on a variable that its instruction does not read.
pub proof fn law_a_run_depends_on_what_is_read(
    m: Meaning,
    instr: InstModel,
    a: State,
    b: State,
    fuel: nat,
    slot: VariableId,
)
    requires
        agree(a, b, slot),
        !makes(instr, Access::Read(slot)),
    ensures
        alike(run(m, instr, a, fuel), run(m, instr, b, fuel), slot),
    decreases fuel, instr,
{
    let read = Access::Read(slot);
    lemma_leaf_makes(instr, read);
    match instr {
        InstModel::Assign { dest, src } => {
            lemma_mentions(src, slot);
            lemma_unread_value(m, a, b, src, slot);
            match dest {
                IRExpr::Variable(_) => {},
                _ => {
                    lemma_mentions(dest, slot);
                    lemma_unread_value(m, a, b, dest, slot);
                    if let IRExpr::Deref(address) = dest {
                        lemma_unread_value(m, a, b, *address, slot);
                    }
                },
            }
        },
        InstModel::Return(Some(value)) => {
            lemma_mentions(value, slot);
            lemma_unread_value(m, a, b, value, slot);
        },
        InstModel::AssignVariable { value, .. } => {
            lemma_mentions(value, slot);
            lemma_unread_value(m, a, b, value, slot);
        },
        InstModel::LoadVariable { address, .. } => {
            lemma_mentions(address, slot);
            lemma_unread_value(m, a, b, address, slot);
        },
        InstModel::StoreVariable { address, variable } => {
            lemma_mentions(address, slot);
            lemma_unread_value(m, a, b, address, slot);
            assert(variable != slot);
        },
        InstModel::If { condition, then_branch, else_branch } => {
            lemma_branch_makes(instr, read);
            lemma_mentions(condition, slot);
            lemma_unread_value(m, a, b, condition, slot);
            lemma_list_depends(m, then_branch, a, b, fuel, slot);
            lemma_list_depends(m, else_branch, a, b, fuel, slot);
        },
        InstModel::Loop { label, body, .. } => {
            lemma_loop_depends(m, label, body, a, b, fuel, slot);
        },
        InstModel::CallSynthetic { arguments, .. } => {
            assert forall|i: int| 0 <= i < arguments.len() implies value(
                m,
                a,
                #[trigger] arguments[i],
            ) == value(m, b, arguments[i]) by {
                lemma_mentions(arguments[i], slot);
                if mentions(arguments[i], slot) {
                    lemma_arguments_read(arguments, i, read);
                }
                lemma_unread_value(m, a, b, arguments[i], slot);
            }
            assert(values(m, a, arguments) =~= values(m, b, arguments));
        },
        InstModel::Jump(target) => {
            lemma_mentions(target, slot);
            lemma_unread_value(m, a, b, target, slot);
        },
        _ => {},
    }
}

proof fn lemma_list_depends(
    m: Meaning,
    list: Seq<InstModel>,
    a: State,
    b: State,
    fuel: nat,
    slot: VariableId,
)
    requires
        agree(a, b, slot),
        !list_makes(list, Access::Read(slot)),
    ensures
        alike(run_list(m, list, a, fuel), run_list(m, list, b, fuel), slot),
    decreases fuel, list,
{
    if list.len() > 0 {
        lemma_list_makes(list, Access::Read(slot));
        lemma_list_depends(m, list.drop_last(), a, b, fuel, slot);
        if let Outcome::Next(s) = run_list(m, list.drop_last(), a, fuel) {
            if let Outcome::Next(t) = run_list(m, list.drop_last(), b, fuel) {
                law_a_run_depends_on_what_is_read(m, list[list.len() - 1], s, t, fuel, slot);
            }
        }
    }
}

proof fn lemma_body_depends(
    m: Meaning,
    list: Seq<(usize, InstModel)>,
    a: State,
    b: State,
    fuel: nat,
    slot: VariableId,
)
    requires
        agree(a, b, slot),
        !body_makes(list, Access::Read(slot)),
    ensures
        alike(run_body(m, list, a, fuel), run_body(m, list, b, fuel), slot),
    decreases fuel, list,
{
    if list.len() > 0 {
        lemma_body_makes(list, Access::Read(slot));
        lemma_body_depends(m, list.drop_last(), a, b, fuel, slot);
        if let Outcome::Next(s) = run_body(m, list.drop_last(), a, fuel) {
            if let Outcome::Next(t) = run_body(m, list.drop_last(), b, fuel) {
                law_a_run_depends_on_what_is_read(m, list[list.len() - 1].1, s, t, fuel, slot);
            }
        }
    }
}

proof fn lemma_loop_depends(
    m: Meaning,
    label: Option<LoopId>,
    body: Seq<(usize, InstModel)>,
    a: State,
    b: State,
    fuel: nat,
    slot: VariableId,
)
    requires
        agree(a, b, slot),
        !body_makes(body, Access::Read(slot)),
    ensures
        alike(run_loop(m, label, body, a, fuel), run_loop(m, label, body, b, fuel), slot),
    decreases fuel, body,
{
    if fuel > 0 {
        lemma_body_depends(m, body, a, b, (fuel - 1) as nat, slot);
        let first = run_body(m, body, a, (fuel - 1) as nat);
        let second = run_body(m, body, b, (fuel - 1) as nat);
        if let Some(s) = goes_on(first, label) {
            if let Some(t) = goes_on(second, label) {
                lemma_loop_depends(m, label, body, s, t, (fuel - 1) as nat, slot);
            }
        }
    }
}

// ---------------------------------------------------------------------------
// Substitution in instructions

proof fn lemma_unmentioned(expr: IRExpr, slot: VariableId, replacement: IRExpr)
    requires
        !mentions(expr, slot),
    ensures
        substituted(expr, slot, replacement) == expr,
    decreases expr,
{
    match expr {
        IRExpr::BinOp { lhs, rhs, .. } => {
            lemma_unmentioned(*lhs, slot, replacement);
            lemma_unmentioned(*rhs, slot, replacement);
        },
        IRExpr::Deref(inner) | IRExpr::Not(inner) => lemma_unmentioned(*inner, slot, replacement),
        IRExpr::CastUnknownPtr { address, .. } => lemma_unmentioned(*address, slot, replacement),
        IRExpr::Convert { value, .. } => lemma_unmentioned(*value, slot, replacement),
        _ => {},
    }
}

/// Whether a run of an instruction cannot change a value.
pub open spec fn leaves_value(
    accesses: spec_fn(Access) -> bool,
    slot: VariableId,
    value: IRExpr,
) -> bool {
    &&& !accesses(Access::Write(slot))
    &&& forall|v: VariableId| #[trigger] mentions(value, v) ==> !accesses(Access::Write(v))
    &&& loads(value) ==> !accesses(Access::WriteMemory)
}

/// After a run that cannot change a value, the value is as it was.
proof fn lemma_value_kept(
    m: Meaning,
    a: State,
    b: State,
    first: Outcome,
    second: Outcome,
    slot: VariableId,
    replacement: IRExpr,
)
    requires
        alike(first, second, slot),
        (a.variables)(slot) == value(m, b, replacement),
        agree(a, b, slot),
        !mentions(replacement, slot),
        keeps(a, first, Access::Write(slot)),
        forall|v: VariableId| #[trigger]
            mentions(replacement, v) ==> keeps(a, first, Access::Write(v)),
        loads(replacement) ==> keeps(a, first, Access::WriteMemory),
    ensures
        state_after(first) is Some ==> state_after(second) is Some && (state_after(
            first,
        )->0.variables)(slot) == value(m, state_after(second)->0, replacement),
{
    if let Some(s) = state_after(first) {
        let t = state_after(second)->0;
        assert(agree(s, t, slot));
        assert forall|v: VariableId| #[trigger] mentions(replacement, v) implies (b.variables)(v)
            == (t.variables)(v) by {
            assert(v != slot);
            assert(keeps(a, first, Access::Write(v)));
            assert((s.variables)(v) == (t.variables)(v));
            assert((a.variables)(v) == (b.variables)(v));
        }
        law_a_value_depends_on_what_it_reads(m, b, t, replacement);
    }
}

/// A run that cannot change a value comes to the same where the value stands in
/// place of the variable that holds it.
proof fn lemma_substituted(
    m: Meaning,
    instr: InstModel,
    a: State,
    b: State,
    fuel: nat,
    slot: VariableId,
    replacement: IRExpr,
)
    requires
        agree(a, b, slot),
        (a.variables)(slot) == value(m, b, replacement),
        !mentions(replacement, slot),
        instr is If || instr is Loop ==> leaves_value(
            |x: Access| makes(instr, x),
            slot,
            replacement,
        ),
    ensures
        alike(
            run(m, instr, a, fuel),
            run(m, substituted_in(instr, slot, replacement), b, fuel),
            slot,
        ),
    decreases fuel, instr,
{
    match instr {
        InstModel::Assign { dest, src } => {
            law_substitution_keeps_the_value(m, a, b, src, slot, replacement);
            match dest {
                IRExpr::Variable(_) => {},
                _ => {
                    law_substitution_keeps_the_value(m, a, b, dest, slot, replacement);
                    if let IRExpr::Deref(address) = dest {
                        law_substitution_keeps_the_value(m, a, b, *address, slot, replacement);
                    }
                },
            }
        },
        InstModel::Return(Some(value)) => {
            law_substitution_keeps_the_value(m, a, b, value, slot, replacement);
        },
        InstModel::AssignVariable { value, .. } => {
            law_substitution_keeps_the_value(m, a, b, value, slot, replacement);
        },
        InstModel::LoadVariable { address, .. } => {
            law_substitution_keeps_the_value(m, a, b, address, slot, replacement);
        },
        InstModel::StoreVariable { address, .. } => {
            law_substitution_keeps_the_value(m, a, b, address, slot, replacement);
        },
        InstModel::If { condition, then_branch, else_branch } => {
            law_substitution_keeps_the_value(m, a, b, condition, slot, replacement);
            assert forall|x: Access| list_makes(then_branch, x) || list_makes(
                else_branch,
                x,
            ) implies #[trigger] makes(instr, x) by {
                lemma_branch_makes(instr, x);
            }
            assert(leaves_value(|x: Access| list_makes(then_branch, x), slot, replacement));
            assert(leaves_value(|x: Access| list_makes(else_branch, x), slot, replacement));
            lemma_substituted_list(m, then_branch, a, b, fuel, slot, replacement);
            lemma_substituted_list(m, else_branch, a, b, fuel, slot, replacement);
        },
        InstModel::Loop { label, body, .. } => {
            assert(leaves_value(|x: Access| body_makes(body, x), slot, replacement));
            lemma_substituted_loop(m, label, body, a, b, fuel, slot, replacement);
        },
        InstModel::CallSynthetic { arguments, .. } => {
            assert forall|i: int| 0 <= i < arguments.len() implies value(
                m,
                a,
                #[trigger] arguments[i],
            ) == value(m, b, substituted(arguments[i], slot, replacement)) by {
                law_substitution_keeps_the_value(m, a, b, arguments[i], slot, replacement);
            }
            assert(values(m, a, arguments) =~= values(
                m,
                b,
                substituted_all(arguments, slot, replacement),
            ));
        },
        InstModel::Jump(target) => {
            law_substitution_keeps_the_value(m, a, b, target, slot, replacement);
        },
        _ => {},
    }
}

proof fn lemma_substituted_list(
    m: Meaning,
    list: Seq<InstModel>,
    a: State,
    b: State,
    fuel: nat,
    slot: VariableId,
    replacement: IRExpr,
)
    requires
        agree(a, b, slot),
        (a.variables)(slot) == value(m, b, replacement),
        !mentions(replacement, slot),
        leaves_value(|x: Access| list_makes(list, x), slot, replacement),
    ensures
        alike(
            run_list(m, list, a, fuel),
            run_list(m, substituted_in_list(list, slot, replacement), b, fuel),
            slot,
        ),
    decreases fuel, list,
{
    let made = substituted_in_list(list, slot, replacement);
    if list.len() > 0 {
        let front = list.drop_last();
        let last = list[list.len() - 1];
        let all = |x: Access| list_makes(list, x);
        assert(made.drop_last() =~= substituted_in_list(front, slot, replacement));
        assert forall|x: Access| #[trigger] makes(last, x) implies all(x) by {
            lemma_list_makes(list, x);
        }
        assert(leaves_value(|x: Access| list_makes(front, x), slot, replacement)) by {
            assert forall|v: VariableId| #[trigger] mentions(replacement, v) implies !list_makes(
                front,
                Access::Write(v),
            ) by {
                assert(!all(Access::Write(v)));
                lemma_list_makes(list, Access::Write(v));
            }
            assert(!all(Access::Write(slot)));
            lemma_list_makes(list, Access::Write(slot));
            lemma_list_makes(list, Access::WriteMemory);
        }
        assert(leaves_value(|x: Access| makes(last, x), slot, replacement)) by {
            assert forall|v: VariableId| #[trigger] mentions(replacement, v) implies !makes(
                last,
                Access::Write(v),
            ) by {
                assert(!all(Access::Write(v)));
                lemma_list_makes(list, Access::Write(v));
            }
            assert(!all(Access::Write(slot)));
            lemma_list_makes(list, Access::Write(slot));
            lemma_list_makes(list, Access::WriteMemory);
        }
        lemma_substituted_list(m, front, a, b, fuel, slot, replacement);
        let first = run_list(m, front, a, fuel);
        let second = run_list(m, substituted_in_list(front, slot, replacement), b, fuel);
        let inside = |x: Access| list_makes(front, x);
        assert(!inside(Access::Write(slot)));
        lemma_list_keeps(m, front, a, fuel, Access::Write(slot));
        assert forall|v: VariableId| #[trigger] mentions(replacement, v) implies keeps(
            a,
            first,
            Access::Write(v),
        ) by {
            assert(!inside(Access::Write(v)));
            lemma_list_keeps(m, front, a, fuel, Access::Write(v));
        }
        if loads(replacement) {
            assert(!inside(Access::WriteMemory));
            lemma_list_keeps(m, front, a, fuel, Access::WriteMemory);
        }
        lemma_value_kept(m, a, b, first, second, slot, replacement);
        if let Outcome::Next(s) = first {
            if let Outcome::Next(t) = second {
                lemma_substituted(m, last, s, t, fuel, slot, replacement);
            }
        }
    }
}

proof fn lemma_substituted_body(
    m: Meaning,
    list: Seq<(usize, InstModel)>,
    a: State,
    b: State,
    fuel: nat,
    slot: VariableId,
    replacement: IRExpr,
)
    requires
        agree(a, b, slot),
        (a.variables)(slot) == value(m, b, replacement),
        !mentions(replacement, slot),
        leaves_value(|x: Access| body_makes(list, x), slot, replacement),
    ensures
        alike(
            run_body(m, list, a, fuel),
            run_body(m, substituted_in_body(list, slot, replacement), b, fuel),
            slot,
        ),
    decreases fuel, list,
{
    let made = substituted_in_body(list, slot, replacement);
    if list.len() > 0 {
        let front = list.drop_last();
        let last = list[list.len() - 1].1;
        let all = |x: Access| body_makes(list, x);
        assert(made.drop_last() =~= substituted_in_body(front, slot, replacement));
        assert(leaves_value(|x: Access| body_makes(front, x), slot, replacement)) by {
            assert forall|v: VariableId| #[trigger] mentions(replacement, v) implies !body_makes(
                front,
                Access::Write(v),
            ) by {
                assert(!all(Access::Write(v)));
                lemma_body_makes(list, Access::Write(v));
            }
            assert(!all(Access::Write(slot)));
            lemma_body_makes(list, Access::Write(slot));
            lemma_body_makes(list, Access::WriteMemory);
        }
        assert(leaves_value(|x: Access| makes(last, x), slot, replacement)) by {
            assert forall|v: VariableId| #[trigger] mentions(replacement, v) implies !makes(
                last,
                Access::Write(v),
            ) by {
                assert(!all(Access::Write(v)));
                lemma_body_makes(list, Access::Write(v));
            }
            assert(!all(Access::Write(slot)));
            lemma_body_makes(list, Access::Write(slot));
            lemma_body_makes(list, Access::WriteMemory);
        }
        lemma_substituted_body(m, front, a, b, fuel, slot, replacement);
        let first = run_body(m, front, a, fuel);
        let second = run_body(m, substituted_in_body(front, slot, replacement), b, fuel);
        lemma_body_value_kept(m, front, a, b, fuel, slot, replacement);
        if let Outcome::Next(s) = first {
            if let Outcome::Next(t) = second {
                lemma_substituted(m, last, s, t, fuel, slot, replacement);
            }
        }
    }
}

proof fn lemma_body_value_kept(
    m: Meaning,
    list: Seq<(usize, InstModel)>,
    a: State,
    b: State,
    fuel: nat,
    slot: VariableId,
    replacement: IRExpr,
)
    requires
        agree(a, b, slot),
        (a.variables)(slot) == value(m, b, replacement),
        !mentions(replacement, slot),
        leaves_value(|x: Access| body_makes(list, x), slot, replacement),
        alike(
            run_body(m, list, a, fuel),
            run_body(m, substituted_in_body(list, slot, replacement), b, fuel),
            slot,
        ),
    ensures
        ({
            let first = state_after(run_body(m, list, a, fuel));
            let second = state_after(
                run_body(m, substituted_in_body(list, slot, replacement), b, fuel),
            );
            first is Some ==> second is Some && agree(first->0, second->0, slot) && (
            first->0.variables)(slot) == value(m, second->0, replacement)
        }),
{
    let first = run_body(m, list, a, fuel);
    let second = run_body(m, substituted_in_body(list, slot, replacement), b, fuel);
    let inside = |x: Access| body_makes(list, x);
    assert(!inside(Access::Write(slot)));
    lemma_body_keeps(m, list, a, fuel, Access::Write(slot));
    assert forall|v: VariableId| #[trigger] mentions(replacement, v) implies keeps(
        a,
        first,
        Access::Write(v),
    ) by {
        assert(!inside(Access::Write(v)));
        lemma_body_keeps(m, list, a, fuel, Access::Write(v));
    }
    if loads(replacement) {
        assert(!inside(Access::WriteMemory));
        lemma_body_keeps(m, list, a, fuel, Access::WriteMemory);
    }
    lemma_value_kept(m, a, b, first, second, slot, replacement);
}

proof fn lemma_substituted_loop(
    m: Meaning,
    label: Option<LoopId>,
    body: Seq<(usize, InstModel)>,
    a: State,
    b: State,
    fuel: nat,
    slot: VariableId,
    replacement: IRExpr,
)
    requires
        agree(a, b, slot),
        (a.variables)(slot) == value(m, b, replacement),
        !mentions(replacement, slot),
        leaves_value(|x: Access| body_makes(body, x), slot, replacement),
    ensures
        alike(
            run_loop(m, label, body, a, fuel),
            run_loop(m, label, substituted_in_body(body, slot, replacement), b, fuel),
            slot,
        ),
    decreases fuel, body,
{
    if fuel > 0 {
        lemma_substituted_body(m, body, a, b, (fuel - 1) as nat, slot, replacement);
        lemma_body_value_kept(m, body, a, b, (fuel - 1) as nat, slot, replacement);
        let made = substituted_in_body(body, slot, replacement);
        let first = run_body(m, body, a, (fuel - 1) as nat);
        let second = run_body(m, made, b, (fuel - 1) as nat);
        if let Some(s) = goes_on(first, label) {
            if let Some(t) = goes_on(second, label) {
                lemma_substituted_loop(
                    m,
                    label,
                    body,
                    s,
                    t,
                    (fuel - 1) as nat,
                    slot,
                    replacement,
                );
            }
        }
    }
}

// ---------------------------------------------------------------------------
// Counting

proof fn lemma_times(accesses: Seq<Access>, access: Access)
    ensures
        times(accesses, access) > 0 <==> accesses.contains(access),
    decreases accesses.len(),
{
    if accesses.len() > 0 {
        let front = accesses.drop_last();
        lemma_times(front, access);
        lemma_pushed(front, accesses.last());
        assert(front.push(accesses.last()) =~= accesses);
    }
}

proof fn lemma_times_sum(a: Seq<Access>, b: Seq<Access>, access: Access)
    ensures
        times(a + b, access) == times(a, access) + times(b, access),
    decreases b.len(),
{
    if b.len() > 0 {
        lemma_times_sum(a, b.drop_last(), access);
        assert((a + b).drop_last() =~= a + b.drop_last());
    } else {
        assert(a + b =~= a);
    }
}

proof fn lemma_times_in(body: Seq<(usize, InstModel)>, access: Access, k: int, count: int)
    requires
        0 <= k < count <= body.len(),
    ensures
        times_in(body, access, count) >= times(accesses_of(body[k].1), access),
    decreases count,
{
    if k < count - 1 {
        lemma_times_in(body, access, k, count - 1);
    }
}

proof fn lemma_times_in_two(
    body: Seq<(usize, InstModel)>,
    access: Access,
    j: int,
    k: int,
    count: int,
)
    requires
        0 <= j < k < count <= body.len(),
    ensures
        times_in(body, access, count) >= times(accesses_of(body[j].1), access) + times(
            accesses_of(body[k].1),
            access,
        ),
    decreases count,
{
    if k < count - 1 {
        lemma_times_in_two(body, access, j, k, count - 1);
    } else {
        lemma_times_in(body, access, j, count - 1);
    }
}

/// Where an access occurs once in a body, no other instruction has it.
proof fn lemma_only_one(body: Seq<(usize, InstModel)>, access: Access, at: int, other: int)
    requires
        0 <= at < body.len(),
        0 <= other < body.len(),
        other != at,
        times_in(body, access, body.len() as int) == 1,
        makes(body[at].1, access),
    ensures
        !makes(body[other].1, access),
        times(accesses_of(body[at].1), access) == 1,
{
    lemma_times(accesses_of(body[at].1), access);
    lemma_times(accesses_of(body[other].1), access);
    lemma_times_in(body, access, at, body.len() as int);
    if other < at {
        lemma_times_in_two(body, access, other, at, body.len() as int);
    } else {
        lemma_times_in_two(body, access, at, other, body.len() as int);
    }
}

proof fn lemma_first_with(body: Seq<(usize, InstModel)>, access: Access, from: int)
    requires
        0 <= from <= body.len(),
        first_with(body, access, from) < body.len(),
    ensures
        from <= first_with(body, access, from),
        makes(body[first_with(body, access, from)].1, access),
    decreases body.len() - from,
{
    if from < body.len() {
        lemma_times(accesses_of(body[from].1), access);
        if times(accesses_of(body[from].1), access) == 0 {
            lemma_first_with(body, access, from + 1);
        }
    }
}

proof fn lemma_undisturbed(accesses: Seq<Access>, value: IRExpr, access: Access)
    requires
        !any_disturbs(accesses, value),
        accesses.contains(access),
    ensures
        !disturbs(access, value),
    decreases accesses.len(),
{
    let front = accesses.drop_last();
    lemma_pushed(front, accesses.last());
    assert(front.push(accesses.last()) =~= accesses);
    if access != accesses.last() {
        lemma_undisturbed(front, value, access);
    }
}

proof fn lemma_undisturbed_between(
    body: Seq<(usize, InstModel)>,
    value: IRExpr,
    from: int,
    to: int,
    k: int,
)
    requires
        !disturbed_between(body, value, from, to),
        from <= k < to,
    ensures
        !any_disturbs(accesses_of(body[k].1), value),
    decreases to - from,
{
    if from < k {
        lemma_undisturbed_between(body, value, from + 1, to, k);
    }
}

/// An instruction that writes neither the variable nor anything that the value is
/// made of leaves the value.
proof fn lemma_leaves_value(instr: InstModel, slot: VariableId, value: IRExpr)
    requires
        !makes(instr, Access::Write(slot)),
        !any_disturbs(accesses_of(instr), value),
    ensures
        leaves_value(|x: Access| makes(instr, x), slot, value),
{
    let all = |x: Access| makes(instr, x);
    assert forall|v: VariableId| #[trigger] mentions(value, v) implies !all(Access::Write(v)) by {
        if makes(instr, Access::Write(v)) {
            lemma_undisturbed(accesses_of(instr), value, Access::Write(v));
        }
    }
    if loads(value) && makes(instr, Access::WriteMemory) {
        lemma_undisturbed(accesses_of(instr), value, Access::WriteMemory);
    }
}

// ---------------------------------------------------------------------------
// Instructions that do not read the variable

proof fn lemma_unread(instr: InstModel, slot: VariableId, replacement: IRExpr)
    requires
        !makes(instr, Access::Read(slot)),
    ensures
        substituted_in(instr, slot, replacement) == instr,
    decreases instr,
{
    let read = Access::Read(slot);
    lemma_leaf_makes(instr, read);
    match instr {
        InstModel::Assign { dest, src } => {
            lemma_mentions(src, slot);
            lemma_unmentioned(src, slot, replacement);
            match dest {
                IRExpr::Variable(_) => {},
                _ => {
                    lemma_mentions(dest, slot);
                    lemma_unmentioned(dest, slot, replacement);
                },
            }
        },
        InstModel::Return(Some(value)) => {
            lemma_mentions(value, slot);
            lemma_unmentioned(value, slot, replacement);
        },
        InstModel::AssignVariable { value, .. } => {
            lemma_mentions(value, slot);
            lemma_unmentioned(value, slot, replacement);
        },
        InstModel::LoadVariable { address, .. } => {
            lemma_mentions(address, slot);
            lemma_unmentioned(address, slot, replacement);
        },
        InstModel::StoreVariable { address, .. } => {
            lemma_mentions(address, slot);
            lemma_unmentioned(address, slot, replacement);
        },
        InstModel::If { condition, then_branch, else_branch } => {
            lemma_branch_makes(instr, read);
            lemma_mentions(condition, slot);
            lemma_unmentioned(condition, slot, replacement);
            lemma_unread_list(then_branch, slot, replacement);
            lemma_unread_list(else_branch, slot, replacement);
        },
        InstModel::Loop { body, .. } => {
            lemma_unread_body(body, slot, replacement);
        },
        InstModel::CallSynthetic { arguments, .. } => {
            assert forall|i: int| 0 <= i < arguments.len() implies substituted(
                #[trigger] arguments[i],
                slot,
                replacement,
            ) == arguments[i] by {
                lemma_mentions(arguments[i], slot);
                if mentions(arguments[i], slot) {
                    lemma_arguments_read(arguments, i, read);
                }
                lemma_unmentioned(arguments[i], slot, replacement);
            }
            assert(substituted_all(arguments, slot, replacement) =~= arguments);
        },
        InstModel::Jump(target) => {
            lemma_mentions(target, slot);
            lemma_unmentioned(target, slot, replacement);
        },
        _ => {},
    }
}

proof fn lemma_unread_list(list: Seq<InstModel>, slot: VariableId, replacement: IRExpr)
    requires
        !list_makes(list, Access::Read(slot)),
    ensures
        substituted_in_list(list, slot, replacement) == list,
    decreases list,
{
    if list.len() > 0 {
        lemma_list_makes(list, Access::Read(slot));
        lemma_unread_list(list.drop_last(), slot, replacement);
        lemma_unread(list[list.len() - 1], slot, replacement);
        let made = substituted_in_list(list, slot, replacement);
        assert(made.drop_last() =~= substituted_in_list(list.drop_last(), slot, replacement));
        assert(made.last() == list.last());
        assert(made =~= made.drop_last().push(made.last()));
        assert(list =~= list.drop_last().push(list.last()));
    }
    assert(substituted_in_list(list, slot, replacement) =~= list);
}

proof fn lemma_unread_body(list: Seq<(usize, InstModel)>, slot: VariableId, replacement: IRExpr)
    requires
        !body_makes(list, Access::Read(slot)),
    ensures
        substituted_in_body(list, slot, replacement) == list,
    decreases list,
{
    if list.len() > 0 {
        lemma_body_makes(list, Access::Read(slot));
        lemma_unread_body(list.drop_last(), slot, replacement);
        lemma_unread(list[list.len() - 1].1, slot, replacement);
        let made = substituted_in_body(list, slot, replacement);
        assert(made.drop_last() =~= substituted_in_body(list.drop_last(), slot, replacement));
        assert(made.last() == list.last());
        assert(made =~= made.drop_last().push(made.last()));
        assert(list =~= list.drop_last().push(list.last()));
    }
    assert(substituted_in_body(list, slot, replacement) =~= list);
}

/// A branch that reads the variable once, in its condition, comes to the same with
/// the value in the condition.
proof fn lemma_substituted_condition(
    m: Meaning,
    instr: InstModel,
    a: State,
    b: State,
    fuel: nat,
    slot: VariableId,
    replacement: IRExpr,
)
    requires
        agree(a, b, slot),
        (a.variables)(slot) == value(m, b, replacement),
        used_in_condition(instr, slot),
        times(accesses_of(instr), Access::Read(slot)) == 1,
    ensures
        alike(
            run(m, instr, a, fuel),
            run(m, substituted_in(instr, slot, replacement), b, fuel),
            slot,
        ),
{
    let read = Access::Read(slot);
    let none = Seq::<Access>::empty();
    if let InstModel::If { condition, then_branch, else_branch } = instr {
        let first = read_by(condition, none);
        let then_accesses = accessed_by_list(then_branch, none);
        let else_accesses = accessed_by_list(else_branch, none);
        lemma_accessed_by_list(then_branch, first);
        lemma_accessed_by_list(else_branch, first + then_accesses);
        lemma_times_sum(first, then_accesses, read);
        lemma_times_sum(first + then_accesses, else_accesses, read);
        lemma_mentions(condition, slot);
        lemma_times(first, read);
        lemma_times(then_accesses, read);
        lemma_times(else_accesses, read);
        lemma_unread_list(then_branch, slot, replacement);
        lemma_unread_list(else_branch, slot, replacement);
        law_substitution_keeps_the_value(m, a, b, condition, slot, replacement);
        lemma_list_depends(m, then_branch, a, b, fuel, slot);
        lemma_list_depends(m, else_branch, a, b, fuel, slot);
    }
}

// ---------------------------------------------------------------------------
// Inlining one definition

proof fn lemma_undeclared(
    m: Meaning,
    body: Seq<(usize, InstModel)>,
    slot: VariableId,
    state: State,
    fuel: nat,
)
    ensures
        run_body(m, undeclared(body, slot), state, fuel) == run_body(m, body, state, fuel),
    decreases body.len(),
{
    if body.len() > 0 {
        let front = undeclared(body.drop_last(), slot);
        lemma_undeclared(m, body.drop_last(), slot, state, fuel);
        lemma_run_body_push(m, front, body.last(), state, fuel);
    }
}

/// The body with the value in place of the variable, and without the definition.
pub open spec fn replaced(
    body: Seq<(usize, InstModel)>,
    slot: VariableId,
    definition: int,
    at: int,
    value: IRExpr,
) -> Seq<(usize, InstModel)> {
    body.update(at, (body[at].0, substituted_in(body[at].1, slot, value))).remove(definition)
}

/// The instructions of the replaced body that stand for the first `count`.
pub open spec fn replaced_count(count: int, definition: int) -> int {
    if count <= definition {
        count
    } else {
        count - 1
    }
}

proof fn lemma_alike_reflexive(a: Outcome, slot: VariableId)
    ensures
        alike(a, a, slot),
{
}

/// What is known of a definition that can be inlined.
proof fn lemma_candidate(function: FunctionModel, definition: int)
    requires
        0 <= definition < function.body.len(),
        candidate_at(function, definition) is Some,
    ensures
        ({
            let body = function.body;
            let (slot, at, value) = candidate_at(function, definition)->0;
            &&& definition < at < body.len()
            &&& definition_of(body[definition].1) == Some((slot, value))
            &&& times(accesses_of(body[at].1), Access::Read(slot)) == 1
            &&& forall|k: int|
                0 <= k < body.len() && k != at ==> !makes(
                    (#[trigger] body[k]).1,
                    Access::Read(slot),
                )
            &&& forall|k: int|
                0 <= k < body.len() && k != definition ==> !makes(
                    (#[trigger] body[k]).1,
                    Access::Write(slot),
                )
            &&& forall|k: int|
                definition < k < at ==> !any_disturbs(
                    accesses_of((#[trigger] body[k]).1),
                    value,
                )
            &&& !mentions(value, slot)
            &&& {
                ||| !(body[at].1 is If || body[at].1 is Loop)
                ||| used_in_condition(body[at].1, slot)
                ||| !any_disturbs(accesses_of(body[at].1), value)
            }
        }),
{
    let body = function.body;
    let (slot, at, value) = candidate_at(function, definition)->0;
    let read = Access::Read(slot);
    let write = Access::Write(slot);
    if at >= body.len() {
        lemma_absent(body, read, 0);
        lemma_counts_absent(body, read, body.len() as int);
    }
    lemma_first_with(body, read, 0);
    lemma_leaf_makes(body[definition].1, write);
    assert(makes(body[definition].1, write));
    assert forall|k: int| 0 <= k < body.len() && k != at implies !makes(
        (#[trigger] body[k]).1,
        read,
    ) by {
        lemma_only_one(body, read, at, k);
    }
    lemma_only_one(body, read, at, definition);
    assert forall|k: int| 0 <= k < body.len() && k != definition implies !makes(
        (#[trigger] body[k]).1,
        write,
    ) by {
        lemma_only_one(body, write, definition, k);
    }
    let nested = (body[at].1 is If && !used_in_condition(body[at].1, slot)) || body[at].1 is Loop;
    let end = if nested {
        at + 1
    } else {
        at
    };
    assert forall|k: int| definition < k < at implies !any_disturbs(
        accesses_of((#[trigger] body[k]).1),
        value,
    ) by {
        lemma_undisturbed_between(body, value, definition + 1, end, k);
    }
    if nested {
        lemma_undisturbed_between(body, value, definition + 1, end, at);
    }
    lemma_leaf_makes(body[definition].1, read);
    assert(!mentions(value, slot)) by {
        match body[definition].1 {
            InstModel::AssignVariable { value, .. } => lemma_mentions(value, slot),
            InstModel::LoadVariable { address, .. } => lemma_mentions(address, slot),
            _ => {},
        }
    }
}

proof fn lemma_replaced(
    m: Meaning,
    function: FunctionModel,
    definition: int,
    count: int,
    state: State,
    fuel: nat,
)
    requires
        0 <= definition < function.body.len(),
        candidate_at(function, definition) is Some,
        0 <= count <= function.body.len(),
    ensures
        ({
            let body = function.body;
            let (slot, at, inlined_value) = candidate_at(function, definition)->0;
            let made = replaced(body, slot, definition, at, inlined_value);
            let first = run_body(m, body.subrange(0, count), state, fuel);
            let second = run_body(
                m,
                made.subrange(0, replaced_count(count, definition)),
                state,
                fuel,
            );
            &&& count <= definition ==> first == second
            &&& alike(first, second, slot)
            &&& definition < count <= at && first is Next ==> (first->Next_0.variables)(slot)
                == value(m, second->Next_0, inlined_value)
        }),
    decreases count,
{
    let body = function.body;
    let (slot, at, inlined_value) = candidate_at(function, definition)->0;
    let made = replaced(body, slot, definition, at, inlined_value);
    lemma_candidate(function, definition);
    if count == 0 {
        assert(body.subrange(0, 0) =~= made.subrange(0, 0));
        lemma_alike_reflexive(run_body(m, body.subrange(0, 0), state, fuel), slot);
    } else {
        lemma_replaced(m, function, definition, count - 1, state, fuel);
        let k = count - 1;
        let instr = body[k].1;
        let first = run_body(m, body.subrange(0, k), state, fuel);
        let second = run_body(m, made.subrange(0, replaced_count(k, definition)), state, fuel);
        assert(body.subrange(0, count) =~= body.subrange(0, k).push(body[k]));
        lemma_run_body_push(m, body.subrange(0, k), body[k], state, fuel);
        if k < definition {
            assert(made.subrange(0, count) =~= made.subrange(0, k).push(body[k]));
            lemma_run_body_push(m, made.subrange(0, k), body[k], state, fuel);
            lemma_alike_reflexive(run_body(m, body.subrange(0, count), state, fuel), slot);
        } else if k == definition {
            assert(replaced_count(count, definition) == k);
            lemma_alike_reflexive(first, slot);
            if let Outcome::Next(before) = first {
                let after = with_variable(before, slot, value(m, before, inlined_value));
                assert(run(m, instr, before, fuel) == Outcome::Next(after));
            }
        } else {
            let here = made[k - 1];
            assert(made.subrange(0, count - 1) =~= made.subrange(0, k - 1).push(here));
            lemma_run_body_push(m, made.subrange(0, k - 1), here, state, fuel);
            assert(!makes(body[k].1, Access::Write(slot)));
            if let Outcome::Next(s) = first {
                let t = second->Next_0;
                if k < at {
                    assert(here == body[k]);
                    law_a_run_depends_on_what_is_read(m, instr, s, t, fuel, slot);
                    lemma_leaves_value(instr, slot, inlined_value);
                    let made_here = |x: Access| makes(instr, x);
                    let o = run(m, instr, s, fuel);
                    assert(!made_here(Access::Write(slot)));
                    law_a_run_keeps_what_is_not_written(m, instr, s, fuel, Access::Write(slot));
                    assert forall|v: VariableId| #[trigger]
                        mentions(inlined_value, v) implies keeps(s, o, Access::Write(v)) by {
                        assert(!made_here(Access::Write(v)));
                        law_a_run_keeps_what_is_not_written(m, instr, s, fuel, Access::Write(v));
                    }
                    if loads(inlined_value) {
                        assert(!made_here(Access::WriteMemory));
                        law_a_run_keeps_what_is_not_written(
                            m,
                            instr,
                            s,
                            fuel,
                            Access::WriteMemory,
                        );
                    }
                    lemma_value_kept(
                        m,
                        s,
                        t,
                        o,
                        run(m, instr, t, fuel),
                        slot,
                        inlined_value,
                    );
                } else if k == at {
                    assert(here.1 == substituted_in(instr, slot, inlined_value));
                    if used_in_condition(instr, slot) {
                        lemma_substituted_condition(m, instr, s, t, fuel, slot, inlined_value);
                    } else {
                        if instr is If || instr is Loop {
                            lemma_leaves_value(instr, slot, inlined_value);
                        }
                        lemma_substituted(m, instr, s, t, fuel, slot, inlined_value);
                    }
                } else {
                    assert(here == body[k]);
                    law_a_run_depends_on_what_is_read(m, instr, s, t, fuel, slot);
                }
            }
        }
    }
}

/// Inlining one definition keeps what the function does: from every state it ends
/// in the same way, with the same value, and leaves the same memory.
pub proof fn law_inlining_a_definition_keeps_the_outcome(
    m: Meaning,
    function: FunctionModel,
    definition: int,
    state: State,
    fuel: nat,
)
    requires
        0 <= definition < function.body.len(),
        candidate_at(function, definition) is Some,
    ensures
        ({
            let (slot, at, value) = candidate_at(function, definition)->0;
            seen(
                run_body(m, inlined_at(function.body, slot, definition, at, value), state, fuel),
            ) == seen(run_body(m, function.body, state, fuel))
        }),
{
    let body = function.body;
    let (slot, at, value) = candidate_at(function, definition)->0;
    let made = replaced(body, slot, definition, at, value);
    lemma_candidate(function, definition);
    lemma_replaced(m, function, definition, body.len() as int, state, fuel);
    lemma_undeclared(m, made, slot, state, fuel);
    assert(body.subrange(0, body.len() as int) =~= body);
    assert(made.subrange(0, body.len() - 1) =~= made);
}

proof fn lemma_candidate_from(function: FunctionModel, from: int)
    requires
        0 <= from,
        candidate_from(function, from) is Some,
    ensures
        ({
            let (slot, definition, at, value) = candidate_from(function, from)->0;
            &&& from <= definition < function.body.len()
            &&& candidate_at(function, definition) == Some((slot, at, value))
        }),
    decreases function.body.len() - from,
{
    if from < function.body.len() && candidate_at(function, from) is None {
        lemma_candidate_from(function, from + 1);
    }
}

/// Inlining keeps what a function does: a value that is moved to its use is there
/// what it was at its definition, whatever runs in between.
pub proof fn law_inlining_keeps_the_outcome(
    m: Meaning,
    function: FunctionModel,
    state: State,
    fuel: nat,
)
    ensures
        seen(run_body(m, inlined(function).body, state, fuel)) == seen(
            run_body(m, function.body, state, fuel),
        ),
    decreases function.body.len(),
{
    if let Some((slot, definition, at, value)) = candidate_from(function, 0) {
        lemma_candidate_from(function, 0);
        let body = inlined_at(function.body, slot, definition, at, value);
        law_inlining_a_definition_keeps_the_outcome(m, function, definition, state, fuel);
        if body.len() < function.body.len() {
            law_inlining_keeps_the_outcome(m, FunctionModel { body, ..function }, state, fuel);
        }
    }
}

} // verus!
