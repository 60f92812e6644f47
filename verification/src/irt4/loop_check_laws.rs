//! A loop check that takes the place of a slot decides as the slot did.
use super::inline_loop_conditions::{assigned_to, candidate_of, checked, SurroundingsModel};
use super::ir::{IRExpr, InstModel, VariableId, VariableType};
use super::outcome::{bit, holds, read, run, value, Meaning, Outcome, State};
use super::walks::mentions;
use vstd::prelude::*;

verus! {

/// Two states that differ at most in one slot.
pub open spec fn differ_in(a: State, b: State, slot: VariableId) -> bool {
    &&& a.memory == b.memory
    &&& forall|v: VariableId| v != slot ==> #[trigger] (a.variables)(v) == (b.variables)(v)
}

/// A value does not depend on a slot that it does not mention.
pub proof fn law_a_value_depends_on_what_it_mentions(
    m: Meaning,
    a: State,
    b: State,
    expr: IRExpr,
    slot: VariableId,
)
    requires
        differ_in(a, b, slot),
        !mentions(expr, slot),
    ensures
        value(m, a, expr) == value(m, b, expr),
    decreases expr,
{
    match expr {
        IRExpr::BinOp { lhs, rhs, .. } => {
            law_a_value_depends_on_what_it_mentions(m, a, b, *lhs, slot);
            law_a_value_depends_on_what_it_mentions(m, a, b, *rhs, slot);
        },
        IRExpr::Deref(inner) | IRExpr::Not(inner) => {
            law_a_value_depends_on_what_it_mentions(m, a, b, *inner, slot);
        },
        IRExpr::CastUnknownPtr { address, .. } => {
            law_a_value_depends_on_what_it_mentions(m, a, b, *address, slot);
        },
        IRExpr::Convert { value: inner, .. } => {
            law_a_value_depends_on_what_it_mentions(m, a, b, *inner, slot);
        },
        _ => {},
    }
}

/// The check of a loop with a value in place of its slot is true exactly where the
/// check of the slot is true after the assignment that ends each pass, and so it is
/// before that assignment. The loop differs in nothing but its check and, where the
/// slot is read nowhere else, the assignment.
pub proof fn law_an_inlined_check_decides_as_the_slot_did(
    m: Meaning,
    previous: Option<InstModel>,
    instr: InstModel,
    around: SurroundingsModel,
    state: State,
    fuel: nat,
)
    requires
        candidate_of(previous, instr, around) is Some,
        m.types.dom().contains((candidate_of(previous, instr, around)->0).variable),
        m.types[(candidate_of(previous, instr, around)->0).variable] == VariableType::Bool,
    ensures
        ({
            let found = candidate_of(previous, instr, around)->0;
            let made = checked(instr, found);
            let body = instr->While_body;
            let last = body[body.len() - 1].1;
            let kept = made->While_body;
            &&& instr is While && made is While && body.len() > 0
            &&& made->While_label == instr->While_label
            &&& made->While_condition is Before == instr->While_condition is Before
            &&& kept == body || kept == body.drop_last()
            &&& run(m, last, state, fuel) matches Outcome::Next(after) && {
                let decided = holds(m, after, instr->While_condition.check());
                &&& holds(m, state, made->While_condition.check()) == decided
                &&& holds(m, after, made->While_condition.check()) == decided
            }
        }),
{
    let found = candidate_of(previous, instr, around)->0;
    let slot = found.variable;
    let body = instr->While_body;
    let last = body[body.len() - 1].1;
    assert(assigned_to(last, slot) == Some(found.value));
    let after = run(m, last, state, fuel)->Next_0;
    assert(run(m, last, state, fuel) == Outcome::Next(after));
    assert(differ_in(state, after, slot));
    law_a_value_depends_on_what_it_mentions(m, state, after, found.value, slot);
    assert(read(m, after, slot) == bit(value(m, state, found.value) != 0));
    reveal_with_fuel(value, 2);
}

} // verus!
