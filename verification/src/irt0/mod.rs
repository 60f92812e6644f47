//! Tier 0: machine code as explicit operations on registers, flags and memory.
pub mod ir;
pub mod lifter;
pub mod machine;
pub mod prune_flags;

use ir::{Program, ProgramModel};
use lifter::{program_of_code, try_lift_to_irt0};
use prune_flags::pruned;
use vstd::prelude::*;

verus! {

/// The tier 0 program of machine code at an address, without unread flags.
pub open spec fn lifted_at(code: Seq<u8>, base_offset: usize) -> Option<ProgramModel> {
    match program_of_code(code, base_offset) {
        Some(program) => Some(pruned(program)),
        None => None,
    }
}

/// Lifts machine code at an address. Every instruction has to be supported, and
/// the stack balanced at the end.
pub fn lift_to_irt0(code: &[u8], base_offset: usize) -> (res: Program)
    requires
        program_of_code(code@, base_offset) is Some,
    ensures
        res.model() == program_of_code(code@, base_offset)->0,
{
    match try_lift_to_irt0(code, base_offset) {
        Some(program) => program,
        None => vstd::pervasive::unreached(),
    }
}

/// Lifts machine code at an address and removes the flags that nothing reads.
pub fn lift_at(code: &[u8], base_offset: usize) -> (res: Program)
    requires
        program_of_code(code@, base_offset) is Some,
    ensures
        Some(res.model()) == lifted_at(code@, base_offset),
{
    prune_flags::tr(lift_to_irt0(code, base_offset))
}

/// Lifts machine code at address zero and removes the flags that nothing reads.
pub fn lift(code: &[u8]) -> (res: Program)
    requires
        program_of_code(code@, 0) is Some,
    ensures
        Some(res.model()) == lifted_at(code@, 0),
{
    lift_at(code, 0)
}

/// Whether machine code at an address can be lifted.
pub fn is_liftable(code: &[u8], base_offset: usize) -> (res: bool)
    ensures
        res == (program_of_code(code@, base_offset) is Some),
{
    try_lift_to_irt0(code, base_offset).is_some()
}

/// Lifts machine code at address zero, if it can be lifted.
pub fn try_lift(code: &[u8]) -> (res: Option<Program>)
    ensures
        match (res, lifted_at(code@, 0)) {
            (Some(program), Some(model)) => program.model() == model,
            (None, None) => true,
            _ => false,
        },
{
    if is_liftable(code, 0) {
        Some(lift(code))
    } else {
        None
    }
}

/// Lifts machine code at an address, if it can be lifted.
pub fn try_lift_at(code: &[u8], base_offset: usize) -> (res: Option<Program>)
    ensures
        match (res, lifted_at(code@, base_offset)) {
            (Some(program), Some(model)) => program.model() == model,
            (None, None) => true,
            _ => false,
        },
{
    if is_liftable(code, base_offset) {
        Some(lift_at(code, base_offset))
    } else {
        None
    }
}

} // verus!
