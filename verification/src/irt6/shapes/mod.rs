//! Shape recognizers consume Tier 6 IR and normalized arithmetic values.
pub mod assignment;
pub mod boolean;
pub mod cstring;
pub mod loops;
pub mod modulo;
pub mod vector;
pub mod visit;

use super::ir::{IRExpr, Program};
use loops::{Collector, LoopAnalysis};
use vstd::prelude::*;

verus! {

/// The number that a literal stands for.
pub open spec fn literal_number(expr: IRExpr) -> Option<u64> {
    match expr {
        IRExpr::CU8(value) => Some(value as u64),
        IRExpr::CU32(value) => Some(value as u64),
        IRExpr::CU64(value) => Some(value),
        _ => None,
    }
}

pub fn unsigned_constant(expr: &IRExpr) -> (res: Option<u64>)
    ensures
        res == literal_number(*expr),
{
    match expr {
        IRExpr::CU8(value) => Some(*value as u64),
        IRExpr::CU32(value) => Some(*value as u64),
        IRExpr::CU64(value) => Some(*value),
        _ => None,
    }
}

/// Add new read-only shape collectors to this list so they share one walk.
pub fn collect_loop_analyses(program: &Program) -> (res: Vec<LoopAnalysis>)
    ensures
        loops::analysis_models(res@) == visit::seen_in_program::<Collector>(
            Seq::empty(),
            program.model(),
        ),
{
    let mut loops = Collector { analyses: Vec::new() };
    assert(loops::analysis_models(loops.analyses@) =~= Seq::empty());
    visit::walk(program, &mut loops);
    loops.analyses
}

} // verus!
