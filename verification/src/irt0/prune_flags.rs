//! Conservatively remove flags that are never read in the lifted program.
//! Overwritten writes are removed after tier 1 has established control flow.
use super::ir::{
    lemma_flag_sets_equal, FlagSet, IRExpr, IRInst, NativeFlag, Program, ProgramModel,
};
use vstd::prelude::*;

verus! {

/// The flags that an expression reads.
pub open spec fn flags_read(expr: IRExpr) -> FlagSet
    decreases expr,
{
    match expr {
        IRExpr::Flag(flag) => FlagSet::none().adding(flag),
        IRExpr::BinOp { lhs, rhs, .. } => flags_read(*lhs).either(flags_read(*rhs)),
        IRExpr::Deref { address, .. } => flags_read(*address),
        IRExpr::ExtractBytes { value, .. } => flags_read(*value),
        IRExpr::ZeroExtend { value, .. } => flags_read(*value),
        IRExpr::SignExtend { value, .. } => flags_read(*value),
        _ => FlagSet::none(),
    }
}

/// The flags that an instruction reads. A flag that is assigned is not read.
pub open spec fn instruction_flags_read(instr: IRInst) -> FlagSet
    decreases instr,
{
    match instr {
        IRInst::Asgn { dest, src } => if dest is Flag {
            flags_read(src)
        } else {
            flags_read(dest).either(flags_read(src))
        },
        IRInst::If(condition, inner) => flags_read(condition).either(
            instruction_flags_read(*inner),
        ),
        IRInst::Jmp(expr) => flags_read(expr),
        IRInst::Ret(Some(expr)) => flags_read(expr),
        IRInst::SetFlagsFrom(_, expr) => flags_read(expr),
        _ => FlagSet::none(),
    }
}

/// The flags that any of the instructions reads.
pub open spec fn all_flags_read(instructions: Seq<(usize, IRInst)>) -> FlagSet
    decreases instructions.len(),
{
    if instructions.len() == 0 {
        FlagSet::none()
    } else {
        all_flags_read(instructions.drop_last()).either(
            instruction_flags_read(instructions.last().1),
        )
    }
}

/// An instruction without the flags that are not used, if anything is left of it.
pub open spec fn without_unused(instr: IRInst, used: FlagSet) -> Option<IRInst> {
    match instr {
        IRInst::SetFlagsFrom(flags, expr) => if flags.both(used) == FlagSet::none() {
            None
        } else {
            Some(IRInst::SetFlagsFrom(flags.both(used), expr))
        },
        IRInst::ClearFlags(flags) => if flags.both(used) == FlagSet::none() {
            None
        } else {
            Some(IRInst::ClearFlags(flags.both(used)))
        },
        IRInst::InvalidateFlags(flags) => if flags.both(used) == FlagSet::none() {
            None
        } else {
            Some(IRInst::InvalidateFlags(flags.both(used)))
        },
        IRInst::Asgn { dest: IRExpr::Flag(flag), src } => if used.has(flag) {
            Some(instr)
        } else {
            None
        },
        _ => Some(instr),
    }
}

pub open spec fn kept(instructions: Seq<(usize, IRInst)>, used: FlagSet) -> Seq<(usize, IRInst)>
    decreases instructions.len(),
{
    if instructions.len() == 0 {
        Seq::empty()
    } else {
        let before = kept(instructions.drop_last(), used);
        match without_unused(instructions.last().1, used) {
            Some(instr) => before.push((instructions.last().0, instr)),
            None => before,
        }
    }
}

/// The program without the flags that nothing reads.
pub open spec fn pruned(program: ProgramModel) -> ProgramModel {
    ProgramModel {
        entry_address: program.entry_address,
        instructions: kept(program.instructions, all_flags_read(program.instructions)),
    }
}

fn read_expr(expr: &IRExpr, used: &mut FlagSet)
    ensures
        *final(used) == old(used).either(flags_read(*expr)),
    decreases expr,
{
    match expr {
        IRExpr::Flag(flag) => {
            *used = used.with(*flag);
        },
        IRExpr::BinOp { lhs, rhs, .. } => {
            read_expr(lhs, used);
            read_expr(rhs, used);
        },
        IRExpr::Deref { address, .. } => {
            read_expr(address, used);
        },
        IRExpr::ExtractBytes { value, .. } => {
            read_expr(value, used);
        },
        IRExpr::ZeroExtend { value, .. } => {
            read_expr(value, used);
        },
        IRExpr::SignExtend { value, .. } => {
            read_expr(value, used);
        },
        _ => {},
    }
    proof {
        lemma_flag_sets_equal(*used, old(used).either(flags_read(*expr)));
    }
}

fn read_inst(instr: &IRInst, used: &mut FlagSet)
    ensures
        *final(used) == old(used).either(instruction_flags_read(*instr)),
    decreases instr,
{
    match instr {
        IRInst::Asgn { dest, src } => {
            if !matches!(dest, IRExpr::Flag(_)) {
                read_expr(dest, used);
            }
            read_expr(src, used);
        },
        IRInst::If(condition, inner) => {
            read_expr(condition, used);
            read_inst(inner, used);
        },
        IRInst::Jmp(expr) => {
            read_expr(expr, used);
        },
        IRInst::Ret(Some(expr)) => {
            read_expr(expr, used);
        },
        IRInst::SetFlagsFrom(_, expr) => {
            read_expr(expr, used);
        },
        _ => {},
    }
    proof {
        lemma_flag_sets_equal(*used, old(used).either(instruction_flags_read(*instr)));
    }
}

fn prune_instruction(instr: &IRInst, used: &FlagSet) -> (res: Option<IRInst>)
    ensures
        res == without_unused(*instr, *used),
{
    match instr {
        IRInst::SetFlagsFrom(flags, expr) => {
            let left = flags.intersection(used);
            if left.is_empty() {
                None
            } else {
                Some(IRInst::SetFlagsFrom(left, expr.clone()))
            }
        },
        IRInst::ClearFlags(flags) => {
            let left = flags.intersection(used);
            if left.is_empty() {
                None
            } else {
                Some(IRInst::ClearFlags(left))
            }
        },
        IRInst::InvalidateFlags(flags) => {
            let left = flags.intersection(used);
            if left.is_empty() {
                None
            } else {
                Some(IRInst::InvalidateFlags(left))
            }
        },
        IRInst::Asgn { dest: IRExpr::Flag(flag), .. } => if used.contains(*flag) {
            Some(instr.clone())
        } else {
            None
        },
        _ => Some(instr.clone()),
    }
}

pub fn tr(program: Program) -> (res: Program)
    ensures
        res.model() == pruned(program.model()),
{
    let ghost all = program.instructions@;
    let mut used = FlagSet::new();
    let mut i: usize = 0;
    assert(all.subrange(0, 0) =~= Seq::<(usize, IRInst)>::empty());
    while i < program.instructions.len()
        invariant
            i <= program.instructions@.len(),
            all == program.instructions@,
            used == all_flags_read(all.subrange(0, i as int)),
        decreases program.instructions@.len() - i,
    {
        let ghost prefix = all.subrange(0, i + 1);
        assert(prefix.drop_last() =~= all.subrange(0, i as int));
        read_inst(&program.instructions[i].1, &mut used);
        i = i + 1;
    }
    assert(all.subrange(0, i as int) =~= all);
    let mut instructions: Vec<(usize, IRInst)> = Vec::new();
    let mut j: usize = 0;
    while j < program.instructions.len()
        invariant
            j <= program.instructions@.len(),
            all == program.instructions@,
            used == all_flags_read(all),
            instructions@ == kept(all.subrange(0, j as int), used),
        decreases program.instructions@.len() - j,
    {
        let ghost prefix = all.subrange(0, j + 1);
        assert(prefix.drop_last() =~= all.subrange(0, j as int));
        assert(prefix.last() == program.instructions@[j as int]);
        if let Some(instr) = prune_instruction(&program.instructions[j].1, &used) {
            instructions.push((program.instructions[j].0, instr));
        }
        j = j + 1;
    }
    assert(all.subrange(0, j as int) =~= all);
    Program { entry_address: program.entry_address, instructions }
}

// ---------------------------------------------------------------------------
// Laws

/// The flags that an instruction writes.
pub open spec fn flags_written(instr: IRInst) -> FlagSet {
    match instr {
        IRInst::SetFlagsFrom(flags, _) => flags,
        IRInst::ClearFlags(flags) => flags,
        IRInst::InvalidateFlags(flags) => flags,
        IRInst::Asgn { dest: IRExpr::Flag(flag), .. } => FlagSet::none().adding(flag),
        _ => FlagSet::none(),
    }
}

/// Whether the instruction does anything but write flags.
pub open spec fn only_writes_flags(instr: IRInst) -> bool {
    match instr {
        IRInst::SetFlagsFrom(_, _) => true,
        IRInst::ClearFlags(_) => true,
        IRInst::InvalidateFlags(_) => true,
        IRInst::Asgn { dest, .. } => dest is Flag,
        _ => false,
    }
}

/// The instructions that do more than write flags, in order.
pub open spec fn other_instructions(instructions: Seq<(usize, IRInst)>) -> Seq<(usize, IRInst)> {
    instructions.filter(|item: (usize, IRInst)| !only_writes_flags(item.1))
}

proof fn lemma_kept_writes(instructions: Seq<(usize, IRInst)>, used: FlagSet, i: int, f: NativeFlag)
    requires
        0 <= i < kept(instructions, used).len(),
        flags_written(kept(instructions, used)[i].1).has(f),
    ensures
        used.has(f),
    decreases instructions.len(),
{
    let before = kept(instructions.drop_last(), used);
    if i < before.len() {
        assert(kept(instructions, used)[i] == before[i]);
        lemma_kept_writes(instructions.drop_last(), used, i, f);
    }
}

/// Every flag that a pruned program writes is read somewhere in the program that
/// was pruned.
pub proof fn law_pruned_flags_are_read(program: ProgramModel, i: int, flag: NativeFlag)
    requires
        0 <= i < pruned(program).instructions.len(),
        flags_written(pruned(program).instructions[i].1).has(flag),
    ensures
        all_flags_read(program.instructions).has(flag),
{
    lemma_kept_writes(program.instructions, all_flags_read(program.instructions), i, flag);
}

proof fn lemma_kept_others(instructions: Seq<(usize, IRInst)>, used: FlagSet)
    ensures
        other_instructions(kept(instructions, used)) == other_instructions(instructions),
    decreases instructions.len(),
{
    let rule = |item: (usize, IRInst)| !only_writes_flags(item.1);
    if instructions.len() > 0 {
        lemma_kept_others(instructions.drop_last(), used);
        let before = kept(instructions.drop_last(), used);
        let last = instructions.last();
        assert(instructions =~= instructions.drop_last().push(last));
        reveal(Seq::filter);
        assert(instructions.filter(rule) == if rule(last) {
            instructions.drop_last().filter(rule).push(last)
        } else {
            instructions.drop_last().filter(rule)
        });
        match without_unused(last.1, used) {
            Some(instr) => {
                let after = before.push((last.0, instr));
                assert(after.drop_last() =~= before);
                assert(after.filter(rule) == if rule(after.last()) {
                    before.filter(rule).push(after.last())
                } else {
                    before.filter(rule)
                });
            },
            None => {},
        }
    } else {
        assert(kept(instructions, used) =~= instructions);
    }
}

/// Pruning keeps every other instruction, unchanged and in order.
pub proof fn law_pruning_keeps_other_instructions(program: ProgramModel)
    ensures
        other_instructions(pruned(program).instructions) == other_instructions(
            program.instructions,
        ),
{
    lemma_kept_others(program.instructions, all_flags_read(program.instructions));
}

proof fn lemma_used_write_is_kept(
    instructions: Seq<(usize, IRInst)>,
    used: FlagSet,
    i: int,
    f: NativeFlag,
) -> (j: int)
    requires
        0 <= i < instructions.len(),
        flags_written(instructions[i].1).has(f),
        used.has(f),
    ensures
        0 <= j < kept(instructions, used).len(),
        kept(instructions, used)[j].0 == instructions[i].0,
        flags_written(kept(instructions, used)[j].1).has(f),
    decreases instructions.len(),
{
    let before = kept(instructions.drop_last(), used);
    if i < instructions.len() - 1 {
        let j = lemma_used_write_is_kept(instructions.drop_last(), used, i, f);
        assert(kept(instructions, used)[j] == before[j]);
        j
    } else {
        let flags = flags_written(instructions.last().1);
        assert(flags.both(used).has(f));
        assert(!FlagSet::none().has(f));
        before.len() as int
    }
}

/// A write of a flag that is read somewhere stays, at its address.
pub proof fn law_used_writes_stay(program: ProgramModel, i: int, flag: NativeFlag)
    requires
        0 <= i < program.instructions.len(),
        flags_written(program.instructions[i].1).has(flag),
        all_flags_read(program.instructions).has(flag),
    ensures
        exists|j: int|
            0 <= j < pruned(program).instructions.len() && (
            #[trigger] pruned(program).instructions[j]).0 == program.instructions[i].0
                && flags_written(pruned(program).instructions[j].1).has(flag),
{
    let j = lemma_used_write_is_kept(
        program.instructions,
        all_flags_read(program.instructions),
        i,
        flag,
    );
    assert(pruned(program).instructions[j].0 == program.instructions[i].0);
}

} // verus!
