//! Where the straight-line partitions of a tier 0 program begin, and which flags
//! they read before they set them.
use crate::irt0::ir::{FlagSet, IRExpr, IRInst, NativeFlag, Program};
use crate::irt1::builder::{jump_target, target_address};
use crate::table::KeySet;
use vstd::prelude::*;

verus! {

/// A partition lasts from its entry and defines which flags are local.
#[derive(Debug)]
pub struct Partition {
    pub entry_point: usize,
    pub external_flags: FlagSet,
}

/// The target expression of a jump, also under conditions.
pub open spec fn jumped_to(instr: IRInst) -> Option<IRExpr>
    decreases instr,
{
    match instr {
        IRInst::If(_, inner) => jumped_to(*inner),
        IRInst::Jmp(target) => Some(target),
        _ => None,
    }
}

fn jump_of(instr: &IRInst) -> (res: Option<&IRExpr>)
    ensures
        match res {
            Some(target) => jumped_to(*instr) == Some(*target),
            None => jumped_to(*instr) is None,
        },
    decreases instr,
{
    match instr {
        IRInst::If(_, inner) => jump_of(inner),
        IRInst::Jmp(target) => Some(target),
        _ => None,
    }
}

/// The entry points after the first `count` instructions: the base offset and every
/// jump destination. There are none where a destination is not known.
pub open spec fn entries_in(
    instructions: Seq<(usize, IRInst)>,
    base_offset: usize,
    count: int,
) -> Option<Set<usize>>
    decreases count,
{
    if count <= 0 {
        Some(Set::empty().insert(base_offset))
    } else {
        match (
            entries_in(instructions, base_offset, count - 1),
            jumped_to(instructions[count - 1].1),
        ) {
            (Some(entries), Some(target)) => match target_address(
                target,
                instructions[count - 1].0,
            ) {
                Some(address) => Some(entries.insert(address)),
                None => None,
            },
            (entries, None) => entries,
            (None, Some(_)) => None,
        }
    }
}

/// The entry points of the partitions of a program.
pub fn partition_entries(program: &Program) -> (res: Option<KeySet<usize>>)
    ensures
        match res {
            Some(entries) => entries_in(
                program.instructions@,
                program.entry_address,
                program.instructions@.len() as int,
            ) == Some(entries@),
            None => entries_in(
                program.instructions@,
                program.entry_address,
                program.instructions@.len() as int,
            ) is None,
        },
{
    let mut entries: KeySet<usize> = KeySet::new();
    entries.insert(program.entry_address);
    let mut i: usize = 0;
    while i < program.instructions.len()
        invariant
            i <= program.instructions@.len(),
            entries_in(program.instructions@, program.entry_address, i as int) == Some(entries@),
        decreases program.instructions@.len() - i,
    {
        if let Some(target) = jump_of(&program.instructions[i].1) {
            match jump_target(target, program.instructions[i].0) {
                Some(address) => {
                    entries.insert(address);
                },
                None => {
                    proof {
                        lemma_no_entries(
                            program.instructions@,
                            program.entry_address,
                            i + 1,
                            program.instructions@.len() as int,
                        );
                    }
                    return None;
                },
            }
        }
        i = i + 1;
    }
    Some(entries)
}

proof fn lemma_no_entries(
    instructions: Seq<(usize, IRInst)>,
    base_offset: usize,
    count: int,
    more: int,
)
    requires
        0 <= count <= more,
        entries_in(instructions, base_offset, count) is None,
    ensures
        entries_in(instructions, base_offset, more) is None,
    decreases more - count,
{
    if count < more {
        lemma_no_entries(instructions, base_offset, count, more - 1);
    }
}

/// The external flags with those that an expression reads while they are not live.
pub open spec fn read_flags(expr: IRExpr, live: FlagSet, external: FlagSet) -> FlagSet
    decreases expr,
{
    match expr {
        IRExpr::BinOp { lhs, rhs, .. } => read_flags(*rhs, live, read_flags(*lhs, live, external)),
        IRExpr::Flag(flag) => if live.has(flag) {
            external
        } else {
            external.adding(flag)
        },
        _ => external,
    }
}

fn analyze_expression(expr: &IRExpr, live: FlagSet, external: FlagSet) -> (res: FlagSet)
    ensures
        res == read_flags(*expr, live, external),
    decreases expr,
{
    match expr {
        IRExpr::BinOp { lhs, rhs, .. } => analyze_expression(
            rhs,
            live,
            analyze_expression(lhs, live, external),
        ),
        IRExpr::Flag(flag) => if live.contains(*flag) {
            external
        } else {
            external.with(*flag)
        },
        _ => external,
    }
}

/// The live flags and the external ones after an instruction.
pub open spec fn flags_after(flags: (FlagSet, FlagSet), instr: IRInst) -> (FlagSet, FlagSet) {
    match instr {
        IRInst::SetFlagsFrom(set, _) => (flags.0.either(set), flags.1),
        IRInst::ClearFlags(set) => (flags.0.without(set), flags.1),
        IRInst::If(condition, _) => (flags.0, read_flags(condition, flags.0, flags.1)),
        _ => flags,
    }
}

/// The live and external flags after the first `count` instructions, without those
/// before the entry.
pub open spec fn flags_from(
    instructions: Seq<(usize, IRInst)>,
    entry: usize,
    count: int,
) -> (FlagSet, FlagSet)
    decreases count,
{
    if count <= 0 {
        (FlagSet::none(), FlagSet::none())
    } else {
        let before = flags_from(instructions, entry, count - 1);
        if instructions[count - 1].0 < entry {
            before
        } else {
            flags_after(before, instructions[count - 1].1)
        }
    }
}

/// The partition that begins at an entry.
pub fn analyze_partition(entry: usize, program: &Program) -> (res: Partition)
    ensures
        res.entry_point == entry,
        res.external_flags == flags_from(
            program.instructions@,
            entry,
            program.instructions@.len() as int,
        ).1,
{
    let mut live: FlagSet = FlagSet::new();
    let mut external: FlagSet = FlagSet::new();
    let mut i: usize = 0;
    while i < program.instructions.len()
        invariant
            i <= program.instructions@.len(),
            (live, external) == flags_from(program.instructions@, entry, i as int),
        decreases program.instructions@.len() - i,
    {
        if program.instructions[i].0 >= entry {
            match &program.instructions[i].1 {
                IRInst::SetFlagsFrom(set, _) => {
                    live = live.union_with(set);
                },
                IRInst::ClearFlags(set) => {
                    live = live.difference(set);
                },
                IRInst::If(condition, _) => {
                    external = analyze_expression(condition, live, external);
                },
                _ => {},
            }
        }
        i = i + 1;
    }
    Partition { entry_point: entry, external_flags: external }
}

/// A flag is external only if no instruction from the entry on sets it before it
/// is read: a partition that starts by setting all flags and clears none has no
/// external ones.
pub proof fn law_set_flags_are_local(instructions: Seq<(usize, IRInst)>, entry: usize, count: int)
    requires
        1 <= count <= instructions.len(),
        instructions[0].0 >= entry,
        instructions[0].1 matches IRInst::SetFlagsFrom(set, _) && forall|flag: NativeFlag|
            set.has(flag),
        forall|i: int|
            0 <= i < instructions.len() ==> !((#[trigger] instructions[i]).1 is ClearFlags),
    ensures
        flags_from(instructions, entry, count).1 == FlagSet::none(),
        forall|flag: NativeFlag| flags_from(instructions, entry, count).0.has(flag),
    decreases count,
{
    if count == 1 {
        let first = flags_from(instructions, entry, 0);
        assert(first == (FlagSet::none(), FlagSet::none()));
    } else {
        law_set_flags_are_local(instructions, entry, count - 1);
        let before = flags_from(instructions, entry, count - 1);
        let item = instructions[count - 1];
        if let IRInst::If(condition, _) = item.1 {
            lemma_live_flags_are_local(condition, before.0, before.1);
        }
        assert(!(item.1 is ClearFlags));
    }
}

proof fn lemma_live_flags_are_local(expr: IRExpr, live: FlagSet, external: FlagSet)
    requires
        forall|flag: NativeFlag| live.has(flag),
    ensures
        read_flags(expr, live, external) == external,
    decreases expr,
{
    if let IRExpr::BinOp { lhs, rhs, .. } = expr {
        lemma_live_flags_are_local(*lhs, live, external);
        lemma_live_flags_are_local(*rhs, live, external);
    }
}

} // verus!
