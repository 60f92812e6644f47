//! Callee-saved register spills.
use crate::irt0::ir::{IRExpr, IRInst};
use crate::x86::{full_number, Register, R12, R15, RBP, RBX, RDI, RSI};
use vstd::prelude::*;

verus! {

/// The offsets of the stack accesses in an expression, from left to right.
pub open spec fn stack_offsets(expr: IRExpr) -> Seq<i64>
    decreases expr,
{
    match expr {
        IRExpr::Stack { offset, .. } => seq![offset],
        IRExpr::BinOp { lhs, rhs, .. } => stack_offsets(*lhs) + stack_offsets(*rhs),
        IRExpr::Deref { address, .. } => stack_offsets(*address),
        IRExpr::ExtractBytes { value, .. } => stack_offsets(*value),
        IRExpr::ZeroExtend { value, .. } => stack_offsets(*value),
        IRExpr::SignExtend { value, .. } => stack_offsets(*value),
        _ => Seq::empty(),
    }
}

/// The offsets of the stack accesses in an instruction.
pub open spec fn instruction_stack_offsets(instr: IRInst) -> Seq<i64>
    decreases instr,
{
    match instr {
        IRInst::Asgn { dest, src } => stack_offsets(dest) + stack_offsets(src),
        IRInst::If(condition, inner) => stack_offsets(condition) + instruction_stack_offsets(
            *inner,
        ),
        IRInst::Jmp(value) => stack_offsets(value),
        IRInst::Ret(Some(value)) => stack_offsets(value),
        IRInst::SetFlagsFrom(_, value) => stack_offsets(value),
        _ => Seq::empty(),
    }
}

fn stack_references(expr: &IRExpr, offsets: &mut Vec<i64>)
    ensures
        final(offsets)@ == old(offsets)@ + stack_offsets(*expr),
    decreases expr,
{
    match expr {
        IRExpr::Stack { offset, .. } => {
            offsets.push(*offset);
        },
        IRExpr::BinOp { lhs, rhs, .. } => {
            stack_references(lhs, offsets);
            stack_references(rhs, offsets);
        },
        IRExpr::Deref { address: value, .. } => {
            stack_references(value, offsets);
        },
        IRExpr::ExtractBytes { value, .. } => {
            stack_references(value, offsets);
        },
        IRExpr::ZeroExtend { value, .. } => {
            stack_references(value, offsets);
        },
        IRExpr::SignExtend { value, .. } => {
            stack_references(value, offsets);
        },
        _ => {},
    }
    assert(offsets@ =~= old(offsets)@ + stack_offsets(*expr));
}

fn instruction_stack_references(instr: &IRInst, offsets: &mut Vec<i64>)
    ensures
        final(offsets)@ == old(offsets)@ + instruction_stack_offsets(*instr),
    decreases instr,
{
    match instr {
        IRInst::Asgn { dest, src } => {
            stack_references(dest, offsets);
            stack_references(src, offsets);
        },
        IRInst::If(condition, inner) => {
            stack_references(condition, offsets);
            instruction_stack_references(inner, offsets);
        },
        IRInst::Jmp(value) => {
            stack_references(value, offsets);
        },
        IRInst::Ret(Some(value)) => {
            stack_references(value, offsets);
        },
        IRInst::SetFlagsFrom(_, value) => {
            stack_references(value, offsets);
        },
        _ => {},
    }
    assert(offsets@ =~= old(offsets)@ + instruction_stack_offsets(*instr));
}

/// Whether an expression reads any part of the full register.
pub open spec fn reads_register(expr: IRExpr, register: u8) -> bool
    decreases expr,
{
    match expr {
        IRExpr::Reg(found) => full_number(found.number) == register,
        IRExpr::BinOp { lhs, rhs, .. } => reads_register(*lhs, register) || reads_register(
            *rhs,
            register,
        ),
        IRExpr::Deref { address, .. } => reads_register(*address, register),
        IRExpr::ExtractBytes { value, .. } => reads_register(*value, register),
        IRExpr::ZeroExtend { value, .. } => reads_register(*value, register),
        IRExpr::SignExtend { value, .. } => reads_register(*value, register),
        _ => false,
    }
}

/// Whether an instruction reads any part of the full register. A register that
/// is assigned is not read.
pub open spec fn instruction_reads(instr: IRInst, register: u8) -> bool
    decreases instr,
{
    match instr {
        IRInst::Asgn { dest, src } => reads_register(src, register) || (!(dest is Reg)
            && reads_register(dest, register)),
        IRInst::If(condition, inner) => reads_register(condition, register) || instruction_reads(
            *inner,
            register,
        ),
        IRInst::Jmp(value) => reads_register(value, register),
        IRInst::Ret(Some(value)) => reads_register(value, register),
        IRInst::SetFlagsFrom(_, value) => reads_register(value, register),
        _ => false,
    }
}

fn expression_reads_register(expr: &IRExpr, register: Register) -> (res: bool)
    ensures
        res == reads_register(*expr, register.number),
    decreases expr,
{
    match expr {
        IRExpr::Reg(found) => found.full_register() == register,
        IRExpr::BinOp { lhs, rhs, .. } => expression_reads_register(lhs, register)
            || expression_reads_register(rhs, register),
        IRExpr::Deref { address, .. } => expression_reads_register(address, register),
        IRExpr::ExtractBytes { value, .. } => expression_reads_register(value, register),
        IRExpr::ZeroExtend { value, .. } => expression_reads_register(value, register),
        IRExpr::SignExtend { value, .. } => expression_reads_register(value, register),
        _ => false,
    }
}

fn instruction_reads_register(instr: &IRInst, register: Register) -> (res: bool)
    ensures
        res == instruction_reads(*instr, register.number),
    decreases instr,
{
    match instr {
        IRInst::Asgn { dest, src } => expression_reads_register(src, register) || (!matches!(
            dest,
            IRExpr::Reg(_)
        ) && expression_reads_register(dest, register)),
        IRInst::If(condition, inner) => expression_reads_register(condition, register)
            || instruction_reads_register(inner, register),
        IRInst::Jmp(value) => expression_reads_register(value, register),
        IRInst::Ret(Some(value)) => expression_reads_register(value, register),
        IRInst::SetFlagsFrom(_, value) => expression_reads_register(value, register),
        _ => false,
    }
}

/// How often the offset occurs.
pub open spec fn occurrences(offsets: Seq<i64>, offset: i64) -> nat
    decreases offsets.len(),
{
    if offsets.len() == 0 {
        0
    } else {
        occurrences(offsets.drop_last(), offset) + if offsets.last() == offset {
            1nat
        } else {
            0nat
        }
    }
}

/// How often the instructions access the stack at the offset.
pub open spec fn references(source: Seq<(usize, IRInst)>, offset: i64) -> nat
    decreases source.len(),
{
    if source.len() == 0 {
        0
    } else {
        references(source.drop_last(), offset) + occurrences(
            instruction_stack_offsets(source.last().1),
            offset,
        )
    }
}

/// The register and the offset of a spill.
pub open spec fn spill(instr: IRInst) -> Option<(Register, i64)> {
    match instr {
        IRInst::Asgn { dest: IRExpr::Stack { offset, size }, src: IRExpr::Reg(register) } => if size
            == 8 {
            Some((register, offset))
        } else {
            None
        },
        _ => None,
    }
}

/// The register and the offset of a reload.
pub open spec fn reload(instr: IRInst) -> Option<(Register, i64)> {
    match instr {
        IRInst::Asgn { dest: IRExpr::Reg(register), src: IRExpr::Stack { offset, size } } => if size
            == 8 {
            Some((register, offset))
        } else {
            None
        },
        _ => None,
    }
}

/// Whether a callee preserves the full register.
pub open spec fn is_nonvolatile(number: u8) -> bool {
    number == RBX || number == RBP || number == RSI || number == RDI || R12 <= number <= R15
}

/// Whether the instructions from `from` on return before they branch or read the
/// full register.
pub open spec fn returns_quietly(source: Seq<(usize, IRInst)>, from: int, register: u8) -> bool
    decreases source.len() - from,
{
    if from < 0 || from >= source.len() {
        false
    } else {
        match source[from].1 {
            IRInst::Ret(_) => true,
            IRInst::If(_, _) => false,
            IRInst::Jmp(_) => false,
            _ => !instruction_reads(source[from].1, register) && returns_quietly(
                source,
                from + 1,
                register,
            ),
        }
    }
}

/// Whether the two instructions save and restore a callee-saved register, in a
/// slot that nothing else uses, and the register is not read again before the
/// function returns.
pub open spec fn is_frame_save(source: Seq<(usize, IRInst)>, save: int, restore: int) -> bool {
    &&& 0 <= save < restore < source.len()
    &&& match (spill(source[save].1), reload(source[restore].1)) {
        (Some((register, offset)), Some((restored, loaded))) => {
            &&& register == restored
            &&& offset == loaded
            &&& references(source, offset) == 2
            &&& is_nonvolatile(full_number(register.number))
            &&& returns_quietly(source, restore + 1, full_number(register.number))
        },
        _ => false,
    }
}

/// Whether the instruction is part of saving a register.
pub open spec fn is_bookkeeping(source: Seq<(usize, IRInst)>, index: int) -> bool {
    ||| exists|restore: int| is_frame_save(source, index, restore)
    ||| exists|save: int| is_frame_save(source, save, index)
}

/// The first `count` instructions that are not bookkeeping.
pub open spec fn without_saves(source: Seq<(usize, IRInst)>, count: int) -> Seq<(usize, IRInst)>
    decreases count,
{
    if count <= 0 {
        Seq::empty()
    } else if is_bookkeeping(source, count - 1) {
        without_saves(source, count - 1)
    } else {
        without_saves(source, count - 1).push(source[count - 1])
    }
}

pub open spec fn stripped(source: Seq<(usize, IRInst)>) -> Seq<(usize, IRInst)> {
    without_saves(source, source.len() as int)
}

fn count_references(source: &Vec<(usize, IRInst)>, offset: i64) -> (res: u64)
    ensures
        res == references(source@, offset) || (res == 3 && references(source@, offset) >= 3),
{
    let mut count: u64 = 0;
    let mut i: usize = 0;
    assert(source@.subrange(0, 0) =~= Seq::<(usize, IRInst)>::empty());
    while i < source.len()
        invariant
            i <= source@.len(),
            count <= 3,
            count == references(source@.subrange(0, i as int), offset) || (count == 3
                && references(source@.subrange(0, i as int), offset) >= 3),
        decreases source@.len() - i,
    {
        let ghost prefix = source@.subrange(0, i + 1);
        assert(prefix.drop_last() =~= source@.subrange(0, i as int));
        let mut offsets: Vec<i64> = Vec::new();
        instruction_stack_references(&source[i].1, &mut offsets);
        assert(offsets@ =~= instruction_stack_offsets(source@[i as int].1));
        let ghost before = references(source@.subrange(0, i as int), offset);
        let mut j: usize = 0;
        assert(offsets@.subrange(0, 0) =~= Seq::<i64>::empty());
        while j < offsets.len()
            invariant
                j <= offsets@.len(),
                count <= 3,
                count == before + occurrences(offsets@.subrange(0, j as int), offset) || (count
                    == 3 && before + occurrences(offsets@.subrange(0, j as int), offset) >= 3),
            decreases offsets@.len() - j,
        {
            let ghost seen = offsets@.subrange(0, j + 1);
            assert(seen.drop_last() =~= offsets@.subrange(0, j as int));
            if offsets[j] == offset && count < 3 {
                count = count + 1;
            }
            j = j + 1;
        }
        assert(offsets@.subrange(0, j as int) =~= offsets@);
        i = i + 1;
    }
    assert(source@.subrange(0, i as int) =~= source@);
    count
}

fn quiet_return(source: &Vec<(usize, IRInst)>, from: usize, register: Register) -> (res: bool)
    requires
        from <= source@.len(),
    ensures
        res == returns_quietly(source@, from as int, register.number),
{
    let mut i: usize = from;
    while i < source.len()
        invariant
            from <= i <= source@.len(),
            returns_quietly(source@, from as int, register.number) == returns_quietly(
                source@,
                i as int,
                register.number,
            ),
        decreases source@.len() - i,
    {
        match &source[i].1 {
            IRInst::Ret(_) => {
                return true;
            },
            IRInst::If(_, _) => {
                return false;
            },
            IRInst::Jmp(_) => {
                return false;
            },
            instr => {
                if instruction_reads_register(instr, register) {
                    return false;
                }
            },
        }
        i = i + 1;
    }
    false
}

fn frame_save(source: &Vec<(usize, IRInst)>, save: usize, restore: usize) -> (res: bool)
    requires
        save < source@.len(),
        restore < source@.len(),
    ensures
        res == is_frame_save(source@, save as int, restore as int),
{
    if save >= restore {
        return false;
    }
    let total: usize = source.len();
    assert(restore + 1 <= total);
    let (register, offset): (Register, i64) = match &source[save].1 {
        IRInst::Asgn { dest: IRExpr::Stack { offset, size }, src: IRExpr::Reg(register) } => {
            if *size != 8 {
                return false;
            }
            (*register, *offset)
        },
        _ => return false,
    };
    match &source[restore].1 {
        IRInst::Asgn {
            dest: IRExpr::Reg(restored),
            src: IRExpr::Stack { offset: loaded, size },
        } => {
            if *size != 8 || *restored != register || *loaded != offset {
                return false;
            }
        },
        _ => return false,
    }
    let full: Register = register.full_register();
    let number: u8 = full.number;
    (number == RBX || number == RBP || number == RSI || number == RDI || (R12 <= number && number
        <= R15)) && count_references(source, offset) == 2 && quiet_return(
        source,
        restore + 1,
        full,
    )
}

fn bookkeeping(source: &Vec<(usize, IRInst)>, index: usize) -> (res: bool)
    requires
        index < source@.len(),
    ensures
        res == is_bookkeeping(source@, index as int),
{
    let mut other: usize = 0;
    while other < source.len()
        invariant
            index < source@.len(),
            other <= source@.len(),
            forall|k: int|
                0 <= k < other ==> !is_frame_save(source@, index as int, k) && !is_frame_save(
                    source@,
                    k,
                    index as int,
                ),
        decreases source@.len() - other,
    {
        if frame_save(source, index, other) || frame_save(source, other, index) {
            return true;
        }
        other = other + 1;
    }
    false
}

/// Callee-saved register spills are ABI bookkeeping. Keep their exact native
/// effects in Tier 0, but remove a matched spill/reload when the slot has no
/// other use before building source-like state in this tier.
pub fn strip_frame_saves(source: &Vec<(usize, IRInst)>) -> (res: Vec<(usize, IRInst)>)
    ensures
        res@ == stripped(source@),
{
    let mut res: Vec<(usize, IRInst)> = Vec::new();
    let mut i: usize = 0;
    while i < source.len()
        invariant
            i <= source@.len(),
            res@ == without_saves(source@, i as int),
        decreases source@.len() - i,
    {
        if !bookkeeping(source, i) {
            res.push((source[i].0, source[i].1.clone()));
        }
        i = i + 1;
    }
    res
}

// ---------------------------------------------------------------------------
// Laws

proof fn lemma_without_saves_others(source: Seq<(usize, IRInst)>, count: int, i: int)
    requires
        0 <= i < count <= source.len(),
        !is_bookkeeping(source, i),
    ensures
        without_saves(source, count).contains(source[i]),
    decreases count,
{
    let before = without_saves(source, count - 1);
    if i < count - 1 {
        lemma_without_saves_others(source, count - 1, i);
        let k = choose|k: int| 0 <= k < before.len() && before[k] == source[i];
        assert(without_saves(source, count)[k] == source[i]);
    } else {
        assert(without_saves(source, count)[before.len() as int] == source[i]);
    }
}

/// Only spills and reloads are removed: everything else stays.
pub proof fn law_only_saves_are_stripped(source: Seq<(usize, IRInst)>, i: int)
    requires
        0 <= i < source.len(),
    ensures
        stripped(source).contains(source[i]) || spill(source[i].1) is Some || reload(
            source[i].1,
        ) is Some,
{
    if !is_bookkeeping(source, i) {
        lemma_without_saves_others(source, source.len() as int, i);
    }
}

} // verus!
