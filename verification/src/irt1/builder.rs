//! Partitioning tier 0 operations into synthetic functions.
use super::ir::{
    body_calls_within, body_models, calls_within, function_models, functions_linked, FlagSet,
    FunctionModel, IRBinOpKind, IRExpr, IRInst, InstModel, NativeFlag, SyntheticFunction,
    SyntheticFunctionId,
};
use super::numbering::{
    entry_of, is_kept, is_numbered, lemma_body_filled, lemma_kept_on, lemma_pushed, lemma_reserved,
};
use crate::irt0::ir as t0;
use crate::x86::RIP;
use vstd::prelude::*;

verus! {

// ---------------------------------------------------------------------------
// Expressions

pub open spec fn flag_of(flag: t0::NativeFlag) -> NativeFlag {
    match flag {
        t0::NativeFlag::Carry => NativeFlag::Carry,
        t0::NativeFlag::Parity => NativeFlag::Parity,
        t0::NativeFlag::AuxCarry => NativeFlag::AuxCarry,
        t0::NativeFlag::Zero => NativeFlag::Zero,
        t0::NativeFlag::Sign => NativeFlag::Sign,
        t0::NativeFlag::Trap => NativeFlag::Trap,
        t0::NativeFlag::InterruptEnable => NativeFlag::InterruptEnable,
        t0::NativeFlag::Direction => NativeFlag::Direction,
        t0::NativeFlag::Overflow => NativeFlag::Overflow,
    }
}

fn lift_flag(flag: t0::NativeFlag) -> (res: NativeFlag)
    ensures
        res == flag_of(flag),
{
    match flag {
        t0::NativeFlag::Carry => NativeFlag::Carry,
        t0::NativeFlag::Parity => NativeFlag::Parity,
        t0::NativeFlag::AuxCarry => NativeFlag::AuxCarry,
        t0::NativeFlag::Zero => NativeFlag::Zero,
        t0::NativeFlag::Sign => NativeFlag::Sign,
        t0::NativeFlag::Trap => NativeFlag::Trap,
        t0::NativeFlag::InterruptEnable => NativeFlag::InterruptEnable,
        t0::NativeFlag::Direction => NativeFlag::Direction,
        t0::NativeFlag::Overflow => NativeFlag::Overflow,
    }
}

pub open spec fn flags_of(flags: t0::FlagSet) -> FlagSet {
    FlagSet {
        carry: flags.carry,
        parity: flags.parity,
        aux_carry: flags.aux_carry,
        zero: flags.zero,
        sign: flags.sign,
        trap: flags.trap,
        interrupt_enable: flags.interrupt_enable,
        direction: flags.direction,
        overflow: flags.overflow,
    }
}

fn lift_flags(flags: t0::FlagSet) -> (res: FlagSet)
    ensures
        res == flags_of(flags),
{
    FlagSet {
        carry: flags.carry,
        parity: flags.parity,
        aux_carry: flags.aux_carry,
        zero: flags.zero,
        sign: flags.sign,
        trap: flags.trap,
        interrupt_enable: flags.interrupt_enable,
        direction: flags.direction,
        overflow: flags.overflow,
    }
}

/// A lifted set holds the lifted flags of a set.
pub proof fn law_lifted_flags(flags: t0::FlagSet, flag: t0::NativeFlag)
    ensures
        flags_of(flags).has(flag_of(flag)) == flags.has(flag),
{
}

pub open spec fn kind_of(kind: t0::IRBinOpKind) -> IRBinOpKind {
    match kind {
        t0::IRBinOpKind::Add => IRBinOpKind::Add,
        t0::IRBinOpKind::Sub => IRBinOpKind::Sub,
        t0::IRBinOpKind::Mul => IRBinOpKind::Mul,
        t0::IRBinOpKind::Shl => IRBinOpKind::Shl,
        t0::IRBinOpKind::Shr => IRBinOpKind::Shr,
        t0::IRBinOpKind::And => IRBinOpKind::And,
        t0::IRBinOpKind::Or => IRBinOpKind::Or,
        t0::IRBinOpKind::Eq => IRBinOpKind::Eq,
        t0::IRBinOpKind::SignedGt => IRBinOpKind::SignedGt,
    }
}

fn lift_kind(kind: t0::IRBinOpKind) -> (res: IRBinOpKind)
    ensures
        res == kind_of(kind),
{
    match kind {
        t0::IRBinOpKind::Add => IRBinOpKind::Add,
        t0::IRBinOpKind::Sub => IRBinOpKind::Sub,
        t0::IRBinOpKind::Mul => IRBinOpKind::Mul,
        t0::IRBinOpKind::Shl => IRBinOpKind::Shl,
        t0::IRBinOpKind::Shr => IRBinOpKind::Shr,
        t0::IRBinOpKind::And => IRBinOpKind::And,
        t0::IRBinOpKind::Or => IRBinOpKind::Or,
        t0::IRBinOpKind::Eq => IRBinOpKind::Eq,
        t0::IRBinOpKind::SignedGt => IRBinOpKind::SignedGt,
    }
}

/// The same expression in this tier.
pub open spec fn expr_of(expr: t0::IRExpr) -> IRExpr
    decreases expr,
{
    match expr {
        t0::IRExpr::BinOp { kind, lhs, rhs } => IRExpr::BinOp {
            kind: kind_of(kind),
            lhs: Box::new(expr_of(*lhs)),
            rhs: Box::new(expr_of(*rhs)),
        },
        t0::IRExpr::Deref { address, size } => IRExpr::Deref {
            address: Box::new(expr_of(*address)),
            size,
        },
        t0::IRExpr::ExtractBytes { value, offset, size } => IRExpr::ExtractBytes {
            value: Box::new(expr_of(*value)),
            offset,
            size,
        },
        t0::IRExpr::ZeroExtend { value, size } => IRExpr::ZeroExtend {
            value: Box::new(expr_of(*value)),
            size,
        },
        t0::IRExpr::SignExtend { value, size } => IRExpr::SignExtend {
            value: Box::new(expr_of(*value)),
            size,
        },
        t0::IRExpr::Reg(register) => IRExpr::Reg(register),
        t0::IRExpr::Stack { offset, size } => IRExpr::Stack { offset, size },
        t0::IRExpr::Flag(flag) => IRExpr::Flag(flag_of(flag)),
        t0::IRExpr::CU8(value) => IRExpr::CU8(value),
        t0::IRExpr::CU32(value) => IRExpr::CU32(value),
        t0::IRExpr::CU64(value) => IRExpr::CU64(value),
    }
}

fn lift_expr(expr: &t0::IRExpr) -> (res: IRExpr)
    ensures
        res == expr_of(*expr),
    decreases expr,
{
    match expr {
        t0::IRExpr::BinOp { kind, lhs, rhs } => IRExpr::BinOp {
            kind: lift_kind(*kind),
            lhs: Box::new(lift_expr(lhs)),
            rhs: Box::new(lift_expr(rhs)),
        },
        t0::IRExpr::Deref { address, size } => IRExpr::Deref {
            address: Box::new(lift_expr(address)),
            size: *size,
        },
        t0::IRExpr::ExtractBytes { value, offset, size } => IRExpr::ExtractBytes {
            value: Box::new(lift_expr(value)),
            offset: *offset,
            size: *size,
        },
        t0::IRExpr::ZeroExtend { value, size } => IRExpr::ZeroExtend {
            value: Box::new(lift_expr(value)),
            size: *size,
        },
        t0::IRExpr::SignExtend { value, size } => IRExpr::SignExtend {
            value: Box::new(lift_expr(value)),
            size: *size,
        },
        t0::IRExpr::Reg(register) => IRExpr::Reg(*register),
        t0::IRExpr::Stack { offset, size } => IRExpr::Stack { offset: *offset, size: *size },
        t0::IRExpr::Flag(flag) => IRExpr::Flag(lift_flag(*flag)),
        t0::IRExpr::CU8(value) => IRExpr::CU8(*value),
        t0::IRExpr::CU32(value) => IRExpr::CU32(*value),
        t0::IRExpr::CU64(value) => IRExpr::CU64(*value),
    }
}

/// The lifting of expressions loses nothing.
pub proof fn law_expressions_are_kept(a: t0::IRExpr, b: t0::IRExpr)
    requires
        expr_of(a) == expr_of(b),
    ensures
        a == b,
    decreases a,
{
    match (a, b) {
        (
            t0::IRExpr::BinOp { lhs, rhs, .. },
            t0::IRExpr::BinOp { lhs: lhs2, rhs: rhs2, .. },
        ) => {
            law_expressions_are_kept(*lhs, *lhs2);
            law_expressions_are_kept(*rhs, *rhs2);
        },
        (t0::IRExpr::Deref { address, .. }, t0::IRExpr::Deref { address: other, .. }) => {
            law_expressions_are_kept(*address, *other);
        },
        (
            t0::IRExpr::ExtractBytes { value, .. },
            t0::IRExpr::ExtractBytes { value: other, .. },
        ) => {
            law_expressions_are_kept(*value, *other);
        },
        (t0::IRExpr::ZeroExtend { value, .. }, t0::IRExpr::ZeroExtend { value: other, .. }) => {
            law_expressions_are_kept(*value, *other);
        },
        (t0::IRExpr::SignExtend { value, .. }, t0::IRExpr::SignExtend { value: other, .. }) => {
            law_expressions_are_kept(*value, *other);
        },
        _ => {},
    }
}

// ---------------------------------------------------------------------------
// Targets

/// The address that a jump at `offset` goes to, where it is known.
pub open spec fn target_address(expr: t0::IRExpr, offset: usize) -> Option<usize>
    decreases expr,
{
    match expr {
        t0::IRExpr::CU64(value) => if value <= usize::MAX {
            Some(value as usize)
        } else {
            None
        },
        t0::IRExpr::CU32(value) => Some(value as usize),
        t0::IRExpr::Reg(register) => if register.number == RIP {
            Some(offset)
        } else {
            None
        },
        t0::IRExpr::BinOp { kind: t0::IRBinOpKind::Add, lhs, rhs } => match (
            target_address(*lhs, offset),
            target_address(*rhs, offset),
        ) {
            (Some(left), Some(right)) => if left + right <= usize::MAX {
                Some((left + right) as usize)
            } else {
                None
            },
            _ => None,
        },
        _ => None,
    }
}

pub fn jump_target(expr: &t0::IRExpr, offset: usize) -> (res: Option<usize>)
    ensures
        res == target_address(*expr, offset),
    decreases expr,
{
    match expr {
        t0::IRExpr::CU64(value) => if *value <= usize::MAX as u64 {
            Some(*value as usize)
        } else {
            None
        },
        t0::IRExpr::CU32(value) => Some(*value as usize),
        t0::IRExpr::Reg(register) => if register.number == RIP {
            Some(offset)
        } else {
            None
        },
        t0::IRExpr::BinOp { kind, lhs, rhs } => {
            if *kind != t0::IRBinOpKind::Add {
                return None;
            }
            match (jump_target(lhs, offset), jump_target(rhs, offset)) {
                (Some(left), Some(right)) => left.checked_add(right),
                _ => None,
            }
        },
        _ => None,
    }
}

/// The first operation from `from` on whose address is not before `offset`.
pub open spec fn first_at(source: Seq<(usize, t0::IRInst)>, offset: usize, from: int) -> int
    decreases source.len() - from,
{
    if from < 0 || from >= source.len() || source[from].0 >= offset {
        from
    } else {
        first_at(source, offset, from + 1)
    }
}

/// The operation that a jump goes to, where that is within the source. The tier 0
/// program has one or more operations per source address. A jump into an omitted
/// NOP starts at the first surviving operation after it.
pub open spec fn local_index(
    source: Seq<(usize, t0::IRInst)>,
    expr: t0::IRExpr,
    offset: usize,
) -> Option<int> {
    match target_address(expr, offset) {
        Some(target) => if source.len() == 0 || target < source[0].0 || target > source.last().0
            || first_at(source, target, 0) >= source.len() {
            None
        } else {
            Some(first_at(source, target, 0))
        },
        None => None,
    }
}

fn local_target(source: &Vec<(usize, t0::IRInst)>, expr: &t0::IRExpr, offset: usize) -> (res:
    Option<usize>)
    ensures
        match (res, local_index(source@, *expr, offset)) {
            (Some(index), Some(model)) => index == model && index < source@.len(),
            (None, None) => true,
            _ => false,
        },
{
    let target: usize = match jump_target(expr, offset) {
        Some(target) => target,
        None => return None,
    };
    if source.len() == 0 || target < source[0].0 || target > source[source.len() - 1].0 {
        return None;
    }
    let mut index: usize = 0;
    while index < source.len() && source[index].0 < target
        invariant
            index <= source@.len(),
            first_at(source@, target, 0) == first_at(source@, target, index as int),
        decreases source@.len() - index,
    {
        index = index + 1;
    }
    if index < source.len() {
        Some(index)
    } else {
        None
    }
}

/// The target of a jump or of a conditional jump.
pub open spec fn jump_of(instr: t0::IRInst) -> Option<t0::IRExpr> {
    match instr {
        t0::IRInst::Jmp(target) => Some(target),
        t0::IRInst::If(_, inner) => match *inner {
            t0::IRInst::Jmp(target) => Some(target),
            _ => None,
        },
        _ => None,
    }
}

/// Whether some jump goes to the operation.
pub open spec fn is_entry(source: Seq<(usize, t0::IRInst)>, index: int) -> bool {
    exists|i: int| 0 <= i < source.len() && jumps_to(source, #[trigger] source[i], index)
}

pub open spec fn jumps_to(
    source: Seq<(usize, t0::IRInst)>,
    item: (usize, t0::IRInst),
    index: int,
) -> bool {
    match jump_of(item.1) {
        Some(target) => local_index(source, target, item.0) == Some(index),
        None => false,
    }
}

/// For each operation, whether some jump goes to it.
fn find_entries(source: &Vec<(usize, t0::IRInst)>) -> (res: Vec<bool>)
    ensures
        res@.len() == source@.len(),
        forall|k: int| 0 <= k < res@.len() ==> #[trigger] res@[k] == is_entry(source@, k),
{
    let mut res: Vec<bool> = Vec::new();
    let mut k: usize = 0;
    while k < source.len()
        invariant
            k <= source@.len(),
            res@.len() == k,
            forall|j: int| 0 <= j < k ==> !(#[trigger] res@[j]),
        decreases source@.len() - k,
    {
        res.push(false);
        k = k + 1;
    }
    let mut i: usize = 0;
    while i < source.len()
        invariant
            i <= source@.len(),
            res@.len() == source@.len(),
            forall|j: int|
                0 <= j < res@.len() ==> #[trigger] res@[j] == exists|m: int|
                    0 <= m < i && jumps_to(source@, #[trigger] source@[m], j),
        decreases source@.len() - i,
    {
        let target: Option<&t0::IRExpr> = match &source[i].1 {
            t0::IRInst::Jmp(target) => Some(target),
            t0::IRInst::If(_, inner) => match &**inner {
                t0::IRInst::Jmp(target) => Some(target),
                _ => None,
            },
            _ => None,
        };
        let ghost before = res@;
        if let Some(target) = target {
            if let Some(index) = local_target(source, target, source[i].0) {
                res.set(index, true);
            }
        }
        assert forall|j: int| 0 <= j < res@.len() implies #[trigger] res@[j] == exists|m: int|
            0 <= m < i + 1 && jumps_to(source@, #[trigger] source@[m], j) by {
            if before[j] {
                let m = choose|m: int| 0 <= m < i && jumps_to(source@, #[trigger] source@[m], j);
                assert(jumps_to(source@, source@[m], j));
            }
            if res@[j] && !before[j] {
                assert(jumps_to(source@, source@[i as int], j));
            }
        }
        i = i + 1;
    }
    res
}

// ---------------------------------------------------------------------------
// Partitions

/// Whether every conditional operation is a jump or a move.
pub open spec fn is_well_shaped(source: Seq<(usize, t0::IRInst)>) -> bool {
    forall|i: int| 0 <= i < source.len() ==> is_supported_shape((#[trigger] source[i]).1)
}

pub open spec fn is_supported_shape(instr: t0::IRInst) -> bool {
    match instr {
        t0::IRInst::If(_, inner) => *inner is Jmp || *inner is Asgn,
        _ => true,
    }
}

/// Whether every conditional operation is a jump or a move.
pub fn well_shaped(source: &Vec<(usize, t0::IRInst)>) -> (res: bool)
    ensures
        res == is_well_shaped(source@),
{
    let mut i: usize = 0;
    while i < source.len()
        invariant
            i <= source@.len(),
            forall|k: int| 0 <= k < i ==> is_supported_shape((#[trigger] source@[k]).1),
        decreases source@.len() - i,
    {
        let supported: bool = match &source[i].1 {
            t0::IRInst::If(_, inner) => matches!(
                &**inner,
                t0::IRInst::Jmp(_) | t0::IRInst::Asgn { .. }
            ),
            _ => true,
        };
        if !supported {
            return false;
        }
        i = i + 1;
    }
    true
}

/// The operations that are partitioned, and the address of the first.
pub struct Source {
    pub operations: Seq<(usize, t0::IRInst)>,
    pub entry_address: usize,
}

/// The functions made so far, and which of them starts at each operation.
#[verifier::ext_equal]
pub struct Partitions {
    pub starts: Seq<Option<usize>>,
    pub functions: Seq<FunctionModel>,
}

/// How many operations start no function yet.
pub open spec fn unstarted(starts: Seq<Option<usize>>) -> nat
    decreases starts.len(),
{
    if starts.len() == 0 {
        0
    } else {
        unstarted(starts.drop_last()) + if starts.last() is None {
            1nat
        } else {
            0nat
        }
    }
}

pub proof fn lemma_unstarted_update(starts: Seq<Option<usize>>, at: int, id: usize)
    requires
        0 <= at < starts.len(),
        starts[at] is None,
    ensures
        unstarted(starts.update(at, Some(id))) + 1 == unstarted(starts),
    decreases starts.len(),
{
    let after = starts.update(at, Some(id));
    if at < starts.len() - 1 {
        lemma_unstarted_update(starts.drop_last(), at, id);
        assert(after.drop_last() =~= starts.drop_last().update(at, Some(id)));
    } else {
        assert(after.drop_last() =~= starts.drop_last());
    }
}

proof fn lemma_all_unstarted(starts: Seq<Option<usize>>)
    ensures
        unstarted(starts) <= starts.len(),
    decreases starts.len(),
{
    if starts.len() > 0 {
        lemma_all_unstarted(starts.drop_last());
    }
}

pub open spec fn call_to(id: usize) -> InstModel {
    InstModel::CallSynthetic {
        function: SyntheticFunctionId { id },
        arguments: Seq::empty(),
    }
}

pub open spec fn empty_function(
    entry_offset: usize,
    body: Seq<(usize, InstModel)>,
) -> FunctionModel {
    FunctionModel {
        entry_offset,
        parameters: Seq::empty(),
        external_flags: FlagSet::none(),
        body,
    }
}

/// The function that starts at an operation, made with those that it leads to
/// unless it is there already. A function is reserved before its edges are
/// followed: a backward jump can then call a function that is still being
/// made. At most `fuel` functions are made one within another.
pub open spec fn started(source: Source, made: Partitions, start: int, fuel: nat) -> (
    Partitions,
    usize,
)
    decreases fuel, 0nat,
{
    match made.starts[start] {
        Some(id) => (made, id),
        None => if fuel == 0 {
            (made, 0)
        } else {
            let id = made.functions.len() as usize;
            let entry_offset = if start == 0 {
                source.entry_address
            } else {
                source.operations[start].0
            };
            let reserved = Partitions {
                starts: made.starts.update(start, Some(id)),
                functions: made.functions.push(empty_function(entry_offset, Seq::empty())),
            };
            let (after, body) = scanned(
                source,
                reserved,
                start,
                start,
                Seq::empty(),
                (fuel - 1) as nat,
            );
            (
                Partitions {
                    starts: after.starts,
                    functions: after.functions.update(
                        id as int,
                        FunctionModel { body, ..after.functions[id as int] },
                    ),
                },
                id,
            )
        },
    }
}

/// The transfer to the operation at `index`, or the end of the source.
pub open spec fn continued(source: Source, made: Partitions, index: int, fuel: nat) -> (
    Partitions,
    InstModel,
)
    decreases fuel, 1nat,
{
    if index < source.operations.len() {
        let (after, id) = started(source, made, index, fuel);
        (after, call_to(id))
    } else {
        (made, InstModel::End)
    }
}

/// The transfer that a jump makes: to an operation of the source, or outside.
pub open spec fn targeted(
    source: Source,
    made: Partitions,
    expr: t0::IRExpr,
    offset: usize,
    fuel: nat,
) -> (Partitions, InstModel)
    decreases fuel, 1nat,
{
    match local_index(source.operations, expr, offset) {
        Some(index) => {
            let (after, id) = started(source, made, index, fuel);
            (after, call_to(id))
        },
        None => (made, InstModel::Jump(expr_of(expr))),
    }
}

/// The body of the function that starts at `start`, from `index` on. It ends
/// before a shared entry, or with the first operation that transfers control.
pub open spec fn scanned(
    source: Source,
    made: Partitions,
    start: int,
    index: int,
    body: Seq<(usize, InstModel)>,
    fuel: nat,
) -> (Partitions, Seq<(usize, InstModel)>)
    decreases fuel, 2 + source.operations.len() - index,
{
    if index < 0 || index >= source.operations.len() {
        (made, body)
    } else if index != start && (is_entry(source.operations, index) || made.starts[index] is Some) {
        let (after, transfer) = continued(source, made, index, fuel);
        (after, body.push((body.last().0, transfer)))
    } else {
        let offset = source.operations[index].0;
        match source.operations[index].1 {
            t0::IRInst::If(condition, inner) => {
                let (middle, then_branch) = match *inner {
                    t0::IRInst::Jmp(target) => targeted(source, made, target, offset, fuel),
                    t0::IRInst::Asgn { dest, src } => {
                        // A conditional move is a local assignment followed by
                        // the same continuation as the unchanged arm.
                        let (after, continuation) = continued(source, made, index + 1, fuel);
                        (
                            Partitions {
                                starts: after.starts,
                                functions: after.functions.push(
                                    empty_function(
                                        offset,
                                        seq![
                                            (
                                                offset,
                                                InstModel::Assign {
                                                    dest: expr_of(dest),
                                                    src: expr_of(src),
                                                },
                                            ),
                                            (offset, continuation),
                                        ],
                                    ),
                                ),
                            },
                            call_to(after.functions.len() as usize),
                        )
                    },
                    _ => (made, InstModel::End),
                };
                let (after, else_branch) = continued(source, middle, index + 1, fuel);
                (
                    after,
                    body.push(
                        (
                            offset,
                            InstModel::If {
                                condition: expr_of(condition),
                                then_branch: Box::new(then_branch),
                                else_branch: Box::new(else_branch),
                            },
                        ),
                    ),
                )
            },
            t0::IRInst::Jmp(target) => {
                let (after, transfer) = targeted(source, made, target, offset, fuel);
                (after, body.push((offset, transfer)))
            },
            t0::IRInst::Ret(value) => (
                made,
                body.push(
                    (
                        offset,
                        InstModel::Return(
                            match value {
                                Some(value) => Some(expr_of(value)),
                                None => None,
                            },
                        ),
                    ),
                ),
            ),
            t0::IRInst::Asgn { dest, src } => scanned(
                source,
                made,
                start,
                index + 1,
                body.push((offset, InstModel::Assign { dest: expr_of(dest), src: expr_of(src) })),
                fuel,
            ),
            t0::IRInst::SetFlagsFrom(flags, expr) => scanned(
                source,
                made,
                start,
                index + 1,
                body.push(
                    (
                        offset,
                        InstModel::SetFlagsFrom { flags: flags_of(flags), expr: expr_of(expr) },
                    ),
                ),
                fuel,
            ),
            t0::IRInst::ClearFlags(flags) => scanned(
                source,
                made,
                start,
                index + 1,
                body.push((offset, InstModel::ClearFlags { flags: flags_of(flags) })),
                fuel,
            ),
            t0::IRInst::InvalidateFlags(flags) => scanned(
                source,
                made,
                start,
                index + 1,
                body.push((offset, InstModel::InvalidateFlags { flags: flags_of(flags) })),
                fuel,
            ),
        }
    }
}

/// Nothing made yet.
pub open spec fn no_partitions(count: nat) -> Partitions {
    Partitions { starts: Seq::new(count, |i: int| None), functions: Seq::empty() }
}

/// The functions of the source, the one at its start first.
pub open spec fn partitioned(operations: Seq<(usize, t0::IRInst)>, entry_address: usize) -> Seq<
    FunctionModel,
> {
    started(
        Source { operations, entry_address },
        no_partitions(operations.len()),
        0,
        operations.len() + 1,
    ).0.functions
}

/// Whether every call names a function, and every start one that is there.
spec fn is_sound(made: Partitions) -> bool {
    &&& functions_linked(made.functions, made.functions.len() as int)
    &&& forall|i: int|
        0 <= i < made.starts.len() ==> (#[trigger] made.starts[i] matches Some(id) ==> id
            < made.functions.len())
}

proof fn lemma_calls_grow(instr: InstModel, count: int, larger: int)
    requires
        calls_within(instr, count),
        count <= larger,
    ensures
        calls_within(instr, larger),
    decreases instr,
{
    if let InstModel::If { then_branch, else_branch, .. } = instr {
        lemma_calls_grow(*then_branch, count, larger);
        lemma_calls_grow(*else_branch, count, larger);
    }
}

proof fn lemma_body_calls_grow(body: Seq<(usize, InstModel)>, count: int, larger: int)
    requires
        body_calls_within(body, count),
        count <= larger,
    ensures
        body_calls_within(body, larger),
{
    assert forall|i: int| 0 <= i < body.len() implies calls_within(
        (#[trigger] body[i]).1,
        larger,
    ) by {
        lemma_calls_grow(body[i].1, count, larger);
    }
}

proof fn lemma_linked_push(functions: Seq<FunctionModel>, function: FunctionModel)
    requires
        functions_linked(functions, functions.len() as int),
        body_calls_within(function.body, functions.len() as int + 1),
    ensures
        functions_linked(functions.push(function), functions.len() as int + 1),
{
    let after = functions.push(function);
    assert forall|i: int| 0 <= i < after.len() implies body_calls_within(
        (#[trigger] after[i]).body,
        functions.len() as int + 1,
    ) by {
        if i < functions.len() {
            assert(after[i] == functions[i]);
            lemma_body_calls_grow(
                functions[i].body,
                functions.len() as int,
                functions.len() as int + 1,
            );
        }
    }
}

/// Makes the functions of a source, each when it is first asked for.
pub struct SyntheticFunctionBuilder<'a> {
    source: &'a Vec<(usize, t0::IRInst)>,
    entry_address: usize,
    jump_entries: Vec<bool>,
    by_start: Vec<Option<usize>>,
    functions: Vec<SyntheticFunction>,
}

impl<'a> SyntheticFunctionBuilder<'a> {
    pub closed spec fn given(self) -> Source {
        Source { operations: self.source@, entry_address: self.entry_address }
    }

    pub closed spec fn made(self) -> Partitions {
        Partitions { starts: self.by_start@, functions: function_models(self.functions@) }
    }

    /// How many operations start no function yet.
    pub open spec fn left(self) -> nat {
        unstarted(self.made().starts)
    }

    pub closed spec fn valid(self) -> bool {
        &&& self.jump_entries@.len() == self.source@.len()
        &&& self.by_start@.len() == self.source@.len()
        &&& forall|k: int|
            0 <= k < self.source@.len() ==> #[trigger] self.jump_entries@[k] == is_entry(
                self.source@,
                k,
            )
        &&& is_well_shaped(self.source@)
        &&& is_sound(self.made())
        &&& is_numbered(self.given(), self.made())
    }

    /// What every step keeps.
    pub open spec fn follows(self, before: Self) -> bool {
        &&& self.valid()
        &&& self.given() == before.given()
        &&& self.left() <= before.left()
        &&& is_kept(before.made(), self.made())
    }

    /// A builder that has made nothing yet.
    pub fn new(source: &'a Vec<(usize, t0::IRInst)>, entry_address: usize) -> (res: Self)
        requires
            is_well_shaped(source@),
        ensures
            res.valid(),
            res.given() == (Source { operations: source@, entry_address }),
            res.made() == no_partitions(source@.len()),
    {
        let jump_entries: Vec<bool> = find_entries(source);
        let mut by_start: Vec<Option<usize>> = Vec::new();
        let mut i: usize = 0;
        while i < source.len()
            invariant
                i <= source@.len(),
                by_start@.len() == i,
                forall|k: int| 0 <= k < i ==> #[trigger] by_start@[k] == None::<usize>,
            decreases source@.len() - i,
        {
            by_start.push(None);
            i = i + 1;
        }
        let res = SyntheticFunctionBuilder {
            source,
            entry_address,
            jump_entries,
            by_start,
            functions: Vec::new(),
        };
        proof {
            assert(function_models(res.functions@) =~= Seq::empty());
            assert(res.by_start@ =~= no_partitions(source@.len()).starts);
            assert(res.made() =~= no_partitions(source@.len()));
            assert(is_sound(res.made()));
        }
        res
    }

    /// The functions that were made, by their numbers.
    pub fn functions(self) -> (res: Vec<SyntheticFunction>)
        requires
            self.valid(),
        ensures
            function_models(res@) == self.made().functions,
            functions_linked(function_models(res@), res@.len() as int),
    {
        self.functions
    }

    fn target(&mut self, expr: &t0::IRExpr, offset: usize) -> (res: IRInst)
        requires
            old(self).valid(),
        ensures
            final(self).follows(*old(self)),
            calls_within(res.model(), final(self).functions@.len() as int),
            forall|fuel: nat|
                fuel > old(self).left() ==> #[trigger] targeted(
                    old(self).given(),
                    old(self).made(),
                    *expr,
                    offset,
                    fuel,
                ) == (final(self).made(), res.model()),
        decreases old(self).left(), 1nat,
    {
        match local_target(self.source, expr, offset) {
            Some(index) => {
                let id: usize = self.function(index);
                let res = IRInst::CallSynthetic {
                    function: SyntheticFunctionId { id },
                    arguments: Vec::new(),
                };
                assert(res.model() == call_to(id)) by {
                    assert(res.model()->arguments =~= Seq::<IRExpr>::empty());
                }
                assert forall|fuel: nat| fuel > old(self).left() implies #[trigger] targeted(
                    old(self).given(),
                    old(self).made(),
                    *expr,
                    offset,
                    fuel,
                ) == (self.made(), res.model()) by {
                    let inner = started(old(self).given(), old(self).made(), index as int, fuel);
                    assert(inner == (self.made(), id));
                }
                res
            },
            None => IRInst::Jump(lift_expr(expr)),
        }
    }

    fn fallthrough(&mut self, index: usize) -> (res: IRInst)
        requires
            old(self).valid(),
        ensures
            final(self).follows(*old(self)),
            calls_within(res.model(), final(self).functions@.len() as int),
            forall|fuel: nat|
                fuel > old(self).left() ==> #[trigger] continued(
                    old(self).given(),
                    old(self).made(),
                    index as int,
                    fuel,
                ) == (final(self).made(), res.model()),
        decreases old(self).left(), 1nat,
    {
        if index < self.source.len() {
            let id: usize = self.function(index);
            let res = IRInst::CallSynthetic {
                function: SyntheticFunctionId { id },
                arguments: Vec::new(),
            };
            assert(res.model() == call_to(id)) by {
                assert(res.model()->arguments =~= Seq::<IRExpr>::empty());
            }
            assert forall|fuel: nat| fuel > old(self).left() implies #[trigger] continued(
                old(self).given(),
                old(self).made(),
                index as int,
                fuel,
            ) == (self.made(), res.model()) by {
                let inner = started(old(self).given(), old(self).made(), index as int, fuel);
                assert(inner == (self.made(), id));
            }
            res
        } else {
            IRInst::End
        }
    }

    /// The number of the function that starts at an operation. It has the address of
    /// the operation or, at the first, that of the entry. To ask for it again gives it
    /// once more and changes nothing.
    pub fn function(&mut self, start: usize) -> (res: usize)
        requires
            old(self).valid(),
            start < old(self).given().operations.len(),
        ensures
            final(self).follows(*old(self)),
            final(self).made().starts[start as int] == Some(res),
            res < final(self).made().functions.len(),
            final(self).made().functions[res as int].entry_offset == entry_of(
                old(self).given(),
                start as int,
            ),
            old(self).made().starts[start as int] is Some ==> *final(self) == *old(self),
            forall|fuel: nat|
                fuel > old(self).left() ==> #[trigger] started(
                    old(self).given(),
                    old(self).made(),
                    start as int,
                    fuel,
                ) == (final(self).made(), res),
        decreases old(self).left(), 0nat,
    {
        if let Some(id) = self.by_start[start] {
            return id;
        }
        let id: usize = self.functions.len();
        let entry_offset: usize = if start == 0 {
            self.entry_address
        } else {
            self.source[start].0
        };
        proof {
            lemma_unstarted_update(self.by_start@, start as int, id);
            lemma_linked_push(
                function_models(self.functions@),
                empty_function(entry_offset, Seq::empty()),
            );
        }
        self.by_start.set(start, Some(id));
        self.functions.push(
            SyntheticFunction {
                entry_offset,
                parameters: Vec::new(),
                external_flags: FlagSet::new(),
                body: Vec::new(),
            },
        );
        let ghost reserved = *self;
        proof {
            lemma_reserved(old(self).given(), old(self).made(), start as int);
            let made = function_models(old(self).functions@);
            let added = empty_function(entry_offset, Seq::empty());
            assert(self.functions@.last().model() == added) by {
                assert(self.functions@.last().model().body =~= Seq::empty());
                assert(self.functions@.last().model().parameters =~= Seq::empty());
            }
            assert(function_models(self.functions@) =~= made.push(added));
            assert(is_sound(self.made()));
            assert(self.made() == (Partitions {
                starts: old(self).made().starts.update(start as int, Some(id)),
                functions: made.push(added),
            }));
        }
        let body: Vec<(usize, IRInst)> = self.scan(start, start, Vec::new());
        let ghost after = *self;
        proof {
            assert(body_models(Seq::<(usize, IRInst)>::empty()) =~= Seq::empty());
        }
        let ghost model = body_models(body@);
        self.functions[id].body = body;
        proof {
            let models = function_models(after.functions@);
            let updated = FunctionModel { body: model, ..models[id as int] };
            assert(self.functions@[id as int].model() == updated);
            assert(function_models(self.functions@) =~= models.update(id as int, updated));
            assert(reserved.made().starts[start as int] == Some(id));
            lemma_body_filled(self.given(), after.made(), id as int, model);
            lemma_kept_on(old(self).made(), reserved.made(), after.made());
            lemma_kept_on(old(self).made(), after.made(), self.made());
            assert(functions_linked(
                function_models(self.functions@),
                self.functions@.len() as int,
            )) by {
                let all = function_models(self.functions@);
                assert forall|i: int| 0 <= i < all.len() implies body_calls_within(
                    (#[trigger] all[i]).body,
                    self.functions@.len() as int,
                ) by {
                    if i != id {
                        assert(all[i] == models[i]);
                    }
                }
            }
            assert forall|fuel: nat| fuel > old(self).left() implies #[trigger] started(
                old(self).given(),
                old(self).made(),
                start as int,
                fuel,
            ) == (self.made(), id) by {
                let less = (fuel - 1) as nat;
                let inner = scanned(
                    reserved.given(),
                    reserved.made(),
                    start as int,
                    start as int,
                    Seq::empty(),
                    less,
                );
                assert(inner == (after.made(), model));
                assert(reserved.made() == (Partitions {
                    starts: old(self).made().starts.update(start as int, Some(id)),
                    functions: old(self).made().functions.push(
                        empty_function(entry_offset, Seq::empty()),
                    ),
                }));
            }
        }
        id
    }

    /// The body of the function that starts at `start`, from `from` on.
    fn scan(&mut self, start: usize, from: usize, body: Vec<(usize, IRInst)>) -> (res: Vec<
        (usize, IRInst),
    >)
        requires
            old(self).valid(),
            start <= from <= old(self).source@.len(),
            from > start ==> body@.len() > 0,
            body_calls_within(body_models(body@), old(self).functions@.len() as int),
        ensures
            final(self).follows(*old(self)),
            body_calls_within(body_models(res@), final(self).functions@.len() as int),
            forall|fuel: nat|
                fuel > old(self).left() ==> #[trigger] scanned(
                    old(self).given(),
                    old(self).made(),
                    start as int,
                    from as int,
                    body_models(body@),
                    fuel,
                ) == (final(self).made(), body_models(res@)),
        decreases old(self).left(), 3 + old(self).source@.len() - from,
    {
        if from >= self.source.len() {
            return body;
        }
        let mut body = body;
        let ghost before = body_models(body@);
        if from != start && (self.jump_entries[from] || self.by_start[from].is_some()) {
            let previous: usize = body[body.len() - 1].0;
            let transfer: IRInst = self.fallthrough(from);
            proof {
                lemma_body_calls_grow(
                    before,
                    old(self).functions@.len() as int,
                    self.functions@.len() as int,
                );
            }
            let ghost added = transfer.model();
            body.push((previous, transfer));
            assert(body_models(body@) =~= before.push((previous, added)));
            assert forall|fuel: nat| fuel > old(self).left() implies #[trigger] scanned(
                old(self).given(),
                old(self).made(),
                start as int,
                from as int,
                before,
                fuel,
            ) == (self.made(), body_models(body@)) by {
                let inner = continued(old(self).given(), old(self).made(), from as int, fuel);
                assert(inner == (self.made(), added));
            }
            return body;
        }
        let offset: usize = self.source[from].0;
        let source = self.source;
        assert(from + 1 <= source.len());
        match &source[from].1 {
            t0::IRInst::If(condition, inner) => {
                let then_branch: IRInst = match &**inner {
                    t0::IRInst::Jmp(target) => self.target(target, offset),
                    t0::IRInst::Asgn { dest, src } => self.conditional_move(
                        dest,
                        src,
                        offset,
                        from,
                    ),
                    _ => IRInst::End,
                };
                let ghost middle = *self;
                let ghost then_model = then_branch.model();
                let else_branch: IRInst = self.fallthrough(from + 1);
                let ghost count = self.functions@.len() as int;
                proof {
                    lemma_kept_on(old(self).made(), middle.made(), self.made());
                    lemma_body_calls_grow(before, old(self).functions@.len() as int, count);
                    lemma_calls_grow(then_branch.model(), middle.functions@.len() as int, count);
                }
                let instr = IRInst::If {
                    condition: lift_expr(condition),
                    then_branch: Box::new(then_branch),
                    else_branch: Box::new(else_branch),
                };
                let ghost added = instr.model();
                body.push((offset, instr));
                assert(body_models(body@) =~= before.push((offset, added)));
                assert forall|fuel: nat| fuel > old(self).left() implies #[trigger] scanned(
                    old(self).given(),
                    old(self).made(),
                    start as int,
                    from as int,
                    before,
                    fuel,
                ) == (self.made(), body_models(body@)) by {
                    let given = old(self).given();
                    let last = continued(given, middle.made(), from + 1, fuel);
                    assert(last.0 == self.made());
                    match **inner {
                        t0::IRInst::Jmp(target) => {
                            let first = targeted(given, old(self).made(), target, offset, fuel);
                            assert(first == (middle.made(), then_model));
                        },
                        t0::IRInst::Asgn { .. } => {
                            let first = continued(given, old(self).made(), from + 1, fuel);
                            assert(first.0.starts == middle.made().starts);
                        },
                        _ => {},
                    }
                    assert(scanned(
                        given,
                        old(self).made(),
                        start as int,
                        from as int,
                        before,
                        fuel,
                    ).0 == self.made());
                }
                body
            },
            t0::IRInst::Jmp(target) => {
                let transfer: IRInst = self.target(target, offset);
                proof {
                    lemma_body_calls_grow(
                        before,
                        old(self).functions@.len() as int,
                        self.functions@.len() as int,
                    );
                }
                let ghost added = transfer.model();
                body.push((offset, transfer));
                assert(body_models(body@) =~= before.push((offset, added)));
                assert forall|fuel: nat| fuel > old(self).left() implies #[trigger] scanned(
                    old(self).given(),
                    old(self).made(),
                    start as int,
                    from as int,
                    before,
                    fuel,
                ) == (self.made(), body_models(body@)) by {
                    let inner = targeted(
                        old(self).given(),
                        old(self).made(),
                        *target,
                        offset,
                        fuel,
                    );
                    assert(inner == (self.made(), added));
                }
                body
            },
            t0::IRInst::Ret(value) => {
                let instr = IRInst::Return(
                    match value {
                        Some(value) => Some(lift_expr(value)),
                        None => None,
                    },
                );
                let ghost added = instr.model();
                body.push((offset, instr));
                assert(body_models(body@) =~= before.push((offset, added)));
                body
            },
            t0::IRInst::Asgn { dest, src } => {
                let instr = IRInst::Assign { dest: lift_expr(dest), src: lift_expr(src) };
                let ghost added = instr.model();
                body.push((offset, instr));
                assert(body_models(body@) =~= before.push((offset, added)));
                let ghost next = body_models(body@);
                let res = self.scan(start, from + 1, body);
                assert forall|fuel: nat| fuel > old(self).left() implies #[trigger] scanned(
                    old(self).given(),
                    old(self).made(),
                    start as int,
                    from as int,
                    before,
                    fuel,
                ) == (self.made(), body_models(res@)) by {
                    assert(scanned(
                        old(self).given(),
                        old(self).made(),
                        start as int,
                        from + 1,
                        next,
                        fuel,
                    ) == (self.made(), body_models(res@)));
                }
                res
            },
            t0::IRInst::SetFlagsFrom(flags, expr) => {
                let instr = IRInst::SetFlagsFrom {
                    flags: lift_flags(*flags),
                    expr: lift_expr(expr),
                };
                let ghost added = instr.model();
                body.push((offset, instr));
                assert(body_models(body@) =~= before.push((offset, added)));
                let ghost next = body_models(body@);
                let res = self.scan(start, from + 1, body);
                assert forall|fuel: nat| fuel > old(self).left() implies #[trigger] scanned(
                    old(self).given(),
                    old(self).made(),
                    start as int,
                    from as int,
                    before,
                    fuel,
                ) == (self.made(), body_models(res@)) by {
                    assert(scanned(
                        old(self).given(),
                        old(self).made(),
                        start as int,
                        from + 1,
                        next,
                        fuel,
                    ) == (self.made(), body_models(res@)));
                }
                res
            },
            t0::IRInst::ClearFlags(flags) => {
                let instr = IRInst::ClearFlags { flags: lift_flags(*flags) };
                let ghost added = instr.model();
                body.push((offset, instr));
                assert(body_models(body@) =~= before.push((offset, added)));
                let ghost next = body_models(body@);
                let res = self.scan(start, from + 1, body);
                assert forall|fuel: nat| fuel > old(self).left() implies #[trigger] scanned(
                    old(self).given(),
                    old(self).made(),
                    start as int,
                    from as int,
                    before,
                    fuel,
                ) == (self.made(), body_models(res@)) by {
                    assert(scanned(
                        old(self).given(),
                        old(self).made(),
                        start as int,
                        from + 1,
                        next,
                        fuel,
                    ) == (self.made(), body_models(res@)));
                }
                res
            },
            t0::IRInst::InvalidateFlags(flags) => {
                let instr = IRInst::InvalidateFlags { flags: lift_flags(*flags) };
                let ghost added = instr.model();
                body.push((offset, instr));
                assert(body_models(body@) =~= before.push((offset, added)));
                let ghost next = body_models(body@);
                let res = self.scan(start, from + 1, body);
                assert forall|fuel: nat| fuel > old(self).left() implies #[trigger] scanned(
                    old(self).given(),
                    old(self).made(),
                    start as int,
                    from as int,
                    before,
                    fuel,
                ) == (self.made(), body_models(res@)) by {
                    assert(scanned(
                        old(self).given(),
                        old(self).made(),
                        start as int,
                        from + 1,
                        next,
                        fuel,
                    ) == (self.made(), body_models(res@)));
                }
                res
            },
        }
    }

    /// A function that assigns and then goes on after the operation at `index`.
    fn conditional_move(
        &mut self,
        dest: &t0::IRExpr,
        src: &t0::IRExpr,
        offset: usize,
        index: usize,
    ) -> (res: IRInst)
        requires
            old(self).valid(),
            index < old(self).source@.len(),
        ensures
            final(self).follows(*old(self)),
            calls_within(res.model(), final(self).functions@.len() as int),
            forall|fuel: nat|
                fuel > old(self).left() ==> ({
                    let (after, continuation) = #[trigger] continued(
                        old(self).given(),
                        old(self).made(),
                        index + 1,
                        fuel,
                    );
                    &&& final(self).made() == (Partitions {
                        starts: after.starts,
                        functions: after.functions.push(
                            empty_function(
                                offset,
                                seq![
                                    (
                                        offset,
                                        InstModel::Assign {
                                            dest: expr_of(*dest),
                                            src: expr_of(*src),
                                        },
                                    ),
                                    (offset, continuation),
                                ],
                            ),
                        ),
                    })
                    &&& res.model() == call_to(after.functions.len() as usize)
                }),
        decreases old(self).left(), 2nat,
    {
        let total: usize = self.source.len();
        assert(index + 1 <= total);
        let continuation: IRInst = self.fallthrough(index + 1);
        let ghost after = *self;
        let ghost transfer = continuation.model();
        let id: usize = self.functions.len();
        let mut body: Vec<(usize, IRInst)> = Vec::new();
        body.push((offset, IRInst::Assign { dest: lift_expr(dest), src: lift_expr(src) }));
        body.push((offset, continuation));
        let ghost lines = seq![
            (offset, InstModel::Assign { dest: expr_of(*dest), src: expr_of(*src) }),
            (offset, transfer),
        ];
        assert(body_models(body@) =~= lines);
        proof {
            lemma_calls_grow(transfer, id as int, id + 1);
            assert(body_calls_within(lines, id + 1));
            lemma_linked_push(function_models(self.functions@), empty_function(offset, lines));
        }
        self.functions.push(
            SyntheticFunction {
                entry_offset: offset,
                parameters: Vec::new(),
                external_flags: FlagSet::new(),
                body,
            },
        );
        proof {
            assert(self.functions@.last().model() == empty_function(offset, lines)) by {
                assert(self.functions@.last().model().parameters =~= Seq::empty());
            }
            assert(function_models(self.functions@) =~= function_models(after.functions@).push(
                empty_function(offset, lines),
            ));
            lemma_pushed(self.given(), after.made(), empty_function(offset, lines));
            lemma_kept_on(old(self).made(), after.made(), self.made());
        }
        let res = IRInst::CallSynthetic {
            function: SyntheticFunctionId { id },
            arguments: Vec::new(),
        };
        assert(res.model() == call_to(id)) by {
            assert(res.model()->arguments =~= Seq::<IRExpr>::empty());
        }
        res
    }
}

/// Splits the operations into functions, the one at their start first.
pub fn partition(source: &Vec<(usize, t0::IRInst)>, entry_address: usize) -> (res: Vec<
    SyntheticFunction,
>)
    requires
        source@.len() > 0,
        is_well_shaped(source@),
    ensures
        function_models(res@) == partitioned(source@, entry_address),
        functions_linked(function_models(res@), res@.len() as int),
        res@.len() > 0,
{
    let mut builder = SyntheticFunctionBuilder::new(source, entry_address);
    let ghost initial = builder;
    let id: usize = builder.function(0);
    proof {
        lemma_all_unstarted(initial.made().starts);
        assert(source@.len() + 1 > initial.left());
        assert(started(initial.given(), initial.made(), 0, source@.len() + 1) == (
            builder.made(),
            id,
        ));
    }
    builder.functions()
}

} // verus!
