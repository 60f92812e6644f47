//! Branch conditions as boolean variables in place of flags.
use super::ir::{
    body_models, IRBinOpKind, IRExpr, IRInst, InstModel, NativeFlag, SyntheticFunctionId,
    VariableId, VariableType,
};
use vstd::prelude::*;

verus! {

/// The flags of an expression added to a list, each once, in reading order.
pub open spec fn with_flags(expr: IRExpr, flags: Seq<NativeFlag>) -> Seq<NativeFlag>
    decreases expr,
{
    match expr {
        IRExpr::Flag(flag) => if flags.contains(flag) {
            flags
        } else {
            flags.push(flag)
        },
        IRExpr::BinOp { lhs, rhs, .. } => with_flags(*rhs, with_flags(*lhs, flags)),
        IRExpr::Deref { address, .. } => with_flags(*address, flags),
        IRExpr::ExtractBytes { value, .. } => with_flags(*value, flags),
        IRExpr::ZeroExtend { value, .. } => with_flags(*value, flags),
        IRExpr::SignExtend { value, .. } => with_flags(*value, flags),
        IRExpr::Not(inner) => with_flags(*inner, flags),
        _ => flags,
    }
}

fn list_contains(flags: &Vec<NativeFlag>, flag: NativeFlag) -> (res: bool)
    ensures
        res == flags@.contains(flag),
{
    let mut i: usize = 0;
    while i < flags.len()
        invariant
            i <= flags@.len(),
            forall|k: int| 0 <= k < i ==> flags@[k] != flag,
        decreases flags@.len() - i,
    {
        if flags[i] == flag {
            assert(flags@[i as int] == flag);
            return true;
        }
        i = i + 1;
    }
    false
}

fn condition_flags(expr: &IRExpr, flags: &mut Vec<NativeFlag>)
    ensures
        final(flags)@ == with_flags(*expr, old(flags)@),
    decreases expr,
{
    match expr {
        IRExpr::Flag(flag) => {
            if !list_contains(flags, *flag) {
                flags.push(*flag);
            }
        },
        IRExpr::BinOp { lhs, rhs, .. } => {
            condition_flags(lhs, flags);
            condition_flags(rhs, flags);
        },
        IRExpr::Deref { address: inner, .. } => {
            condition_flags(inner, flags);
        },
        IRExpr::ExtractBytes { value: inner, .. } => {
            condition_flags(inner, flags);
        },
        IRExpr::ZeroExtend { value: inner, .. } => {
            condition_flags(inner, flags);
        },
        IRExpr::SignExtend { value: inner, .. } => {
            condition_flags(inner, flags);
        },
        IRExpr::Not(inner) => {
            condition_flags(inner, flags);
        },
        _ => {},
    }
}

/// The flags that the branch conditions of a body read.
pub open spec fn branch_flags(body: Seq<(usize, InstModel)>) -> Seq<NativeFlag>
    decreases body.len(),
{
    if body.len() == 0 {
        Seq::empty()
    } else {
        let before = branch_flags(body.drop_last());
        match body.last().1 {
            InstModel::If { condition, .. } => with_flags(condition, before),
            _ => before,
        }
    }
}

fn collect_flags(body: &Vec<(usize, IRInst)>) -> (res: Vec<NativeFlag>)
    ensures
        res@ == branch_flags(body_models(body@)),
{
    let ghost all = body_models(body@);
    let mut flags: Vec<NativeFlag> = Vec::new();
    let mut i: usize = 0;
    assert(all.subrange(0, 0) =~= Seq::<(usize, InstModel)>::empty());
    while i < body.len()
        invariant
            i <= body@.len(),
            all == body_models(body@),
            flags@ == branch_flags(all.subrange(0, i as int)),
        decreases body@.len() - i,
    {
        let ghost prefix = all.subrange(0, i + 1);
        assert(prefix.drop_last() =~= all.subrange(0, i as int));
        assert(prefix.last() == (body@[i as int].0, body@[i as int].1.model()));
        if let IRInst::If { condition, .. } = &body[i].1 {
            condition_flags(condition, &mut flags);
        }
        i = i + 1;
    }
    assert(all.subrange(0, i as int) =~= all);
    flags
}

/// Whether an instruction writes the flag.
pub open spec fn writes_flag(instr: InstModel, flag: NativeFlag) -> bool {
    match instr {
        InstModel::SetFlagsFrom { flags, .. } => flags.has(flag),
        InstModel::ClearFlags { flags } => flags.has(flag),
        InstModel::InvalidateFlags { flags } => flags.has(flag),
        InstModel::Assign { dest: IRExpr::Flag(written), .. } => written == flag,
        _ => false,
    }
}

/// The last of the first `count` instructions that writes the flag.
pub open spec fn last_write(body: Seq<(usize, InstModel)>, flag: NativeFlag, count: int) -> Option<
    int,
>
    decreases count,
{
    if count <= 0 || count > body.len() {
        None
    } else if writes_flag(body[count - 1].1, flag) {
        Some(count - 1)
    } else {
        last_write(body, flag, count - 1)
    }
}

fn instruction_writes(instr: &IRInst, flag: NativeFlag) -> (res: bool)
    ensures
        res == writes_flag(instr.model(), flag),
{
    match instr {
        IRInst::SetFlagsFrom { flags, .. } => flags.contains(flag),
        IRInst::ClearFlags { flags } => flags.contains(flag),
        IRInst::InvalidateFlags { flags } => flags.contains(flag),
        IRInst::Assign { dest: IRExpr::Flag(written), .. } => *written == flag,
        _ => false,
    }
}

fn find_last_write(body: &Vec<(usize, IRInst)>, flag: NativeFlag) -> (res: Option<usize>)
    ensures
        match (res, last_write(body_models(body@), flag, body@.len() as int)) {
            (Some(index), Some(model)) => index == model && index < body@.len(),
            (None, None) => true,
            _ => false,
        },
{
    let ghost all = body_models(body@);
    let mut count: usize = body.len();
    while count > 0
        invariant
            count <= body@.len(),
            all == body_models(body@),
            last_write(all, flag, body@.len() as int) == last_write(all, flag, count as int),
        decreases count,
    {
        assert(all[count - 1].1 == body@[count - 1].1.model());
        if instruction_writes(&body[count - 1].1, flag) {
            return Some(count - 1);
        }
        count = count - 1;
    }
    None
}

/// The variable that holds the flag: the flags are numbered in reading order.
pub open spec fn slot_of(
    function: SyntheticFunctionId,
    flags: Seq<NativeFlag>,
    flag: NativeFlag,
) -> VariableId {
    VariableId { owner: function, id: flags.index_of(flag) as usize }
}

fn slot(function: SyntheticFunctionId, flags: &Vec<NativeFlag>, flag: NativeFlag) -> (res:
    VariableId)
    requires
        flags@.no_duplicates(),
        flags@.contains(flag),
    ensures
        res == slot_of(function, flags@, flag),
{
    let mut i: usize = 0;
    while i < flags.len()
        invariant
            i <= flags@.len(),
            flags@.no_duplicates(),
            flags@.contains(flag),
            forall|k: int| 0 <= k < i ==> flags@[k] != flag,
        decreases flags@.len() - i,
    {
        if flags[i] == flag {
            assert(flags@.index_of(flag) == i);
            return VariableId { owner: function, id: i };
        }
        i = i + 1;
    }
    VariableId { owner: function, id: 0 }
}

proof fn lemma_with_flags(expr: IRExpr, flags: Seq<NativeFlag>)
    requires
        flags.no_duplicates(),
    ensures
        with_flags(expr, flags).no_duplicates(),
        forall|f: NativeFlag| flags.contains(f) ==> #[trigger] with_flags(expr, flags).contains(f),
    decreases expr,
{
    match expr {
        IRExpr::Flag(flag) => {
            if !flags.contains(flag) {
                let after = flags.push(flag);
                assert forall|f: NativeFlag| flags.contains(f) implies #[trigger] after.contains(
                    f,
                ) by {
                    let k = choose|k: int| 0 <= k < flags.len() && flags[k] == f;
                    assert(after[k] == f);
                }
            }
        },
        IRExpr::BinOp { lhs, rhs, .. } => {
            lemma_with_flags(*lhs, flags);
            lemma_with_flags(*rhs, with_flags(*lhs, flags));
        },
        IRExpr::Deref { address: inner, .. }
        | IRExpr::ExtractBytes { value: inner, .. }
        | IRExpr::ZeroExtend { value: inner, .. }
        | IRExpr::SignExtend { value: inner, .. }
        | IRExpr::Not(inner) => {
            lemma_with_flags(*inner, flags);
        },
        _ => {},
    }
}

proof fn lemma_branch_flags(body: Seq<(usize, InstModel)>)
    ensures
        branch_flags(body).no_duplicates(),
    decreases body.len(),
{
    if body.len() > 0 {
        lemma_branch_flags(body.drop_last());
        if let InstModel::If { condition, .. } = body.last().1 {
            lemma_with_flags(condition, branch_flags(body.drop_last()));
        }
    }
}

// ---------------------------------------------------------------------------
// Conditions

/// The test that a flag has the expected value.
pub open spec fn tested_flag(slot: VariableId, expected: u8) -> Option<IRExpr> {
    if expected == 1 {
        Some(IRExpr::Variable(slot))
    } else if expected == 0 {
        Some(IRExpr::Not(Box::new(IRExpr::Variable(slot))))
    } else {
        None
    }
}

fn flag_test(slot: VariableId, expected: u8) -> (res: Option<IRExpr>)
    ensures
        res == tested_flag(slot, expected),
{
    if expected == 1 {
        Some(IRExpr::Variable(slot))
    } else if expected == 0 {
        Some(IRExpr::Not(Box::new(IRExpr::Variable(slot))))
    } else {
        None
    }
}

/// A condition with variables in place of flags. A flag can be read on its own,
/// compared with zero or one, and combined; nothing else is supported.
pub open spec fn condition_of(
    expr: IRExpr,
    function: SyntheticFunctionId,
    flags: Seq<NativeFlag>,
) -> Option<IRExpr>
    decreases expr,
{
    match expr {
        IRExpr::Flag(flag) => if flags.contains(flag) {
            Some(IRExpr::Variable(slot_of(function, flags, flag)))
        } else {
            None
        },
        IRExpr::BinOp { kind, lhs, rhs } => if kind == IRBinOpKind::Eq {
            match (*lhs, *rhs) {
                (IRExpr::Flag(flag), IRExpr::CU8(value)) => if flags.contains(flag) {
                    tested_flag(slot_of(function, flags, flag), value)
                } else {
                    None
                },
                (IRExpr::CU8(value), IRExpr::Flag(flag)) => if flags.contains(flag) {
                    tested_flag(slot_of(function, flags, flag), value)
                } else {
                    None
                },
                _ => both_conditions(
                    kind,
                    condition_of(*lhs, function, flags),
                    condition_of(*rhs, function, flags),
                ),
            }
        } else if kind == IRBinOpKind::Or {
            both_conditions(
                kind,
                condition_of(*lhs, function, flags),
                condition_of(*rhs, function, flags),
            )
        } else {
            plain_condition(expr)
        },
        _ => plain_condition(expr),
    }
}

pub open spec fn both_conditions(
    kind: IRBinOpKind,
    lhs: Option<IRExpr>,
    rhs: Option<IRExpr>,
) -> Option<IRExpr> {
    match (lhs, rhs) {
        (Some(lhs), Some(rhs)) => Some(
            IRExpr::BinOp { kind, lhs: Box::new(lhs), rhs: Box::new(rhs) },
        ),
        _ => None,
    }
}

/// An expression without flags stays as it is.
pub open spec fn plain_condition(expr: IRExpr) -> Option<IRExpr> {
    if with_flags(expr, Seq::empty()).len() == 0 {
        Some(expr)
    } else {
        None
    }
}

fn lift_condition(
    expr: &IRExpr,
    function: SyntheticFunctionId,
    flags: &Vec<NativeFlag>,
) -> (res: Option<IRExpr>)
    requires
        flags@.no_duplicates(),
    ensures
        res == condition_of(*expr, function, flags@),
    decreases expr,
{
    match expr {
        IRExpr::Flag(flag) => {
            if list_contains(flags, *flag) {
                return Some(IRExpr::Variable(slot(function, flags, *flag)));
            }
            None
        },
        IRExpr::BinOp { kind, lhs, rhs } => {
            if *kind == IRBinOpKind::Eq {
                match (&**lhs, &**rhs) {
                    (IRExpr::Flag(flag), IRExpr::CU8(value)) => {
                        if list_contains(flags, *flag) {
                            return flag_test(slot(function, flags, *flag), *value);
                        }
                        return None;
                    },
                    (IRExpr::CU8(value), IRExpr::Flag(flag)) => {
                        if list_contains(flags, *flag) {
                            return flag_test(slot(function, flags, *flag), *value);
                        }
                        return None;
                    },
                    _ => {},
                }
            }
            if *kind == IRBinOpKind::Eq || *kind == IRBinOpKind::Or {
                return match (
                    lift_condition(lhs, function, flags),
                    lift_condition(rhs, function, flags),
                ) {
                    (Some(lhs), Some(rhs)) => Some(
                        IRExpr::BinOp { kind: *kind, lhs: Box::new(lhs), rhs: Box::new(rhs) },
                    ),
                    _ => None,
                };
            }
            without_flags(expr)
        },
        _ => without_flags(expr),
    }
}

fn without_flags(expr: &IRExpr) -> (res: Option<IRExpr>)
    ensures
        res == plain_condition(*expr),
{
    let mut found: Vec<NativeFlag> = Vec::new();
    condition_flags(expr, &mut found);
    if found.len() == 0 {
        Some(expr.clone())
    } else {
        None
    }
}

/// The value of a flag after the operation whose result is the expression. The
/// zero flag is set by a zero result; the carry by a borrow, or by a sum that
/// is less than its first operand. No other flag can be expressed.
pub open spec fn value_of_flag(flag: NativeFlag, expr: IRExpr) -> Option<IRExpr> {
    match flag {
        NativeFlag::Zero => Some(
            IRExpr::BinOp {
                kind: IRBinOpKind::Eq,
                lhs: Box::new(expr),
                rhs: Box::new(IRExpr::CU8(0)),
            },
        ),
        NativeFlag::Carry => match expr {
            IRExpr::BinOp { kind: IRBinOpKind::Sub, lhs, rhs } => Some(
                IRExpr::BinOp { kind: IRBinOpKind::UnsignedLt, lhs, rhs },
            ),
            IRExpr::BinOp { kind: IRBinOpKind::Add, lhs, .. } => Some(
                IRExpr::BinOp { kind: IRBinOpKind::UnsignedLt, lhs: Box::new(expr), rhs: lhs },
            ),
            _ => None,
        },
        _ => None,
    }
}

fn flag_value(flag: NativeFlag, expr: &IRExpr) -> (res: Option<IRExpr>)
    ensures
        res == value_of_flag(flag, *expr),
{
    match flag {
        NativeFlag::Zero => Some(
            IRExpr::BinOp {
                kind: IRBinOpKind::Eq,
                lhs: Box::new(expr.clone()),
                rhs: Box::new(IRExpr::CU8(0)),
            },
        ),
        NativeFlag::Carry => match expr {
            IRExpr::BinOp { kind: IRBinOpKind::Sub, lhs, rhs } => Some(
                IRExpr::BinOp {
                    kind: IRBinOpKind::UnsignedLt,
                    lhs: Box::new((**lhs).clone()),
                    rhs: Box::new((**rhs).clone()),
                },
            ),
            IRExpr::BinOp { kind: IRBinOpKind::Add, lhs, .. } => Some(
                IRExpr::BinOp {
                    kind: IRBinOpKind::UnsignedLt,
                    lhs: Box::new(expr.clone()),
                    rhs: Box::new((**lhs).clone()),
                },
            ),
            _ => None,
        },
        _ => None,
    }
}

/// A sum carries exactly where it comes out less than its first operand.
pub proof fn law_carry_of_a_sum(left: nat, right: nat, modulus: nat)
    requires
        left < modulus,
        right < modulus,
    ensures
        (left + right >= modulus) == ((left + right) % modulus < left),
{
    if left + right >= modulus {
        vstd::arithmetic::div_mod::lemma_fundamental_div_mod_converse(
            (left + right) as int,
            modulus as int,
            1,
            left + right - modulus,
        );
    } else {
        vstd::arithmetic::div_mod::lemma_small_mod(left + right, modulus);
    }
}

// ---------------------------------------------------------------------------
// Bodies

/// The value that the instruction gives the flag that it writes. An undefined
/// flag has none.
pub open spec fn written_value(instr: InstModel, flag: NativeFlag) -> Option<IRExpr> {
    match instr {
        InstModel::Assign { src, .. } => Some(src),
        InstModel::SetFlagsFrom { expr, .. } => value_of_flag(flag, expr),
        InstModel::ClearFlags { .. } => Some(IRExpr::Bool(false)),
        _ => None,
    }
}

/// The assignments of the first `count` flags whose source is the instruction at
/// `index`.
pub open spec fn assignments(
    body: Seq<(usize, InstModel)>,
    function: SyntheticFunctionId,
    flags: Seq<NativeFlag>,
    index: int,
    count: int,
) -> Option<Seq<(usize, InstModel)>>
    decreases count,
{
    if count <= 0 {
        Some(Seq::empty())
    } else {
        let flag = flags[count - 1];
        match assignments(body, function, flags, index, count - 1) {
            None => None,
            Some(before) => if last_write(body, flag, body.len() as int) == Some(index) {
                match written_value(body[index].1, flag) {
                    Some(value) => Some(
                        before.push(
                            (
                                body[index].0,
                                InstModel::AssignVariable {
                                    variable: VariableId {
                                        owner: function,
                                        id: (count - 1) as usize,
                                    },
                                    value,
                                },
                            ),
                        ),
                    ),
                    None => None,
                }
            } else {
                Some(before)
            },
        }
    }
}

/// The instruction with its condition lifted.
pub open spec fn with_condition(
    instr: InstModel,
    function: SyntheticFunctionId,
    flags: Seq<NativeFlag>,
) -> Option<InstModel> {
    match instr {
        InstModel::If { condition, then_branch, else_branch } => match condition_of(
            condition,
            function,
            flags,
        ) {
            Some(condition) => Some(InstModel::If { condition, then_branch, else_branch }),
            None => None,
        },
        _ => Some(instr),
    }
}

/// The declarations of the first `count` variables.
pub open spec fn declarations(
    function: SyntheticFunctionId,
    entry_offset: usize,
    count: int,
) -> Seq<
    (usize, InstModel),
>
    decreases count,
{
    if count <= 0 {
        Seq::empty()
    } else {
        declarations(function, entry_offset, count - 1).push(
            (
                entry_offset,
                InstModel::DeclareVariable {
                    variable: VariableId { owner: function, id: (count - 1) as usize },
                    ty: VariableType::Bool,
                },
            ),
        )
    }
}

/// The first `count` instructions, each after the assignments that it is the
/// source of.
pub open spec fn rewritten(
    body: Seq<(usize, InstModel)>,
    function: SyntheticFunctionId,
    flags: Seq<NativeFlag>,
    count: int,
) -> Option<Seq<(usize, InstModel)>>
    decreases count,
{
    if count <= 0 {
        Some(declarations(function, body[0].0, flags.len() as int))
    } else {
        match (
            rewritten(body, function, flags, count - 1),
            assignments(body, function, flags, count - 1, flags.len() as int),
            with_condition(body[count - 1].1, function, flags),
        ) {
            (Some(before), Some(added), Some(instr)) => Some(
                (before + added).push((body[count - 1].0, instr)),
            ),
            _ => None,
        }
    }
}

/// Whether every flag is written in the body.
pub open spec fn all_written(body: Seq<(usize, InstModel)>, flags: Seq<NativeFlag>) -> bool {
    forall|i: int|
        0 <= i < flags.len() ==> last_write(
            body,
            #[trigger] flags[i],
            body.len() as int,
        ) is Some
}

/// The body with boolean variables for the flags that its branches read. There
/// is none where a flag comes from another function, is undefined, or cannot be
/// expressed.
pub open spec fn lifted_body(
    function: SyntheticFunctionId,
    body: Seq<(usize, InstModel)>,
) -> Option<
    Seq<(usize, InstModel)>,
> {
    let flags = branch_flags(body);
    if flags.len() == 0 {
        Some(body)
    } else if !all_written(body, flags) {
        None
    } else {
        rewritten(body, function, flags, body.len() as int)
    }
}

fn value_written(instr: &IRInst, flag: NativeFlag) -> (res: Option<IRExpr>)
    ensures
        res == written_value(instr.model(), flag),
{
    match instr {
        IRInst::Assign { src, .. } => Some(src.clone()),
        IRInst::SetFlagsFrom { expr, .. } => flag_value(flag, expr),
        IRInst::ClearFlags { .. } => Some(IRExpr::Bool(false)),
        _ => None,
    }
}

proof fn lemma_no_assignments(
    body: Seq<(usize, InstModel)>,
    function: SyntheticFunctionId,
    flags: Seq<NativeFlag>,
    index: int,
    small: int,
    count: int,
)
    requires
        small <= count,
        assignments(body, function, flags, index, small) is None,
    ensures
        assignments(body, function, flags, index, count) is None,
    decreases count - small,
{
    if small < count {
        lemma_no_assignments(body, function, flags, index, small, count - 1);
    }
}

proof fn lemma_not_rewritten(
    body: Seq<(usize, InstModel)>,
    function: SyntheticFunctionId,
    flags: Seq<NativeFlag>,
    small: int,
    count: int,
)
    requires
        0 < small <= count,
        rewritten(body, function, flags, small) is None,
    ensures
        rewritten(body, function, flags, count) is None,
    decreases count - small,
{
    if small < count {
        lemma_not_rewritten(body, function, flags, small, count - 1);
    }
}

/// Appends the assignments whose source is the instruction at `index`. Says
/// whether every one of them can be expressed.
fn put_assignments(
    out: &mut Vec<(usize, IRInst)>,
    body: &Vec<(usize, IRInst)>,
    function: SyntheticFunctionId,
    flags: &Vec<NativeFlag>,
    index: usize,
) -> (res: bool)
    requires
        index < body@.len(),
    ensures
        res == (assignments(
            body_models(body@),
            function,
            flags@,
            index as int,
            flags@.len() as int,
        ) is Some),
        res ==> body_models(final(out)@) == body_models(old(out)@) + assignments(
            body_models(body@),
            function,
            flags@,
            index as int,
            flags@.len() as int,
        )->0,
{
    let ghost all = body_models(body@);
    let ghost start = body_models(out@);
    let mut i: usize = 0;
    assert(start + Seq::<(usize, InstModel)>::empty() =~= start);
    while i < flags.len()
        invariant
            index < body@.len(),
            i <= flags@.len(),
            all == body_models(body@),
            assignments(all, function, flags@, index as int, i as int) is Some,
            body_models(out@) == start + assignments(
                all,
                function,
                flags@,
                index as int,
                i as int,
            )->0,
        decreases flags@.len() - i,
    {
        let flag: NativeFlag = flags[i];
        assert(all[index as int] == (body@[index as int].0, body@[index as int].1.model()));
        if let Some(source) = find_last_write(body, flag) {
            if source == index {
                match value_written(&body[index].1, flag) {
                    Some(value) => {
                        let ghost before = body_models(out@);
                        let instr = IRInst::AssignVariable {
                            variable: VariableId { owner: function, id: i },
                            value,
                        };
                        let ghost added = instr.model();
                        out.push((body[index].0, instr));
                        assert(body_models(out@) =~= before.push((body@[index as int].0, added)));
                        assert(body_models(out@) =~= start + assignments(
                            all,
                            function,
                            flags@,
                            index as int,
                            i + 1,
                        )->0);
                    },
                    None => {
                        proof {
                            lemma_no_assignments(
                                all,
                                function,
                                flags@,
                                index as int,
                                i + 1,
                                flags@.len() as int,
                            );
                        }
                        return false;
                    },
                }
            }
        }
        i = i + 1;
    }
    true
}

fn every_flag_written(body: &Vec<(usize, IRInst)>, flags: &Vec<NativeFlag>) -> (res: bool)
    ensures
        res == all_written(body_models(body@), flags@),
{
    let mut i: usize = 0;
    while i < flags.len()
        invariant
            i <= flags@.len(),
            forall|k: int|
                0 <= k < i ==> last_write(
                    body_models(body@),
                    #[trigger] flags@[k],
                    body@.len() as int,
                ) is Some,
        decreases flags@.len() - i,
    {
        if find_last_write(body, flags[i]).is_none() {
            return false;
        }
        i = i + 1;
    }
    true
}

fn clone_body(body: &Vec<(usize, IRInst)>) -> (res: Vec<(usize, IRInst)>)
    ensures
        body_models(res@) == body_models(body@),
{
    let mut res: Vec<(usize, IRInst)> = Vec::new();
    let mut i: usize = 0;
    while i < body.len()
        invariant
            i <= body@.len(),
            res@.len() == i,
            forall|k: int|
                0 <= k < i ==> (#[trigger] res@[k]).0 == body@[k].0 && res@[k].1.model()
                    == body@[k].1.model(),
        decreases body@.len() - i,
    {
        res.push((body[i].0, body[i].1.clone()));
        i = i + 1;
    }
    assert(body_models(res@) =~= body_models(body@));
    res
}

/// Replaces the flags that the branches of a body read by boolean variables,
/// assigned where the body last writes each flag. The branch is terminal, so the
/// last write in this body is its source.
pub fn lift_conditions(function: SyntheticFunctionId, body: &Vec<(usize, IRInst)>) -> (res: Option<
    Vec<(usize, IRInst)>,
>)
    ensures
        match (res, lifted_body(function, body_models(body@))) {
            (Some(lifted), Some(model)) => body_models(lifted@) == model,
            (None, None) => true,
            _ => false,
        },
{
    let ghost all = body_models(body@);
    let flags: Vec<NativeFlag> = collect_flags(body);
    if flags.len() == 0 {
        return Some(clone_body(body));
    }
    proof {
        lemma_branch_flags(all);
        assert(body@.len() > 0) by {
            if body@.len() == 0 {
                assert(all.len() == 0);
            }
        }
    }
    if !every_flag_written(body, &flags) {
        return None;
    }
    let entry_offset: usize = body[0].0;
    assert(all[0].0 == entry_offset);
    let mut lifted: Vec<(usize, IRInst)> = Vec::new();
    let mut k: usize = 0;
    assert(body_models(lifted@) =~= declarations(function, entry_offset, 0));
    while k < flags.len()
        invariant
            k <= flags@.len(),
            body_models(lifted@) == declarations(function, entry_offset, k as int),
        decreases flags@.len() - k,
    {
        let ghost before = body_models(lifted@);
        let instr = IRInst::DeclareVariable {
            variable: VariableId { owner: function, id: k },
            ty: VariableType::Bool,
        };
        let ghost added = instr.model();
        lifted.push((entry_offset, instr));
        k = k + 1;
        assert(body_models(lifted@) =~= before.push((entry_offset, added)));
    }
    let mut index: usize = 0;
    while index < body.len()
        invariant
            index <= body@.len(),
            body@.len() > 0,
            all == body_models(body@),
            flags@ == branch_flags(all),
            flags@.len() > 0,
            all_written(all, flags@),
            flags@.no_duplicates(),
            rewritten(all, function, flags@, index as int) == Some(body_models(lifted@)),
        decreases body@.len() - index,
    {
        assert(all[index as int] == (body@[index as int].0, body@[index as int].1.model()));
        if !put_assignments(&mut lifted, body, function, &flags, index) {
            proof {
                lemma_not_rewritten(all, function, flags@, index + 1, body@.len() as int);
            }
            return None;
        }
        let ghost before = body_models(lifted@);
        let instr: IRInst = match &body[index].1 {
            IRInst::If { condition, then_branch, else_branch } => match lift_condition(
                condition,
                function,
                &flags,
            ) {
                Some(condition) => IRInst::If {
                    condition,
                    then_branch: Box::new((**then_branch).clone()),
                    else_branch: Box::new((**else_branch).clone()),
                },
                None => {
                    proof {
                        lemma_not_rewritten(all, function, flags@, index + 1, body@.len() as int);
                    }
                    return None;
                },
            },
            instr => instr.clone(),
        };
        let ghost added = instr.model();
        lifted.push((body[index].0, instr));
        assert(body_models(lifted@) =~= before.push((body@[index as int].0, added)));
        index = index + 1;
    }
    Some(lifted)
}

} // verus!
