//! Remove flag writes that nothing in the same function reads, and record the
//! flags that a function needs from its callers.
use super::ir::{
    body_models, calls_within, function_models, is_linked, lemma_flag_sets_equal, FlagSet,
    FunctionModel, IRExpr, IRInst, InstModel, Program, ProgramModel, SyntheticFunction,
};
use vstd::prelude::*;

verus! {

/// The flags that an expression reads.
pub open spec fn flags_read(expr: IRExpr) -> FlagSet
    decreases expr,
{
    match expr {
        IRExpr::Flag(flag) => FlagSet::none().adding(flag),
        IRExpr::BinOp { lhs, rhs, .. } => flags_read(*lhs).either(flags_read(*rhs)),
        IRExpr::Deref { address, .. } => flags_read(*address),
        IRExpr::ExtractBytes { value, .. } => flags_read(*value),
        IRExpr::ZeroExtend { value, .. } => flags_read(*value),
        IRExpr::SignExtend { value, .. } => flags_read(*value),
        IRExpr::Not(inner) => flags_read(*inner),
        _ => FlagSet::none(),
    }
}

/// The flags that an instruction other than a flag write reads.
pub open spec fn instruction_flags_read(instr: InstModel) -> FlagSet
    decreases instr,
{
    match instr {
        InstModel::Assign { dest, src } => flags_read(dest).either(flags_read(src)),
        InstModel::Return(Some(value)) => flags_read(value),
        InstModel::Jump(target) => flags_read(target),
        InstModel::AssignVariable { value, .. } => flags_read(value),
        InstModel::If { condition, then_branch, else_branch } => flags_read(condition).either(
            instruction_flags_read(*then_branch),
        ).either(instruction_flags_read(*else_branch)),
        _ => FlagSet::none(),
    }
}

fn read_expr(expr: &IRExpr, live: &mut FlagSet)
    ensures
        *final(live) == old(live).either(flags_read(*expr)),
    decreases expr,
{
    match expr {
        IRExpr::Flag(flag) => {
            *live = live.with(*flag);
        },
        IRExpr::BinOp { lhs, rhs, .. } => {
            read_expr(lhs, live);
            read_expr(rhs, live);
        },
        IRExpr::Deref { address: inner, .. } => {
            read_expr(inner, live);
        },
        IRExpr::ExtractBytes { value: inner, .. } => {
            read_expr(inner, live);
        },
        IRExpr::ZeroExtend { value: inner, .. } => {
            read_expr(inner, live);
        },
        IRExpr::SignExtend { value: inner, .. } => {
            read_expr(inner, live);
        },
        IRExpr::Not(inner) => {
            read_expr(inner, live);
        },
        _ => {},
    }
    proof {
        lemma_flag_sets_equal(*live, old(live).either(flags_read(*expr)));
    }
}

fn read_inst(instr: &IRInst, live: &mut FlagSet)
    ensures
        *final(live) == old(live).either(instruction_flags_read(instr.model())),
    decreases instr,
{
    match instr {
        IRInst::Assign { dest, src } => {
            read_expr(dest, live);
            read_expr(src, live);
        },
        IRInst::Return(Some(value)) => {
            read_expr(value, live);
        },
        IRInst::Jump(target) => {
            read_expr(target, live);
        },
        IRInst::AssignVariable { value, .. } => {
            read_expr(value, live);
        },
        IRInst::If { condition, then_branch, else_branch } => {
            read_expr(condition, live);
            read_inst(then_branch, live);
            read_inst(else_branch, live);
        },
        _ => {},
    }
    proof {
        lemma_flag_sets_equal(*live, old(live).either(instruction_flags_read(instr.model())));
    }
}

/// What is left of the end of a body, and the flags that it needs from before.
#[verifier::ext_equal]
pub struct Pruned {
    pub kept: Seq<(usize, InstModel)>,
    pub live: FlagSet,
}

/// The instruction put in front of what is left after it. A flag write keeps the
/// flags that are needed, and satisfies them.
pub open spec fn put_before(offset: usize, instr: InstModel, after: Pruned) -> Pruned {
    let front = |kept: InstModel, live: FlagSet|
        Pruned { kept: seq![(offset, kept)] + after.kept, live };
    match instr {
        InstModel::SetFlagsFrom { flags, expr } => {
            let needed = flags.both(after.live);
            let left = after.live.without(flags);
            if needed == FlagSet::none() {
                Pruned { kept: after.kept, live: left }
            } else {
                front(
                    InstModel::SetFlagsFrom { flags: needed, expr },
                    left.either(flags_read(expr)),
                )
            }
        },
        InstModel::ClearFlags { flags } => {
            let needed = flags.both(after.live);
            let left = after.live.without(flags);
            if needed == FlagSet::none() {
                Pruned { kept: after.kept, live: left }
            } else {
                front(InstModel::ClearFlags { flags: needed }, left)
            }
        },
        InstModel::InvalidateFlags { flags } => {
            let needed = flags.both(after.live);
            let left = after.live.without(flags);
            if needed == FlagSet::none() {
                Pruned { kept: after.kept, live: left }
            } else {
                front(InstModel::InvalidateFlags { flags: needed }, left)
            }
        },
        InstModel::Assign { dest: IRExpr::Flag(flag), src } => if after.live.has(flag) {
            front(
                instr,
                after.live.without(FlagSet::none().adding(flag)).either(flags_read(src)),
            )
        } else {
            after
        },
        _ => front(instr, after.live.either(instruction_flags_read(instr))),
    }
}

/// A body without the flag writes that nothing after them reads.
pub open spec fn pruned_body(body: Seq<(usize, InstModel)>) -> Pruned
    decreases body.len(),
{
    if body.len() == 0 {
        Pruned { kept: Seq::empty(), live: FlagSet::none() }
    } else {
        put_before(
            body[0].0,
            body[0].1,
            pruned_body(body.subrange(1, body.len() as int)),
        )
    }
}

pub open spec fn pruned_function(function: FunctionModel) -> FunctionModel {
    FunctionModel {
        body: pruned_body(function.body).kept,
        external_flags: pruned_body(function.body).live,
        ..function
    }
}

pub open spec fn pruned(program: ProgramModel) -> ProgramModel {
    ProgramModel {
        functions: program.functions.map_values(|f: FunctionModel| pruned_function(f)),
        ..program
    }
}

/// Whether no function that an instruction calls needs flags from its caller.
pub open spec fn calls_need_no_flags(instr: InstModel, functions: Seq<FunctionModel>) -> bool
    decreases instr,
{
    match instr {
        InstModel::CallSynthetic { function, .. } => functions[function.id as int].external_flags
            == FlagSet::none(),
        InstModel::If { then_branch, else_branch, .. } => calls_need_no_flags(
            *then_branch,
            functions,
        ) && calls_need_no_flags(*else_branch, functions),
        _ => true,
    }
}

pub open spec fn body_needs_no_flags(
    body: Seq<(usize, InstModel)>,
    functions: Seq<FunctionModel>,
) -> bool {
    forall|i: int| 0 <= i < body.len() ==> calls_need_no_flags((#[trigger] body[i]).1, functions)
}

/// Whether no called function of a program needs flags from its caller.
pub open spec fn flags_are_local(functions: Seq<FunctionModel>) -> bool {
    forall|i: int|
        0 <= i < functions.len() ==> body_needs_no_flags((#[trigger] functions[i]).body, functions)
}

/// Puts an instruction before what is left after it.
fn prepend(
    kept: &mut Vec<(usize, IRInst)>,
    live: &mut FlagSet,
    offset: usize,
    instr: &IRInst,
)
    ensures
        (Pruned { kept: body_models(final(kept)@), live: *final(live) }) == put_before(
            offset,
            instr.model(),
            Pruned { kept: body_models(old(kept)@), live: *old(live) },
        ),
{
    let ghost before = Pruned { kept: body_models(kept@), live: *live };
    let front: Option<IRInst> = match instr {
        IRInst::SetFlagsFrom { flags, expr } => {
            let needed = flags.intersection(live);
            *live = live.difference(flags);
            if needed.is_empty() {
                None
            } else {
                read_expr(expr, live);
                Some(IRInst::SetFlagsFrom { flags: needed, expr: expr.clone() })
            }
        },
        IRInst::ClearFlags { flags } => {
            let needed = flags.intersection(live);
            *live = live.difference(flags);
            if needed.is_empty() {
                None
            } else {
                Some(IRInst::ClearFlags { flags: needed })
            }
        },
        IRInst::InvalidateFlags { flags } => {
            let needed = flags.intersection(live);
            *live = live.difference(flags);
            if needed.is_empty() {
                None
            } else {
                Some(IRInst::InvalidateFlags { flags: needed })
            }
        },
        IRInst::Assign { dest: IRExpr::Flag(flag), src } => {
            if live.contains(*flag) {
                *live = live.difference(&FlagSet::new().with(*flag));
                read_expr(src, live);
                Some(instr.clone())
            } else {
                None
            }
        },
        _ => {
            read_inst(instr, live);
            Some(instr.clone())
        },
    };
    if let Some(front) = front {
        let ghost model = front.model();
        kept.insert(0, (offset, front));
        assert(body_models(kept@) =~= seq![(offset, model)] + before.kept);
    }
    assert((Pruned { kept: body_models(kept@), live: *live }) =~= put_before(
        offset,
        instr.model(),
        before,
    ));
}

fn prune_function(function: &mut SyntheticFunction)
    ensures
        final(function).model() == pruned_function(old(function).model()),
{
    let ghost all = body_models(function.body@);
    let total: usize = function.body.len();
    let mut kept: Vec<(usize, IRInst)> = Vec::new();
    let mut live = FlagSet::new();
    let mut from: usize = total;
    assert(body_models(kept@) =~= pruned_body(all.subrange(total as int, total as int)).kept);
    while from > 0
        invariant
            from <= total,
            total == function.body@.len(),
            function == old(function),
            all == body_models(function.body@),
            (Pruned { kept: body_models(kept@), live }) == pruned_body(
                all.subrange(from as int, total as int),
            ),
        decreases from,
    {
        from = from - 1;
        let ghost suffix = all.subrange(from as int, total as int);
        assert(suffix.subrange(1, suffix.len() as int) =~= all.subrange(from + 1, total as int));
        assert(suffix[0] == (function.body@[from as int].0, function.body@[from as int].1.model()));
        prepend(&mut kept, &mut live, function.body[from].0, &function.body[from].1);
    }
    assert(all.subrange(0, total as int) =~= all);
    function.body = kept;
    function.external_flags = live;
}

fn check_calls(instr: &IRInst, functions: &Vec<SyntheticFunction>) -> (res: bool)
    requires
        calls_within(instr.model(), functions@.len() as int),
    ensures
        res == calls_need_no_flags(instr.model(), function_models(functions@)),
    decreases instr,
{
    match instr {
        IRInst::CallSynthetic { function, .. } => {
            assert(function_models(functions@)[function.id as int]
                == functions@[function.id as int].model());
            functions[function.id].external_flags.is_empty()
        },
        IRInst::If { then_branch, else_branch, .. } => check_calls(then_branch, functions)
            && check_calls(else_branch, functions),
        _ => true,
    }
}

/// Whether no called function of a program needs flags from its caller.
pub fn has_local_flags(program: &Program) -> (res: bool)
    requires
        is_linked(program.model()),
    ensures
        res == flags_are_local(program.model().functions),
{
    let ghost models = function_models(program.functions@);
    let mut i: usize = 0;
    while i < program.functions.len()
        invariant
            i <= program.functions@.len(),
            is_linked(program.model()),
            models == function_models(program.functions@),
            forall|k: int|
                0 <= k < i ==> body_needs_no_flags((#[trigger] models[k]).body, models),
        decreases program.functions@.len() - i,
    {
        let body = &program.functions[i].body;
        assert(models[i as int].body == body_models(body@));
        let mut j: usize = 0;
        while j < body.len()
            invariant
                i < program.functions@.len(),
                j <= body@.len(),
                is_linked(program.model()),
                models == function_models(program.functions@),
                models[i as int].body == body_models(body@),
                forall|k: int|
                    0 <= k < j ==> calls_need_no_flags(
                        (#[trigger] models[i as int].body[k]).1,
                        models,
                    ),
            decreases body@.len() - j,
        {
            assert(models[i as int].body[j as int].1 == body@[j as int].1.model());
            assert(calls_within(models[i as int].body[j as int].1, models.len() as int));
            if !check_calls(&body[j].1, &program.functions) {
                assert(!body_needs_no_flags(models[i as int].body, models));
                return false;
            }
            j = j + 1;
        }
        i = i + 1;
    }
    true
}

/// Removes the flag writes that nothing reads. No called function may then need
/// flags from its caller.
pub fn tr(program: Program) -> (res: Program)
    requires
        is_linked(program.model()),
        flags_are_local(pruned(program.model()).functions),
    ensures
        res.model() == pruned(program.model()),
{
    prune(program)
}

/// Removes the flag writes that nothing reads.
pub fn prune(program: Program) -> (res: Program)
    ensures
        res.model() == pruned(program.model()),
{
    let ghost before = function_models(program.functions@);
    let mut program = program;
    let ghost initial = program;
    let total: usize = program.functions.len();
    let mut i: usize = 0;
    while i < total
        invariant
            i <= total,
            total == program.functions@.len(),
            total == before.len(),
            program.entry_address == initial.entry_address,
            program.entry == initial.entry,
            program.stack_widths == initial.stack_widths,
            forall|k: int|
                0 <= k < i ==> (#[trigger] program.functions@[k]).model() == pruned_function(
                    before[k],
                ),
            forall|k: int|
                i <= k < total ==> (#[trigger] program.functions@[k]).model() == before[k],
        decreases total - i,
    {
        prune_function(&mut program.functions[i]);
        i = i + 1;
    }
    assert(function_models(program.functions@) =~= before.map_values(
        |f: FunctionModel| pruned_function(f),
    ));
    program
}

// ---------------------------------------------------------------------------
// Laws

/// Pruning again changes nothing.
pub proof fn law_pruning_is_idempotent(body: Seq<(usize, InstModel)>)
    ensures
        pruned_body(pruned_body(body).kept) == pruned_body(body),
    decreases body.len(),
{
    if body.len() > 0 {
        let rest = body.subrange(1, body.len() as int);
        law_pruning_is_idempotent(rest);
        let after = pruned_body(rest);
        let whole = pruned_body(body);
        if whole.kept != after.kept {
            assert(whole.kept.subrange(1, whole.kept.len() as int) =~= after.kept);
        }
        match body[0].1 {
            InstModel::SetFlagsFrom { flags, expr } => {
                lemma_needed_again(flags, after.live);
            },
            InstModel::ClearFlags { flags } => {
                lemma_needed_again(flags, after.live);
            },
            InstModel::InvalidateFlags { flags } => {
                lemma_needed_again(flags, after.live);
            },
            _ => {},
        }
        lemma_kept_live(body[0].0, body[0].1, after);
        assert(pruned_body(whole.kept) =~= whole);
    }
}

proof fn lemma_needed_again(flags: FlagSet, live: FlagSet)
    ensures
        flags.both(live).both(live) == flags.both(live),
        live.without(flags.both(live)) == live.without(flags),
        flags.both(live) == FlagSet::none() ==> live.without(flags) == live,
{
    lemma_flag_sets_equal(flags.both(live).both(live), flags.both(live));
    lemma_flag_sets_equal(live.without(flags.both(live)), live.without(flags));
    if flags.both(live) == FlagSet::none() {
        assert forall|f: super::ir::NativeFlag| live.without(flags).has(f) == live.has(f) by {
            assert(flags.both(live).has(f) == FlagSet::none().has(f));
        }
        lemma_flag_sets_equal(live.without(flags), live);
    }
}

proof fn lemma_kept_live(offset: usize, instr: InstModel, after: Pruned)
    ensures
        put_before(offset, instr, after).kept == after.kept ==> put_before(offset, instr, after)
            == after,
{
    let result = put_before(offset, instr, after);
    if result.kept == after.kept {
        match instr {
            InstModel::SetFlagsFrom { flags, .. } => {
                lemma_needed_again(flags, after.live);
            },
            InstModel::ClearFlags { flags } => {
                lemma_needed_again(flags, after.live);
            },
            InstModel::InvalidateFlags { flags } => {
                lemma_needed_again(flags, after.live);
            },
            _ => {},
        }
        assert(result.kept.len() == after.kept.len());
        assert(result =~= after);
    }
}

} // verus!
