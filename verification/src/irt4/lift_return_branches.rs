//! Turn a returning arm into an early exit and lift the other arm into its block.
use super::ir::{
    body_models, function_models, models, FunctionModel, IRExpr, IRInst, InstModel, Program,
    ProgramModel, SyntheticFunction,
};
use super::walks::{negate, negated};
use vstd::prelude::*;

verus! {

/// How a list of instructions ends.
#[derive(Clone, Copy, Debug, PartialEq, Eq, Structural)]
pub struct Exits {
    pub falls_through: bool,
    pub exits_without_return: bool,
}

/// How an instruction ends, where it does not simply go on. A loop can run
/// forever or leave through a break or continue, so nothing is concluded from it.
pub open spec fn exits_of(instr: InstModel) -> Option<Exits>
    decreases instr,
{
    match instr {
        InstModel::Return(_) => Some(Exits { falls_through: false, exits_without_return: false }),
        InstModel::If { then_branch, else_branch, .. } => {
            let first = exits_of_list(then_branch);
            let second = exits_of_list(else_branch);
            Some(
                Exits {
                    falls_through: first.falls_through || second.falls_through,
                    exits_without_return: first.exits_without_return
                        || second.exits_without_return,
                },
            )
        },
        InstModel::While { .. }
        | InstModel::Break
        | InstModel::Continue
        | InstModel::ContinueLoop(_)
        | InstModel::CallSynthetic { .. }
        | InstModel::Jump(_)
        | InstModel::End => Some(Exits { falls_through: false, exits_without_return: true }),
        _ => None,
    }
}

pub open spec fn exits_of_list(list: Seq<InstModel>) -> Exits
    decreases list,
{
    if list.len() == 0 {
        Exits { falls_through: true, exits_without_return: false }
    } else {
        let before = exits_of_list(list.drop_last());
        match exits_of(list[list.len() - 1]) {
            Some(next) => if before.falls_through {
                Exits {
                    falls_through: next.falls_through,
                    exits_without_return: before.exits_without_return
                        || next.exits_without_return,
                }
            } else {
                before
            },
            None => before,
        }
    }
}

fn instruction_exits(instr: &IRInst) -> (res: Option<Exits>)
    ensures
        res == exits_of(instr.model()),
    decreases instr,
{
    match instr {
        IRInst::Return(_) => Some(Exits { falls_through: false, exits_without_return: false }),
        IRInst::If { then_branch, else_branch, .. } => {
            let first: Exits = exits(then_branch);
            let second: Exits = exits(else_branch);
            Some(
                Exits {
                    falls_through: first.falls_through || second.falls_through,
                    exits_without_return: first.exits_without_return
                        || second.exits_without_return,
                },
            )
        },
        IRInst::While { .. }
        | IRInst::Break
        | IRInst::Continue
        | IRInst::ContinueLoop(_)
        | IRInst::CallSynthetic { .. }
        | IRInst::Jump(_)
        | IRInst::End => Some(Exits { falls_through: false, exits_without_return: true }),
        _ => None,
    }
}

fn exits(list: &Vec<IRInst>) -> (res: Exits)
    ensures
        res == exits_of_list(models(list@)),
    decreases list,
{
    let ghost all = models(list@);
    assert(all.subrange(0, 0) =~= Seq::empty());
    let mut res = Exits { falls_through: true, exits_without_return: false };
    let mut i: usize = 0;
    while i < list.len()
        invariant
            i <= list@.len(),
            all == models(list@),
            res == exits_of_list(all.subrange(0, i as int)),
        decreases list@.len() - i,
    {
        let ghost prefix = all.subrange(0, i + 1);
        assert(prefix.drop_last() =~= all.subrange(0, i as int));
        assert(decreases_to!(list => list@[i as int]));
        if res.falls_through {
            if let Some(next) = instruction_exits(&list[i]) {
                res = Exits {
                    falls_through: next.falls_through,
                    exits_without_return: res.exits_without_return || next.exits_without_return,
                };
            }
        }
        i = i + 1;
    }
    assert(all.subrange(0, i as int) =~= all);
    res
}

/// Whether every path through the list ends in a return.
pub open spec fn always_returns(list: Seq<InstModel>) -> bool {
    !exits_of_list(list).falls_through && !exits_of_list(list).exits_without_return
}

fn ends_in_return(list: &Vec<IRInst>) -> (res: bool)
    ensures
        res == always_returns(models(list@)),
{
    let exits: Exits = exits(list);
    !exits.falls_through && !exits.exits_without_return
}

/// The number of instructions, nested ones included.
pub open spec fn size_of(instr: InstModel) -> nat
    decreases instr,
{
    match instr {
        InstModel::If { then_branch, else_branch, .. } => 1 + size_of_list(then_branch)
            + size_of_list(else_branch),
        InstModel::While { body, .. } => 1 + size_of_body(body),
        _ => 1,
    }
}

pub open spec fn size_of_list(list: Seq<InstModel>) -> nat
    decreases list,
{
    if list.len() == 0 {
        0
    } else {
        size_of_list(list.drop_last()) + size_of(list[list.len() - 1])
    }
}

pub open spec fn size_of_body(list: Seq<(usize, InstModel)>) -> nat
    decreases list,
{
    if list.len() == 0 {
        0
    } else {
        size_of_body(list.drop_last()) + size_of(list[list.len() - 1].1)
    }
}

/// Adds a mark for every instruction.
fn tally(instr: &IRInst, marks: &mut Vec<bool>)
    ensures
        final(marks)@.len() == old(marks)@.len() + size_of(instr.model()),
    decreases instr,
{
    marks.push(true);
    match instr {
        IRInst::If { then_branch, else_branch, .. } => {
            tally_list(then_branch, marks);
            tally_list(else_branch, marks);
        },
        IRInst::While { body, .. } => {
            tally_body(body, marks);
        },
        _ => {},
    }
}

fn tally_list(list: &Vec<IRInst>, marks: &mut Vec<bool>)
    ensures
        final(marks)@.len() == old(marks)@.len() + size_of_list(models(list@)),
    decreases list,
{
    let ghost all = models(list@);
    let ghost start = marks@.len();
    assert(all.subrange(0, 0) =~= Seq::empty());
    let mut i: usize = 0;
    while i < list.len()
        invariant
            i <= list@.len(),
            all == models(list@),
            marks@.len() == start + size_of_list(all.subrange(0, i as int)),
        decreases list@.len() - i,
    {
        let ghost prefix = all.subrange(0, i + 1);
        assert(prefix.drop_last() =~= all.subrange(0, i as int));
        assert(decreases_to!(list => list@[i as int]));
        tally(&list[i], marks);
        i = i + 1;
    }
    assert(all.subrange(0, i as int) =~= all);
}

fn tally_body(list: &Vec<(usize, IRInst)>, marks: &mut Vec<bool>)
    ensures
        final(marks)@.len() == old(marks)@.len() + size_of_body(body_models(list@)),
    decreases list,
{
    let ghost all = body_models(list@);
    let ghost start = marks@.len();
    assert(all.subrange(0, 0) =~= Seq::empty());
    let mut i: usize = 0;
    while i < list.len()
        invariant
            i <= list@.len(),
            all == body_models(list@),
            marks@.len() == start + size_of_body(all.subrange(0, i as int)),
        decreases list@.len() - i,
    {
        let ghost prefix = all.subrange(0, i + 1);
        assert(prefix.drop_last() =~= all.subrange(0, i as int));
        assert(decreases_to!(list => list@[i as int]));
        tally(&list[i].1, marks);
        i = i + 1;
    }
    assert(all.subrange(0, i as int) =~= all);
}

fn is_no_larger(a: &Vec<IRInst>, b: &Vec<IRInst>) -> (res: bool)
    ensures
        res == (size_of_list(models(a@)) <= size_of_list(models(b@))),
{
    let mut first: Vec<bool> = Vec::new();
    let mut second: Vec<bool> = Vec::new();
    tally_list(a, &mut first);
    tally_list(b, &mut second);
    first.len() <= second.len()
}

pub open spec fn is_direct_return(list: Seq<InstModel>) -> bool {
    list.len() == 1 && list[0] is Return
}

/// Which arm becomes an early exit: the `then` arm, the other one, or none. A
/// direct two-return expression is kept intact for later recovery.
pub open spec fn early_arm(then_branch: Seq<InstModel>, else_branch: Seq<InstModel>) -> Option<
    bool,
> {
    if always_returns(then_branch) && !always_returns(else_branch) {
        Some(true)
    } else if !always_returns(then_branch) && always_returns(else_branch) {
        Some(false)
    } else if always_returns(then_branch) && !(is_direct_return(then_branch) && is_direct_return(
        else_branch,
    )) {
        Some(size_of_list(then_branch) <= size_of_list(else_branch))
    } else {
        None
    }
}

/// A branch with one arm as an early exit and the other after it.
pub open spec fn flattened_if(
    condition: IRExpr,
    then_branch: Seq<InstModel>,
    else_branch: Seq<InstModel>,
) -> Seq<InstModel> {
    match early_arm(then_branch, else_branch) {
        Some(true) => seq![
            InstModel::If { condition, then_branch, else_branch: Seq::empty() },
        ] + else_branch,
        Some(false) => seq![
            InstModel::If {
                condition: negated(condition),
                then_branch: else_branch,
                else_branch: Seq::empty(),
            },
        ] + then_branch,
        None => seq![InstModel::If { condition, then_branch, else_branch }],
    }
}

pub open spec fn flattened(instr: InstModel) -> Seq<InstModel>
    decreases instr,
{
    match instr {
        InstModel::If { condition, then_branch, else_branch } => flattened_if(
            condition,
            flattened_list(then_branch),
            flattened_list(else_branch),
        ),
        InstModel::While { label, entry_offset, condition, body } => seq![
            InstModel::While { label, entry_offset, condition, body: flattened_body(body) },
        ],
        _ => seq![instr],
    }
}

pub open spec fn flattened_list(list: Seq<InstModel>) -> Seq<InstModel>
    decreases list,
{
    if list.len() == 0 {
        Seq::empty()
    } else {
        flattened_list(list.drop_last()) + flattened(list[list.len() - 1])
    }
}

pub open spec fn at_offset(list: Seq<InstModel>, offset: usize) -> Seq<(usize, InstModel)> {
    list.map_values(|instr: InstModel| (offset, instr))
}

pub open spec fn flattened_body(list: Seq<(usize, InstModel)>) -> Seq<(usize, InstModel)>
    decreases list,
{
    if list.len() == 0 {
        Seq::empty()
    } else {
        flattened_body(list.drop_last()) + at_offset(
            flattened(list[list.len() - 1].1),
            list[list.len() - 1].0,
        )
    }
}

fn append(out: &mut Vec<IRInst>, list: Vec<IRInst>)
    ensures
        models(final(out)@) == models(old(out)@) + models(list@),
{
    let ghost before = models(out@);
    let ghost added = models(list@);
    let mut list: Vec<IRInst> = list;
    out.append(&mut list);
    assert(models(out@) =~= before + added);
}

fn single(instr: IRInst) -> (res: Vec<IRInst>)
    ensures
        models(res@) == seq![instr.model()],
{
    let ghost model = instr.model();
    let mut res: Vec<IRInst> = Vec::new();
    res.push(instr);
    assert(models(res@) =~= seq![model]);
    res
}

/// Appends the instructions at an offset.
pub fn append_at(out: &mut Vec<(usize, IRInst)>, list: Vec<IRInst>, offset: usize)
    ensures
        body_models(final(out)@) == body_models(old(out)@) + at_offset(models(list@), offset),
{
    let ghost before = body_models(out@);
    let ghost all = models(list@);
    let mut i: usize = 0;
    assert(body_models(out@) =~= before + at_offset(all.subrange(0, 0), offset));
    while i < list.len()
        invariant
            i <= list@.len(),
            all == models(list@),
            body_models(out@) == before + at_offset(all.subrange(0, i as int), offset),
        decreases list@.len() - i,
    {
        let ghost last = body_models(out@);
        out.push((offset, list[i].clone()));
        i = i + 1;
        proof {
            assert(body_models(out@) =~= last.push((offset, all[i - 1])));
            assert(body_models(out@) =~= before + at_offset(all.subrange(0, i as int), offset));
        }
    }
    assert(all.subrange(0, i as int) =~= all);
}

fn flatten_if(condition: IRExpr, then_branch: Vec<IRInst>, else_branch: Vec<IRInst>) -> (res: Vec<
    IRInst,
>)
    ensures
        models(res@) == flattened_if(condition, models(then_branch@), models(else_branch@)),
{
    let then_returns: bool = ends_in_return(&then_branch);
    let else_returns: bool = ends_in_return(&else_branch);
    let direct: bool = then_branch.len() == 1 && else_branch.len() == 1 && matches!(
        then_branch[0],
        IRInst::Return(_)
    ) && matches!(else_branch[0], IRInst::Return(_));
    let early: Option<bool> = if then_returns && !else_returns {
        Some(true)
    } else if !then_returns && else_returns {
        Some(false)
    } else if then_returns && !direct {
        Some(is_no_larger(&then_branch, &else_branch))
    } else {
        None
    };
    proof {
        let first = models(then_branch@);
        let second = models(else_branch@);
        if first.len() == 1 {
            assert(first[0] == then_branch@[0].model());
        }
        if second.len() == 1 {
            assert(second[0] == else_branch@[0].model());
        }
        assert(early == early_arm(first, second));
    }
    let none: Vec<IRInst> = Vec::new();
    assert(models(none@) =~= Seq::empty());
    match early {
        Some(true) => {
            let mut res: Vec<IRInst> = single(
                IRInst::If { condition, then_branch, else_branch: none },
            );
            append(&mut res, else_branch);
            res
        },
        Some(false) => {
            let mut res: Vec<IRInst> = single(
                IRInst::If {
                    condition: negate(condition),
                    then_branch: else_branch,
                    else_branch: none,
                },
            );
            append(&mut res, then_branch);
            res
        },
        None => single(IRInst::If { condition, then_branch, else_branch }),
    }
}

fn rewrite_instruction(instr: &IRInst) -> (res: Vec<IRInst>)
    ensures
        models(res@) == flattened(instr.model()),
    decreases instr,
{
    match instr {
        IRInst::If { condition, then_branch, else_branch } => flatten_if(
            condition.clone(),
            rewrite_branch(then_branch),
            rewrite_branch(else_branch),
        ),
        IRInst::While { label, entry_offset, condition, body } => single(
            IRInst::While {
                label: *label,
                entry_offset: *entry_offset,
                condition: condition.clone(),
                body: rewrite_body(body),
            },
        ),
        _ => single(instr.clone()),
    }
}

fn rewrite_branch(list: &Vec<IRInst>) -> (res: Vec<IRInst>)
    ensures
        models(res@) == flattened_list(models(list@)),
    decreases list,
{
    let ghost all = models(list@);
    let mut res: Vec<IRInst> = Vec::new();
    assert(all.subrange(0, 0) =~= Seq::empty());
    assert(models(res@) =~= Seq::empty());
    let mut i: usize = 0;
    while i < list.len()
        invariant
            i <= list@.len(),
            all == models(list@),
            models(res@) == flattened_list(all.subrange(0, i as int)),
        decreases list@.len() - i,
    {
        let ghost prefix = all.subrange(0, i + 1);
        assert(prefix.drop_last() =~= all.subrange(0, i as int));
        assert(decreases_to!(list => list@[i as int]));
        append(&mut res, rewrite_instruction(&list[i]));
        i = i + 1;
    }
    assert(all.subrange(0, i as int) =~= all);
    res
}

fn rewrite_body(list: &Vec<(usize, IRInst)>) -> (res: Vec<(usize, IRInst)>)
    ensures
        body_models(res@) == flattened_body(body_models(list@)),
    decreases list,
{
    let ghost all = body_models(list@);
    let mut res: Vec<(usize, IRInst)> = Vec::new();
    assert(all.subrange(0, 0) =~= Seq::empty());
    assert(body_models(res@) =~= Seq::empty());
    let mut i: usize = 0;
    while i < list.len()
        invariant
            i <= list@.len(),
            all == body_models(list@),
            body_models(res@) == flattened_body(all.subrange(0, i as int)),
        decreases list@.len() - i,
    {
        let ghost prefix = all.subrange(0, i + 1);
        assert(prefix.drop_last() =~= all.subrange(0, i as int));
        assert(decreases_to!(list => list@[i as int]));
        append_at(&mut res, rewrite_instruction(&list[i].1), list[i].0);
        i = i + 1;
    }
    assert(all.subrange(0, i as int) =~= all);
    res
}

pub open spec fn body_flattened(function: FunctionModel) -> Seq<(usize, InstModel)> {
    flattened_body(function.body)
}

fn flatten(function: &SyntheticFunction) -> (res: Vec<(usize, IRInst)>)
    ensures
        body_models(res@) == body_flattened(function.model()),
{
    rewrite_body(&function.body)
}

pub open spec fn function_flattened(function: FunctionModel) -> FunctionModel {
    FunctionModel { body: body_flattened(function), ..function }
}

pub open spec fn program_flattened(program: ProgramModel) -> ProgramModel {
    ProgramModel {
        functions: program.functions.map_values(|f: FunctionModel| function_flattened(f)),
        ..program
    }
}

/// Turns returning arms into early exits.
pub fn run(program: &mut Program)
    ensures
        final(program).model() == program_flattened(old(program).model()),
{
    let ghost before = function_models(program.functions@);
    let ghost initial = *program;
    let total: usize = program.functions.len();
    let mut i: usize = 0;
    while i < total
        invariant
            i <= total,
            total == program.functions@.len(),
            total == before.len(),
            *program == (Program { functions: program.functions, ..initial }),
            forall|k: int|
                0 <= k < i ==> (#[trigger] program.functions@[k]).model() == function_flattened(
                    before[k],
                ),
            forall|k: int|
                i <= k < total ==> (#[trigger] program.functions@[k]).model() == before[k],
        decreases total - i,
    {
        let body: Vec<(usize, IRInst)> = flatten(&program.functions[i]);
        program.functions[i].body = body;
        i = i + 1;
    }
    assert(program.model().functions =~= program_flattened(initial.model()).functions);
}

} // verus!
