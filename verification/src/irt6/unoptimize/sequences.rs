//! Rewrites of instruction lists, with the facts that hold at each instruction.
use super::facts::{Facts, FactsModel, Writer, WriterModel};
use super::rules::{apply_rules, first_rule, law_rules_keep_depth, Applied};
use super::{Options, Report, ReportModel};
use crate::irt6::arithmetic::{Context, ContextModel};
use crate::irt6::effects::{
    body_effects, expression_effects, instruction_effects, is_repeatable, repeatable, Effects,
};
use crate::irt6::ir::{body_models, clone_body, models, IRInst, InstModel, VariableId};
use crate::irt6::lists::{
    depth, depth_body, depth_list, larger, lemma_depth_bound, lemma_item_depth, lemma_tagged, tag,
    tagged, untag, untagged,
};
use crate::irt6::relocate_variables::{is_mentioned, mentions};
use crate::irt6::shapes::assignment::{
    temporary_assignment_of, temporary_binary_assignment, TemporaryBinaryAssignment,
};
use crate::irt6::shapes::vector::{vector_iteration, vector_iteration_of, VectorIteration};
use crate::irt6::uses::{
    count_reads, count_reads_body, count_writes, count_writes_body, counted, is_used, plus,
    reads_in, reads_in_body, used, writes_in, writes_in_body,
};
use crate::table::KeySet;
use vstd::prelude::*;

verus! {

pub const MAX_REWRITES: usize = 256;

pub const MAX_LOCAL_ROUNDS: usize = 16;

/// An instruction after the rules have been applied to it one after another, from a
/// round on, and the report.
pub open spec fn local(
    instr: InstModel,
    offset: usize,
    facts: FactsModel,
    report: ReportModel,
    context: ContextModel,
    options: Options,
    round: nat,
) -> (InstModel, ReportModel)
    decreases MAX_LOCAL_ROUNDS - round,
{
    if round >= MAX_LOCAL_ROUNDS {
        (instr, report)
    } else if report.rewrites.len() >= MAX_REWRITES {
        (instr, report.exhausted())
    } else {
        match first_rule(instr, offset, facts, context, options) {
            Some(made) => {
                let noted = report.noting(made.offset, made.rule);
                local(
                    made.instr,
                    offset,
                    facts,
                    if round + 1 == MAX_LOCAL_ROUNDS {
                        noted.exhausted()
                    } else {
                        noted
                    },
                    context,
                    options,
                    round + 1,
                )
            },
            None => (instr, report),
        }
    }
}

/// The rules make no instruction deeper.
pub proof fn lemma_local_depth(
    instr: InstModel,
    offset: usize,
    facts: FactsModel,
    report: ReportModel,
    context: ContextModel,
    options: Options,
    round: nat,
)
    ensures
        depth(local(instr, offset, facts, report, context, options, round).0) <= depth(instr),
    decreases MAX_LOCAL_ROUNDS - round,
{
    if round < MAX_LOCAL_ROUNDS && report.rewrites.len() < MAX_REWRITES {
        law_rules_keep_depth(instr, offset, facts, context, options);
        if let Some(made) = first_rule(instr, offset, facts, context, options) {
            let noted = report.noting(made.offset, made.rule);
            lemma_local_depth(
                made.instr,
                offset,
                facts,
                if round + 1 == MAX_LOCAL_ROUNDS {
                    noted.exhausted()
                } else {
                    noted
                },
                context,
                options,
                round + 1,
            );
        }
    }
}

/// A list after its rewrites, and what is known at its end.
pub struct Sequenced {
    pub list: Seq<(usize, InstModel)>,
    pub facts: FactsModel,
    pub report: ReportModel,
}

/// An instruction with its lists rewritten. Loop bodies retain only invariant
/// facts.
pub open spec fn rewritten_children(
    offset: usize,
    instr: InstModel,
    facts: FactsModel,
    report: ReportModel,
    context: ContextModel,
    options: Options,
) -> (InstModel, ReportModel)
    decreases depth(instr), 0int, 0nat,
{
    match instr {
        InstModel::If { condition, then_branch, else_branch } => {
            proof {
                lemma_tagged(then_branch, offset);
                lemma_tagged(else_branch, offset);
            }
            let first = sequenced(
                tagged(then_branch, offset),
                facts.assuming(condition, true, context),
                report,
                context,
                options,
            );
            let second = sequenced(
                tagged(else_branch, offset),
                facts.assuming(condition, false, context),
                first.report,
                context,
                options,
            );
            (
                InstModel::If {
                    condition,
                    then_branch: untagged(first.list),
                    else_branch: untagged(second.list),
                },
                second.report,
            )
        },
        InstModel::While { label, entry_offset, condition, body } => {
            let inner = sequenced(
                body,
                facts.after(body_effects(body), WriterModel::All(body)),
                report,
                context,
                options,
            );
            (
                InstModel::While { label, entry_offset, condition, body: inner.list },
                inner.report,
            )
        },
        InstModel::ForEach {
            entry_offset,
            condition_offset,
            advance_offset,
            load_offset,
            variable,
            element_type,
            vector,
            start,
            index_bits,
            body,
        } => {
            let inner = sequenced(
                body,
                facts.after(body_effects(body), WriterModel::All(body)),
                report,
                context,
                options,
            );
            (
                InstModel::ForEach {
                    entry_offset,
                    condition_offset,
                    advance_offset,
                    load_offset,
                    variable,
                    element_type,
                    vector,
                    start,
                    index_bits,
                    body: inner.list,
                },
                inner.report,
            )
        },
        _ => (instr, report),
    }
}

/// An instruction rewritten with its lists. A child loop can become a remainder
/// under its surrounding guard, so that guard is revisited when its child rewrites
/// are visible.
pub open spec fn rewritten(
    offset: usize,
    instr: InstModel,
    facts: FactsModel,
    report: ReportModel,
    context: ContextModel,
    options: Options,
) -> (InstModel, ReportModel)
    decreases depth(instr), 1int, 0nat,
{
    proof {
        lemma_local_depth(instr, offset, facts, report, context, options, 0);
    }
    let first = local(instr, offset, facts, report, context, options, 0);
    let inner = rewritten_children(offset, first.0, facts, first.1, context, options);
    if inner.1.rewrites.len() > first.1.rewrites.len() {
        local(inner.0, offset, facts, inner.1, context, options, 0)
    } else {
        inner
    }
}

/// A list rewritten in order. Facts are invalidated by writes.
pub open spec fn sequenced(
    list: Seq<(usize, InstModel)>,
    facts: FactsModel,
    report: ReportModel,
    context: ContextModel,
    options: Options,
) -> Sequenced
    decreases depth_body(list), 2int, list.len(),
{
    if list.len() == 0 {
        Sequenced { list: Seq::empty(), facts, report }
    } else {
        let before = sequenced(list.drop_last(), facts, report, context, options);
        let item = list[list.len() - 1];
        let made = rewritten(item.0, item.1, before.facts, before.report, context, options);
        Sequenced {
            list: before.list.push((item.0, made.0)),
            facts: before.facts.after(
                instruction_effects(made.0),
                WriterModel::One(made.0),
            ).observing(made.0),
            report: made.1,
        }
    }
}

fn rewrite_local(
    instr: IRInst,
    offset: usize,
    facts: &Facts,
    report: &mut Report,
    context: &Context,
    options: &Options,
) -> (res: IRInst)
    ensures
        (res.model(), final(report).model()) == local(
            instr.model(),
            offset,
            facts.model(),
            old(report).model(),
            context@,
            *options,
            0,
        ),
{
    let ghost start = instr.model();
    let ghost initial = report.model();
    let mut current: IRInst = instr;
    let mut round: usize = 0;
    while round < MAX_LOCAL_ROUNDS
        invariant
            round <= MAX_LOCAL_ROUNDS,
            start == instr.model(),
            initial == old(report).model(),
            local(start, offset, facts.model(), initial, context@, *options, 0) == local(
                current.model(),
                offset,
                facts.model(),
                report.model(),
                context@,
                *options,
                round as nat,
            ),
        decreases MAX_LOCAL_ROUNDS - round,
    {
        if report.rewrites.len() >= MAX_REWRITES {
            report.budget_exhausted = true;
            return current;
        }
        match apply_rules(&current, offset, facts, context, options) {
            Some(made) => {
                let made: Applied = made;
                report.note(made.offset, made.rule);
                current = made.instr;
            },
            None => return current,
        }
        if round + 1 == MAX_LOCAL_ROUNDS {
            report.budget_exhausted = true;
        }
        round = round + 1;
    }
    current
}

fn rewrite_children(
    offset: usize,
    instr: &IRInst,
    facts: &Facts,
    report: &mut Report,
    context: &Context,
    options: &Options,
) -> (res: IRInst)
    ensures
        (res.model(), final(report).model()) == rewritten_children(
            offset,
            instr.model(),
            facts.model(),
            old(report).model(),
            context@,
            *options,
        ),
    decreases depth(instr.model()), 0int, 0nat,
{
    match instr {
        IRInst::If { condition, then_branch, else_branch } => {
            proof {
                lemma_tagged(models(then_branch@), offset);
                lemma_tagged(models(else_branch@), offset);
            }
            let mut then_facts: Facts = facts.copied();
            then_facts.assume_condition(condition, true, context);
            let mut else_facts: Facts = facts.copied();
            else_facts.assume_condition(condition, false, context);
            let first: Vec<(usize, IRInst)> = sequence(
                &tag(then_branch, offset),
                then_facts,
                report,
                context,
                options,
            );
            let second: Vec<(usize, IRInst)> = sequence(
                &tag(else_branch, offset),
                else_facts,
                report,
                context,
                options,
            );
            IRInst::If {
                condition: condition.clone(),
                then_branch: untag(first),
                else_branch: untag(second),
            }
        },
        IRInst::While { label, entry_offset, condition, body } => {
            let mut invariants: Facts = facts.copied();
            invariants.invalidate(&Effects::of_body(body), Writer::All(body));
            IRInst::While {
                label: *label,
                entry_offset: *entry_offset,
                condition: condition.clone(),
                body: sequence(body, invariants, report, context, options),
            }
        },
        IRInst::ForEach {
            entry_offset,
            condition_offset,
            advance_offset,
            load_offset,
            variable,
            element_type,
            vector,
            start,
            index_bits,
            body,
        } => {
            let mut invariants: Facts = facts.copied();
            invariants.invalidate(&Effects::of_body(body), Writer::All(body));
            IRInst::ForEach {
                entry_offset: *entry_offset,
                condition_offset: *condition_offset,
                advance_offset: *advance_offset,
                load_offset: *load_offset,
                variable: *variable,
                element_type: element_type.clone(),
                vector: vector.clone(),
                start: *start,
                index_bits: *index_bits,
                body: sequence(body, invariants, report, context, options),
            }
        },
        _ => instr.clone(),
    }
}

fn rewrite(
    offset: usize,
    instr: &IRInst,
    facts: &Facts,
    report: &mut Report,
    context: &Context,
    options: &Options,
) -> (res: IRInst)
    ensures
        (res.model(), final(report).model()) == rewritten(
            offset,
            instr.model(),
            facts.model(),
            old(report).model(),
            context@,
            *options,
        ),
    decreases depth(instr.model()), 1int, 0nat,
{
    proof {
        lemma_local_depth(
            instr.model(),
            offset,
            facts.model(),
            report.model(),
            context@,
            *options,
            0,
        );
    }
    let first: IRInst = rewrite_local(instr.clone(), offset, facts, report, context, options);
    let before_children: usize = report.rewrites.len();
    let inner: IRInst = rewrite_children(offset, &first, facts, report, context, options);
    if report.rewrites.len() > before_children {
        rewrite_local(inner, offset, facts, report, context, options)
    } else {
        inner
    }
}

/// Rewrites the instructions of a list in order.
pub fn sequence(
    list: &Vec<(usize, IRInst)>,
    facts: Facts,
    report: &mut Report,
    context: &Context,
    options: &Options,
) -> (res: Vec<(usize, IRInst)>)
    ensures
        ({
            let made = sequenced(
                body_models(list@),
                facts.model(),
                old(report).model(),
                context@,
                *options,
            );
            body_models(res@) == made.list && final(report).model() == made.report
        }),
    decreases depth_body(body_models(list@)), 2int, list@.len(),
{
    let ghost all = body_models(list@);
    let ghost known = facts.model();
    let ghost initial = report.model();
    let mut facts: Facts = facts;
    let mut res: Vec<(usize, IRInst)> = Vec::new();
    assert(all.subrange(0, 0) =~= Seq::empty());
    assert(body_models(res@) =~= Seq::empty());
    let mut i: usize = 0;
    while i < list.len()
        invariant
            i <= list@.len(),
            all == body_models(list@),
            (Sequenced {
                list: body_models(res@),
                facts: facts.model(),
                report: report.model(),
            }) == sequenced(all.subrange(0, i as int), known, initial, context@, *options),
        decreases list@.len() - i,
    {
        let ghost prefix = all.subrange(0, i + 1);
        assert(prefix.drop_last() =~= all.subrange(0, i as int));
        proof {
            lemma_item_depth(all, i as int);
        }
        let ghost before = body_models(res@);
        let offset: usize = list[i].0;
        let made: IRInst = rewrite(offset, &list[i].1, &facts, report, context, options);
        facts.invalidate(&Effects::of_instruction(&made), Writer::One(&made));
        facts.observe(&made);
        let ghost model = made.model();
        res.push((offset, made));
        assert(body_models(res@) =~= before.push((offset, model)));
        i = i + 1;
    }
    assert(all.subrange(0, i as int) =~= all);
    res
}

/// The list with its own temporaries collapsed, from an item on.
pub open spec fn collapsed_from(
    list: Seq<(usize, InstModel)>,
    index: nat,
    report: ReportModel,
    whole: Seq<(usize, InstModel)>,
    context: ContextModel,
) -> (Seq<(usize, InstModel)>, ReportModel)
    decreases list.len() - index,
{
    if index + 2 >= list.len() {
        (list, report)
    } else if report.rewrites.len() >= MAX_REWRITES {
        (list, report.exhausted())
    } else {
        let at = index as int;
        match collapse_at(list, at, whole, context) {
            Some(replacement) => collapsed_from(
                list.update(at + 2, (list[at + 2].0, replacement)).remove(at).remove(at),
                index,
                report.noting(list[at + 2].0, "temporary-binary-to-assignment"@),
                whole,
                context,
            ),
            None => collapsed_from(list, index + 1, report, whole, context),
        }
    }
}

/// The one assignment that three instructions through a temporary amount to.
pub open spec fn collapse_at(
    list: Seq<(usize, InstModel)>,
    at: int,
    whole: Seq<(usize, InstModel)>,
    context: ContextModel,
) -> Option<InstModel> {
    match temporary_assignment_of(list[at].1, list[at + 1].1, list[at + 2].1, context) {
        Some(shape) => if is_used(whole, shape.temporary, 2, 2) {
            Some(shape.replacement)
        } else {
            None
        },
        None => None,
    }
}

/// The list with the temporaries in it and in its lists collapsed.
pub open spec fn collapsed(
    list: Seq<(usize, InstModel)>,
    report: ReportModel,
    whole: Seq<(usize, InstModel)>,
    context: ContextModel,
) -> (Seq<(usize, InstModel)>, ReportModel)
    decreases depth_body(list), 2int, 0nat,
{
    let inner = collapsed_children(list, report, whole, context);
    collapsed_from(inner.0, 0, inner.1, whole, context)
}

/// Collapses `let t = a; t = t op b; destination = t` into one assignment, where
/// nothing else uses the temporary.
pub fn collapse_temporary_assignments(
    list: Vec<(usize, IRInst)>,
    report: &mut Report,
    whole: &Vec<(usize, IRInst)>,
    context: &Context,
) -> (res: Vec<(usize, IRInst)>)
    ensures
        (body_models(res@), final(report).model()) == collapsed(
            body_models(list@),
            old(report).model(),
            body_models(whole@),
            context@,
        ),
    decreases depth_body(body_models(list@)), 2int, 0nat,
{
    let mut items: Vec<(usize, IRInst)> = collapse_temporary_assignments_children(
        &list,
        report,
        whole,
        context,
    );
    let ghost start = body_models(items@);
    let ghost initial = report.model();
    let mut index: usize = 0;
    while index < items.len() && items.len() - index > 2
        invariant
            collapsed(body_models(list@), old(report).model(), body_models(whole@), context@)
                == collapsed_from(start, 0, initial, body_models(whole@), context@),
            collapsed_from(start, 0, initial, body_models(whole@), context@) == collapsed_from(
                body_models(items@),
                index as nat,
                report.model(),
                body_models(whole@),
                context@,
            ),
        decreases items@.len() - index,
    {
        if report.rewrites.len() >= MAX_REWRITES {
            report.budget_exhausted = true;
            return items;
        }
        let ghost all = body_models(items@);
        assert(all[index as int].1 == items@[index as int].1.model());
        assert(all[index + 1].1 == items@[index + 1].1.model());
        assert(all[index + 2].1 == items@[index + 2].1.model());
        let shape: Option<TemporaryBinaryAssignment> = temporary_binary_assignment(
            &items[index].1,
            &items[index + 1].1,
            &items[index + 2].1,
            context,
        );
        let found: Option<IRInst> = match shape {
            Some(shape) => if used(whole, shape.temporary, 2, 2) {
                Some(shape.replacement)
            } else {
                None
            },
            None => None,
        };
        match found {
            Some(replacement) => {
                let offset: usize = items[index + 2].0;
                let ghost model = replacement.model();
                items.set(index + 2, (offset, replacement));
                items.remove(index);
                items.remove(index);
                assert(body_models(items@) =~= all.update(index + 2, (offset, model)).remove(
                    index as int,
                ).remove(index as int));
                report.note(offset, "temporary-binary-to-assignment");
            },
            None => {
                index = index + 1;
            },
        }
    }
    items
}

/// An instruction with the temporaries in its lists collapsed.
pub open spec fn collapsed_child(
    offset: usize,
    instr: InstModel,
    report: ReportModel,
    whole: Seq<(usize, InstModel)>,
    context: ContextModel,
) -> (InstModel, ReportModel)
    decreases depth(instr), 0int, 0nat,
{
    match instr {
        InstModel::If { condition, then_branch, else_branch } => {
            proof {
                lemma_tagged(then_branch, offset);
                lemma_tagged(else_branch, offset);
            }
            let first = collapsed(tagged(then_branch, offset), report, whole, context);
            let second = collapsed(tagged(else_branch, offset), first.1, whole, context);
            (InstModel::If {
                condition,
                then_branch: untagged(first.0),
                else_branch: untagged(second.0),
            }, second.1)
        },
        InstModel::While { label, entry_offset, condition, body } => {
            let inner = collapsed(body, report, whole, context);
            (InstModel::While { label, entry_offset, condition, body: inner.0 }, inner.1)
        },
        InstModel::ForEach {
            entry_offset,
            condition_offset,
            advance_offset,
            load_offset,
            variable,
            element_type,
            vector,
            start,
            index_bits,
            body,
        } => {
            let inner = collapsed(body, report, whole, context);
            (InstModel::ForEach {
                entry_offset,
                condition_offset,
                advance_offset,
                load_offset,
                variable,
                element_type,
                vector,
                start,
                index_bits,
                body: inner.0,
            }, inner.1)
        },
        _ => (instr, report),
    }
}

pub open spec fn collapsed_children(
    list: Seq<(usize, InstModel)>,
    report: ReportModel,
    whole: Seq<(usize, InstModel)>,
    context: ContextModel,
) -> (Seq<(usize, InstModel)>, ReportModel)
    decreases depth_body(list), 1int, list.len(),
{
    if list.len() == 0 {
        (Seq::empty(), report)
    } else {
        let before = collapsed_children(list.drop_last(), report, whole, context);
        let item = list[list.len() - 1];
        let child = collapsed_child(item.0, item.1, before.1, whole, context);
        (before.0.push((item.0, child.0)), child.1)
    }
}

fn collapse_temporary_assignments_child(
    offset: usize,
    instr: &IRInst,
    report: &mut Report,
    whole: &Vec<(usize, IRInst)>,
    context: &Context,
) -> (res: IRInst)
    ensures
        (res.model(), final(report).model()) == collapsed_child(
            offset,
            instr.model(),
            old(report).model(),
            body_models(whole@),
            context@,
        ),
    decreases depth(instr.model()), 0int, 0nat,
{
    match instr {
        IRInst::If { condition, then_branch, else_branch } => {
            proof {
                lemma_tagged(models(then_branch@), offset);
                lemma_tagged(models(else_branch@), offset);
            }
            let first: Vec<(usize, IRInst)> = collapse_temporary_assignments(
                tag(then_branch, offset),
                report,
                whole,
                context,
            );
            let second: Vec<(usize, IRInst)> = collapse_temporary_assignments(
                tag(else_branch, offset),
                report,
                whole,
                context,
            );
            IRInst::If {
                condition: condition.clone(),
                then_branch: untag(first),
                else_branch: untag(second),
            }
        },
        IRInst::While { label, entry_offset, condition, body } => IRInst::While {
            label: *label,
            entry_offset: *entry_offset,
            condition: condition.clone(),
            body: collapse_temporary_assignments(clone_body(body), report, whole, context),
        },
        IRInst::ForEach {
            entry_offset,
            condition_offset,
            advance_offset,
            load_offset,
            variable,
            element_type,
            vector,
            start,
            index_bits,
            body,
        } => IRInst::ForEach {
            entry_offset: *entry_offset,
            condition_offset: *condition_offset,
            advance_offset: *advance_offset,
            load_offset: *load_offset,
            variable: *variable,
            element_type: element_type.clone(),
            vector: vector.clone(),
            start: *start,
            index_bits: *index_bits,
            body: collapse_temporary_assignments(clone_body(body), report, whole, context),
        },
        _ => instr.clone(),
    }
}

fn collapse_temporary_assignments_children(
    list: &Vec<(usize, IRInst)>,
    report: &mut Report,
    whole: &Vec<(usize, IRInst)>,
    context: &Context,
) -> (res: Vec<(usize, IRInst)>)
    ensures
        (body_models(res@), final(report).model()) == collapsed_children(
            body_models(list@),
            old(report).model(),
            body_models(whole@),
            context@,
        ),
    decreases depth_body(body_models(list@)), 1int, list@.len(),
{
    let ghost all = body_models(list@);
    let ghost start = report.model();
    let mut res: Vec<(usize, IRInst)> = Vec::new();
    assert(all.subrange(0, 0) =~= Seq::empty());
    assert(body_models(res@) =~= Seq::empty());
    let mut i: usize = 0;
    while i < list.len()
        invariant
            i <= list@.len(),
            all == body_models(list@),
            (body_models(res@), report.model()) == collapsed_children(
                all.subrange(0, i as int),
                start,
                body_models(whole@),
                context@,
            ),
        decreases list@.len() - i,
    {
        let ghost prefix = all.subrange(0, i + 1);
        assert(prefix.drop_last() =~= all.subrange(0, i as int));
        proof {
            lemma_item_depth(all, i as int);
        }
        let ghost before = body_models(res@);
        let child: IRInst = collapse_temporary_assignments_child(
            list[i].0,
            &list[i].1,
            report,
            whole,
            context,
        );
        res.push((list[i].0, child));
        assert(body_models(res@) =~= before.push((all[i as int].0, child.model())));
        i = i + 1;
    }
    assert(all.subrange(0, i as int) =~= all);
    res
}


/// Whether a variable is used by three instructions of a list alone.
pub open spec fn used_only(
    list: Seq<(usize, InstModel)>,
    counter: int,
    walk: int,
    variable: VariableId,
    whole: Seq<(usize, InstModel)>,
) -> bool {
    counted(reads_in_body(whole, variable)) == counted(
        reads_in(list[counter].1, variable) + reads_in(list[walk - 1].1, variable) + reads_in(
            list[walk].1,
            variable,
        ),
    ) && counted(writes_in_body(whole, variable)) == counted(
        writes_in(list[counter].1, variable) + writes_in(list[walk - 1].1, variable) + writes_in(
            list[walk].1,
            variable,
        ),
    )
}

/// Whether a variable is mentioned strictly between two items.
pub open spec fn mentioned_between(
    list: Seq<(usize, InstModel)>,
    from: int,
    to: int,
    variable: VariableId,
) -> bool {
    exists|k: int| from < k < to && is_mentioned((#[trigger] list[k]).1, variable)
}

/// The walk that starts with a counter and ends with a loop.
pub open spec fn walk_between(
    list: Seq<(usize, InstModel)>,
    counter: int,
    walk: int,
    whole: Seq<(usize, InstModel)>,
    context: ContextModel,
) -> Option<InstModel> {
    match vector_iteration_of(list[counter].1, list[walk - 1].1, list[walk].1, context) {
        Some(shape) => if used_only(list, counter, walk, shape.counter, whole) && used_only(
            list,
            counter,
            walk,
            shape.element,
            whole,
        ) && !mentioned_between(list, counter, walk - 1, shape.counter) && !mentioned_between(
            list,
            counter,
            walk - 1,
            shape.element,
        ) {
            Some(shape.replacement)
        } else {
            None
        },
        None => None,
    }
}

/// The last counter before an index with which the loop makes a walk.
pub open spec fn walk_before(
    list: Seq<(usize, InstModel)>,
    count: nat,
    walk: int,
    whole: Seq<(usize, InstModel)>,
    context: ContextModel,
) -> Option<(int, InstModel)>
    decreases count,
{
    if count == 0 {
        None
    } else {
        match walk_between(list, count - 1, walk, whole, context) {
            Some(replacement) => Some((count - 1, replacement)),
            None => walk_before(list, (count - 1) as nat, walk, whole, context),
        }
    }
}

/// The first walk from a loop on: the counter, the loop and the replacement.
pub open spec fn walk_from(
    list: Seq<(usize, InstModel)>,
    walk: int,
    whole: Seq<(usize, InstModel)>,
    context: ContextModel,
) -> Option<(int, int, InstModel)>
    decreases list.len() - walk,
{
    if walk < 2 || walk >= list.len() {
        None
    } else {
        match walk_before(list, (walk - 1) as nat, walk, whole, context) {
            Some((counter, replacement)) => Some((counter, walk, replacement)),
            None => walk_from(list, walk + 1, whole, context),
        }
    }
}

pub open spec fn walk_entry(instr: InstModel) -> usize {
    match instr {
        InstModel::ForEach { entry_offset, .. } => entry_offset,
        _ => 0,
    }
}

/// The list with its own first walk recovered.
pub open spec fn recovered_own(
    list: Seq<(usize, InstModel)>,
    report: ReportModel,
    whole: Seq<(usize, InstModel)>,
    context: ContextModel,
) -> (Seq<(usize, InstModel)>, ReportModel) {
    match walk_from(list, 2, whole, context) {
        Some((counter, walk, replacement)) => (
            list.update(walk, (list[walk].0, replacement)).remove(walk - 1).remove(counter),
            report.noting(walk_entry(replacement), "zero-terminated-vector-iteration"@),
        ),
        None => (list, report),
    }
}

/// The list with the first walk in its lists or in it recovered, unless one was
/// since `done` rewrites.
pub open spec fn recovered(
    list: Seq<(usize, InstModel)>,
    report: ReportModel,
    done: nat,
    whole: Seq<(usize, InstModel)>,
    context: ContextModel,
) -> (Seq<(usize, InstModel)>, ReportModel)
    decreases depth_body(list), 2int, 0nat,
{
    if report.rewrites.len() > done {
        (list, report)
    } else {
        let inner = recovered_children(list, report, done, whole, context);
        if inner.1.rewrites.len() > done || inner.1.rewrites.len() >= MAX_REWRITES {
            inner
        } else {
            recovered_own(inner.0, inner.1, whole, context)
        }
    }
}

fn only_used(
    list: &Vec<(usize, IRInst)>,
    counter: usize,
    walk: usize,
    variable: VariableId,
    whole: &Vec<(usize, IRInst)>,
) -> (res: bool)
    requires
        counter < walk - 1,
        walk < list@.len(),
    ensures
        res == used_only(
            body_models(list@),
            counter as int,
            walk as int,
            variable,
            body_models(whole@),
        ),
{
    let ghost all = body_models(list@);
    assert(all[counter as int].1 == list@[counter as int].1.model());
    assert(all[walk - 1].1 == list@[walk - 1].1.model());
    assert(all[walk as int].1 == list@[walk as int].1.model());
    let reads: usize = plus(
        plus(count_reads(&list[counter].1, variable), count_reads(&list[walk - 1].1, variable)),
        count_reads(&list[walk].1, variable),
    );
    let writes: usize = plus(
        plus(count_writes(&list[counter].1, variable), count_writes(&list[walk - 1].1, variable)),
        count_writes(&list[walk].1, variable),
    );
    count_reads_body(whole, variable) == reads && count_writes_body(whole, variable) == writes
}

fn find_mention(list: &Vec<(usize, IRInst)>, from: usize, to: usize, variable: VariableId) -> (res:
    bool)
    requires
        from < to <= list@.len(),
    ensures
        res == mentioned_between(body_models(list@), from as int, to as int, variable),
{
    let ghost all = body_models(list@);
    let mut k: usize = from + 1;
    while k < to
        invariant
            from < k <= to <= list@.len(),
            all == body_models(list@),
            forall|j: int| from < j < k ==> !is_mentioned((#[trigger] all[j]).1, variable),
        decreases to - k,
    {
        if mentions(&list[k].1, variable) {
            assert(is_mentioned(all[k as int].1, variable));
            return true;
        }
        k = k + 1;
    }
    false
}

fn find_walk_between(
    list: &Vec<(usize, IRInst)>,
    counter: usize,
    walk: usize,
    whole: &Vec<(usize, IRInst)>,
    context: &Context,
) -> (res: Option<IRInst>)
    requires
        counter < walk - 1,
        walk < list@.len(),
    ensures
        match res {
            Some(instr) => walk_between(
                body_models(list@),
                counter as int,
                walk as int,
                body_models(whole@),
                context@,
            ) == Some(instr.model()),
            None => walk_between(
                body_models(list@),
                counter as int,
                walk as int,
                body_models(whole@),
                context@,
            ) is None,
        },
{
    let ghost all = body_models(list@);
    assert(all[counter as int].1 == list@[counter as int].1.model());
    assert(all[walk - 1].1 == list@[walk - 1].1.model());
    assert(all[walk as int].1 == list@[walk as int].1.model());
    match vector_iteration(&list[counter].1, &list[walk - 1].1, &list[walk].1, context) {
        Some(shape) => {
            let shape: VectorIteration = shape;
            if only_used(list, counter, walk, shape.counter, whole) && only_used(
                list,
                counter,
                walk,
                shape.element,
                whole,
            ) && !find_mention(list, counter, walk - 1, shape.counter) && !find_mention(
                list,
                counter,
                walk - 1,
                shape.element,
            ) {
                Some(shape.replacement)
            } else {
                None
            }
        },
        None => None,
    }
}

fn find_walk_before(
    list: &Vec<(usize, IRInst)>,
    walk: usize,
    whole: &Vec<(usize, IRInst)>,
    context: &Context,
) -> (res: Option<(usize, IRInst)>)
    requires
        2 <= walk < list@.len(),
    ensures
        match res {
            Some((counter, instr)) => counter < walk - 1 && walk_before(
                body_models(list@),
                (walk - 1) as nat,
                walk as int,
                body_models(whole@),
                context@,
            ) == Some((counter as int, instr.model())),
            None => walk_before(
                body_models(list@),
                (walk - 1) as nat,
                walk as int,
                body_models(whole@),
                context@,
            ) is None,
        },
{
    let ghost all = body_models(list@);
    let mut count: usize = walk - 1;
    while count > 0
        invariant
            2 <= walk < list@.len(),
            count <= walk - 1,
            all == body_models(list@),
            walk_before(all, (walk - 1) as nat, walk as int, body_models(whole@), context@)
                == walk_before(all, count as nat, walk as int, body_models(whole@), context@),
        decreases count,
    {
        count = count - 1;
        if let Some(instr) = find_walk_between(list, count, walk, whole, context) {
            return Some((count, instr));
        }
    }
    None
}

fn recover_own(
    list: Vec<(usize, IRInst)>,
    report: &mut Report,
    whole: &Vec<(usize, IRInst)>,
    context: &Context,
) -> (res: Vec<(usize, IRInst)>)
    ensures
        (body_models(res@), final(report).model()) == recovered_own(
            body_models(list@),
            old(report).model(),
            body_models(whole@),
            context@,
        ),
{
    let ghost all = body_models(list@);
    let mut items: Vec<(usize, IRInst)> = list;
    let mut walk: usize = 2;
    while walk < items.len()
        invariant
            2 <= walk,
            all == body_models(items@),
            all == body_models(list@),
            report.model() == old(report).model(),
            walk_from(all, 2, body_models(whole@), context@) == walk_from(
                all,
                walk as int,
                body_models(whole@),
                context@,
            ),
        decreases items@.len() - walk,
    {
        if let Some((counter, replacement)) = find_walk_before(&items, walk, whole, context) {
            let entry: usize = match &replacement {
                IRInst::ForEach { entry_offset, .. } => *entry_offset,
                _ => 0,
            };
            let offset: usize = items[walk].0;
            let ghost model = replacement.model();
            items.set(walk, (offset, replacement));
            items.remove(walk - 1);
            items.remove(counter);
            assert(body_models(items@) =~= all.update(walk as int, (offset, model)).remove(
                walk - 1,
            ).remove(counter as int));
            report.note(entry, "zero-terminated-vector-iteration");
            return items;
        }
        walk = walk + 1;
    }
    items
}

/// Recovers the first walk over a zero-terminated vector whose counter and element
/// nothing else uses, unless one was since `done` rewrites.
pub fn recover_vector_iterations(
    list: Vec<(usize, IRInst)>,
    report: &mut Report,
    done: usize,
    whole: &Vec<(usize, IRInst)>,
    context: &Context,
) -> (res: Vec<(usize, IRInst)>)
    ensures
        (body_models(res@), final(report).model()) == recovered(
            body_models(list@),
            old(report).model(),
            done as nat,
            body_models(whole@),
            context@,
        ),
    decreases depth_body(body_models(list@)), 2int, 0nat,
{
    if report.rewrites.len() > done {
        return list;
    }
    let items: Vec<(usize, IRInst)> = recover_vector_iterations_children(
        &list,
        report,
        done,
        whole,
        context,
    );
    if report.rewrites.len() > done || report.rewrites.len() >= MAX_REWRITES {
        return items;
    }
    recover_own(items, report, whole, context)
}

/// An instruction with the first walk in its lists recovered, unless one was
/// since `done` rewrites.
pub open spec fn recovered_child(
    offset: usize,
    instr: InstModel,
    report: ReportModel,
    done: nat,
    whole: Seq<(usize, InstModel)>,
    context: ContextModel,
) -> (InstModel, ReportModel)
    decreases depth(instr), 0int, 0nat,
{
    match instr {
        InstModel::If { condition, then_branch, else_branch } => {
            proof {
                lemma_tagged(then_branch, offset);
                lemma_tagged(else_branch, offset);
            }
            let first = recovered(tagged(then_branch, offset), report, done, whole, context);
            let second = recovered(tagged(else_branch, offset), first.1, done, whole, context);
            (InstModel::If {
                condition,
                then_branch: untagged(first.0),
                else_branch: untagged(second.0),
            }, second.1)
        },
        InstModel::While { label, entry_offset, condition, body } => {
            let inner = recovered(body, report, done, whole, context);
            (InstModel::While { label, entry_offset, condition, body: inner.0 }, inner.1)
        },
        InstModel::ForEach {
            entry_offset,
            condition_offset,
            advance_offset,
            load_offset,
            variable,
            element_type,
            vector,
            start,
            index_bits,
            body,
        } => {
            let inner = recovered(body, report, done, whole, context);
            (InstModel::ForEach {
                entry_offset,
                condition_offset,
                advance_offset,
                load_offset,
                variable,
                element_type,
                vector,
                start,
                index_bits,
                body: inner.0,
            }, inner.1)
        },
        _ => (instr, report),
    }
}

pub open spec fn recovered_children(
    list: Seq<(usize, InstModel)>,
    report: ReportModel,
    done: nat,
    whole: Seq<(usize, InstModel)>,
    context: ContextModel,
) -> (Seq<(usize, InstModel)>, ReportModel)
    decreases depth_body(list), 1int, list.len(),
{
    if list.len() == 0 {
        (Seq::empty(), report)
    } else {
        let before = recovered_children(list.drop_last(), report, done, whole, context);
        let item = list[list.len() - 1];
        let child = recovered_child(item.0, item.1, before.1, done, whole, context);
        (before.0.push((item.0, child.0)), child.1)
    }
}

fn recover_vector_iterations_child(
    offset: usize,
    instr: &IRInst,
    report: &mut Report,
    done: usize,
    whole: &Vec<(usize, IRInst)>,
    context: &Context,
) -> (res: IRInst)
    ensures
        (res.model(), final(report).model()) == recovered_child(
            offset,
            instr.model(),
            old(report).model(),
            done as nat,
            body_models(whole@),
            context@,
        ),
    decreases depth(instr.model()), 0int, 0nat,
{
    match instr {
        IRInst::If { condition, then_branch, else_branch } => {
            proof {
                lemma_tagged(models(then_branch@), offset);
                lemma_tagged(models(else_branch@), offset);
            }
            let first: Vec<(usize, IRInst)> = recover_vector_iterations(
                tag(then_branch, offset),
                report,
                done,
                whole,
                context,
            );
            let second: Vec<(usize, IRInst)> = recover_vector_iterations(
                tag(else_branch, offset),
                report,
                done,
                whole,
                context,
            );
            IRInst::If {
                condition: condition.clone(),
                then_branch: untag(first),
                else_branch: untag(second),
            }
        },
        IRInst::While { label, entry_offset, condition, body } => IRInst::While {
            label: *label,
            entry_offset: *entry_offset,
            condition: condition.clone(),
            body: recover_vector_iterations(clone_body(body), report, done, whole, context),
        },
        IRInst::ForEach {
            entry_offset,
            condition_offset,
            advance_offset,
            load_offset,
            variable,
            element_type,
            vector,
            start,
            index_bits,
            body,
        } => IRInst::ForEach {
            entry_offset: *entry_offset,
            condition_offset: *condition_offset,
            advance_offset: *advance_offset,
            load_offset: *load_offset,
            variable: *variable,
            element_type: element_type.clone(),
            vector: vector.clone(),
            start: *start,
            index_bits: *index_bits,
            body: recover_vector_iterations(clone_body(body), report, done, whole, context),
        },
        _ => instr.clone(),
    }
}

fn recover_vector_iterations_children(
    list: &Vec<(usize, IRInst)>,
    report: &mut Report,
    done: usize,
    whole: &Vec<(usize, IRInst)>,
    context: &Context,
) -> (res: Vec<(usize, IRInst)>)
    ensures
        (body_models(res@), final(report).model()) == recovered_children(
            body_models(list@),
            old(report).model(),
            done as nat,
            body_models(whole@),
            context@,
        ),
    decreases depth_body(body_models(list@)), 1int, list@.len(),
{
    let ghost all = body_models(list@);
    let ghost start = report.model();
    let mut res: Vec<(usize, IRInst)> = Vec::new();
    assert(all.subrange(0, 0) =~= Seq::empty());
    assert(body_models(res@) =~= Seq::empty());
    let mut i: usize = 0;
    while i < list.len()
        invariant
            i <= list@.len(),
            all == body_models(list@),
            (body_models(res@), report.model()) == recovered_children(
                all.subrange(0, i as int),
                start,
                done as nat,
                body_models(whole@),
                context@,
            ),
        decreases list@.len() - i,
    {
        let ghost prefix = all.subrange(0, i + 1);
        assert(prefix.drop_last() =~= all.subrange(0, i as int));
        proof {
            lemma_item_depth(all, i as int);
        }
        let ghost before = body_models(res@);
        let child: IRInst = recover_vector_iterations_child(
            list[i].0,
            &list[i].1,
            report,
            done,
            whole,
            context,
        );
        res.push((list[i].0, child));
        assert(body_models(res@) =~= before.push((all[i as int].0, child.model())));
        i = i + 1;
    }
    assert(all.subrange(0, i as int) =~= all);
    res
}


/// Whether no instruction of a branch writes what an expression reads.
pub open spec fn leaves_reads(branch: Seq<InstModel>, reads: Set<VariableId>) -> bool {
    forall|k: int|
        0 <= k < branch.len() ==> instruction_effects(#[trigger] branch[k]).writes.disjoint(reads)
}

fn keeps_reads(branch: &Vec<IRInst>, reads: &KeySet<VariableId>) -> (res: bool)
    ensures
        res == leaves_reads(models(branch@), reads@),
{
    let ghost all = models(branch@);
    let mut k: usize = 0;
    while k < branch.len()
        invariant
            k <= branch@.len(),
            all == models(branch@),
            forall|j: int|
                0 <= j < k ==> instruction_effects(#[trigger] all[j]).writes.disjoint(reads@),
        decreases branch@.len() - k,
    {
        assert(all[k as int] == branch@[k as int].model());
        if !Effects::of_instruction(&branch[k]).writes.is_disjoint(reads) {
            return false;
        }
        k = k + 1;
    }
    true
}

/// Two consecutive checks of the same pure condition as one, when neither arm of
/// the first check changes any value read by it.
pub open spec fn merged_branches(first: InstModel, second: InstModel) -> Option<InstModel> {
    match (first, second) {
        (
            InstModel::If { condition, then_branch, else_branch },
            InstModel::If {
                condition: other,
                then_branch: more_then,
                else_branch: more_else,
            },
        ) => {
            let reads = expression_effects(condition).reads;
            if condition == other && is_repeatable(condition) && leaves_reads(then_branch, reads)
                && leaves_reads(else_branch, reads) {
                Some(
                    InstModel::If {
                        condition,
                        then_branch: then_branch + more_then,
                        else_branch: else_branch + more_else,
                    },
                )
            } else {
                None
            }
        },
        _ => None,
    }
}

fn merge_branches(first: &IRInst, second: &IRInst) -> (res: Option<IRInst>)
    ensures
        match res {
            Some(made) => merged_branches(first.model(), second.model()) == Some(made.model()),
            None => merged_branches(first.model(), second.model()) is None,
        },
{
    match (first, second) {
        (
            IRInst::If { condition, then_branch, else_branch },
            IRInst::If {
                condition: other,
                then_branch: more_then,
                else_branch: more_else,
            },
        ) => {
            let reads: KeySet<VariableId> = Effects::of_expression(condition).reads;
            if condition.same(other) && repeatable(condition) && keeps_reads(then_branch, &reads)
                && keeps_reads(else_branch, &reads) {
                Some(
                    IRInst::If {
                        condition: condition.clone(),
                        then_branch: joined(then_branch, more_then),
                        else_branch: joined(else_branch, more_else),
                    },
                )
            } else {
                None
            }
        },
        _ => None,
    }
}

fn joined(first: &Vec<IRInst>, second: &Vec<IRInst>) -> (res: Vec<IRInst>)
    ensures
        models(res@) == models(first@) + models(second@),
{
    let mut res: Vec<IRInst> = Vec::new();
    let mut i: usize = 0;
    while i < first.len()
        invariant
            i <= first@.len(),
            res@.len() == i,
            forall|k: int| 0 <= k < i ==> (#[trigger] res@[k]).model() == first@[k].model(),
        decreases first@.len() - i,
    {
        res.push(first[i].clone());
        i = i + 1;
    }
    let mut i: usize = 0;
    while i < second.len()
        invariant
            i <= second@.len(),
            res@.len() == first@.len() + i,
            forall|k: int|
                0 <= k < first@.len() ==> (#[trigger] res@[k]).model() == first@[k].model(),
            forall|k: int|
                first@.len() <= k < first@.len() + i ==> (#[trigger] res@[k]).model() == second@[k
                    - first@.len()].model(),
        decreases second@.len() - i,
    {
        res.push(second[i].clone());
        i = i + 1;
    }
    assert(models(res@) =~= models(first@) + models(second@));
    res
}

/// The list with its own adjacent branches merged, from an item on, the report, and
/// whether the budget ran out. A third adjacent check may also be mergeable.
pub open spec fn merged_from(
    list: Seq<(usize, InstModel)>,
    index: nat,
    report: ReportModel,
) -> (Seq<(usize, InstModel)>, ReportModel, bool)
    decreases list.len() - index,
{
    if index + 1 >= list.len() {
        (list, report, false)
    } else if report.rewrites.len() >= MAX_REWRITES {
        (list, report.exhausted(), true)
    } else {
        let at = index as int;
        match merged_branches(list[at].1, list[at + 1].1) {
            Some(made) => merged_from(
                list.update(at, (list[at].0, made)).remove(at + 1),
                index,
                report.noting(list[at + 1].0, "merge-identical-adjacent-branches"@),
            ),
            None => merged_from(list, index + 1, report),
        }
    }
}

proof fn lemma_joined_depth(first: Seq<InstModel>, second: Seq<InstModel>)
    ensures
        depth_list(first + second) == larger(depth_list(first), depth_list(second)),
    decreases second.len(),
{
    let all = first + second;
    if second.len() == 0 {
        assert(all =~= first);
    } else {
        lemma_joined_depth(first, second.drop_last());
        assert(all.drop_last() =~= first + second.drop_last());
        assert(all[all.len() - 1] == second[second.len() - 1]);
    }
}

/// Merging branches makes no list deeper.
pub proof fn lemma_merged_depth(list: Seq<(usize, InstModel)>, index: nat, report: ReportModel)
    ensures
        depth_body(merged_from(list, index, report).0) <= depth_body(list),
    decreases list.len() - index,
{
    if index + 1 < list.len() && report.rewrites.len() < MAX_REWRITES {
        let at = index as int;
        match merged_branches(list[at].1, list[at + 1].1) {
            Some(made) => {
                let next = list.update(at, (list[at].0, made)).remove(at + 1);
                lemma_item_depth(list, at);
                lemma_item_depth(list, at + 1);
                lemma_merged_branches_depth(list[at].1, list[at + 1].1);
                assert forall|i: int| 0 <= i < next.len() implies depth((#[trigger] next[i]).1)
                    <= depth_body(list) by {
                    lemma_item_depth(
                        list,
                        if i <= at {
                            i
                        } else {
                            i + 1
                        },
                    );
                }
                lemma_depth_bound(next, depth_body(list));
                lemma_merged_depth(
                    next,
                    index,
                    report.noting(list[at + 1].0, "merge-identical-adjacent-branches"@),
                );
            },
            None => {
                lemma_merged_depth(list, index + 1, report);
            },
        }
    }
}

proof fn lemma_merged_branches_depth(first: InstModel, second: InstModel)
    ensures
        merged_branches(first, second) matches Some(made) ==> depth(made) <= larger(
            depth(first),
            depth(second),
        ),
{
    if let (
        InstModel::If { then_branch, else_branch, .. },
        InstModel::If { then_branch: more_then, else_branch: more_else, .. },
    ) = (first, second) {
        lemma_joined_depth(then_branch, more_then);
        lemma_joined_depth(else_branch, more_else);
    }
}

/// The list with the adjacent branches in it and in its lists merged.
pub open spec fn merged(list: Seq<(usize, InstModel)>, report: ReportModel) -> (
    Seq<(usize, InstModel)>,
    ReportModel,
)
    decreases depth_body(list), 2int, 0nat,
{
    proof {
        lemma_merged_depth(list, 0, report);
    }
    let own = merged_from(list, 0, report);
    if own.2 {
        (own.0, own.1)
    } else {
        merged_children(own.0, own.1)
    }
}

/// Merges consecutive checks of the same condition.
pub fn merge_adjacent_branches(list: Vec<(usize, IRInst)>, report: &mut Report) -> (res: Vec<
    (usize, IRInst),
>)
    ensures
        (body_models(res@), final(report).model()) == merged(
            body_models(list@),
            old(report).model(),
        ),
    decreases depth_body(body_models(list@)), 2int, 0nat,
{
    let ghost start = body_models(list@);
    let ghost initial = report.model();
    let mut items: Vec<(usize, IRInst)> = list;
    let mut index: usize = 0;
    while index < items.len() && items.len() - index > 1
        invariant
            start == body_models(list@),
            initial == old(report).model(),
            merged_from(start, 0, initial) == merged_from(
                body_models(items@),
                index as nat,
                report.model(),
            ),
        decreases items@.len() - index,
    {
        if report.rewrites.len() >= MAX_REWRITES {
            report.budget_exhausted = true;
            return items;
        }
        let ghost all = body_models(items@);
        assert(all[index as int].1 == items@[index as int].1.model());
        assert(all[index + 1].1 == items@[index + 1].1.model());
        match merge_branches(&items[index].1, &items[index + 1].1) {
            Some(made) => {
                let own: usize = items[index].0;
                let offset: usize = items[index + 1].0;
                let ghost model = made.model();
                items.set(index, (own, made));
                items.remove(index + 1);
                assert(body_models(items@) =~= all.update(index as int, (own, model)).remove(
                    index + 1,
                ));
                report.note(offset, "merge-identical-adjacent-branches");
            },
            None => {
                index = index + 1;
            },
        }
    }
    proof {
        lemma_merged_depth(start, 0, initial);
    }
    merge_adjacent_branches_children(&items, report)
}

/// An instruction with the adjacent branches in its lists merged.
pub open spec fn merged_child(
    offset: usize,
    instr: InstModel,
    report: ReportModel,
) -> (InstModel, ReportModel)
    decreases depth(instr), 0int, 0nat,
{
    match instr {
        InstModel::If { condition, then_branch, else_branch } => {
            proof {
                lemma_tagged(then_branch, offset);
                lemma_tagged(else_branch, offset);
            }
            let first = merged(tagged(then_branch, offset), report);
            let second = merged(tagged(else_branch, offset), first.1);
            (InstModel::If {
                condition,
                then_branch: untagged(first.0),
                else_branch: untagged(second.0),
            }, second.1)
        },
        InstModel::While { label, entry_offset, condition, body } => {
            let inner = merged(body, report);
            (InstModel::While { label, entry_offset, condition, body: inner.0 }, inner.1)
        },
        InstModel::ForEach {
            entry_offset,
            condition_offset,
            advance_offset,
            load_offset,
            variable,
            element_type,
            vector,
            start,
            index_bits,
            body,
        } => {
            let inner = merged(body, report);
            (InstModel::ForEach {
                entry_offset,
                condition_offset,
                advance_offset,
                load_offset,
                variable,
                element_type,
                vector,
                start,
                index_bits,
                body: inner.0,
            }, inner.1)
        },
        _ => (instr, report),
    }
}

pub open spec fn merged_children(
    list: Seq<(usize, InstModel)>,
    report: ReportModel,
) -> (Seq<(usize, InstModel)>, ReportModel)
    decreases depth_body(list), 1int, list.len(),
{
    if list.len() == 0 {
        (Seq::empty(), report)
    } else {
        let before = merged_children(list.drop_last(), report);
        let item = list[list.len() - 1];
        let child = merged_child(item.0, item.1, before.1);
        (before.0.push((item.0, child.0)), child.1)
    }
}

fn merge_adjacent_branches_child(
    offset: usize,
    instr: &IRInst,
    report: &mut Report,
) -> (res: IRInst)
    ensures
        (res.model(), final(report).model()) == merged_child(
            offset,
            instr.model(),
            old(report).model(),
        ),
    decreases depth(instr.model()), 0int, 0nat,
{
    match instr {
        IRInst::If { condition, then_branch, else_branch } => {
            proof {
                lemma_tagged(models(then_branch@), offset);
                lemma_tagged(models(else_branch@), offset);
            }
            let first: Vec<(usize, IRInst)> = merge_adjacent_branches(
                tag(then_branch, offset),
                report,
            );
            let second: Vec<(usize, IRInst)> = merge_adjacent_branches(
                tag(else_branch, offset),
                report,
            );
            IRInst::If {
                condition: condition.clone(),
                then_branch: untag(first),
                else_branch: untag(second),
            }
        },
        IRInst::While { label, entry_offset, condition, body } => IRInst::While {
            label: *label,
            entry_offset: *entry_offset,
            condition: condition.clone(),
            body: merge_adjacent_branches(clone_body(body), report),
        },
        IRInst::ForEach {
            entry_offset,
            condition_offset,
            advance_offset,
            load_offset,
            variable,
            element_type,
            vector,
            start,
            index_bits,
            body,
        } => IRInst::ForEach {
            entry_offset: *entry_offset,
            condition_offset: *condition_offset,
            advance_offset: *advance_offset,
            load_offset: *load_offset,
            variable: *variable,
            element_type: element_type.clone(),
            vector: vector.clone(),
            start: *start,
            index_bits: *index_bits,
            body: merge_adjacent_branches(clone_body(body), report),
        },
        _ => instr.clone(),
    }
}

fn merge_adjacent_branches_children(
    list: &Vec<(usize, IRInst)>,
    report: &mut Report,
) -> (res: Vec<(usize, IRInst)>)
    ensures
        (body_models(res@), final(report).model()) == merged_children(
            body_models(list@),
            old(report).model(),
        ),
    decreases depth_body(body_models(list@)), 1int, list@.len(),
{
    let ghost all = body_models(list@);
    let ghost start = report.model();
    let mut res: Vec<(usize, IRInst)> = Vec::new();
    assert(all.subrange(0, 0) =~= Seq::empty());
    assert(body_models(res@) =~= Seq::empty());
    let mut i: usize = 0;
    while i < list.len()
        invariant
            i <= list@.len(),
            all == body_models(list@),
            (body_models(res@), report.model()) == merged_children(
                all.subrange(0, i as int),
                start,
            ),
        decreases list@.len() - i,
    {
        let ghost prefix = all.subrange(0, i + 1);
        assert(prefix.drop_last() =~= all.subrange(0, i as int));
        proof {
            lemma_item_depth(all, i as int);
        }
        let ghost before = body_models(res@);
        let child: IRInst = merge_adjacent_branches_child(list[i].0, &list[i].1, report);
        res.push((list[i].0, child));
        assert(body_models(res@) =~= before.push((all[i as int].0, child.model())));
        i = i + 1;
    }
    assert(all.subrange(0, i as int) =~= all);
    res
}


} // verus!
