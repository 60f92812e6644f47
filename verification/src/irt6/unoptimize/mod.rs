//! Small, ordered rewrite rules with a bounded local fixed point.
//!
//! Entry facts are invalidated by writes. Loop bodies retain only invariant
//! facts. Each successful rewrite restarts rule selection; a recognizer can
//! therefore rely on shapes established by earlier, independent rules.
pub mod facts;
pub mod guards;
pub mod merging;
pub mod remainder;
pub mod report;
pub mod rotation;
pub mod rules;
pub mod sequences;

use crate::irt6::arithmetic::{context_of, Context};
use crate::irt6::eliminate_variables::program_without_copies;
use crate::irt6::infer_returns::program_with_results;
use crate::irt6::infer_types::program_promoted;
use crate::irt6::ir::{
    body_models, clone_body, function_models, FunctionModel, IRInst, InstModel, Program,
    ProgramModel, SyntheticFunction,
};
use crate::irt6::relocate_variables::program_relocated;
use crate::irt6::shapes::loops::{analysis_models, AnalysisModel, Collector, LoopAnalysis};
use crate::irt6::shapes::{collect_loop_analyses, visit::seen_in_program};
use crate::irt6::{eliminate_variables, infer_returns, infer_types, relocate_variables};
use facts::{no_facts, Facts};
use sequences::{
    collapse_temporary_assignments, collapsed, recover_vector_iterations, recovered, sequence,
    sequenced, MAX_REWRITES,
};
use vstd::prelude::*;

verus! {

/// How far rewrites may go.
#[derive(Debug, Clone, Copy, PartialEq, Eq, Structural)]
pub struct Options {
    /// Allow rewrites that rely on assumptions about otherwise unknown values.
    pub allow_assumptions: bool,
}

impl Default for Options {
    fn default() -> (res: Self)
        ensures
            res.allow_assumptions,
    {
        Options { allow_assumptions: true }
    }
}

/// A rewrite that was made.
#[derive(Debug)]
pub struct Rewrite {
    pub offset: usize,
    pub rule: &'static str,
}

pub struct RewriteModel {
    pub offset: usize,
    pub rule: Seq<char>,
}

impl Rewrite {
    pub open spec fn model(self) -> RewriteModel {
        RewriteModel { offset: self.offset, rule: self.rule@ }
    }
}

pub open spec fn rewrite_models(rewrites: Seq<Rewrite>) -> Seq<RewriteModel> {
    rewrites.map_values(|r: Rewrite| r.model())
}

/// The loops before and after, and the rewrites between.
pub struct Report {
    pub before: Vec<LoopAnalysis>,
    pub rewrites: Vec<Rewrite>,
    pub remaining: Vec<LoopAnalysis>,
    pub budget_exhausted: bool,
}

pub struct ReportModel {
    pub before: Seq<AnalysisModel>,
    pub rewrites: Seq<RewriteModel>,
    pub remaining: Seq<AnalysisModel>,
    pub budget_exhausted: bool,
}

impl ReportModel {
    /// The report with one more rewrite.
    pub open spec fn noting(self, offset: usize, rule: Seq<char>) -> Self {
        ReportModel { rewrites: self.rewrites.push(RewriteModel { offset, rule }), ..self }
    }

    /// The report after the budget ran out.
    pub open spec fn exhausted(self) -> Self {
        ReportModel { budget_exhausted: true, ..self }
    }
}

impl Report {
    pub open spec fn model(self) -> ReportModel {
        ReportModel {
            before: analysis_models(self.before@),
            rewrites: rewrite_models(self.rewrites@),
            remaining: analysis_models(self.remaining@),
            budget_exhausted: self.budget_exhausted,
        }
    }

    fn note(&mut self, offset: usize, rule: &'static str)
        ensures
            final(self).model() == old(self).model().noting(offset, rule@),
    {
        let ghost before = rewrite_models(self.rewrites@);
        self.rewrites.push(Rewrite { offset, rule });
        assert(rewrite_models(self.rewrites@) =~= before.push(
            RewriteModel { offset, rule: rule@ },
        ));
    }
}

/// The loops of a program, as far as they are understood.
pub open spec fn loops_in(program: ProgramModel) -> Seq<AnalysisModel> {
    seen_in_program::<Collector>(Seq::empty(), program)
}

/// A body with its walks recovered one after another. Each one is a rewrite, so as
/// many rounds as the budget allows are enough.
pub open spec fn walks_recovered(
    body: Seq<(usize, InstModel)>,
    report: ReportModel,
    function: FunctionModel,
    rounds: nat,
) -> (Seq<(usize, InstModel)>, ReportModel)
    decreases rounds,
{
    if rounds == 0 {
        (body, report)
    } else {
        let made = recovered(body, report, report.rewrites.len(), body, context_of(function));
        if made.1.rewrites.len() == report.rewrites.len() || made.1.rewrites.len()
            >= MAX_REWRITES {
            made
        } else {
            walks_recovered(made.0, made.1, function, (rounds - 1) as nat)
        }
    }
}

/// The body of a function with its operations and walks recovered. Collapsing a
/// temporary can expose a remainder directly inside its guard, so the local rules
/// run on the result again.
pub open spec fn body_recovered(
    function: FunctionModel,
    report: ReportModel,
    options: Options,
) -> (Seq<(usize, InstModel)>, ReportModel) {
    let context = context_of(function);
    let first = sequenced(function.body, no_facts(), report, context, options);
    let second = collapsed(first.list, first.report, first.list, context);
    let third = sequenced(second.0, no_facts(), second.1, context, options);
    walks_recovered(third.list, third.report, function, MAX_REWRITES as nat)
}

/// The first `count` functions with their operations and walks recovered.
pub open spec fn functions_recovered(
    functions: Seq<FunctionModel>,
    report: ReportModel,
    options: Options,
    count: int,
) -> (Seq<FunctionModel>, ReportModel)
    decreases count,
{
    if count <= 0 {
        (functions, report)
    } else {
        let before = functions_recovered(functions, report, options, count - 1);
        let made = body_recovered(functions[count - 1], before.1, options);
        (
            before.0.update(
                count - 1,
                FunctionModel { body: made.0, ..functions[count - 1] },
            ),
            made.1,
        )
    }
}

/// The first `count` functions after the local rules.
pub open spec fn functions_sequenced(
    functions: Seq<FunctionModel>,
    report: ReportModel,
    options: Options,
    count: int,
) -> (Seq<FunctionModel>, ReportModel)
    decreases count,
{
    if count <= 0 {
        (functions, report)
    } else {
        let before = functions_sequenced(functions, report, options, count - 1);
        let made = sequenced(
            functions[count - 1].body,
            no_facts(),
            before.1,
            context_of(functions[count - 1]),
            options,
        );
        (
            before.0.update(
                count - 1,
                FunctionModel { body: made.list, ..functions[count - 1] },
            ),
            made.report,
        )
    }
}

/// A program with its operations recovered, and the report. Type promotion exposes
/// string length checks. Locals are placed anew after those rewrites, then copies
/// made adjacent by the move are folded.
pub open spec fn recovered_program(program: ProgramModel, options: Options) -> (
    ProgramModel,
    ReportModel,
) {
    let report = ReportModel {
        before: loops_in(program),
        rewrites: Seq::empty(),
        remaining: Seq::empty(),
        budget_exhausted: false,
    };
    let first = functions_recovered(
        program.functions,
        report,
        options,
        program.functions.len() as int,
    );
    let typed = program_promoted(ProgramModel { functions: first.0, ..program });
    let second = functions_sequenced(
        typed.functions,
        first.1,
        options,
        typed.functions.len() as int,
    );
    let made = program_without_copies(
        program_with_results(
            program_relocated(ProgramModel { functions: second.0, ..typed }),
        ),
    );
    (made, ReportModel { remaining: loops_in(made), ..second.1 })
}

fn recover_walks(
    body: Vec<(usize, IRInst)>,
    report: &mut Report,
    function: Ghost<FunctionModel>,
    context: &Context,
) -> (res: Vec<(usize, IRInst)>)
    requires
        context@ == context_of(function@),
    ensures
        (body_models(res@), final(report).model()) == walks_recovered(
            body_models(body@),
            old(report).model(),
            function@,
            MAX_REWRITES as nat,
        ),
{
    let ghost start = body_models(body@);
    let ghost initial = report.model();
    let mut items: Vec<(usize, IRInst)> = body;
    let mut rounds: usize = MAX_REWRITES;
    while rounds > 0
        invariant
            rounds <= MAX_REWRITES,
            start == body_models(body@),
            initial == old(report).model(),
            context@ == context_of(function@),
            walks_recovered(start, initial, function@, MAX_REWRITES as nat) == walks_recovered(
                body_models(items@),
                report.model(),
                function@,
                rounds as nat,
            ),
        decreases rounds,
    {
        let done: usize = report.rewrites.len();
        let made: Vec<(usize, IRInst)> = recover_vector_iterations(
            clone_body(&items),
            report,
            done,
            &items,
            context,
        );
        items = made;
        if report.rewrites.len() == done || report.rewrites.len() >= MAX_REWRITES {
            return items;
        }
        rounds = rounds - 1;
    }
    items
}

fn recover_body(function: &SyntheticFunction, report: &mut Report, options: &Options) -> (res: Vec<
    (usize, IRInst),
>)
    ensures
        (body_models(res@), final(report).model()) == body_recovered(
            function.model(),
            old(report).model(),
            *options,
        ),
{
    let context: Context = Context::from_function(function);
    let first: Vec<(usize, IRInst)> = sequence(
        &function.body,
        Facts::new(),
        report,
        &context,
        options,
    );
    let second: Vec<(usize, IRInst)> = collapse_temporary_assignments(
        clone_body(&first),
        report,
        &first,
        &context,
    );
    let third: Vec<(usize, IRInst)> = sequence(&second, Facts::new(), report, &context, options);
    recover_walks(third, report, Ghost(function.model()), &context)
}

/// Recovers the operations of a program.
pub fn run(program: &mut Program) -> (res: Report)
    ensures
        (final(program).model(), res.model()) == recovered_program(
            old(program).model(),
            Options { allow_assumptions: true },
        ),
{
    run_with_options(program, Options { allow_assumptions: true })
}

/// Recovers the operations of a program as far as the options allow.
pub fn run_with_options(program: &mut Program, options: Options) -> (res: Report)
    ensures
        (final(program).model(), res.model()) == recovered_program(old(program).model(), options),
{
    let mut report = Report {
        before: collect_loop_analyses(program),
        rewrites: Vec::new(),
        remaining: Vec::new(),
        budget_exhausted: false,
    };
    assert(report.model().rewrites =~= Seq::empty());
    assert(report.model().remaining =~= Seq::empty());
    recover_functions(program, &mut report, &options);
    infer_types::run(program);
    sequence_functions(program, &mut report, &options);
    relocate_variables::run(program);
    infer_returns::run(program);
    eliminate_variables::run(program);
    report.remaining = collect_loop_analyses(program);
    report
}

fn recover_functions(program: &mut Program, report: &mut Report, options: &Options)
    ensures
        ({
            let made = functions_recovered(
                old(program).model().functions,
                old(report).model(),
                *options,
                old(program).model().functions.len() as int,
            );
            &&& final(program).model() == ProgramModel {
                functions: made.0,
                ..old(program).model()
            }
            &&& final(report).model() == made.1
        }),
{
    let ghost before = function_models(program.functions@);
    let ghost initial = *program;
    let ghost empty = report.model();
    let total: usize = program.functions.len();
    let mut i: usize = 0;
    while i < total
        invariant
            i <= total,
            total == program.functions@.len(),
            total == before.len(),
            *program == (Program { functions: program.functions, ..initial }),
            (function_models(program.functions@), report.model()) == functions_recovered(
                before,
                empty,
                *options,
                i as int,
            ),
            forall|k: int|
                i <= k < total ==> (#[trigger] program.functions@[k]).model() == before[k],
        decreases total - i,
    {
        let ghost all = function_models(program.functions@);
        let body: Vec<(usize, IRInst)> = recover_body(&program.functions[i], report, options);
        let ghost made = body_models(body@);
        program.functions[i].body = body;
        assert(function_models(program.functions@) =~= all.update(
            i as int,
            FunctionModel { body: made, ..before[i as int] },
        ));
        i = i + 1;
    }
}

fn sequence_functions(program: &mut Program, report: &mut Report, options: &Options)
    ensures
        ({
            let made = functions_sequenced(
                old(program).model().functions,
                old(report).model(),
                *options,
                old(program).model().functions.len() as int,
            );
            &&& final(program).model() == ProgramModel {
                functions: made.0,
                ..old(program).model()
            }
            &&& final(report).model() == made.1
        }),
{
    let ghost before = function_models(program.functions@);
    let ghost initial = *program;
    let ghost empty = report.model();
    let total: usize = program.functions.len();
    let mut i: usize = 0;
    while i < total
        invariant
            i <= total,
            total == program.functions@.len(),
            total == before.len(),
            *program == (Program { functions: program.functions, ..initial }),
            (function_models(program.functions@), report.model()) == functions_sequenced(
                before,
                empty,
                *options,
                i as int,
            ),
            forall|k: int|
                i <= k < total ==> (#[trigger] program.functions@[k]).model() == before[k],
        decreases total - i,
    {
        let ghost all = function_models(program.functions@);
        let context: Context = Context::from_function(&program.functions[i]);
        let body: Vec<(usize, IRInst)> = sequence(
            &program.functions[i].body,
            Facts::new(),
            report,
            &context,
            options,
        );
        let ghost made = body_models(body@);
        program.functions[i].body = body;
        assert(function_models(program.functions@) =~= all.update(
            i as int,
            FunctionModel { body: made, ..before[i as int] },
        ));
        i = i + 1;
    }
}

} // verus!
