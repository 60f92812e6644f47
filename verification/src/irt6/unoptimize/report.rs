//! The report as comment lines.
use super::{Report, ReportModel, RewriteModel};
use crate::irt6::arithmetic::{put_value, value_text, ValueModel};
use crate::irt6::ir::VariableId;
use crate::irt6::shapes::loops::{
    analysis_models, texts, update_models, AnalysisModel, LoopAnalysis, SubtractionLoop,
    SubtractionModel,
};
use crate::text::{decimal, hex, owned, put, put_decimal, put_hex};
use vstd::prelude::*;

verus! {

/// The text after the updates that a loop makes.
pub open spec fn updates_text(out: Seq<char>, updates: Seq<(VariableId, ValueModel)>) -> Seq<char>
    decreases updates.len(),
{
    if updates.len() == 0 {
        out
    } else {
        value_text(
            updates_text(out, updates.drop_last()) + "//   v"@ + decimal(
                updates.last().0.id as nat,
            ) + "' = "@,
            updates.last().1,
        ) + "\n"@
    }
}

/// The text after what keeps a loop from being recovered.
pub open spec fn blockers_text(out: Seq<char>, blockers: Seq<Seq<char>>) -> Seq<char>
    decreases blockers.len(),
{
    if blockers.len() == 0 {
        out
    } else {
        blockers_text(out, blockers.drop_last()) + "//   blocked: "@ + blockers.last() + "\n"@
    }
}

/// The text after a repeated subtraction.
pub open spec fn subtraction_text(out: Seq<char>, shape: SubtractionModel) -> Seq<char> {
    let headed = value_text(
        out + "//   repeated subtraction: v"@ + decimal(shape.accumulator.id as nat)
            + ", stride "@,
        shape.stride,
    ) + ", u"@ + decimal(shape.bits as nat) + "\n"@;
    let blocked = blockers_text(headed, shape.blockers);
    if shape.blockers.len() == 0 {
        blocked + "//   unknown strides require allow_assumptions\n"@
    } else {
        blocked
    }
}

/// The text after the analysis of a loop.
pub open spec fn analysis_text(out: Seq<char>, heading: Seq<char>, analysis: AnalysisModel) -> Seq<
    char,
> {
    let headed = value_text(
        out + "// "@ + heading + " loop 0x"@ + hex(analysis.offset as nat) + ": "@,
        analysis.check,
    ) + "\n"@;
    let updated = updates_text(headed, analysis.updates);
    match analysis.subtraction {
        Some(shape) => subtraction_text(updated, shape),
        None => updated + "//   no registered arithmetic shape\n"@,
    }
}

pub open spec fn analyses_text(
    out: Seq<char>,
    heading: Seq<char>,
    analyses: Seq<AnalysisModel>,
) -> Seq<char>
    decreases analyses.len(),
{
    if analyses.len() == 0 {
        out
    } else {
        analysis_text(
            analyses_text(out, heading, analyses.drop_last()),
            heading,
            analyses.last(),
        )
    }
}

/// The text after the rewrites.
pub open spec fn rewrites_text(out: Seq<char>, rewrites: Seq<RewriteModel>) -> Seq<char>
    decreases rewrites.len(),
{
    if rewrites.len() == 0 {
        out
    } else {
        rewrites_text(out, rewrites.drop_last()) + "// rewrite at 0x"@ + hex(
            rewrites.last().offset as nat,
        ) + ": "@ + rewrites.last().rule + "\n"@
    }
}

/// The text of a report.
pub open spec fn report_text(report: ReportModel) -> Seq<char> {
    let input = analyses_text(
        "// Tier 6 arithmetic analysis (bit-vector sums)\n"@,
        "input"@,
        report.before,
    );
    let remaining = analyses_text(input, "remaining"@, report.remaining);
    let rewrites = rewrites_text(remaining, report.rewrites);
    if report.budget_exhausted {
        rewrites + "// rewrite budget exhausted; unmatched code retained\n"@
    } else {
        rewrites
    }
}

fn put_subtraction(out: &mut String, shape: &SubtractionLoop)
    ensures
        final(out)@ == subtraction_text(old(out)@, shape.model()),
{
    put(out, "//   repeated subtraction: v");
    put_decimal(out, shape.accumulator.id as u128);
    put(out, ", stride ");
    put_value(out, &shape.stride);
    put(out, ", u");
    put_decimal(out, shape.bits as u128);
    put(out, "\n");
    let ghost start = out@;
    let ghost all = texts(shape.blockers@);
    assert(all.subrange(0, 0) =~= Seq::empty());
    let mut i: usize = 0;
    while i < shape.blockers.len()
        invariant
            i <= shape.blockers@.len(),
            all == texts(shape.blockers@),
            out@ == blockers_text(start, all.subrange(0, i as int)),
        decreases shape.blockers@.len() - i,
    {
        let ghost prefix = all.subrange(0, i + 1);
        assert(prefix.drop_last() =~= all.subrange(0, i as int));
        put(out, "//   blocked: ");
        put(out, shape.blockers[i]);
        put(out, "\n");
        i = i + 1;
    }
    assert(all.subrange(0, i as int) =~= all);
    if shape.blockers.len() == 0 {
        put(out, "//   unknown strides require allow_assumptions\n");
    }
}

fn put_analysis(out: &mut String, heading: &str, analysis: &LoopAnalysis)
    ensures
        final(out)@ == analysis_text(old(out)@, heading@, analysis.model()),
{
    put(out, "// ");
    put(out, heading);
    put(out, " loop 0x");
    put_hex(out, analysis.offset as u128);
    put(out, ": ");
    put_value(out, &analysis.check);
    put(out, "\n");
    let ghost start = out@;
    let ghost all = update_models(analysis.updates@);
    assert(all.subrange(0, 0) =~= Seq::empty());
    let mut i: usize = 0;
    while i < analysis.updates.len()
        invariant
            i <= analysis.updates@.len(),
            all == update_models(analysis.updates@),
            out@ == updates_text(start, all.subrange(0, i as int)),
        decreases analysis.updates@.len() - i,
    {
        let ghost prefix = all.subrange(0, i + 1);
        assert(prefix.drop_last() =~= all.subrange(0, i as int));
        put(out, "//   v");
        put_decimal(out, analysis.updates[i].0.id as u128);
        put(out, "' = ");
        put_value(out, &analysis.updates[i].1);
        put(out, "\n");
        i = i + 1;
    }
    assert(all.subrange(0, i as int) =~= all);
    match &analysis.subtraction {
        Some(shape) => {
            put_subtraction(out, shape);
        },
        None => {
            put(out, "//   no registered arithmetic shape\n");
        },
    }
}

fn put_analyses(out: &mut String, heading: &str, analyses: &Vec<LoopAnalysis>)
    ensures
        final(out)@ == analyses_text(old(out)@, heading@, analysis_models(analyses@)),
{
    let ghost all = analysis_models(analyses@);
    assert(all.subrange(0, 0) =~= Seq::empty());
    let mut i: usize = 0;
    while i < analyses.len()
        invariant
            i <= analyses@.len(),
            all == analysis_models(analyses@),
            out@ == analyses_text(old(out)@, heading@, all.subrange(0, i as int)),
        decreases analyses@.len() - i,
    {
        let ghost prefix = all.subrange(0, i + 1);
        assert(prefix.drop_last() =~= all.subrange(0, i as int));
        put_analysis(out, heading, &analyses[i]);
        i = i + 1;
    }
    assert(all.subrange(0, i as int) =~= all);
}

impl Report {
    pub fn render(&self) -> (res: String)
        ensures
            res@ == report_text(self.model()),
    {
        let mut output = owned("// Tier 6 arithmetic analysis (bit-vector sums)\n");
        put_analyses(&mut output, "input", &self.before);
        put_analyses(&mut output, "remaining", &self.remaining);
        let ghost start = output@;
        let ghost all = self.model().rewrites;
        assert(all.subrange(0, 0) =~= Seq::empty());
        let mut i: usize = 0;
        while i < self.rewrites.len()
            invariant
                i <= self.rewrites@.len(),
                all == self.model().rewrites,
                output@ == rewrites_text(start, all.subrange(0, i as int)),
            decreases self.rewrites@.len() - i,
        {
            let ghost prefix = all.subrange(0, i + 1);
            assert(prefix.drop_last() =~= all.subrange(0, i as int));
            put(&mut output, "// rewrite at 0x");
            put_hex(&mut output, self.rewrites[i].offset as u128);
            put(&mut output, ": ");
            put(&mut output, self.rewrites[i].rule);
            put(&mut output, "\n");
            i = i + 1;
        }
        assert(all.subrange(0, i as int) =~= all);
        if self.budget_exhausted {
            put(&mut output, "// rewrite budget exhausted; unmatched code retained\n");
        }
        output
    }
}

} // verus!
