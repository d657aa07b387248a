//! Side-by-side comparison of two scenarios.
use vstd::prelude::*;
use vstd::string::*;

use crate::diagnostic::{BlameEntry, Diagnostic};
use crate::keyframe::Keyframe;
use crate::metric::{cost_name, cumulative_weight, risk_name, series_matches, MetricSeries};
use crate::pipeline::PipelineResult;
use crate::text::copy_opt_string;

verus! {

/// Summary of a comparison between two pipeline results.
#[derive(Debug)]
pub struct ComparisonSummary {
    pub name_a: String,
    pub name_b: String,
    pub schedule_days_a: i64,
    pub schedule_days_b: i64,
    pub schedule_delta_days: i64,
    pub risk_final_a: i64,
    pub risk_final_b: i64,
    pub risk_delta: i64,
    pub cost_final_a: i64,
    pub cost_final_b: i64,
    pub cost_delta: i64,
    pub diag_count_a: usize,
    pub diag_count_b: usize,
    pub unique_to_a: Vec<Diagnostic>,
    pub unique_to_b: Vec<Diagnostic>,
}

/// Two diagnostics report the same thing: same keyframe, activity, probe and message.
pub open spec fn same_diagnostic(a: Diagnostic, b: Diagnostic) -> bool {
    a.keyframe_index == b.keyframe_index && a.activity_id@ == b.activity_id@ && a.probe_id@ == b.probe_id@
        && a.message@ == b.message@
}

/// Whether some diagnostic of `others` reports the same thing as `d`.
pub open spec fn has_counterpart(others: Seq<Diagnostic>, d: Diagnostic) -> bool {
    exists|j: int| 0 <= j < others.len() && #[trigger] same_diagnostic(d, others[j])
}

/// The diagnostics of `mine` that `others` does not report, in order.
pub open spec fn unique_diagnostics(mine: Seq<Diagnostic>, others: Seq<Diagnostic>) -> Seq<Diagnostic> {
    mine.filter(|d: Diagnostic| !has_counterpart(others, d))
}

/// Whether `x` is a copy of `y`: every field equal.
pub open spec fn is_copy(x: Diagnostic, y: Diagnostic) -> bool {
    &&& x.keyframe_index == y.keyframe_index
    &&& x.keyframe_date == y.keyframe_date
    &&& x.activity_id == y.activity_id
    &&& x.probe_id == y.probe_id
    &&& x.level == y.level
    &&& x.message == y.message
    &&& x.blame@ == y.blame@
    &&& x.series_id == y.series_id
}

/// Whether `xs` holds copies of `ys`, position by position.
pub open spec fn are_copies(xs: Seq<Diagnostic>, ys: Seq<Diagnostic>) -> bool {
    xs.len() == ys.len() && forall|n: int| 0 <= n < xs.len() ==> #[trigger] is_copy(xs[n], ys[n])
}

/// The last cumulative value of the first series with the given name, or 0.
pub open spec fn final_value(metrics: Seq<MetricSeries>, name: Seq<char>) -> int
    decreases metrics.len(),
{
    if metrics.len() == 0 {
        0
    } else if metrics[0].config.name@ == name {
        if metrics[0].points@.len() == 0 {
            0
        } else {
            metrics[0].points@.last().cumulative as int
        }
    } else {
        final_value(metrics.drop_first(), name)
    }
}

/// The scenario's display name: the model's name, or the given fallback.
pub open spec fn scenario_name(r: PipelineResult, fallback: Seq<char>) -> Seq<char> {
    match r.model.name {
        Some(n) => n@,
        None => fallback,
    }
}

/// Whether the differences a comparison of `a` with `b` computes (A minus B)
/// fit in an `i64`: the schedules', the final risks' and the final costs'.
pub open spec fn differences_fit(a: PipelineResult, b: PipelineResult) -> bool {
    &&& i64::MIN <= a.schedule_duration - b.schedule_duration <= i64::MAX
    &&& i64::MIN <= final_value(a.metrics@, risk_name()) - final_value(b.metrics@, risk_name()) <= i64::MAX
    &&& i64::MIN <= final_value(a.metrics@, cost_name()) - final_value(b.metrics@, cost_name()) <= i64::MAX
}

/// Whether a summary compares scenario `a` with scenario `b`: their schedules,
/// the last running totals of their risk and cost and the differences (A
/// minus B), their diagnostic counts, and copies of the diagnostics each
/// reports that the other does not.
pub open spec fn summarizes(s: ComparisonSummary, a: PipelineResult, b: PipelineResult) -> bool {
    &&& s.schedule_days_a == a.schedule_duration
    &&& s.schedule_days_b == b.schedule_duration
    &&& s.schedule_delta_days == a.schedule_duration - b.schedule_duration
    &&& s.risk_final_a == final_value(a.metrics@, risk_name())
    &&& s.risk_final_b == final_value(b.metrics@, risk_name())
    &&& s.risk_delta == s.risk_final_a - s.risk_final_b
    &&& s.cost_final_a == final_value(a.metrics@, cost_name())
    &&& s.cost_final_b == final_value(b.metrics@, cost_name())
    &&& s.cost_delta == s.cost_final_a - s.cost_final_b
    &&& s.diag_count_a == a.diagnostics@.len()
    &&& s.diag_count_b == b.diagnostics@.len()
    &&& are_copies(s.unique_to_a@, unique_diagnostics(a.diagnostics@, b.diagnostics@))
    &&& are_copies(s.unique_to_b@, unique_diagnostics(b.diagnostics@, a.diagnostics@))
}

/// A copy of a diagnostic.
pub fn copy_diagnostic(d: &Diagnostic) -> (c: Diagnostic)
    ensures
        is_copy(c, *d),
{
    let mut blame: Vec<BlameEntry> = Vec::new();
    let mut i: usize = 0;
    while i < d.blame.len()
        invariant
            i <= d.blame@.len(),
            blame@ =~= d.blame@.take(i as int),
        decreases d.blame@.len() - i,
    {
        let b = &d.blame[i];
        blame.push(
            BlameEntry {
                activity_id: b.activity_id.clone(),
                projection_id: b.projection_id.clone(),
                contribution_summary: b.contribution_summary.clone(),
                confidence: b.confidence,
            },
        );
        i += 1;
    }
    assert(blame@ =~= d.blame@);
    Diagnostic {
        keyframe_index: d.keyframe_index,
        keyframe_date: d.keyframe_date,
        activity_id: d.activity_id.clone(),
        probe_id: d.probe_id.clone(),
        level: d.level,
        message: d.message.clone(),
        blame,
        series_id: copy_opt_string(&d.series_id),
    }
}

/// Whether two diagnostics report the same thing.
fn same_report(a: &Diagnostic, b: &Diagnostic) -> (r: bool)
    ensures
        r == same_diagnostic(*a, *b),
{
    a.keyframe_index == b.keyframe_index && crate::text::text_eq(&a.activity_id, &b.activity_id)
        && crate::text::text_eq(&a.probe_id, &b.probe_id) && crate::text::text_eq(&a.message, &b.message)
}

/// Copies of the diagnostics of `mine` that `others` does not report.
fn unique_to(mine: &Vec<Diagnostic>, others: &Vec<Diagnostic>) -> (out: Vec<Diagnostic>)
    ensures
        are_copies(out@, unique_diagnostics(mine@, others@)),
{
    let mut out: Vec<Diagnostic> = Vec::new();
    let mut i: usize = 0;
    while i < mine.len()
        invariant
            i <= mine@.len(),
            are_copies(out@, unique_diagnostics(mine@.take(i as int), others@)),
        decreases mine@.len() - i,
    {
        let d = &mine[i];
        let mut found = false;
        let mut j: usize = 0;
        while j < others.len()
            invariant
                j <= others@.len(),
                found == exists|k: int| 0 <= k < j && #[trigger] same_diagnostic(*d, others@[k]),
            decreases others@.len() - j,
        {
            if same_report(d, &others[j]) {
                found = true;
            }
            j += 1;
        }
        proof {
            reveal_with_fuel(Seq::<_>::filter, 1);
            assert(mine@.take(i + 1).drop_last() =~= mine@.take(i as int));
            assert(found == has_counterpart(others@, *d));
        }
        let ghost before = out@;
        if !found {
            out.push(copy_diagnostic(d));
            assert forall|n: int| 0 <= n < out@.len() implies #[trigger] is_copy(
                out@[n],
                unique_diagnostics(mine@.take(i + 1), others@)[n],
            ) by {
                if n < before.len() {
                    assert(is_copy(before[n], unique_diagnostics(mine@.take(i as int), others@)[n]));
                }
            }
        }
        i += 1;
    }
    assert(mine@.take(i as int) =~= mine@);
    out
}

/// The last cumulative value of the first series with the given name, or 0.
fn final_metric(metrics: &Vec<MetricSeries>, name: &str) -> (v: i64)
    ensures
        v == final_value(metrics@, name@),
{
    let mut i: usize = 0;
    assert(metrics@.skip(0) =~= metrics@);
    while i < metrics.len()
        invariant
            i <= metrics@.len(),
            final_value(metrics@, name@) == final_value(metrics@.skip(i as int), name@),
        decreases metrics@.len() - i,
    {
        assert(metrics@.skip(i as int)[0] == metrics@[i as int]);
        assert(metrics@.skip(i as int).drop_first() =~= metrics@.skip(i + 1));
        if crate::text::text_eq(&metrics[i].config.name, &name.to_owned()) {
            let n = metrics[i].points.len();
            if n == 0 {
                return 0;
            }
            return metrics[i].points[n - 1].cumulative;
        }
        i += 1;
    }
    0
}

/// Compare two pipeline results: schedule, risk and cost (the last running
/// totals of `risk_index` and `cost_impact`), their differences (A minus B),
/// diagnostic counts, and copies of the diagnostics each reports that the
/// other does not (same keyframe, activity, probe and message).
pub fn compare_results(a: &PipelineResult, b: &PipelineResult) -> (s: ComparisonSummary)
    requires
        differences_fit(*a, *b),
    ensures
        s.name_a@ == scenario_name(*a, "Scenario A"@),
        s.name_b@ == scenario_name(*b, "Scenario B"@),
        summarizes(s, *a, *b),
{
    let risk_a = final_metric(&a.metrics, "risk_index");
    let risk_b = final_metric(&b.metrics, "risk_index");
    let cost_a = final_metric(&a.metrics, "cost_impact");
    let cost_b = final_metric(&b.metrics, "cost_impact");
    let unique_a = unique_to(&a.diagnostics, &b.diagnostics);
    let unique_b = unique_to(&b.diagnostics, &a.diagnostics);
    let name_a = match &a.model.name {
        Some(n) => n.clone(),
        None => "Scenario A".to_owned(),
    };
    let name_b = match &b.model.name {
        Some(n) => n.clone(),
        None => "Scenario B".to_owned(),
    };
    ComparisonSummary {
        name_a,
        name_b,
        schedule_days_a: a.schedule_duration,
        schedule_days_b: b.schedule_duration,
        schedule_delta_days: a.schedule_duration - b.schedule_duration,
        risk_final_a: risk_a,
        risk_final_b: risk_b,
        risk_delta: risk_a - risk_b,
        cost_final_a: cost_a,
        cost_final_b: cost_b,
        cost_delta: cost_a - cost_b,
        diag_count_a: a.diagnostics.len(),
        diag_count_b: b.diagnostics.len(),
        unique_to_a: unique_a,
        unique_to_b: unique_b,
    }
}

/// Comparing a scenario's diagnostics with themselves leaves none unique.
pub proof fn lemma_compare_with_itself(d: Seq<Diagnostic>)
    ensures
        unique_diagnostics(d, d).len() == 0,
{
    assert forall|k: int| 0 <= k < d.len() implies has_counterpart(d, #[trigger] d[k]) by {
        assert(same_diagnostic(d[k], d[k]));
    }
    lemma_no_unique_when_all_matched(d, d);
}

/// When every diagnostic of `mine` has a counterpart in `others`, none is unique.
pub proof fn lemma_no_unique_when_all_matched(mine: Seq<Diagnostic>, others: Seq<Diagnostic>)
    requires
        forall|k: int| 0 <= k < mine.len() ==> has_counterpart(others, #[trigger] mine[k]),
    ensures
        unique_diagnostics(mine, others).len() == 0,
    decreases mine.len(),
{
    reveal_with_fuel(Seq::<_>::filter, 1);
    if mine.len() > 0 {
        let rest = mine.drop_last();
        assert forall|k: int| 0 <= k < rest.len() implies has_counterpart(others, #[trigger] rest[k]) by {
            assert(rest[k] == mine[k]);
        }
        assert(has_counterpart(others, mine[mine.len() - 1]));
        lemma_no_unique_when_all_matched(rest, others);
    }
}

/// Whether two diagnostics report the same thing does not depend on their order.
pub proof fn lemma_same_diagnostic_symmetric(a: Diagnostic, b: Diagnostic)
    ensures
        same_diagnostic(a, b) == same_diagnostic(b, a),
{
}

/// Swapping the two scenarios negates every difference, swaps the counts and
/// the final values, and swaps the two lists of diagnostics unique to one side.
pub proof fn lemma_comparison_swaps(s: ComparisonSummary, t: ComparisonSummary, a: PipelineResult, b: PipelineResult)
    requires
        summarizes(s, a, b),
        summarizes(t, b, a),
    ensures
        s.schedule_delta_days == -t.schedule_delta_days,
        s.risk_delta == -t.risk_delta,
        s.cost_delta == -t.cost_delta,
        s.schedule_days_a == t.schedule_days_b && s.schedule_days_b == t.schedule_days_a,
        s.risk_final_a == t.risk_final_b && s.risk_final_b == t.risk_final_a,
        s.cost_final_a == t.cost_final_b && s.cost_final_b == t.cost_final_a,
        s.diag_count_a == t.diag_count_b && s.diag_count_b == t.diag_count_a,
        are_copies(s.unique_to_a@, t.unique_to_b@),
        are_copies(s.unique_to_b@, t.unique_to_a@),
{
    let ua = unique_diagnostics(a.diagnostics@, b.diagnostics@);
    let ub = unique_diagnostics(b.diagnostics@, a.diagnostics@);
    assert forall|n: int| 0 <= n < s.unique_to_a@.len() implies #[trigger] is_copy(s.unique_to_a@[n], t.unique_to_b@[n]) by {
        assert(is_copy(s.unique_to_a@[n], ua[n]));
        assert(is_copy(t.unique_to_b@[n], ua[n]));
    }
    assert forall|n: int| 0 <= n < s.unique_to_b@.len() implies #[trigger] is_copy(s.unique_to_b@[n], t.unique_to_a@[n]) by {
        assert(is_copy(s.unique_to_b@[n], ub[n]));
        assert(is_copy(t.unique_to_a@[n], ub[n]));
    }
}

/// Comparing a scenario with itself shows no difference: every delta is
/// zero, both sides count the same diagnostics, and none is unique to a side.
pub proof fn lemma_comparison_with_itself(s: ComparisonSummary, a: PipelineResult)
    requires
        summarizes(s, a, a),
    ensures
        s.schedule_delta_days == 0,
        s.risk_delta == 0,
        s.cost_delta == 0,
        s.diag_count_a == s.diag_count_b,
        s.unique_to_a@.len() == 0,
        s.unique_to_b@.len() == 0,
{
    lemma_compare_with_itself(a.diagnostics@);
}

/// The final value of a named metric is the running total at its last point:
/// the cumulative value of the last point of the first series with that name
/// (0 when that series has no points or no series has the name).
pub proof fn lemma_final_value_is_last_point(metrics: Seq<MetricSeries>, name: Seq<char>, i: int)
    requires
        0 <= i < metrics.len(),
        metrics[i].config.name@ == name,
        forall|j: int| 0 <= j < i ==> (#[trigger] metrics[j]).config.name@ != name,
    ensures
        metrics[i].points@.len() > 0 ==> final_value(metrics, name) == metrics[i].points@[metrics[i].points@.len()
            - 1].cumulative,
        metrics[i].points@.len() == 0 ==> final_value(metrics, name) == 0,
    decreases i,
{
    if i > 0 {
        let rest = metrics.drop_first();
        assert forall|j: int| 0 <= j < i - 1 implies (#[trigger] rest[j]).config.name@ != name by {
            assert(rest[j] == metrics[j + 1]);
        }
        assert(metrics[0].config.name@ != name);
        lemma_final_value_is_last_point(rest, name, i - 1);
        assert(rest[i - 1] == metrics[i]);
    }
}

/// For the metrics computed from a run's diagnostics, the final risk and the
/// final cost compared are the weights of all the run's diagnostics over all
/// its keyframes.
pub proof fn lemma_final_values_are_totals(
    m: Seq<MetricSeries>,
    d: Seq<Diagnostic>,
    kfs: Seq<Keyframe>,
    risk_description: Seq<char>,
    risk_unit: Seq<char>,
    cost_description: Seq<char>,
    cost_unit: Seq<char>,
)
    requires
        m.len() == 2,
        series_matches(m[0], risk_name(), risk_description, risk_unit, d, kfs, true),
        series_matches(m[1], cost_name(), cost_description, cost_unit, d, kfs, false),
    ensures
        final_value(m, risk_name()) == cumulative_weight(d, kfs, kfs.len() as int, true),
        final_value(m, cost_name()) == cumulative_weight(d, kfs, kfs.len() as int, false),
{
    reveal_strlit("risk_index");
    reveal_strlit("cost_impact");
    assert(risk_name() != cost_name()) by {
        assert(risk_name()[0] != cost_name()[0]);
    }
    lemma_final_value_is_last_point(m, risk_name(), 0);
    lemma_final_value_is_last_point(m, cost_name(), 1);
    if kfs.len() > 0 {
        let r = m[0].points@;
        let c = m[1].points@;
        assert(r[kfs.len() - 1].cumulative == cumulative_weight(d, kfs, kfs.len() as int, true));
        assert(c[kfs.len() - 1].cumulative == cumulative_weight(d, kfs, kfs.len() as int, false));
    }
}
} // verus!
