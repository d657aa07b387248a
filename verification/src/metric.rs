//! Risk and cost metrics: severity-weighted time series over keyframes.
use vstd::prelude::*;

use crate::diagnostic::Diagnostic;
use crate::keyframe::Keyframe;
use crate::schema::DiagnosticLevel;
use crate::time::DateTime;

verus! {

/// Description of a metric.
#[derive(Debug)]
pub struct MetricConfig {
    pub name: String,
    pub description: String,
    pub unit: String,
}

/// One data point of a metric at a keyframe.
#[derive(Debug)]
pub struct MetricPoint {
    pub keyframe_index: usize,
    pub keyframe_date: DateTime,
    /// Weight added at this keyframe.
    pub incremental: i64,
    /// Total from the first keyframe up to this one.
    pub cumulative: i64,
}

/// The time series of one metric.
#[derive(Debug)]
pub struct MetricSeries {
    pub config: MetricConfig,
    pub points: Vec<MetricPoint>,
}

/// Risk points a diagnostic adds, by severity.
pub open spec fn risk_weight(level: DiagnosticLevel) -> int {
    match level {
        DiagnosticLevel::Debug => 0,
        DiagnosticLevel::Info => 1,
        DiagnosticLevel::Warning => 3,
        DiagnosticLevel::Error => 10,
        DiagnosticLevel::Fatal => 50,
    }
}

/// Cost impact a diagnostic adds, by severity.
pub open spec fn cost_weight(level: DiagnosticLevel) -> int {
    match level {
        DiagnosticLevel::Debug => 0,
        DiagnosticLevel::Info => 0,
        DiagnosticLevel::Warning => 1,
        DiagnosticLevel::Error => 5,
        DiagnosticLevel::Fatal => 20,
    }
}

/// The weight of a level under the risk (`risk == true`) or the cost metric.
pub open spec fn weight(level: DiagnosticLevel, risk: bool) -> int {
    if risk {
        risk_weight(level)
    } else {
        cost_weight(level)
    }
}

/// Total weight of the diagnostics raised at keyframe number `index`.
pub open spec fn frame_weight(d: Seq<Diagnostic>, index: usize, risk: bool) -> int
    decreases d.len(),
{
    if d.len() == 0 {
        0
    } else {
        frame_weight(d.drop_last(), index, risk) + if d.last().keyframe_index == index {
            weight(d.last().level, risk)
        } else {
            0
        }
    }
}

/// Total weight over the first `k` keyframes.
pub open spec fn cumulative_weight(d: Seq<Diagnostic>, kfs: Seq<Keyframe>, k: int, risk: bool) -> int
    decreases k,
{
    if k <= 0 {
        0
    } else {
        cumulative_weight(d, kfs, k - 1, risk) + frame_weight(d, kfs[k - 1].index, risk)
    }
}

/// Whether a series has the given name, description and unit and has one
/// point per keyframe carrying the frame weight and the running total.
pub open spec fn series_matches(
    s: MetricSeries,
    name: Seq<char>,
    description: Seq<char>,
    unit: Seq<char>,
    d: Seq<Diagnostic>,
    kfs: Seq<Keyframe>,
    risk: bool,
) -> bool {
    &&& s.config.name@ == name
    &&& s.config.description@ == description
    &&& s.config.unit@ == unit
    &&& s.points@.len() == kfs.len()
    &&& forall|k: int|
        0 <= k < kfs.len() ==> {
            &&& (#[trigger] s.points@[k]).keyframe_index == kfs[k].index
            &&& s.points@[k].keyframe_date == kfs[k].date
            &&& s.points@[k].incremental == frame_weight(d, kfs[k].index, risk)
            &&& s.points@[k].cumulative == cumulative_weight(d, kfs, k + 1, risk)
        }
}

/// The frame weight is between zero and 50 per diagnostic.
pub proof fn lemma_frame_weight_bounds(d: Seq<Diagnostic>, index: usize, risk: bool)
    ensures
        0 <= frame_weight(d, index, risk) <= 50 * d.len(),
    decreases d.len(),
{
    if d.len() > 0 {
        lemma_frame_weight_bounds(d.drop_last(), index, risk);
    }
}

/// The running total is between zero and 50 per diagnostic per keyframe.
pub proof fn lemma_cumulative_weight_bounds(d: Seq<Diagnostic>, kfs: Seq<Keyframe>, k: int, risk: bool)
    requires
        0 <= k <= kfs.len(),
    ensures
        0 <= cumulative_weight(d, kfs, k, risk) <= 50 * d.len() * k,
    decreases k,
{
    if k > 0 {
        lemma_cumulative_weight_bounds(d, kfs, k - 1, risk);
        lemma_frame_weight_bounds(d, kfs[k - 1].index, risk);
        assert(50 * d.len() * k == 50 * d.len() * (k - 1) + 50 * d.len()) by (nonlinear_arith);
    }
}

/// Running totals never decrease from one keyframe to the next.
pub proof fn lemma_cumulative_monotone(d: Seq<Diagnostic>, kfs: Seq<Keyframe>, j: int, k: int, risk: bool)
    requires
        0 <= j <= k <= kfs.len(),
    ensures
        cumulative_weight(d, kfs, j, risk) <= cumulative_weight(d, kfs, k, risk),
    decreases k - j,
{
    if j < k {
        lemma_cumulative_monotone(d, kfs, j, k - 1, risk);
        lemma_frame_weight_bounds(d, kfs[k - 1].index, risk);
    }
}

fn level_weight(level: DiagnosticLevel, risk: bool) -> (w: i64)
    ensures
        w == weight(level, risk),
{
    if risk {
        match level {
            DiagnosticLevel::Debug => 0,
            DiagnosticLevel::Info => 1,
            DiagnosticLevel::Warning => 3,
            DiagnosticLevel::Error => 10,
            DiagnosticLevel::Fatal => 50,
        }
    } else {
        match level {
            DiagnosticLevel::Debug => 0,
            DiagnosticLevel::Info => 0,
            DiagnosticLevel::Warning => 1,
            DiagnosticLevel::Error => 5,
            DiagnosticLevel::Fatal => 20,
        }
    }
}

/// The total weight of the diagnostics at one keyframe.
fn weight_at(diagnostics: &Vec<Diagnostic>, index: usize, risk: bool) -> (w: i64)
    requires
        50 * diagnostics@.len() <= i64::MAX,
    ensures
        w == frame_weight(diagnostics@, index, risk),
{
    let mut w: i64 = 0;
    let mut n: usize = 0;
    while n < diagnostics.len()
        invariant
            n <= diagnostics@.len(),
            50 * diagnostics@.len() <= i64::MAX,
            w == frame_weight(diagnostics@.take(n as int), index, risk),
        decreases diagnostics@.len() - n,
    {
        proof {
            assert(diagnostics@.take(n + 1).drop_last() =~= diagnostics@.take(n as int));
            lemma_frame_weight_bounds(diagnostics@.take(n + 1), index, risk);
        }
        if diagnostics[n].keyframe_index == index {
            w = w + level_weight(diagnostics[n].level, risk);
        }
        n += 1;
    }
    assert(diagnostics@.take(n as int) =~= diagnostics@);
    w
}

/// One metric series over the keyframes.
fn metric_series(
    diagnostics: &Vec<Diagnostic>,
    keyframes: &Vec<Keyframe>,
    config: MetricConfig,
    risk: bool,
) -> (s: MetricSeries)
    requires
        50 * diagnostics@.len() * keyframes@.len() <= i64::MAX,
    ensures
        s.config == config,
        s.points@.len() == keyframes@.len(),
        forall|k: int|
            0 <= k < keyframes@.len() ==> {
                &&& (#[trigger] s.points@[k]).keyframe_index == keyframes@[k].index
                &&& s.points@[k].keyframe_date == keyframes@[k].date
                &&& s.points@[k].incremental == frame_weight(diagnostics@, keyframes@[k].index, risk)
                &&& s.points@[k].cumulative == cumulative_weight(diagnostics@, keyframes@, k + 1, risk)
            },
{
    let mut points: Vec<MetricPoint> = Vec::new();
    let mut total: i64 = 0;
    let mut k: usize = 0;
    proof {
        if keyframes@.len() > 0 {
            assert(50 * diagnostics@.len() <= 50 * diagnostics@.len() * keyframes@.len()) by (nonlinear_arith)
                requires keyframes@.len() > 0;
        }
    }
    while k < keyframes.len()
        invariant
            k <= keyframes@.len(),
            50 * diagnostics@.len() * keyframes@.len() <= i64::MAX,
            keyframes@.len() > 0 ==> 50 * diagnostics@.len() <= i64::MAX,
            total == cumulative_weight(diagnostics@, keyframes@, k as int, risk),
            points@.len() == k,
            forall|m: int|
                0 <= m < k ==> {
                    &&& (#[trigger] points@[m]).keyframe_index == keyframes@[m].index
                    &&& points@[m].keyframe_date == keyframes@[m].date
                    &&& points@[m].incremental == frame_weight(diagnostics@, keyframes@[m].index, risk)
                    &&& points@[m].cumulative == cumulative_weight(diagnostics@, keyframes@, m + 1, risk)
                },
        decreases keyframes@.len() - k,
    {
        let kf = keyframes[k];
        let inc = weight_at(diagnostics, kf.index, risk);
        proof {
            lemma_cumulative_weight_bounds(diagnostics@, keyframes@, k + 1, risk);
            assert(50 * diagnostics@.len() * (k + 1) <= 50 * diagnostics@.len() * keyframes@.len()) by (nonlinear_arith)
                requires k + 1 <= keyframes@.len();
        }
        total = total + inc;
        points.push(MetricPoint { keyframe_index: kf.index, keyframe_date: kf.date, incremental: inc, cumulative: total });
        k += 1;
    }
    MetricSeries { config, points }
}

/// Risk index series name.
pub open spec fn risk_name() -> Seq<char> {
    "risk_index"@
}

/// Cost impact series name.
pub open spec fn cost_name() -> Seq<char> {
    "cost_impact"@
}

/// Compute the risk index and cost impact time series from diagnostics:
/// at each keyframe the weights of the diagnostics raised there
/// (risk: info 1, warning 3, error 10, fatal 50; cost: warning 1, error 5,
/// fatal 20) and their running total.
pub fn compute_metrics(diagnostics: &Vec<Diagnostic>, keyframes: &Vec<Keyframe>) -> (m: Vec<MetricSeries>)
    requires
        50 * diagnostics@.len() * keyframes@.len() <= i64::MAX,
    ensures
        m@.len() == 2,
        series_matches(m@[0], risk_name(), "累积风险指数，按诊断严重度加权"@, "points"@, diagnostics@, keyframes@, true),
        series_matches(m@[1], cost_name(), "预估成本影响，按诊断严重度加权"@, "万元"@, diagnostics@, keyframes@, false),
{
    let risk_config = MetricConfig {
        name: "risk_index".to_owned(),
        description: "累积风险指数，按诊断严重度加权".to_owned(),
        unit: "points".to_owned(),
    };
    let cost_config = MetricConfig {
        name: "cost_impact".to_owned(),
        description: "预估成本影响，按诊断严重度加权".to_owned(),
        unit: "万元".to_owned(),
    };
    let risk = metric_series(diagnostics, keyframes, risk_config, true);
    let cost = metric_series(diagnostics, keyframes, cost_config, false);
    let mut m: Vec<MetricSeries> = Vec::new();
    m.push(risk);
    m.push(cost);
    m
}

} // verus!
