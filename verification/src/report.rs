//! The text of the reports: the lines of a scenario comparison, the lines of
//! the metric time series, and the grouping of diagnostics by severity.
use vstd::prelude::*;
use vstd::string::*;

use crate::comparison::ComparisonSummary;
use crate::diagnostic::Diagnostic;
use crate::metric::MetricSeries;
use crate::schema::{level_rank, DiagnosticLevel};
use crate::text::{decimal, decimal_text, decimal_text_usize};
use crate::time::{format_keyframe_date, keyframe_date_text};

verus! {

/// The name of a level in reports, in capitals.
pub open spec fn level_label(level: DiagnosticLevel) -> Seq<char> {
    match level {
        DiagnosticLevel::Debug => "DEBUG"@,
        DiagnosticLevel::Info => "INFO"@,
        DiagnosticLevel::Warning => "WARNING"@,
        DiagnosticLevel::Error => "ERROR"@,
        DiagnosticLevel::Fatal => "FATAL"@,
    }
}

/// The name of a level in reports, in capitals.
pub fn level_label_text(level: DiagnosticLevel) -> (s: &'static str)
    ensures
        s@ == level_label(level),
{
    match level {
        DiagnosticLevel::Debug => "DEBUG",
        DiagnosticLevel::Info => "INFO",
        DiagnosticLevel::Warning => "WARNING",
        DiagnosticLevel::Error => "ERROR",
        DiagnosticLevel::Fatal => "FATAL",
    }
}

/// A whole number written with one decimal, as `{:.1}` writes it.
pub open spec fn one_decimal(n: int) -> Seq<char> {
    decimal(n) + ".0"@
}

fn one_decimal_text(n: i64) -> (s: String)
    ensures
        s@ == one_decimal(n as int),
{
    decimal_text(n).concat(".0")
}

/// The delta line of a comparison: positive with a plus sign and the
/// phrase for "more", negative with the phrase for "less", else equal.
pub open spec fn delta_line(delta: int, text: Seq<char>, more: Seq<char>, less: Seq<char>) -> Seq<char> {
    if delta > 0 {
        "  Delta: +"@ + text + more
    } else if delta < 0 {
        "  Delta: "@ + text + less
    } else {
        "  Delta: equal"@
    }
}

fn delta_line_text(delta: i64, text: &str, more: &str, less: &str) -> (s: String)
    ensures
        s@ == delta_line(delta as int, text@, more@, less@),
{
    if delta > 0 {
        "  Delta: +".to_owned().concat(text).concat(more)
    } else if delta < 0 {
        "  Delta: ".to_owned().concat(text).concat(less)
    } else {
        "  Delta: equal".to_owned()
    }
}

/// The line listing a diagnostic unique to one scenario.
pub open spec fn unique_line(d: Diagnostic) -> Seq<char> {
    "    ["@ + level_label(d.level) + "] KF "@ + decimal(d.keyframe_index as int) + " | "@ + d.activity_id@ + " | "@
        + d.message@
}

/// The lines listing the diagnostics unique to one scenario: none when there
/// are none, else a blank line, a heading with their number and one line each.
pub open spec fn unique_lines(label: Seq<char>, ds: Seq<Diagnostic>) -> Seq<Seq<char>> {
    if ds.len() == 0 {
        Seq::empty()
    } else {
        seq![""@, "  Unique to "@ + label + " ("@ + decimal(ds.len() as int) + "):"@] + ds.map_values(
            |d: Diagnostic| unique_line(d),
        )
    }
}

/// The lines of a comparison report.
pub open spec fn comparison_lines(s: ComparisonSummary) -> Seq<Seq<char>> {
    seq![
        "=== CPML Scenario Comparison ==="@,
        "Scenario A: "@ + s.name_a@,
        "Scenario B: "@ + s.name_b@,
        ""@,
        "── Schedule ──"@,
        "  A: "@ + decimal(s.schedule_days_a as int) + " days"@,
        "  B: "@ + decimal(s.schedule_days_b as int) + " days"@,
        delta_line(
            s.schedule_delta_days as int,
            decimal(s.schedule_delta_days as int),
            " days (A is longer)"@,
            " days (A is shorter)"@,
        ),
        ""@,
        "── Risk Index ──"@,
        "  A: "@ + one_decimal(s.risk_final_a as int) + " points"@,
        "  B: "@ + one_decimal(s.risk_final_b as int) + " points"@,
        delta_line(s.risk_delta as int, one_decimal(s.risk_delta as int), " (A is riskier)"@, " (A is safer)"@),
        ""@,
        "── Cost Impact ──"@,
        "  A: "@ + one_decimal(s.cost_final_a as int) + " 万元"@,
        "  B: "@ + one_decimal(s.cost_final_b as int) + " 万元"@,
        delta_line(s.cost_delta as int, one_decimal(s.cost_delta as int), " (A costs more)"@, " (A costs less)"@),
        ""@,
        "── Diagnostics ──"@,
        "  A: "@ + decimal(s.diag_count_a as int) + " total"@,
        "  B: "@ + decimal(s.diag_count_b as int) + " total"@,
    ] + unique_lines("A"@, s.unique_to_a@) + unique_lines("B"@, s.unique_to_b@) + if s.unique_to_a@.len() == 0
        && s.unique_to_b@.len() == 0 {
        seq!["  No unique diagnostics — scenarios produce identical results."@, ""@]
    } else {
        seq![""@]
    }
}

/// The views of a list of texts.
pub open spec fn lines_view(v: Seq<String>) -> Seq<Seq<char>> {
    v.map_values(|s: String| s@)
}

fn push_unique_lines(out: &mut Vec<String>, label: &str, ds: &Vec<Diagnostic>)
    ensures
        lines_view(final(out)@) == lines_view(old(out)@) + unique_lines(label@, ds@),
{
    if ds.len() == 0 {
        assert(lines_view(out@) + unique_lines(label@, ds@) =~= lines_view(out@));
        return;
    }
    let ghost start = lines_view(out@);
    out.push("".to_owned());
    out.push("  Unique to ".to_owned().concat(label).concat(" (").concat(decimal_text_usize(ds.len()).as_str()).concat("):"));
    let ghost head = lines_view(out@);
    assert(head =~= start + seq![""@, "  Unique to "@ + label@ + " ("@ + decimal(ds@.len() as int) + "):"@]);
    let mut i: usize = 0;
    while i < ds.len()
        invariant
            i <= ds@.len(),
            lines_view(out@) =~= head + ds@.take(i as int).map_values(|d: Diagnostic| unique_line(d)),
        decreases ds@.len() - i,
    {
        let d = &ds[i];
        let line = "    [".to_owned().concat(level_label_text(d.level)).concat("] KF ").concat(
            decimal_text_usize(d.keyframe_index).as_str(),
        ).concat(" | ").concat(d.activity_id.as_str()).concat(" | ").concat(d.message.as_str());
        let ghost before = lines_view(out@);
        out.push(line);
        assert(ds@.take(i + 1).map_values(|d: Diagnostic| unique_line(d)) =~= ds@.take(i as int).map_values(
            |d: Diagnostic| unique_line(d),
        ).push(unique_line(*d)));
        assert(lines_view(out@) =~= before.push(line@));
        i += 1;
    }
    assert(ds@.take(ds@.len() as int) =~= ds@);
}

/// The lines of a comparison report, in order.
pub fn comparison_report(s: &ComparisonSummary) -> (lines: Vec<String>)
    ensures
        lines_view(lines@) == comparison_lines(*s),
{
    let mut out: Vec<String> = Vec::new();
    out.push("=== CPML Scenario Comparison ===".to_owned());
    out.push("Scenario A: ".to_owned().concat(s.name_a.as_str()));
    out.push("Scenario B: ".to_owned().concat(s.name_b.as_str()));
    out.push("".to_owned());
    out.push("── Schedule ──".to_owned());
    out.push("  A: ".to_owned().concat(decimal_text(s.schedule_days_a).as_str()).concat(" days"));
    out.push("  B: ".to_owned().concat(decimal_text(s.schedule_days_b).as_str()).concat(" days"));
    out.push(
        delta_line_text(
            s.schedule_delta_days,
            decimal_text(s.schedule_delta_days).as_str(),
            " days (A is longer)",
            " days (A is shorter)",
        ),
    );
    out.push("".to_owned());
    out.push("── Risk Index ──".to_owned());
    out.push("  A: ".to_owned().concat(one_decimal_text(s.risk_final_a).as_str()).concat(" points"));
    out.push("  B: ".to_owned().concat(one_decimal_text(s.risk_final_b).as_str()).concat(" points"));
    out.push(
        delta_line_text(s.risk_delta, one_decimal_text(s.risk_delta).as_str(), " (A is riskier)", " (A is safer)"),
    );
    out.push("".to_owned());
    out.push("── Cost Impact ──".to_owned());
    out.push("  A: ".to_owned().concat(one_decimal_text(s.cost_final_a).as_str()).concat(" 万元"));
    out.push("  B: ".to_owned().concat(one_decimal_text(s.cost_final_b).as_str()).concat(" 万元"));
    out.push(
        delta_line_text(s.cost_delta, one_decimal_text(s.cost_delta).as_str(), " (A costs more)", " (A costs less)"),
    );
    out.push("".to_owned());
    out.push("── Diagnostics ──".to_owned());
    out.push("  A: ".to_owned().concat(decimal_text_usize(s.diag_count_a).as_str()).concat(" total"));
    out.push("  B: ".to_owned().concat(decimal_text_usize(s.diag_count_b).as_str()).concat(" total"));
    let ghost head = lines_view(out@);
    push_unique_lines(&mut out, "A", &s.unique_to_a);
    push_unique_lines(&mut out, "B", &s.unique_to_b);
    if s.unique_to_a.len() == 0 && s.unique_to_b.len() == 0 {
        out.push("  No unique diagnostics — scenarios produce identical results.".to_owned());
    }
    out.push("".to_owned());
    proof {
        assert(head =~= seq![
            "=== CPML Scenario Comparison ==="@,
            "Scenario A: "@ + s.name_a@,
            "Scenario B: "@ + s.name_b@,
            ""@,
            "── Schedule ──"@,
            "  A: "@ + decimal(s.schedule_days_a as int) + " days"@,
            "  B: "@ + decimal(s.schedule_days_b as int) + " days"@,
            delta_line(
                s.schedule_delta_days as int,
                decimal(s.schedule_delta_days as int),
                " days (A is longer)"@,
                " days (A is shorter)"@,
            ),
            ""@,
            "── Risk Index ──"@,
            "  A: "@ + one_decimal(s.risk_final_a as int) + " points"@,
            "  B: "@ + one_decimal(s.risk_final_b as int) + " points"@,
            delta_line(s.risk_delta as int, one_decimal(s.risk_delta as int), " (A is riskier)"@, " (A is safer)"@),
            ""@,
            "── Cost Impact ──"@,
            "  A: "@ + one_decimal(s.cost_final_a as int) + " 万元"@,
            "  B: "@ + one_decimal(s.cost_final_b as int) + " 万元"@,
            delta_line(s.cost_delta as int, one_decimal(s.cost_delta as int), " (A costs more)"@, " (A costs less)"@),
            ""@,
            "── Diagnostics ──"@,
            "  A: "@ + decimal(s.diag_count_a as int) + " total"@,
            "  B: "@ + decimal(s.diag_count_b as int) + " total"@,
        ]);
        assert(lines_view(out@) =~= comparison_lines(*s));
    }
    out
}

// ── Metrics ──

/// The line of one keyframe of a series where the metric grew.
pub open spec fn point_line(index: usize, date_text: Seq<char>, incremental: i64, cumulative: i64) -> Seq<char> {
    "    KF "@ + decimal(index as int) + " ("@ + date_text + "): +"@ + one_decimal(incremental as int) + " → "@
        + one_decimal(cumulative as int)
}

/// The lines of the keyframes among the first `n` of a series where the metric grew.
pub open spec fn growth_lines(series: MetricSeries, n: int) -> Seq<Seq<char>>
    decreases n,
{
    if n <= 0 {
        Seq::empty()
    } else {
        let pt = series.points@[n - 1];
        growth_lines(series, n - 1) + if pt.incremental > 0 {
            seq![point_line(pt.keyframe_index, keyframe_date_text(pt.keyframe_date), pt.incremental, pt.cumulative)]
        } else {
            Seq::empty()
        }
    }
}

/// The lines of one series: its heading, its final value when it has
/// points, the keyframes where it grew, and a blank line.
pub open spec fn series_lines(series: MetricSeries) -> Seq<Seq<char>> {
    let c = series.config;
    seq!["  "@ + c.name@ + " ["@ + c.unit@ + "] — "@ + c.description@] + (if series.points@.len() > 0 {
        seq!["    Final cumulative: "@ + one_decimal(series.points@.last().cumulative as int) + " "@ + c.unit@]
    } else {
        Seq::empty()
    }) + growth_lines(series, series.points@.len() as int) + seq![""@]
}

/// The lines of the first `n` series.
pub open spec fn all_series_lines(metrics: Seq<MetricSeries>, n: int) -> Seq<Seq<char>>
    decreases n,
{
    if n <= 0 {
        Seq::empty()
    } else {
        all_series_lines(metrics, n - 1) + series_lines(metrics[n - 1])
    }
}

/// The lines of the metrics section: nothing without metrics, else a
/// heading and the lines of each series.
pub open spec fn metric_lines(metrics: Seq<MetricSeries>) -> Seq<Seq<char>> {
    if metrics.len() == 0 {
        Seq::empty()
    } else {
        seq!["── METRICS ──"@] + all_series_lines(metrics, metrics.len() as int)
    }
}

fn push_series_lines(out: &mut Vec<String>, series: &MetricSeries)
    ensures
        lines_view(final(out)@) == lines_view(old(out)@) + series_lines(*series),
{
    let ghost start = lines_view(out@);
    let c = &series.config;
    let heading = "  ".to_owned().concat(c.name.as_str()).concat(" [").concat(c.unit.as_str()).concat("] — ").concat(
        c.description.as_str(),
    );
    out.push(heading);
    assert(lines_view(out@) =~= start + seq![heading@]);
    if series.points.len() > 0 {
        let last = &series.points[series.points.len() - 1];
        let final_line = "    Final cumulative: ".to_owned().concat(one_decimal_text(last.cumulative).as_str()).concat(
            " ",
        ).concat(c.unit.as_str());
        let ghost before = lines_view(out@);
        out.push(final_line);
        assert(lines_view(out@) =~= before + seq![final_line@]);
    }
    let ghost head = lines_view(out@);
    let mut i: usize = 0;
    while i < series.points.len()
        invariant
            i <= series.points@.len(),
            lines_view(out@) =~= head + growth_lines(*series, i as int),
        decreases series.points@.len() - i,
    {
        let pt = &series.points[i];
        if pt.incremental > 0 {
            let line = "    KF ".to_owned().concat(decimal_text_usize(pt.keyframe_index).as_str()).concat(" (").concat(
                format_keyframe_date(pt.keyframe_date).as_str(),
            ).concat("): +").concat(one_decimal_text(pt.incremental).as_str()).concat(" → ").concat(
                one_decimal_text(pt.cumulative).as_str(),
            );
            let ghost before = lines_view(out@);
            out.push(line);
            assert(lines_view(out@) =~= before.push(line@));
        }
        i += 1;
    }
    let ghost body = lines_view(out@);
    out.push("".to_owned());
    assert(lines_view(out@) =~= body + seq![""@]);
    assert(lines_view(out@) =~= lines_view(old(out)@) + series_lines(*series));
}

/// The lines of the metrics section of a report.
pub fn metrics_report(metrics: &Vec<MetricSeries>) -> (lines: Vec<String>)
    ensures
        lines_view(lines@) == metric_lines(metrics@),
{
    let mut out: Vec<String> = Vec::new();
    if metrics.len() == 0 {
        assert(lines_view(out@) =~= Seq::<Seq<char>>::empty());
        return out;
    }
    out.push("── METRICS ──".to_owned());
    let mut i: usize = 0;
    while i < metrics.len()
        invariant
            i <= metrics@.len(),
            lines_view(out@) =~= seq!["── METRICS ──"@] + all_series_lines(metrics@, i as int),
        decreases metrics@.len() - i,
    {
        push_series_lines(&mut out, &metrics[i]);
        i += 1;
    }
    out
}

// ── Grouping diagnostics ──

/// The diagnostics a report lists as errors: error and fatal, in order.
pub open spec fn error_group(d: Seq<Diagnostic>) -> Seq<Diagnostic> {
    d.filter(|x: Diagnostic| level_rank(x.level) >= level_rank(DiagnosticLevel::Error))
}

/// The diagnostics a report lists as warnings, in order.
pub open spec fn warning_group(d: Seq<Diagnostic>) -> Seq<Diagnostic> {
    d.filter(|x: Diagnostic| x.level == DiagnosticLevel::Warning)
}

/// The diagnostics a report lists as info or debug, in order.
pub open spec fn info_group(d: Seq<Diagnostic>) -> Seq<Diagnostic> {
    d.filter(|x: Diagnostic| level_rank(x.level) <= level_rank(DiagnosticLevel::Info))
}

/// The diagnostics of a report, grouped as errors (error and fatal),
/// warnings, and info or debug, each group in order.
pub fn severity_groups(d: &Vec<Diagnostic>) -> (groups: (Vec<&Diagnostic>, Vec<&Diagnostic>, Vec<&Diagnostic>))
    ensures
        groups.0@.map_values(|x: &Diagnostic| *x) == error_group(d@),
        groups.1@.map_values(|x: &Diagnostic| *x) == warning_group(d@),
        groups.2@.map_values(|x: &Diagnostic| *x) == info_group(d@),
{
    let mut errors: Vec<&Diagnostic> = Vec::new();
    let mut warnings: Vec<&Diagnostic> = Vec::new();
    let mut infos: Vec<&Diagnostic> = Vec::new();
    let mut i: usize = 0;
    while i < d.len()
        invariant
            i <= d@.len(),
            errors@.map_values(|x: &Diagnostic| *x) == error_group(d@.take(i as int)),
            warnings@.map_values(|x: &Diagnostic| *x) == warning_group(d@.take(i as int)),
            infos@.map_values(|x: &Diagnostic| *x) == info_group(d@.take(i as int)),
        decreases d@.len() - i,
    {
        let x = &d[i];
        let ghost (e0, w0, n0) = (errors@, warnings@, infos@);
        proof {
            reveal_with_fuel(Seq::<_>::filter, 1);
            assert(d@.take(i + 1).drop_last() =~= d@.take(i as int));
            assert(d@.take(i + 1).last() == *x);
        }
        let r = x.level.rank();
        if r >= 3 {
            errors.push(x);
            assert(errors@.map_values(|x: &Diagnostic| *x) =~= e0.map_values(|x: &Diagnostic| *x).push(*x));
        }
        if r == 2 {
            warnings.push(x);
            assert(warnings@.map_values(|x: &Diagnostic| *x) =~= w0.map_values(|x: &Diagnostic| *x).push(*x));
        }
        if r <= 1 {
            infos.push(x);
            assert(infos@.map_values(|x: &Diagnostic| *x) =~= n0.map_values(|x: &Diagnostic| *x).push(*x));
        }
        i += 1;
    }
    assert(d@.take(d@.len() as int) =~= d@);
    (errors, warnings, infos)
}

/// The heading line of a diagnostic in a report: level, keyframe and its
/// date, activity (with its series when it has one) and probe.
pub open spec fn heading_line(d: Diagnostic) -> Seq<char> {
    "  ["@ + level_label(d.level) + "] Keyframe "@ + decimal(d.keyframe_index as int) + " ("@ + keyframe_date_text(
        d.keyframe_date,
    ) + ") | Activity: "@ + d.activity_id@ + match d.series_id {
        Some(sid) => " (series: "@ + sid@ + ")"@,
        None => Seq::empty(),
    } + " | Probe: "@ + d.probe_id@
}

/// The heading line of a diagnostic in a report.
pub fn diagnostic_heading(d: &Diagnostic) -> (s: String)
    ensures
        s@ == heading_line(*d),
{
    let head = "  [".to_owned().concat(level_label_text(d.level)).concat("] Keyframe ").concat(
        decimal_text_usize(d.keyframe_index).as_str(),
    ).concat(" (").concat(format_keyframe_date(d.keyframe_date).as_str()).concat(") | Activity: ").concat(
        d.activity_id.as_str(),
    );
    let with_series = match &d.series_id {
        Some(sid) => head.concat(" (series: ").concat(sid.as_str()).concat(")"),
        None => head,
    };
    let s = with_series.concat(" | Probe: ").concat(d.probe_id.as_str());
    proof {
        if d.series_id is None {
            assert(with_series@ =~= with_series@ + Seq::<char>::empty());
        }
    }
    s
}

} // verus!
