use cpml::comparison::ComparisonSummary;
use cpml::diagnostic::Diagnostic;
use cpml::keyframe::Keyframe;
use cpml::metric::compute_metrics;
use cpml::report::{comparison_report, diagnostic_heading, metrics_report, severity_groups};
use cpml::schema::DiagnosticLevel;
use cpml::time::{parse_datetime, DateTime};

fn diag(index: usize, level: DiagnosticLevel, message: &str) -> Diagnostic {
    Diagnostic {
        keyframe_index: index,
        keyframe_date: DateTime { secs: 0 },
        activity_id: "consumer".to_string(),
        probe_id: "consumer/probe_0".to_string(),
        level,
        message: message.to_string(),
        blame: vec![],
        series_id: None,
    }
}

fn summary(unique_a: Vec<Diagnostic>) -> ComparisonSummary {
    ComparisonSummary {
        name_a: "With Error".to_string(),
        name_b: "Clean".to_string(),
        schedule_days_a: 4,
        schedule_days_b: 19,
        schedule_delta_days: -15,
        risk_final_a: 10,
        risk_final_b: 0,
        risk_delta: 10,
        cost_final_a: 5,
        cost_final_b: 5,
        cost_delta: 0,
        diag_count_a: unique_a.len(),
        diag_count_b: 0,
        unique_to_a: unique_a,
        unique_to_b: vec![],
    }
}

#[test]
fn comparison_report_lines() {
    let lines = comparison_report(&summary(vec![diag(0, DiagnosticLevel::Error, "Value below threshold")]));
    let expected = vec![
        "=== CPML Scenario Comparison ===",
        "Scenario A: With Error",
        "Scenario B: Clean",
        "",
        "── Schedule ──",
        "  A: 4 days",
        "  B: 19 days",
        "  Delta: -15 days (A is shorter)",
        "",
        "── Risk Index ──",
        "  A: 10.0 points",
        "  B: 0.0 points",
        "  Delta: +10.0 (A is riskier)",
        "",
        "── Cost Impact ──",
        "  A: 5.0 万元",
        "  B: 5.0 万元",
        "  Delta: equal",
        "",
        "── Diagnostics ──",
        "  A: 1 total",
        "  B: 0 total",
        "",
        "  Unique to A (1):",
        "    [ERROR] KF 0 | consumer | Value below threshold",
        "",
    ];
    assert_eq!(lines, expected);
}

#[test]
fn identical_scenarios_say_so() {
    let lines = comparison_report(&summary(vec![]));
    let n = lines.len();
    assert_eq!(lines[n - 2], "  No unique diagnostics — scenarios produce identical results.");
    assert_eq!(lines[n - 1], "");
}

#[test]
fn metric_lines_show_growth_only() {
    let kfs = vec![
        Keyframe { date: parse_datetime("2026-01-01").unwrap(), index: 0 },
        Keyframe { date: parse_datetime("2026-01-02T08:30:00").unwrap(), index: 1 },
    ];
    let d = vec![diag(1, DiagnosticLevel::Warning, "w")];
    let lines = metrics_report(&compute_metrics(&d, &kfs));
    assert_eq!(lines[0], "── METRICS ──");
    assert_eq!(lines[1], "  risk_index [points] — 累积风险指数，按诊断严重度加权");
    assert_eq!(lines[2], "    Final cumulative: 3.0 points");
    assert_eq!(lines[3], "    KF 1 (2026-01-02T08:30): +3.0 → 3.0");
    assert_eq!(lines[4], "");
    assert_eq!(lines[5], "  cost_impact [万元] — 预估成本影响，按诊断严重度加权");
    assert_eq!(lines.len(), 9);
    assert!(metrics_report(&vec![]).is_empty());
}

#[test]
fn severity_groups_split_by_level_in_order() {
    let d = vec![
        diag(0, DiagnosticLevel::Info, "i"),
        diag(0, DiagnosticLevel::Fatal, "f"),
        diag(0, DiagnosticLevel::Warning, "w"),
        diag(0, DiagnosticLevel::Error, "e"),
        diag(0, DiagnosticLevel::Debug, "g"),
    ];
    let (errors, warnings, infos) = severity_groups(&d);
    let msgs = |v: &Vec<&Diagnostic>| v.iter().map(|x| x.message.clone()).collect::<Vec<_>>();
    assert_eq!(msgs(&errors), vec!["f", "e"]);
    assert_eq!(msgs(&warnings), vec!["w"]);
    assert_eq!(msgs(&infos), vec!["i", "g"]);
}

#[test]
fn diagnostic_heading_names_keyframe_activity_series_and_probe() {
    let mut d = diag(2, DiagnosticLevel::Warning, "m");
    d.keyframe_date = parse_datetime("2026-01-05").unwrap();
    assert_eq!(diagnostic_heading(&d), "  [WARNING] Keyframe 2 (2026-01-05) | Activity: consumer | Probe: consumer/probe_0");
    d.series_id = Some("pours".to_string());
    d.keyframe_date = parse_datetime("2026-01-05T14:00:00").unwrap();
    assert_eq!(
        diagnostic_heading(&d),
        "  [WARNING] Keyframe 2 (2026-01-05T14:00) | Activity: consumer (series: pours) | Probe: consumer/probe_0"
    );
}
