use cpml::comparison::compare_results;
use cpml::dependency::check_dependencies;
use cpml::diagnostic::order_diagnostics;
use cpml::keyframe::{active_activities_at, extract_keyframes};
use cpml::metric::compute_metrics;
use cpml::model::{Activity, Assertion, Contribution, Geometry, Pose, Shape};
use cpml::numeric::Real;
use cpml::pipeline::{build_model, schedule_duration, PipelineResult};
use cpml::probe_check::{active_projections, check_probes, ProbeReading, Reading};
use cpml::schema::{
    ActivityDef, AssertionDef, CpmlDocument, FieldDef, FieldType, GeometryDef, ProbeDef, ProjectionDef, ShapeDef,
    TimespanDef,
};

fn num(x: f64) -> Real {
    Real { bits: x.to_bits() }
}

fn value(r: Real) -> f64 {
    f64::from_bits(r.bits)
}

fn zone() -> GeometryDef {
    GeometryDef {
        id: "zone".to_string(),
        pose: None,
        shape: ShapeDef::Cuboid { half_extents: [num(5.0), num(5.0), num(5.0)] },
        region: None,
    }
}

fn zone_geometry() -> Geometry {
    Geometry { shape: Shape::Cuboid { half_extents: [num(5.0), num(5.0), num(5.0)] }, pose: Pose::identity(), region: None }
}

fn activity(id: &str, start: &str, end: &str, supply: Option<f64>, need: Option<f64>) -> ActivityDef {
    ActivityDef {
        id: id.to_string(),
        name: None,
        series: None,
        timespan: TimespanDef { start: start.to_string(), end: end.to_string() },
        geometry: None,
        collision: None,
        probes: need
            .map(|n| ProbeDef {
                name: None,
                field: "power".to_string(),
                geometry: "zone".to_string(),
                assert: AssertionDef::Gte { gte: num(n) },
                diagnostic_level: None,
            })
            .into_iter()
            .collect(),
        projections: supply
            .map(|v| ProjectionDef {
                name: None,
                field: "power".to_string(),
                geometry: "zone".to_string(),
                kind: None,
                value: Some(num(v)),
                operator: None,
                record: None,
                confidence: None,
            })
            .into_iter()
            .collect(),
        structures: vec![],
        depends_on: vec![],
        demands: vec![],
    }
}

fn document(name: &str, activities: Vec<ActivityDef>) -> CpmlDocument {
    CpmlDocument {
        version: "1.0".to_string(),
        name: Some(name.to_string()),
        description: None,
        fields: vec![FieldDef { name: "power".to_string(), field_type: FieldType::Capacity, operator: None, window_size: None }],
        geometries: vec![zone()],
        activities,
        barriers: vec![],
        regions: vec![],
    }
}

/// How a blame entry sums up a capacity contribution.
fn summary(c: &Contribution) -> String {
    match c {
        Contribution::Capacity(v) => format!("capacity({})", value(*v)),
        other => format!("{:?}", other),
    }
}

/// The power supplied by the active projections (all on the one zone).
fn reading(active: &[&Activity], probe_assertion: &Assertion, in_effect: usize) -> ProbeReading {
    let mut total = 0.0;
    for a in active {
        for p in &a.projections {
            if let Contribution::Capacity(v) = &p.contribution {
                total += value(*v);
            }
        }
    }
    let reading = match probe_assertion {
        Assertion::Gte(t) if total < value(*t) => Reading::Bound(Some(format!(
            "Value below threshold: sampled {:.2} < required {:.2} on field '{}'",
            total,
            value(*t),
            "power"
        ))),
        _ => Reading::Bound(None),
    };
    ProbeReading { reading, overlaps: vec![true; in_effect] }
}

fn run(doc: &CpmlDocument) -> PipelineResult {
    let model = build_model(doc, &vec![zone_geometry()], &vec!["-5.0_-5.0_-5.0__5.0_5.0_5.0".to_string()])
        .expect("document is valid");
    let keyframes = extract_keyframes(&model.activities);
    let mut diagnostics = Vec::new();
    for kf in &keyframes {
        let active = active_activities_at(kf, &model.activities);
        let in_effect = active_projections(&active);
        let summaries: Vec<String> = in_effect.iter().map(|p| summary(&p.contribution)).collect();
        let readings: Vec<Vec<ProbeReading>> = active
            .iter()
            .map(|a| a.probes.iter().map(|p| reading(&active, &p.assertion, in_effect.len())).collect())
            .collect();
        diagnostics.extend(check_probes(kf.index, kf.date, &active, &model.fields, &readings, &summaries));
    }
    diagnostics.extend(check_dependencies(&model.activities, &keyframes));
    let diagnostics = order_diagnostics(diagnostics, keyframes.len());
    let metrics = compute_metrics(&diagnostics, &keyframes);
    let duration = schedule_duration(&model.activities);
    PipelineResult { model, diagnostics, metrics, schedule_duration: duration }
}

#[test]
fn test_compare_identical() {
    let doc = document(
        "Test Scenario",
        vec![
            activity("gen", "2026-01-01", "2026-01-10", Some(100.0), None),
            activity("consumer", "2026-01-01", "2026-01-10", None, Some(50.0)),
        ],
    );
    let result_a = run(&doc);
    let result_b = run(&doc);
    let summary = compare_results(&result_a, &result_b);

    assert_eq!(summary.schedule_delta_days, 0);
    assert_eq!(summary.risk_delta, 0);
    assert_eq!(summary.cost_delta, 0);
    assert_eq!(summary.diag_count_a, summary.diag_count_b);
    assert!(summary.unique_to_a.is_empty());
    assert!(summary.unique_to_b.is_empty());
}

#[test]
fn test_compare_different_schedules() {
    let doc_a = document("Shorter Schedule", vec![activity("task", "2026-01-01", "2026-01-05", None, Some(0.0))]);
    let doc_b = document("Longer Schedule", vec![activity("task", "2026-01-01", "2026-01-20", None, Some(0.0))]);
    let result_a = run(&doc_a);
    let result_b = run(&doc_b);
    let summary = compare_results(&result_a, &result_b);

    assert_eq!(summary.schedule_days_a, 4);
    assert_eq!(summary.schedule_days_b, 19);
    assert_eq!(summary.schedule_delta_days, -15); // A is 15 days shorter
}

#[test]
fn test_compare_unique_diagnostics() {
    let doc_a = document("With Error", vec![activity("consumer", "2026-01-01", "2026-01-10", None, Some(100.0))]);
    let doc_b = document(
        "Clean",
        vec![
            activity("gen", "2026-01-01", "2026-01-10", Some(200.0), None),
            activity("consumer", "2026-01-01", "2026-01-10", None, Some(100.0)),
        ],
    );
    let result_a = run(&doc_a);
    let result_b = run(&doc_b);
    let summary = compare_results(&result_a, &result_b);

    // A has 0 power and fails gte 100; B has 200 and passes.
    assert!(!summary.unique_to_a.is_empty(), "A should have unique errors");
    assert!(summary.unique_to_b.is_empty(), "B should have no unique errors");
    assert!(summary.risk_delta > 0, "A should be riskier");
}

#[test]
fn comparison_reports_names_finals_and_counts() {
    let doc_a = document("With Error", vec![activity("consumer", "2026-01-01", "2026-01-10", None, Some(100.0))]);
    let mut doc_b = document("ignored", vec![activity("consumer", "2026-01-01", "2026-01-03", None, Some(0.0))]);
    doc_b.name = None;
    let result_a = run(&doc_a);
    let result_b = run(&doc_b);
    let summary = compare_results(&result_a, &result_b);
    assert_eq!(summary.name_a, "With Error");
    assert_eq!(summary.name_b, "Scenario B");
    // One error at the first keyframe: risk 10, cost 5.
    assert_eq!(summary.risk_final_a, 10);
    assert_eq!(summary.cost_final_a, 5);
    assert_eq!(summary.risk_final_b, 0);
    assert_eq!(summary.cost_delta, 5);
    assert_eq!(summary.diag_count_a, 1);
    assert_eq!(summary.diag_count_b, 0);
    assert_eq!(summary.unique_to_a.len(), 1);
    assert_eq!(
        summary.unique_to_a[0].message,
        "Value below threshold: sampled 0.00 < required 100.00 on field 'power'"
    );
}

#[test]
fn swapping_the_scenarios_negates_the_differences_and_swaps_the_unique_lists() {
    let doc_a = document("With Error", vec![activity("consumer", "2026-01-01", "2026-01-10", None, Some(100.0))]);
    let doc_b = document(
        "Longer",
        vec![
            activity("gen", "2026-01-01", "2026-01-20", Some(50.0), None),
            activity("other", "2026-01-01", "2026-01-20", None, Some(80.0)),
        ],
    );
    let result_a = run(&doc_a);
    let result_b = run(&doc_b);
    let s = compare_results(&result_a, &result_b);
    let t = compare_results(&result_b, &result_a);
    assert_eq!(s.schedule_delta_days, -t.schedule_delta_days);
    assert_eq!(s.schedule_delta_days, -10);
    assert_eq!(s.risk_delta, -t.risk_delta);
    assert_eq!(s.cost_delta, -t.cost_delta);
    assert_eq!((s.diag_count_a, s.diag_count_b), (t.diag_count_b, t.diag_count_a));
    let ids = |v: &Vec<cpml::diagnostic::Diagnostic>| -> Vec<String> { v.iter().map(|d| d.probe_id.clone()).collect() };
    assert_eq!(ids(&s.unique_to_a), ids(&t.unique_to_b));
    assert_eq!(ids(&s.unique_to_b), ids(&t.unique_to_a));
    assert!(!s.unique_to_a.is_empty() && !s.unique_to_b.is_empty());
}
