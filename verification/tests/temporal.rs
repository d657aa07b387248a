use cpml::dependency::check_dependencies;
use cpml::diagnostic::order_diagnostics;
use cpml::keyframe::{active_activities_at, extract_keyframes};
use cpml::metric::compute_metrics;
use cpml::model::{Activity, Assertion, Contribution, Geometry, Pose, Shape};
use cpml::numeric::Real;
use cpml::pipeline::{build_model, schedule_duration, PipelineResult};
use cpml::probe_check::{active_projections, check_probes, ProbeReading, Reading};
use cpml::schema::{
    ActivityDef, AssertionDef, CpmlDocument, FieldDef, FieldType, GeometryDef, ProbeDef, ProjectionDef, ShapeDef,
    TimespanDef,
};

fn num(x: f64) -> Real {
    Real { bits: x.to_bits() }
}

fn value(r: Real) -> f64 {
    f64::from_bits(r.bits)
}

fn zone() -> GeometryDef {
    GeometryDef {
        id: "zone".to_string(),
        pose: None,
        shape: ShapeDef::Cuboid { half_extents: [num(5.0), num(5.0), num(5.0)] },
        region: None,
    }
}

fn zone_geometry() -> Geometry {
    Geometry { shape: Shape::Cuboid { half_extents: [num(5.0), num(5.0), num(5.0)] }, pose: Pose::identity(), region: None }
}

fn activity(id: &str, start: &str, end: &str, supply: Option<f64>, need: Option<f64>) -> ActivityDef {
    ActivityDef {
        id: id.to_string(),
        name: None,
        series: None,
        timespan: TimespanDef { start: start.to_string(), end: end.to_string() },
        geometry: None,
        collision: None,
        probes: need
            .map(|n| ProbeDef {
                name: None,
                field: "power".to_string(),
                geometry: "zone".to_string(),
                assert: AssertionDef::Gte { gte: num(n) },
                diagnostic_level: None,
            })
            .into_iter()
            .collect(),
        projections: supply
            .map(|v| ProjectionDef {
                name: None,
                field: "power".to_string(),
                geometry: "zone".to_string(),
                kind: None,
                value: Some(num(v)),
                operator: None,
                record: None,
                confidence: None,
            })
            .into_iter()
            .collect(),
        structures: vec![],
        depends_on: vec![],
        demands: vec![],
    }
}

fn document(name: &str, activities: Vec<ActivityDef>) -> CpmlDocument {
    CpmlDocument {
        version: "1.0".to_string(),
        name: Some(name.to_string()),
        description: None,
        fields: vec![FieldDef { name: "power".to_string(), field_type: FieldType::Capacity, operator: None, window_size: None }],
        geometries: vec![zone()],
        activities,
        barriers: vec![],
        regions: vec![],
    }
}

/// How a blame entry sums up a capacity contribution.
fn summary(c: &Contribution) -> String {
    match c {
        Contribution::Capacity(v) => format!("capacity({})", value(*v)),
        other => format!("{:?}", other),
    }
}

/// The power supplied by the active projections (all on the one zone).
fn reading(active: &[&Activity], probe_assertion: &Assertion, in_effect: usize) -> ProbeReading {
    let mut total = 0.0;
    for a in active {
        for p in &a.projections {
            if let Contribution::Capacity(v) = &p.contribution {
                total += value(*v);
            }
        }
    }
    let reading = match probe_assertion {
        Assertion::Gte(t) if total < value(*t) => Reading::Bound(Some(format!(
            "Value below threshold: sampled {:.2} < required {:.2} on field '{}'",
            total,
            value(*t),
            "power"
        ))),
        _ => Reading::Bound(None),
    };
    ProbeReading { reading, overlaps: vec![true; in_effect] }
}

fn run(doc: &CpmlDocument) -> PipelineResult {
    let model = build_model(doc, &vec![zone_geometry()], &vec!["-5.0_-5.0_-5.0__5.0_5.0_5.0".to_string()])
        .expect("document is valid");
    let keyframes = extract_keyframes(&model.activities);
    let mut diagnostics = Vec::new();
    for kf in &keyframes {
        let active = active_activities_at(kf, &model.activities);
        let in_effect = active_projections(&active);
        let summaries: Vec<String> = in_effect.iter().map(|p| summary(&p.contribution)).collect();
        let readings: Vec<Vec<ProbeReading>> = active
            .iter()
            .map(|a| a.probes.iter().map(|p| reading(&active, &p.assertion, in_effect.len())).collect())
            .collect();
        diagnostics.extend(check_probes(kf.index, kf.date, &active, &model.fields, &readings, &summaries));
    }
    diagnostics.extend(check_dependencies(&model.activities, &keyframes));
    let diagnostics = order_diagnostics(diagnostics, keyframes.len());
    let metrics = compute_metrics(&diagnostics, &keyframes);
    let duration = schedule_duration(&model.activities);
    PipelineResult { model, diagnostics, metrics, schedule_duration: duration }
}

#[test]
fn test_date_only_backward_compat() {
    // Date-only format still works (midnight)
    let doc = document("Backward Compat Test", vec![activity("task", "2026-01-01", "2026-01-10", None, Some(0.0))]);
    let result = run(&doc);
    assert_eq!(result.schedule_duration, 9);
}

#[test]
fn test_datetime_with_time() {
    let doc = document(
        "DateTime Test",
        vec![
            activity("morning_task", "2026-01-01T08:00:00", "2026-01-01T17:00:00", None, Some(0.0)),
            activity("afternoon_task", "2026-01-01T13:00:00", "2026-01-01T14:00:00", None, Some(0.0)),
        ],
    );
    let result = run(&doc);
    // Both tasks within the same day but different hours
    assert!(result.diagnostics.is_empty());
    assert!(!result.metrics.is_empty());
    // keyframes include the time boundaries
    assert_eq!(result.metrics[0].points.len(), 4);
}

#[test]
fn test_subday_half_open() {
    let doc = document(
        "Subday Half-Open Test",
        vec![
            activity("morning_only", "2026-01-05T08:00:00", "2026-01-05T12:00:00", Some(100.0), None),
            activity("afternoon_check", "2026-01-05T14:00:00", "2026-01-05T18:00:00", None, Some(50.0)),
        ],
    );
    let result = run(&doc);
    // morning_only ends at 12:00, afternoon_check starts at 14:00: the check
    // sees no power, and gte 50 fails.
    let errors: Vec<_> = result.diagnostics.iter().filter(|d| d.activity_id == "afternoon_check").collect();
    assert!(!errors.is_empty(), "Expected afternoon_check to fail (0 < 50)");
}

#[test]
fn test_mixed_date_datetime_formats() {
    let doc = document(
        "Mixed Format Test",
        vec![
            activity("day_task", "2026-01-01", "2026-01-10", Some(100.0), None),
            activity("hour_task", "2026-01-05T10:00:00", "2026-01-05T11:00:00", None, Some(50.0)),
        ],
    );
    let result = run(&doc);
    // hour_task runs during day_task, sees 100 >= 50 and passes
    let errors: Vec<_> = result.diagnostics.iter().filter(|d| d.activity_id == "hour_task").collect();
    assert!(errors.is_empty(), "hour_task should see power from day_task and pass");
}

#[test]
fn sub_day_schedule_counts_whole_days() {
    let doc = document("Short", vec![activity("task", "2026-01-01T08:00:00", "2026-01-02T07:00:00", None, None)]);
    let result = run(&doc);
    assert_eq!(result.schedule_duration, 0);
}

#[test]
fn end_before_start_is_rejected() {
    let doc = document("Backwards", vec![activity("task", "2026-01-10", "2026-01-01", None, None)]);
    let err = build_model(&doc, &vec![zone_geometry()], &vec!["k".to_string()]).unwrap_err();
    assert_eq!(err.message(), "Validation error: Activity 'task': end date must be after start date");
}

#[test]
fn unreadable_date_is_a_date_parse_error() {
    let doc = document("Bad", vec![activity("task", "2026-13-01", "2026-01-01", None, None)]);
    let err = build_model(&doc, &vec![zone_geometry()], &vec!["k".to_string()]).unwrap_err();
    assert!(matches!(err, cpml::error::CpmlError::DateParseError(_)));
    assert!(err.message().starts_with("Date parse error: Invalid date/datetime '2026-13-01': "));
}
