use cpml::dependency::{check_dependencies, lags_fit};
use cpml::keyframe::extract_keyframes;
use cpml::model::{Activity, Dependency, DependencyKind, Geometry, Pose, Shape, Timespan};
use cpml::numeric::Real;
use cpml::pipeline::build_model;
use cpml::schema::{
    ActivityDef, AssertionDef, CpmlDocument, DependencyDef, DiagnosticLevel, FieldDef, FieldType, GeometryDef,
    ProbeDef, ShapeDef, TimespanDef,
};
use cpml::schema::DependencyKind as DeclaredKind;
use cpml::time::{parse_datetime, DateTime};

fn dt(s: &str) -> DateTime {
    parse_datetime(s).expect("valid date")
}

fn num(x: f64) -> Real {
    Real { bits: x.to_bits() }
}

fn activity(id: &str, start: &str, end: &str, deps: Vec<(&str, DependencyKind, i64)>) -> Activity {
    Activity {
        id: id.to_string(),
        name: None,
        series: None,
        timespan: Timespan { start: dt(start), end: dt(end) },
        geometry: None,
        probes: vec![],
        projections: vec![],
        depends_on: deps
            .into_iter()
            .map(|(a, kind, lag_days)| Dependency { activity_id: a.to_string(), kind, lag_days })
            .collect(),
    }
}

fn dependency_errors(activities: &Vec<Activity>) -> Vec<cpml::diagnostic::Diagnostic> {
    let keyframes = extract_keyframes(activities);
    assert!(lags_fit(activities));
    check_dependencies(activities, &keyframes)
        .into_iter()
        .filter(|d| d.probe_id.contains("dep_") && d.level >= DiagnosticLevel::Error)
        .collect()
}

#[test]
fn test_fs_dependency_passes() {
    let activities = vec![
        activity("pour_concrete", "2026-01-01", "2026-01-05", vec![]),
        activity("install_equipment", "2026-01-06", "2026-01-10", vec![("pour_concrete", DependencyKind::FS, 0)]),
    ];
    let dep_errors = dependency_errors(&activities);
    assert!(dep_errors.is_empty(), "Expected no dependency errors, got {:?}", dep_errors);
}

#[test]
fn test_fs_dependency_violated() {
    let activities = vec![
        activity("pour_concrete", "2026-01-01", "2026-01-10", vec![]),
        activity("install_equipment", "2026-01-05", "2026-01-15", vec![("pour_concrete", DependencyKind::FS, 0)]),
    ];
    let dep_errors = dependency_errors(&activities);
    assert!(!dep_errors.is_empty(), "Expected FS dependency violation");
    assert!(dep_errors[0].message.contains("FS"));
    assert!(dep_errors[0].message.contains("pour_concrete"));
}

#[test]
fn test_fs_with_lag_passes() {
    // curing ends Jan 5 + 7 days lag = Jan 12. next_phase starts Jan 12. OK.
    let activities = vec![
        activity("curing", "2026-01-01", "2026-01-05", vec![]),
        activity("next_phase", "2026-01-12", "2026-01-20", vec![("curing", DependencyKind::FS, 7)]),
    ];
    let dep_errors = dependency_errors(&activities);
    assert!(dep_errors.is_empty(), "FS with 7-day lag should pass, got {:?}", dep_errors);
}

#[test]
fn test_fs_with_lag_violated() {
    // curing ends Jan 5 + 7 days lag = Jan 12. next_phase starts Jan 8: violated.
    let activities = vec![
        activity("curing", "2026-01-01", "2026-01-05", vec![]),
        activity("next_phase", "2026-01-08", "2026-01-20", vec![("curing", DependencyKind::FS, 7)]),
    ];
    let dep_errors = dependency_errors(&activities);
    assert!(!dep_errors.is_empty(), "FS lag violation should be detected");
}

#[test]
fn test_ss_dependency_violated() {
    // Successor starts Jan 5 but predecessor only starts Jan 10: SS violation.
    let activities = vec![
        activity("predecessor", "2026-01-10", "2026-01-20", vec![]),
        activity("successor", "2026-01-05", "2026-01-15", vec![("predecessor", DependencyKind::SS, 0)]),
    ];
    let dep_errors = dependency_errors(&activities);
    assert!(!dep_errors.is_empty(), "Expected SS dependency violation");
    assert!(dep_errors[0].message.contains("SS"));
}

#[test]
fn test_ff_dependency_violated() {
    // Successor ends Jan 10 but predecessor ends Jan 20: FF violation.
    let activities = vec![
        activity("predecessor", "2026-01-01", "2026-01-20", vec![]),
        activity("successor", "2026-01-05", "2026-01-10", vec![("predecessor", DependencyKind::FF, 0)]),
    ];
    let dep_errors = dependency_errors(&activities);
    assert!(!dep_errors.is_empty(), "Expected FF dependency violation");
    assert!(dep_errors[0].message.contains("FF"));
}

fn site() -> GeometryDef {
    GeometryDef {
        id: "site".to_string(),
        pose: None,
        shape: ShapeDef::Cuboid { half_extents: [num(10.0), num(10.0), num(10.0)] },
        region: None,
    }
}

fn site_geometry() -> Geometry {
    Geometry {
        shape: Shape::Cuboid { half_extents: [num(10.0), num(10.0), num(10.0)] },
        pose: Pose::identity(),
        region: None,
    }
}

fn document(activity_id: &str, depends_on: &str) -> CpmlDocument {
    CpmlDocument {
        version: "1.0".to_string(),
        name: Some("Dependency Test".to_string()),
        description: None,
        fields: vec![FieldDef {
            name: "power".to_string(),
            field_type: FieldType::Capacity,
            operator: None,
            window_size: None,
        }],
        geometries: vec![site()],
        activities: vec![ActivityDef {
            id: activity_id.to_string(),
            name: None,
            series: None,
            timespan: TimespanDef { start: "2026-01-01".to_string(), end: "2026-01-10".to_string() },
            geometry: None,
            collision: None,
            probes: vec![ProbeDef {
                name: None,
                field: "power".to_string(),
                geometry: "site".to_string(),
                assert: AssertionDef::Gte { gte: num(0.0) },
                diagnostic_level: None,
            }],
            projections: vec![],
            structures: vec![],
            depends_on: vec![DependencyDef {
                activity_id: depends_on.to_string(),
                kind: DeclaredKind::Fs,
                lag_days: None,
            }],
            demands: vec![],
        }],
        barriers: vec![],
        regions: vec![],
    }
}

fn region_keys() -> Vec<String> {
    vec!["-10.0_-10.0_-10.0__10.0_10.0_10.0".to_string()]
}

#[test]
fn test_self_dependency_rejected() {
    let doc = document("self_ref", "self_ref");
    let result = build_model(&doc, &vec![site_geometry()], &region_keys());
    assert!(result.is_err(), "Self-dependency should be rejected");
    let err = result.unwrap_err().message();
    assert!(err.contains("cannot depend on itself"));
}

#[test]
fn test_unknown_dependency_rejected() {
    let doc = document("test_activity", "nonexistent");
    let result = build_model(&doc, &vec![site_geometry()], &region_keys());
    assert!(result.is_err(), "Unknown dependency should be rejected");
    let err = result.unwrap_err().message();
    assert!(err.contains("nonexistent"));
}

#[test]
fn dependency_violation_is_reported_at_each_keyframe_with_full_message() {
    let activities = vec![
        activity("pour", "2026-01-01", "2026-01-10", vec![]),
        activity("fit", "2026-01-05", "2026-01-15", vec![("pour", DependencyKind::FS, 0)]),
    ];
    let keyframes = extract_keyframes(&activities);
    let diags = check_dependencies(&activities, &keyframes);
    // fit is active at Jan 5 only before pour's end (Jan 10).
    assert_eq!(diags.len(), 1);
    let d = &diags[0];
    assert_eq!(d.keyframe_index, 1);
    assert_eq!(d.keyframe_date, dt("2026-01-05"));
    assert_eq!(d.activity_id, "fit");
    assert_eq!(d.probe_id, "fit/dep_pour");
    assert_eq!(d.level, DiagnosticLevel::Error);
    assert_eq!(
        d.message,
        "Dependency violation: FS constraint on 'pour' (lag 0 days). Predecessor timespan: 2026-01-01 00:00:00..2026-01-10 00:00:00"
    );
    assert!(d.blame.is_empty());
}

#[test]
fn sf_dependency_violated_when_successor_ends_before_predecessor_start() {
    let activities = vec![
        activity("pred", "2026-01-10", "2026-01-20", vec![]),
        activity("succ", "2026-01-01", "2026-01-05", vec![("pred", DependencyKind::SF, 0)]),
    ];
    let dep_errors = dependency_errors(&activities);
    // succ ends Jan 5; keyframe Jan 5 is before pred's start (Jan 10).
    assert_eq!(dep_errors.len(), 1);
    assert!(dep_errors[0].message.contains("SF"));
    assert_eq!(dep_errors[0].keyframe_date, dt("2026-01-05"));
}

#[test]
fn dependency_on_unknown_activity_is_skipped_by_the_check() {
    let activities = vec![activity("a", "2026-01-01", "2026-01-05", vec![("ghost", DependencyKind::FS, 0)])];
    assert!(dependency_errors(&activities).is_empty());
}

#[test]
fn lags_beyond_the_calendar_do_not_fit() {
    let activities = vec![
        activity("a", "2026-01-01", "2026-01-05", vec![]),
        activity("b", "2026-01-06", "2026-01-08", vec![("a", DependencyKind::FS, 4_000_000_000)]),
    ];
    assert!(!lags_fit(&activities));
}
