use cpml::diagnostic::{occupancy_level, order_diagnostics, sort_by_severity, BlameEntry, Diagnostic};
use cpml::keyframe::Keyframe;
use cpml::metric::compute_metrics;
use cpml::model::{
    Activity, Assertion, CapacityField, Contribution, Field, Geometry, OccupancyField, Pose, PresenceCriteria,
    PresenceField, PresenceRecord, Probe, Projection, Shape, Timespan,
};
use cpml::numeric::Real;
use cpml::presence::{is_expired, record_matches};
use cpml::probe_check::{
    active_projections, check_probes, feeding, probe_diagnostic, projections_on_field, ProbeReading, Reading,
};
use cpml::schema::{DiagnosticLevel, FieldType, OccupancyKind};
use cpml::time::{parse_date, parse_datetime, DateTime};

fn dt(s: &str) -> DateTime {
    parse_datetime(s).unwrap()
}

fn cube() -> Geometry {
    let one = Real { bits: 1.0f64.to_bits() };
    Geometry { shape: Shape::Cuboid { half_extents: [one, one, one] }, pose: Pose::identity(), region: None }
}

fn probe(id: &str, field: &str, assertion: Assertion, level: DiagnosticLevel) -> Probe {
    Probe {
        id: id.to_string(),
        name: None,
        field_name: field.to_string(),
        geometry: cube(),
        assertion,
        diagnostic_level: level,
        parent_activity_id: "a".to_string(),
    }
}

fn activity(id: &str, series: Option<&str>, probes: Vec<Probe>) -> Activity {
    Activity {
        id: id.to_string(),
        name: None,
        series: series.map(|s| s.to_string()),
        timespan: Timespan { start: dt("2026-01-01"), end: dt("2026-01-10") },
        geometry: None,
        probes,
        projections: vec![],
        depends_on: vec![],
    }
}

fn fields() -> Vec<Field> {
    vec![
        Field::Occupancy(OccupancyField { name: "space".to_string() }),
        Field::Capacity(CapacityField { name: "power".to_string() }),
        Field::Presence(PresenceField { name: "permits".to_string() }),
    ]
}

fn proj(id: &str, activity: &str, field: &str, contribution: Contribution) -> Projection {
    Projection {
        id: id.to_string(),
        name: None,
        field_name: field.to_string(),
        geometry: cube(),
        contribution,
        parent_activity_id: activity.to_string(),
        confidence: None,
    }
}

fn reading(r: Reading) -> ProbeReading {
    ProbeReading { reading: r, overlaps: vec![] }
}

fn none_in_effect() -> Vec<&'static Projection> {
    vec![]
}

fn entry(b: &BlameEntry) -> (&str, &str, &str) {
    (b.activity_id.as_str(), b.projection_id.as_str(), b.contribution_summary.as_str())
}

#[test]
fn soft_overlap_is_a_warning_hard_overlap_an_error() {
    assert_eq!(occupancy_level(OccupancyKind::Soft, DiagnosticLevel::Warning), DiagnosticLevel::Warning);
    assert_eq!(occupancy_level(OccupancyKind::Hard, DiagnosticLevel::Warning), DiagnosticLevel::Error);
    // the probe's level is a floor
    assert_eq!(occupancy_level(OccupancyKind::Soft, DiagnosticLevel::Error), DiagnosticLevel::Error);
    assert_eq!(occupancy_level(OccupancyKind::Hard, DiagnosticLevel::Fatal), DiagnosticLevel::Fatal);
    assert_eq!(occupancy_level(OccupancyKind::Hard, DiagnosticLevel::Debug), DiagnosticLevel::Error);
}

#[test]
fn occupancy_probe_reports_collision_with_blame_and_series() {
    let p = probe("a/collision_soft_probe", "space", Assertion::Empty, DiagnosticLevel::Warning);
    let act = activity("a", Some("s1"), vec![]);
    let own = proj("a/q", "a", "space", Contribution::Occupancy { kind: OccupancyKind::Soft });
    let mut other = proj("b/p", "b", "space", Contribution::Occupancy { kind: OccupancyKind::Hard });
    other.confidence = Some(Real { bits: 0.5f64.to_bits() });
    let far = proj("c/p", "c", "space", Contribution::Occupancy { kind: OccupancyKind::Hard });
    let supply = proj("b/cap", "b", "power", Contribution::Capacity(Real { bits: 5.0f64.to_bits() }));
    let in_effect = vec![&own, &other, &far, &supply];
    let texts: Vec<String> = vec!["occupancy(Soft)".into(), "occupancy(Hard)".into(), "occupancy(Hard)".into(), "capacity(5)".into()];
    let r = ProbeReading { reading: Reading::Occupancy(Some(OccupancyKind::Hard)), overlaps: vec![true, true, false, true] };
    let d = probe_diagnostic(3, dt("2026-01-02"), &act, &p, &fields(), &r, &in_effect, &texts).expect("reports");
    assert_eq!(d.keyframe_index, 3);
    assert_eq!(d.keyframe_date, dt("2026-01-02"));
    assert_eq!(d.activity_id, "a");
    assert_eq!(d.probe_id, "a/collision_soft_probe");
    assert_eq!(d.level, DiagnosticLevel::Error);
    assert_eq!(d.message, "Occupancy collision: Hard overlap detected");
    // only the overlapping occupancy projection of another activity is blamed
    assert_eq!(d.blame.len(), 1);
    assert_eq!(entry(&d.blame[0]), ("b", "b/p", "occupancy(Hard)"));
    assert_eq!(d.blame[0].confidence.map(|c| c.bits), Some(0.5f64.to_bits()));
    assert_eq!(d.series_id.as_deref(), Some("s1"));
    // vacant region: nothing to report
    let vacant = reading(Reading::Occupancy(None));
    assert!(probe_diagnostic(0, dt("2026-01-02"), &act, &p, &fields(), &vacant, &none_in_effect(), &vec![]).is_none());
}

#[test]
fn probes_that_cannot_apply_are_skipped() {
    let act = activity("a", None, vec![]);
    let hit = reading(Reading::Occupancy(Some(OccupancyKind::Hard)));
    // unknown field
    let p = probe("a/p", "nothing", Assertion::Empty, DiagnosticLevel::Error);
    assert!(probe_diagnostic(0, dt("2026-01-02"), &act, &p, &fields(), &hit, &none_in_effect(), &vec![]).is_none());
    // emptiness on a capacity field
    let p = probe("a/p", "power", Assertion::Empty, DiagnosticLevel::Error);
    assert!(probe_diagnostic(0, dt("2026-01-02"), &act, &p, &fields(), &hit, &none_in_effect(), &vec![]).is_none());
    // a bound on an occupancy field has no value to sample
    let broken = reading(Reading::Bound(Some("Value below threshold".to_string())));
    let p = probe("a/p", "space", Assertion::Gte(Real { bits: 0 }), DiagnosticLevel::Error);
    assert!(probe_diagnostic(0, dt("2026-01-02"), &act, &p, &fields(), &broken, &none_in_effect(), &vec![]).is_none());
}

#[test]
fn bound_and_presence_probes_report_at_their_level() {
    let act = activity("a", None, vec![]);
    let p = probe("a/p", "power", Assertion::Gte(Real { bits: 100.0f64.to_bits() }), DiagnosticLevel::Warning);
    let msg = "Value below threshold: sampled 0.00 < required 100.00 on field 'power'";
    let d = probe_diagnostic(0, dt("2026-01-02"), &act, &p, &fields(), &reading(Reading::Bound(Some(msg.to_string()))), &none_in_effect(), &vec![])
        .unwrap();
    assert_eq!(d.level, DiagnosticLevel::Warning);
    assert_eq!(d.message, msg);
    assert!(probe_diagnostic(0, dt("2026-01-02"), &act, &p, &fields(), &reading(Reading::Bound(None)), &none_in_effect(), &vec![]).is_none());

    let criteria = PresenceCriteria { key: "permit".to_string(), record_type: None, attributes: vec![] };
    let p = probe("a/q", "permits", Assertion::Present(criteria), DiagnosticLevel::Error);
    let d = probe_diagnostic(0, dt("2026-01-02"), &act, &p, &fields(), &reading(Reading::Presence(false)), &none_in_effect(), &vec![]).unwrap();
    assert_eq!(d.message, "Required presence record 'permit' not found or invalid on field 'permits'");
    assert!(probe_diagnostic(0, dt("2026-01-02"), &act, &p, &fields(), &reading(Reading::Presence(true)), &none_in_effect(), &vec![]).is_none());
}

#[test]
fn frame_diagnostics_come_most_severe_first_in_stable_order() {
    let a = activity(
        "a",
        None,
        vec![
            probe("a/1", "power", Assertion::Gte(Real { bits: 0 }), DiagnosticLevel::Warning),
            probe("a/2", "space", Assertion::Empty, DiagnosticLevel::Warning),
        ],
    );
    let b = activity("b", None, vec![probe("b/1", "power", Assertion::Gte(Real { bits: 0 }), DiagnosticLevel::Warning)]);
    let all = vec![a, b];
    let active = vec![&all[0], &all[1]];
    let readings = vec![
        vec![reading(Reading::Bound(Some("first".to_string()))), reading(Reading::Occupancy(Some(OccupancyKind::Hard)))],
        vec![reading(Reading::Bound(Some("second".to_string())))],
    ];
    let out = check_probes(2, dt("2026-01-03"), &active, &fields(), &readings, &vec![]);
    let ids: Vec<&str> = out.iter().map(|d| d.probe_id.as_str()).collect();
    assert_eq!(ids, vec!["a/2", "a/1", "b/1"]);
    assert_eq!(out[0].level, DiagnosticLevel::Error);
}

fn diag(index: usize, level: DiagnosticLevel, id: &str) -> Diagnostic {
    Diagnostic {
        keyframe_index: index,
        keyframe_date: DateTime { secs: 0 },
        activity_id: "x".to_string(),
        probe_id: id.to_string(),
        level,
        message: String::new(),
        blame: vec![],
        series_id: None,
    }
}

#[test]
fn severity_sort_is_stable() {
    let v = vec![
        diag(0, DiagnosticLevel::Info, "i1"),
        diag(0, DiagnosticLevel::Fatal, "f1"),
        diag(0, DiagnosticLevel::Info, "i2"),
        diag(0, DiagnosticLevel::Debug, "d1"),
        diag(0, DiagnosticLevel::Warning, "w1"),
        diag(0, DiagnosticLevel::Fatal, "f2"),
    ];
    let out = sort_by_severity(v);
    let ids: Vec<&str> = out.iter().map(|d| d.probe_id.as_str()).collect();
    assert_eq!(ids, vec!["f1", "f2", "w1", "i1", "i2", "d1"]);
}

#[test]
fn metrics_weigh_diagnostics_by_severity_and_accumulate() {
    let kfs = vec![
        Keyframe { date: dt("2026-01-01"), index: 0 },
        Keyframe { date: dt("2026-01-02"), index: 1 },
        Keyframe { date: dt("2026-01-03"), index: 2 },
    ];
    let d = vec![
        diag(0, DiagnosticLevel::Error, "e"),
        diag(0, DiagnosticLevel::Warning, "w"),
        diag(2, DiagnosticLevel::Fatal, "f"),
        diag(2, DiagnosticLevel::Info, "i"),
        diag(2, DiagnosticLevel::Debug, "g"),
    ];
    let m = compute_metrics(&d, &kfs);
    assert_eq!(m.len(), 2);
    assert_eq!(m[0].config.name, "risk_index");
    assert_eq!(m[0].config.unit, "points");
    assert_eq!(m[1].config.name, "cost_impact");
    let risk: Vec<(i64, i64)> = m[0].points.iter().map(|p| (p.incremental, p.cumulative)).collect();
    assert_eq!(risk, vec![(13, 13), (0, 13), (51, 64)]);
    let cost: Vec<(i64, i64)> = m[1].points.iter().map(|p| (p.incremental, p.cumulative)).collect();
    assert_eq!(cost, vec![(6, 6), (0, 6), (20, 26)]);
    assert_eq!(m[0].points[2].keyframe_date, dt("2026-01-03"));
}

fn record(key: &str, from: &str, until: Option<&str>) -> PresenceRecord {
    PresenceRecord {
        key: key.to_string(),
        record_type: Some("permit".to_string()),
        attributes: vec![("zone".to_string(), "A".to_string())],
        valid_from: parse_date(from).unwrap(),
        valid_until: until.map(|u| parse_date(u).unwrap()),
    }
}

#[test]
fn presence_records_match_on_key_type_attributes_and_validity() {
    let r = record("dig", "2026-01-05", Some("2026-01-10"));
    let recs = vec![&r];
    let key = "dig".to_string();
    let attrs = vec![("zone".to_string(), "A".to_string())];
    let ty = Some("permit".to_string());
    assert!(record_matches(&recs, &key, &ty, &attrs, dt("2026-01-05T09:00:00")));
    assert!(record_matches(&recs, &key, &None, &vec![], dt("2026-01-10T23:00:00")));
    assert!(!record_matches(&recs, &key, &ty, &attrs, dt("2026-01-04")));
    assert!(!record_matches(&recs, &key, &ty, &attrs, dt("2026-01-11")));
    assert!(!record_matches(&recs, &"other".to_string(), &ty, &attrs, dt("2026-01-06")));
    assert!(!record_matches(&recs, &key, &Some("licence".to_string()), &attrs, dt("2026-01-06")));
    assert!(!record_matches(&recs, &key, &ty, &vec![("zone".to_string(), "B".to_string())], dt("2026-01-06")));
    assert!(is_expired(&r, dt("2026-01-11")));
    assert!(!is_expired(&r, dt("2026-01-10T23:59:59")));
    assert!(!is_expired(&record("x", "2026-01-01", None), dt("2099-01-01")));
}

fn projection(id: &str) -> Projection {
    Projection {
        id: id.to_string(),
        name: None,
        field_name: "power".to_string(),
        geometry: cube(),
        contribution: Contribution::Capacity(Real { bits: 0 }),
        parent_activity_id: "x".to_string(),
        confidence: None,
    }
}

#[test]
fn active_projections_are_those_of_the_active_activities() {
    let mut a = activity("a", None, vec![]);
    a.projections = vec![projection("a/p0"), projection("a/x/p")];
    let mut b = activity("a/x", None, vec![]);
    b.projections = vec![projection("a/x/p"), projection("a/x/q")];
    let mut c = activity("c", None, vec![]);
    c.projections = vec![projection("c/p0")];
    let all = vec![a, b, c];
    // "a" is not active: its projection whose ID collides with one of "a/x" stays out
    let active = vec![&all[1], &all[2]];
    let ids: Vec<&str> = active_projections(&active).iter().map(|p| p.id.as_str()).collect();
    assert_eq!(ids, vec!["a/x/p", "a/x/q", "c/p0"]);
    let none: Vec<&Activity> = vec![];
    assert!(active_projections(&none).is_empty());
}

#[test]
fn bound_probes_blame_overlapping_projections_on_their_field() {
    let act = activity("a", None, vec![]);
    let p = probe("a/p", "power", Assertion::Gte(Real { bits: 100.0f64.to_bits() }), DiagnosticLevel::Error);
    let mine = proj("a/supply", "a", "power", Contribution::Capacity(Real { bits: 30.0f64.to_bits() }));
    let theirs = proj("b/draw", "b", "power", Contribution::Capacity(Real { bits: (-150.0f64).to_bits() }));
    let elsewhere = proj("c/draw", "c", "power", Contribution::Capacity(Real { bits: (-1.0f64).to_bits() }));
    let wall = proj("d/wall", "d", "space", Contribution::Occupancy { kind: OccupancyKind::Hard });
    let in_effect = vec![&mine, &theirs, &elsewhere, &wall];
    let texts: Vec<String> =
        vec!["capacity(30)".into(), "capacity(-150)".into(), "capacity(-1)".into(), "occupancy(Hard)".into()];
    let r = ProbeReading {
        reading: Reading::Bound(Some("Value below threshold".to_string())),
        overlaps: vec![true, true, false, true],
    };
    let d = probe_diagnostic(0, dt("2026-01-02"), &act, &p, &fields(), &r, &in_effect, &texts).unwrap();
    let blamed: Vec<(&str, &str, &str)> = d.blame.iter().map(entry).collect();
    // a numeric probe blames its own activity's projections too, in order
    assert_eq!(blamed, vec![("a", "a/supply", "capacity(30)"), ("b", "b/draw", "capacity(-150)")]);
}

#[test]
fn presence_probes_blame_records_on_their_field() {
    let act = activity("a", None, vec![]);
    let criteria = PresenceCriteria { key: "permit".to_string(), record_type: None, attributes: vec![] };
    let p = probe("a/q", "permits", Assertion::Present(criteria), DiagnosticLevel::Error);
    let rec = PresenceRecord {
        key: "other_permit".to_string(),
        record_type: None,
        attributes: vec![],
        valid_from: parse_date("2026-01-01").unwrap(),
        valid_until: None,
    };
    let permit = proj("b/permit", "b", "permits", Contribution::Presence(rec));
    let supply = proj("b/supply", "b", "power", Contribution::Capacity(Real { bits: 1.0f64.to_bits() }));
    let in_effect = vec![&permit, &supply];
    let texts: Vec<String> = vec!["unused".into(), "capacity(1)".into()];
    let r = ProbeReading { reading: Reading::Presence(false), overlaps: vec![true, true] };
    let d = probe_diagnostic(0, dt("2026-01-02"), &act, &p, &fields(), &r, &in_effect, &texts).unwrap();
    let blamed: Vec<(&str, &str, &str)> = d.blame.iter().map(entry).collect();
    assert_eq!(blamed, vec![("b", "b/permit", "presence(key=other_permit)")]);
}

#[test]
fn check_probes_blames_only_projections_in_effect() {
    let mut a = activity("a", None, vec![probe("a/1", "space", Assertion::Empty, DiagnosticLevel::Warning)]);
    a.projections = vec![proj("a/own", "a", "space", Contribution::Occupancy { kind: OccupancyKind::Hard })];
    let mut b = activity("b", None, vec![]);
    b.projections = vec![proj("b/crane", "b", "space", Contribution::Occupancy { kind: OccupancyKind::Soft })];
    let mut later = activity("later", None, vec![]);
    later.projections = vec![proj("later/road", "later", "space", Contribution::Occupancy { kind: OccupancyKind::Hard })];
    let all = vec![a, b, later];
    // "later" has not started: its projection is not in effect and cannot be blamed
    let active = vec![&all[0], &all[1]];
    assert_eq!(active_projections(&active).len(), 2);
    let readings = vec![
        vec![ProbeReading { reading: Reading::Occupancy(Some(OccupancyKind::Soft)), overlaps: vec![true, true] }],
        vec![],
    ];
    let summaries: Vec<String> = vec!["occupancy(Hard)".into(), "occupancy(Soft)".into()];
    let out = check_probes(1, dt("2026-01-02"), &active, &fields(), &readings, &summaries);
    assert_eq!(out.len(), 1);
    let blamed: Vec<(&str, &str, &str)> = out[0].blame.iter().map(entry).collect();
    assert_eq!(blamed, vec![("b", "b/crane", "occupancy(Soft)")]);
    assert_eq!(out[0].level, DiagnosticLevel::Warning);
}

#[test]
fn a_runs_diagnostics_come_most_severe_first_then_by_keyframe() {
    let v = vec![
        diag(2, DiagnosticLevel::Warning, "w2"),
        diag(0, DiagnosticLevel::Warning, "w0"),
        diag(1, DiagnosticLevel::Error, "e1"),
        diag(0, DiagnosticLevel::Error, "e0a"),
        diag(2, DiagnosticLevel::Fatal, "f2"),
        diag(0, DiagnosticLevel::Error, "e0b"),
        diag(1, DiagnosticLevel::Info, "i1"),
    ];
    let out = order_diagnostics(v, 3);
    let ids: Vec<&str> = out.iter().map(|d| d.probe_id.as_str()).collect();
    assert_eq!(ids, vec!["f2", "e0a", "e0b", "e1", "w0", "w2", "i1"]);
    assert!(order_diagnostics(vec![], 0).is_empty());
}

#[test]
fn readings_are_fed_by_overlapping_projections_of_the_fields_kind() {
    let cap = proj("a/cap", "a", "power", Contribution::Capacity(Real { bits: 1.0f64.to_bits() }));
    let occ = proj("a/occ", "a", "space", Contribution::Occupancy { kind: OccupancyKind::Hard });
    let cap2 = proj("b/cap", "b", "water", Contribution::Capacity(Real { bits: 2.0f64.to_bits() }));
    let far = proj("c/cap", "c", "power", Contribution::Capacity(Real { bits: 3.0f64.to_bits() }));
    let ps = vec![&cap, &occ, &cap2, &far];
    assert_eq!(feeding(&ps, &vec![true, true, true, false], FieldType::Capacity), vec![0, 2]);
    assert_eq!(feeding(&ps, &vec![true, true, true, true], FieldType::Occupancy), vec![1]);
    assert!(feeding(&ps, &vec![true; 4], FieldType::Rate).is_empty());
    let ids: Vec<&str> = projections_on_field(&ps, &"power".to_string()).iter().map(|p| p.id.as_str()).collect();
    assert_eq!(ids, vec!["a/cap", "c/cap"]);
}
