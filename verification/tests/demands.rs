use cpml::diagnostic::{order_diagnostics, Diagnostic};
use cpml::keyframe::{active_activities_at, extract_keyframes};
use cpml::model::{Activity, Assertion, Contribution, CpmlModel, Geometry, Pose, Projection, Shape};
use cpml::numeric::Real;
use cpml::pipeline::build_model;
use cpml::probe_check::{active_projections, check_probes, feeding, ProbeReading, Reading};
use cpml::schema::{
    ActivityDef, CpmlDocument, DemandDef, DiagnosticLevel, FieldDef, FieldType, GeometryDef, ProjectionDef, ShapeDef,
    TimespanDef,
};

fn num(x: f64) -> Real {
    Real { bits: x.to_bits() }
}

fn value(r: Real) -> f64 {
    f64::from_bits(r.bits)
}

fn capacity(name: &str) -> FieldDef {
    FieldDef { name: name.to_string(), field_type: FieldType::Capacity, operator: None, window_size: None }
}

fn site() -> GeometryDef {
    GeometryDef { id: "site".to_string(), pose: None, shape: ShapeDef::Cuboid { half_extents: [num(20.0), num(20.0), num(5.0)] }, region: None }
}

fn site_geometry() -> Geometry {
    Geometry { shape: Shape::Cuboid { half_extents: [num(20.0), num(20.0), num(5.0)] }, pose: Pose::identity(), region: None }
}

fn activity(id: &str) -> ActivityDef {
    ActivityDef {
        id: id.to_string(),
        name: None,
        series: None,
        timespan: TimespanDef { start: "2026-03-01".to_string(), end: "2026-03-10".to_string() },
        geometry: None,
        collision: None,
        probes: vec![],
        projections: vec![],
        structures: vec![],
        depends_on: vec![],
        demands: vec![],
    }
}

fn supply(field: &str, amount: f64) -> ProjectionDef {
    ProjectionDef {
        name: None,
        field: field.to_string(),
        geometry: "site".to_string(),
        kind: None,
        value: Some(num(amount)),
        operator: None,
        record: None,
        confidence: None,
    }
}

fn demand(field: &str, amount: f64, level: Option<DiagnosticLevel>) -> DemandDef {
    DemandDef { field: field.to_string(), geometry: "site".to_string(), amount: num(amount), diagnostic_level: level }
}

/// Power 500 and water 100 supplied; two pours and a night shift draw on them.
fn demands_demo() -> CpmlDocument {
    let mut utilities = activity("site_utilities");
    utilities.projections = vec![supply("power_supply", 500.0), supply("water_supply", 100.0)];
    let mut pour_a = activity("concrete_pour_A");
    pour_a.demands = vec![demand("power_supply", 150.0, None), demand("water_supply", 30.0, None)];
    let mut pour_b = activity("concrete_pour_B");
    pour_b.demands = vec![demand("power_supply", 200.0, None), demand("water_supply", 40.0, None)];
    let mut night = activity("night_shift_work");
    night.demands = vec![demand("power_supply", 50.0, Some(DiagnosticLevel::Warning))];
    CpmlDocument {
        version: "1.0".to_string(),
        name: Some("Demands Demo".to_string()),
        description: None,
        fields: vec![capacity("power_supply"), capacity("water_supply")],
        geometries: vec![site()],
        activities: vec![utilities, pour_a, pour_b, night],
        barriers: vec![],
        regions: vec![],
    }
}

/// The confidence-weighted capacity supplied on a field, everything being on one site.
fn sampled(in_effect: &Vec<&Projection>, field: &str) -> f64 {
    let mut total = 0.0;
    for i in feeding(in_effect, &vec![true; in_effect.len()], FieldType::Capacity) {
        let p = in_effect[i];
        if p.field_name == field {
            if let Contribution::Capacity(v) = &p.contribution {
                total += value(*v) * p.confidence.map(value).unwrap_or(1.0);
            }
        }
    }
    total
}

fn reading(in_effect: &Vec<&Projection>, field: &str, assertion: &Assertion) -> ProbeReading {
    let total = sampled(in_effect, field);
    let reading = match assertion {
        Assertion::Gte(t) if total < value(*t) => Reading::Bound(Some(format!(
            "Value below threshold: sampled {:.2} < required {:.2} on field '{}'",
            total,
            value(*t),
            field
        ))),
        _ => Reading::Bound(None),
    };
    ProbeReading { reading, overlaps: vec![true; in_effect.len()] }
}

fn run(doc: &CpmlDocument) -> (CpmlModel, Vec<Diagnostic>) {
    let model = build_model(doc, &vec![site_geometry()], &vec!["-20.0_-20.0_-5.0__20.0_20.0_5.0".to_string()])
        .expect("demands demo should run");
    let keyframes = extract_keyframes(&model.activities);
    let mut diagnostics = Vec::new();
    for kf in &keyframes {
        let active: Vec<&Activity> = active_activities_at(kf, &model.activities);
        let in_effect = active_projections(&active);
        let summaries: Vec<String> = in_effect.iter().map(|p| p.id.clone()).collect();
        let readings: Vec<Vec<ProbeReading>> = active
            .iter()
            .map(|a| a.probes.iter().map(|p| reading(&in_effect, &p.field_name, &p.assertion)).collect())
            .collect();
        diagnostics.extend(check_probes(kf.index, kf.date, &active, &model.fields, &readings, &summaries));
    }
    let diagnostics = order_diagnostics(diagnostics, keyframes.len());
    (model, diagnostics)
}

#[test]
fn test_demands_generates_probes_and_projections() {
    let (model, _) = run(&demands_demo());
    let pour_a = model.activities.iter().find(|a| a.id == "concrete_pour_A").expect("concrete_pour_A should exist");
    let demand_probes: Vec<_> = pour_a.probes.iter().filter(|p| p.id.contains("demand_")).collect();
    assert_eq!(demand_probes.len(), 2, "Should have 2 demand probes for power and water");
    let demand_projections: Vec<_> = pour_a.projections.iter().filter(|p| p.id.contains("demand_")).collect();
    assert_eq!(demand_projections.len(), 2, "Should have 2 demand projections");
}

#[test]
fn test_demands_power_shortfall_detected() {
    let (_, diagnostics) = run(&demands_demo());
    // Total power: 500 - 150 - 200 - 50 = 100, which is < 150 and < 200
    let errors: Vec<_> = diagnostics
        .iter()
        .filter(|d| d.level >= DiagnosticLevel::Error && d.message.contains("power_supply"))
        .collect();
    assert_eq!(errors.len(), 2, "Should have 2 power shortfall errors");
    for e in &errors {
        assert!(e.message.contains("power_supply"));
        assert!(e.message.contains("below threshold"));
    }
}

#[test]
fn test_demands_custom_diagnostic_level() {
    let (model, _) = run(&demands_demo());
    let night_shift =
        model.activities.iter().find(|a| a.id == "night_shift_work").expect("night_shift_work should exist");
    let demand_probe =
        night_shift.probes.iter().find(|p| p.id.contains("demand_")).expect("night_shift_work should have a demand probe");
    assert_eq!(demand_probe.diagnostic_level, DiagnosticLevel::Warning, "Custom diagnostic_level should be Warning");
}

#[test]
fn test_demands_water_usage_not_failing() {
    let (_, diagnostics) = run(&demands_demo());
    // Water: 100 - 30 - 40 = 30, which is >= 30 for pour_A, but < 40 for pour_B
    let water_errors: Vec<_> =
        diagnostics.iter().filter(|d| d.message.contains("water_supply") && d.level >= DiagnosticLevel::Error).collect();
    assert_eq!(water_errors.len(), 1, "pour_B needs 40 water but only 30 remains");
    assert!(water_errors[0].probe_id.contains("concrete_pour_B"));
}
