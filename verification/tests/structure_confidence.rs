use cpml::diagnostic::{order_diagnostics, Diagnostic};
use cpml::keyframe::{active_activities_at, extract_keyframes};
use cpml::model::{Activity, Assertion, Contribution, CpmlModel, Geometry, Pose, Projection, Shape};
use cpml::numeric::Real;
use cpml::pipeline::build_model;
use cpml::probe_check::{active_projections, check_probes, feeding, ProbeReading, Reading};
use cpml::schema::{
    ActivityDef, AssertionDef, CpmlDocument, FieldDef, FieldType, GeometryDef, ProbeDef, ShapeDef, StructureDef,
    TimespanDef,
};

fn num(x: f64) -> Real {
    Real { bits: x.to_bits() }
}

fn value(r: Real) -> f64 {
    f64::from_bits(r.bits)
}

fn capacity(name: &str) -> FieldDef {
    FieldDef { name: name.to_string(), field_type: FieldType::Capacity, operator: None, window_size: None }
}

fn zone() -> GeometryDef {
    GeometryDef { id: "zone".to_string(), pose: None, shape: ShapeDef::Cuboid { half_extents: [num(5.0), num(5.0), num(5.0)] }, region: None }
}

fn zone_geometry() -> Geometry {
    Geometry { shape: Shape::Cuboid { half_extents: [num(5.0), num(5.0), num(5.0)] }, pose: Pose::identity(), region: None }
}

fn activity(id: &str) -> ActivityDef {
    ActivityDef {
        id: id.to_string(),
        name: None,
        series: None,
        timespan: TimespanDef { start: "2026-01-01".to_string(), end: "2026-01-10".to_string() },
        geometry: None,
        collision: None,
        probes: vec![],
        projections: vec![],
        structures: vec![],
        depends_on: vec![],
        demands: vec![],
    }
}

fn generator(id: &str, confidence: Option<f64>) -> ActivityDef {
    let mut a = activity(id);
    a.structures = vec![StructureDef {
        name: None,
        field: "power".to_string(),
        geometry: "zone".to_string(),
        assert: None,
        diagnostic_level: None,
        kind: None,
        value: Some(num(100.0)),
        operator: None,
        confidence: confidence.map(num),
    }];
    a
}

fn consumer(gte: f64) -> ActivityDef {
    let mut a = activity("consumer");
    a.probes = vec![ProbeDef {
        name: None,
        field: "power".to_string(),
        geometry: "zone".to_string(),
        assert: AssertionDef::Gte { gte: num(gte) },
        diagnostic_level: None,
    }];
    a
}

fn document(name: &str, activities: Vec<ActivityDef>) -> CpmlDocument {
    CpmlDocument {
        version: "1.0".to_string(),
        name: Some(name.to_string()),
        description: None,
        fields: vec![capacity("power")],
        geometries: vec![zone()],
        activities,
        barriers: vec![],
        regions: vec![],
    }
}

fn structure_projection<'a>(model: &'a CpmlModel, id: &str) -> &'a Projection {
    let gen = model.activities.iter().find(|a| a.id == id).unwrap();
    gen.projections.iter().find(|p| p.name.as_deref() == Some("struct_structure_0_projection")).unwrap()
}

/// The confidence-weighted capacity supplied on a field, everything being on one site.
fn sampled(in_effect: &Vec<&Projection>, field: &str) -> f64 {
    let mut total = 0.0;
    for i in feeding(in_effect, &vec![true; in_effect.len()], FieldType::Capacity) {
        let p = in_effect[i];
        if p.field_name == field {
            if let Contribution::Capacity(v) = &p.contribution {
                total += value(*v) * p.confidence.map(value).unwrap_or(1.0);
            }
        }
    }
    total
}

fn reading(in_effect: &Vec<&Projection>, field: &str, assertion: &Assertion) -> ProbeReading {
    let total = sampled(in_effect, field);
    let reading = match assertion {
        Assertion::Gte(t) if total < value(*t) => Reading::Bound(Some(format!(
            "Value below threshold: sampled {:.2} < required {:.2} on field '{}'",
            total,
            value(*t),
            field
        ))),
        _ => Reading::Bound(None),
    };
    ProbeReading { reading, overlaps: vec![true; in_effect.len()] }
}

fn run(doc: &CpmlDocument) -> (CpmlModel, Vec<Diagnostic>) {
    let model = build_model(doc, &vec![zone_geometry()], &vec!["-5.0_-5.0_-5.0__5.0_5.0_5.0".to_string()])
        .expect("pipeline should succeed");
    let keyframes = extract_keyframes(&model.activities);
    let mut diagnostics = Vec::new();
    for kf in &keyframes {
        let active: Vec<&Activity> = active_activities_at(kf, &model.activities);
        let in_effect = active_projections(&active);
        let summaries: Vec<String> = in_effect.iter().map(|p| p.id.clone()).collect();
        let readings: Vec<Vec<ProbeReading>> = active
            .iter()
            .map(|a| a.probes.iter().map(|p| reading(&in_effect, &p.field_name, &p.assertion)).collect())
            .collect();
        diagnostics.extend(check_probes(kf.index, kf.date, &active, &model.fields, &readings, &summaries));
    }
    let diagnostics = order_diagnostics(diagnostics, keyframes.len());
    (model, diagnostics)
}

#[test]
fn test_structure_confidence_weights_capacity() {
    let doc = document(
        "Structure Confidence Test",
        vec![generator("generator_full", Some(1.0)), generator("generator_low_confidence", Some(0.2)), consumer(150.0)],
    );
    let (model, diagnostics) = run(&doc);
    // Conf 1.0 + Conf 0.2 → 100*1.0 + 100*0.2 = 120 < 150 → FAIL
    let errors: Vec<_> = diagnostics.iter().filter(|d| d.probe_id.contains("consumer")).collect();
    assert!(!errors.is_empty(), "Expected probe to fail (120 < 150)");
    assert_eq!(structure_projection(&model, "generator_full").confidence.map(value), Some(1.0));
    assert_eq!(structure_projection(&model, "generator_low_confidence").confidence.map(value), Some(0.2));
}

#[test]
fn test_structure_no_confidence_defaults_to_full() {
    let doc = document("Default Confidence Test", vec![generator("generator", None), consumer(90.0)]);
    let (model, diagnostics) = run(&doc);
    // No explicit confidence → defaults to None → treated as 1.0
    // 100 * 1.0 = 100 >= 90 → PASS
    let errors: Vec<_> = diagnostics.iter().filter(|d| d.probe_id.contains("consumer")).collect();
    assert!(errors.is_empty(), "Expected probe to pass (100 >= 90)");
    assert!(structure_projection(&model, "generator").confidence.is_none());
}
