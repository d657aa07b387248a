use cpml::error::CpmlError;
use cpml::expand::{default_diagnostic_level_for_field, expand_activity, find_any_occupancy_field};
use cpml::model::{Activity, Assertion, Contribution, Field, Geometry, Pose, Shape, Timespan};
use cpml::numeric::Real;
use cpml::pipeline::build_model;
use cpml::resolve::resolve_field;
use cpml::schema::{
    ActivityDef, AssertionDef, CollisionDef, CollisionEntry, CpmlDocument, DemandDef, DiagnosticLevel, FieldDef,
    FieldType, GeometryDef, OccupancyKind, PresentCriteriaDef, ScalarOperator, ShapeDef, StructureDef, TimespanDef,
};
use cpml::time::parse_datetime;

fn num(x: f64) -> Real {
    Real { bits: x.to_bits() }
}

fn value(r: Real) -> f64 {
    f64::from_bits(r.bits)
}

fn field(name: &str, t: FieldType) -> FieldDef {
    FieldDef { name: name.to_string(), field_type: t, operator: None, window_size: None }
}

fn fields() -> Vec<FieldDef> {
    vec![
        field("power", FieldType::Capacity),
        field("space", FieldType::Occupancy),
        field("permits", FieldType::Presence),
        FieldDef { name: "strength".to_string(), field_type: FieldType::Scalar, operator: Some(ScalarOperator::Sum), window_size: None },
    ]
}

fn cube(id: &str, h: f64) -> GeometryDef {
    GeometryDef { id: id.to_string(), pose: None, shape: ShapeDef::Cuboid { half_extents: [num(h), num(h), num(h)] }, region: None }
}

fn cube_geometry(h: f64) -> Geometry {
    Geometry { shape: Shape::Cuboid { half_extents: [num(h), num(h), num(h)] }, pose: Pose::identity(), region: None }
}

fn bare(id: &str) -> ActivityDef {
    ActivityDef {
        id: id.to_string(),
        name: None,
        series: None,
        timespan: TimespanDef { start: "2026-01-01".to_string(), end: "2026-01-10".to_string() },
        geometry: None,
        collision: None,
        probes: vec![],
        projections: vec![],
        structures: vec![],
        depends_on: vec![],
        demands: vec![],
    }
}

fn structure(name: Option<&str>, field: &str, geometry: &str) -> StructureDef {
    StructureDef {
        name: name.map(|n| n.to_string()),
        field: field.to_string(),
        geometry: geometry.to_string(),
        assert: None,
        diagnostic_level: None,
        kind: None,
        value: None,
        operator: None,
        confidence: None,
    }
}

fn document(activities: Vec<ActivityDef>) -> CpmlDocument {
    CpmlDocument {
        version: "1.0".to_string(),
        name: None,
        description: None,
        fields: fields(),
        geometries: vec![cube("body", 1.0), cube("swing", 3.0)],
        activities,
        barriers: vec![],
        regions: vec![],
    }
}

fn build(activities: Vec<ActivityDef>) -> Result<cpml::model::CpmlModel, CpmlError> {
    build_model(
        &document(activities),
        &vec![cube_geometry(1.0), cube_geometry(3.0)],
        &vec!["-1.0_-1.0_-1.0__1.0_1.0_1.0".to_string(), "-3.0_-3.0_-3.0__3.0_3.0_3.0".to_string()],
    )
}

#[test]
fn collision_sugar_makes_hard_then_soft_pairs() {
    let mut ad = bare("crane");
    ad.collision = Some(CollisionDef {
        hard: Some(CollisionEntry { geometry: "body".to_string() }),
        soft: Some(CollisionEntry { geometry: "swing".to_string() }),
    });
    let model = build(vec![ad]).expect("valid");
    let a = &model.activities[0];
    assert_eq!(a.probes.len(), 2);
    assert_eq!(a.projections.len(), 2);
    assert_eq!(a.probes[0].id, "crane/collision_hard_probe");
    assert_eq!(a.probes[0].name.as_deref(), Some("collision_hard_probe"));
    assert_eq!(a.probes[0].field_name, "space");
    assert!(matches!(a.probes[0].assertion, Assertion::Empty));
    assert_eq!(a.probes[0].diagnostic_level, DiagnosticLevel::Error);
    assert_eq!(a.probes[1].id, "crane/collision_soft_probe");
    assert_eq!(a.probes[1].diagnostic_level, DiagnosticLevel::Warning);
    assert_eq!(a.projections[0].id, "crane/collision_hard_projection");
    assert!(matches!(a.projections[0].contribution, Contribution::Occupancy { kind: OccupancyKind::Hard }));
    assert_eq!(a.projections[1].id, "crane/collision_soft_projection");
    assert!(matches!(a.projections[1].contribution, Contribution::Occupancy { kind: OccupancyKind::Soft }));
    assert!(matches!(a.projections[1].geometry.shape, Shape::Cuboid { half_extents } if value(half_extents[0]) == 3.0));
    assert_eq!(a.projections[0].parent_activity_id, "crane");
    assert!(a.projections[0].confidence.is_none());
}

#[test]
fn collision_without_occupancy_field_is_a_reference_error() {
    let mut doc = document(vec![]);
    doc.fields = vec![field("power", FieldType::Capacity)];
    let mut ad = bare("crane");
    ad.collision = Some(CollisionDef { hard: Some(CollisionEntry { geometry: "body".to_string() }), soft: None });
    doc.activities = vec![ad];
    let err = build_model(&doc, &vec![cube_geometry(1.0), cube_geometry(3.0)], &vec!["a".to_string(), "b".to_string()])
        .unwrap_err();
    assert_eq!(err.message(), "Reference not found: No occupancy field found. Declare one in the fields section.");
}

#[test]
fn collision_with_unknown_geometry_names_it() {
    let mut ad = bare("crane");
    ad.collision = Some(CollisionDef { hard: None, soft: Some(CollisionEntry { geometry: "nowhere".to_string() }) });
    let err = build(vec![ad]).unwrap_err();
    assert_eq!(err.message(), "Reference not found: Collision soft geometry 'nowhere' not found for activity 'crane'");
}

#[test]
fn structures_infer_assertions_and_contributions() {
    let mut ad = bare("build");
    let mut slab = structure(Some("slab"), "power", "body");
    slab.value = Some(num(40.0));
    slab.confidence = Some(num(0.5));
    let unnamed = structure(None, "space", "swing");
    let mut cured = structure(Some("cure"), "strength", "body");
    cured.value = Some(num(7.0));
    ad.structures = vec![slab, unnamed, cured];
    let model = build(vec![ad]).expect("valid");
    let a = &model.activities[0];
    assert_eq!(a.probes.len(), 3);
    assert_eq!(a.probes[0].id, "build/struct_slab_probe");
    assert!(matches!(a.probes[0].assertion, Assertion::Gte(z) if z.bits == 0));
    assert_eq!(a.projections[0].id, "build/struct_slab_projection");
    assert!(matches!(a.projections[0].contribution, Contribution::Capacity(v) if value(v) == 40.0));
    assert_eq!(a.projections[0].confidence.map(value), Some(0.5));
    assert_eq!(a.probes[1].id, "build/struct_structure_1_probe");
    assert!(matches!(a.probes[1].assertion, Assertion::Empty));
    assert!(matches!(a.projections[1].contribution, Contribution::Occupancy { kind: OccupancyKind::Hard }));
    assert!(matches!(
        a.projections[2].contribution,
        Contribution::Scalar { value: v, operator: ScalarOperator::Sum } if value(v) == 7.0
    ));
    for p in &a.probes {
        assert_eq!(p.diagnostic_level, DiagnosticLevel::Error);
    }
}

#[test]
fn presence_structure_needs_an_assertion() {
    let mut ad = bare("dig");
    ad.structures = vec![structure(None, "permits", "body")];
    let err = build(vec![ad]).unwrap_err();
    assert_eq!(
        err.message(),
        "Validation error: Structure 'structure_0' on presence field 'permits' in activity 'dig' must specify an explicit 'assert' (e.g. 'present: {key: \"...\"}'). Cannot infer a default assertion for presence fields."
    );
}

#[test]
fn presence_structure_records_from_the_activity_start() {
    let mut ad = bare("dig");
    let mut permit = structure(Some("permit_A"), "permits", "body");
    permit.assert = Some(AssertionDef::Present {
        present: PresentCriteriaDef { key: "permit_A".to_string(), record_type: None, attributes: vec![] },
    });
    ad.structures = vec![permit];
    let model = build(vec![ad]).expect("valid");
    let a = &model.activities[0];
    match &a.projections[0].contribution {
        Contribution::Presence(rec) => {
            assert_eq!(rec.key, "permit_A");
            assert!(rec.valid_until.is_none());
            assert_eq!(rec.valid_from, parse_datetime("2026-01-01").unwrap().date());
        },
        other => panic!("unexpected {:?}", other),
    }
    assert!(matches!(&a.probes[0].assertion, Assertion::Present(c) if c.key == "permit_A"));
}

#[test]
fn structure_assertion_must_suit_the_field() {
    let mut ad = bare("build");
    let mut s = structure(Some("s"), "space", "body");
    s.assert = Some(AssertionDef::Gte { gte: num(1.0) });
    ad.structures = vec![s];
    let err = build(vec![ad]).unwrap_err();
    assert_eq!(err.message(), "Type mismatch: Gte assertion is only valid for capacity/scalar/rate fields, got Occupancy");
}

#[test]
fn structure_with_unknown_field_or_geometry() {
    let mut ad = bare("build");
    ad.structures = vec![structure(None, "power", "nowhere")];
    assert_eq!(
        build(vec![ad]).unwrap_err().message(),
        "Reference not found: Structure 'unnamed' geometry 'nowhere' not found in activity 'build'"
    );
    let mut ad = bare("build");
    ad.structures = vec![structure(Some("x"), "nothing", "body")];
    assert_eq!(
        build(vec![ad]).unwrap_err().message(),
        "Reference not found: Structure 'x' field 'nothing' not found in activity 'build'"
    );
}

#[test]
fn demands_probe_the_amount_and_consume_it() {
    let mut ad = bare("pour");
    ad.demands = vec![
        DemandDef { field: "power".to_string(), geometry: "body".to_string(), amount: num(150.0), diagnostic_level: None },
        DemandDef {
            field: "power".to_string(),
            geometry: "swing".to_string(),
            amount: num(20.0),
            diagnostic_level: Some(DiagnosticLevel::Warning),
        },
    ];
    let model = build(vec![ad]).expect("valid");
    let a = &model.activities[0];
    let demand_probes: Vec<_> = a.probes.iter().filter(|p| p.id.contains("demand_")).collect();
    assert_eq!(demand_probes.len(), 2);
    assert_eq!(a.probes[0].id, "pour/demand_0_probe");
    assert_eq!(a.probes[0].name.as_deref(), Some("demand_0_probe"));
    assert!(matches!(a.probes[0].assertion, Assertion::Gte(v) if value(v) == 150.0));
    assert_eq!(a.probes[0].diagnostic_level, DiagnosticLevel::Error);
    assert_eq!(a.probes[1].id, "pour/demand_1_probe");
    assert_eq!(a.probes[1].diagnostic_level, DiagnosticLevel::Warning);
    assert_eq!(a.projections[0].id, "pour/demand_0_projection");
    assert!(matches!(a.projections[0].contribution, Contribution::Capacity(v) if value(v) == -150.0));
    assert!(matches!(a.projections[1].contribution, Contribution::Capacity(v) if value(v) == -20.0));
}

#[test]
fn demand_on_a_non_capacity_field_is_a_type_mismatch() {
    let mut ad = bare("pour");
    ad.demands = vec![DemandDef { field: "space".to_string(), geometry: "body".to_string(), amount: num(1.0), diagnostic_level: None }];
    assert_eq!(
        build(vec![ad]).unwrap_err().message(),
        "Type mismatch: Demand 'space' in activity 'pour' must reference a capacity field, got Occupancy"
    );
    let mut ad = bare("pour");
    ad.demands = vec![DemandDef { field: "water".to_string(), geometry: "body".to_string(), amount: num(1.0), diagnostic_level: None }];
    assert_eq!(
        build(vec![ad]).unwrap_err().message(),
        "Reference not found: Demand 'water' in activity 'pour' references unknown field 'water'"
    );
    let mut ad = bare("pour");
    ad.demands = vec![DemandDef { field: "power".to_string(), geometry: "nowhere".to_string(), amount: num(1.0), diagnostic_level: None }];
    assert_eq!(
        build(vec![ad]).unwrap_err().message(),
        "Reference not found: Demand 'power' geometry 'nowhere' not found in activity 'pour'"
    );
}

#[test]
fn expansion_appends_after_declared_probes_and_leaves_activity_alone_on_error() {
    let resolved: Vec<Field> = fields().iter().map(resolve_field).collect();
    let defs = vec![cube("body", 1.0)];
    let geoms = vec![cube_geometry(1.0)];
    let start = parse_datetime("2026-01-01").unwrap();
    let end = parse_datetime("2026-01-02").unwrap();
    let mut activity = Activity {
        id: "a".to_string(),
        name: None,
        series: None,
        timespan: Timespan { start, end },
        geometry: None,
        probes: vec![],
        projections: vec![],
        depends_on: vec![],
    };
    let mut ad = bare("a");
    ad.demands = vec![DemandDef { field: "power".to_string(), geometry: "body".to_string(), amount: num(1.0), diagnostic_level: None }];
    expand_activity(&mut activity, &ad, &resolved, &defs, &geoms).expect("expands");
    assert_eq!(activity.probes.len(), 1);
    expand_activity(&mut activity, &ad, &resolved, &defs, &geoms).expect("expands again");
    assert_eq!(activity.probes.len(), 2);
    assert_eq!(activity.probes[1].id, "a/demand_0_probe");

    let mut bad = bare("a");
    bad.demands.push(DemandDef { field: "power".to_string(), geometry: "gone".to_string(), amount: num(1.0), diagnostic_level: None });
    let err = expand_activity(&mut activity, &bad, &resolved, &defs, &geoms).unwrap_err();
    assert!(matches!(err, CpmlError::ReferenceError(_)));
    assert_eq!(activity.probes.len(), 2);
    assert_eq!(activity.projections.len(), 2);
}

#[test]
fn occupancy_field_lookup_and_default_level() {
    let resolved: Vec<Field> = fields().iter().map(resolve_field).collect();
    assert_eq!(find_any_occupancy_field(&resolved).unwrap(), "space");
    let none: Vec<Field> = vec![resolve_field(&field("power", FieldType::Capacity))];
    assert!(matches!(find_any_occupancy_field(&none), Err(CpmlError::ReferenceError(_))));
    for f in &resolved {
        assert_eq!(default_diagnostic_level_for_field(f), DiagnosticLevel::Error);
    }
}

#[test]
fn demand_amount_must_be_positive() {
    for amount in [-150.0, 0.0, -0.0, f64::NAN] {
        let mut ad = bare("pour");
        ad.demands = vec![DemandDef { field: "power".to_string(), geometry: "body".to_string(), amount: num(amount), diagnostic_level: None }];
        let err = build(vec![ad]).unwrap_err();
        assert!(matches!(err, CpmlError::ValidationError(_)));
        assert_eq!(err.message(), "Validation error: Demand 'power' in activity 'pour' must have a positive amount");
    }
    let mut ad = bare("pour");
    ad.demands = vec![DemandDef { field: "power".to_string(), geometry: "body".to_string(), amount: num(0.5), diagnostic_level: None }];
    assert!(build(vec![ad]).is_ok());
}

#[test]
fn presence_structure_takes_the_date_of_a_start_with_a_time_of_day() {
    let mut ad = bare("dig");
    ad.timespan = TimespanDef { start: "2026-03-12T08:00".to_string(), end: "2026-03-20T17:00".to_string() };
    let mut permit = structure(Some("permit_A"), "permits", "body");
    permit.assert = Some(AssertionDef::Present {
        present: PresentCriteriaDef { key: "permit_A".to_string(), record_type: None, attributes: vec![] },
    });
    ad.structures = vec![permit];
    let model = build(vec![ad]).expect("valid");
    match &model.activities[0].projections[0].contribution {
        Contribution::Presence(rec) => {
            assert_eq!(rec.key, "permit_A");
            assert!(rec.record_type.is_none());
            assert!(rec.attributes.is_empty());
            assert!(rec.valid_until.is_none());
            assert_eq!(rec.valid_from, parse_datetime("2026-03-12").unwrap().date());
        },
        other => panic!("unexpected {:?}", other),
    }
}
