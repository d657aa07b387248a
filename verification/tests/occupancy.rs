use cpml::model::{Activity, Contribution, Geometry, Pose, Projection, Shape, Timespan};
use cpml::numeric::Real;
use cpml::occupancy::{reaches, worst_occupancy};
use cpml::schema::OccupancyKind;
use cpml::time::DateTime;

fn cube() -> Geometry {
    let one = Real { bits: 1.0f64.to_bits() };
    Geometry { shape: Shape::Cuboid { half_extents: [one, one, one] }, pose: Pose::identity(), region: None }
}

fn projection(parent: &str, contribution: Contribution) -> Projection {
    Projection {
        id: format!("{}/p", parent),
        name: None,
        field_name: "space".to_string(),
        geometry: cube(),
        contribution,
        parent_activity_id: parent.to_string(),
        confidence: None,
    }
}

fn activity(id: &str, series: Option<&str>) -> Activity {
    Activity {
        id: id.to_string(),
        name: None,
        series: series.map(|s| s.to_string()),
        timespan: Timespan { start: DateTime { secs: 0 }, end: DateTime { secs: 86400 } },
        geometry: None,
        probes: vec![],
        projections: vec![],
        depends_on: vec![],
    }
}

fn hard() -> Contribution {
    Contribution::Occupancy { kind: OccupancyKind::Hard }
}

fn soft() -> Contribution {
    Contribution::Occupancy { kind: OccupancyKind::Soft }
}

#[test]
fn hard_overlap_dominates_soft() {
    let acts = vec![activity("me", None), activity("crane", None), activity("truck", None)];
    let a = projection("crane", soft());
    let b = projection("truck", hard());
    let ps = vec![&a, &b];
    assert_eq!(worst_occupancy(&ps, &vec![true, true], &"me".to_string(), &None, &acts), Some(OccupancyKind::Hard));
    assert_eq!(worst_occupancy(&ps, &vec![true, false], &"me".to_string(), &None, &acts), Some(OccupancyKind::Soft));
    assert_eq!(worst_occupancy(&ps, &vec![false, false], &"me".to_string(), &None, &acts), None);
}

#[test]
fn own_activity_and_series_are_left_out() {
    let acts = vec![activity("pour_1", Some("pours")), activity("pour_2", Some("pours")), activity("crane", Some("lifts"))];
    let own = projection("pour_1", hard());
    let sibling = projection("pour_2", hard());
    let other = projection("crane", soft());
    let ps = vec![&own, &sibling, &other];
    let series = Some("pours".to_string());
    assert_eq!(
        worst_occupancy(&ps, &vec![true, true, true], &"pour_1".to_string(), &series, &acts),
        Some(OccupancyKind::Soft)
    );
    assert_eq!(worst_occupancy(&ps, &vec![true, true, false], &"pour_1".to_string(), &series, &acts), None);
    // without a series, only the activity itself is left out
    assert_eq!(
        worst_occupancy(&ps, &vec![true, true, false], &"pour_1".to_string(), &None, &acts),
        Some(OccupancyKind::Hard)
    );
}

#[test]
fn other_contributions_never_occupy() {
    let acts = vec![activity("a", None)];
    let cap = projection("b", Contribution::Capacity(Real { bits: 5.0f64.to_bits() }));
    assert_eq!(worst_occupancy(&vec![&cap], &vec![true], &"a".to_string(), &None, &acts), None);
}

#[test]
fn a_barrier_hides_only_soft_projections() {
    assert!(reaches(true, true, OccupancyKind::Hard, true));
    assert!(!reaches(true, true, OccupancyKind::Soft, true));
    assert!(reaches(true, true, OccupancyKind::Soft, false));
    assert!(!reaches(false, true, OccupancyKind::Hard, false));
    assert!(!reaches(true, false, OccupancyKind::Hard, false));
}
