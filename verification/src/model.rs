//! The resolved model: fields, geometries, probes, projections and activities.
use vstd::prelude::*;

use crate::numeric::Real;
use crate::schema::{DiagnosticLevel, FieldType, OccupancyKind, ScalarOperator};
use crate::time::{Date, DateTime};

verus! {

// ── Fields ──

/// A capacity field: supply and consumption sum up.
#[derive(Debug)]
pub struct CapacityField {
    pub name: String,
}

/// The unified occupancy field.
#[derive(Debug)]
pub struct OccupancyField {
    pub name: String,
}

/// A persistent scalar field with its accumulation operator.
#[derive(Debug)]
pub struct ScalarField {
    pub name: String,
    pub operator: ScalarOperator,
}

/// A presence field of keyed records.
#[derive(Debug)]
pub struct PresenceField {
    pub name: String,
}

/// A flow-rate field with its window in keyframes.
#[derive(Debug)]
pub struct RateField {
    pub name: String,
    pub window_size: usize,
}

/// A resolved field.
#[derive(Debug)]
pub enum Field {
    Capacity(CapacityField),
    Occupancy(OccupancyField),
    Scalar(ScalarField),
    Presence(PresenceField),
    Rate(RateField),
}

impl Field {
    /// The name of the field.
    pub open spec fn spec_name(&self) -> Seq<char> {
        match self {
            Field::Capacity(f) => f.name@,
            Field::Occupancy(f) => f.name@,
            Field::Scalar(f) => f.name@,
            Field::Presence(f) => f.name@,
            Field::Rate(f) => f.name@,
        }
    }

    /// The kind of the field.
    pub open spec fn spec_field_type(&self) -> FieldType {
        match self {
            Field::Capacity(_) => FieldType::Capacity,
            Field::Occupancy(_) => FieldType::Occupancy,
            Field::Scalar(_) => FieldType::Scalar,
            Field::Presence(_) => FieldType::Presence,
            Field::Rate(_) => FieldType::Rate,
        }
    }

    /// The name of the field.
    pub fn name(&self) -> (r: &str)
        ensures
            r@ == self.spec_name(),
    {
        match self {
            Field::Capacity(f) => f.name.as_str(),
            Field::Occupancy(f) => f.name.as_str(),
            Field::Scalar(f) => f.name.as_str(),
            Field::Presence(f) => f.name.as_str(),
            Field::Rate(f) => f.name.as_str(),
        }
    }

    /// The kind of the field.
    pub fn field_type(&self) -> (t: FieldType)
        ensures
            t == self.spec_field_type(),
    {
        match self {
            Field::Capacity(_) => FieldType::Capacity,
            Field::Occupancy(_) => FieldType::Occupancy,
            Field::Scalar(_) => FieldType::Scalar,
            Field::Presence(_) => FieldType::Presence,
            Field::Rate(_) => FieldType::Rate,
        }
    }
}

// ── Geometry ──

/// World-space pose: position and Euler rotation (degrees: yaw, pitch, roll).
#[derive(Clone, Copy, Debug)]
pub struct Pose {
    pub position: [Real; 3],
    pub rotation: [Real; 3],
}

/// Whether all three coordinates are positive zero.
pub open spec fn is_origin(v: [Real; 3]) -> bool {
    forall|i: int| 0 <= i < 3 ==> #[trigger] v[i] == Real::spec_zero()
}

impl Pose {
    /// The pose at the origin with no rotation.
    pub fn identity() -> (p: Pose)
        ensures
            is_origin(p.position),
            is_origin(p.rotation),
    {
        Pose { position: [Real::zero(), Real::zero(), Real::zero()], rotation: [Real::zero(), Real::zero(), Real::zero()] }
    }

    /// The pose at a position with no rotation.
    pub fn from_position(pos: [Real; 3]) -> (p: Pose)
        ensures
            p.position == pos,
            is_origin(p.rotation),
    {
        Pose { position: pos, rotation: [Real::zero(), Real::zero(), Real::zero()] }
    }
}

/// A shape in local space (centered at the origin, aligned with Z).
#[derive(Debug)]
pub enum Shape {
    Cuboid { half_extents: [Real; 3] },
    Cylinder { radius: Real, half_height: Real },
    Sphere { radius: Real },
    Hemisphere { radius: Real },
    Cone { radius: Real, half_height: Real },
    Union(Vec<Shape>),
    Intersection(Vec<Shape>),
    Subtract { a: Box<Shape>, b: Box<Shape> },
}

/// Two shapes are the same: same variant, same parameters, same children in order.
pub open spec fn same_shape(x: Shape, y: Shape) -> bool
    decreases x, 1int,
{
    match x {
        Shape::Cuboid { half_extents } => y matches Shape::Cuboid { half_extents: h } && half_extents == h,
        Shape::Cylinder { radius, half_height } => y matches Shape::Cylinder { radius: r, half_height: h }
            && radius == r && half_height == h,
        Shape::Sphere { radius } => y matches Shape::Sphere { radius: r } && radius == r,
        Shape::Hemisphere { radius } => y matches Shape::Hemisphere { radius: r } && radius == r,
        Shape::Cone { radius, half_height } => y matches Shape::Cone { radius: r, half_height: h }
            && radius == r && half_height == h,
        Shape::Union(vx) => match y {
            Shape::Union(vy) => {
                proof {
                    broadcast use vstd::std_specs::vec::axiom_vec_decreases_to_view;
                }
                same_shapes(vx@, vy@)
            },
            _ => false,
        },
        Shape::Intersection(vx) => match y {
            Shape::Intersection(vy) => {
                proof {
                    broadcast use vstd::std_specs::vec::axiom_vec_decreases_to_view;
                }
                same_shapes(vx@, vy@)
            },
            _ => false,
        },
        Shape::Subtract { a, b } => match y {
            Shape::Subtract { a: a2, b: b2 } => same_shape(*a, *a2) && same_shape(*b, *b2),
            _ => false,
        },
    }
}

/// Two shape lists are the same, element by element.
pub open spec fn same_shapes(sx: Seq<Shape>, sy: Seq<Shape>) -> bool
    decreases sx, 0int,
{
    if sx.len() != sy.len() {
        false
    } else if sx.len() == 0 {
        true
    } else {
        same_shapes(sx.subrange(0, sx.len() - 1), sy.subrange(0, sy.len() - 1)) && same_shape(
            sx[sx.len() - 1],
            sy[sy.len() - 1],
        )
    }
}

/// A copy of a shape.
#[verifier::loop_isolation(false)]
pub fn copy_shape(s: &Shape) -> (out: Shape)
    ensures
        same_shape(out, *s),
    decreases s,
{
    match s {
        Shape::Cuboid { half_extents } => Shape::Cuboid { half_extents: *half_extents },
        Shape::Cylinder { radius, half_height } => Shape::Cylinder { radius: *radius, half_height: *half_height },
        Shape::Sphere { radius } => Shape::Sphere { radius: *radius },
        Shape::Hemisphere { radius } => Shape::Hemisphere { radius: *radius },
        Shape::Cone { radius, half_height } => Shape::Cone { radius: *radius, half_height: *half_height },
        Shape::Union(v) => Shape::Union(copy_shapes(v)),
        Shape::Intersection(v) => Shape::Intersection(copy_shapes(v)),
        Shape::Subtract { a, b } => Shape::Subtract { a: Box::new(copy_shape(a)), b: Box::new(copy_shape(b)) },
    }
}

/// A copy of a list of shapes.
#[verifier::loop_isolation(false)]
pub fn copy_shapes(v: &Vec<Shape>) -> (out: Vec<Shape>)
    ensures
        same_shapes(out@, v@),
    decreases v, 0int,
{
    let mut out: Vec<Shape> = Vec::new();
    let mut i: usize = 0;
    while i < v.len()
        invariant
            i <= v.len(),
            same_shapes(out@, v@.subrange(0, i as int)),
        decreases v.len() - i,
    {
        proof {
            broadcast use vstd::std_specs::vec::axiom_vec_index_decreases;
            assert(decreases_to!(*v => v@[i as int]));
        }
        let c = copy_shape(&v[i]);
        let ghost old_out = out@;
        out.push(c);
        assert(out@.subrange(0, i as int) =~= old_out);
        assert(v@.subrange(0, i + 1).subrange(0, i as int) =~= v@.subrange(0, i as int));
        i += 1;
    }
    assert(v@.subrange(0, v@.len() as int) =~= v@);
    out
}

/// A geometry: a shape placed by a pose, with an optional region.
#[derive(Debug)]
pub struct Geometry {
    pub shape: Shape,
    pub pose: Pose,
    pub region: Option<String>,
}

/// Two geometries are the same: same shape, pose and region.
pub open spec fn same_geometry(x: Geometry, y: Geometry) -> bool {
    same_shape(x.shape, y.shape) && x.pose == y.pose && x.region == y.region
}

/// A copy of a geometry.
pub fn copy_geometry(g: &Geometry) -> (out: Geometry)
    ensures
        same_geometry(out, *g),
{
    Geometry { shape: copy_shape(&g.shape), pose: g.pose, region: crate::text::copy_opt_string(&g.region) }
}

// ── Probes, projections, records ──

/// The view of a list of key/value text pairs.
pub open spec fn pairs_view(v: Seq<(String, String)>) -> Seq<(Seq<char>, Seq<char>)> {
    v.map_values(|p: (String, String)| (p.0@, p.1@))
}

/// A copy of a list of text pairs.
pub fn copy_pairs(v: &Vec<(String, String)>) -> (out: Vec<(String, String)>)
    ensures
        out@ == v@,
{
    let mut out: Vec<(String, String)> = Vec::new();
    let mut i: usize = 0;
    while i < v.len()
        invariant
            i <= v.len(),
            out@ =~= v@.subrange(0, i as int),
        decreases v.len() - i,
    {
        let p = (v[i].0.clone(), v[i].1.clone());
        out.push(p);
        i += 1;
    }
    assert(out@ =~= v@);
    out
}

/// Criteria that a presence record must match.
#[derive(Debug)]
pub struct PresenceCriteria {
    pub key: String,
    pub record_type: Option<String>,
    pub attributes: Vec<(String, String)>,
}

/// An assertion on a sampled field.
#[derive(Debug)]
pub enum Assertion {
    /// Occupancy: the region must be empty.
    Empty,
    /// Numeric: the value must be at least the threshold.
    Gte(Real),
    /// Numeric: the value must be at most the ceiling.
    Lte(Real),
    /// Numeric: the value must lie within `[min, max]`.
    Range { min: Real, max: Real },
    /// Presence: a matching valid record must exist.
    Present(PresenceCriteria),
}

/// A resolved probe.
#[derive(Debug)]
pub struct Probe {
    pub id: String,
    pub name: Option<String>,
    pub field_name: String,
    pub geometry: Geometry,
    pub assertion: Assertion,
    pub diagnostic_level: DiagnosticLevel,
    pub parent_activity_id: String,
}

/// A record in a presence field.
#[derive(Debug)]
pub struct PresenceRecord {
    pub key: String,
    pub record_type: Option<String>,
    pub attributes: Vec<(String, String)>,
    pub valid_from: Date,
    pub valid_until: Option<Date>,
}

/// What a projection contributes to its field.
#[derive(Debug)]
pub enum Contribution {
    Occupancy { kind: OccupancyKind },
    Capacity(Real),
    Scalar { value: Real, operator: ScalarOperator },
    Presence(PresenceRecord),
    Rate(Real),
}

/// A resolved projection.
#[derive(Debug)]
pub struct Projection {
    pub id: String,
    pub name: Option<String>,
    pub field_name: String,
    pub geometry: Geometry,
    pub contribution: Contribution,
    pub parent_activity_id: String,
    /// Confidence weight; `None` is full confidence.
    pub confidence: Option<Real>,
}

// ── Activities ──

/// A half-open time interval `[start, end)`.
#[derive(Clone, Copy, Debug)]
pub struct Timespan {
    pub start: DateTime,
    pub end: DateTime,
}

impl Timespan {
    /// Whether the instant lies in `[start, end)`.
    pub open spec fn spec_contains(&self, dt: DateTime) -> bool {
        self.start.secs <= dt.secs && dt.secs < self.end.secs
    }

    /// An activity is active at an instant when `start <= instant < end`.
    pub fn contains(&self, dt: DateTime) -> (r: bool)
        ensures
            r == self.spec_contains(dt),
    {
        dt.secs >= self.start.secs && dt.secs < self.end.secs
    }
}

/// The four dependency types.
#[derive(Clone, Copy, Debug, PartialEq, Eq, Structural)]
pub enum DependencyKind {
    FS,
    SS,
    FF,
    SF,
}

/// A resolved dependency on a predecessor activity.
#[derive(Debug)]
pub struct Dependency {
    pub activity_id: String,
    pub kind: DependencyKind,
    pub lag_days: i64,
}

/// A resolved activity.
#[derive(Debug)]
pub struct Activity {
    pub id: String,
    pub name: Option<String>,
    pub series: Option<String>,
    pub timespan: Timespan,
    pub geometry: Option<String>,
    pub probes: Vec<Probe>,
    pub projections: Vec<Projection>,
    pub depends_on: Vec<Dependency>,
}

/// The resolved model.
#[derive(Debug)]
pub struct CpmlModel {
    pub version: String,
    pub name: Option<String>,
    pub description: Option<String>,
    pub fields: Vec<Field>,
    pub activities: Vec<Activity>,
    /// Barrier geometries for occlusion culling.
    pub barriers: Vec<Geometry>,
    /// Child region key and parent region key, each child once; a resolved
    /// model's chains of parents all end (the regions form a tree).
    pub region_hierarchy: Vec<(String, String)>,
}

} // verus!
