//! The document as written: fields, geometries, activities and their
//! declarations, before names are resolved. Numbers are carried by their
//! binary64 encodings; attribute maps are lists of distinct keys.
use vstd::prelude::*;

use crate::numeric::Real;

verus! {

/// Top-level CPML document.
#[derive(Debug)]
pub struct CpmlDocument {
    pub version: String,
    pub name: Option<String>,
    pub description: Option<String>,
    pub fields: Vec<FieldDef>,
    pub geometries: Vec<GeometryDef>,
    pub activities: Vec<ActivityDef>,
    /// Geometries that block soft projections from reaching probes behind them.
    pub barriers: Vec<BarrierDef>,
    /// Region hierarchy for capacity evaluation.
    pub regions: Vec<RegionDef>,
}

/// A barrier: a reference to a geometry by ID.
#[derive(Clone, Debug)]
pub struct BarrierDef {
    pub geometry: String,
}

/// A named region with an optional parent region. Regions form a tree: a
/// child region's capacity probes see contributions from all its ancestors.
#[derive(Clone, Debug)]
pub struct RegionDef {
    pub id: String,
    pub parent: Option<String>,
}

/// The kinds of field.
#[derive(Clone, Copy, Debug, PartialEq, Eq, Structural)]
pub enum FieldType {
    Capacity,
    Occupancy,
    Scalar,
    Presence,
    Rate,
}

/// A field declaration.
#[derive(Clone, Debug)]
pub struct FieldDef {
    pub name: String,
    pub field_type: FieldType,
    /// Scalar fields only.
    pub operator: Option<ScalarOperator>,
    /// Rate fields only: keyframes in the rate window.
    pub window_size: Option<usize>,
}

/// Occupancy kind: physical body or risk zone.
#[derive(Clone, Copy, Debug, PartialEq, Eq, Structural)]
pub enum OccupancyKind {
    Hard,
    Soft,
}

/// How a scalar field accumulates values.
#[derive(Clone, Copy, Debug, PartialEq, Eq, Structural)]
pub enum ScalarOperator {
    Max,
    Min,
    Sum,
    Replace,
}

/// Diagnostic severity, from least to most severe.
#[derive(Clone, Copy, Debug, PartialEq, Eq, Structural, PartialOrd, Ord)]
pub enum DiagnosticLevel {
    Debug,
    Info,
    Warning,
    Error,
    Fatal,
}

/// The position of a severity in the order Debug < Info < Warning < Error < Fatal.
pub open spec fn level_rank(l: DiagnosticLevel) -> int {
    match l {
        DiagnosticLevel::Debug => 0,
        DiagnosticLevel::Info => 1,
        DiagnosticLevel::Warning => 2,
        DiagnosticLevel::Error => 3,
        DiagnosticLevel::Fatal => 4,
    }
}

impl DiagnosticLevel {
    /// The position of this severity in the order Debug < ... < Fatal.
    pub fn rank(&self) -> (r: u8)
        ensures
            r == level_rank(*self),
    {
        match self {
            DiagnosticLevel::Debug => 0,
            DiagnosticLevel::Info => 1,
            DiagnosticLevel::Warning => 2,
            DiagnosticLevel::Error => 3,
            DiagnosticLevel::Fatal => 4,
        }
    }
}

/// A named geometry: a shape with an optional pose and region.
#[derive(Debug)]
pub struct GeometryDef {
    pub id: String,
    pub pose: Option<PoseDef>,
    pub shape: ShapeDef,
    pub region: Option<String>,
}

/// Position and Euler rotation (degrees, ZYX) in world space.
#[derive(Clone, Copy, Debug)]
pub struct PoseDef {
    pub position: [Real; 3],
    pub rotation: [Real; 3],
}

/// Shapes as declared, in local space.
#[derive(Debug)]
pub enum ShapeDef {
    Aabb { min: [Real; 3], max: [Real; 3] },
    Cuboid { half_extents: [Real; 3] },
    Cylinder { radius: Real, half_height: Real },
    Sphere { radius: Real },
    Hemisphere { radius: Real },
    Cone { radius: Real, half_height: Real },
    Union(Vec<ShapeDef>),
    Intersection(Vec<ShapeDef>),
    Subtract { a: Box<ShapeDef>, b: Box<ShapeDef> },
}

/// An activity as declared.
#[derive(Clone, Debug)]
pub struct ActivityDef {
    pub id: String,
    pub name: Option<String>,
    /// Activity series group.
    pub series: Option<String>,
    pub timespan: TimespanDef,
    pub geometry: Option<String>,
    pub collision: Option<CollisionDef>,
    pub probes: Vec<ProbeDef>,
    pub projections: Vec<ProjectionDef>,
    pub structures: Vec<StructureDef>,
    pub depends_on: Vec<DependencyDef>,
    pub demands: Vec<DemandDef>,
}

/// Resource demand: a required amount drawn from a capacity field.
#[derive(Clone, Debug)]
pub struct DemandDef {
    pub field: String,
    pub geometry: String,
    pub amount: Real,
    pub diagnostic_level: Option<DiagnosticLevel>,
}

/// Start and end of an activity, as ISO 8601 texts.
#[derive(Clone, Debug)]
pub struct TimespanDef {
    pub start: String,
    pub end: String,
}

/// Collision sugar: hard body and soft zone.
#[derive(Clone, Debug)]
pub struct CollisionDef {
    pub hard: Option<CollisionEntry>,
    pub soft: Option<CollisionEntry>,
}

/// A collision entry: a geometry reference.
#[derive(Clone, Debug)]
pub struct CollisionEntry {
    pub geometry: String,
}

/// A dependency on another activity, with an optional lag in days.
#[derive(Clone, Debug)]
pub struct DependencyDef {
    pub activity_id: String,
    pub kind: DependencyKind,
    pub lag_days: Option<i64>,
}

/// The four dependency types as declared (finish-to-start is the default).
#[derive(Clone, Copy, Debug, PartialEq, Eq, Structural)]
pub enum DependencyKind {
    Fs,
    Ss,
    Ff,
    Sf,
}

/// A probe as declared.
#[derive(Clone, Debug)]
pub struct ProbeDef {
    pub name: Option<String>,
    pub field: String,
    pub geometry: String,
    pub assert: AssertionDef,
    pub diagnostic_level: Option<DiagnosticLevel>,
}

/// An assertion as declared.
#[derive(Clone, Debug)]
pub enum AssertionDef {
    Empty { empty: bool },
    Gte { gte: Real },
    Lte { lte: Real },
    Range { min: Real, max: Real },
    Present { present: PresentCriteriaDef },
}

/// Criteria for a presence record.
#[derive(Clone, Debug)]
pub struct PresentCriteriaDef {
    pub key: String,
    pub record_type: Option<String>,
    pub attributes: Vec<(String, String)>,
}

/// A projection as declared.
#[derive(Clone, Debug)]
pub struct ProjectionDef {
    pub name: Option<String>,
    pub field: String,
    pub geometry: String,
    pub kind: Option<OccupancyKind>,
    pub value: Option<Real>,
    pub operator: Option<ScalarOperator>,
    pub record: Option<PresenceRecordDef>,
    pub confidence: Option<Real>,
}

/// A presence record as declared.
#[derive(Clone, Debug)]
pub struct PresenceRecordDef {
    pub key: String,
    pub record_type: Option<String>,
    pub attributes: Vec<(String, String)>,
    /// ISO 8601 date; `None` never expires.
    pub valid_until: Option<String>,
}

/// Structure sugar: a probe and a projection on the same field and geometry.
#[derive(Clone, Debug)]
pub struct StructureDef {
    pub name: Option<String>,
    pub field: String,
    pub geometry: String,
    pub assert: Option<AssertionDef>,
    pub diagnostic_level: Option<DiagnosticLevel>,
    pub kind: Option<OccupancyKind>,
    pub value: Option<Real>,
    pub operator: Option<ScalarOperator>,
    pub confidence: Option<Real>,
}

/// The keys a geometry declaration may have: its ID, pose and region, and
/// the name of one shape.
pub open spec fn geometry_keys() -> Seq<Seq<char>> {
    seq![
        "id"@,
        "pose"@,
        "region"@,
        "aabb"@,
        "cuboid"@,
        "cylinder"@,
        "sphere"@,
        "hemisphere"@,
        "cone"@,
        "union"@,
        "intersection"@,
        "subtract"@,
    ]
}

/// Whether a key may appear in a geometry declaration; any other key (a
/// misplaced `position`, a `shape: cuboid`) is an error.
pub fn is_geometry_key(key: &str) -> (r: bool)
    ensures
        r == geometry_keys().contains(key@),
{
    let keys = ["id", "pose", "region", "aabb", "cuboid", "cylinder", "sphere", "hemisphere", "cone", "union", "intersection", "subtract"];
    let mut i: usize = 0;
    let ghost spec_keys = geometry_keys();
    assert(spec_keys.len() == 12);
    while i < 12
        invariant
            i <= 12,
            spec_keys == geometry_keys(),
            forall|j: int| 0 <= j < 12 ==> (#[trigger] keys@[j])@ == spec_keys[j],
            forall|j: int| 0 <= j < i ==> spec_keys[j] != key@,
        decreases 12 - i,
    {
        if crate::text::text_eq(&keys[i].to_owned(), &key.to_owned()) {
            assert(spec_keys[i as int] == key@);
            return true;
        }
        i += 1;
    }
    assert forall|j: int| 0 <= j < spec_keys.len() implies spec_keys[j] != key@ by {}
    false
}

} // verus!
