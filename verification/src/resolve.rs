//! Resolving a document into a validated model: name lookups, assertion type
//! checks, dependencies, series and barriers, with the error each rule raises.
use vstd::prelude::*;
use vstd::string::*;

use crate::error::{fails_with, CpmlError, ErrorKind, Failure};
use crate::hierarchy::{ancestry_ends, spec_ancestors, walk};
use crate::model::{
    copy_geometry, copy_pairs, same_geometry, Activity, Assertion, CapacityField, Contribution, CpmlModel,
    Dependency, DependencyKind, Field, Geometry, OccupancyField, PresenceCriteria, PresenceField, PresenceRecord,
    Probe, Projection, RateField, ScalarField, Timespan,
};
use crate::numeric::Real;
use crate::schema::{
    ActivityDef, AssertionDef, CpmlDocument, DependencyDef, DiagnosticLevel, FieldDef, FieldType, GeometryDef,
    OccupancyKind, ProbeDef, ProjectionDef, ScalarOperator,
};
use crate::text::{copy_opt_string, decimal, decimal_text_usize, text_eq};
use crate::time::{
    date_error_message, datetime_error_message, datetime_text, day_of_secs, display_datetime, naive_date_parse,
    parse_date, parse_datetime, spec_parse_datetime, Date, DateTime, FORMAT_DATE,
};

verus! {

// ── Lookups ──

/// The position of the first field with the given name, or -1.
pub open spec fn field_position(fields: Seq<Field>, name: Seq<char>) -> int
    decreases fields.len(),
{
    if fields.len() == 0 {
        -1
    } else if fields[0].spec_name() == name {
        0
    } else {
        let r = field_position(fields.drop_first(), name);
        if r < 0 { -1 } else { r + 1 }
    }
}

/// The position of the first geometry with the given ID, or -1.
pub open spec fn geometry_position(defs: Seq<GeometryDef>, id: Seq<char>) -> int
    decreases defs.len(),
{
    if defs.len() == 0 {
        -1
    } else if defs[0].id@ == id {
        0
    } else {
        let r = geometry_position(defs.drop_first(), id);
        if r < 0 { -1 } else { r + 1 }
    }
}

/// Whether some activity has the given ID.
pub open spec fn has_activity(acts: Seq<ActivityDef>, id: Seq<char>) -> bool {
    exists|i: int| 0 <= i < acts.len() && (#[trigger] acts[i]).id@ == id
}

proof fn lemma_field_position(fields: Seq<Field>, name: Seq<char>, p: int)
    requires
        -1 <= p <= fields.len(),
        p == fields.len() ==> false,
        forall|j: int| 0 <= j < (if p < 0 { fields.len() as int } else { p }) ==> #[trigger] fields[j].spec_name() != name,
        p >= 0 ==> fields[p].spec_name() == name,
    ensures
        field_position(fields, name) == p,
    decreases fields.len(),
{
    if fields.len() > 0 {
        if p != 0 {
            let q = if p < 0 { -1 } else { p - 1 };
            assert forall|j: int| 0 <= j < (if q < 0 { fields.len() - 1 } else { q }) implies #[trigger] fields.drop_first()[j].spec_name() != name by {
                assert(fields.drop_first()[j] == fields[j + 1]);
            }
            lemma_field_position(fields.drop_first(), name, q);
        }
    }
}

proof fn lemma_geometry_position(defs: Seq<GeometryDef>, id: Seq<char>, p: int)
    requires
        -1 <= p < defs.len(),
        forall|j: int| 0 <= j < (if p < 0 { defs.len() as int } else { p }) ==> #[trigger] defs[j].id@ != id,
        p >= 0 ==> defs[p].id@ == id,
    ensures
        geometry_position(defs, id) == p,
    decreases defs.len(),
{
    if defs.len() > 0 {
        if p != 0 {
            let q = if p < 0 { -1 } else { p - 1 };
            assert forall|j: int| 0 <= j < (if q < 0 { defs.len() - 1 } else { q }) implies #[trigger] defs.drop_first()[j].id@ != id by {
                assert(defs.drop_first()[j] == defs[j + 1]);
            }
            lemma_geometry_position(defs.drop_first(), id, q);
        }
    }
}

/// The position of the first field with the given name.
pub(crate) fn find_field(fields: &Vec<Field>, name: &String) -> (r: Option<usize>)
    ensures
        match r {
            Some(p) => p as int == field_position(fields@, name@) && p < fields@.len(),
            None => field_position(fields@, name@) == -1,
        },
{
    let mut i: usize = 0;
    while i < fields.len()
        invariant
            i <= fields@.len(),
            forall|j: int| 0 <= j < i ==> #[trigger] fields@[j].spec_name() != name@,
        decreases fields@.len() - i,
    {
        let n = fields[i].name();
        if text_eq(&n.to_owned(), name) {
            proof {
                lemma_field_position(fields@, name@, i as int);
            }
            return Some(i);
        }
        i += 1;
    }
    proof {
        lemma_field_position(fields@, name@, -1);
    }
    None
}

/// The position of the first geometry with the given ID.
pub(crate) fn find_geometry(defs: &Vec<GeometryDef>, id: &String) -> (r: Option<usize>)
    ensures
        match r {
            Some(p) => p as int == geometry_position(defs@, id@) && p < defs@.len(),
            None => geometry_position(defs@, id@) == -1,
        },
{
    let mut i: usize = 0;
    while i < defs.len()
        invariant
            i <= defs@.len(),
            forall|j: int| 0 <= j < i ==> #[trigger] defs@[j].id@ != id@,
        decreases defs@.len() - i,
    {
        if text_eq(&defs[i].id, id) {
            proof {
                lemma_geometry_position(defs@, id@, i as int);
            }
            return Some(i);
        }
        i += 1;
    }
    proof {
        lemma_geometry_position(defs@, id@, -1);
    }
    None
}

/// Whether some activity has the given ID.
fn contains_activity(acts: &Vec<ActivityDef>, id: &String) -> (r: bool)
    ensures
        r == has_activity(acts@, id@),
{
    let mut i: usize = 0;
    while i < acts.len()
        invariant
            i <= acts@.len(),
            forall|j: int| 0 <= j < i ==> (#[trigger] acts@[j]).id@ != id@,
        decreases acts@.len() - i,
    {
        if text_eq(&acts[i].id, id) {
            return true;
        }
        i += 1;
    }
    false
}

// ── Fields ──

/// The field a declaration resolves to: a scalar field accumulates by `max`
/// unless it says otherwise, a rate field's window is 3 keyframes unless it
/// says otherwise.
pub open spec fn field_resolved(f: Field, fd: FieldDef) -> bool {
    &&& f.spec_name() == fd.name@
    &&& f.spec_field_type() == fd.field_type
    &&& (f matches Field::Scalar(sf) ==> sf.operator == match fd.operator {
        Some(op) => op,
        None => ScalarOperator::Max,
    })
    &&& (f matches Field::Rate(rf) ==> rf.window_size == match fd.window_size {
        Some(w) => w,
        None => 3,
    })
}

/// The field a declaration resolves to.
pub open spec fn spec_field(fd: FieldDef) -> Field {
    match fd.field_type {
        FieldType::Capacity => Field::Capacity(CapacityField { name: fd.name }),
        FieldType::Occupancy => Field::Occupancy(OccupancyField { name: fd.name }),
        FieldType::Scalar => Field::Scalar(
            ScalarField {
                name: fd.name,
                operator: match fd.operator {
                    Some(op) => op,
                    None => ScalarOperator::Max,
                },
            },
        ),
        FieldType::Presence => Field::Presence(PresenceField { name: fd.name }),
        FieldType::Rate => Field::Rate(
            RateField {
                name: fd.name,
                window_size: match fd.window_size {
                    Some(w) => w,
                    None => 3,
                },
            },
        ),
    }
}

/// The fields a list of declarations resolves to.
pub open spec fn spec_fields(fds: Seq<FieldDef>) -> Seq<Field> {
    fds.map_values(|fd: FieldDef| spec_field(fd))
}

/// Resolve a field declaration.
pub fn resolve_field(fd: &FieldDef) -> (f: Field)
    ensures
        field_resolved(f, *fd),
        f == spec_field(*fd),
{
    match fd.field_type {
        FieldType::Capacity => Field::Capacity(CapacityField { name: fd.name.clone() }),
        FieldType::Occupancy => Field::Occupancy(OccupancyField { name: fd.name.clone() }),
        FieldType::Scalar => {
            let operator = match fd.operator {
                Some(op) => op,
                None => ScalarOperator::Max,
            };
            Field::Scalar(ScalarField { name: fd.name.clone(), operator })
        },
        FieldType::Presence => Field::Presence(PresenceField { name: fd.name.clone() }),
        FieldType::Rate => {
            let window_size: usize = match fd.window_size {
                Some(w) => w,
                None => 3,
            };
            Field::Rate(RateField { name: fd.name.clone(), window_size })
        },
    }
}

// ── Assertions ──

/// How the kind of a field is written in messages.
pub open spec fn kind_name(t: FieldType) -> Seq<char> {
    match t {
        FieldType::Capacity => "Capacity"@,
        FieldType::Occupancy => "Occupancy"@,
        FieldType::Scalar => "Scalar"@,
        FieldType::Presence => "Presence"@,
        FieldType::Rate => "Rate"@,
    }
}

pub(crate) fn kind_name_text(t: FieldType) -> (s: &'static str)
    ensures
        s@ == kind_name(t),
{
    match t {
        FieldType::Capacity => "Capacity",
        FieldType::Occupancy => "Occupancy",
        FieldType::Scalar => "Scalar",
        FieldType::Presence => "Presence",
        FieldType::Rate => "Rate",
    }
}

/// Whether a field holds numbers (capacity, scalar or rate).
pub open spec fn is_numeric(t: FieldType) -> bool {
    t == FieldType::Capacity || t == FieldType::Scalar || t == FieldType::Rate
}

/// The error, if any, of an assertion on a field of the given kind:
/// `empty` only on occupancy fields, `gte`, `lte` and `range` only on numeric
/// fields, `present` only on presence fields.
pub open spec fn assertion_failure(ad: AssertionDef, t: FieldType) -> Option<Failure> {
    match ad {
        AssertionDef::Empty { .. } => if t == FieldType::Occupancy {
            None
        } else {
            Some((ErrorKind::TypeMismatch, "Empty assertion is only valid for occupancy fields, got "@ + kind_name(t)))
        },
        AssertionDef::Gte { .. } => if is_numeric(t) {
            None
        } else {
            Some(
                (
                    ErrorKind::TypeMismatch,
                    "Gte assertion is only valid for capacity/scalar/rate fields, got "@ + kind_name(t),
                ),
            )
        },
        AssertionDef::Lte { .. } => if is_numeric(t) {
            None
        } else {
            Some(
                (
                    ErrorKind::TypeMismatch,
                    "Lte assertion is only valid for capacity/scalar/rate fields, got "@ + kind_name(t),
                ),
            )
        },
        AssertionDef::Range { .. } => if is_numeric(t) {
            None
        } else {
            Some(
                (
                    ErrorKind::TypeMismatch,
                    "Range assertion is only valid for capacity/scalar/rate fields, got "@ + kind_name(t),
                ),
            )
        },
        AssertionDef::Present { .. } => if t == FieldType::Presence {
            None
        } else {
            Some((ErrorKind::TypeMismatch, "Present assertion is only valid for presence fields, got "@ + kind_name(t)))
        },
    }
}

/// The assertion a declaration resolves to.
pub open spec fn assertion_resolved(a: Assertion, ad: AssertionDef) -> bool {
    match ad {
        AssertionDef::Empty { .. } => a is Empty,
        AssertionDef::Gte { gte } => a == Assertion::Gte(gte),
        AssertionDef::Lte { lte } => a == Assertion::Lte(lte),
        AssertionDef::Range { min, max } => a == Assertion::Range { min, max },
        AssertionDef::Present { present } => a matches Assertion::Present(c) && c.key == present.key
            && c.record_type == present.record_type && c.attributes@ == present.attributes@,
    }
}

/// Resolve an assertion against the kind of the field it samples.
pub fn resolve_assertion(ad: &AssertionDef, field: &Field) -> (r: Result<Assertion, CpmlError>)
    ensures
        match assertion_failure(*ad, field.spec_field_type()) {
            Some(f) => r matches Err(e) && fails_with(e, f),
            None => r matches Ok(a) && assertion_resolved(a, *ad),
        },
{
    let t = field.field_type();
    let numeric = t == FieldType::Capacity || t == FieldType::Scalar || t == FieldType::Rate;
    match ad {
        AssertionDef::Empty { .. } => if t == FieldType::Occupancy {
            Ok(Assertion::Empty)
        } else {
            Err(
                CpmlError::TypeMismatchError(
                    "Empty assertion is only valid for occupancy fields, got ".to_owned().concat(kind_name_text(t)),
                ),
            )
        },
        AssertionDef::Gte { gte } => if numeric {
            Ok(Assertion::Gte(*gte))
        } else {
            Err(
                CpmlError::TypeMismatchError(
                    "Gte assertion is only valid for capacity/scalar/rate fields, got ".to_owned().concat(
                        kind_name_text(t),
                    ),
                ),
            )
        },
        AssertionDef::Lte { lte } => if numeric {
            Ok(Assertion::Lte(*lte))
        } else {
            Err(
                CpmlError::TypeMismatchError(
                    "Lte assertion is only valid for capacity/scalar/rate fields, got ".to_owned().concat(
                        kind_name_text(t),
                    ),
                ),
            )
        },
        AssertionDef::Range { min, max } => if numeric {
            Ok(Assertion::Range { min: *min, max: *max })
        } else {
            Err(
                CpmlError::TypeMismatchError(
                    "Range assertion is only valid for capacity/scalar/rate fields, got ".to_owned().concat(
                        kind_name_text(t),
                    ),
                ),
            )
        },
        AssertionDef::Present { present } => if t == FieldType::Presence {
            Ok(
                Assertion::Present(
                    PresenceCriteria {
                        key: present.key.clone(),
                        record_type: copy_opt_string(&present.record_type),
                        attributes: copy_pairs(&present.attributes),
                    },
                ),
            )
        } else {
            Err(
                CpmlError::TypeMismatchError(
                    "Present assertion is only valid for presence fields, got ".to_owned().concat(
                        kind_name_text(t),
                    ),
                ),
            )
        },
    }
}

// ── Probes ──

/// A declared name, or `unnamed`, as messages write it.
pub open spec fn label(name: Option<String>) -> Seq<char> {
    match name {
        Some(n) => n@,
        None => "unnamed"@,
    }
}

pub(crate) fn label_text(name: &Option<String>) -> (s: &str)
    ensures
        s@ == label(*name),
{
    match name {
        Some(n) => n.as_str(),
        None => "unnamed",
    }
}

/// A declared name, or `{prefix}{index}` when there is none.
pub open spec fn name_or_numbered(name: Option<String>, prefix: Seq<char>, index: int) -> Seq<char> {
    match name {
        Some(n) => n@,
        None => prefix + decimal(index),
    }
}

pub(crate) fn numbered_name(name: &Option<String>, prefix: &str, index: usize) -> (s: String)
    ensures
        s@ == name_or_numbered(*name, prefix@, index as int),
{
    match name {
        Some(n) => n.clone(),
        None => prefix.to_owned().concat(decimal_text_usize(index).as_str()),
    }
}

/// The error, if any, of a probe declaration: its field must exist, then its
/// geometry, then its assertion must suit the field.
pub open spec fn probe_failure(pd: ProbeDef, aid: Seq<char>, fields: Seq<Field>, defs: Seq<GeometryDef>) -> Option<Failure> {
    let fp = field_position(fields, pd.field@);
    if fp < 0 {
        Some(
            (
                ErrorKind::Reference,
                "Probe '"@ + label(pd.name) + "' in activity '"@ + aid + "' references unknown field '"@ + pd.field@
                    + "'"@,
            ),
        )
    } else if geometry_position(defs, pd.geometry@) < 0 {
        Some(
            (
                ErrorKind::Reference,
                "Probe '"@ + label(pd.name) + "' in activity '"@ + aid + "' references unknown geometry '"@
                    + pd.geometry@ + "'"@,
            ),
        )
    } else {
        assertion_failure(pd.assert, fields[fp].spec_field_type())
    }
}

/// The probe a declaration resolves to: ID `{activity}/{name or probe_N}`, the
/// named field and geometry, the resolved assertion, the declared level or error.
pub open spec fn probe_resolved(
    p: Probe,
    pd: ProbeDef,
    aid: Seq<char>,
    index: int,
    defs: Seq<GeometryDef>,
    geoms: Seq<Geometry>,
) -> bool {
    &&& p.id@ == aid + "/"@ + name_or_numbered(pd.name, "probe_"@, index)
    &&& p.name == pd.name
    &&& p.field_name == pd.field
    &&& same_geometry(p.geometry, geoms[geometry_position(defs, pd.geometry@)])
    &&& assertion_resolved(p.assertion, pd.assert)
    &&& p.diagnostic_level == match pd.diagnostic_level {
        Some(l) => l,
        None => DiagnosticLevel::Error,
    }
    &&& p.parent_activity_id@ == aid
}

/// Resolve a probe declaration of an activity.
fn resolve_probe(
    pd: &ProbeDef,
    activity_id: &String,
    index: usize,
    fields: &Vec<Field>,
    defs: &Vec<GeometryDef>,
    geoms: &Vec<Geometry>,
) -> (r: Result<Probe, CpmlError>)
    requires
        geoms@.len() == defs@.len(),
    ensures
        match probe_failure(*pd, activity_id@, fields@, defs@) {
            Some(f) => r matches Err(e) && fails_with(e, f),
            None => r matches Ok(p) && probe_resolved(p, *pd, activity_id@, index as int, defs@, geoms@),
        },
{
    let fp = match find_field(fields, &pd.field) {
        Some(p) => p,
        None => {
            return Err(
                CpmlError::ReferenceError(
                    "Probe '".to_owned().concat(label_text(&pd.name)).concat("' in activity '").concat(
                        activity_id.as_str(),
                    ).concat("' references unknown field '").concat(pd.field.as_str()).concat("'"),
                ),
            );
        },
    };
    let gp = match find_geometry(defs, &pd.geometry) {
        Some(p) => p,
        None => {
            return Err(
                CpmlError::ReferenceError(
                    "Probe '".to_owned().concat(label_text(&pd.name)).concat("' in activity '").concat(
                        activity_id.as_str(),
                    ).concat("' references unknown geometry '").concat(pd.geometry.as_str()).concat("'"),
                ),
            );
        },
    };
    let assertion = resolve_assertion(&pd.assert, &fields[fp])?;
    let probe_name = numbered_name(&pd.name, "probe_", index);
    let id = activity_id.clone().concat("/").concat(probe_name.as_str());
    let diagnostic_level = match pd.diagnostic_level {
        Some(l) => l,
        None => DiagnosticLevel::Error,
    };
    Ok(
        Probe {
            id,
            name: copy_opt_string(&pd.name),
            field_name: pd.field.clone(),
            geometry: copy_geometry(&geoms[gp]),
            assertion,
            diagnostic_level,
            parent_activity_id: activity_id.clone(),
        },
    )
}

// ── Projections ──

/// The error, if any, of a projection declaration: its field must exist, then
/// its geometry; capacity, scalar and rate projections need a value, presence
/// projections a record whose expiry date, if any, parses.
pub open spec fn projection_failure(prd: ProjectionDef, aid: Seq<char>, fields: Seq<Field>, defs: Seq<GeometryDef>) -> Option<Failure> {
    let fp = field_position(fields, prd.field@);
    if fp < 0 {
        Some(
            (
                ErrorKind::Reference,
                "Projection '"@ + label(prd.name) + "' in activity '"@ + aid + "' references unknown field '"@
                    + prd.field@ + "'"@,
            ),
        )
    } else if geometry_position(defs, prd.geometry@) < 0 {
        Some(
            (
                ErrorKind::Reference,
                "Projection '"@ + label(prd.name) + "' in activity '"@ + aid + "' references unknown geometry '"@
                    + prd.geometry@ + "'"@,
            ),
        )
    } else {
        match fields[fp] {
            Field::Capacity(_) => if prd.value is None {
                Some(
                    (
                        ErrorKind::TypeMismatch,
                        "Projection '"@ + label(prd.name) + "' on capacity field '"@ + prd.field@
                            + "' must specify 'value'"@,
                    ),
                )
            } else {
                None
            },
            Field::Occupancy(_) => None,
            Field::Scalar(_) => if prd.value is None {
                Some(
                    (
                        ErrorKind::TypeMismatch,
                        "Projection '"@ + label(prd.name) + "' on scalar field '"@ + prd.field@
                            + "' must specify 'value'"@,
                    ),
                )
            } else {
                None
            },
            Field::Presence(_) => match prd.record {
                None => Some(
                    (
                        ErrorKind::TypeMismatch,
                        "Projection '"@ + label(prd.name) + "' on presence field '"@ + prd.field@
                            + "' must specify 'record'"@,
                    ),
                ),
                Some(rd) => match rd.valid_until {
                    Some(text) => match naive_date_parse(text@, FORMAT_DATE@) {
                        Err(reason) => Some((ErrorKind::DateParse, date_error_message(text@, reason))),
                        Ok(_) => None,
                    },
                    None => None,
                },
            },
            Field::Rate(_) => if prd.value is None {
                Some(
                    (
                        ErrorKind::TypeMismatch,
                        "Projection '"@ + label(prd.name) + "' on rate field '"@ + prd.field@
                            + "' must specify 'value'"@,
                    ),
                )
            } else {
                None
            },
        }
    }
}

/// The date a date text parses to.
pub open spec fn parsed_date(text: Seq<char>) -> Date {
    Date { days: day_of_secs(naive_date_parse(text, FORMAT_DATE@)->Ok_0 as int) as i64 }
}

/// The contribution a projection declaration makes to a field: the value for
/// capacity and rate fields; for occupancy the declared kind or hard; for
/// scalars the value with the declared operator or the field's; for presence
/// the record, valid from the activity's start date until its expiry date.
pub open spec fn contribution_resolved(c: Contribution, prd: ProjectionDef, field: Field, valid_from: DateTime) -> bool {
    match field {
        Field::Capacity(_) => c == Contribution::Capacity(prd.value->0),
        Field::Occupancy(_) => c == Contribution::Occupancy {
            kind: match prd.kind {
                Some(k) => k,
                None => OccupancyKind::Hard,
            },
        },
        Field::Scalar(sf) => c == Contribution::Scalar {
            value: prd.value->0,
            operator: match prd.operator {
                Some(op) => op,
                None => sf.operator,
            },
        },
        Field::Presence(_) => {
            let rd = prd.record->0;
            &&& c matches Contribution::Presence(rec)
            &&& rec.key == rd.key
            &&& rec.record_type == rd.record_type
            &&& rec.attributes@ == rd.attributes@
            &&& rec.valid_from.days == day_of_secs(valid_from.secs as int)
            &&& rec.valid_until == match rd.valid_until {
                Some(text) => Some(parsed_date(text@)),
                None => None,
            }
        },
        Field::Rate(_) => c == Contribution::Rate(prd.value->0),
    }
}

/// The projection a declaration resolves to: ID `{activity}/{name or projection_N}`,
/// the named field and geometry, its contribution and confidence.
pub open spec fn projection_resolved(
    p: Projection,
    prd: ProjectionDef,
    aid: Seq<char>,
    index: int,
    fields: Seq<Field>,
    defs: Seq<GeometryDef>,
    geoms: Seq<Geometry>,
    valid_from: DateTime,
) -> bool {
    &&& p.id@ == aid + "/"@ + name_or_numbered(prd.name, "projection_"@, index)
    &&& p.name == prd.name
    &&& p.field_name == prd.field
    &&& same_geometry(p.geometry, geoms[geometry_position(defs, prd.geometry@)])
    &&& contribution_resolved(p.contribution, prd, fields[field_position(fields, prd.field@)], valid_from)
    &&& p.parent_activity_id@ == aid
    &&& p.confidence == prd.confidence
}

fn must_specify(prd: &ProjectionDef, kind: &str, what: &str) -> (e: CpmlError)
    ensures
        fails_with(
            e,
            (
                ErrorKind::TypeMismatch,
                "Projection '"@ + label(prd.name) + "' on "@ + kind@ + " field '"@ + prd.field@ + "' must specify '"@ + what@ + "'"@,
            ),
        ),
{
    CpmlError::TypeMismatchError(
        "Projection '".to_owned().concat(label_text(&prd.name)).concat("' on ").concat(kind).concat(" field '").concat(
            prd.field.as_str(),
        ).concat("' must specify '").concat(what).concat("'"),
    )
}

/// Resolve a projection declaration of an activity that starts at `valid_from`.
fn resolve_projection(
    prd: &ProjectionDef,
    activity_id: &String,
    index: usize,
    fields: &Vec<Field>,
    defs: &Vec<GeometryDef>,
    geoms: &Vec<Geometry>,
    valid_from: DateTime,
) -> (r: Result<Projection, CpmlError>)
    requires
        geoms@.len() == defs@.len(),
    ensures
        match projection_failure(*prd, activity_id@, fields@, defs@) {
            Some(f) => r matches Err(e) && fails_with(e, f),
            None => r matches Ok(p) && projection_resolved(
                p,
                *prd,
                activity_id@,
                index as int,
                fields@,
                defs@,
                geoms@,
                valid_from,
            ),
        },
{
    let fp = match find_field(fields, &prd.field) {
        Some(p) => p,
        None => {
            return Err(
                CpmlError::ReferenceError(
                    "Projection '".to_owned().concat(label_text(&prd.name)).concat("' in activity '").concat(
                        activity_id.as_str(),
                    ).concat("' references unknown field '").concat(prd.field.as_str()).concat("'"),
                ),
            );
        },
    };
    let gp = match find_geometry(defs, &prd.geometry) {
        Some(p) => p,
        None => {
            return Err(
                CpmlError::ReferenceError(
                    "Projection '".to_owned().concat(label_text(&prd.name)).concat("' in activity '").concat(
                        activity_id.as_str(),
                    ).concat("' references unknown geometry '").concat(prd.geometry.as_str()).concat("'"),
                ),
            );
        },
    };
    proof {
        reveal_strlit("capacity");
        reveal_strlit("scalar");
        reveal_strlit("presence");
        reveal_strlit("rate");
        reveal_strlit("value");
        reveal_strlit("record");
    }
    let contribution = match &fields[fp] {
        Field::Capacity(_) => match prd.value {
            Some(v) => Contribution::Capacity(v),
            None => {
                let e = must_specify(prd, "capacity", "value");
                proof {
                    assert("Projection '"@ + label(prd.name) + "' on "@ + "capacity"@ + " field '"@ + prd.field@
                        + "' must specify '"@ + "value"@ + "'"@ =~= "Projection '"@ + label(prd.name)
                        + "' on capacity field '"@ + prd.field@ + "' must specify 'value'"@) by {
                        reveal_strlit("' on ");
                        reveal_strlit(" field '");
                        reveal_strlit("' must specify '");
                        reveal_strlit("'");
                        reveal_strlit("' on capacity field '");
                        reveal_strlit("' must specify 'value'");
                    }
                }
                return Err(e);
            },
        },
        Field::Occupancy(_) => {
            let kind = match prd.kind {
                Some(k) => k,
                None => OccupancyKind::Hard,
            };
            Contribution::Occupancy { kind }
        },
        Field::Scalar(sf) => match prd.value {
            Some(v) => {
                let operator = match prd.operator {
                    Some(op) => op,
                    None => sf.operator,
                };
                Contribution::Scalar { value: v, operator }
            },
            None => {
                let e = must_specify(prd, "scalar", "value");
                proof {
                    assert("Projection '"@ + label(prd.name) + "' on "@ + "scalar"@ + " field '"@ + prd.field@
                        + "' must specify '"@ + "value"@ + "'"@ =~= "Projection '"@ + label(prd.name)
                        + "' on scalar field '"@ + prd.field@ + "' must specify 'value'"@) by {
                        reveal_strlit("' on ");
                        reveal_strlit(" field '");
                        reveal_strlit("' must specify '");
                        reveal_strlit("'");
                        reveal_strlit("' on scalar field '");
                        reveal_strlit("' must specify 'value'");
                    }
                }
                return Err(e);
            },
        },
        Field::Presence(_) => match &prd.record {
            None => {
                let e = must_specify(prd, "presence", "record");
                proof {
                    assert("Projection '"@ + label(prd.name) + "' on "@ + "presence"@ + " field '"@ + prd.field@
                        + "' must specify '"@ + "record"@ + "'"@ =~= "Projection '"@ + label(prd.name)
                        + "' on presence field '"@ + prd.field@ + "' must specify 'record'"@) by {
                        reveal_strlit("' on ");
                        reveal_strlit(" field '");
                        reveal_strlit("' must specify '");
                        reveal_strlit("'");
                        reveal_strlit("' on presence field '");
                        reveal_strlit("' must specify 'record'");
                    }
                }
                return Err(e);
            },
            Some(rd) => {
                let valid_until = match &rd.valid_until {
                    Some(text) => Some(parse_date(text.as_str())?),
                    None => None,
                };
                Contribution::Presence(
                    PresenceRecord {
                        key: rd.key.clone(),
                        record_type: copy_opt_string(&rd.record_type),
                        attributes: copy_pairs(&rd.attributes),
                        valid_from: valid_from.date(),
                        valid_until,
                    },
                )
            },
        },
        Field::Rate(_) => match prd.value {
            Some(v) => Contribution::Rate(v),
            None => {
                let e = must_specify(prd, "rate", "value");
                proof {
                    assert("Projection '"@ + label(prd.name) + "' on "@ + "rate"@ + " field '"@ + prd.field@
                        + "' must specify '"@ + "value"@ + "'"@ =~= "Projection '"@ + label(prd.name)
                        + "' on rate field '"@ + prd.field@ + "' must specify 'value'"@) by {
                        reveal_strlit("' on ");
                        reveal_strlit(" field '");
                        reveal_strlit("' must specify '");
                        reveal_strlit("'");
                        reveal_strlit("' on rate field '");
                        reveal_strlit("' must specify 'value'");
                    }
                }
                return Err(e);
            },
        },
    };
    let projection_name = numbered_name(&prd.name, "projection_", index);
    let id = activity_id.clone().concat("/").concat(projection_name.as_str());
    Ok(
        Projection {
            id,
            name: copy_opt_string(&prd.name),
            field_name: prd.field.clone(),
            geometry: copy_geometry(&geoms[gp]),
            contribution,
            parent_activity_id: activity_id.clone(),
            confidence: prd.confidence,
        },
    )
}

// ── Dependencies and activities ──

/// The error, if any, of a dependency of activity `aid`: the predecessor must
/// exist and must not be the activity itself.
pub open spec fn dependency_failure(dd: DependencyDef, aid: Seq<char>, acts: Seq<ActivityDef>) -> Option<Failure> {
    if !has_activity(acts, dd.activity_id@) {
        Some(
            (
                ErrorKind::Reference,
                "Activity '"@ + aid + "' depends on unknown activity '"@ + dd.activity_id@ + "'"@,
            ),
        )
    } else if dd.activity_id@ == aid {
        Some((ErrorKind::Validation, "Activity '"@ + aid + "' cannot depend on itself"@))
    } else {
        None
    }
}

/// The model's kind of a declared dependency kind.
pub open spec fn kind_of(k: crate::schema::DependencyKind) -> DependencyKind {
    match k {
        crate::schema::DependencyKind::Fs => DependencyKind::FS,
        crate::schema::DependencyKind::Ss => DependencyKind::SS,
        crate::schema::DependencyKind::Ff => DependencyKind::FF,
        crate::schema::DependencyKind::Sf => DependencyKind::SF,
    }
}

/// The dependency a declaration resolves to: no lag unless one is given.
pub open spec fn dependency_resolved(d: Dependency, dd: DependencyDef) -> bool {
    &&& d.activity_id == dd.activity_id
    &&& d.kind == kind_of(dd.kind)
    &&& d.lag_days == match dd.lag_days {
        Some(l) => l,
        None => 0,
    }
}

/// The first error among the first `n` probe declarations.
pub open spec fn probes_failure(pds: Seq<ProbeDef>, aid: Seq<char>, fields: Seq<Field>, defs: Seq<GeometryDef>, n: int) -> Option<Failure>
    decreases n,
{
    if n <= 0 {
        None
    } else {
        match probes_failure(pds, aid, fields, defs, n - 1) {
            Some(f) => Some(f),
            None => probe_failure(pds[n - 1], aid, fields, defs),
        }
    }
}

/// The first error among the first `n` projection declarations.
pub open spec fn projections_failure(
    prds: Seq<ProjectionDef>,
    aid: Seq<char>,
    fields: Seq<Field>,
    defs: Seq<GeometryDef>,
    n: int,
) -> Option<Failure>
    decreases n,
{
    if n <= 0 {
        None
    } else {
        match projections_failure(prds, aid, fields, defs, n - 1) {
            Some(f) => Some(f),
            None => projection_failure(prds[n - 1], aid, fields, defs),
        }
    }
}

/// The first error among the first `n` dependency declarations.
pub open spec fn dependencies_failure(dds: Seq<DependencyDef>, aid: Seq<char>, acts: Seq<ActivityDef>, n: int) -> Option<Failure>
    decreases n,
{
    if n <= 0 {
        None
    } else {
        match dependencies_failure(dds, aid, acts, n - 1) {
            Some(f) => Some(f),
            None => dependency_failure(dds[n - 1], aid, acts),
        }
    }
}

/// The error, if any, of an activity: its start and end must parse, the end
/// must come after the start, then its probes, projections and dependencies
/// must resolve, in that order.
pub open spec fn activity_failure(ad: ActivityDef, fields: Seq<Field>, defs: Seq<GeometryDef>, acts: Seq<ActivityDef>) -> Option<Failure> {
    match spec_parse_datetime(ad.timespan.start@) {
        Err(reason) => Some((ErrorKind::DateParse, datetime_error_message(ad.timespan.start@, reason))),
        Ok(start) => match spec_parse_datetime(ad.timespan.end@) {
            Err(reason) => Some((ErrorKind::DateParse, datetime_error_message(ad.timespan.end@, reason))),
            Ok(end) => if end <= start {
                Some(
                    (
                        ErrorKind::Validation,
                        "Activity '"@ + ad.id@ + "': end date must be after start date"@,
                    ),
                )
            } else if probes_failure(ad.probes@, ad.id@, fields, defs, ad.probes@.len() as int) is Some {
                probes_failure(ad.probes@, ad.id@, fields, defs, ad.probes@.len() as int)
            } else if projections_failure(ad.projections@, ad.id@, fields, defs, ad.projections@.len() as int) is Some {
                projections_failure(ad.projections@, ad.id@, fields, defs, ad.projections@.len() as int)
            } else {
                dependencies_failure(ad.depends_on@, ad.id@, acts, ad.depends_on@.len() as int)
            },
        },
    }
}

/// The parsed start of a declared activity.
pub open spec fn parsed_start(ad: ActivityDef) -> DateTime {
    DateTime { secs: spec_parse_datetime(ad.timespan.start@)->Ok_0 }
}

/// The parsed end of a declared activity.
pub open spec fn parsed_end(ad: ActivityDef) -> DateTime {
    DateTime { secs: spec_parse_datetime(ad.timespan.end@)->Ok_0 }
}

/// The activity a declaration resolves to: same ID, name, series and
/// geometry, the parsed timespan, and its probes, projections and dependencies
/// resolved one by one.
pub open spec fn activity_resolved(a: Activity, ad: ActivityDef, fields: Seq<Field>, defs: Seq<GeometryDef>, geoms: Seq<Geometry>) -> bool {
    &&& a.id == ad.id
    &&& a.name == ad.name
    &&& a.series == ad.series
    &&& a.geometry == ad.geometry
    &&& a.timespan.start == parsed_start(ad)
    &&& a.timespan.end == parsed_end(ad)
    &&& a.probes@.len() == ad.probes@.len()
    &&& forall|i: int|
        0 <= i < ad.probes@.len() ==> probe_resolved(#[trigger] a.probes@[i], ad.probes@[i], ad.id@, i, defs, geoms)
    &&& a.projections@.len() == ad.projections@.len()
    &&& forall|i: int|
        0 <= i < ad.projections@.len() ==> projection_resolved(
            #[trigger] a.projections@[i],
            ad.projections@[i],
            ad.id@,
            i,
            fields,
            defs,
            geoms,
            parsed_start(ad),
        )
    &&& a.depends_on@.len() == ad.depends_on@.len()
    &&& forall|i: int| 0 <= i < ad.depends_on@.len() ==> dependency_resolved(#[trigger] a.depends_on@[i], ad.depends_on@[i])
}

proof fn lemma_probes_failure_stable(pds: Seq<ProbeDef>, aid: Seq<char>, fields: Seq<Field>, defs: Seq<GeometryDef>, k: int, n: int)
    requires
        0 <= k <= n,
        probes_failure(pds, aid, fields, defs, k) is Some,
    ensures
        probes_failure(pds, aid, fields, defs, n) == probes_failure(pds, aid, fields, defs, k),
    decreases n - k,
{
    if k < n {
        lemma_probes_failure_stable(pds, aid, fields, defs, k, n - 1);
    }
}

proof fn lemma_projections_failure_stable(
    prds: Seq<ProjectionDef>,
    aid: Seq<char>,
    fields: Seq<Field>,
    defs: Seq<GeometryDef>,
    k: int,
    n: int,
)
    requires
        0 <= k <= n,
        projections_failure(prds, aid, fields, defs, k) is Some,
    ensures
        projections_failure(prds, aid, fields, defs, n) == projections_failure(prds, aid, fields, defs, k),
    decreases n - k,
{
    if k < n {
        lemma_projections_failure_stable(prds, aid, fields, defs, k, n - 1);
    }
}

proof fn lemma_dependencies_failure_stable(dds: Seq<DependencyDef>, aid: Seq<char>, acts: Seq<ActivityDef>, k: int, n: int)
    requires
        0 <= k <= n,
        dependencies_failure(dds, aid, acts, k) is Some,
    ensures
        dependencies_failure(dds, aid, acts, n) == dependencies_failure(dds, aid, acts, k),
    decreases n - k,
{
    if k < n {
        lemma_dependencies_failure_stable(dds, aid, acts, k, n - 1);
    }
}

/// Resolve an activity declaration.
fn resolve_activity(
    ad: &ActivityDef,
    fields: &Vec<Field>,
    defs: &Vec<GeometryDef>,
    geoms: &Vec<Geometry>,
    acts: &Vec<ActivityDef>,
) -> (r: Result<Activity, CpmlError>)
    requires
        geoms@.len() == defs@.len(),
    ensures
        match activity_failure(*ad, fields@, defs@, acts@) {
            Some(f) => r matches Err(e) && fails_with(e, f),
            None => r matches Ok(a) && activity_resolved(a, *ad, fields@, defs@, geoms@),
        },
{
    let start = parse_datetime(ad.timespan.start.as_str())?;
    let end = parse_datetime(ad.timespan.end.as_str())?;
    if end.secs <= start.secs {
        return Err(
            CpmlError::ValidationError(
                "Activity '".to_owned().concat(ad.id.as_str()).concat("': end date must be after start date"),
            ),
        );
    }
    let mut probes: Vec<Probe> = Vec::new();
    let mut i: usize = 0;
    while i < ad.probes.len()
        invariant
            geoms@.len() == defs@.len(),
            i <= ad.probes@.len(),
            spec_parse_datetime(ad.timespan.start@) == Ok::<i64, Seq<char>>(start.secs),
            spec_parse_datetime(ad.timespan.end@) == Ok::<i64, Seq<char>>(end.secs),
            end.secs > start.secs,
            probes_failure(ad.probes@, ad.id@, fields@, defs@, i as int) is None,
            probes@.len() == i,
            forall|j: int|
                0 <= j < i ==> probe_resolved(#[trigger] probes@[j], ad.probes@[j], ad.id@, j, defs@, geoms@),
        decreases ad.probes@.len() - i,
    {
        let p = match resolve_probe(&ad.probes[i], &ad.id, i, fields, defs, geoms) {
            Ok(p) => p,
            Err(e) => {
                proof {
                    lemma_probes_failure_stable(ad.probes@, ad.id@, fields@, defs@, i + 1, ad.probes@.len() as int);
                }
                return Err(e);
            },
        };
        probes.push(p);
        i += 1;
    }
    let mut projections: Vec<Projection> = Vec::new();
    let mut i: usize = 0;
    while i < ad.projections.len()
        invariant
            geoms@.len() == defs@.len(),
            i <= ad.projections@.len(),
            spec_parse_datetime(ad.timespan.start@) == Ok::<i64, Seq<char>>(start.secs),
            spec_parse_datetime(ad.timespan.end@) == Ok::<i64, Seq<char>>(end.secs),
            end.secs > start.secs,
            probes_failure(ad.probes@, ad.id@, fields@, defs@, ad.probes@.len() as int) is None,
            projections_failure(ad.projections@, ad.id@, fields@, defs@, i as int) is None,
            projections@.len() == i,
            forall|j: int|
                0 <= j < i ==> projection_resolved(
                    #[trigger] projections@[j],
                    ad.projections@[j],
                    ad.id@,
                    j,
                    fields@,
                    defs@,
                    geoms@,
                    start,
                ),
        decreases ad.projections@.len() - i,
    {
        let p = match resolve_projection(&ad.projections[i], &ad.id, i, fields, defs, geoms, start) {
            Ok(p) => p,
            Err(e) => {
                proof {
                    lemma_projections_failure_stable(
                        ad.projections@,
                        ad.id@,
                        fields@,
                        defs@,
                        i + 1,
                        ad.projections@.len() as int,
                    );
                }
                return Err(e);
            },
        };
        projections.push(p);
        i += 1;
    }
    let mut dependencies: Vec<Dependency> = Vec::new();
    let mut i: usize = 0;
    while i < ad.depends_on.len()
        invariant
            i <= ad.depends_on@.len(),
            probes_failure(ad.probes@, ad.id@, fields@, defs@, ad.probes@.len() as int) is None,
            projections_failure(ad.projections@, ad.id@, fields@, defs@, ad.projections@.len() as int) is None,
            spec_parse_datetime(ad.timespan.start@) == Ok::<i64, Seq<char>>(start.secs),
            spec_parse_datetime(ad.timespan.end@) == Ok::<i64, Seq<char>>(end.secs),
            end.secs > start.secs,
            dependencies_failure(ad.depends_on@, ad.id@, acts@, i as int) is None,
            dependencies@.len() == i,
            forall|j: int| 0 <= j < i ==> dependency_resolved(#[trigger] dependencies@[j], ad.depends_on@[j]),
        decreases ad.depends_on@.len() - i,
    {
        let dd = &ad.depends_on[i];
        if !contains_activity(acts, &dd.activity_id) {
            proof {
                lemma_dependencies_failure_stable(ad.depends_on@, ad.id@, acts@, i + 1, ad.depends_on@.len() as int);
            }
            return Err(
                CpmlError::ReferenceError(
                    "Activity '".to_owned().concat(ad.id.as_str()).concat("' depends on unknown activity '").concat(
                        dd.activity_id.as_str(),
                    ).concat("'"),
                ),
            );
        }
        if text_eq(&dd.activity_id, &ad.id) {
            proof {
                lemma_dependencies_failure_stable(ad.depends_on@, ad.id@, acts@, i + 1, ad.depends_on@.len() as int);
            }
            return Err(
                CpmlError::ValidationError(
                    "Activity '".to_owned().concat(ad.id.as_str()).concat("' cannot depend on itself"),
                ),
            );
        }
        let kind = match dd.kind {
            crate::schema::DependencyKind::Fs => DependencyKind::FS,
            crate::schema::DependencyKind::Ss => DependencyKind::SS,
            crate::schema::DependencyKind::Ff => DependencyKind::FF,
            crate::schema::DependencyKind::Sf => DependencyKind::SF,
        };
        let lag_days: i64 = match dd.lag_days {
            Some(l) => l,
            None => 0,
        };
        dependencies.push(Dependency { activity_id: dd.activity_id.clone(), kind, lag_days });
        i += 1;
    }
    Ok(
        Activity {
            id: ad.id.clone(),
            name: copy_opt_string(&ad.name),
            series: copy_opt_string(&ad.series),
            timespan: Timespan { start, end },
            geometry: copy_opt_string(&ad.geometry),
            probes,
            projections,
            depends_on: dependencies,
        },
    )
}

// ── The document ──

/// The first geometry among the first `n` whose ID an earlier geometry already has.
pub open spec fn duplicate_geometry_failure(defs: Seq<GeometryDef>, n: int) -> Option<Failure>
    decreases n,
{
    if n <= 0 {
        None
    } else {
        match duplicate_geometry_failure(defs, n - 1) {
            Some(f) => Some(f),
            None => if exists|j: int| 0 <= j < n - 1 && #[trigger] defs[j].id@ == defs[n - 1].id@ {
                Some((ErrorKind::DuplicateId, "Duplicate geometry ID: "@ + defs[n - 1].id@))
            } else {
                None
            },
        }
    }
}

/// The first field among the first `n` whose name an earlier field already has.
pub open spec fn duplicate_field_failure(fds: Seq<FieldDef>, n: int) -> Option<Failure>
    decreases n,
{
    if n <= 0 {
        None
    } else {
        match duplicate_field_failure(fds, n - 1) {
            Some(f) => Some(f),
            None => if exists|j: int| 0 <= j < n - 1 && #[trigger] fds[j].name@ == fds[n - 1].name@ {
                Some((ErrorKind::DuplicateId, "Duplicate field name: "@ + fds[n - 1].name@))
            } else {
                None
            },
        }
    }
}

/// The first activity among the first `n` whose ID an earlier activity already has.
pub open spec fn duplicate_activity_failure(acts: Seq<ActivityDef>, n: int) -> Option<Failure>
    decreases n,
{
    if n <= 0 {
        None
    } else {
        match duplicate_activity_failure(acts, n - 1) {
            Some(f) => Some(f),
            None => if exists|j: int| 0 <= j < n - 1 && #[trigger] acts[j].id@ == acts[n - 1].id@ {
                Some((ErrorKind::DuplicateId, "Duplicate activity ID: "@ + acts[n - 1].id@))
            } else {
                None
            },
        }
    }
}

/// The first error among the first `n` activities.
pub open spec fn activities_failure(acts: Seq<ActivityDef>, fields: Seq<Field>, defs: Seq<GeometryDef>, n: int) -> Option<Failure>
    decreases n,
{
    if n <= 0 {
        None
    } else {
        match activities_failure(acts, fields, defs, n - 1) {
            Some(f) => Some(f),
            None => activity_failure(acts[n - 1], fields, defs, acts),
        }
    }
}

/// Whether two activities belong to the same series and their timespans overlap.
pub open spec fn series_overlap(a: ActivityDef, b: ActivityDef) -> bool {
    &&& a.series is Some
    &&& b.series is Some
    &&& a.series->0@ == b.series->0@
    &&& parsed_start(a).secs < parsed_end(b).secs
    &&& parsed_start(b).secs < parsed_end(a).secs
}

/// The message for two overlapping members of a series.
pub open spec fn series_message(a: ActivityDef, b: ActivityDef) -> Seq<char> {
    "Series '"@ + a.series->0@ + "': activities '"@ + a.id@ + "' and '"@ + b.id@ + "' have overlapping timespans ("@
        + datetime_text(parsed_start(a)) + ".."@ + datetime_text(parsed_end(a)) + " and "@ + datetime_text(
        parsed_start(b),
    ) + ".."@ + datetime_text(parsed_end(b)) + ")"@
}

/// The first activity among positions `i+1 .. m` that overlaps activity `i` in its series.
pub open spec fn series_row_failure(acts: Seq<ActivityDef>, i: int, m: int) -> Option<Failure>
    decreases m - i,
{
    if m <= i + 1 {
        None
    } else {
        match series_row_failure(acts, i, m - 1) {
            Some(f) => Some(f),
            None => if series_overlap(acts[i], acts[m - 1]) {
                Some((ErrorKind::Validation, series_message(acts[i], acts[m - 1])))
            } else {
                None
            },
        }
    }
}

/// The first overlapping pair of series members, the earlier member first.
pub open spec fn series_failure(acts: Seq<ActivityDef>, n: int) -> Option<Failure>
    decreases n,
{
    if n <= 0 {
        None
    } else {
        match series_failure(acts, n - 1) {
            Some(f) => Some(f),
            None => series_row_failure(acts, n - 1, acts.len() as int),
        }
    }
}

/// The first barrier among the first `n` that names an unknown geometry.
pub open spec fn barrier_failure(doc: CpmlDocument, n: int) -> Option<Failure>
    decreases n,
{
    if n <= 0 {
        None
    } else {
        match barrier_failure(doc, n - 1) {
            Some(f) => Some(f),
            None => if geometry_position(doc.geometries@, doc.barriers@[n - 1].geometry@) < 0 {
                Some(
                    (
                        ErrorKind::Reference,
                        "Barrier references unknown geometry '"@ + doc.barriers@[n - 1].geometry@ + "'"@,
                    ),
                )
            } else {
                None
            },
        }
    }
}

/// The message when the chain of parents from a region key comes back to a
/// key it has passed.
pub open spec fn region_loop_message(key: Seq<char>) -> Seq<char> {
    "Regions must form a tree, but the chain of parents from region key '"@ + key + "' loops back on itself"@
}

/// The first of the first `n` child keys of a region hierarchy whose chain of
/// parents never ends.
pub open spec fn region_loop_failure(h: Seq<(Seq<char>, Seq<char>)>, n: int) -> Option<Failure>
    decreases n,
{
    if n <= 0 {
        None
    } else {
        match region_loop_failure(h, n - 1) {
            Some(f) => Some(f),
            None => if walk(h, h[n - 1].0) is None {
                Some((ErrorKind::Validation, region_loop_message(h[n - 1].0)))
            } else {
                None
            },
        }
    }
}

/// The error, if any, of a document whose geometries have the given region
/// keys, in the order the rules are checked: unique geometry IDs, unique
/// field names, unique activity IDs, regions forming a tree, each activity,
/// non-overlapping series members, barriers naming known geometries. The tree
/// rule is this library's own guard: a chain of region parents that loops
/// back on itself would make a capacity probe's walk up the hierarchy never end.
pub open spec fn document_failure(doc: CpmlDocument, keys: Seq<Seq<char>>) -> Option<Failure> {
    let defs = doc.geometries@;
    let fields = spec_fields(doc.fields@);
    let h = hierarchy(doc, keys, doc.regions@.len() as int);
    if duplicate_geometry_failure(defs, defs.len() as int) is Some {
        duplicate_geometry_failure(defs, defs.len() as int)
    } else if duplicate_field_failure(doc.fields@, doc.fields@.len() as int) is Some {
        duplicate_field_failure(doc.fields@, doc.fields@.len() as int)
    } else if duplicate_activity_failure(doc.activities@, doc.activities@.len() as int) is Some {
        duplicate_activity_failure(doc.activities@, doc.activities@.len() as int)
    } else if region_loop_failure(h, h.len() as int) is Some {
        region_loop_failure(h, h.len() as int)
    } else if activities_failure(doc.activities@, fields, defs, doc.activities@.len() as int) is Some {
        activities_failure(doc.activities@, fields, defs, doc.activities@.len() as int)
    } else if series_failure(doc.activities@, doc.activities@.len() as int) is Some {
        series_failure(doc.activities@, doc.activities@.len() as int)
    } else {
        barrier_failure(doc, doc.barriers@.len() as int)
    }
}

/// The position of the last geometry placed in the given region, or -1.
pub open spec fn region_geometry(defs: Seq<GeometryDef>, region: Seq<char>) -> int
    decreases defs.len(),
{
    if defs.len() == 0 {
        -1
    } else if defs.last().region is Some && defs.last().region->0@ == region {
        defs.len() - 1
    } else {
        region_geometry(defs.drop_last(), region)
    }
}

/// The geometry a region name stands for: the last geometry placed in that
/// region, else the geometry with that ID, else -1.
pub open spec fn region_target(defs: Seq<GeometryDef>, region: Seq<char>) -> int {
    if region_geometry(defs, region) >= 0 {
        region_geometry(defs, region)
    } else {
        geometry_position(defs, region)
    }
}

/// A key/value list with `key` mapped to `value`: replaced in place, or appended.
pub open spec fn assoc_insert(list: Seq<(Seq<char>, Seq<char>)>, key: Seq<char>, value: Seq<char>) -> Seq<(Seq<char>, Seq<char>)> {
    if exists|i: int| 0 <= i < list.len() && (#[trigger] list[i]).0 == key {
        let i = choose|i: int| 0 <= i < list.len() && (#[trigger] list[i]).0 == key;
        list.update(i, (key, value))
    } else {
        list.push((key, value))
    }
}

/// The region hierarchy after the first `n` regions: for each region with a
/// parent, where both name a geometry, the child geometry's region key maps
/// to the parent geometry's region key (a later region replaces an earlier one).
pub open spec fn hierarchy(doc: CpmlDocument, keys: Seq<Seq<char>>, n: int) -> Seq<(Seq<char>, Seq<char>)>
    decreases n,
{
    if n <= 0 {
        Seq::empty()
    } else {
        let before = hierarchy(doc, keys, n - 1);
        let rd = doc.regions@[n - 1];
        let child = region_target(doc.geometries@, rd.id@);
        match rd.parent {
            Some(p) => {
                let parent = region_target(doc.geometries@, p@);
                if child >= 0 && parent >= 0 {
                    assoc_insert(before, keys[child], keys[parent])
                } else {
                    before
                }
            },
            None => before,
        }
    }
}

/// Whether no two entries of a key/value list share a key.
pub open spec fn keys_distinct(list: Seq<(Seq<char>, Seq<char>)>) -> bool {
    forall|i: int, j: int| 0 <= i < j < list.len() ==> list[i].0 != list[j].0
}

/// The model a document resolves to, given the geometry each declaration
/// stands for and its region key.
pub open spec fn model_resolved(m: CpmlModel, doc: CpmlDocument, geoms: Seq<Geometry>, keys: Seq<Seq<char>>) -> bool {
    let defs = doc.geometries@;
    let fields = spec_fields(doc.fields@);
    &&& m.version == doc.version
    &&& m.name == doc.name
    &&& m.description == doc.description
    &&& m.fields@ == fields
    &&& m.activities@.len() == doc.activities@.len()
    &&& forall|i: int|
        0 <= i < doc.activities@.len() ==> activity_resolved(
            #[trigger] m.activities@[i],
            doc.activities@[i],
            fields,
            defs,
            geoms,
        )
    &&& m.barriers@.len() == doc.barriers@.len()
    &&& forall|i: int|
        0 <= i < doc.barriers@.len() ==> same_geometry(
            #[trigger] m.barriers@[i],
            geoms[geometry_position(defs, doc.barriers@[i].geometry@)],
        )
    &&& crate::model::pairs_view(m.region_hierarchy@) == hierarchy(doc, keys, doc.regions@.len() as int)
    &&& forall|i: int|
        0 <= i < m.region_hierarchy@.len() ==> spec_ancestors(
            m.region_hierarchy@,
            (#[trigger] m.region_hierarchy@[i]).0@,
        ) is Some
}

proof fn lemma_duplicate_geometry_failure_stable(defs: Seq<GeometryDef>, k: int, n: int)
    requires
        0 <= k <= n,
        duplicate_geometry_failure(defs, k) is Some,
    ensures
        duplicate_geometry_failure(defs, n) == duplicate_geometry_failure(defs, k),
    decreases n - k,
{
    if k < n {
        lemma_duplicate_geometry_failure_stable(defs, k, n - 1);
    }
}

proof fn lemma_duplicate_field_failure_stable(fds: Seq<FieldDef>, k: int, n: int)
    requires
        0 <= k <= n,
        duplicate_field_failure(fds, k) is Some,
    ensures
        duplicate_field_failure(fds, n) == duplicate_field_failure(fds, k),
    decreases n - k,
{
    if k < n {
        lemma_duplicate_field_failure_stable(fds, k, n - 1);
    }
}

proof fn lemma_duplicate_activity_failure_stable(acts: Seq<ActivityDef>, k: int, n: int)
    requires
        0 <= k <= n,
        duplicate_activity_failure(acts, k) is Some,
    ensures
        duplicate_activity_failure(acts, n) == duplicate_activity_failure(acts, k),
    decreases n - k,
{
    if k < n {
        lemma_duplicate_activity_failure_stable(acts, k, n - 1);
    }
}

proof fn lemma_activities_failure_stable(acts: Seq<ActivityDef>, fields: Seq<Field>, defs: Seq<GeometryDef>, k: int, n: int)
    requires
        0 <= k <= n,
        activities_failure(acts, fields, defs, k) is Some,
    ensures
        activities_failure(acts, fields, defs, n) == activities_failure(acts, fields, defs, k),
    decreases n - k,
{
    if k < n {
        lemma_activities_failure_stable(acts, fields, defs, k, n - 1);
    }
}

proof fn lemma_series_failure_stable(acts: Seq<ActivityDef>, k: int, n: int)
    requires
        0 <= k <= n,
        series_failure(acts, k) is Some,
    ensures
        series_failure(acts, n) == series_failure(acts, k),
    decreases n - k,
{
    if k < n {
        lemma_series_failure_stable(acts, k, n - 1);
    }
}

proof fn lemma_barrier_failure_stable(doc: CpmlDocument, k: int, n: int)
    requires
        0 <= k <= n,
        barrier_failure(doc, k) is Some,
    ensures
        barrier_failure(doc, n) == barrier_failure(doc, k),
    decreases n - k,
{
    if k < n {
        lemma_barrier_failure_stable(doc, k, n - 1);
    }
}

proof fn lemma_series_row_failure_stable(acts: Seq<ActivityDef>, i: int, k: int, n: int)
    requires
        i + 1 <= k <= n,
        series_row_failure(acts, i, k) is Some,
    ensures
        series_row_failure(acts, i, n) == series_row_failure(acts, i, k),
    decreases n - k,
{
    if k < n {
        lemma_series_row_failure_stable(acts, i, k, n - 1);
    }
}


/// Reject a repeated geometry ID.
fn check_duplicate_geometries(defs: &Vec<GeometryDef>) -> (r: Result<(), CpmlError>)
    ensures
        match duplicate_geometry_failure(defs@, defs@.len() as int) {
            Some(f) => r matches Err(e) && fails_with(e, f),
            None => r is Ok,
        },
{
    let mut i: usize = 0;
    while i < defs.len()
        invariant
            i <= defs@.len(),
            duplicate_geometry_failure(defs@, i as int) is None,
        decreases defs@.len() - i,
    {
        let mut j: usize = 0;
        let mut dup = false;
        while j < i
            invariant
                j <= i,
                i < defs@.len(),
                dup == exists|k: int| 0 <= k < j && #[trigger] defs@[k].id@ == defs@[i as int].id@,
            decreases i - j,
        {
            if text_eq(&defs[j].id, &defs[i].id) {
                dup = true;
            }
            j += 1;
        }
        if dup {
            proof {
                lemma_duplicate_geometry_failure_stable(defs@, i + 1, defs@.len() as int);
            }
            return Err(CpmlError::DuplicateIdError("Duplicate geometry ID: ".to_owned().concat(defs[i].id.as_str())));
        }
        i += 1;
    }
    Ok(())
}

/// Reject a repeated field name, and resolve each field.
fn resolve_fields(fds: &Vec<FieldDef>) -> (r: Result<Vec<Field>, CpmlError>)
    ensures
        match duplicate_field_failure(fds@, fds@.len() as int) {
            Some(f) => r matches Err(e) && fails_with(e, f),
            None => r matches Ok(fields) && fields@ == spec_fields(fds@),
        },
{
    let mut fields: Vec<Field> = Vec::new();
    let mut i: usize = 0;
    while i < fds.len()
        invariant
            i <= fds@.len(),
            duplicate_field_failure(fds@, i as int) is None,
            fields@ == spec_fields(fds@.take(i as int)),
        decreases fds@.len() - i,
    {
        let mut j: usize = 0;
        let mut dup = false;
        while j < i
            invariant
                j <= i,
                i < fds@.len(),
                dup == exists|k: int| 0 <= k < j && #[trigger] fds@[k].name@ == fds@[i as int].name@,
            decreases i - j,
        {
            if text_eq(&fds[j].name, &fds[i].name) {
                dup = true;
            }
            j += 1;
        }
        if dup {
            proof {
                lemma_duplicate_field_failure_stable(fds@, i + 1, fds@.len() as int);
            }
            return Err(CpmlError::DuplicateIdError("Duplicate field name: ".to_owned().concat(fds[i].name.as_str())));
        }
        let f = resolve_field(&fds[i]);
        fields.push(f);
        assert(spec_fields(fds@.take(i + 1)) =~= spec_fields(fds@.take(i as int)).push(spec_field(fds@[i as int])));
        i += 1;
    }
    assert(fds@.take(i as int) =~= fds@);
    Ok(fields)
}

/// Reject a repeated activity ID.
fn check_duplicate_activities(acts: &Vec<ActivityDef>) -> (r: Result<(), CpmlError>)
    ensures
        match duplicate_activity_failure(acts@, acts@.len() as int) {
            Some(f) => r matches Err(e) && fails_with(e, f),
            None => r is Ok,
        },
{
    let mut i: usize = 0;
    while i < acts.len()
        invariant
            i <= acts@.len(),
            duplicate_activity_failure(acts@, i as int) is None,
        decreases acts@.len() - i,
    {
        let mut j: usize = 0;
        let mut dup = false;
        while j < i
            invariant
                j <= i,
                i < acts@.len(),
                dup == exists|k: int| 0 <= k < j && #[trigger] acts@[k].id@ == acts@[i as int].id@,
            decreases i - j,
        {
            if text_eq(&acts[j].id, &acts[i].id) {
                dup = true;
            }
            j += 1;
        }
        if dup {
            proof {
                lemma_duplicate_activity_failure_stable(acts@, i + 1, acts@.len() as int);
            }
            return Err(CpmlError::DuplicateIdError("Duplicate activity ID: ".to_owned().concat(acts[i].id.as_str())));
        }
        i += 1;
    }
    Ok(())
}

/// Resolve every activity, stopping at the first error.
fn resolve_activities(
    acts: &Vec<ActivityDef>,
    fields: &Vec<Field>,
    defs: &Vec<GeometryDef>,
    geoms: &Vec<Geometry>,
) -> (r: Result<Vec<Activity>, CpmlError>)
    requires
        geoms@.len() == defs@.len(),
    ensures
        match activities_failure(acts@, fields@, defs@, acts@.len() as int) {
            Some(f) => r matches Err(e) && fails_with(e, f),
            None => r matches Ok(out) && out@.len() == acts@.len() && forall|i: int|
                0 <= i < acts@.len() ==> activity_resolved(#[trigger] out@[i], acts@[i], fields@, defs@, geoms@),
        },
{
    let mut out: Vec<Activity> = Vec::new();
    let mut i: usize = 0;
    while i < acts.len()
        invariant
            geoms@.len() == defs@.len(),
            i <= acts@.len(),
            activities_failure(acts@, fields@, defs@, i as int) is None,
            out@.len() == i,
            forall|k: int| 0 <= k < i ==> activity_resolved(#[trigger] out@[k], acts@[k], fields@, defs@, geoms@),
        decreases acts@.len() - i,
    {
        match resolve_activity(&acts[i], fields, defs, geoms, acts) {
            Ok(a) => {
                out.push(a);
            },
            Err(e) => {
                proof {
                    lemma_activities_failure_stable(acts@, fields@, defs@, i + 1, acts@.len() as int);
                }
                return Err(e);
            },
        }
        i += 1;
    }
    Ok(out)
}

/// The message for two overlapping members of a series.
fn series_overlap_message(sid: &String, a: &Activity, b: &Activity) -> (s: String)
    ensures
        s@ == "Series '"@ + sid@ + "': activities '"@ + a.id@ + "' and '"@ + b.id@ + "' have overlapping timespans ("@
            + datetime_text(a.timespan.start) + ".."@ + datetime_text(a.timespan.end) + " and "@ + datetime_text(
            b.timespan.start,
        ) + ".."@ + datetime_text(b.timespan.end) + ")"@,
{
    "Series '".to_owned().concat(sid.as_str()).concat("': activities '").concat(a.id.as_str()).concat("' and '").concat(
        b.id.as_str(),
    ).concat("' have overlapping timespans (").concat(display_datetime(a.timespan.start).as_str()).concat("..").concat(
        display_datetime(a.timespan.end).as_str(),
    ).concat(" and ").concat(display_datetime(b.timespan.start).as_str()).concat("..").concat(
        display_datetime(b.timespan.end).as_str(),
    ).concat(")")
}

/// Reject two members of one series whose timespans overlap.
fn validate_series(
    defs_acts: &Vec<ActivityDef>,
    activities: &Vec<Activity>,
    fields: &Vec<Field>,
    defs: &Vec<GeometryDef>,
    geoms: &Vec<Geometry>,
) -> (r: Result<(), CpmlError>)
    requires
        activities@.len() == defs_acts@.len(),
        forall|i: int|
            0 <= i < defs_acts@.len() ==> activity_resolved(#[trigger] activities@[i], defs_acts@[i], fields@, defs@, geoms@),
    ensures
        match series_failure(defs_acts@, defs_acts@.len() as int) {
            Some(f) => r matches Err(e) && fails_with(e, f),
            None => r is Ok,
        },
{
    let n = activities.len();
    let mut i: usize = 0;
    while i < n
        invariant
            n == activities@.len(),
            activities@.len() == defs_acts@.len(),
            forall|k: int|
                0 <= k < defs_acts@.len() ==> activity_resolved(#[trigger] activities@[k], defs_acts@[k], fields@, defs@, geoms@),
            i <= n,
            series_failure(defs_acts@, i as int) is None,
        decreases n - i,
    {
        let mut j: usize = i + 1;
        while j < n
            invariant
                n == activities@.len(),
                activities@.len() == defs_acts@.len(),
                forall|k: int|
                    0 <= k < defs_acts@.len() ==> activity_resolved(#[trigger] activities@[k], defs_acts@[k], fields@, defs@, geoms@),
                i < n,
                i + 1 <= j <= n,
                series_failure(defs_acts@, i as int) is None,
                series_row_failure(defs_acts@, i as int, j as int) is None,
            decreases n - j,
        {
            let a = &activities[i];
            let b = &activities[j];
            proof {
                assert(activity_resolved(activities@[i as int], defs_acts@[i as int], fields@, defs@, geoms@));
                assert(activity_resolved(activities@[j as int], defs_acts@[j as int], fields@, defs@, geoms@));
            }
            if let (Some(sa), Some(sb)) = (&a.series, &b.series) {
                if text_eq(sa, sb) && a.timespan.start.secs < b.timespan.end.secs && b.timespan.start.secs
                    < a.timespan.end.secs {
                    let msg = series_overlap_message(sa, a, b);
                    proof {
                        lemma_series_row_failure_stable(defs_acts@, i as int, j + 1, n as int);
                        lemma_series_failure_stable(defs_acts@, i + 1, n as int);
                    }
                    return Err(CpmlError::ValidationError(msg));
                }
            }
            j += 1;
        }
        i += 1;
    }
    Ok(())
}

/// The barrier geometries, or the first barrier naming an unknown geometry.
fn resolve_barriers(doc: &CpmlDocument, geoms: &Vec<Geometry>) -> (r: Result<Vec<Geometry>, CpmlError>)
    requires
        geoms@.len() == doc.geometries@.len(),
    ensures
        match barrier_failure(*doc, doc.barriers@.len() as int) {
            Some(f) => r matches Err(e) && fails_with(e, f),
            None => r matches Ok(out) && out@.len() == doc.barriers@.len() && forall|i: int|
                0 <= i < doc.barriers@.len() ==> same_geometry(
                    #[trigger] out@[i],
                    geoms@[geometry_position(doc.geometries@, doc.barriers@[i].geometry@)],
                ),
        },
{
    let mut out: Vec<Geometry> = Vec::new();
    let mut i: usize = 0;
    while i < doc.barriers.len()
        invariant
            geoms@.len() == doc.geometries@.len(),
            i <= doc.barriers@.len(),
            barrier_failure(*doc, i as int) is None,
            out@.len() == i,
            forall|k: int|
                0 <= k < i ==> same_geometry(
                    #[trigger] out@[k],
                    geoms@[geometry_position(doc.geometries@, doc.barriers@[k].geometry@)],
                ),
        decreases doc.barriers@.len() - i,
    {
        match find_geometry(&doc.geometries, &doc.barriers[i].geometry) {
            Some(p) => {
                out.push(copy_geometry(&geoms[p]));
            },
            None => {
                proof {
                    lemma_barrier_failure_stable(*doc, i + 1, doc.barriers@.len() as int);
                }
                return Err(
                    CpmlError::ReferenceError(
                        "Barrier references unknown geometry '".to_owned().concat(
                            doc.barriers[i].geometry.as_str(),
                        ).concat("'"),
                    ),
                );
            },
        }
        i += 1;
    }
    Ok(out)
}


/// The position of the last geometry placed in a region.
fn find_region_geometry(defs: &Vec<GeometryDef>, region: &String) -> (r: Option<usize>)
    ensures
        match r {
            Some(p) => p as int == region_geometry(defs@, region@) && p < defs@.len(),
            None => region_geometry(defs@, region@) == -1,
        },
{
    let mut i: usize = defs.len();
    assert(defs@.take(defs@.len() as int) =~= defs@);
    while i > 0
        invariant
            i <= defs@.len(),
            region_geometry(defs@, region@) == region_geometry(defs@.take(i as int), region@),
        decreases i,
    {
        assert(defs@.take(i as int).drop_last() =~= defs@.take(i - 1));
        if let Some(r) = &defs[i - 1].region {
            if text_eq(r, region) {
                proof {
                    lemma_region_geometry_bounds(defs@, region@);
                }
                return Some(i - 1);
            }
        }
        i -= 1;
    }
    None
}

proof fn lemma_region_geometry_bounds(defs: Seq<GeometryDef>, region: Seq<char>)
    ensures
        -1 <= region_geometry(defs, region) < defs.len(),
    decreases defs.len(),
{
    if defs.len() > 0 {
        lemma_region_geometry_bounds(defs.drop_last(), region);
    }
}

/// The geometry a region name stands for.
fn find_region_target(defs: &Vec<GeometryDef>, region: &String) -> (r: Option<usize>)
    ensures
        match r {
            Some(p) => p as int == region_target(defs@, region@) && p < defs@.len(),
            None => region_target(defs@, region@) == -1,
        },
{
    match find_region_geometry(defs, region) {
        Some(p) => Some(p),
        None => find_geometry(defs, region),
    }
}

/// Map `key` to `value` in a key/value list with distinct keys.
fn insert_pair(list: &mut Vec<(String, String)>, key: String, value: String)
    requires
        keys_distinct(crate::model::pairs_view(old(list)@)),
    ensures
        keys_distinct(crate::model::pairs_view(final(list)@)),
        crate::model::pairs_view(final(list)@) == assoc_insert(crate::model::pairs_view(old(list)@), key@, value@),
{
    let ghost before = crate::model::pairs_view(list@);
    assert(before == crate::model::pairs_view(old(list)@));
    let mut i: usize = 0;
    while i < list.len()
        invariant
            i <= list@.len(),
            before == crate::model::pairs_view(old(list)@),
            before == crate::model::pairs_view(list@),
            keys_distinct(before),
            forall|k: int| 0 <= k < i ==> (#[trigger] list@[k]).0@ != key@,
        decreases list@.len() - i,
    {
        if text_eq(&list[i].0, &key) {
            let ghost idx = i as int;
            assert(before[idx].0 == key@);
            assert forall|k: int| 0 <= k < before.len() && (#[trigger] before[k]).0 == key@ implies k == idx by {
                if k < idx {
                    assert(list@[k].0@ != key@);
                } else if k > idx {
                    assert(before[idx].0 != before[k].0);
                }
            }
            assert(assoc_insert(before, key@, value@) == before.update(idx, (key@, value@))) by {
                assert(0 <= idx < before.len() && (before[idx]).0 == key@);
                let c = choose|c: int| 0 <= c < before.len() && (#[trigger] before[c]).0 == key@;
                assert(c == idx);
            }
            list.set(i, (key, value));
            assert(crate::model::pairs_view(list@) =~= before.update(idx, (key@, value@)));
            assert(keys_distinct(crate::model::pairs_view(list@))) by {
                let after = crate::model::pairs_view(list@);
                assert forall|a: int, b: int| 0 <= a < b < after.len() implies after[a].0 != after[b].0 by {
                    assert(after[a].0 == before[a].0);
                    assert(after[b].0 == before[b].0);
                }
            }
            return;
        }
        i += 1;
    }
    assert(!exists|k: int| 0 <= k < before.len() && (#[trigger] before[k]).0 == key@);
    list.push((key, value));
    assert(crate::model::pairs_view(list@) =~= before.push((key@, value@)));
    assert(keys_distinct(crate::model::pairs_view(list@))) by {
        let after = crate::model::pairs_view(list@);
        assert forall|a: int, b: int| 0 <= a < b < after.len() implies after[a].0 != after[b].0 by {
            if b == before.len() {
                assert(after[a] == before[a]);
            }
        }
    }
}

/// Build the region hierarchy: each region with a parent links the child
/// geometry's region key to the parent geometry's region key.
fn build_region_hierarchy(doc: &CpmlDocument, region_keys: &Vec<String>) -> (h: Vec<(String, String)>)
    requires
        region_keys@.len() == doc.geometries@.len(),
    ensures
        crate::model::pairs_view(h@) == hierarchy(*doc, region_keys@.map_values(|k: String| k@), doc.regions@.len() as int),
{
    let ghost keys = region_keys@.map_values(|k: String| k@);
    let mut h: Vec<(String, String)> = Vec::new();
    let mut i: usize = 0;
    assert(crate::model::pairs_view(h@) =~= Seq::<(Seq<char>, Seq<char>)>::empty());
    while i < doc.regions.len()
        invariant
            region_keys@.len() == doc.geometries@.len(),
            keys == region_keys@.map_values(|k: String| k@),
            i <= doc.regions@.len(),
            keys_distinct(crate::model::pairs_view(h@)),
            crate::model::pairs_view(h@) == hierarchy(*doc, keys, i as int),
        decreases doc.regions@.len() - i,
    {
        let rd = &doc.regions[i];
        if let Some(parent) = &rd.parent {
            match (find_region_target(&doc.geometries, &rd.id), find_region_target(&doc.geometries, parent)) {
                (Some(c), Some(p)) => {
                    insert_pair(&mut h, region_keys[c].clone(), region_keys[p].clone());
                },
                _ => {},
            }
        }
        i += 1;
    }
    h
}

/// Reject a region hierarchy in which the chain of parents from some child
/// key never ends.
fn check_region_tree(h: &Vec<(String, String)>) -> (r: Result<(), CpmlError>)
    ensures
        match region_loop_failure(crate::model::pairs_view(h@), h@.len() as int) {
            Some(f) => r matches Err(e) && fails_with(e, f),
            None => r is Ok && forall|i: int| 0 <= i < h@.len() ==> spec_ancestors(h@, (#[trigger] h@[i]).0@) is Some,
        },
{
    let ghost hv = crate::model::pairs_view(h@);
    let mut i: usize = 0;
    while i < h.len()
        invariant
            hv == crate::model::pairs_view(h@),
            i <= h@.len(),
            region_loop_failure(hv, i as int) is None,
            forall|k: int| 0 <= k < i ==> spec_ancestors(h@, (#[trigger] h@[k]).0@) is Some,
        decreases h@.len() - i,
    {
        assert(hv[i as int].0 == h@[i as int].0@);
        if !ancestry_ends(&h[i].0, h) {
            proof {
                lemma_region_loop_failure_stable(hv, i + 1, h@.len() as int);
            }
            return Err(
                CpmlError::ValidationError(
                    "Regions must form a tree, but the chain of parents from region key '".to_owned().concat(
                        h[i].0.as_str(),
                    ).concat("' loops back on itself"),
                ),
            );
        }
        i += 1;
    }
    Ok(())
}

proof fn lemma_region_loop_failure_stable(h: Seq<(Seq<char>, Seq<char>)>, k: int, n: int)
    requires
        0 <= k <= n,
        region_loop_failure(h, k) is Some,
    ensures
        region_loop_failure(h, n) == region_loop_failure(h, k),
    decreases n - k,
{
    if n > k {
        lemma_region_loop_failure_stable(h, k, n - 1);
    }
}

/// Resolve a document into a validated model.
///
/// `geometries[i]` is the geometry that declaration `doc.geometries[i]` stands
/// for and `region_keys[i]` its region key. Rules are checked in this order,
/// the first broken one giving the error: unique geometry IDs, unique field
/// names, unique activity IDs, regions forming a tree, each activity (dates,
/// probes, projections, dependencies), non-overlapping members of each series,
/// barriers naming known geometries.
///
/// Regions are documented to form a tree, and a capacity probe walks up
/// through the parents of its region; a chain of parents that loops back on
/// itself would make that walk never end, so this library refuses such a
/// hierarchy here, as its own guard, rather than hang when a probe follows it.
pub fn resolve(doc: &CpmlDocument, geometries: &Vec<Geometry>, region_keys: &Vec<String>) -> (r: Result<CpmlModel, CpmlError>)
    requires
        geometries@.len() == doc.geometries@.len(),
        region_keys@.len() == doc.geometries@.len(),
    ensures
        match document_failure(*doc, region_keys@.map_values(|k: String| k@)) {
            Some(f) => r matches Err(e) && fails_with(e, f),
            None => r matches Ok(m) && model_resolved(m, *doc, geometries@, region_keys@.map_values(|k: String| k@)),
        },
{
    check_duplicate_geometries(&doc.geometries)?;
    let region_hierarchy = build_region_hierarchy(doc, region_keys);
    let fields = resolve_fields(&doc.fields)?;
    check_duplicate_activities(&doc.activities)?;
    check_region_tree(&region_hierarchy)?;
    let activities = resolve_activities(&doc.activities, &fields, &doc.geometries, geometries)?;
    validate_series(&doc.activities, &activities, &fields, &doc.geometries, geometries)?;
    let barriers = resolve_barriers(doc, geometries)?;
    Ok(
        CpmlModel {
            version: doc.version.clone(),
            name: copy_opt_string(&doc.name),
            description: copy_opt_string(&doc.description),
            fields,
            activities,
            barriers,
            region_hierarchy,
        },
    )
}

/// Whether two members of a series overlap does not depend on which one is
/// listed first.
pub proof fn lemma_series_overlap_symmetric(a: ActivityDef, b: ActivityDef)
    ensures
        series_overlap(a, b) == series_overlap(b, a),
{
}

/// Two activities of the same series whose timespans intersect (each starts
/// before the other ends) always make the document fail to resolve, whichever
/// is listed first.
pub proof fn lemma_overlapping_series_members_refused(doc: CpmlDocument, keys: Seq<Seq<char>>, i: int, j: int)
    requires
        0 <= i < doc.activities@.len(),
        0 <= j < doc.activities@.len(),
        i != j,
        doc.activities@[i].series is Some,
        doc.activities@[j].series is Some,
        doc.activities@[i].series->0@ == doc.activities@[j].series->0@,
        parsed_start(doc.activities@[i]).secs < parsed_end(doc.activities@[j]).secs,
        parsed_start(doc.activities@[j]).secs < parsed_end(doc.activities@[i]).secs,
    ensures
        document_failure(doc, keys) is Some,
{
    let acts = doc.activities@;
    let (x, y) = if i < j { (i, j) } else { (j, i) };
    assert(series_overlap(acts[x], acts[y]));
    lemma_series_row_failure_found(acts, x, y, acts.len() as int);
    lemma_series_failure_found(acts, x, acts.len() as int);
}

/// A row holding an overlapping later member fails.
proof fn lemma_series_row_failure_found(acts: Seq<ActivityDef>, i: int, j: int, m: int)
    requires
        0 <= i < j < m <= acts.len(),
        series_overlap(acts[i], acts[j]),
    ensures
        series_row_failure(acts, i, m) is Some,
    decreases m,
{
    if m - 1 > j {
        lemma_series_row_failure_found(acts, i, j, m - 1);
    }
}

/// Once a row fails, the series check over any longer prefix fails.
proof fn lemma_series_failure_found(acts: Seq<ActivityDef>, i: int, n: int)
    requires
        0 <= i < n,
        series_row_failure(acts, i, acts.len() as int) is Some,
    ensures
        series_failure(acts, n) is Some,
    decreases n,
{
    if n - 1 > i {
        lemma_series_failure_found(acts, i, n - 1);
    }
}
} // verus!
