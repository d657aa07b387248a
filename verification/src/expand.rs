//! Expanding syntax sugar — collision, structure and demand declarations —
//! into the probes and projections they stand for.
use vstd::prelude::*;
use vstd::string::*;

use crate::error::{fails_with, CpmlError, ErrorKind, Failure};
use crate::model::{
    copy_geometry, same_geometry, Activity, Assertion, Contribution, Field, Geometry, PresenceRecord, Probe,
    Projection,
};
use crate::numeric::Real;
use crate::resolve::{
    assertion_failure, assertion_resolved, field_position, find_field, find_geometry, geometry_position, kind_name,
    kind_name_text, label, label_text, name_or_numbered, numbered_name, resolve_assertion,
};
use crate::schema::{
    ActivityDef, AssertionDef, DemandDef, DiagnosticLevel, FieldType, GeometryDef, OccupancyKind, StructureDef,
};
use crate::text::{copy_opt_string, decimal, decimal_text_usize};
use crate::time::{day_of_secs, Date, DateTime};

verus! {

// ── Occupancy field lookup and defaults ──

/// The position of the first occupancy field, or -1.
pub open spec fn occupancy_position(fields: Seq<Field>) -> int
    decreases fields.len(),
{
    if fields.len() == 0 {
        -1
    } else if fields[0] is Occupancy {
        0
    } else {
        let r = occupancy_position(fields.drop_first());
        if r < 0 { -1 } else { r + 1 }
    }
}

proof fn lemma_occupancy_position(fields: Seq<Field>, p: int)
    requires
        -1 <= p < fields.len(),
        forall|j: int| 0 <= j < (if p < 0 { fields.len() as int } else { p }) ==> !(#[trigger] fields[j] is Occupancy),
        p >= 0 ==> fields[p] is Occupancy,
    ensures
        occupancy_position(fields) == p,
    decreases fields.len(),
{
    if fields.len() > 0 && p != 0 {
        let q = if p < 0 { -1 } else { p - 1 };
        assert forall|j: int| 0 <= j < (if q < 0 { fields.len() - 1 } else { q }) implies !(#[trigger] fields.drop_first()[j] is Occupancy) by {
            assert(fields.drop_first()[j] == fields[j + 1]);
        }
        lemma_occupancy_position(fields.drop_first(), q);
    }
}

/// The message when collision sugar finds no occupancy field.
pub open spec fn no_occupancy_message() -> Seq<char> {
    "No occupancy field found. Declare one in the fields section."@
}

/// The name of an occupancy field, which collision sugar writes to.
pub fn find_any_occupancy_field(fields: &Vec<Field>) -> (r: Result<String, CpmlError>)
    ensures
        occupancy_position(fields@) >= 0 ==> (r matches Ok(name) && name@ == fields@[occupancy_position(fields@)].spec_name()),
        occupancy_position(fields@) < 0 ==> (r matches Err(e) && fails_with(e, (ErrorKind::Reference, no_occupancy_message()))),
{
    let mut i: usize = 0;
    while i < fields.len()
        invariant
            i <= fields@.len(),
            forall|j: int| 0 <= j < i ==> !(#[trigger] fields@[j] is Occupancy),
        decreases fields@.len() - i,
    {
        if let Field::Occupancy(f) = &fields[i] {
            proof {
                lemma_occupancy_position(fields@, i as int);
            }
            return Ok(f.name.clone());
        }
        i += 1;
    }
    proof {
        lemma_occupancy_position(fields@, -1);
    }
    Err(CpmlError::ReferenceError("No occupancy field found. Declare one in the fields section.".to_owned()))
}

/// The assertion a structure infers for a field when it declares none:
/// empty for occupancy, at least zero otherwise.
pub open spec fn default_assertion(t: FieldType) -> Assertion {
    if t == FieldType::Occupancy {
        Assertion::Empty
    } else {
        Assertion::Gte(Real::spec_zero())
    }
}

fn default_assertion_for_field(field: &Field) -> (a: Assertion)
    requires
        !(field is Presence),
    ensures
        a == default_assertion(field.spec_field_type()),
{
    match field {
        Field::Capacity(_) => Assertion::Gte(Real::zero()),
        Field::Occupancy(_) => Assertion::Empty,
        Field::Scalar(_) => Assertion::Gte(Real::zero()),
        Field::Presence(_) => Assertion::Empty,
        Field::Rate(_) => Assertion::Gte(Real::zero()),
    }
}

/// The level a structure's probe gets when it declares none: error, on any field.
pub fn default_diagnostic_level_for_field(field: &Field) -> (l: DiagnosticLevel)
    ensures
        l == DiagnosticLevel::Error,
{
    match field {
        Field::Occupancy(_) => DiagnosticLevel::Error,
        _ => DiagnosticLevel::Error,
    }
}

// ── What each sugar stands for ──

/// The number of probes (and of projections) collision sugar adds.
pub open spec fn collision_count(ad: ActivityDef) -> int {
    match ad.collision {
        Some(c) => (if c.hard is Some { 1int } else { 0int }) + (if c.soft is Some { 1int } else { 0int }),
        None => 0,
    }
}

/// Whether a probe and a projection are the pair collision sugar makes for
/// one entry: probe `{id}/collision_{tag}_probe` asserting the occupancy field
/// is empty at the given level, projection `{id}/collision_{tag}_projection`
/// occupying it with the given kind, both on the entry's geometry.
pub open spec fn collision_pair(
    p: Probe,
    q: Projection,
    ad: ActivityDef,
    tag: Seq<char>,
    level: DiagnosticLevel,
    kind: OccupancyKind,
    occupancy: Seq<char>,
    geometry: Geometry,
) -> bool {
    &&& p.id@ == ad.id@ + "/collision_"@ + tag + "_probe"@
    &&& p.name matches Some(n) && n@ == "collision_"@ + tag + "_probe"@
    &&& p.field_name@ == occupancy
    &&& same_geometry(p.geometry, geometry)
    &&& p.assertion is Empty
    &&& p.diagnostic_level == level
    &&& p.parent_activity_id@ == ad.id@
    &&& q.id@ == ad.id@ + "/collision_"@ + tag + "_projection"@
    &&& q.name matches Some(n) && n@ == "collision_"@ + tag + "_projection"@
    &&& q.field_name@ == occupancy
    &&& same_geometry(q.geometry, geometry)
    &&& q.contribution == Contribution::Occupancy { kind }
    &&& q.parent_activity_id@ == ad.id@
    &&& q.confidence is None
}

/// The structure's name, or `structure_{index}`.
pub open spec fn structure_name(sd: StructureDef, index: int) -> Seq<char> {
    name_or_numbered(sd.name, "structure_"@, index)
}

/// The message when a structure on a presence field declares no assertion.
pub open spec fn presence_assert_message(sd: StructureDef, index: int, ad: ActivityDef) -> Seq<char> {
    "Structure '"@ + structure_name(sd, index) + "' on presence field '"@ + sd.field@ + "' in activity '"@ + ad.id@
        + "' must specify an explicit 'assert' (e.g. 'present: {key: \"...\"}'). Cannot infer a default assertion for presence fields."@
}

/// The error, if any, of structure number `index`: its geometry must exist,
/// then its field; a declared assertion must suit the field; a presence field
/// needs a declared assertion.
pub open spec fn structure_failure(sd: StructureDef, index: int, ad: ActivityDef, fields: Seq<Field>, defs: Seq<GeometryDef>) -> Option<Failure> {
    let fp = field_position(fields, sd.field@);
    if geometry_position(defs, sd.geometry@) < 0 {
        Some(
            (
                ErrorKind::Reference,
                "Structure '"@ + label(sd.name) + "' geometry '"@ + sd.geometry@ + "' not found in activity '"@ + ad.id@
                    + "'"@,
            ),
        )
    } else if fp < 0 {
        Some(
            (
                ErrorKind::Reference,
                "Structure '"@ + label(sd.name) + "' field '"@ + sd.field@ + "' not found in activity '"@ + ad.id@
                    + "'"@,
            ),
        )
    } else if sd.assert is Some && assertion_failure(sd.assert->0, fields[fp].spec_field_type()) is Some {
        assertion_failure(sd.assert->0, fields[fp].spec_field_type())
    } else if sd.assert is None && fields[fp] is Presence {
        Some((ErrorKind::Validation, presence_assert_message(sd, index, ad)))
    } else {
        None
    }
}

/// The contribution a structure makes: its value (zero when absent) for
/// capacity and rate; its kind (hard when absent) for occupancy; its value
/// with its operator or the field's for scalars; for presence a record keyed
/// by its name (or `unnamed`), valid from the date of the activity's start,
/// never expiring.
pub open spec fn structure_contribution(c: Contribution, sd: StructureDef, field: Field, start: DateTime) -> bool {
    let value = match sd.value {
        Some(v) => v,
        None => Real::spec_zero(),
    };
    match field {
        Field::Capacity(_) => c == Contribution::Capacity(value),
        Field::Occupancy(_) => c == Contribution::Occupancy {
            kind: match sd.kind {
                Some(k) => k,
                None => OccupancyKind::Hard,
            },
        },
        Field::Scalar(sf) => c == Contribution::Scalar {
            value,
            operator: match sd.operator {
                Some(op) => op,
                None => sf.operator,
            },
        },
        Field::Presence(_) => {
            &&& c matches Contribution::Presence(rec)
            &&& rec.key@ == label(sd.name)
            &&& rec.record_type is None
            &&& rec.attributes@.len() == 0
            &&& rec.valid_from == Date { days: day_of_secs(start.secs as int) as i64 }
            &&& rec.valid_until is None
        },
        Field::Rate(_) => c == Contribution::Rate(value),
    }
}

/// Whether a probe and a projection are the pair structure number `index`
/// makes: `{id}/struct_{name}_probe` with the declared assertion (or the
/// inferred one) at the declared level (or error), and
/// `{id}/struct_{name}_projection` with the structure's contribution and confidence.
pub open spec fn structure_pair(
    p: Probe,
    q: Projection,
    sd: StructureDef,
    index: int,
    ad: ActivityDef,
    start: DateTime,
    fields: Seq<Field>,
    defs: Seq<GeometryDef>,
    geoms: Seq<Geometry>,
) -> bool {
    let field = fields[field_position(fields, sd.field@)];
    let geometry = geoms[geometry_position(defs, sd.geometry@)];
    let name = structure_name(sd, index);
    &&& p.id@ == ad.id@ + "/struct_"@ + name + "_probe"@
    &&& p.name matches Some(n) && n@ == "struct_"@ + name + "_probe"@
    &&& p.field_name == sd.field
    &&& same_geometry(p.geometry, geometry)
    &&& match sd.assert {
        Some(a) => assertion_resolved(p.assertion, a),
        None => p.assertion == default_assertion(field.spec_field_type()),
    }
    &&& p.diagnostic_level == match sd.diagnostic_level {
        Some(l) => l,
        None => DiagnosticLevel::Error,
    }
    &&& p.parent_activity_id@ == ad.id@
    &&& q.id@ == ad.id@ + "/struct_"@ + name + "_projection"@
    &&& q.name matches Some(n) && n@ == "struct_"@ + name + "_projection"@
    &&& q.field_name == sd.field
    &&& same_geometry(q.geometry, geometry)
    &&& structure_contribution(q.contribution, sd, field, start)
    &&& q.parent_activity_id@ == ad.id@
    &&& q.confidence == sd.confidence
}

/// The message when a demand's amount is not a positive number.
pub open spec fn demand_amount_message(dd: DemandDef, ad: ActivityDef) -> Seq<char> {
    "Demand '"@ + dd.field@ + "' in activity '"@ + ad.id@ + "' must have a positive amount"@
}

/// The error, if any, of demand number `index`: its field must exist and be a
/// capacity field, then its geometry must exist, then its amount must be a
/// positive number.
pub open spec fn demand_failure(dd: DemandDef, ad: ActivityDef, fields: Seq<Field>, defs: Seq<GeometryDef>) -> Option<Failure> {
    let fp = field_position(fields, dd.field@);
    if fp < 0 {
        Some(
            (
                ErrorKind::Reference,
                "Demand '"@ + dd.field@ + "' in activity '"@ + ad.id@ + "' references unknown field '"@ + dd.field@
                    + "'"@,
            ),
        )
    } else if !(fields[fp] is Capacity) {
        Some(
            (
                ErrorKind::TypeMismatch,
                "Demand '"@ + dd.field@ + "' in activity '"@ + ad.id@ + "' must reference a capacity field, got "@
                    + kind_name(fields[fp].spec_field_type()),
            ),
        )
    } else if geometry_position(defs, dd.geometry@) < 0 {
        Some(
            (
                ErrorKind::Reference,
                "Demand '"@ + dd.field@ + "' geometry '"@ + dd.geometry@ + "' not found in activity '"@ + ad.id@
                    + "'"@,
            ),
        )
    } else if !dd.amount.spec_positive() {
        Some((ErrorKind::Validation, demand_amount_message(dd, ad)))
    } else {
        None
    }
}

/// Whether a probe and a projection are the pair demand number `index` makes:
/// `{id}/demand_{index}_probe` asserting the field holds at least the amount,
/// at the declared level (or error), and `{id}/demand_{index}_projection`
/// consuming the amount (its negation) at full confidence.
pub open spec fn demand_pair(
    p: Probe,
    q: Projection,
    dd: DemandDef,
    index: int,
    ad: ActivityDef,
    defs: Seq<GeometryDef>,
    geoms: Seq<Geometry>,
) -> bool {
    let geometry = geoms[geometry_position(defs, dd.geometry@)];
    let name = "demand_"@ + decimal(index);
    &&& p.id@ == ad.id@ + "/"@ + name + "_probe"@
    &&& p.name matches Some(n) && n@ == name + "_probe"@
    &&& p.field_name == dd.field
    &&& same_geometry(p.geometry, geometry)
    &&& p.assertion == Assertion::Gte(dd.amount)
    &&& p.diagnostic_level == match dd.diagnostic_level {
        Some(l) => l,
        None => DiagnosticLevel::Error,
    }
    &&& p.parent_activity_id@ == ad.id@
    &&& q.id@ == ad.id@ + "/"@ + name + "_projection"@
    &&& q.name matches Some(n) && n@ == name + "_projection"@
    &&& q.field_name == dd.field
    &&& same_geometry(q.geometry, geometry)
    &&& q.contribution == Contribution::Capacity(dd.amount.spec_neg())
    &&& q.parent_activity_id@ == ad.id@
    &&& q.confidence is None
}

// ── The whole expansion ──

/// The error, if any, of collision sugar: it needs an occupancy field, then
/// its hard geometry, then its soft geometry.
pub open spec fn collision_failure(ad: ActivityDef, fields: Seq<Field>, defs: Seq<GeometryDef>) -> Option<Failure> {
    match ad.collision {
        None => None,
        Some(c) => if occupancy_position(fields) < 0 {
            Some((ErrorKind::Reference, no_occupancy_message()))
        } else if c.hard is Some && geometry_position(defs, c.hard->0.geometry@) < 0 {
            Some(
                (
                    ErrorKind::Reference,
                    "Collision hard geometry '"@ + c.hard->0.geometry@ + "' not found for activity '"@ + ad.id@ + "'"@,
                ),
            )
        } else if c.soft is Some && geometry_position(defs, c.soft->0.geometry@) < 0 {
            Some(
                (
                    ErrorKind::Reference,
                    "Collision soft geometry '"@ + c.soft->0.geometry@ + "' not found for activity '"@ + ad.id@ + "'"@,
                ),
            )
        } else {
            None
        },
    }
}

/// The first error among the first `n` structures.
pub open spec fn structures_failure(ad: ActivityDef, fields: Seq<Field>, defs: Seq<GeometryDef>, n: int) -> Option<Failure>
    decreases n,
{
    if n <= 0 {
        None
    } else {
        match structures_failure(ad, fields, defs, n - 1) {
            Some(f) => Some(f),
            None => structure_failure(ad.structures@[n - 1], n - 1, ad, fields, defs),
        }
    }
}

/// The first error among the first `n` demands.
pub open spec fn demands_failure(ad: ActivityDef, fields: Seq<Field>, defs: Seq<GeometryDef>, n: int) -> Option<Failure>
    decreases n,
{
    if n <= 0 {
        None
    } else {
        match demands_failure(ad, fields, defs, n - 1) {
            Some(f) => Some(f),
            None => demand_failure(ad.demands@[n - 1], ad, fields, defs),
        }
    }
}

/// The error, if any, of expanding an activity's sugar: collision first, then
/// the structures in order, then the demands in order.
pub open spec fn expansion_failure(ad: ActivityDef, fields: Seq<Field>, defs: Seq<GeometryDef>) -> Option<Failure> {
    if collision_failure(ad, fields, defs) is Some {
        collision_failure(ad, fields, defs)
    } else if structures_failure(ad, fields, defs, ad.structures@.len() as int) is Some {
        structures_failure(ad, fields, defs, ad.structures@.len() as int)
    } else {
        demands_failure(ad, fields, defs, ad.demands@.len() as int)
    }
}

/// The pairs collision sugar makes, first in the given lists: the hard one,
/// then the soft one, each when declared.
pub open spec fn collision_generated(
    ps: Seq<Probe>,
    qs: Seq<Projection>,
    ad: ActivityDef,
    fields: Seq<Field>,
    defs: Seq<GeometryDef>,
    geoms: Seq<Geometry>,
) -> bool {
    match ad.collision {
        None => true,
        Some(c) => {
            let occupancy = fields[occupancy_position(fields)].spec_name();
            let k: int = if c.hard is Some { 1 } else { 0 };
            &&& c.hard is Some ==> collision_pair(
                ps[0],
                qs[0],
                ad,
                "hard"@,
                DiagnosticLevel::Error,
                OccupancyKind::Hard,
                occupancy,
                geoms[geometry_position(defs, c.hard->0.geometry@)],
            )
            &&& c.soft is Some ==> collision_pair(
                ps[k],
                qs[k],
                ad,
                "soft"@,
                DiagnosticLevel::Warning,
                OccupancyKind::Soft,
                occupancy,
                geoms[geometry_position(defs, c.soft->0.geometry@)],
            )
        },
    }
}

/// The probes and projections an activity's sugar stands for, in order:
/// collision pairs, one pair per structure, one pair per demand.
pub open spec fn generated(
    ps: Seq<Probe>,
    qs: Seq<Projection>,
    ad: ActivityDef,
    start: DateTime,
    fields: Seq<Field>,
    defs: Seq<GeometryDef>,
    geoms: Seq<Geometry>,
) -> bool {
    let cc = collision_count(ad);
    let ns = ad.structures@.len() as int;
    let nd = ad.demands@.len() as int;
    &&& ps.len() == cc + ns + nd
    &&& qs.len() == cc + ns + nd
    &&& collision_generated(ps, qs, ad, fields, defs, geoms)
    &&& forall|i: int|
        0 <= i < ns ==> structure_pair(
            ps[cc + i],
            qs[cc + i],
            #[trigger] ad.structures@[i],
            i,
            ad,
            start,
            fields,
            defs,
            geoms,
        )
    &&& forall|i: int|
        0 <= i < nd ==> demand_pair(ps[cc + ns + i], qs[cc + ns + i], #[trigger] ad.demands@[i], i, ad, defs, geoms)
}

/// An activity after expansion: what it had, followed by what its sugar
/// stands for; nothing else changes.
pub open spec fn expanded(
    before: Activity,
    after: Activity,
    ad: ActivityDef,
    fields: Seq<Field>,
    defs: Seq<GeometryDef>,
    geoms: Seq<Geometry>,
) -> bool {
    let bp = before.probes@.len() as int;
    let bq = before.projections@.len() as int;
    &&& after.id == before.id
    &&& after.name == before.name
    &&& after.series == before.series
    &&& after.timespan == before.timespan
    &&& after.geometry == before.geometry
    &&& after.depends_on == before.depends_on
    &&& bp <= after.probes@.len()
    &&& bq <= after.projections@.len()
    &&& after.probes@.subrange(0, bp) == before.probes@
    &&& after.projections@.subrange(0, bq) == before.projections@
    &&& generated(
        after.probes@.subrange(bp, after.probes@.len() as int),
        after.projections@.subrange(bq, after.projections@.len() as int),
        ad,
        before.timespan.start,
        fields,
        defs,
        geoms,
    )
}

// ── Expanding ──

/// The probe and projection collision sugar makes for one entry.
fn collision_pair_for(
    ad: &ActivityDef,
    tag: &str,
    level: DiagnosticLevel,
    kind: OccupancyKind,
    occupancy: &String,
    geometry: &Geometry,
) -> (r: (Probe, Projection))
    ensures
        collision_pair(r.0, r.1, *ad, tag@, level, kind, occupancy@, *geometry),
{
    let probe = Probe {
        id: ad.id.clone().concat("/collision_").concat(tag).concat("_probe"),
        name: Some("collision_".to_owned().concat(tag).concat("_probe")),
        field_name: occupancy.clone(),
        geometry: copy_geometry(geometry),
        assertion: Assertion::Empty,
        diagnostic_level: level,
        parent_activity_id: ad.id.clone(),
    };
    let projection = Projection {
        id: ad.id.clone().concat("/collision_").concat(tag).concat("_projection"),
        name: Some("collision_".to_owned().concat(tag).concat("_projection")),
        field_name: occupancy.clone(),
        geometry: copy_geometry(geometry),
        contribution: Contribution::Occupancy { kind },
        parent_activity_id: ad.id.clone(),
        confidence: None,
    };
    (probe, projection)
}

/// The pairs an activity's collision sugar makes.
fn expand_collision(ad: &ActivityDef, fields: &Vec<Field>, defs: &Vec<GeometryDef>, geoms: &Vec<Geometry>) -> (r: Result<
    (Vec<Probe>, Vec<Projection>),
    CpmlError,
>)
    requires
        geoms@.len() == defs@.len(),
    ensures
        match collision_failure(*ad, fields@, defs@) {
            Some(f) => r matches Err(e) && fails_with(e, f),
            None => r matches Ok(pq) && pq.0@.len() == collision_count(*ad) && pq.1@.len() == collision_count(*ad)
                && collision_generated(pq.0@, pq.1@, *ad, fields@, defs@, geoms@),
        },
{
    let mut ps: Vec<Probe> = Vec::new();
    let mut qs: Vec<Projection> = Vec::new();
    if let Some(c) = &ad.collision {
        let occupancy = find_any_occupancy_field(fields)?;
        if let Some(h) = &c.hard {
            let gp = match find_geometry(defs, &h.geometry) {
                Some(p) => p,
                None => {
                    return Err(
                        CpmlError::ReferenceError(
                            "Collision hard geometry '".to_owned().concat(h.geometry.as_str()).concat(
                                "' not found for activity '",
                            ).concat(ad.id.as_str()).concat("'"),
                        ),
                    );
                },
            };
            let (p, q) = collision_pair_for(
                ad,
                "hard",
                DiagnosticLevel::Error,
                OccupancyKind::Hard,
                &occupancy,
                &geoms[gp],
            );
            ps.push(p);
            qs.push(q);
        }
        if let Some(sf) = &c.soft {
            let gp = match find_geometry(defs, &sf.geometry) {
                Some(p) => p,
                None => {
                    return Err(
                        CpmlError::ReferenceError(
                            "Collision soft geometry '".to_owned().concat(sf.geometry.as_str()).concat(
                                "' not found for activity '",
                            ).concat(ad.id.as_str()).concat("'"),
                        ),
                    );
                },
            };
            let (p, q) = collision_pair_for(
                ad,
                "soft",
                DiagnosticLevel::Warning,
                OccupancyKind::Soft,
                &occupancy,
                &geoms[gp],
            );
            ps.push(p);
            qs.push(q);
        }
    }
    Ok((ps, qs))
}

/// What a structure contributes to its field.
fn build_structure_contribution(sd: &StructureDef, field: &Field, start: &DateTime) -> (c: Contribution)
    ensures
        structure_contribution(c, *sd, *field, *start),
{
    let value = match sd.value {
        Some(v) => v,
        None => Real::zero(),
    };
    match field {
        Field::Capacity(_) => Contribution::Capacity(value),
        Field::Occupancy(_) => {
            let kind = match sd.kind {
                Some(k) => k,
                None => OccupancyKind::Hard,
            };
            Contribution::Occupancy { kind }
        },
        Field::Scalar(sf) => {
            let operator = match sd.operator {
                Some(op) => op,
                None => sf.operator,
            };
            Contribution::Scalar { value, operator }
        },
        Field::Presence(_) => {
            let key = match &sd.name {
                Some(n) => n.clone(),
                None => "unnamed".to_owned(),
            };
            proof {
                reveal_strlit("unnamed");
            }
            let valid_from = start.date();
            Contribution::Presence(
                PresenceRecord { key, record_type: None, attributes: Vec::new(), valid_from, valid_until: None },
            )
        },
        Field::Rate(_) => Contribution::Rate(value),
    }
}

/// The probe and projection structure number `index` makes.
fn expand_structure(
    sd: &StructureDef,
    index: usize,
    ad: &ActivityDef,
    start: &DateTime,
    fields: &Vec<Field>,
    defs: &Vec<GeometryDef>,
    geoms: &Vec<Geometry>,
) -> (r: Result<(Probe, Projection), CpmlError>)
    requires
        geoms@.len() == defs@.len(),
    ensures
        match structure_failure(*sd, index as int, *ad, fields@, defs@) {
            Some(f) => r matches Err(e) && fails_with(e, f),
            None => r matches Ok(pq) && structure_pair(
                pq.0,
                pq.1,
                *sd,
                index as int,
                *ad,
                *start,
                fields@,
                defs@,
                geoms@,
            ),
        },
{
    let gp = match find_geometry(defs, &sd.geometry) {
        Some(p) => p,
        None => {
            return Err(
                CpmlError::ReferenceError(
                    "Structure '".to_owned().concat(label_text(&sd.name)).concat("' geometry '").concat(
                        sd.geometry.as_str(),
                    ).concat("' not found in activity '").concat(ad.id.as_str()).concat("'"),
                ),
            );
        },
    };
    let fp = match find_field(fields, &sd.field) {
        Some(p) => p,
        None => {
            return Err(
                CpmlError::ReferenceError(
                    "Structure '".to_owned().concat(label_text(&sd.name)).concat("' field '").concat(
                        sd.field.as_str(),
                    ).concat("' not found in activity '").concat(ad.id.as_str()).concat("'"),
                ),
            );
        },
    };
    let field = &fields[fp];
    let struct_name = numbered_name(&sd.name, "structure_", index);
    let assertion = match &sd.assert {
        Some(a) => resolve_assertion(a, field)?,
        None => {
            if let Field::Presence(_) = field {
                return Err(
                    CpmlError::ValidationError(
                        "Structure '".to_owned().concat(struct_name.as_str()).concat("' on presence field '").concat(
                            sd.field.as_str(),
                        ).concat("' in activity '").concat(ad.id.as_str()).concat(
                            "' must specify an explicit 'assert' (e.g. 'present: {key: \"...\"}'). Cannot infer a default assertion for presence fields.",
                        ),
                    ),
                );
            }
            default_assertion_for_field(field)
        },
    };
    let diagnostic_level = match sd.diagnostic_level {
        Some(l) => l,
        None => default_diagnostic_level_for_field(field),
    };
    let contribution = build_structure_contribution(sd, field, start);
    let probe = Probe {
        id: ad.id.clone().concat("/struct_").concat(struct_name.as_str()).concat("_probe"),
        name: Some("struct_".to_owned().concat(struct_name.as_str()).concat("_probe")),
        field_name: sd.field.clone(),
        geometry: copy_geometry(&geoms[gp]),
        assertion,
        diagnostic_level,
        parent_activity_id: ad.id.clone(),
    };
    let projection = Projection {
        id: ad.id.clone().concat("/struct_").concat(struct_name.as_str()).concat("_projection"),
        name: Some("struct_".to_owned().concat(struct_name.as_str()).concat("_projection")),
        field_name: sd.field.clone(),
        geometry: copy_geometry(&geoms[gp]),
        contribution,
        parent_activity_id: ad.id.clone(),
        confidence: sd.confidence,
    };
    Ok((probe, projection))
}

/// The probe and projection demand number `index` makes.
fn expand_demand(
    dd: &DemandDef,
    index: usize,
    ad: &ActivityDef,
    fields: &Vec<Field>,
    defs: &Vec<GeometryDef>,
    geoms: &Vec<Geometry>,
) -> (r: Result<(Probe, Projection), CpmlError>)
    requires
        geoms@.len() == defs@.len(),
    ensures
        match demand_failure(*dd, *ad, fields@, defs@) {
            Some(f) => r matches Err(e) && fails_with(e, f),
            None => r matches Ok(pq) && demand_pair(pq.0, pq.1, *dd, index as int, *ad, defs@, geoms@),
        },
{
    let fp = match find_field(fields, &dd.field) {
        Some(p) => p,
        None => {
            return Err(
                CpmlError::ReferenceError(
                    "Demand '".to_owned().concat(dd.field.as_str()).concat("' in activity '").concat(
                        ad.id.as_str(),
                    ).concat("' references unknown field '").concat(dd.field.as_str()).concat("'"),
                ),
            );
        },
    };
    if !(fields[fp].field_type() == FieldType::Capacity) {
        return Err(
            CpmlError::TypeMismatchError(
                "Demand '".to_owned().concat(dd.field.as_str()).concat("' in activity '").concat(ad.id.as_str()).concat(
                    "' must reference a capacity field, got ",
                ).concat(kind_name_text(fields[fp].field_type())),
            ),
        );
    }
    let gp = match find_geometry(defs, &dd.geometry) {
        Some(p) => p,
        None => {
            return Err(
                CpmlError::ReferenceError(
                    "Demand '".to_owned().concat(dd.field.as_str()).concat("' geometry '").concat(
                        dd.geometry.as_str(),
                    ).concat("' not found in activity '").concat(ad.id.as_str()).concat("'"),
                ),
            );
        },
    };
    if !dd.amount.is_positive() {
        return Err(
            CpmlError::ValidationError(
                "Demand '".to_owned().concat(dd.field.as_str()).concat("' in activity '").concat(ad.id.as_str()).concat(
                    "' must have a positive amount",
                ),
            ),
        );
    }
    let demand_name = "demand_".to_owned().concat(decimal_text_usize(index).as_str());
    let diagnostic_level = match dd.diagnostic_level {
        Some(l) => l,
        None => DiagnosticLevel::Error,
    };
    let probe = Probe {
        id: ad.id.clone().concat("/").concat(demand_name.as_str()).concat("_probe"),
        name: Some(demand_name.clone().concat("_probe")),
        field_name: dd.field.clone(),
        geometry: copy_geometry(&geoms[gp]),
        assertion: Assertion::Gte(dd.amount),
        diagnostic_level,
        parent_activity_id: ad.id.clone(),
    };
    let projection = Projection {
        id: ad.id.clone().concat("/").concat(demand_name.as_str()).concat("_projection"),
        name: Some(demand_name.concat("_projection")),
        field_name: dd.field.clone(),
        geometry: copy_geometry(&geoms[gp]),
        contribution: Contribution::Capacity(dd.amount.neg()),
        parent_activity_id: ad.id.clone(),
        confidence: None,
    };
    Ok((probe, projection))
}

proof fn lemma_structures_failure_stable(ad: ActivityDef, fields: Seq<Field>, defs: Seq<GeometryDef>, k: int, n: int)
    requires
        0 <= k <= n,
        structures_failure(ad, fields, defs, k) is Some,
    ensures
        structures_failure(ad, fields, defs, n) == structures_failure(ad, fields, defs, k),
    decreases n - k,
{
    if n > k {
        lemma_structures_failure_stable(ad, fields, defs, k, n - 1);
    }
}

proof fn lemma_demands_failure_stable(ad: ActivityDef, fields: Seq<Field>, defs: Seq<GeometryDef>, k: int, n: int)
    requires
        0 <= k <= n,
        demands_failure(ad, fields, defs, k) is Some,
    ensures
        demands_failure(ad, fields, defs, n) == demands_failure(ad, fields, defs, k),
    decreases n - k,
{
    if n > k {
        lemma_demands_failure_stable(ad, fields, defs, k, n - 1);
    }
}

/// Expand an activity's collision, structure and demand sugar into probes and
/// projections, appended after those it already has. On an error the
/// activity is left as it was.
pub fn expand_activity(
    activity: &mut Activity,
    ad: &ActivityDef,
    fields: &Vec<Field>,
    defs: &Vec<GeometryDef>,
    geoms: &Vec<Geometry>,
) -> (r: Result<(), CpmlError>)
    requires
        geoms@.len() == defs@.len(),
    ensures
        match expansion_failure(*ad, fields@, defs@) {
            Some(f) => (r matches Err(e) && fails_with(e, f)) && *final(activity) == *old(activity),
            None => r is Ok && expanded(*old(activity), *final(activity), *ad, fields@, defs@, geoms@),
        },
{
    let start = activity.timespan.start;
    let (mut ps, mut qs) = expand_collision(ad, fields, defs, geoms)?;
    let ghost cc = collision_count(*ad);
    let ghost ns = ad.structures@.len() as int;
    let mut i: usize = 0;
    while i < ad.structures.len()
        invariant
            geoms@.len() == defs@.len(),
            collision_failure(*ad, fields@, defs@) is None,
            cc == collision_count(*ad),
            ns == ad.structures@.len(),
            i <= ns,
            structures_failure(*ad, fields@, defs@, i as int) is None,
            ps@.len() == cc + i,
            qs@.len() == cc + i,
            collision_generated(ps@, qs@, *ad, fields@, defs@, geoms@),
            forall|j: int|
                0 <= j < i ==> structure_pair(
                    ps@[cc + j],
                    qs@[cc + j],
                    #[trigger] ad.structures@[j],
                    j,
                    *ad,
                    start,
                    fields@,
                    defs@,
                    geoms@,
                ),
        decreases ns - i,
    {
        let (p, q) = match expand_structure(&ad.structures[i], i, ad, &start, fields, defs, geoms) {
            Ok(pq) => pq,
            Err(e) => {
                proof {
                    lemma_structures_failure_stable(*ad, fields@, defs@, i + 1, ns);
                }
                return Err(e);
            },
        };
        ps.push(p);
        qs.push(q);
        i += 1;
    }
    let ghost nd = ad.demands@.len() as int;
    let mut i: usize = 0;
    while i < ad.demands.len()
        invariant
            geoms@.len() == defs@.len(),
            collision_failure(*ad, fields@, defs@) is None,
            structures_failure(*ad, fields@, defs@, ns) is None,
            cc == collision_count(*ad),
            ns == ad.structures@.len(),
            nd == ad.demands@.len(),
            i <= nd,
            demands_failure(*ad, fields@, defs@, i as int) is None,
            ps@.len() == cc + ns + i,
            qs@.len() == cc + ns + i,
            collision_generated(ps@, qs@, *ad, fields@, defs@, geoms@),
            forall|j: int|
                0 <= j < ns ==> structure_pair(
                    ps@[cc + j],
                    qs@[cc + j],
                    #[trigger] ad.structures@[j],
                    j,
                    *ad,
                    start,
                    fields@,
                    defs@,
                    geoms@,
                ),
            forall|j: int|
                0 <= j < i ==> demand_pair(
                    ps@[cc + ns + j],
                    qs@[cc + ns + j],
                    #[trigger] ad.demands@[j],
                    j,
                    *ad,
                    defs@,
                    geoms@,
                ),
        decreases nd - i,
    {
        let (p, q) = match expand_demand(&ad.demands[i], i, ad, fields, defs, geoms) {
            Ok(pq) => pq,
            Err(e) => {
                proof {
                    lemma_demands_failure_stable(*ad, fields@, defs@, i + 1, nd);
                }
                return Err(e);
            },
        };
        ps.push(p);
        qs.push(q);
        i += 1;
    }
    let ghost bp = activity.probes@;
    let ghost bq = activity.projections@;
    let ghost gp = ps@;
    let ghost gq = qs@;
    activity.probes.append(&mut ps);
    activity.projections.append(&mut qs);
    proof {
        assert(activity.probes@.subrange(0, bp.len() as int) =~= bp);
        assert(activity.projections@.subrange(0, bq.len() as int) =~= bq);
        assert(activity.probes@.subrange(bp.len() as int, activity.probes@.len() as int) =~= gp);
        assert(activity.projections@.subrange(bq.len() as int, activity.projections@.len() as int) =~= gq);
    }
    Ok(())
}

/// A structure on an occupancy field contributes an overlap of the kind it
/// declares, and a hard one when it declares none.
pub proof fn lemma_structure_occupancy_kind(
    p: Probe,
    q: Projection,
    sd: StructureDef,
    index: int,
    ad: ActivityDef,
    start: DateTime,
    fields: Seq<Field>,
    defs: Seq<GeometryDef>,
    geoms: Seq<Geometry>,
)
    requires
        structure_pair(p, q, sd, index, ad, start, fields, defs, geoms),
        fields[field_position(fields, sd.field@)] is Occupancy,
    ensures
        forall|k: OccupancyKind| sd.kind == Some(k) ==> q.contribution == (Contribution::Occupancy { kind: k }),
        sd.kind is None ==> q.contribution == (Contribution::Occupancy { kind: OccupancyKind::Hard }),
{
}
} // verus!
