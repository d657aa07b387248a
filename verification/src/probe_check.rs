//! Checking the probes of the active activities at a keyframe: which probes
//! report, at what level and with what message, in what order.
//!
//! Sampling a field (geometry overlaps, numeric sums, record lookups) is done
//! by the caller; it hands each probe's reading in, with which projections in
//! effect overlap the probe's region, and the checks here turn readings into
//! diagnostics and choose the projections each one blames.
use vstd::prelude::*;
use vstd::string::*;

use crate::diagnostic::{
    by_severity, lemma_by_severity_multiset, occupancy_level, reported_level, sort_by_severity, BlameEntry, Diagnostic,
};
use crate::model::{Activity, Assertion, Contribution, Field, Probe, Projection};
use crate::resolve::{field_position, find_field, is_numeric};
use crate::schema::{DiagnosticLevel, FieldType, OccupancyKind};
use crate::text::text_eq;
use crate::time::DateTime;

verus! {

/// What sampling the fields at one probe found.
#[derive(Debug)]
pub enum Reading {
    /// The most severe occupancy kind overlapping the probe, or none when it is vacant.
    Occupancy(Option<OccupancyKind>),
    /// For a numeric bound: the message when the sampled value breaks it;
    /// none when it holds or when no value could be sampled.
    Bound(Option<String>),
    /// Whether a record meeting the presence criteria was found.
    Presence(bool),
}

/// A probe's reading, with, for each projection in effect at the keyframe
/// (in order), whether it overlaps the probe's region.
#[derive(Debug)]
pub struct ProbeReading {
    pub reading: Reading,
    pub overlaps: Vec<bool>,
}

/// The name of an occupancy kind in messages.
pub open spec fn kind_label(kind: OccupancyKind) -> Seq<char> {
    match kind {
        OccupancyKind::Hard => "Hard"@,
        OccupancyKind::Soft => "Soft"@,
    }
}

fn kind_label_text(kind: OccupancyKind) -> (s: &'static str)
    ensures
        s@ == kind_label(kind),
{
    match kind {
        OccupancyKind::Hard => "Hard",
        OccupancyKind::Soft => "Soft",
    }
}

/// The level and message a probe reports, if it fails. A probe on an unknown
/// field reports nothing. An emptiness probe reports only on an occupancy
/// field, when something overlaps it, at the more severe of the overlap's
/// level and its own. A bound probe reports only on a numeric field, with the
/// message of the broken bound. A presence probe reports when no record is found.
pub open spec fn probe_finding(probe: Probe, fields: Seq<Field>, reading: Reading) -> Option<(DiagnosticLevel, Seq<char>)> {
    let fp = field_position(fields, probe.field_name@);
    if fp < 0 {
        None
    } else {
        match probe.assertion {
            Assertion::Empty => if fields[fp] is Occupancy {
                match reading {
                    Reading::Occupancy(Some(kind)) => Some(
                        (
                            reported_level(kind, probe.diagnostic_level),
                            "Occupancy collision: "@ + kind_label(kind) + " overlap detected"@,
                        ),
                    ),
                    _ => None,
                }
            } else {
                None
            },
            Assertion::Present(c) => match reading {
                Reading::Presence(false) => Some(
                    (
                        probe.diagnostic_level,
                        "Required presence record '"@ + c.key@ + "' not found or invalid on field '"@
                            + probe.field_name@ + "'"@,
                    ),
                ),
                _ => None,
            },
            _ => if is_numeric(fields[fp].spec_field_type()) {
                match reading {
                    Reading::Bound(Some(m)) => Some((probe.diagnostic_level, m@)),
                    _ => None,
                }
            } else {
                None
            },
        }
    }
}

// ── Blame ──

/// Whether a failing probe of an activity blames a projection in effect that
/// overlaps (`overlap`) its region: an emptiness probe blames the occupancy
/// projections of other activities; any other probe the projections on its field.
pub open spec fn blames(probe: Probe, act: Activity, p: Projection, overlap: bool) -> bool {
    &&& overlap
    &&& match probe.assertion {
        Assertion::Empty => p.parent_activity_id@ != act.id@ && p.contribution is Occupancy,
        _ => p.field_name@ == probe.field_name@,
    }
}

/// How a blame entry sums up a projection's contribution: `occupancy(Kind)`
/// for an overlap, `presence(key=...)` for a record on a presence probe's
/// field, else the text the caller wrote for it (`text`, e.g. `capacity(150)`).
pub open spec fn blame_summary(probe: Probe, p: Projection, text: Seq<char>) -> Seq<char> {
    match (probe.assertion, p.contribution) {
        (Assertion::Empty, Contribution::Occupancy { kind }) => "occupancy("@ + kind_label(kind) + ")"@,
        (Assertion::Present(_), Contribution::Presence(rec)) => "presence(key="@ + rec.key@ + ")"@,
        _ => text,
    }
}

/// The positions, among the first `n` projections in effect, of those a
/// failing probe blames, in order.
pub open spec fn blamed(probe: Probe, act: Activity, ps: Seq<Projection>, overlaps: Seq<bool>, n: int) -> Seq<int>
    decreases n,
{
    if n <= 0 {
        Seq::empty()
    } else {
        blamed(probe, act, ps, overlaps, n - 1) + if blames(probe, act, ps[n - 1], overlaps[n - 1]) {
            seq![n - 1]
        } else {
            Seq::empty()
        }
    }
}

/// Whether a blame entry names a projection: its activity, its ID, its
/// confidence, and the given summary.
pub open spec fn names(e: BlameEntry, p: Projection, summary: Seq<char>) -> bool {
    &&& e.activity_id@ == p.parent_activity_id@
    &&& e.projection_id@ == p.id@
    &&& e.contribution_summary@ == summary
    &&& e.confidence == p.confidence
}

/// Whether `b` is the blame list of a failing probe: one entry per blamed
/// projection in effect, in order (`texts[i]` is the caller's summary of
/// projection `i`'s contribution).
pub open spec fn blame_list(
    b: Seq<BlameEntry>,
    probe: Probe,
    act: Activity,
    ps: Seq<Projection>,
    texts: Seq<String>,
    overlaps: Seq<bool>,
) -> bool {
    let pos = blamed(probe, act, ps, overlaps, ps.len() as int);
    &&& b.len() == pos.len()
    &&& forall|k: int|
        0 <= k < b.len() ==> names(#[trigger] b[k], ps[pos[k]], blame_summary(probe, ps[pos[k]], texts[pos[k]]@))
}

/// Each blamed position is that of a projection the probe blames.
proof fn lemma_blamed(probe: Probe, act: Activity, ps: Seq<Projection>, overlaps: Seq<bool>, n: int)
    ensures
        forall|k: int|
            0 <= k < blamed(probe, act, ps, overlaps, n).len() ==> {
                let j = #[trigger] blamed(probe, act, ps, overlaps, n)[k];
                0 <= j < n && blames(probe, act, ps[j], overlaps[j])
            },
    decreases n,
{
    if n > 0 {
        lemma_blamed(probe, act, ps, overlaps, n - 1);
        let before = blamed(probe, act, ps, overlaps, n - 1);
        assert forall|k: int| 0 <= k < blamed(probe, act, ps, overlaps, n).len() implies {
            let j = #[trigger] blamed(probe, act, ps, overlaps, n)[k];
            0 <= j < n && blames(probe, act, ps[j], overlaps[j])
        } by {
            if k < before.len() {
                assert(blamed(probe, act, ps, overlaps, n)[k] == before[k]);
            }
        }
    }
}

/// A failing probe blames only projections in effect that overlap it: an
/// emptiness probe only occupancy projections of other activities than its
/// own, any other probe only projections on its own field.
pub proof fn lemma_blame_names_projections_in_effect(
    b: Seq<BlameEntry>,
    probe: Probe,
    act: Activity,
    ps: Seq<Projection>,
    texts: Seq<String>,
    overlaps: Seq<bool>,
)
    requires
        blame_list(b, probe, act, ps, texts, overlaps),
    ensures
        forall|k: int|
            0 <= k < b.len() ==> exists|j: int|
                0 <= j < ps.len() && overlaps[j] && (#[trigger] b[k]).projection_id@ == ps[j].id@
                    && b[k].activity_id@ == ps[j].parent_activity_id@ && (probe.assertion is Empty ==> (
                ps[j].contribution is Occupancy && b[k].activity_id@ != act.id@)) && (!(probe.assertion is Empty)
                    ==> ps[j].field_name@ == probe.field_name@),
{
    let pos = blamed(probe, act, ps, overlaps, ps.len() as int);
    lemma_blamed(probe, act, ps, overlaps, ps.len() as int);
    assert forall|k: int| 0 <= k < b.len() implies exists|j: int|
        0 <= j < ps.len() && overlaps[j] && (#[trigger] b[k]).projection_id@ == ps[j].id@ && b[k].activity_id@
            == ps[j].parent_activity_id@ && (probe.assertion is Empty ==> (ps[j].contribution is Occupancy
            && b[k].activity_id@ != act.id@)) && (!(probe.assertion is Empty) ==> ps[j].field_name@
            == probe.field_name@) by {
        let j = pos[k];
        assert(names(b[k], ps[j], blame_summary(probe, ps[j], texts[j]@)));
        assert(blames(probe, act, ps[j], overlaps[j]));
    }
}

/// Whether `d` is the diagnostic a probe of an activity reports at a keyframe
/// with the given level and message, blaming the projections in effect (`ps`)
/// that its reading says overlap it.
pub open spec fn reports(
    d: Diagnostic,
    keyframe_index: usize,
    keyframe_date: DateTime,
    act: Activity,
    probe: Probe,
    finding: (DiagnosticLevel, Seq<char>),
    ps: Seq<Projection>,
    texts: Seq<String>,
    overlaps: Seq<bool>,
) -> bool {
    &&& d.keyframe_index == keyframe_index
    &&& d.keyframe_date == keyframe_date
    &&& d.activity_id == act.id
    &&& d.probe_id == probe.id
    &&& d.level == finding.0
    &&& d.message@ == finding.1
    &&& blame_list(d.blame@, probe, act, ps, texts, overlaps)
    &&& d.series_id == act.series
}

/// Whether `ds` are, in order, the diagnostics the first `n` probes of an
/// activity report.
pub open spec fn activity_reports(
    ds: Seq<Diagnostic>,
    keyframe_index: usize,
    keyframe_date: DateTime,
    act: Activity,
    fields: Seq<Field>,
    ps: Seq<Projection>,
    texts: Seq<String>,
    rs: Seq<ProbeReading>,
    n: int,
) -> bool
    decreases n,
{
    if n <= 0 {
        ds.len() == 0
    } else {
        match probe_finding(act.probes@[n - 1], fields, rs[n - 1].reading) {
            None => activity_reports(ds, keyframe_index, keyframe_date, act, fields, ps, texts, rs, n - 1),
            Some(f) => {
                &&& ds.len() > 0
                &&& reports(
                    ds.last(),
                    keyframe_index,
                    keyframe_date,
                    act,
                    act.probes@[n - 1],
                    f,
                    ps,
                    texts,
                    rs[n - 1].overlaps@,
                )
                &&& activity_reports(ds.drop_last(), keyframe_index, keyframe_date, act, fields, ps, texts, rs, n - 1)
            },
        }
    }
}

/// Whether `ds` are, in order, the diagnostics the first `n` active activities report.
pub open spec fn frame_reports(
    ds: Seq<Diagnostic>,
    keyframe_index: usize,
    keyframe_date: DateTime,
    acts: Seq<&Activity>,
    fields: Seq<Field>,
    ps: Seq<Projection>,
    texts: Seq<String>,
    rss: Seq<Vec<ProbeReading>>,
    n: int,
) -> bool
    decreases n,
{
    if n <= 0 {
        ds.len() == 0
    } else {
        exists|k: int|
            #![trigger ds.take(k)]
            0 <= k <= ds.len() && frame_reports(
                ds.take(k),
                keyframe_index,
                keyframe_date,
                acts,
                fields,
                ps,
                texts,
                rss,
                n - 1,
            ) && activity_reports(
                ds.skip(k),
                keyframe_index,
                keyframe_date,
                *acts[n - 1],
                fields,
                ps,
                texts,
                rss[n - 1]@,
                acts[n - 1].probes@.len() as int,
            )
    }
}

/// The blame list of a failing probe: an entry for each projection in effect
/// it blames, in order.
fn build_blame(
    probe: &Probe,
    act: &Activity,
    projections: &Vec<&Projection>,
    texts: &Vec<String>,
    overlaps: &Vec<bool>,
) -> (out: Vec<BlameEntry>)
    requires
        texts@.len() == projections@.len(),
        overlaps@.len() == projections@.len(),
    ensures
        blame_list(out@, *probe, *act, projections@.map_values(|p: &Projection| *p), texts@, overlaps@),
{
    let ghost ps = projections@.map_values(|p: &Projection| *p);
    let mut out: Vec<BlameEntry> = Vec::new();
    let mut i: usize = 0;
    while i < projections.len()
        invariant
            ps == projections@.map_values(|p: &Projection| *p),
            texts@.len() == projections@.len(),
            overlaps@.len() == projections@.len(),
            i <= projections@.len(),
            out@.len() == blamed(*probe, *act, ps, overlaps@, i as int).len(),
            forall|k: int|
                #![trigger out@[k]]
                0 <= k < out@.len() ==> {
                    let j = blamed(*probe, *act, ps, overlaps@, i as int)[k];
                    names(out@[k], ps[j], blame_summary(*probe, ps[j], texts@[j]@))
                },
        decreases projections@.len() - i,
    {
        let p: &Projection = projections[i];
        assert(ps[i as int] == *p);
        let ghost before = out@;
        let ghost pos = blamed(*probe, *act, ps, overlaps@, i as int);
        let is_blamed = overlaps[i] && match &probe.assertion {
            Assertion::Empty => !text_eq(&p.parent_activity_id, &act.id) && match &p.contribution {
                Contribution::Occupancy { .. } => true,
                _ => false,
            },
            _ => text_eq(&p.field_name, &probe.field_name),
        };
        assert(is_blamed == blames(*probe, *act, ps[i as int], overlaps@[i as int]));
        if is_blamed {
            let summary: String = match (&probe.assertion, &p.contribution) {
                (Assertion::Empty, Contribution::Occupancy { kind }) => "occupancy(".to_owned().concat(
                    kind_label_text(*kind),
                ).concat(")"),
                (Assertion::Present(_), Contribution::Presence(rec)) => "presence(key=".to_owned().concat(
                    rec.key.as_str(),
                ).concat(")"),
                _ => texts[i].clone(),
            };
            out.push(
                BlameEntry {
                    activity_id: p.parent_activity_id.clone(),
                    projection_id: p.id.clone(),
                    contribution_summary: summary,
                    confidence: p.confidence,
                },
            );
            proof {
                assert(blamed(*probe, *act, ps, overlaps@, i + 1) == pos.push(i as int));
                assert forall|k: int| 0 <= k < out@.len() implies {
                    let j = blamed(*probe, *act, ps, overlaps@, i + 1)[k];
                    names(#[trigger] out@[k], ps[j], blame_summary(*probe, ps[j], texts@[j]@))
                } by {
                    if k < before.len() {
                        assert(out@[k] == before[k]);
                    }
                }
            }
        } else {
            proof {
                assert(blamed(*probe, *act, ps, overlaps@, i + 1) =~= pos);
            }
        }
        i += 1;
    }
    out
}

/// The diagnostic one probe of an activity reports at a keyframe, if any.
pub fn probe_diagnostic(
    keyframe_index: usize,
    keyframe_date: DateTime,
    act: &Activity,
    probe: &Probe,
    fields: &Vec<Field>,
    reading: &ProbeReading,
    projections: &Vec<&Projection>,
    texts: &Vec<String>,
) -> (r: Option<Diagnostic>)
    requires
        texts@.len() == projections@.len(),
        reading.overlaps@.len() == projections@.len(),
    ensures
        match probe_finding(*probe, fields@, reading.reading) {
            None => r is None,
            Some(f) => r matches Some(d) && reports(
                d,
                keyframe_index,
                keyframe_date,
                *act,
                *probe,
                f,
                projections@.map_values(|p: &Projection| *p),
                texts@,
                reading.overlaps@,
            ),
        },
{
    let fp = match find_field(fields, &probe.field_name) {
        Some(p) => p,
        None => return None,
    };
    let t = fields[fp].field_type();
    let finding: Option<(DiagnosticLevel, String)> = match &probe.assertion {
        Assertion::Empty => {
            if t != FieldType::Occupancy {
                None
            } else {
                match &reading.reading {
                    Reading::Occupancy(Some(kind)) => Some(
                        (
                            occupancy_level(*kind, probe.diagnostic_level),
                            "Occupancy collision: ".to_owned().concat(kind_label_text(*kind)).concat(
                                " overlap detected",
                            ),
                        ),
                    ),
                    _ => None,
                }
            }
        },
        Assertion::Present(c) => match &reading.reading {
            Reading::Presence(false) => Some(
                (
                    probe.diagnostic_level,
                    "Required presence record '".to_owned().concat(c.key.as_str()).concat(
                        "' not found or invalid on field '",
                    ).concat(probe.field_name.as_str()).concat("'"),
                ),
            ),
            _ => None,
        },
        _ => {
            if t == FieldType::Capacity || t == FieldType::Scalar || t == FieldType::Rate {
                match &reading.reading {
                    Reading::Bound(Some(m)) => Some((probe.diagnostic_level, m.clone())),
                    _ => None,
                }
            } else {
                None
            }
        },
    };
    match finding {
        None => None,
        Some((level, message)) => Some(
            Diagnostic {
                keyframe_index,
                keyframe_date,
                activity_id: act.id.clone(),
                probe_id: probe.id.clone(),
                level,
                message,
                blame: build_blame(probe, act, projections, texts, &reading.overlaps),
                series_id: crate::text::copy_opt_string(&act.series),
            },
        ),
    }
}

/// Whether every entry of a blame list names one of the given projections.
pub open spec fn blame_within(b: Seq<BlameEntry>, ps: Seq<Projection>) -> bool {
    forall|k: int|
        0 <= k < b.len() ==> exists|j: int|
            0 <= j < ps.len() && (#[trigger] b[k]).projection_id@ == ps[j].id@ && b[k].activity_id@
                == ps[j].parent_activity_id@
}

/// The diagnostics the probes of one activity report, in probe order.
fn activity_diagnostics(
    keyframe_index: usize,
    keyframe_date: DateTime,
    act: &Activity,
    fields: &Vec<Field>,
    rs: &Vec<ProbeReading>,
    projections: &Vec<&Projection>,
    texts: &Vec<String>,
) -> (ds: Vec<Diagnostic>)
    requires
        rs@.len() == act.probes@.len(),
        texts@.len() == projections@.len(),
        forall|p: int| 0 <= p < rs@.len() ==> (#[trigger] rs@[p]).overlaps@.len() == projections@.len(),
    ensures
        activity_reports(
            ds@,
            keyframe_index,
            keyframe_date,
            *act,
            fields@,
            projections@.map_values(|p: &Projection| *p),
            texts@,
            rs@,
            act.probes@.len() as int,
        ),
        forall|k: int|
            0 <= k < ds@.len() ==> blame_within(
                (#[trigger] ds@[k]).blame@,
                projections@.map_values(|p: &Projection| *p),
            ),
{
    let ghost ps = projections@.map_values(|p: &Projection| *p);
    let mut ds: Vec<Diagnostic> = Vec::new();
    let mut i: usize = 0;
    while i < act.probes.len()
        invariant
            ps == projections@.map_values(|p: &Projection| *p),
            rs@.len() == act.probes@.len(),
            texts@.len() == projections@.len(),
            forall|p: int| 0 <= p < rs@.len() ==> (#[trigger] rs@[p]).overlaps@.len() == projections@.len(),
            i <= act.probes@.len(),
            activity_reports(ds@, keyframe_index, keyframe_date, *act, fields@, ps, texts@, rs@, i as int),
            forall|k: int| 0 <= k < ds@.len() ==> blame_within((#[trigger] ds@[k]).blame@, ps),
        decreases act.probes@.len() - i,
    {
        let ghost before = ds@;
        match probe_diagnostic(keyframe_index, keyframe_date, act, &act.probes[i], fields, &rs[i], projections, texts) {
            Some(d) => {
                proof {
                    lemma_blame_names_projections_in_effect(
                        d.blame@,
                        act.probes@[i as int],
                        *act,
                        ps,
                        texts@,
                        rs@[i as int].overlaps@,
                    );
                }
                ds.push(d);
                assert(ds@[ds@.len() - 1] == d);
                assert(ds@.drop_last() =~= before);
            },
            None => {},
        }
        i += 1;
    }
    ds
}

/// Whether every probe's reading covers the given number of projections in effect.
pub open spec fn readings_cover(readings: Seq<Vec<ProbeReading>>, n: int) -> bool {
    forall|a: int, p: int|
        0 <= a < readings.len() && 0 <= p < readings[a]@.len() ==> (#[trigger] readings[a]@[p]).overlaps@.len() == n
}

/// Check the probes of the active activities at a keyframe: each probe's
/// reading (`readings[a][p]` for probe `p` of active activity `a`) becomes a
/// diagnostic when the probe fails, blaming the projections in effect that
/// the reading says overlap the probe (`summaries[i]` sums up the contribution
/// of projection `i` in effect); the diagnostics come most severe first, each
/// level in activity and probe order.
pub fn check_probes(
    keyframe_index: usize,
    keyframe_date: DateTime,
    active_activities: &Vec<&Activity>,
    fields: &Vec<Field>,
    readings: &Vec<Vec<ProbeReading>>,
    summaries: &Vec<String>,
) -> (out: Vec<Diagnostic>)
    requires
        readings@.len() == active_activities@.len(),
        forall|a: int|
            0 <= a < readings@.len() ==> (#[trigger] readings@[a])@.len() == active_activities@[a].probes@.len(),
        summaries@.len() == spec_active_projections(active_activities@).len(),
        readings_cover(readings@, summaries@.len() as int),
    ensures
        exists|found: Seq<Diagnostic>|
            frame_reports(
                found,
                keyframe_index,
                keyframe_date,
                active_activities@,
                fields@,
                spec_active_projections(active_activities@),
                summaries@,
                readings@,
                active_activities@.len() as int,
            ) && out@ == by_severity(found),
        forall|k: int, e: int|
            0 <= k < out@.len() && 0 <= e < out@[k].blame@.len() ==> owned_by(
                #[trigger] out@[k].blame@[e],
                active_activities@,
            ),
{
    let projections = active_projections(active_activities);
    let ghost ps = projections@.map_values(|p: &Projection| *p);
    assert(projections@.len() == ps.len());
    let mut all: Vec<Diagnostic> = Vec::new();
    let mut a: usize = 0;
    while a < active_activities.len()
        invariant
            ps == projections@.map_values(|p: &Projection| *p),
            ps == spec_active_projections(active_activities@),
            summaries@.len() == projections@.len(),
            readings_cover(readings@, summaries@.len() as int),
            readings@.len() == active_activities@.len(),
            forall|b: int|
                0 <= b < readings@.len() ==> (#[trigger] readings@[b])@.len() == active_activities@[b].probes@.len(),
            a <= active_activities@.len(),
            forall|k: int| 0 <= k < all@.len() ==> blame_within((#[trigger] all@[k]).blame@, ps),
            frame_reports(
                all@,
                keyframe_index,
                keyframe_date,
                active_activities@,
                fields@,
                ps,
                summaries@,
                readings@,
                a as int,
            ),
        decreases active_activities@.len() - a,
    {
        let act: &Activity = active_activities[a];
        let ghost rs = readings@[a as int];
        assert(rs@.len() == act.probes@.len());
        assert forall|p: int| 0 <= p < rs@.len() implies (#[trigger] rs@[p]).overlaps@.len() == projections@.len() by {
            assert(readings@[a as int]@[p] == rs@[p]);
        }
        let mut ds = activity_diagnostics(keyframe_index, keyframe_date, act, fields, &readings[a], &projections, summaries);
        let ghost before = all@;
        let ghost added = ds@;
        all.append(&mut ds);
        proof {
            let k = before.len() as int;
            assert(all@.take(k) =~= before);
            assert(all@.skip(k) =~= added);
            assert forall|m: int| 0 <= m < all@.len() implies blame_within((#[trigger] all@[m]).blame@, ps) by {
                if m < k {
                    assert(all@[m] == before[m]);
                } else {
                    assert(all@[m] == added[m - k]);
                }
            }
        }
        a += 1;
    }
    let ghost found = all@;
    let out = sort_by_severity(all);
    proof {
        lemma_by_severity_multiset(found);
        lemma_in_effect_owned(active_activities@);
        assert forall|k: int, e: int| 0 <= k < out@.len() && 0 <= e < out@[k].blame@.len() implies owned_by(
            #[trigger] out@[k].blame@[e],
            active_activities@,
        ) by {
            broadcast use vstd::seq_lib::group_to_multiset_ensures;

            assert(out@.contains(out@[k]));
            assert(found.to_multiset().count(out@[k]) > 0);
            assert(found.contains(out@[k]));
            let m = choose|m: int| 0 <= m < found.len() && found[m] == out@[k];
            assert(blame_within(found[m].blame@, ps));
            let b = out@[k].blame@;
            let j = choose|j: int| 0 <= j < ps.len() && b[e].projection_id@ == ps[j].id@ && b[e].activity_id@
                == ps[j].parent_activity_id@;
            assert(projection_of(active_activities@, spec_active_projections(active_activities@)[j]));
            let (x, y) = choose|x: int, y: int|
                0 <= x < active_activities@.len() && 0 <= y < active_activities@[x].projections@.len()
                    && spec_active_projections(active_activities@)[j] == #[trigger] active_activities@[x].projections@[y];
            assert(active_activities@[x].projections@[y] == ps[j]);
        }
    }
    out
}

// ── The projections a keyframe sees ──

/// The projections in effect at a keyframe: those of the active activities,
/// activity by activity.
pub open spec fn spec_active_projections(active: Seq<&Activity>) -> Seq<Projection>
    decreases active.len(),
{
    if active.len() == 0 {
        Seq::empty()
    } else {
        spec_active_projections(active.drop_last()) + active.last().projections@
    }
}

/// Whether a blame entry names a projection of one of the given activities.
pub open spec fn owned_by(e: BlameEntry, active: Seq<&Activity>) -> bool {
    exists|a: int, j: int|
        0 <= a < active.len() && 0 <= j < active[a].projections@.len() && e.projection_id@
            == (#[trigger] active[a].projections@[j]).id@ && e.activity_id@ == active[a].projections@[j].parent_activity_id@
}

/// Whether a projection is one of the given activities' projections.
pub open spec fn projection_of(active: Seq<&Activity>, p: Projection) -> bool {
    exists|a: int, j: int|
        0 <= a < active.len() && 0 <= j < active[a].projections@.len() && p == #[trigger] active[a].projections@[j]
}

/// Every projection in effect is a projection of an active activity.
pub proof fn lemma_in_effect_owned(active: Seq<&Activity>)
    ensures
        forall|i: int|
            0 <= i < spec_active_projections(active).len() ==> projection_of(
                active,
                #[trigger] spec_active_projections(active)[i],
            ),
    decreases active.len(),
{
    if active.len() > 0 {
        let rest = active.drop_last();
        lemma_in_effect_owned(rest);
        let head = spec_active_projections(rest);
        let tail = active.last().projections@;
        let all = spec_active_projections(active);
        assert(all == head + tail);
        assert forall|i: int| 0 <= i < all.len() implies projection_of(active, #[trigger] all[i]) by {
            if i < head.len() {
                assert(all[i] == head[i]);
                assert(projection_of(rest, head[i]));
                let (a, j) = choose|a: int, j: int|
                    0 <= a < rest.len() && 0 <= j < rest[a].projections@.len() && head[i]
                        == #[trigger] rest[a].projections@[j];
                assert(rest[a] == active[a]);
                assert(all[i] == active[a].projections@[j]);
            } else {
                let a = active.len() - 1;
                assert(all[i] == active[a].projections@[i - head.len()]);
            }
        }
    }
}

/// The projections in effect at a keyframe: those of the active activities,
/// activity by activity, each in its declared order.
pub fn active_projections<'a>(active: &Vec<&'a Activity>) -> (r: Vec<&'a Projection>)
    ensures
        r@.map_values(|p: &Projection| *p) == spec_active_projections(active@),
{
    let mut r: Vec<&'a Projection> = Vec::new();
    let mut a: usize = 0;
    while a < active.len()
        invariant
            a <= active@.len(),
            r@.map_values(|p: &Projection| *p) == spec_active_projections(active@.take(a as int)),
        decreases active@.len() - a,
    {
        let act: &'a Activity = active[a];
        let ghost head = r@.map_values(|p: &Projection| *p);
        assert(active@.take(a + 1).drop_last() =~= active@.take(a as int));
        assert(active@.take(a + 1).last() == act);
        let mut j: usize = 0;
        while j < act.projections.len()
            invariant
                a < active@.len(),
                *act == *active@[a as int],
                j <= act.projections@.len(),
                r@.map_values(|p: &Projection| *p) == head + act.projections@.take(j as int),
            decreases act.projections@.len() - j,
        {
            let ghost before = r@.map_values(|p: &Projection| *p);
            r.push(&act.projections[j]);
            assert(r@.map_values(|p: &Projection| *p) =~= before.push(act.projections@[j as int]));
            assert(act.projections@.take(j + 1) =~= act.projections@.take(j as int).push(act.projections@[j as int]));
            j += 1;
        }
        assert(act.projections@.take(act.projections@.len() as int) =~= act.projections@);
        a += 1;
    }
    assert(active@.take(active@.len() as int) =~= active@);
    r
}

// ── Which projections feed a reading ──

/// Whether a contribution is of the kind a field of the given type takes.
pub open spec fn contributes_to(c: Contribution, t: FieldType) -> bool {
    match (c, t) {
        (Contribution::Capacity(_), FieldType::Capacity) => true,
        (Contribution::Occupancy { .. }, FieldType::Occupancy) => true,
        (Contribution::Scalar { .. }, FieldType::Scalar) => true,
        (Contribution::Presence(_), FieldType::Presence) => true,
        (Contribution::Rate(_), FieldType::Rate) => true,
        _ => false,
    }
}

/// The positions, among the first `n` projections, of those that overlap the
/// probe's region (`overlaps[i]`) and contribute to a field of type `t`, in order.
pub open spec fn feeding_positions(ps: Seq<Projection>, overlaps: Seq<bool>, t: FieldType, n: int) -> Seq<int>
    decreases n,
{
    if n <= 0 {
        Seq::empty()
    } else {
        feeding_positions(ps, overlaps, t, n - 1) + if overlaps[n - 1] && contributes_to(ps[n - 1].contribution, t) {
            seq![n - 1]
        } else {
            Seq::empty()
        }
    }
}

/// Whether a contribution is of the kind a field of the given type takes.
fn contribution_fits(c: &Contribution, t: FieldType) -> (r: bool)
    ensures
        r == contributes_to(*c, t),
{
    match (c, t) {
        (Contribution::Capacity(_), FieldType::Capacity) => true,
        (Contribution::Occupancy { .. }, FieldType::Occupancy) => true,
        (Contribution::Scalar { .. }, FieldType::Scalar) => true,
        (Contribution::Presence(_), FieldType::Presence) => true,
        (Contribution::Rate(_), FieldType::Rate) => true,
        _ => false,
    }
}

/// The positions of the projections in effect that feed a reading of a field
/// of type `t` at a probe: those overlapping its region (`overlaps[i]`,
/// measured by the caller) whose contribution is of that type's kind, in order.
pub fn feeding(projections: &Vec<&Projection>, overlaps: &Vec<bool>, t: FieldType) -> (out: Vec<usize>)
    requires
        overlaps@.len() == projections@.len(),
    ensures
        crate::hierarchy::positions(out@) == feeding_positions(
            projections@.map_values(|p: &Projection| *p),
            overlaps@,
            t,
            projections@.len() as int,
        ),
{
    let ghost ps = projections@.map_values(|p: &Projection| *p);
    let mut out: Vec<usize> = Vec::new();
    let mut i: usize = 0;
    while i < projections.len()
        invariant
            ps == projections@.map_values(|p: &Projection| *p),
            overlaps@.len() == projections@.len(),
            i <= projections@.len(),
            crate::hierarchy::positions(out@) == feeding_positions(ps, overlaps@, t, i as int),
        decreases projections@.len() - i,
    {
        assert(ps[i as int] == *projections@[i as int]);
        let ghost before = out@;
        if overlaps[i] && contribution_fits(&projections[i].contribution, t) {
            out.push(i);
            assert(crate::hierarchy::positions(out@) =~= crate::hierarchy::positions(before).push(i as int));
        }
        i += 1;
    }
    out
}

/// The projections on a field, in order.
pub fn projections_on_field<'a>(projections: &Vec<&'a Projection>, field_name: &String) -> (out: Vec<&'a Projection>)
    ensures
        out@.map_values(|p: &Projection| *p) == projections@.map_values(|p: &Projection| *p).filter(
            |p: Projection| p.field_name@ == field_name@,
        ),
{
    let ghost ps = projections@.map_values(|p: &Projection| *p);
    let ghost f = |p: Projection| p.field_name@ == field_name@;
    let mut out: Vec<&'a Projection> = Vec::new();
    let mut i: usize = 0;
    while i < projections.len()
        invariant
            ps == projections@.map_values(|p: &Projection| *p),
            f == (|p: Projection| p.field_name@ == field_name@),
            i <= projections@.len(),
            out@.map_values(|p: &Projection| *p) == ps.take(i as int).filter(f),
        decreases projections@.len() - i,
    {
        let p: &'a Projection = projections[i];
        let ghost before = out@.map_values(|p: &Projection| *p);
        proof {
            reveal_with_fuel(Seq::<_>::filter, 1);
            assert(ps.take(i + 1).drop_last() =~= ps.take(i as int));
            assert(ps.take(i + 1).last() == *p);
        }
        if text_eq(&p.field_name, field_name) {
            out.push(p);
            assert(out@.map_values(|p: &Projection| *p) =~= before.push(*p));
        }
        i += 1;
    }
    assert(ps.take(projections@.len() as int) =~= ps);
    out
}

} // verus!
