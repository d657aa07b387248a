//! The occupancy an emptiness probe sees: which projections may occupy it
//! and which kind of overlap is the most severe.
use vstd::prelude::*;

use crate::dependency::{find_last_with_id, last_with_id};
use crate::model::{Activity, Contribution, Projection};
use crate::schema::OccupancyKind;
use crate::text::{opt_view, text_eq};

verus! {

/// The series of the last activity with the given ID, if it has one.
pub open spec fn series_of(acts: Seq<Activity>, id: Seq<char>) -> Option<Seq<char>> {
    let p = last_with_id(acts, id);
    if p < 0 {
        None
    } else {
        opt_view(acts[p].series)
    }
}

/// Whether a projection is left out of the occupancy a probe of the given
/// activity sees: it belongs to that activity, or to an activity of the same
/// series.
pub open spec fn excluded(p: Projection, self_id: Seq<char>, series: Option<Seq<char>>, acts: Seq<Activity>) -> bool {
    p.parent_activity_id@ == self_id || (series is Some && series_of(acts, p.parent_activity_id@) == series)
}

/// Whether an occupancy projection of the given kind reaches a probe: its
/// box overlaps the probe's region (`overlap`), its shape meets the probe's
/// (`exact`), and, for a soft projection only, no barrier stands between
/// them (`occluded`).
pub open spec fn spec_reaches(overlap: bool, exact: bool, kind: OccupancyKind, occluded: bool) -> bool {
    overlap && exact && !(kind == OccupancyKind::Soft && occluded)
}

/// Whether an occupancy projection of the given kind reaches a probe, given
/// the geometric tests measured by the caller. A barrier hides only a soft
/// projection: a hard one that overlaps and meets the probe always reaches it.
pub fn reaches(overlap: bool, exact: bool, kind: OccupancyKind, occluded: bool) -> (r: bool)
    ensures
        r == spec_reaches(overlap, exact, kind, occluded),
        kind == OccupancyKind::Hard ==> r == (overlap && exact),
{
    overlap && exact && !(kind == OccupancyKind::Soft && occluded)
}

/// Whether projection `i` occupies the probe with the given kind: it reaches
/// the probe, is not left out, and occupies with that kind.
pub open spec fn occupies(
    projections: Seq<&Projection>,
    reaches: Seq<bool>,
    i: int,
    self_id: Seq<char>,
    series: Option<Seq<char>>,
    acts: Seq<Activity>,
    kind: OccupancyKind,
) -> bool {
    &&& reaches[i]
    &&& !excluded(*projections[i], self_id, series, acts)
    &&& projections[i].contribution == Contribution::Occupancy { kind }
}

/// Whether some projection occupies the probe with the given kind.
pub open spec fn any_occupies(
    projections: Seq<&Projection>,
    reaches: Seq<bool>,
    self_id: Seq<char>,
    series: Option<Seq<char>>,
    acts: Seq<Activity>,
    kind: OccupancyKind,
) -> bool {
    exists|i: int| 0 <= i < projections.len() && #[trigger] occupies(projections, reaches, i, self_id, series, acts, kind)
}

/// The most severe occupancy: hard when any projection occupies hard, else
/// soft when any occupies soft, else none.
pub open spec fn spec_worst_occupancy(
    projections: Seq<&Projection>,
    reaches: Seq<bool>,
    self_id: Seq<char>,
    series: Option<Seq<char>>,
    acts: Seq<Activity>,
) -> Option<OccupancyKind> {
    if any_occupies(projections, reaches, self_id, series, acts, OccupancyKind::Hard) {
        Some(OccupancyKind::Hard)
    } else if any_occupies(projections, reaches, self_id, series, acts, OccupancyKind::Soft) {
        Some(OccupancyKind::Soft)
    } else {
        None
    }
}

/// Whether a projection is left out of a probe's occupancy.
fn is_excluded(p: &Projection, self_id: &String, series: &Option<String>, acts: &Vec<Activity>) -> (r: bool)
    ensures
        r == excluded(*p, self_id@, opt_view(*series), acts@),
{
    if text_eq(&p.parent_activity_id, self_id) {
        return true;
    }
    match series {
        None => false,
        Some(sid) => match find_last_with_id(acts, &p.parent_activity_id) {
            None => false,
            Some(k) => match &acts[k].series {
                None => false,
                Some(other) => text_eq(other, sid),
            },
        },
    }
}

/// The most severe occupancy kind among the active projections reaching an
/// emptiness probe of an activity (`reaches[i]` tells whether projection `i`
/// overlaps the probe and is not hidden behind a barrier), leaving out those
/// of the activity itself and of the other activities of its series.
pub fn worst_occupancy(
    projections: &Vec<&Projection>,
    reaches: &Vec<bool>,
    self_id: &String,
    series: &Option<String>,
    acts: &Vec<Activity>,
) -> (r: Option<OccupancyKind>)
    requires
        reaches@.len() == projections@.len(),
    ensures
        r == spec_worst_occupancy(projections@, reaches@, self_id@, opt_view(*series), acts@),
{
    let ghost sv = opt_view(*series);
    let mut soft: Option<usize> = None;
    let mut i: usize = 0;
    while i < projections.len()
        invariant
            reaches@.len() == projections@.len(),
            sv == opt_view(*series),
            i <= projections@.len(),
            forall|j: int|
                0 <= j < i ==> !#[trigger] occupies(projections@, reaches@, j, self_id@, sv, acts@, OccupancyKind::Hard),
            match soft {
                Some(j) => j < i && occupies(projections@, reaches@, j as int, self_id@, sv, acts@, OccupancyKind::Soft),
                None => forall|j: int|
                    0 <= j < i ==> !#[trigger] occupies(projections@, reaches@, j, self_id@, sv, acts@, OccupancyKind::Soft),
            },
        decreases projections@.len() - i,
    {
        let p: &Projection = projections[i];
        if reaches[i] && !is_excluded(p, self_id, series, acts) {
            match &p.contribution {
                Contribution::Occupancy { kind: OccupancyKind::Hard } => {
                    assert(occupies(projections@, reaches@, i as int, self_id@, sv, acts@, OccupancyKind::Hard));
                    return Some(OccupancyKind::Hard);
                },
                Contribution::Occupancy { kind: OccupancyKind::Soft } => {
                    soft = Some(i);
                },
                _ => {},
            }
        }
        i += 1;
    }
    match soft {
        Some(j) => {
            assert(occupies(projections@, reaches@, j as int, self_id@, sv, acts@, OccupancyKind::Soft));
            Some(OccupancyKind::Soft)
        },
        None => None,
    }
}

/// A probe never sees the projections of its own activity, nor those of the
/// other activities of its series: when only such projections reach it, it
/// is vacant.
pub proof fn lemma_own_projections_never_occupy(
    projections: Seq<&Projection>,
    reaches: Seq<bool>,
    self_id: Seq<char>,
    series: Option<Seq<char>>,
    acts: Seq<Activity>,
)
    requires
        forall|i: int| 0 <= i < projections.len() && #[trigger] reaches[i] ==> excluded(*projections[i], self_id, series, acts),
    ensures
        spec_worst_occupancy(projections, reaches, self_id, series, acts) is None,
{
}

/// A hard overlap dominates: whenever some projection occupies hard, the
/// probe sees a hard overlap, whatever soft ones there are.
pub proof fn lemma_hard_dominates(
    projections: Seq<&Projection>,
    reaches: Seq<bool>,
    self_id: Seq<char>,
    series: Option<Seq<char>>,
    acts: Seq<Activity>,
    i: int,
)
    requires
        0 <= i < projections.len(),
        occupies(projections, reaches, i, self_id, series, acts, OccupancyKind::Hard),
    ensures
        spec_worst_occupancy(projections, reaches, self_id, series, acts) == Some(OccupancyKind::Hard),
{
}

} // verus!
