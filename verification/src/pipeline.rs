//! The outcome of compiling a document and the schedule it spans.
use vstd::prelude::*;

use crate::diagnostic::Diagnostic;
use crate::error::{fails_with, CpmlError, Failure};
use crate::expand::{expand_activity, expanded, expansion_failure};
use crate::metric::MetricSeries;
use crate::model::{Activity, CpmlModel, Geometry};
use crate::resolve::{document_failure, model_resolved, resolve, spec_fields};
use crate::schema::CpmlDocument;
use crate::time::{days_between, whole_days_between, DateTime};

verus! {

/// The result of running the full compiler pipeline.
#[derive(Debug)]
pub struct PipelineResult {
    pub model: CpmlModel,
    pub diagnostics: Vec<Diagnostic>,
    /// Metric time series computed from the diagnostics.
    pub metrics: Vec<MetricSeries>,
    /// Whole days from the earliest start to the latest end of all activities.
    pub schedule_duration: i64,
}

/// The earliest start among a non-empty list of activities.
pub open spec fn earliest_start(acts: Seq<Activity>) -> int
    decreases acts.len(),
{
    if acts.len() <= 1 {
        acts[0].timespan.start.secs as int
    } else {
        let rest = earliest_start(acts.drop_last());
        let s = acts.last().timespan.start.secs as int;
        if s < rest { s } else { rest }
    }
}

/// The latest end among a non-empty list of activities.
pub open spec fn latest_end(acts: Seq<Activity>) -> int
    decreases acts.len(),
{
    if acts.len() <= 1 {
        acts[0].timespan.end.secs as int
    } else {
        let rest = latest_end(acts.drop_last());
        let e = acts.last().timespan.end.secs as int;
        if e > rest { e } else { rest }
    }
}

/// Whole days from the earliest start to the latest end, or 0 without activities.
pub open spec fn spec_schedule_duration(acts: Seq<Activity>) -> int {
    if acts.len() == 0 {
        0
    } else {
        whole_days_between(earliest_start(acts), latest_end(acts))
    }
}

/// The project's wall-clock duration in whole days: from the earliest start to
/// the latest end across all activities (0 when there are none).
pub fn schedule_duration(activities: &Vec<Activity>) -> (days: i64)
    ensures
        days == spec_schedule_duration(activities@),
{
    if activities.len() == 0 {
        return 0;
    }
    let mut min_start: i64 = activities[0].timespan.start.secs;
    let mut max_end: i64 = activities[0].timespan.end.secs;
    let mut i: usize = 1;
    while i < activities.len()
        invariant
            1 <= i <= activities@.len(),
            min_start == earliest_start(activities@.take(i as int)),
            max_end == latest_end(activities@.take(i as int)),
        decreases activities@.len() - i,
    {
        assert(activities@.take(i + 1).drop_last() =~= activities@.take(i as int));
        let s = activities[i].timespan.start.secs;
        let e = activities[i].timespan.end.secs;
        if s < min_start {
            min_start = s;
        }
        if e > max_end {
            max_end = e;
        }
        i += 1;
    }
    assert(activities@.take(i as int) =~= activities@);
    days_between(DateTime { secs: min_start }, DateTime { secs: max_end })
}

/// The first error among expanding the sugar of the document's first `n` activities.
pub open spec fn expansions_failure(doc: CpmlDocument, n: int) -> Option<Failure>
    decreases n,
{
    if n <= 0 {
        None
    } else {
        match expansions_failure(doc, n - 1) {
            Some(f) => Some(f),
            None => expansion_failure(doc.activities@[n - 1], spec_fields(doc.fields@), doc.geometries@),
        }
    }
}

/// Whether `m` is the model `base` with the sugar of every activity expanded.
pub open spec fn model_expanded(base: CpmlModel, m: CpmlModel, doc: CpmlDocument, geoms: Seq<Geometry>) -> bool {
    &&& m.version == base.version
    &&& m.name == base.name
    &&& m.description == base.description
    &&& m.fields == base.fields
    &&& m.barriers == base.barriers
    &&& m.region_hierarchy == base.region_hierarchy
    &&& m.activities@.len() == base.activities@.len()
    &&& forall|i: int|
        0 <= i < m.activities@.len() ==> expanded(
            base.activities@[i],
            #[trigger] m.activities@[i],
            doc.activities@[i],
            base.fields@,
            doc.geometries@,
            geoms,
        )
}

proof fn lemma_expansions_failure_stable(doc: CpmlDocument, k: int, n: int)
    requires
        0 <= k <= n,
        expansions_failure(doc, k) is Some,
    ensures
        expansions_failure(doc, n) == expansions_failure(doc, k),
    decreases n - k,
{
    if n > k {
        lemma_expansions_failure_stable(doc, k, n - 1);
    }
}

/// Resolve a document into a model and expand the collision, structure and
/// demand sugar of every activity, in document order: the first error of
/// resolution, else the first error of expansion, else the expanded model.
pub fn build_model(doc: &CpmlDocument, geometries: &Vec<Geometry>, region_keys: &Vec<String>) -> (r: Result<
    CpmlModel,
    CpmlError,
>)
    requires
        geometries@.len() == doc.geometries@.len(),
        region_keys@.len() == doc.geometries@.len(),
    ensures
        document_failure(*doc, region_keys@.map_values(|k: String| k@)) matches Some(f) ==> (r matches Err(e)
            && fails_with(e, f)),
        document_failure(*doc, region_keys@.map_values(|k: String| k@)) is None ==> match expansions_failure(*doc, doc.activities@.len() as int) {
            Some(f) => r matches Err(e) && fails_with(e, f),
            None => r matches Ok(m) && exists|base: CpmlModel|
                model_resolved(base, *doc, geometries@, region_keys@.map_values(|k: String| k@))
                    && #[trigger] model_expanded(base, m, *doc, geometries@),
        },
{
    let base = resolve(doc, geometries, region_keys)?;
    let ghost base_model = base;
    let CpmlModel { version, name, description, fields, activities, barriers, region_hierarchy } = base;
    let n = activities.len();
    let mut rest = activities;
    let mut done: Vec<Activity> = Vec::new();
    let mut i: usize = 0;
    assert(rest@ =~= base_model.activities@.skip(0));
    while i < n
        invariant
            document_failure(*doc, region_keys@.map_values(|k: String| k@)) is None,
            n == doc.activities@.len(),
            n == base_model.activities@.len(),
            geometries@.len() == doc.geometries@.len(),
            fields == base_model.fields,
            base_model.fields@ == spec_fields(doc.fields@),
            i <= n,
            rest@ == base_model.activities@.skip(i as int),
            expansions_failure(*doc, i as int) is None,
            done@.len() == i,
            forall|j: int|
                0 <= j < i ==> expanded(
                    base_model.activities@[j],
                    #[trigger] done@[j],
                    doc.activities@[j],
                    base_model.fields@,
                    doc.geometries@,
                    geometries@,
                ),
        decreases n - i,
    {
        let mut a = rest.remove(0);
        assert(a == base_model.activities@[i as int]);
        assert(rest@ =~= base_model.activities@.skip(i + 1));
        match expand_activity(&mut a, &doc.activities[i], &fields, &doc.geometries, geometries) {
            Ok(()) => {},
            Err(e) => {
                proof {
                    lemma_expansions_failure_stable(*doc, i + 1, n as int);
                }
                return Err(e);
            },
        }
        done.push(a);
        i += 1;
    }
    let m = CpmlModel { version, name, description, fields, activities: done, barriers, region_hierarchy };
    assert(model_expanded(base_model, m, *doc, geometries@));
    Ok(m)
}

/// The schedule spans from the earliest start to the latest end: its
/// duration is the whole days between the start of one activity and the end
/// of one activity, where no activity starts earlier and none ends later.
pub proof fn lemma_schedule_spans_all_activities(acts: Seq<Activity>)
    requires
        acts.len() > 0,
    ensures
        exists|i: int, j: int|
            0 <= i < acts.len() && 0 <= j < acts.len() && spec_schedule_duration(acts) == whole_days_between(
                acts[i].timespan.start.secs as int,
                acts[j].timespan.end.secs as int,
            ) && (forall|k: int|
                0 <= k < acts.len() ==> acts[i].timespan.start.secs <= (#[trigger] acts[k]).timespan.start.secs
                    && acts[k].timespan.end.secs <= acts[j].timespan.end.secs),
{
    lemma_earliest_start(acts);
    lemma_latest_end(acts);
    let i = choose|i: int| 0 <= i < acts.len() && earliest_start(acts) == acts[i].timespan.start.secs;
    let j = choose|j: int| 0 <= j < acts.len() && latest_end(acts) == acts[j].timespan.end.secs;
    assert(spec_schedule_duration(acts) == whole_days_between(
        acts[i].timespan.start.secs as int,
        acts[j].timespan.end.secs as int,
    ));
}

/// The earliest start is some activity's start, and no activity starts earlier.
proof fn lemma_earliest_start(acts: Seq<Activity>)
    requires
        acts.len() > 0,
    ensures
        exists|i: int| 0 <= i < acts.len() && earliest_start(acts) == acts[i].timespan.start.secs,
        forall|k: int| 0 <= k < acts.len() ==> earliest_start(acts) <= (#[trigger] acts[k]).timespan.start.secs,
    decreases acts.len(),
{
    if acts.len() == 1 {
        assert(earliest_start(acts) == acts[0].timespan.start.secs);
    } else {
        let rest = acts.drop_last();
        lemma_earliest_start(rest);
        let i = choose|i: int| 0 <= i < rest.len() && earliest_start(rest) == rest[i].timespan.start.secs;
        assert(rest[i] == acts[i]);
        assert forall|k: int| 0 <= k < acts.len() implies earliest_start(acts) <= (#[trigger] acts[k]).timespan.start.secs by {
            if k < rest.len() {
                assert(rest[k] == acts[k]);
            }
        }
        if acts.last().timespan.start.secs < earliest_start(rest) {
            assert(earliest_start(acts) == acts[acts.len() - 1].timespan.start.secs);
        } else {
            assert(earliest_start(acts) == acts[i].timespan.start.secs);
        }
    }
}

/// The latest end is some activity's end, and no activity ends later.
proof fn lemma_latest_end(acts: Seq<Activity>)
    requires
        acts.len() > 0,
    ensures
        exists|j: int| 0 <= j < acts.len() && latest_end(acts) == acts[j].timespan.end.secs,
        forall|k: int| 0 <= k < acts.len() ==> (#[trigger] acts[k]).timespan.end.secs <= latest_end(acts),
    decreases acts.len(),
{
    if acts.len() == 1 {
        assert(latest_end(acts) == acts[0].timespan.end.secs);
    } else {
        let rest = acts.drop_last();
        lemma_latest_end(rest);
        let j = choose|j: int| 0 <= j < rest.len() && latest_end(rest) == rest[j].timespan.end.secs;
        assert(rest[j] == acts[j]);
        assert forall|k: int| 0 <= k < acts.len() implies (#[trigger] acts[k]).timespan.end.secs <= latest_end(acts) by {
            if k < rest.len() {
                assert(rest[k] == acts[k]);
            }
        }
        if acts.last().timespan.end.secs > latest_end(rest) {
            assert(latest_end(acts) == acts[acts.len() - 1].timespan.end.secs);
        } else {
            assert(latest_end(acts) == acts[j].timespan.end.secs);
        }
    }
}
} // verus!
