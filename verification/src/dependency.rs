//! Checking the finish/start dependencies between activities at each keyframe.
use vstd::prelude::*;

use crate::diagnostic::Diagnostic;
use crate::keyframe::Keyframe;
use crate::model::{Activity, Dependency, DependencyKind, Timespan};
use crate::schema::DiagnosticLevel;
use crate::text::{cat3, cat7, decimal, decimal_text};
use crate::time::{datetime_text, display_datetime, DateTime, EARLIEST_SECS, LATEST_SECS};

verus! {

/// An instant moved by a number of days.
pub open spec fn lagged(base: DateTime, lag_days: i64) -> int {
    base.secs + lag_days * 86400
}

/// The predecessor instant a dependency measures from: the predecessor's end
/// for finish-to-start and finish-to-finish, its start otherwise.
pub open spec fn dependency_base(kind: DependencyKind, pred: Timespan) -> DateTime {
    match kind {
        DependencyKind::FS | DependencyKind::FF => pred.end,
        DependencyKind::SS | DependencyKind::SF => pred.start,
    }
}

/// Whether a dependency is violated at instant `t`:
/// FS: the successor is active before the predecessor's end plus lag;
/// SS: the successor is active before the predecessor's start plus lag;
/// FF: the successor has ended but the predecessor's end plus lag is still ahead;
/// SF: the successor has ended but the predecessor's start plus lag is still ahead.
pub open spec fn dependency_violated(kind: DependencyKind, pred: Timespan, succ: Timespan, lag_days: i64, t: DateTime) -> bool {
    let limit = lagged(dependency_base(kind, pred), lag_days);
    match kind {
        DependencyKind::FS | DependencyKind::SS => succ.spec_contains(t) && t.secs < limit,
        DependencyKind::FF | DependencyKind::SF => t.secs >= succ.end.secs && t.secs < limit,
    }
}

/// The position of the last activity with the given ID, or -1.
pub open spec fn last_with_id(acts: Seq<Activity>, id: Seq<char>) -> int
    decreases acts.len(),
{
    if acts.len() == 0 {
        -1
    } else if acts.last().id@ == id {
        acts.len() - 1
    } else {
        last_with_id(acts.drop_last(), id)
    }
}

/// A schedule that keeps a dependency is never reported for it: when the
/// successor starts (FS, SS) or ends (FF, SF) no earlier than the
/// predecessor's end (FS, FF) or start (SS, SF) plus the lag, no instant
/// violates it.
pub proof fn lemma_kept_dependency_never_violated(
    kind: DependencyKind,
    pred: Timespan,
    succ: Timespan,
    lag_days: i64,
    t: DateTime,
)
    requires
        match kind {
            DependencyKind::FS | DependencyKind::SS => succ.start.secs >= lagged(dependency_base(kind, pred), lag_days),
            DependencyKind::FF | DependencyKind::SF => succ.end.secs >= lagged(dependency_base(kind, pred), lag_days),
        },
    ensures
        !dependency_violated(kind, pred, succ, lag_days, t),
{
}

/// Whether dependency `j` of activity `i` is violated at keyframe `k`.
pub open spec fn violation_at(acts: Seq<Activity>, kfs: Seq<Keyframe>, i: int, j: int, k: int) -> bool {
    let dep = acts[i].depends_on@[j];
    let p = last_with_id(acts, dep.activity_id@);
    p >= 0 && dependency_violated(dep.kind, acts[p].timespan, acts[i].timespan, dep.lag_days, kfs[k].date)
}

/// Violations of dependency `j` of activity `i` at the first `n` keyframes.
pub open spec fn violations_over_keyframes(acts: Seq<Activity>, kfs: Seq<Keyframe>, i: int, j: int, n: int) -> Seq<(int, int, int)>
    decreases n,
{
    if n <= 0 {
        Seq::empty()
    } else {
        violations_over_keyframes(acts, kfs, i, j, n - 1) + if violation_at(acts, kfs, i, j, n - 1) {
            seq![(i, j, n - 1)]
        } else {
            Seq::empty()
        }
    }
}

/// Violations of the first `m` dependencies of activity `i`, keyframe by keyframe.
pub open spec fn violations_over_dependencies(acts: Seq<Activity>, kfs: Seq<Keyframe>, i: int, m: int) -> Seq<(int, int, int)>
    decreases m,
{
    if m <= 0 {
        Seq::empty()
    } else {
        violations_over_dependencies(acts, kfs, i, m - 1) + violations_over_keyframes(acts, kfs, i, m - 1, kfs.len() as int)
    }
}

/// Violations of the first `n` activities' dependencies, activity by activity.
pub open spec fn violations_over_activities(acts: Seq<Activity>, kfs: Seq<Keyframe>, n: int) -> Seq<(int, int, int)>
    decreases n,
{
    if n <= 0 {
        Seq::empty()
    } else {
        violations_over_activities(acts, kfs, n - 1) + violations_over_dependencies(
            acts,
            kfs,
            n - 1,
            acts[n - 1].depends_on@.len() as int,
        )
    }
}

/// All violations as (activity, dependency, keyframe) positions, in the order
/// activity, then dependency, then keyframe.
pub open spec fn dependency_violations(acts: Seq<Activity>, kfs: Seq<Keyframe>) -> Seq<(int, int, int)> {
    violations_over_activities(acts, kfs, acts.len() as int)
}

/// The label of a dependency kind.
pub open spec fn kind_label(kind: DependencyKind) -> Seq<char> {
    match kind {
        DependencyKind::FS => "FS"@,
        DependencyKind::SS => "SS"@,
        DependencyKind::FF => "FF"@,
        DependencyKind::SF => "SF"@,
    }
}

/// The message of a dependency violation.
pub open spec fn dependency_message(dep: Dependency, pred: Timespan) -> Seq<char> {
    "Dependency violation: "@ + kind_label(dep.kind) + " constraint on '"@ + dep.activity_id@ + "' (lag "@
        + decimal(dep.lag_days as int) + " days). Predecessor timespan: "@ + datetime_text(pred.start) + ".."@
        + datetime_text(pred.end)
}

/// Whether a diagnostic reports violation `v` = (activity, dependency, keyframe).
pub open spec fn reports_violation(d: Diagnostic, acts: Seq<Activity>, kfs: Seq<Keyframe>, v: (int, int, int)) -> bool {
    let a = acts[v.0];
    let dep = a.depends_on@[v.1];
    let p = last_with_id(acts, dep.activity_id@);
    &&& d.keyframe_index == kfs[v.2].index
    &&& d.keyframe_date == kfs[v.2].date
    &&& d.activity_id@ == a.id@
    &&& d.probe_id@ == a.id@ + "/dep_"@ + dep.activity_id@
    &&& d.level == DiagnosticLevel::Error
    &&& d.message@ == dependency_message(dep, acts[p].timespan)
    &&& d.blame@.len() == 0
    &&& d.series_id == a.series
}

/// Whether every lagged predecessor instant stays within chrono's range
/// (chrono panics when adding the lag overflows it).
pub open spec fn lags_in_range(acts: Seq<Activity>) -> bool {
    forall|i: int, j: int|
        0 <= i < acts.len() && 0 <= j < acts[i].depends_on@.len() && last_with_id(acts, #[trigger] acts[i].depends_on@[j].activity_id@) >= 0
        ==> {
            let dep = acts[i].depends_on@[j];
            let base = dependency_base(dep.kind, acts[last_with_id(acts, dep.activity_id@)].timespan);
            &&& EARLIEST_SECS <= base.secs <= LATEST_SECS
            &&& EARLIEST_SECS <= lagged(base, dep.lag_days) <= LATEST_SECS
        }
}

/// Whether dependency `j` of activity `i` measures from an instant that, lag
/// added, stays within chrono's range (or names no known activity).
pub open spec fn lag_fits(acts: Seq<Activity>, i: int, j: int) -> bool {
    let dep = acts[i].depends_on@[j];
    last_with_id(acts, dep.activity_id@) >= 0 ==> {
        let base = dependency_base(dep.kind, acts[last_with_id(acts, dep.activity_id@)].timespan);
        &&& EARLIEST_SECS <= base.secs <= LATEST_SECS
        &&& EARLIEST_SECS <= lagged(base, dep.lag_days) <= LATEST_SECS
    }
}

/// Whether every dependency's lagged predecessor instant stays within
/// chrono's range, so that dependencies can be checked.
pub fn lags_fit(activities: &Vec<Activity>) -> (r: bool)
    ensures
        r == lags_in_range(activities@),
{
    let ghost acts = activities@;
    let mut i: usize = 0;
    while i < activities.len()
        invariant
            acts == activities@,
            i <= acts.len(),
            forall|a: int, b: int| 0 <= a < i && 0 <= b < acts[a].depends_on@.len() ==> #[trigger] lag_fits(acts, a, b),
        decreases acts.len() - i,
    {
        let mut j: usize = 0;
        while j < activities[i].depends_on.len()
            invariant
                acts == activities@,
                i < acts.len(),
                j <= acts[i as int].depends_on@.len(),
                forall|a: int, b: int| 0 <= a < i && 0 <= b < acts[a].depends_on@.len() ==> #[trigger] lag_fits(acts, a, b),
                forall|b: int| 0 <= b < j ==> #[trigger] lag_fits(acts, i as int, b),
            decreases acts[i as int].depends_on@.len() - j,
        {
            let dep = &activities[i].depends_on[j];
            match find_last_with_id(activities, &dep.activity_id) {
                None => {},
                Some(p) => {
                    let pred = &activities[p].timespan;
                    let base = match dep.kind {
                        DependencyKind::FS | DependencyKind::FF => pred.end,
                        DependencyKind::SS | DependencyKind::SF => pred.start,
                    };
                    if base.secs < EARLIEST_SECS || base.secs > LATEST_SECS {
                        assert(!lag_fits(acts, i as int, j as int));
                        return false;
                    }
                    let limit: i128 = base.secs as i128 + dep.lag_days as i128 * 86400;
                    if limit < EARLIEST_SECS as i128 || limit > LATEST_SECS as i128 {
                        assert(!lag_fits(acts, i as int, j as int));
                        return false;
                    }
                },
            }
            assert(lag_fits(acts, i as int, j as int));
            j += 1;
        }
        i += 1;
    }
    assert forall|a: int, b: int|
        0 <= a < acts.len() && 0 <= b < acts[a].depends_on@.len() && last_with_id(
            acts,
            #[trigger] acts[a].depends_on@[b].activity_id@,
        ) >= 0 implies {
        let dep = acts[a].depends_on@[b];
        let base = dependency_base(dep.kind, acts[last_with_id(acts, dep.activity_id@)].timespan);
        &&& EARLIEST_SECS <= base.secs <= LATEST_SECS
        &&& EARLIEST_SECS <= lagged(base, dep.lag_days) <= LATEST_SECS
    } by {
        assert(lag_fits(acts, a, b));
    }
    true
}

/// The last position with an ID lies within the list, or is -1.
pub proof fn lemma_last_with_id_bounds(acts: Seq<Activity>, id: Seq<char>)
    ensures
        -1 <= last_with_id(acts, id) < acts.len(),
        last_with_id(acts, id) >= 0 ==> acts[last_with_id(acts, id)].id@ == id,
    decreases acts.len(),
{
    if acts.len() > 0 && acts.last().id@ != id {
        lemma_last_with_id_bounds(acts.drop_last(), id);
    }
}

/// The position of the last activity with the given ID.
pub(crate) fn find_last_with_id(acts: &Vec<Activity>, id: &String) -> (r: Option<usize>)
    ensures
        match r {
            Some(p) => p as int == last_with_id(acts@, id@) && p < acts@.len(),
            None => last_with_id(acts@, id@) == -1,
        },
{
    let mut i: usize = acts.len();
    assert(acts@.take(acts@.len() as int) =~= acts@);
    while i > 0
        invariant
            i <= acts@.len(),
            last_with_id(acts@, id@) == last_with_id(acts@.take(i as int), id@),
        decreases i,
    {
        assert(acts@.take(i as int).drop_last() =~= acts@.take(i - 1));
        if crate::text::text_eq(&acts[i - 1].id, id) {
            proof {
                lemma_last_with_id_bounds(acts@, id@);
            }
            return Some(i - 1);
        }
        i -= 1;
    }
    proof {
        assert(acts@.take(0) =~= Seq::<Activity>::empty());
    }
    None
}

/// The message of a dependency violation.
fn violation_message(dep: &Dependency, pred: &Timespan) -> (s: String)
    ensures
        s@ == dependency_message(*dep, *pred),
{
    let label = match dep.kind {
        DependencyKind::FS => "FS",
        DependencyKind::SS => "SS",
        DependencyKind::FF => "FF",
        DependencyKind::SF => "SF",
    };
    let head = cat7(
        "Dependency violation: ",
        label,
        " constraint on '",
        dep.activity_id.as_str(),
        "' (lag ",
        decimal_text(dep.lag_days).as_str(),
        " days). Predecessor timespan: ",
    );
    let start_text = display_datetime(pred.start);
    let end_text = display_datetime(pred.end);
    head.concat(start_text.as_str()).concat("..").concat(end_text.as_str())
}

/// Check all activity dependency constraints at every keyframe and report each
/// violation as an error, in the order activity, dependency, keyframe.
/// A dependency on an unknown activity is skipped; the predecessor is the last
/// activity with the referenced ID.
pub fn check_dependencies(activities: &Vec<Activity>, keyframes: &Vec<Keyframe>) -> (out: Vec<Diagnostic>)
    requires
        keyframes@.len() > 0 ==> lags_in_range(activities@),
    ensures
        out@.len() == dependency_violations(activities@, keyframes@).len(),
        forall|n: int|
            0 <= n < out@.len() ==> reports_violation(
                #[trigger] out@[n],
                activities@,
                keyframes@,
                dependency_violations(activities@, keyframes@)[n],
            ),
{
    let ghost acts = activities@;
    let ghost kfs = keyframes@;
    let mut out: Vec<Diagnostic> = Vec::new();
    let mut i: usize = 0;
    while i < activities.len()
        invariant
            acts == activities@,
            kfs == keyframes@,
            keyframes@.len() > 0 ==> lags_in_range(acts),
            i <= acts.len(),
            out@.len() == violations_over_activities(acts, kfs, i as int).len(),
            forall|n: int|
                0 <= n < out@.len() ==> reports_violation(
                    #[trigger] out@[n],
                    acts,
                    kfs,
                    violations_over_activities(acts, kfs, i as int)[n],
                ),
        decreases acts.len() - i,
    {
        let activity = &activities[i];
        let mut j: usize = 0;
        while j < activity.depends_on.len()
            invariant
                acts == activities@,
                kfs == keyframes@,
                keyframes@.len() > 0 ==> lags_in_range(acts),
                i < acts.len(),
                *activity == acts[i as int],
                j <= activity.depends_on@.len(),
                out@.len() == (violations_over_activities(acts, kfs, i as int) + violations_over_dependencies(
                    acts,
                    kfs,
                    i as int,
                    j as int,
                )).len(),
                forall|n: int|
                    0 <= n < out@.len() ==> reports_violation(
                        #[trigger] out@[n],
                        acts,
                        kfs,
                        (violations_over_activities(acts, kfs, i as int) + violations_over_dependencies(
                            acts,
                            kfs,
                            i as int,
                            j as int,
                        ))[n],
                    ),
            decreases activity.depends_on@.len() - j,
        {
            let dep = &activity.depends_on[j];
            let ghost prefix = violations_over_activities(acts, kfs, i as int) + violations_over_dependencies(
                acts,
                kfs,
                i as int,
                j as int,
            );
            match find_last_with_id(activities, &dep.activity_id) {
                None => {
                    assert forall|k: int| 0 <= k <= kfs.len() implies #[trigger] violations_over_keyframes(acts, kfs, i as int, j as int, k)
                        =~= Seq::<(int, int, int)>::empty() by {
                        lemma_no_violations_without_predecessor(acts, kfs, i as int, j as int, k);
                    }
                    assert(violations_over_dependencies(acts, kfs, i as int, j + 1) =~= violations_over_dependencies(
                        acts,
                        kfs,
                        i as int,
                        j as int,
                    ));
                },
                Some(p) => {
                    let pred = &activities[p];
                    let mut k: usize = 0;
                    while k < keyframes.len()
                        invariant
                            acts == activities@,
                            kfs == keyframes@,
                            keyframes@.len() > 0 ==> lags_in_range(acts),
                            i < acts.len(),
                            *activity == acts[i as int],
                            j < activity.depends_on@.len(),
                            *dep == activity.depends_on@[j as int],
                            p as int == last_with_id(acts, dep.activity_id@),
                            *pred == acts[p as int],
                            k <= kfs.len(),
                            out@.len() == (prefix + violations_over_keyframes(acts, kfs, i as int, j as int, k as int)).len(),
                            forall|n: int|
                                0 <= n < out@.len() ==> reports_violation(
                                    #[trigger] out@[n],
                                    acts,
                                    kfs,
                                    (prefix + violations_over_keyframes(acts, kfs, i as int, j as int, k as int))[n],
                                ),
                        decreases kfs.len() - k,
                    {
                        let kf = keyframes[k];
                        proof {
                            assert(lags_in_range(acts));
                            assert(last_with_id(acts, acts[i as int].depends_on@[j as int].activity_id@) >= 0);
                        }
                        let base = match dep.kind {
                            DependencyKind::FS | DependencyKind::FF => pred.timespan.end,
                            DependencyKind::SS | DependencyKind::SF => pred.timespan.start,
                        };
                        let limit: i64 = base.secs + dep.lag_days * 86400;
                        let violated = match dep.kind {
                            DependencyKind::FS | DependencyKind::SS => activity.timespan.contains(kf.date)
                                && kf.date.secs < limit,
                            DependencyKind::FF | DependencyKind::SF => kf.date.secs >= activity.timespan.end.secs
                                && kf.date.secs < limit,
                        };
                        let ghost before = out@;
                        if violated {
                            let d = Diagnostic {
                                keyframe_index: kf.index,
                                keyframe_date: kf.date,
                                activity_id: activity.id.clone(),
                                probe_id: cat3(activity.id.as_str(), "/dep_", dep.activity_id.as_str()),
                                level: DiagnosticLevel::Error,
                                message: violation_message(dep, &pred.timespan),
                                blame: Vec::new(),
                                series_id: crate::text::copy_opt_string(&activity.series),
                            };
                            out.push(d);
                        }
                        proof {
                            let next = prefix + violations_over_keyframes(acts, kfs, i as int, j as int, k + 1);
                            assert(next =~= prefix + violations_over_keyframes(acts, kfs, i as int, j as int, k as int)
                                + if violation_at(acts, kfs, i as int, j as int, k as int) {
                                seq![(i as int, j as int, k as int)]
                            } else {
                                Seq::empty()
                            });
                            assert forall|n: int| 0 <= n < out@.len() implies reports_violation(
                                #[trigger] out@[n],
                                acts,
                                kfs,
                                next[n],
                            ) by {
                                if n < before.len() {
                                    assert(out@[n] == before[n]);
                                }
                            }
                        }
                        k += 1;
                    }
                    assert(violations_over_dependencies(acts, kfs, i as int, j + 1) =~= violations_over_dependencies(
                        acts,
                        kfs,
                        i as int,
                        j as int,
                    ) + violations_over_keyframes(acts, kfs, i as int, j as int, kfs.len() as int));
                },
            }
            assert(prefix + violations_over_keyframes(acts, kfs, i as int, j as int, kfs.len() as int)
                =~= violations_over_activities(acts, kfs, i as int) + violations_over_dependencies(
                acts,
                kfs,
                i as int,
                j + 1,
            ));
            j += 1;
        }
        assert(violations_over_activities(acts, kfs, i + 1) =~= violations_over_activities(acts, kfs, i as int)
            + violations_over_dependencies(acts, kfs, i as int, acts[i as int].depends_on@.len() as int));
        i += 1;
    }
    out
}

/// A dependency whose predecessor does not exist is never violated.
proof fn lemma_no_violations_without_predecessor(acts: Seq<Activity>, kfs: Seq<Keyframe>, i: int, j: int, k: int)
    requires
        last_with_id(acts, acts[i].depends_on@[j].activity_id@) == -1,
    ensures
        violations_over_keyframes(acts, kfs, i, j, k) =~= Seq::<(int, int, int)>::empty(),
    decreases k,
{
    if k > 0 {
        lemma_no_violations_without_predecessor(acts, kfs, i, j, k - 1);
    }
}

/// What each kind of dependency measures, over the timespans themselves: at
/// instant `t`, finish-to-start is violated while the successor is active
/// before the predecessor's end plus the lag, start-to-start while it is
/// active before the predecessor's start plus the lag, finish-to-finish once
/// the successor has ended before the predecessor's end plus the lag, and
/// start-to-finish once it has ended before the predecessor's start plus the lag.
pub proof fn lemma_dependency_measures(kind: DependencyKind, pred: Timespan, succ: Timespan, lag_days: i64, t: DateTime)
    ensures
        kind == DependencyKind::FS ==> (dependency_violated(kind, pred, succ, lag_days, t) <==> (succ.start.secs
            <= t.secs && t.secs < succ.end.secs && t.secs < pred.end.secs + lag_days * 86400)),
        kind == DependencyKind::SS ==> (dependency_violated(kind, pred, succ, lag_days, t) <==> (succ.start.secs
            <= t.secs && t.secs < succ.end.secs && t.secs < pred.start.secs + lag_days * 86400)),
        kind == DependencyKind::FF ==> (dependency_violated(kind, pred, succ, lag_days, t) <==> (t.secs
            >= succ.end.secs && t.secs < pred.end.secs + lag_days * 86400)),
        kind == DependencyKind::SF ==> (dependency_violated(kind, pred, succ, lag_days, t) <==> (t.secs
            >= succ.end.secs && t.secs < pred.start.secs + lag_days * 86400)),
{
}

/// A dependency the schedule keeps is reported at no keyframe: when the
/// successor starts (FS, SS) or ends (FF, SF) no earlier than the
/// predecessor's end (FS, FF) or start (SS, SF) plus the lag in days.
pub proof fn lemma_kept_dependency_not_reported(acts: Seq<Activity>, kfs: Seq<Keyframe>, i: int, j: int, k: int)
    requires
        0 <= i < acts.len(),
        0 <= j < acts[i].depends_on@.len(),
        0 <= k < kfs.len(),
        ({
            let dep = acts[i].depends_on@[j];
            let p = last_with_id(acts, dep.activity_id@);
            let pred = acts[p].timespan;
            let succ = acts[i].timespan;
            let lag = dep.lag_days * 86400;
            match dep.kind {
                DependencyKind::FS => succ.start.secs >= pred.end.secs + lag,
                DependencyKind::SS => succ.start.secs >= pred.start.secs + lag,
                DependencyKind::FF => succ.end.secs >= pred.end.secs + lag,
                DependencyKind::SF => succ.end.secs >= pred.start.secs + lag,
            }
        }),
    ensures
        !violation_at(acts, kfs, i, j, k),
{
    let dep = acts[i].depends_on@[j];
    let p = last_with_id(acts, dep.activity_id@);
    if p >= 0 {
        lemma_dependency_measures(dep.kind, acts[p].timespan, acts[i].timespan, dep.lag_days, kfs[k].date);
    }
}
} // verus!
