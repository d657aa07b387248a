//! Keyframes: the distinct instants at which some activity starts or ends.
use vstd::prelude::*;

use crate::model::Activity;
use crate::time::DateTime;

verus! {

/// A discrete time point at which the scene is evaluated.
#[derive(Clone, Copy, Debug, PartialEq, Eq, Structural)]
pub struct Keyframe {
    pub date: DateTime,
    pub index: usize,
}

/// Whether an instant is the start or the end of some activity.
pub open spec fn is_boundary(acts: Seq<Activity>, t: i64) -> bool {
    exists|i: int| 0 <= i < acts.len() && #[trigger] bounds(acts[i], t)
}

/// Whether a sequence of instants is strictly increasing.
pub open spec fn strictly_increasing(s: Seq<i64>) -> bool {
    forall|i: int, j: int| 0 <= i < j < s.len() ==> s[i] < s[j]
}

/// Whether the keyframes are numbered by position and strictly increasing in time.
pub open spec fn well_ordered_keyframes(kfs: Seq<Keyframe>) -> bool {
    &&& forall|i: int| 0 <= i < kfs.len() ==> #[trigger] kfs[i].index == i
    &&& forall|i: int, j: int| 0 <= i < j < kfs.len() ==> kfs[i].date.secs < kfs[j].date.secs
}

/// Insert an instant into a strictly increasing list, unless it is already there.
fn insert_instant(v: &mut Vec<i64>, x: i64)
    requires
        strictly_increasing(old(v)@),
    ensures
        strictly_increasing(final(v)@),
        forall|y: i64| final(v)@.contains(y) <==> (old(v)@.contains(y) || y == x),
{
    let mut p: usize = 0;
    while p < v.len() && v[p] < x
        invariant
            p <= v.len(),
            v@ == old(v)@,
            strictly_increasing(v@),
            forall|k: int| 0 <= k < p ==> v@[k] < x,
        decreases v.len() - p,
    {
        p += 1;
    }
    if p < v.len() && v[p] == x {
        assert(v@.contains(x)) by {
            assert(v@[p as int] == x);
        }
        return;
    }
    let ghost before = v@;
    v.insert(p, x);
    assert(v@ == before.insert(p as int, x));
    assert forall|i: int, j: int| 0 <= i < j < v@.len() implies v@[i] < v@[j] by {
        if j < p {
        } else if j == p {
        } else if i < p {
            assert(before[j - 1] >= before[p as int] || j - 1 == p);
        } else if i == p {
            assert(before[j - 1] >= before[p as int] || j - 1 == p);
        } else {
        }
    }
    assert forall|y: i64| v@.contains(y) <==> (before.contains(y) || y == x) by {
        if v@.contains(y) {
            let k = choose|k: int| 0 <= k < v@.len() && v@[k] == y;
            if k < p {
                assert(before[k] == y);
            } else if k > p {
                assert(before[k - 1] == y);
            }
        }
        if before.contains(y) {
            let k = choose|k: int| 0 <= k < before.len() && before[k] == y;
            if k < p {
                assert(v@[k] == y);
            } else {
                assert(v@[k + 1] == y);
            }
        }
        if y == x {
            assert(v@[p as int] == y);
        }
    }
}

/// Whether an instant is the start or the end of one of the first `n` activities.
pub open spec fn is_boundary_before(acts: Seq<Activity>, n: int, t: i64) -> bool {
    exists|i: int| 0 <= i < n && #[trigger] bounds(acts[i], t)
}

/// Whether an instant is the start or the end of an activity.
pub open spec fn bounds(a: Activity, t: i64) -> bool {
    a.timespan.start.secs == t || a.timespan.end.secs == t
}

/// Extract all keyframes from the activities' start and end instants,
/// without repeats, in chronological order and numbered by position.
pub fn extract_keyframes(activities: &Vec<Activity>) -> (kfs: Vec<Keyframe>)
    ensures
        well_ordered_keyframes(kfs@),
        forall|i: int| 0 <= i < kfs@.len() ==> is_boundary(activities@, #[trigger] kfs@[i].date.secs),
        forall|t: i64|
            is_boundary(activities@, t) ==> exists|i: int| 0 <= i < kfs@.len() && #[trigger] kfs@[i].date.secs == t,
{
    let mut dates: Vec<i64> = Vec::new();
    let mut a: usize = 0;
    while a < activities.len()
        invariant
            a <= activities.len(),
            strictly_increasing(dates@),
            forall|y: i64| dates@.contains(y) <==> is_boundary_before(activities@, a as int, y),
        decreases activities.len() - a,
    {
        let ghost d0 = dates@;
        insert_instant(&mut dates, activities[a].timespan.start.secs);
        insert_instant(&mut dates, activities[a].timespan.end.secs);
        assert forall|y: i64| dates@.contains(y) <==> is_boundary_before(activities@, a + 1, y) by {
            if dates@.contains(y) {
                if d0.contains(y) {
                    let i = choose|i: int| 0 <= i < a && #[trigger] bounds(activities@[i], y);
                    assert(0 <= i < a + 1 && bounds(activities@[i], y));
                } else {
                    assert(bounds(activities@[a as int], y));
                }
            }
            if is_boundary_before(activities@, a + 1, y) {
                let i = choose|i: int| 0 <= i < a + 1 && #[trigger] bounds(activities@[i], y);
                if i < a {
                    assert(is_boundary_before(activities@, a as int, y));
                }
            }
        }
        a += 1;
    }
    assert forall|y: i64| is_boundary_before(activities@, a as int, y) <==> is_boundary(activities@, y) by {
        if is_boundary_before(activities@, a as int, y) {
            let i = choose|i: int| 0 <= i < a && #[trigger] bounds(activities@[i], y);
            assert(bounds(activities@[i], y));
        }
        if is_boundary(activities@, y) {
            let i = choose|i: int| 0 <= i < activities@.len() && #[trigger] bounds(activities@[i], y);
            assert(0 <= i < a && bounds(activities@[i], y));
        }
    }
    let mut kfs: Vec<Keyframe> = Vec::new();
    let mut k: usize = 0;
    while k < dates.len()
        invariant
            k <= dates.len(),
            kfs@.len() == k,
            strictly_increasing(dates@),
            forall|i: int| 0 <= i < k ==> #[trigger] kfs@[i].index == i,
            forall|i: int| 0 <= i < k ==> #[trigger] kfs@[i].date.secs == dates@[i],
        decreases dates.len() - k,
    {
        kfs.push(Keyframe { date: DateTime { secs: dates[k] }, index: k });
        k += 1;
    }
    assert forall|i: int| 0 <= i < kfs@.len() implies is_boundary(activities@, #[trigger] kfs@[i].date.secs) by {
        assert(kfs@[i].date.secs == dates@[i]);
        assert(dates@.contains(dates@[i]));
    }
    assert forall|t: i64| is_boundary(activities@, t) implies exists|i: int| 0 <= i < kfs@.len() && #[trigger] kfs@[i].date.secs == t by {
        assert(dates@.contains(t));
        let j = choose|j: int| 0 <= j < dates@.len() && dates@[j] == t;
        assert(kfs@[j].date.secs == dates@[j]);
    }
    kfs
}

/// Whether an activity is active at a keyframe.
pub open spec fn active_at(kf: Keyframe, a: Activity) -> bool {
    a.timespan.spec_contains(kf.date)
}

/// The activities active at a keyframe (`start <= date < end`), in order.
pub fn active_activities_at<'a>(keyframe: &Keyframe, activities: &'a Vec<Activity>) -> (r: Vec<&'a Activity>)
    ensures
        r@.map_values(|a: &Activity| *a) == activities@.filter(|a: Activity| active_at(*keyframe, a)),
{
    let mut r: Vec<&'a Activity> = Vec::new();
    let mut i: usize = 0;
    while i < activities.len()
        invariant
            i <= activities.len(),
            r@.map_values(|a: &Activity| *a) == activities@.take(i as int).filter(|a: Activity| active_at(*keyframe, a)),
        decreases activities.len() - i,
    {
        let a = &activities[i];
        let ghost before = r@;
        proof {
            reveal_with_fuel(Seq::<_>::filter, 1);
            assert(activities@.take(i + 1).drop_last() =~= activities@.take(i as int));
        }
        if a.timespan.contains(keyframe.date) {
            r.push(a);
            assert(r@.map_values(|a: &Activity| *a) =~= before.map_values(|a: &Activity| *a).push(*a));
        }
        i += 1;
    }
    assert(activities@.take(activities@.len() as int) =~= activities@);
    r
}

} // verus!
