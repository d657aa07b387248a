//! Diagnostics raised at keyframes, their blame lists and their ordering.
use vstd::prelude::*;
use vstd::multiset::Multiset;

use crate::numeric::Real;
use crate::schema::{level_rank, DiagnosticLevel, OccupancyKind};
use crate::time::DateTime;

verus! {

/// A projection that contributed to a failed probe.
#[derive(Debug)]
pub struct BlameEntry {
    pub activity_id: String,
    pub projection_id: String,
    pub contribution_summary: String,
    pub confidence: Option<Real>,
}

/// A diagnostic produced when a probe assertion or a dependency fails.
#[derive(Debug)]
pub struct Diagnostic {
    pub keyframe_index: usize,
    pub keyframe_date: DateTime,
    pub activity_id: String,
    pub probe_id: String,
    pub level: DiagnosticLevel,
    pub message: String,
    pub blame: Vec<BlameEntry>,
    /// Series of the activity that owns the failing probe.
    pub series_id: Option<String>,
}

/// The level an occupancy overlap of this kind raises on its own:
/// a hard overlap is an error, a soft one a warning.
pub open spec fn occupancy_auto_level(kind: OccupancyKind) -> DiagnosticLevel {
    match kind {
        OccupancyKind::Hard => DiagnosticLevel::Error,
        OccupancyKind::Soft => DiagnosticLevel::Warning,
    }
}

/// The more severe of the overlap's own level and the probe's declared level.
pub open spec fn reported_level(kind: OccupancyKind, probe_level: DiagnosticLevel) -> DiagnosticLevel {
    if level_rank(occupancy_auto_level(kind)) > level_rank(probe_level) {
        occupancy_auto_level(kind)
    } else {
        probe_level
    }
}

/// The level reported for an occupancy overlap: the more severe of the
/// overlap's own level and the probe's declared level, so that a probe can
/// raise a soft overlap to an error but never lower a hard one.
pub fn occupancy_level(kind: OccupancyKind, probe_level: DiagnosticLevel) -> (l: DiagnosticLevel)
    ensures
        l == reported_level(kind, probe_level),
        level_rank(l) == if level_rank(occupancy_auto_level(kind)) > level_rank(probe_level) {
            level_rank(occupancy_auto_level(kind))
        } else {
            level_rank(probe_level)
        },
        l == occupancy_auto_level(kind) || l == probe_level,
{
    let auto_level = match kind {
        OccupancyKind::Hard => DiagnosticLevel::Error,
        OccupancyKind::Soft => DiagnosticLevel::Warning,
    };
    if auto_level.rank() > probe_level.rank() {
        auto_level
    } else {
        probe_level
    }
}

/// A probe's declared level is a floor: an overlap is reported at least at
/// that level, and a hard overlap at least as an error whatever the probe declares.
pub proof fn lemma_reported_level_floor(kind: OccupancyKind, probe_level: DiagnosticLevel)
    ensures
        level_rank(reported_level(kind, probe_level)) >= level_rank(probe_level),
        level_rank(reported_level(kind, probe_level)) >= level_rank(occupancy_auto_level(kind)),
        kind == OccupancyKind::Hard ==> level_rank(reported_level(kind, probe_level)) >= level_rank(
            DiagnosticLevel::Error,
        ),
{
}

/// The diagnostics of one level, in the order given.
pub open spec fn of_level(d: Seq<Diagnostic>, level: DiagnosticLevel) -> Seq<Diagnostic> {
    d.filter(|x: Diagnostic| x.level == level)
}

/// Diagnostics ordered by severity, most severe first, each level keeping
/// the order given.
pub open spec fn by_severity(d: Seq<Diagnostic>) -> Seq<Diagnostic> {
    of_level(d, DiagnosticLevel::Fatal) + of_level(d, DiagnosticLevel::Error) + of_level(d, DiagnosticLevel::Warning)
        + of_level(d, DiagnosticLevel::Info) + of_level(d, DiagnosticLevel::Debug)
}

/// Whether diagnostics are ordered from most to least severe.
pub open spec fn severity_descending(d: Seq<Diagnostic>) -> bool {
    forall|i: int, j: int| 0 <= i < j < d.len() ==> level_rank(d[i].level) >= level_rank(d[j].level)
}

/// Sort diagnostics by severity, most severe first; the sort is stable.
pub fn sort_by_severity(diags: Vec<Diagnostic>) -> (out: Vec<Diagnostic>)
    ensures
        out@ == by_severity(diags@),
        severity_descending(out@),
        out@.len() == diags@.len(),
{
    let mut rest = diags;
    let mut fatal: Vec<Diagnostic> = Vec::new();
    let mut error: Vec<Diagnostic> = Vec::new();
    let mut warning: Vec<Diagnostic> = Vec::new();
    let mut info: Vec<Diagnostic> = Vec::new();
    let mut debug: Vec<Diagnostic> = Vec::new();
    let ghost all = diags@;
    assert(all.len() == rest.len());
    let mut taken: usize = 0;
    while rest.len() > 0
        invariant
            taken + rest@.len() == all.len(),
            all.len() <= usize::MAX,
            rest@ == all.skip(taken as int),
            fatal@ == of_level(all.take(taken as int), DiagnosticLevel::Fatal),
            error@ == of_level(all.take(taken as int), DiagnosticLevel::Error),
            warning@ == of_level(all.take(taken as int), DiagnosticLevel::Warning),
            info@ == of_level(all.take(taken as int), DiagnosticLevel::Info),
            debug@ == of_level(all.take(taken as int), DiagnosticLevel::Debug),
        decreases rest@.len(),
    {
        let d = rest.remove(0);
        proof {
            reveal_with_fuel(Seq::<_>::filter, 1);
            assert(all.take(taken + 1).drop_last() =~= all.take(taken as int));
            assert(all.take(taken + 1).last() == d);
            assert(rest@ =~= all.skip(taken + 1));
        }
        match d.level {
            DiagnosticLevel::Fatal => fatal.push(d),
            DiagnosticLevel::Error => error.push(d),
            DiagnosticLevel::Warning => warning.push(d),
            DiagnosticLevel::Info => info.push(d),
            DiagnosticLevel::Debug => debug.push(d),
        }
        taken += 1;
    }
    assert(all.take(taken as int) =~= all);
    let mut out = fatal;
    out.append(&mut error);
    out.append(&mut warning);
    out.append(&mut info);
    out.append(&mut debug);
    proof {
        let f = of_level(all, DiagnosticLevel::Fatal);
        let e = of_level(all, DiagnosticLevel::Error);
        let w = of_level(all, DiagnosticLevel::Warning);
        let n = of_level(all, DiagnosticLevel::Info);
        let g = of_level(all, DiagnosticLevel::Debug);
        assert forall|k: int| 0 <= k < f.len() implies f[k].level == DiagnosticLevel::Fatal by {
            assert(f.contains(f[k]));
        }
        assert forall|k: int| 0 <= k < e.len() implies e[k].level == DiagnosticLevel::Error by {
            assert(e.contains(e[k]));
        }
        assert forall|k: int| 0 <= k < w.len() implies w[k].level == DiagnosticLevel::Warning by {
            assert(w.contains(w[k]));
        }
        assert forall|k: int| 0 <= k < n.len() implies n[k].level == DiagnosticLevel::Info by {
            assert(n.contains(n[k]));
        }
        assert forall|k: int| 0 <= k < g.len() implies g[k].level == DiagnosticLevel::Debug by {
            assert(g.contains(g[k]));
        }
        lemma_partition_len(all);
    }
    out
}

/// The five levels partition the diagnostics.
proof fn lemma_partition_len(d: Seq<Diagnostic>)
    ensures
        by_severity(d).len() == d.len(),
    decreases d.len(),
{
    reveal_with_fuel(Seq::<_>::filter, 1);
    if d.len() > 0 {
        lemma_partition_len(d.drop_last());
    }
}

// ── The order of a whole run's diagnostics ──

/// The diagnostics raised at one keyframe, in the order given.
pub open spec fn of_keyframe(d: Seq<Diagnostic>, k: int) -> Seq<Diagnostic> {
    d.filter(|x: Diagnostic| x.keyframe_index == k)
}

/// The diagnostics raised at the first `n` keyframes, keyframe by keyframe,
/// each keyframe's in the order given.
pub open spec fn by_keyframe(d: Seq<Diagnostic>, n: int) -> Seq<Diagnostic>
    decreases n,
{
    if n <= 0 {
        Seq::empty()
    } else {
        by_keyframe(d, n - 1) + of_keyframe(d, n - 1)
    }
}

/// Order the diagnostics of a whole run over `keyframe_count` keyframes: most
/// severe first, within a level by keyframe index, and within a keyframe in
/// the order given.
pub fn order_diagnostics(diags: Vec<Diagnostic>, keyframe_count: usize) -> (out: Vec<Diagnostic>)
    requires
        forall|i: int| 0 <= i < diags@.len() ==> (#[trigger] diags@[i]).keyframe_index < keyframe_count,
    ensures
        out@ == by_severity(by_keyframe(diags@, keyframe_count as int)),
{
    let ghost all = diags@;
    let count: usize = diags.len();
    assert(all.len() == count);
    let mut buckets: Vec<Vec<Diagnostic>> = Vec::new();
    let mut k: usize = 0;
    while k < keyframe_count
        invariant
            k <= keyframe_count,
            buckets@.len() == k,
            forall|b: int| 0 <= b < k ==> (#[trigger] buckets@[b])@ == Seq::<Diagnostic>::empty(),
        decreases keyframe_count - k,
    {
        buckets.push(Vec::new());
        k += 1;
    }
    proof {
        assert forall|b: int| 0 <= b < keyframe_count implies (#[trigger] buckets@[b])@ == of_keyframe(
            all.take(0),
            b,
        ) by {
            assert(all.take(0) =~= Seq::<Diagnostic>::empty());
            assert(of_keyframe(all.take(0), b) =~= Seq::<Diagnostic>::empty());
        }
    }
    let mut rest = diags;
    let mut taken: usize = 0;
    while rest.len() > 0
        invariant
            taken + rest@.len() == all.len(),
            all.len() <= usize::MAX,
            rest@ == all.skip(taken as int),
            forall|i: int| 0 <= i < all.len() ==> (#[trigger] all[i]).keyframe_index < keyframe_count,
            buckets@.len() == keyframe_count,
            forall|b: int|
                0 <= b < keyframe_count ==> (#[trigger] buckets@[b])@ == of_keyframe(all.take(taken as int), b),
        decreases rest@.len(),
    {
        let d = rest.remove(0);
        assert(d == all[taken as int]);
        let at: usize = d.keyframe_index;
        let ghost before = buckets@;
        let mut bucket = buckets.remove(at);
        bucket.push(d);
        buckets.insert(at, bucket);
        proof {
            assert(all.take(taken + 1).drop_last() =~= all.take(taken as int));
            assert(all.take(taken + 1).last() == d);
            assert(rest@ =~= all.skip(taken + 1));
            assert forall|b: int| 0 <= b < keyframe_count implies (#[trigger] buckets@[b])@ == of_keyframe(
                all.take(taken + 1),
                b,
            ) by {
                reveal_with_fuel(Seq::<_>::filter, 1);
                if b == at as int {
                    assert(buckets@[b]@ == before[b]@.push(d));
                } else {
                    assert(buckets@[b] == before[b]);
                }
            }
        }
        taken += 1;
    }
    assert(all.take(taken as int) =~= all);
    let ghost full = buckets@;
    let mut ordered: Vec<Diagnostic> = Vec::new();
    let mut j: usize = 0;
    while j < keyframe_count
        invariant
            j <= keyframe_count,
            full.len() == keyframe_count,
            forall|b: int| 0 <= b < keyframe_count ==> (#[trigger] full[b])@ == of_keyframe(all, b),
            buckets@ == full.skip(j as int),
            ordered@ == by_keyframe(all, j as int),
        decreases keyframe_count - j,
    {
        assert(buckets@[0] == full[j as int]);
        let mut bucket = buckets.remove(0);
        ordered.append(&mut bucket);
        proof {
            assert(buckets@ =~= full.skip(j + 1));
        }
        j += 1;
    }
    sort_by_severity(ordered)
}

/// Whether diagnostics come in ascending keyframe order.
pub open spec fn index_ascending(d: Seq<Diagnostic>) -> bool {
    forall|i: int, j: int| 0 <= i < j < d.len() ==> d[i].keyframe_index <= d[j].keyframe_index
}

/// Keyframe by keyframe, the diagnostics come in ascending keyframe order,
/// all at keyframes before the `n`th.
proof fn lemma_by_keyframe_ascending(d: Seq<Diagnostic>, n: int)
    ensures
        index_ascending(by_keyframe(d, n)),
        forall|i: int| 0 <= i < by_keyframe(d, n).len() ==> (#[trigger] by_keyframe(d, n)[i]).keyframe_index < n,
    decreases n,
{
    broadcast use Seq::lemma_filter_pred;

    if n > 0 {
        lemma_by_keyframe_ascending(d, n - 1);
        let head = by_keyframe(d, n - 1);
        let tail = of_keyframe(d, n - 1);
        let all = by_keyframe(d, n);
        assert(all == head + tail);
        assert forall|i: int| 0 <= i < tail.len() implies (#[trigger] tail[i]).keyframe_index == n - 1 by {
            assert((|x: Diagnostic| x.keyframe_index == n - 1)(tail[i]));
        }
        assert forall|i: int, j: int| 0 <= i < j < all.len() implies all[i].keyframe_index
            <= all[j].keyframe_index by {
            if j < head.len() {
                assert(all[i] == head[i] && all[j] == head[j]);
            } else if i < head.len() {
                assert(all[i] == head[i] && all[j] == tail[j - head.len()]);
            } else {
                assert(all[i] == tail[i - head.len()] && all[j] == tail[j - head.len()]);
            }
        }
        assert forall|i: int| 0 <= i < all.len() implies (#[trigger] all[i]).keyframe_index < n by {
            if i < head.len() {
                assert(all[i] == head[i]);
            } else {
                assert(all[i] == tail[i - head.len()]);
            }
        }
    }
}

/// Keeping some diagnostics keeps them in ascending keyframe order.
proof fn lemma_filter_keeps_ascending(s: Seq<Diagnostic>, p: spec_fn(Diagnostic) -> bool)
    requires
        index_ascending(s),
    ensures
        index_ascending(s.filter(p)),
    decreases s.len(),
{
    broadcast use Seq::lemma_filter_contains_rev;

    reveal_with_fuel(Seq::<_>::filter, 1);
    if s.len() > 0 {
        let rest = s.drop_last();
        assert(index_ascending(rest)) by {
            assert forall|i: int, j: int| 0 <= i < j < rest.len() implies rest[i].keyframe_index
                <= rest[j].keyframe_index by {
                assert(rest[i] == s[i] && rest[j] == s[j]);
            }
        }
        lemma_filter_keeps_ascending(rest, p);
        let kept = rest.filter(p);
        if p(s.last()) {
            let all = s.filter(p);
            assert(all == kept.push(s.last()));
            assert forall|i: int, j: int| 0 <= i < j < all.len() implies all[i].keyframe_index
                <= all[j].keyframe_index by {
                if j < kept.len() {
                    assert(all[i] == kept[i] && all[j] == kept[j]);
                } else {
                    assert(all[i] == kept[i]);
                    assert(kept.contains(kept[i]));
                    assert(rest.contains(kept[i]));
                    let k = choose|k: int| 0 <= k < rest.len() && rest[k] == kept[i];
                    assert(s[k] == kept[i]);
                    assert(all[j] == s[s.len() - 1]);
                }
            }
        }
    }
}

/// The diagnostics of one level among those of another: all of them when the
/// levels agree, none otherwise.
proof fn lemma_level_of_level(s: Seq<Diagnostic>, m: DiagnosticLevel, l: DiagnosticLevel)
    ensures
        of_level(of_level(s, m), l) == if m == l {
            of_level(s, m)
        } else {
            Seq::<Diagnostic>::empty()
        },
    decreases s.len(),
{
    reveal_with_fuel(Seq::<_>::filter, 1);
    if s.len() > 0 {
        lemma_level_of_level(s.drop_last(), m, l);
        if s.last().level == m {
            assert(of_level(s, m) == of_level(s.drop_last(), m).push(s.last()));
            assert(of_level(s, m).drop_last() =~= of_level(s.drop_last(), m));
        } else {
            assert(of_level(s, m) == of_level(s.drop_last(), m));
        }
    } else {
        assert(of_level(s, m) =~= Seq::<Diagnostic>::empty());
    }
}

/// Ordering by severity leaves the diagnostics of each level as they were.
proof fn lemma_level_of_by_severity(s: Seq<Diagnostic>, l: DiagnosticLevel)
    ensures
        of_level(by_severity(s), l) == of_level(s, l),
{
    broadcast use Seq::filter_distributes_over_add;

    lemma_level_of_level(s, DiagnosticLevel::Fatal, l);
    lemma_level_of_level(s, DiagnosticLevel::Error, l);
    lemma_level_of_level(s, DiagnosticLevel::Warning, l);
    lemma_level_of_level(s, DiagnosticLevel::Info, l);
    lemma_level_of_level(s, DiagnosticLevel::Debug, l);
    let f = of_level(s, DiagnosticLevel::Fatal);
    let e = of_level(s, DiagnosticLevel::Error);
    let w = of_level(s, DiagnosticLevel::Warning);
    let n = of_level(s, DiagnosticLevel::Info);
    let g = of_level(s, DiagnosticLevel::Debug);
    assert(of_level(f + e + w + n + g, l) == of_level(f, l) + of_level(e, l) + of_level(w, l) + of_level(n, l)
        + of_level(g, l));
    match l {
        DiagnosticLevel::Fatal => assert(of_level(by_severity(s), l) =~= f),
        DiagnosticLevel::Error => assert(of_level(by_severity(s), l) =~= e),
        DiagnosticLevel::Warning => assert(of_level(by_severity(s), l) =~= w),
        DiagnosticLevel::Info => assert(of_level(by_severity(s), l) =~= n),
        DiagnosticLevel::Debug => assert(of_level(by_severity(s), l) =~= g),
    }
}

/// Ordering by severity puts the most severe first.
proof fn lemma_by_severity_descending(s: Seq<Diagnostic>)
    ensures
        severity_descending(by_severity(s)),
{
    broadcast use Seq::lemma_filter_pred;

    let f = of_level(s, DiagnosticLevel::Fatal);
    let e = of_level(s, DiagnosticLevel::Error);
    let w = of_level(s, DiagnosticLevel::Warning);
    let n = of_level(s, DiagnosticLevel::Info);
    let g = of_level(s, DiagnosticLevel::Debug);
    assert forall|k: int| 0 <= k < f.len() implies f[k].level == DiagnosticLevel::Fatal by {
        assert((|x: Diagnostic| x.level == DiagnosticLevel::Fatal)(f[k]));
    }
    assert forall|k: int| 0 <= k < e.len() implies e[k].level == DiagnosticLevel::Error by {
        assert((|x: Diagnostic| x.level == DiagnosticLevel::Error)(e[k]));
    }
    assert forall|k: int| 0 <= k < w.len() implies w[k].level == DiagnosticLevel::Warning by {
        assert((|x: Diagnostic| x.level == DiagnosticLevel::Warning)(w[k]));
    }
    assert forall|k: int| 0 <= k < n.len() implies n[k].level == DiagnosticLevel::Info by {
        assert((|x: Diagnostic| x.level == DiagnosticLevel::Info)(n[k]));
    }
    assert forall|k: int| 0 <= k < g.len() implies g[k].level == DiagnosticLevel::Debug by {
        assert((|x: Diagnostic| x.level == DiagnosticLevel::Debug)(g[k]));
    }
}

/// The order of a whole run's diagnostics is the documented one: the most
/// severe come first, and the diagnostics of one level come by ascending
/// keyframe index.
pub proof fn lemma_run_order(d: Seq<Diagnostic>, keyframe_count: int)
    ensures
        severity_descending(by_severity(by_keyframe(d, keyframe_count))),
        forall|l: DiagnosticLevel|
            index_ascending(#[trigger] of_level(by_severity(by_keyframe(d, keyframe_count)), l)),
{
    let s = by_keyframe(d, keyframe_count);
    lemma_by_keyframe_ascending(d, keyframe_count);
    lemma_by_severity_descending(s);
    assert forall|l: DiagnosticLevel| index_ascending(#[trigger] of_level(by_severity(s), l)) by {
        lemma_level_of_by_severity(s, l);
        lemma_filter_keeps_ascending(s, |x: Diagnostic| x.level == l);
    }
}

/// Adding a diagnostic at the end adds it at the end of its keyframe's list.
proof fn lemma_of_keyframe_push(d: Seq<Diagnostic>, x: Diagnostic, k: int)
    ensures
        of_keyframe(d.push(x), k) == of_keyframe(d, k) + if x.keyframe_index == k {
            seq![x]
        } else {
            Seq::<Diagnostic>::empty()
        },
{
    reveal_with_fuel(Seq::<_>::filter, 1);
    assert(d.push(x).drop_last() =~= d);
    if x.keyframe_index == k {
        assert(of_keyframe(d, k) + seq![x] =~= of_keyframe(d, k).push(x));
    } else {
        assert(of_keyframe(d, k) + Seq::<Diagnostic>::empty() =~= of_keyframe(d, k));
    }
}

/// Adding a diagnostic adds it to the first `n` keyframes' lists when it was
/// raised at one of them.
proof fn lemma_by_keyframe_push(d: Seq<Diagnostic>, x: Diagnostic, n: int)
    ensures
        by_keyframe(d.push(x), n).to_multiset() == if x.keyframe_index < n {
            by_keyframe(d, n).to_multiset().insert(x)
        } else {
            by_keyframe(d, n).to_multiset()
        },
    decreases n,
{
    broadcast use vstd::multiset::group_multiset_axioms;
    broadcast use vstd::seq_lib::lemma_multiset_commutative;

    if n <= 0 {
        assert(by_keyframe(d.push(x), n) =~= by_keyframe(d, n));
    } else {
        lemma_by_keyframe_push(d, x, n - 1);
        lemma_of_keyframe_push(d, x, n - 1);
        let head = by_keyframe(d, n - 1);
        let tail = of_keyframe(d, n - 1);
        if x.keyframe_index == n - 1 {
            assert((tail + seq![x]).to_multiset() =~= tail.to_multiset().add(seq![x].to_multiset()));
            assert(seq![x].to_multiset() =~= Multiset::empty().insert(x)) by {
                assert(seq![x] =~= Seq::<Diagnostic>::empty().push(x));
                vstd::seq_lib::to_multiset_build(Seq::<Diagnostic>::empty(), x);
                lemma_empty_to_multiset(Seq::<Diagnostic>::empty());
            }
        } else {
            assert(tail + Seq::<Diagnostic>::empty() =~= tail);
        }
        assert(by_keyframe(d.push(x), n).to_multiset() =~= by_keyframe(d.push(x), n - 1).to_multiset().add(
            of_keyframe(d.push(x), n - 1).to_multiset(),
        ));
        assert(by_keyframe(d, n).to_multiset() =~= head.to_multiset().add(tail.to_multiset()));
    }
}

/// Over keyframes that cover every diagnostic, the keyframe-by-keyframe
/// lists hold each diagnostic as often as it was raised.
proof fn lemma_by_keyframe_multiset(d: Seq<Diagnostic>, n: int)
    requires
        forall|i: int| 0 <= i < d.len() ==> (#[trigger] d[i]).keyframe_index < n,
    ensures
        by_keyframe(d, n).to_multiset() == d.to_multiset(),
    decreases d.len(),
{
    broadcast use vstd::multiset::group_multiset_axioms;
    broadcast use vstd::seq_lib::to_multiset_build;

    if d.len() == 0 {
        assert forall|k: int| #![auto] of_keyframe(d, k) =~= Seq::<Diagnostic>::empty() by {
            reveal_with_fuel(Seq::<_>::filter, 1);
        }
        lemma_by_keyframe_empty(d, n);
        lemma_empty_to_multiset(d);
    } else {
        let rest = d.drop_last();
        let x = d.last();
        assert(rest.push(x) =~= d);
        assert forall|i: int| 0 <= i < rest.len() implies (#[trigger] rest[i]).keyframe_index < n by {
            assert(rest[i] == d[i]);
        }
        lemma_by_keyframe_multiset(rest, n);
        lemma_by_keyframe_push(rest, x, n);
        assert(d[d.len() - 1] == x);
    }
}

/// No diagnostics give no keyframe lists.
proof fn lemma_by_keyframe_empty(d: Seq<Diagnostic>, n: int)
    requires
        d.len() == 0,
    ensures
        by_keyframe(d, n).to_multiset() == Multiset::<Diagnostic>::empty(),
    decreases n,
{
    broadcast use vstd::multiset::group_multiset_axioms;

    reveal_with_fuel(Seq::<_>::filter, 1);
    if n <= 0 {
        assert(by_keyframe(d, n) =~= Seq::<Diagnostic>::empty());
    } else {
        lemma_by_keyframe_empty(d, n - 1);
        assert(of_keyframe(d, n - 1) =~= Seq::<Diagnostic>::empty());
        assert(by_keyframe(d, n) =~= by_keyframe(d, n - 1));
    }
    lemma_empty_to_multiset(Seq::<Diagnostic>::empty());
}

/// No diagnostics hold nothing.
proof fn lemma_empty_to_multiset(s: Seq<Diagnostic>)
    requires
        s.len() == 0,
    ensures
        s.to_multiset() == Multiset::<Diagnostic>::empty(),
{
    broadcast use vstd::seq_lib::group_to_multiset_ensures;
    broadcast use vstd::multiset::group_multiset_axioms;

    assert forall|a: Diagnostic| s.to_multiset().count(a) == 0 by {
        assert(!s.contains(a));
    }
    assert(s.to_multiset() =~= Multiset::empty());
}

/// Adding a diagnostic at the end adds it at the end of its level's list.
proof fn lemma_of_level_push(d: Seq<Diagnostic>, x: Diagnostic, l: DiagnosticLevel)
    ensures
        of_level(d.push(x), l).to_multiset() == if x.level == l {
            of_level(d, l).to_multiset().insert(x)
        } else {
            of_level(d, l).to_multiset()
        },
{
    broadcast use vstd::seq_lib::group_to_multiset_ensures;

    reveal_with_fuel(Seq::<_>::filter, 1);
    assert(d.push(x).drop_last() =~= d);
}

/// Ordering by severity keeps each diagnostic as often as it was raised.
pub proof fn lemma_by_severity_multiset(s: Seq<Diagnostic>)
    ensures
        by_severity(s).to_multiset() == s.to_multiset(),
    decreases s.len(),
{
    broadcast use vstd::multiset::group_multiset_axioms;
    broadcast use vstd::seq_lib::lemma_multiset_commutative;
    broadcast use vstd::seq_lib::group_to_multiset_ensures;

    if s.len() == 0 {
        reveal_with_fuel(Seq::<_>::filter, 1);
        assert(by_severity(s) =~= Seq::<Diagnostic>::empty());
        lemma_empty_to_multiset(s);
        lemma_empty_to_multiset(by_severity(s));
    } else {
        let rest = s.drop_last();
        let x = s.last();
        assert(rest.push(x) =~= s);
        lemma_by_severity_multiset(rest);
        lemma_of_level_push(rest, x, DiagnosticLevel::Fatal);
        lemma_of_level_push(rest, x, DiagnosticLevel::Error);
        lemma_of_level_push(rest, x, DiagnosticLevel::Warning);
        lemma_of_level_push(rest, x, DiagnosticLevel::Info);
        lemma_of_level_push(rest, x, DiagnosticLevel::Debug);
        let f = of_level(s, DiagnosticLevel::Fatal);
        let e = of_level(s, DiagnosticLevel::Error);
        let w = of_level(s, DiagnosticLevel::Warning);
        let n = of_level(s, DiagnosticLevel::Info);
        let g = of_level(s, DiagnosticLevel::Debug);
        let f0 = of_level(rest, DiagnosticLevel::Fatal);
        let e0 = of_level(rest, DiagnosticLevel::Error);
        let w0 = of_level(rest, DiagnosticLevel::Warning);
        let n0 = of_level(rest, DiagnosticLevel::Info);
        let g0 = of_level(rest, DiagnosticLevel::Debug);
        assert(by_severity(s).to_multiset() =~= f.to_multiset().add(e.to_multiset()).add(w.to_multiset()).add(
            n.to_multiset(),
        ).add(g.to_multiset()));
        assert(by_severity(rest).to_multiset() =~= f0.to_multiset().add(e0.to_multiset()).add(w0.to_multiset()).add(
            n0.to_multiset(),
        ).add(g0.to_multiset()));
        assert(by_severity(s).to_multiset() =~= by_severity(rest).to_multiset().insert(x));
    }
}

/// Over keyframes that cover every diagnostic, the order of a whole run keeps
/// each diagnostic as often as it was raised: it only reorders them.
pub proof fn lemma_run_order_keeps_every_diagnostic(d: Seq<Diagnostic>, keyframe_count: int)
    requires
        forall|i: int| 0 <= i < d.len() ==> (#[trigger] d[i]).keyframe_index < keyframe_count,
    ensures
        by_severity(by_keyframe(d, keyframe_count)).to_multiset() == d.to_multiset(),
{
    lemma_by_keyframe_multiset(d, keyframe_count);
    lemma_by_severity_multiset(by_keyframe(d, keyframe_count));
}

} // verus!
