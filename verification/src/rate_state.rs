//! The history a rate field keeps from one keyframe to the next: for each
//! region, the latest values with their dates, as many as the window needs.
use vstd::prelude::*;

use crate::numeric::Real;
use crate::text::text_eq;
use crate::time::{days_between, whole_days_between, DateTime};

verus! {

/// The values recorded for a region (by the region's key), oldest first.
#[derive(Debug)]
pub struct RegionHistory {
    pub region: String,
    pub entries: Vec<(DateTime, Real)>,
}

/// The last `m` elements of a sequence, or all of it when it is shorter.
pub open spec fn last_k<A>(s: Seq<A>, m: int) -> Seq<A> {
    if s.len() > m {
        s.skip(s.len() - m)
    } else {
        s
    }
}

/// Whether no two histories are for the same region.
pub open spec fn distinct_regions(s: Seq<RegionHistory>) -> bool {
    forall|i: int, j: int| 0 <= i < j < s.len() ==> (#[trigger] s[i].region@) != (#[trigger] s[j].region@)
}

/// The position of the history for a region, or -1 (the last one; there is
/// at most one in a state with distinct regions).
pub open spec fn history_at(s: Seq<RegionHistory>, region: Seq<char>) -> int
    decreases s.len(),
{
    if s.len() == 0 {
        -1
    } else if s.last().region@ == region {
        s.len() - 1
    } else {
        history_at(s.drop_last(), region)
    }
}

/// The history recorded for a region, empty when there is none.
pub open spec fn history_of(s: Seq<RegionHistory>, region: Seq<char>) -> Seq<(DateTime, Real)> {
    if history_at(s, region) >= 0 {
        s[history_at(s, region)].entries@
    } else {
        Seq::empty()
    }
}

/// The entries the first `n` new values add to a region's history, dated `now`.
pub open spec fn added(adds: Seq<(String, Real)>, region: Seq<char>, now: DateTime, n: int) -> Seq<(DateTime, Real)>
    decreases n,
{
    if n <= 0 {
        Seq::empty()
    } else {
        added(adds, region, now, n - 1) + if adds[n - 1].0@ == region {
            seq![(now, adds[n - 1].1)]
        } else {
            Seq::empty()
        }
    }
}

/// Whether `out` holds, for a region, the last `m` entries of what `current`
/// held there followed by what the first `n` new values add; a region with no
/// entries has no history.
pub open spec fn holds_window(
    out: Seq<RegionHistory>,
    current: Seq<RegionHistory>,
    adds: Seq<(String, Real)>,
    now: DateTime,
    m: int,
    region: Seq<char>,
    n: int,
) -> bool {
    let w = last_k(history_of(current, region) + added(adds, region, now, n), m);
    let np = history_at(out, region);
    if w.len() > 0 {
        np >= 0 && out[np].entries@ == w
    } else {
        np < 0
    }
}

proof fn lemma_history_at_bounds(s: Seq<RegionHistory>, region: Seq<char>)
    ensures
        -1 <= history_at(s, region) < s.len(),
        history_at(s, region) >= 0 ==> s[history_at(s, region)].region@ == region,
        history_at(s, region) < 0 ==> forall|i: int| 0 <= i < s.len() ==> (#[trigger] s[i].region@) != region,
    decreases s.len(),
{
    if s.len() > 0 && s.last().region@ != region {
        lemma_history_at_bounds(s.drop_last(), region);
        if history_at(s, region) < 0 {
            assert forall|i: int| 0 <= i < s.len() implies (#[trigger] s[i].region@) != region by {
                if i < s.len() - 1 {
                    assert(s.drop_last()[i] == s[i]);
                }
            }
        }
    }
}

proof fn lemma_history_at_unique(s: Seq<RegionHistory>, region: Seq<char>, p: int)
    requires
        distinct_regions(s),
        0 <= p < s.len(),
        s[p].region@ == region,
    ensures
        history_at(s, region) == p,
{
    lemma_history_at_bounds(s, region);
    let q = history_at(s, region);
    if q != p {
        if q < p {
            assert(s[q].region@ != s[p].region@);
        } else {
            assert(s[p].region@ != s[q].region@);
        }
    }
}

/// Keeping the last `m` entries before or after adding one more comes to the same.
proof fn lemma_last_k_push<A>(x: Seq<A>, e: A, m: int)
    requires
        m >= 1,
    ensures
        last_k(last_k(x, m).push(e), m) == last_k(x.push(e), m),
{
    if x.len() > m {
        assert(last_k(x, m).push(e).skip(1) =~= x.push(e).skip(x.len() + 1 - m));
    }
}

/// The last `m` entries of a history, copied.
fn keep_last(entries: &Vec<(DateTime, Real)>, m: usize) -> (out: Vec<(DateTime, Real)>)
    ensures
        out@ == last_k(entries@, m as int),
{
    let start: usize = if entries.len() > m { entries.len() - m } else { 0 };
    let mut out: Vec<(DateTime, Real)> = Vec::new();
    let mut i: usize = start;
    while i < entries.len()
        invariant
            start <= i <= entries@.len(),
            start == (if entries@.len() > m { entries@.len() - m } else { 0 }),
            out@ =~= entries@.subrange(start as int, i as int),
        decreases entries@.len() - i,
    {
        out.push(entries[i]);
        i += 1;
    }
    assert(out@ =~= last_k(entries@, m as int));
    out
}

/// The position of the history for a region.
fn find_history(s: &Vec<RegionHistory>, region: &String) -> (r: Option<usize>)
    ensures
        match r {
            Some(p) => p as int == history_at(s@, region@) && p < s@.len(),
            None => history_at(s@, region@) == -1,
        },
{
    let mut i: usize = s.len();
    assert(s@.take(s@.len() as int) =~= s@);
    while i > 0
        invariant
            i <= s@.len(),
            history_at(s@, region@) == history_at(s@.take(i as int), region@),
        decreases i,
    {
        assert(s@.take(i as int).drop_last() =~= s@.take(i - 1));
        if text_eq(&s[i - 1].region, region) {
            return Some(i - 1);
        }
        i -= 1;
    }
    None
}

/// The histories of a rate field after a keyframe at `now`: each region keeps
/// its last `window_size + 1` entries, each new value (a region key and the
/// value, in projection order) is appended to its region's history, and the
/// history is cut back to the last `window_size + 1` entries again.
pub fn update_rate_state(
    current: &Vec<RegionHistory>,
    adds: &Vec<(String, Real)>,
    now: DateTime,
    window_size: usize,
) -> (out: Vec<RegionHistory>)
    requires
        distinct_regions(current@),
        window_size < usize::MAX,
    ensures
        distinct_regions(out@),
        forall|region: Seq<char>|
            #![trigger history_at(out@, region)]
            holds_window(out@, current@, adds@, now, window_size + 1, region, adds@.len() as int),
{
    let m: usize = window_size + 1;
    let ghost cur = current@;
    let ghost ad = adds@;
    let mut out: Vec<RegionHistory> = Vec::new();
    let mut i: usize = 0;
    while i < current.len()
        invariant
            cur == current@,
            distinct_regions(cur),
            m == window_size + 1,
            m >= 1,
            i <= cur.len(),
            distinct_regions(out@),
            forall|region: Seq<char>|
                #![trigger history_at(out@, region)]
                {
                    let hp = history_at(cur.take(i as int), region);
                    let w = if hp >= 0 { last_k(cur[hp].entries@, m as int) } else { Seq::empty() };
                    let np = history_at(out@, region);
                    if w.len() > 0 {
                        np >= 0 && out@[np].entries@ == w
                    } else {
                        np < 0
                    }
                },
        decreases cur.len() - i,
    {
        let h = &current[i];
        let ghost before = out@;
        proof {
            assert(cur.take(i + 1).drop_last() =~= cur.take(i as int));
            lemma_history_at_bounds(cur.take(i as int), h.region@);
            if history_at(cur.take(i as int), h.region@) >= 0 {
                let q = history_at(cur.take(i as int), h.region@);
                assert(cur.take(i as int)[q] == cur[q]);
                assert(cur[q].region@ != cur[i as int].region@);
            }
            lemma_history_at_bounds(before, h.region@);
        }
        let kept = keep_last(&h.entries, m);
        if kept.len() > 0 {
            out.push(RegionHistory { region: h.region.clone(), entries: kept });
            proof {
                assert(out@.drop_last() =~= before);
                assert forall|j: int| 0 <= j < before.len() implies #[trigger] out@[j] == before[j] by {
                    assert(out@.drop_last()[j] == out@[j]);
                }
                assert forall|a: int, b: int| 0 <= a < b < out@.len() implies (#[trigger] out@[a].region@)
                    != (#[trigger] out@[b].region@) by {
                    if b == out@.len() - 1 && out@[a].region@ == out@[b].region@ {
                        assert(before[a].region@ == h.region@);
                    }
                }
            }
        }
        proof {
            assert forall|region: Seq<char>|
                #![trigger history_at(out@, region)]
                {
                    let hp = history_at(cur.take(i + 1), region);
                    let w = if hp >= 0 { last_k(cur[hp].entries@, m as int) } else { Seq::empty() };
                    let np = history_at(out@, region);
                    if w.len() > 0 {
                        np >= 0 && out@[np].entries@ == w
                    } else {
                        np < 0
                    }
                } by {
                lemma_history_at_bounds(before, region);
                lemma_history_at_bounds(cur.take(i as int), region);
                let hp0 = history_at(cur.take(i as int), region);
                let np0 = history_at(before, region);
                if region != h.region@ {
                    assert(cur.take(i + 1).last() == cur[i as int]);
                    assert(history_at(cur.take(i + 1), region) == hp0);
                    if hp0 >= 0 {
                        assert(cur.take(i as int)[hp0] == cur[hp0]);
                    }
                    if out@.len() > before.len() {
                        assert(out@.last().region@ == h.region@);
                        assert(history_at(out@, region) == np0);
                    } else {
                        assert(out@ == before);
                    }
                } else {
                    assert(cur.take(i + 1).last() == cur[i as int]);
                    assert(history_at(cur.take(i + 1), region) == i);
                    assert(hp0 < 0);
                    if out@.len() > before.len() {
                        assert(out@.last().region@ == region);
                    } else {
                        assert(out@ == before);
                    }
                }
            }
        }
        i += 1;
    }
    assert(cur.take(cur.len() as int) =~= cur);
    proof {
        assert forall|region: Seq<char>|
            #![trigger history_at(out@, region)]
            holds_window(out@, cur, ad, now, m as int, region, 0) by {
            assert(history_of(cur, region) + added(ad, region, now, 0) =~= history_of(cur, region));
        }
    }
    let mut l: usize = 0;
    while l < adds.len()
        invariant
            cur == current@,
            ad == adds@,
            m == window_size + 1,
            m >= 1,
            l <= ad.len(),
            distinct_regions(out@),
            forall|region: Seq<char>|
                #![trigger history_at(out@, region)]
                holds_window(out@, cur, ad, now, m as int, region, l as int),
        decreases ad.len() - l,
    {
        let region = &adds[l].0;
        let entry = (now, adds[l].1);
        let ghost before = out@;
        let ghost base = history_of(cur, region@) + added(ad, region@, now, l as int);
        proof {
            lemma_history_at_bounds(before, region@);
            lemma_last_k_push(base, entry, m as int);
            assert(base.push(entry) =~= history_of(cur, region@) + added(ad, region@, now, l + 1));
        }
        match find_history(&out, region) {
            Some(pos) => {
                let mut entries = keep_last(&out[pos].entries, m);
                entries.push(entry);
                let entries = keep_last(&entries, m);
                out.set(pos, RegionHistory { region: region.clone(), entries });
                proof {
                    assert forall|a: int, b: int| 0 <= a < b < out@.len() implies (#[trigger] out@[a].region@)
                        != (#[trigger] out@[b].region@) by {
                        assert(before[a].region@ != before[b].region@);
                    }
                    lemma_history_at_unique(out@, region@, pos as int);
                    assert forall|r: Seq<char>|
                        #![trigger history_at(out@, r)]
                        holds_window(out@, cur, ad, now, m as int, r, l + 1) by {
                        lemma_history_at_bounds(before, r);
                        lemma_history_at_bounds(out@, r);
                        if r != region@ {
                            assert(added(ad, r, now, l + 1) =~= added(ad, r, now, l as int));
                            let np = history_at(before, r);
                            if np >= 0 {
                                lemma_history_at_unique(out@, r, np);
                            } else if history_at(out@, r) >= 0 {
                                assert(before[history_at(out@, r)].region@ == r);
                            }
                        }
                    }
                }
            },
            None => {
                let mut entries = Vec::new();
                entries.push(entry);
                out.push(RegionHistory { region: region.clone(), entries });
                proof {
                    assert(out@.drop_last() =~= before);
                    assert forall|j: int| 0 <= j < before.len() implies #[trigger] out@[j] == before[j] by {
                        assert(out@.drop_last()[j] == out@[j]);
                    }
                    assert forall|a: int, b: int| 0 <= a < b < out@.len() implies (#[trigger] out@[a].region@)
                        != (#[trigger] out@[b].region@) by {
                        if b == out@.len() - 1 && out@[a].region@ == out@[b].region@ {
                            assert(before[a].region@ == region@);
                        }
                    }
                    assert(base.len() == 0);
                    assert(base.push(entry) =~= seq![entry]);
                    assert forall|r: Seq<char>|
                        #![trigger history_at(out@, r)]
                        holds_window(out@, cur, ad, now, m as int, r, l + 1) by {
                        lemma_history_at_bounds(before, r);
                        if r != region@ {
                            assert(added(ad, r, now, l + 1) =~= added(ad, r, now, l as int));
                            assert(out@.last().region@ == region@);
                            assert(history_at(out@, r) == history_at(before, r));
                        } else {
                            assert(out@.last().region@ == r);
                            assert(history_at(out@, r) == out@.len() - 1);
                            assert(out@.last().entries@ =~= seq![entry]);
                            assert(added(ad, r, now, l + 1) =~= added(ad, r, now, l as int).push(entry));
                            assert(last_k(seq![entry], m as int) =~= seq![entry]);
                        }
                    }
                }
            },
        }
        l += 1;
    }
    out
}

/// What a rate is measured from: over the last `window_size + 1` entries of
/// a history, the first and last values and the whole days between their
/// dates; none with fewer than two entries or no whole day between them.
pub open spec fn spec_rate_span(history: Seq<(DateTime, Real)>, window_size: int) -> Option<(Real, Real, int)> {
    let w = last_k(history, window_size + 1);
    if w.len() < 2 {
        None
    } else {
        let days = whole_days_between(w[0].0.secs as int, w.last().0.secs as int);
        if days <= 0 {
            None
        } else {
            Some((w[0].1, w.last().1, days))
        }
    }
}

/// The span a rate is measured over: the first and last values of the
/// window and the whole days between them, when there is such a span.
pub fn rate_span(history: &Vec<(DateTime, Real)>, window_size: usize) -> (r: Option<(Real, Real, i64)>)
    ensures
        match r {
            Some((first, last, days)) => spec_rate_span(history@, window_size as int) == Some(
                (first, last, days as int),
            ),
            None => spec_rate_span(history@, window_size as int) is None,
        },
{
    let window = if window_size < usize::MAX {
        keep_last(history, window_size + 1)
    } else {
        let all = keep_last(history, usize::MAX);
        let n: usize = history.len();
        assert(history@.len() == n);
        assert(all@ == last_k(history@, window_size + 1));
        all
    };
    assert(window@ == last_k(history@, window_size + 1));
    if window.len() < 2 {
        return None;
    }
    let (first_date, first_value) = window[0];
    let (last_date, last_value) = window[window.len() - 1];
    let days = days_between(first_date, last_date);
    if days <= 0 {
        None
    } else {
        Some((first_value, last_value, days))
    }
}

} // verus!
