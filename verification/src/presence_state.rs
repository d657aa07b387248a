//! The records a presence field keeps from one keyframe to the next: for
//! each region and record key, the latest record projected there, until it
//! expires.
use vstd::prelude::*;

use crate::model::{copy_pairs, Contribution, PresenceRecord, Projection};
use crate::presence::{is_expired, spec_expired};
use crate::text::{copy_opt_string, text_eq};
use crate::time::DateTime;

verus! {

/// A record kept for a region (by the region's key).
#[derive(Debug)]
pub struct StoredRecord {
    pub region: String,
    pub record: PresenceRecord,
}

/// Whether `a` is a copy of `b`.
pub open spec fn same_record(a: PresenceRecord, b: PresenceRecord) -> bool {
    &&& a.key == b.key
    &&& a.record_type == b.record_type
    &&& a.attributes@ == b.attributes@
    &&& a.valid_from == b.valid_from
    &&& a.valid_until == b.valid_until
}

/// Whether entry `i` is for the given region and record key.
pub open spec fn entry_for(s: Seq<StoredRecord>, i: int, region: Seq<char>, key: Seq<char>) -> bool {
    s[i].region@ == region && s[i].record.key@ == key
}

/// Whether no two entries are for the same region and record key.
pub open spec fn distinct_entries(s: Seq<StoredRecord>) -> bool {
    forall|i: int, j: int|
        0 <= i < j < s.len() ==> !(#[trigger] s[i].region@ == #[trigger] s[j].region@ && s[i].record.key@
            == s[j].record.key@)
}

/// The position of the entry for a region and record key, or -1 (the last
/// such entry; there is at most one in a state with distinct entries).
pub open spec fn stored_at(s: Seq<StoredRecord>, region: Seq<char>, key: Seq<char>) -> int
    decreases s.len(),
{
    if s.len() == 0 {
        -1
    } else if entry_for(s, s.len() - 1, region, key) {
        s.len() - 1
    } else {
        stored_at(s.drop_last(), region, key)
    }
}

/// The record a presence projection carries.
pub open spec fn carried(p: Projection) -> PresenceRecord {
    p.contribution->Presence_0
}

/// Whether projection `l` projects a record with the given key into the given region.
pub open spec fn projects(ps: Seq<&Projection>, keys: Seq<String>, l: int, region: Seq<char>, key: Seq<char>) -> bool {
    &&& keys[l]@ == region
    &&& ps[l].contribution is Presence
    &&& carried(*ps[l]).key@ == key
}

/// The last of the first `n` projections that projects a record with the
/// given key into the given region, or -1.
pub open spec fn projected_last(ps: Seq<&Projection>, keys: Seq<String>, region: Seq<char>, key: Seq<char>, n: int) -> int
    decreases n,
{
    if n <= 0 {
        -1
    } else if projects(ps, keys, n - 1, region, key) {
        n - 1
    } else {
        projected_last(ps, keys, region, key, n - 1)
    }
}

/// What a state keeps for a region and record key after a keyframe at `now`
/// whose first `n` projections are applied: the last of them projected
/// there; else the record kept before, unless it has expired; else nothing.
pub open spec fn keeps(
    out: Seq<StoredRecord>,
    current: Seq<StoredRecord>,
    ps: Seq<&Projection>,
    keys: Seq<String>,
    now: DateTime,
    region: Seq<char>,
    key: Seq<char>,
    n: int,
) -> bool {
    let lp = projected_last(ps, keys, region, key, n);
    let cp = stored_at(current, region, key);
    let np = stored_at(out, region, key);
    if lp >= 0 {
        np >= 0 && out[np].region@ == region && same_record(out[np].record, carried(*ps[lp]))
    } else if cp >= 0 && !spec_expired(current[cp].record, now) {
        np >= 0 && out[np].region@ == region && same_record(out[np].record, current[cp].record)
    } else {
        np < 0
    }
}

proof fn lemma_stored_at_bounds(s: Seq<StoredRecord>, region: Seq<char>, key: Seq<char>)
    ensures
        -1 <= stored_at(s, region, key) < s.len(),
        stored_at(s, region, key) >= 0 ==> entry_for(s, stored_at(s, region, key), region, key),
        stored_at(s, region, key) < 0 ==> forall|i: int| 0 <= i < s.len() ==> !#[trigger] entry_for(s, i, region, key),
    decreases s.len(),
{
    if s.len() > 0 && !entry_for(s, s.len() - 1, region, key) {
        lemma_stored_at_bounds(s.drop_last(), region, key);
        if stored_at(s, region, key) < 0 {
            assert forall|i: int| 0 <= i < s.len() implies !#[trigger] entry_for(s, i, region, key) by {
                if i < s.len() - 1 {
                    assert(entry_for(s.drop_last(), i, region, key) == entry_for(s, i, region, key));
                }
            }
        }
    }
}

proof fn lemma_stored_at_unique(s: Seq<StoredRecord>, region: Seq<char>, key: Seq<char>, p: int)
    requires
        distinct_entries(s),
        0 <= p < s.len(),
        entry_for(s, p, region, key),
    ensures
        stored_at(s, region, key) == p,
{
    lemma_stored_at_bounds(s, region, key);
    let q = stored_at(s, region, key);
    if q != p {
        if q < p {
            assert(s[q].region@ == s[p].region@);
        } else if q > p {
            assert(s[p].region@ == s[q].region@);
        }
    }
}

/// A copy of a presence record.
pub fn copy_record(rec: &PresenceRecord) -> (out: PresenceRecord)
    ensures
        same_record(out, *rec),
{
    PresenceRecord {
        key: rec.key.clone(),
        record_type: copy_opt_string(&rec.record_type),
        attributes: copy_pairs(&rec.attributes),
        valid_from: rec.valid_from,
        valid_until: rec.valid_until,
    }
}

/// The position of the entry for a region and record key.
fn find_stored(s: &Vec<StoredRecord>, region: &String, key: &String) -> (r: Option<usize>)
    ensures
        match r {
            Some(p) => p as int == stored_at(s@, region@, key@) && p < s@.len(),
            None => stored_at(s@, region@, key@) == -1,
        },
{
    let mut i: usize = s.len();
    assert(s@.take(s@.len() as int) =~= s@);
    while i > 0
        invariant
            i <= s@.len(),
            stored_at(s@, region@, key@) == stored_at(s@.take(i as int), region@, key@),
        decreases i,
    {
        assert(s@.take(i as int).drop_last() =~= s@.take(i - 1));
        let e = &s[i - 1];
        if text_eq(&e.region, region) && text_eq(&e.record.key, key) {
            return Some(i - 1);
        }
        i -= 1;
    }
    None
}

/// The state of a presence field after a keyframe at `now`: expired records
/// dropped, and each presence projection's record stored for its region
/// (`region_keys[l]` is the key of projection `l`'s region), replacing the
/// record with the same key there; later projections win.
pub fn update_presence_state(
    current: &Vec<StoredRecord>,
    projections: &Vec<&Projection>,
    region_keys: &Vec<String>,
    now: DateTime,
) -> (out: Vec<StoredRecord>)
    requires
        distinct_entries(current@),
        region_keys@.len() == projections@.len(),
    ensures
        distinct_entries(out@),
        forall|region: Seq<char>, key: Seq<char>|
            #![trigger stored_at(out@, region, key)]
            keeps(out@, current@, projections@, region_keys@, now, region, key, projections@.len() as int),
{
    let ghost cur = current@;
    let ghost ps = projections@;
    let ghost keys = region_keys@;
    let mut out: Vec<StoredRecord> = Vec::new();
    let mut i: usize = 0;
    while i < current.len()
        invariant
            cur == current@,
            distinct_entries(cur),
            i <= cur.len(),
            distinct_entries(out@),
            forall|region: Seq<char>, key: Seq<char>|
                #![trigger stored_at(out@, region, key)]
                {
                    let cp = stored_at(cur.take(i as int), region, key);
                    let np = stored_at(out@, region, key);
                    if cp >= 0 && !spec_expired(cur[cp].record, now) {
                        np >= 0 && out@[np].region@ == region && same_record(out@[np].record, cur[cp].record)
                    } else {
                        np < 0
                    }
                },
        decreases cur.len() - i,
    {
        let e = &current[i];
        let ghost before = out@;
        proof {
            assert(cur.take(i + 1).drop_last() =~= cur.take(i as int));
            lemma_stored_at_bounds(cur.take(i as int), e.region@, e.record.key@);
            if stored_at(cur.take(i as int), e.region@, e.record.key@) >= 0 {
                let q = stored_at(cur.take(i as int), e.region@, e.record.key@);
                assert(cur.take(i as int)[q] == cur[q]);
                assert(cur[q].region@ == cur[i as int].region@);
            }
            lemma_stored_at_bounds(before, e.region@, e.record.key@);
        }
        if !is_expired(&e.record, now) {
            let kept = StoredRecord { region: e.region.clone(), record: copy_record(&e.record) };
            out.push(kept);
            proof {
                assert(out@.drop_last() =~= before);
                assert forall|j: int| 0 <= j < before.len() implies #[trigger] out@[j] == before[j] by {
                    assert(out@.drop_last()[j] == out@[j]);
                }
                assert forall|a: int, b: int|
                    0 <= a < b < out@.len() implies !(#[trigger] out@[a].region@ == #[trigger] out@[b].region@
                        && out@[a].record.key@ == out@[b].record.key@) by {
                    if b == out@.len() - 1 && out@[a].region@ == out@[b].region@ && out@[a].record.key@
                        == out@[b].record.key@ {
                        assert(entry_for(before, a, e.region@, e.record.key@));
                    }
                }
            }
        }
        proof {
            assert forall|region: Seq<char>, key: Seq<char>|
                #![trigger stored_at(out@, region, key)]
                {
                    let cp = stored_at(cur.take(i + 1), region, key);
                    let np = stored_at(out@, region, key);
                    if cp >= 0 && !spec_expired(cur[cp].record, now) {
                        np >= 0 && out@[np].region@ == region && same_record(out@[np].record, cur[cp].record)
                    } else {
                        np < 0
                    }
                } by {
                let cp0 = stored_at(cur.take(i as int), region, key);
                let np0 = stored_at(before, region, key);
                lemma_stored_at_bounds(before, region, key);
                assert(cp0 >= 0 && !spec_expired(cur[cp0].record, now) ==> np0 >= 0 && before[np0].region@ == region
                    && same_record(before[np0].record, cur[cp0].record));
                assert(!(cp0 >= 0 && !spec_expired(cur[cp0].record, now)) ==> np0 < 0);
                if !(region == e.region@ && key == e.record.key@) {
                    assert(!entry_for(cur.take(i + 1), i as int, region, key));
                    assert(stored_at(cur.take(i + 1), region, key) == cp0);
                    if out@.len() > before.len() {
                        assert(!entry_for(out@, out@.len() - 1, region, key));
                        assert(stored_at(out@, region, key) == np0);
                        if np0 >= 0 {
                            assert(out@[np0] == before[np0]);
                        }
                    } else {
                        assert(out@ == before);
                    }
                } else {
                    assert(entry_for(cur.take(i + 1), i as int, region, key));
                    assert(stored_at(cur.take(i + 1), region, key) == i);
                    assert(cur.take(i + 1)[i as int] == cur[i as int]);
                    assert(cp0 < 0);
                    if out@.len() > before.len() {
                        assert(entry_for(out@, out@.len() - 1, region, key));
                    } else {
                        assert(out@ == before);
                        assert(spec_expired(cur[i as int].record, now));
                    }
                }
            }
        }
        i += 1;
    }
    assert(cur.take(cur.len() as int) =~= cur);
    let mut l: usize = 0;
    while l < projections.len()
        invariant
            cur == current@,
            ps == projections@,
            keys == region_keys@,
            keys.len() == ps.len(),
            l <= ps.len(),
            distinct_entries(out@),
            forall|region: Seq<char>, key: Seq<char>|
                #![trigger stored_at(out@, region, key)]
                keeps(out@, cur, ps, keys, now, region, key, l as int),
        decreases ps.len() - l,
    {
        let p: &Projection = projections[l];
        if let Contribution::Presence(rec) = &p.contribution {
            let region = &region_keys[l];
            let ghost before = out@;
            let entry = StoredRecord { region: region.clone(), record: copy_record(rec) };
            match find_stored(&out, region, &rec.key) {
                Some(pos) => {
                    out.set(pos, entry);
                    proof {
                        lemma_stored_at_bounds(before, region@, rec.key@);
                        assert forall|a: int, b: int|
                            0 <= a < b < out@.len() implies !(#[trigger] out@[a].region@ == #[trigger] out@[b].region@
                                && out@[a].record.key@ == out@[b].record.key@) by {
                            assert(before[a].region@ == before[b].region@ ==> before[a].record.key@
                                != before[b].record.key@);
                        }
                        lemma_stored_at_unique(out@, region@, rec.key@, pos as int);
                        assert forall|r: Seq<char>, k: Seq<char>|
                            #![trigger stored_at(out@, r, k)]
                            keeps(out@, cur, ps, keys, now, r, k, l + 1) by {
                            lemma_stored_at_bounds(before, r, k);
                            lemma_stored_at_bounds(out@, r, k);
                            if !(r == region@ && k == rec.key@) {
                                let np = stored_at(before, r, k);
                                if np >= 0 {
                                    lemma_stored_at_unique(out@, r, k, np);
                                } else {
                                    assert(!entry_for(out@, pos as int, r, k));
                                    if stored_at(out@, r, k) >= 0 {
                                        assert(entry_for(before, stored_at(out@, r, k), r, k));
                                    }
                                }
                            }
                        }
                    }
                },
                None => {
                    out.push(entry);
                    proof {
                        lemma_stored_at_bounds(before, region@, rec.key@);
                        assert(out@.drop_last() =~= before);
                        assert forall|j: int| 0 <= j < before.len() implies #[trigger] out@[j] == before[j] by {
                            assert(out@.drop_last()[j] == out@[j]);
                        }
                        assert forall|a: int, b: int|
                            0 <= a < b < out@.len() implies !(#[trigger] out@[a].region@ == #[trigger] out@[b].region@
                                && out@[a].record.key@ == out@[b].record.key@) by {
                            if b == out@.len() - 1 && out@[a].region@ == out@[b].region@ && out@[a].record.key@
                                == out@[b].record.key@ {
                                assert(entry_for(before, a, region@, rec.key@));
                            }
                        }
                        assert forall|r: Seq<char>, k: Seq<char>|
                            #![trigger stored_at(out@, r, k)]
                            keeps(out@, cur, ps, keys, now, r, k, l + 1) by {
                            assert(stored_at(before, r, k) == stored_at(before, r, k));
                            lemma_stored_at_bounds(before, r, k);
                            if r == region@ && k == rec.key@ {
                                assert(projects(ps, keys, l as int, r, k));
                                assert(entry_for(out@, out@.len() - 1, r, k));
                            } else {
                                assert(!entry_for(out@, out@.len() - 1, r, k));
                                assert(stored_at(out@, r, k) == stored_at(before, r, k));
                                assert(!projects(ps, keys, l as int, r, k));
                            }
                        }
                    }
                },
            }
        }
        l += 1;
    }
    out
}

} // verus!
