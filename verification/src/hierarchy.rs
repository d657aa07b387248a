//! The region hierarchy capacity probes walk: from a region's key up through
//! its parents.
use vstd::prelude::*;

use crate::model::{pairs_view, Projection};
use crate::text::text_eq;

verus! {

/// The parent key of a child key: the first pair naming that child.
pub open spec fn parent_of(h: Seq<(Seq<char>, Seq<char>)>, key: Seq<char>) -> Option<Seq<char>>
    decreases h.len(),
{
    if h.len() == 0 {
        None
    } else if h[0].0 == key {
        Some(h[0].1)
    } else {
        parent_of(h.drop_first(), key)
    }
}

/// The walk from a key up through its parents, the key first, when it ends
/// within `n` keys; `None` when it is longer (a cycle never ends).
pub open spec fn ancestry(h: Seq<(Seq<char>, Seq<char>)>, key: Seq<char>, n: nat) -> Option<Seq<Seq<char>>>
    decreases n,
{
    if n == 0 {
        None
    } else {
        match parent_of(h, key) {
            None => Some(seq![key]),
            Some(p) => match ancestry(h, p, (n - 1) as nat) {
                Some(rest) => Some(seq![key] + rest),
                None => None,
            },
        }
    }
}

/// The walk from a key, when it ends; a walk that ends visits at most one
/// key more than there are pairs, so a longer one loops back on itself.
pub open spec fn walk(h: Seq<(Seq<char>, Seq<char>)>, key: Seq<char>) -> Option<Seq<Seq<char>>> {
    ancestry(h, key, (h.len() + 1) as nat)
}

/// The walk from a key through a hierarchy of texts, when it ends.
pub open spec fn spec_ancestors(h: Seq<(String, String)>, key: Seq<char>) -> Option<Seq<Seq<char>>> {
    walk(pairs_view(h), key)
}

/// The views of a list of texts.
pub open spec fn views(v: Seq<String>) -> Seq<Seq<char>> {
    v.map_values(|s: String| s@)
}

/// The parent key of a child key.
fn find_parent<'a>(h: &'a Vec<(String, String)>, key: &String) -> (r: Option<&'a String>)
    ensures
        match r {
            Some(p) => parent_of(pairs_view(h@), key@) == Some(p@),
            None => parent_of(pairs_view(h@), key@) is None,
        },
{
    let ghost hv = pairs_view(h@);
    let mut i: usize = 0;
    assert(hv.skip(0) =~= hv);
    while i < h.len()
        invariant
            hv == pairs_view(h@),
            i <= h@.len(),
            parent_of(hv, key@) == parent_of(hv.skip(i as int), key@),
        decreases h@.len() - i,
    {
        assert(hv.skip(i as int)[0] == (h@[i as int].0@, h@[i as int].1@));
        assert(hv.skip(i as int).drop_first() =~= hv.skip(i + 1));
        if text_eq(&h[i].0, key) {
            return Some(&h[i].1);
        }
        i += 1;
    }
    None
}

/// Whether the walk from a key up through its parents ends.
pub fn ancestry_ends(key: &String, hierarchy: &Vec<(String, String)>) -> (r: bool)
    ensures
        r == spec_ancestors(hierarchy@, key@) is Some,
{
    let mut current: String = key.clone();
    let mut left: u128 = hierarchy.len() as u128 + 1;
    while left > 0
        invariant
            (spec_ancestors(hierarchy@, key@) is Some) == (ancestry(pairs_view(hierarchy@), current@, left as nat) is Some),
        decreases left,
    {
        match find_parent(hierarchy, &current) {
            None => {
                return true;
            },
            Some(p) => {
                current = p.clone();
                left -= 1;
            },
        }
    }
    false
}

/// The region keys a capacity probe sees: its own key, then its parent's,
/// and so on up the hierarchy.
pub fn ancestor_keys(key: &String, hierarchy: &Vec<(String, String)>) -> (out: Vec<String>)
    requires
        spec_ancestors(hierarchy@, key@) is Some,
    ensures
        views(out@) == spec_ancestors(hierarchy@, key@)->0,
{
    let ghost full = spec_ancestors(hierarchy@, key@)->0;
    let ghost mut n: nat = (hierarchy@.len() + 1) as nat;
    let mut out: Vec<String> = vec![key.clone()];
    let mut current: String = key.clone();
    assert(views(out@) =~= seq![key@]);
    loop
        invariant
            full == spec_ancestors(hierarchy@, key@)->0,
            n >= 1,
            ancestry(pairs_view(hierarchy@), current@, n) is Some,
            views(out@) + ancestry(pairs_view(hierarchy@), current@, n)->0.drop_first() == full,
            out@.len() >= 1,
            views(out@).last() == current@,
        decreases n,
    {
        match find_parent(hierarchy, &current) {
            None => {
                let ghost last = ancestry(pairs_view(hierarchy@), current@, n)->0;
                assert(last =~= seq![current@]);
                assert(last.drop_first() =~= Seq::<Seq<char>>::empty());
                assert(views(out@) + last.drop_first() =~= views(out@));
                return out;
            },
            Some(p) => {
                let ghost before = views(out@);
                let ghost rest = ancestry(pairs_view(hierarchy@), p@, (n - 1) as nat)->0;
                assert(ancestry(pairs_view(hierarchy@), current@, n)->0 == seq![current@] + rest);
                out.push(p.clone());
                current = p.clone();
                proof {
                    n = (n - 1) as nat;
                    assert(views(out@) =~= before.push(current@));
                    assert((seq![before.last()] + rest).drop_first() =~= rest);
                    assert(rest.len() >= 1);
                    assert(views(out@) + rest.drop_first() =~= before + rest);
                }
            },
        }
    }
}

// ── Which projections a capacity probe counts ──

/// Whether projection `i` is on the field and overlaps region `a` of the walk
/// (`ov[a][i]`, measured by the caller).
pub open spec fn eligible(ps: Seq<&Projection>, field: Seq<char>, ov: Seq<Vec<bool>>, a: int, i: int) -> bool {
    ps[i].field_name@ == field && ov[a]@[i]
}

/// Whether position (a2, i2) comes before (a, i): an earlier region, or the
/// same region and an earlier projection.
pub open spec fn before(a2: int, i2: int, a: int, i: int) -> bool {
    a2 < a || (a2 == a && i2 < i)
}

/// Whether projection `i` is counted at region `a`: it is eligible there and
/// no eligible projection with its ID came before.
pub open spec fn counted(ps: Seq<&Projection>, field: Seq<char>, ov: Seq<Vec<bool>>, a: int, i: int) -> bool {
    &&& eligible(ps, field, ov, a, i)
    &&& forall|a2: int, i2: int|
        0 <= a2 && 0 <= i2 < ps.len() && before(a2, i2, a, i) && #[trigger] eligible(ps, field, ov, a2, i2) ==> ps[i2].id@
            != ps[i].id@
}

/// The projections counted at region `a` among the first `i`, in order.
pub open spec fn counted_in_row(ps: Seq<&Projection>, field: Seq<char>, ov: Seq<Vec<bool>>, a: int, i: int) -> Seq<int>
    decreases i,
{
    if i <= 0 {
        Seq::empty()
    } else {
        counted_in_row(ps, field, ov, a, i - 1) + if counted(ps, field, ov, a, i - 1) {
            seq![i - 1]
        } else {
            Seq::empty()
        }
    }
}

/// The projections counted at the first `a` regions, region by region.
pub open spec fn counted_upto(ps: Seq<&Projection>, field: Seq<char>, ov: Seq<Vec<bool>>, a: int) -> Seq<int>
    decreases a,
{
    if a <= 0 {
        Seq::empty()
    } else {
        counted_upto(ps, field, ov, a - 1) + counted_in_row(ps, field, ov, a - 1, ps.len() as int)
    }
}

/// Positions as integers.
pub open spec fn positions(v: Seq<usize>) -> Seq<int> {
    v.map_values(|i: usize| i as int)
}

/// Whether some eligible projection with the given ID comes before (a, i).
pub open spec fn id_seen(ps: Seq<&Projection>, field: Seq<char>, ov: Seq<Vec<bool>>, a: int, i: int, id: Seq<char>) -> bool {
    exists|a2: int, i2: int|
        0 <= a2 && 0 <= i2 < ps.len() && before(a2, i2, a, i) && #[trigger] eligible(ps, field, ov, a2, i2) && ps[i2].id@
            == id
}

/// The positions of the projections a capacity probe counts, in the order it
/// adds them: region by region along the walk (`overlaps[a][i]` tells whether
/// projection `i` overlaps region `a`), each projection on the field that
/// overlaps the region, skipping any whose ID was counted already.
pub fn capacity_contributors(projections: &Vec<&Projection>, field_name: &String, overlaps: &Vec<Vec<bool>>) -> (out: Vec<usize>)
    requires
        forall|a: int| 0 <= a < overlaps@.len() ==> (#[trigger] overlaps@[a])@.len() == projections@.len(),
    ensures
        positions(out@) == counted_upto(projections@, field_name@, overlaps@, overlaps@.len() as int),
        forall|j: int, k: int|
            0 <= j < k < out@.len() ==> projections@[out@[j] as int].id@ != projections@[out@[k] as int].id@,
{
    let ghost ps = projections@;
    let ghost field = field_name@;
    let ghost ov = overlaps@;
    let n = projections.len();
    let mut out: Vec<usize> = Vec::new();
    let mut seen: Vec<String> = Vec::new();
    let mut a: usize = 0;
    while a < overlaps.len()
        invariant
            ps == projections@,
            field == field_name@,
            ov == overlaps@,
            n == ps.len(),
            forall|b: int| 0 <= b < ov.len() ==> (#[trigger] ov[b])@.len() == n,
            a <= ov.len(),
            positions(out@) == counted_upto(ps, field, ov, a as int),
            seen@.len() == out@.len(),
            forall|k: int| 0 <= k < out@.len() ==> #[trigger] out@[k] < n,
            forall|k: int| 0 <= k < out@.len() ==> (#[trigger] seen@[k])@ == ps[out@[k] as int].id@,
            forall|j: int, k: int| 0 <= j < k < seen@.len() ==> (#[trigger] seen@[j])@ != (#[trigger] seen@[k])@,
            forall|id: Seq<char>|
                #![trigger id_seen(ps, field, ov, a as int, 0, id)]
                id_seen(ps, field, ov, a as int, 0, id) <==> exists|k: int| 0 <= k < seen@.len() && (#[trigger] seen@[k])@ == id,
        decreases ov.len() - a,
    {
        let row = &overlaps[a];
        let mut i: usize = 0;
        let ghost start = positions(out@);
        while i < n
            invariant
                ps == projections@,
                field == field_name@,
                ov == overlaps@,
                n == ps.len(),
                forall|b: int| 0 <= b < ov.len() ==> (#[trigger] ov[b])@.len() == n,
                a < ov.len(),
                *row == ov[a as int],
                i <= n,
                start == counted_upto(ps, field, ov, a as int),
                positions(out@) == start + counted_in_row(ps, field, ov, a as int, i as int),
                seen@.len() == out@.len(),
                forall|k: int| 0 <= k < out@.len() ==> #[trigger] out@[k] < n,
            forall|k: int| 0 <= k < out@.len() ==> (#[trigger] seen@[k])@ == ps[out@[k] as int].id@,
                forall|j: int, k: int| 0 <= j < k < seen@.len() ==> (#[trigger] seen@[j])@ != (#[trigger] seen@[k])@,
                forall|id: Seq<char>|
                    #![trigger id_seen(ps, field, ov, a as int, i as int, id)]
                    id_seen(ps, field, ov, a as int, i as int, id) <==> exists|k: int|
                        0 <= k < seen@.len() && (#[trigger] seen@[k])@ == id,
            decreases n - i,
        {
            let p: &Projection = projections[i];
            let ghost before_out = out@;
            let ghost before_seen = seen@;
            let mut found = false;
            let mut k: usize = 0;
            while k < seen.len()
                invariant
                    k <= seen@.len(),
                    found <==> exists|m: int| 0 <= m < k && (#[trigger] seen@[m])@ == p.id@,
                decreases seen@.len() - k,
            {
                if text_eq(&seen[k], &p.id) {
                    found = true;
                }
                k += 1;
            }
            let is_eligible = text_eq(&p.field_name, field_name) && row[i];
            proof {
                assert(is_eligible == eligible(ps, field, ov, a as int, i as int));
                assert(found == id_seen(ps, field, ov, a as int, i as int, p.id@));
                if is_eligible && !found {
                    assert forall|a2: int, i2: int|
                        0 <= a2 && 0 <= i2 < ps.len() && before(a2, i2, a as int, i as int) && #[trigger] eligible(
                            ps,
                            field,
                            ov,
                            a2,
                            i2,
                        ) implies ps[i2].id@ != ps[i as int].id@ by {
                        if ps[i2].id@ == ps[i as int].id@ {
                            assert(id_seen(ps, field, ov, a as int, i as int, p.id@));
                        }
                    }
                    assert(counted(ps, field, ov, a as int, i as int));
                } else if is_eligible {
                    let (a2, i2) = choose|a2: int, i2: int|
                        0 <= a2 && 0 <= i2 < ps.len() && before(a2, i2, a as int, i as int) && #[trigger] eligible(
                            ps,
                            field,
                            ov,
                            a2,
                            i2,
                        ) && ps[i2].id@ == p.id@;
                    assert(eligible(ps, field, ov, a2, i2) && ps[i2].id@ == ps[i as int].id@);
                    assert(!counted(ps, field, ov, a as int, i as int));
                }
            }
            if is_eligible && !found {
                out.push(i);
                seen.push(p.id.clone());
                proof {
                    assert(positions(out@) =~= positions(before_out).push(i as int));
                }
            }
            proof {
                assert(positions(out@) =~= start + counted_in_row(ps, field, ov, a as int, i + 1))
                    by {
                    assert(positions(before_out) == start + counted_in_row(
                        ps,
                        field,
                        ov,
                        a as int,
                        i as int,
                    ));
                }
                assert forall|id: Seq<char>|
                    #![trigger id_seen(ps, field, ov, a as int, i + 1, id)]
                    id_seen(ps, field, ov, a as int, i + 1, id) <==> exists|m: int|
                        0 <= m < seen@.len() && (#[trigger] seen@[m])@ == id by {
                    if id_seen(ps, field, ov, a as int, i + 1, id) {
                        let (a2, i2) = choose|a2: int, i2: int|
                            0 <= a2 && 0 <= i2 < ps.len() && before(a2, i2, a as int, i + 1) && #[trigger] eligible(
                                ps,
                                field,
                                ov,
                                a2,
                                i2,
                            ) && ps[i2].id@ == id;
                        if before(a2, i2, a as int, i as int) {
                            assert(id_seen(ps, field, ov, a as int, i as int, id));
                            let m = choose|m: int| 0 <= m < before_seen.len() && (#[trigger] before_seen[m])@ == id;
                            assert(seen@[m] == before_seen[m]);
                        } else {
                            assert(i2 == i);
                            if found {
                                let m = choose|m: int| 0 <= m < k && (#[trigger] seen@[m])@ == p.id@;
                                assert(seen@[m]@ == id);
                            } else {
                                assert(seen@[seen@.len() - 1]@ == id);
                            }
                        }
                    }
                    if exists|m: int| 0 <= m < seen@.len() && (#[trigger] seen@[m])@ == id {
                        let m = choose|m: int| 0 <= m < seen@.len() && (#[trigger] seen@[m])@ == id;
                        if m < before_seen.len() {
                            assert(seen@[m] == before_seen[m]);
                            assert(id_seen(ps, field, ov, a as int, i as int, id));
                            let (a2, i2) = choose|a2: int, i2: int|
                                0 <= a2 && 0 <= i2 < ps.len() && before(a2, i2, a as int, i as int)
                                    && #[trigger] eligible(ps, field, ov, a2, i2) && ps[i2].id@ == id;
                            assert(before(a2, i2, a as int, i + 1));
                        } else {
                            assert(eligible(ps, field, ov, a as int, i as int));
                            assert(before(a as int, i as int, a as int, i + 1));
                        }
                    }
                }
                assert forall|q: int| 0 <= q < out@.len() implies #[trigger] out@[q] < n && seen@[q]@
                    == ps[out@[q] as int].id@ by {
                    if q < before_out.len() {
                        assert(out@[q] == before_out[q]);
                        assert(seen@[q] == before_seen[q]);
                    }
                }
                assert forall|j: int, q: int| 0 <= j < q < seen@.len() implies (#[trigger] seen@[j])@
                    != (#[trigger] seen@[q])@ by {
                    if q == before_seen.len() {
                        assert(seen@[j] == before_seen[j]);
                        if before_seen[j]@ == p.id@ {
                            assert(exists|m: int| 0 <= m < k && (#[trigger] seen@[m])@ == p.id@);
                        }
                    } else {
                        assert(seen@[j] == before_seen[j]);
                        assert(seen@[q] == before_seen[q]);
                    }
                }
            }
            i += 1;
        }
        proof {
            assert(counted_upto(ps, field, ov, a + 1) == start + counted_in_row(ps, field, ov, a as int, n as int));
            assert forall|id: Seq<char>|
                #![trigger id_seen(ps, field, ov, a + 1, 0, id)]
                id_seen(ps, field, ov, a + 1, 0, id) == id_seen(ps, field, ov, a as int, n as int, id) by {
                if id_seen(ps, field, ov, a + 1, 0, id) {
                    let (a2, i2) = choose|a2: int, i2: int|
                        0 <= a2 && 0 <= i2 < ps.len() && before(a2, i2, a + 1, 0) && #[trigger] eligible(
                            ps,
                            field,
                            ov,
                            a2,
                            i2,
                        ) && ps[i2].id@ == id;
                    assert(before(a2, i2, a as int, n as int));
                }
                if id_seen(ps, field, ov, a as int, n as int, id) {
                    let (a2, i2) = choose|a2: int, i2: int|
                        0 <= a2 && 0 <= i2 < ps.len() && before(a2, i2, a as int, n as int) && #[trigger] eligible(
                            ps,
                            field,
                            ov,
                            a2,
                            i2,
                        ) && ps[i2].id@ == id;
                    assert(before(a2, i2, a + 1, 0));
                }
            }
        }
        a += 1;
    }
    proof {
        assert forall|j: int, k: int| 0 <= j < k < out@.len() implies projections@[out@[j] as int].id@
            != projections@[out@[k] as int].id@ by {
            assert(seen@[j]@ != seen@[k]@);
        }
    }
    out
}

} // verus!
