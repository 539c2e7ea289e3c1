//! How equal scores are ordered.
use vstd::prelude::*;

use crate::search::{
    best_of, by_score, insert_hit, place_found, place_of, ranking, total_rank, CandidateText,
    HitText,
};

verus! {

/// Whether `x` stands before `y` in a list.
pub open spec fn stand_in_order(s: Seq<HitText>, x: HitText, y: HitText) -> bool {
    exists|a: int, b: int| 0 <= a < b < s.len() && #[trigger] s[a] == x && #[trigger] s[b] == y
}

/// Whether equal scores in `t` stand in the order in which they do in `s`, and
/// all that is in `t` is in `s`.
pub open spec fn keeps_ties(t: Seq<HitText>, s: Seq<HitText>) -> bool {
    &&& forall|i: int| 0 <= i < t.len() ==> s.contains(#[trigger] t[i])
    &&& forall|i: int, j: int|
        #![trigger t[i], t[j]]
        0 <= i < j < t.len() && total_rank(t[i].score) == total_rank(t[j].score)
            ==> stand_in_order(s, t[i], t[j])
}

proof fn more_keep_order(s: Seq<HitText>, x: HitText, y: HitText, z: HitText)
    requires
        stand_in_order(s, x, y),
    ensures
        stand_in_order(s.push(z), x, y),
{
    let (a, b) = choose|a: int, b: int|
        0 <= a < b < s.len() && #[trigger] s[a] == x && #[trigger] s[b] == y;
    assert(s.push(z)[a] == x && s.push(z)[b] == y);
}

/// A hit is put in behind all that score as high as it does.
proof fn put_behind_equals(t: Seq<HitText>, x: HitText) -> (p: int)
    ensures
        0 <= p <= t.len(),
        insert_hit(t, x) == t.take(p).push(x) + t.skip(p),
        forall|k: int| p <= k < t.len() ==> total_rank(#[trigger] t[k].score) < total_rank(x.score),
    decreases t.len(),
{
    if t.len() == 0 || total_rank(t.last().score) >= total_rank(x.score) {
        assert(t.take(t.len() as int).push(x) + t.skip(t.len() as int) =~= t.push(x));
        t.len() as int
    } else {
        let d = t.drop_last();
        let p = put_behind_equals(d, x);
        assert(insert_hit(t, x) =~= t.take(p).push(x) + t.skip(p));
        assert forall|k: int| p <= k < t.len() implies total_rank(#[trigger] t[k].score)
            < total_rank(x.score) by {
            if k < d.len() {
                assert(d[k] == t[k]);
            }
        }
        p
    }
}

/// Sorting by score keeps hits of equal score in the order in which they came.
pub proof fn sorting_keeps_ties_in_order(s: Seq<HitText>)
    ensures
        keeps_ties(by_score(s), s),
    decreases s.len(),
{
    if s.len() > 0 {
        let d = s.drop_last();
        let x = s.last();
        sorting_keeps_ties_in_order(d);
        let t = by_score(d);
        let p = put_behind_equals(t, x);
        let r = by_score(s);
        assert(d.push(x) =~= s);
        assert(s[s.len() - 1] == x);
        assert forall|i: int| 0 <= i < r.len() implies s.contains(#[trigger] r[i]) by {
            if i != p {
                let k = if i < p {
                    i
                } else {
                    i - 1
                };
                assert(r[i] == t[k]);
                assert(d.contains(t[k]));
                let a = choose|a: int| 0 <= a < d.len() && d[a] == t[k];
                assert(s[a] == t[k]);
            }
        }
        assert forall|i: int, j: int|
            #![trigger r[i], r[j]]
            0 <= i < j < r.len() && total_rank(r[i].score) == total_rank(
                r[j].score,
            ) implies stand_in_order(s, r[i], r[j]) by {
            if i == p {
                assert(r[j] == t[j - 1]);
            } else if j == p {
                assert(r[i] == t[i]);
                assert(d.contains(t[i]));
                let a = choose|a: int| 0 <= a < d.len() && d[a] == t[i];
                assert(s[a] == r[i] && s[s.len() - 1] == r[j]);
            } else {
                let k = if i < p {
                    i
                } else {
                    i - 1
                };
                let l = if j < p {
                    j
                } else {
                    j - 1
                };
                assert(r[i] == t[k] && r[j] == t[l]);
                more_keep_order(d, t[k], t[l], x);
            }
        }
    }
}

/// Whether a document has a candidate before any candidate of another.
pub open spec fn comes_before(
    candidates: Seq<CandidateText>,
    p: Seq<char>,
    q: Seq<char>,
) -> bool {
    exists|f: int|
        0 <= f < candidates.len() && (#[trigger] candidates[f]).path == p && forall|g: int|
            0 <= g <= f ==> (#[trigger] candidates[g]).path != q
}

spec fn has_path(candidates: Seq<CandidateText>, p: Seq<char>) -> bool {
    exists|f: int| 0 <= f < candidates.len() && (#[trigger] candidates[f]).path == p
}

spec fn hit_for(best: Seq<HitText>, p: Seq<char>) -> bool {
    exists|k: int| 0 <= k < best.len() && (#[trigger] best[k]).path == p
}

/// Whether hits stand in the order in which their documents first come.
spec fn in_order(best: Seq<HitText>, candidates: Seq<CandidateText>) -> bool {
    forall|i: int, j: int|
        #![trigger best[i], best[j]]
        0 <= i < j < best.len() ==> comes_before(candidates, best[i].path, best[j].path)
}

proof fn best_in_order(
    candidates: Seq<CandidateText>,
    scores: Seq<u32>,
    exclude: Seq<Seq<char>>,
)
    ensures
        ({
            let best = best_of(candidates, scores, exclude);
            &&& in_order(best, candidates)
            &&& forall|k: int|
                0 <= k < best.len() ==> has_path(candidates, (#[trigger] best[k]).path)
            &&& forall|f: int|
                0 <= f < candidates.len() && !exclude.contains((#[trigger] candidates[f]).path)
                    ==> hit_for(best, candidates[f].path)
        }),
    decreases candidates.len(),
{
    let best = best_of(candidates, scores, exclude);
    if candidates.len() > 0 {
        let rest = candidates.drop_last();
        let c = candidates.last();
        let before = best_of(rest, scores, exclude);
        best_in_order(rest, scores, exclude);
        place_found(before, c.path);
        let p = place_of(before, c.path);
        assert forall|k: int| 0 <= k < before.len() implies #[trigger] best[k].path
            == before[k].path by {}
        assert forall|k: int| 0 <= k < best.len() implies has_path(
            candidates,
            (#[trigger] best[k]).path,
        ) by {
            if k < before.len() {
                assert(has_path(rest, before[k].path));
                let f = choose|f: int|
                    0 <= f < rest.len() && (#[trigger] rest[f]).path == before[k].path;
                assert(candidates[f].path == best[k].path);
            } else {
                assert(candidates[candidates.len() - 1].path == best[k].path);
            }
        }
        assert forall|f: int|
            0 <= f < candidates.len() && !exclude.contains(
                (#[trigger] candidates[f]).path,
            ) implies hit_for(best, candidates[f].path) by {
            if f < rest.len() {
                assert(rest[f] == candidates[f]);
                assert(hit_for(before, rest[f].path));
                let k = choose|k: int|
                    0 <= k < before.len() && (#[trigger] before[k]).path == rest[f].path;
                assert(best[k].path == candidates[f].path);
            } else if p >= 0 {
                assert(best[p].path == c.path);
            } else {
                assert(best[before.len() as int].path == c.path);
            }
        }
        assert forall|i: int, j: int|
            #![trigger best[i], best[j]]
            0 <= i < j < best.len() implies comes_before(
            candidates,
            best[i].path,
            best[j].path,
        ) by {
            if j < before.len() {
                assert(comes_before(rest, before[i].path, before[j].path));
                let f = choose|f: int|
                    0 <= f < rest.len() && (#[trigger] rest[f]).path == before[i].path && forall|
                        g: int,
                    |
                        0 <= g <= f ==> (#[trigger] rest[g]).path != before[j].path;
                assert(candidates[f].path == best[i].path);
                assert forall|g: int| 0 <= g <= f implies (#[trigger] candidates[g]).path
                    != best[j].path by {
                    assert(rest[g] == candidates[g]);
                }
            } else {
                assert(has_path(rest, before[i].path));
                let f = choose|f: int|
                    0 <= f < rest.len() && (#[trigger] rest[f]).path == before[i].path;
                assert(candidates[f].path == best[i].path);
                assert forall|g: int| 0 <= g <= f implies (#[trigger] candidates[g]).path
                    != best[j].path by {
                    assert(rest[g] == candidates[g]);
                    if rest[g].path == c.path {
                        assert(hit_for(before, c.path));
                    }
                }
            }
        }
    }
}

/// Documents of equal score are ranked in the order in which they first come
/// among the candidates.
pub proof fn equal_documents_are_ranked_as_they_come(
    candidates: Seq<CandidateText>,
    scores: Seq<u32>,
    exclude: Seq<Seq<char>>,
    limit: nat,
    i: int,
    j: int,
)
    requires
        0 <= i < j < ranking(candidates, scores, exclude, limit).len(),
        ranking(candidates, scores, exclude, limit)[i].score == ranking(
            candidates,
            scores,
            exclude,
            limit,
        )[j].score,
    ensures
        comes_before(
            candidates,
            ranking(candidates, scores, exclude, limit)[i].path,
            ranking(candidates, scores, exclude, limit)[j].path,
        ),
{
    let best = best_of(candidates, scores, exclude);
    let all = by_score(best);
    let r = ranking(candidates, scores, exclude, limit);
    sorting_keeps_ties_in_order(best);
    best_in_order(candidates, scores, exclude);
    assert(r[i] == all[i] && r[j] == all[j]);
    assert(stand_in_order(best, all[i], all[j]));
    let (a, b) = choose|a: int, b: int|
        0 <= a < b < best.len() && #[trigger] best[a] == all[i] && #[trigger] best[b] == all[j];
    assert(comes_before(candidates, best[a].path, best[b].path));
}

} // verus!
