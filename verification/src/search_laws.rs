//! What holds of every ranking.
use vstd::prelude::*;

use crate::search::{
    all_rescored, at_most, best_of, better, by_score, greater, insert_hit, is_nan, largest,
    place_found, place_of, ranking, scored, smallest, total_rank, unscored, value_rank,
    CandidateText, HitText,
};

verus! {

/// Whether no hit scores lower than one that comes after it.
pub open spec fn descending(s: Seq<HitText>) -> bool {
    forall|i: int, j: int|
        0 <= i < j < s.len() ==> total_rank(#[trigger] s[i].score) >= total_rank(
            #[trigger] s[j].score,
        )
}

/// Whether no two hits are of the same document.
pub open spec fn one_per_document(s: Seq<HitText>) -> bool {
    forall|i: int, j: int| 0 <= i < j < s.len() ==> #[trigger] s[i].path != #[trigger] s[j].path
}

proof fn insert_facts(s: Seq<HitText>, x: HitText)
    ensures
        insert_hit(s, x).len() == s.len() + 1,
        forall|h: HitText| #[trigger]
            insert_hit(s, x).contains(h) <==> s.contains(h) || h == x,
        descending(s) ==> descending(insert_hit(s, x)),
        one_per_document(s) && (forall|k: int|
            0 <= k < s.len() ==> #[trigger] s[k].path != x.path) ==> one_per_document(
            insert_hit(s, x),
        ),
    decreases s.len(),
{
    let r = insert_hit(s, x);
    if s.len() == 0 || total_rank(s.last().score) >= total_rank(x.score) {
        assert forall|h: HitText| #[trigger] r.contains(h) <==> s.contains(h) || h == x by {
            if s.contains(h) {
                let k = choose|k: int| 0 <= k < s.len() && s[k] == h;
                assert(r[k] == h);
            }
            if h == x {
                assert(r[s.len() as int] == h);
            }
        }
        if descending(s) {
            assert forall|i: int, j: int| 0 <= i < j < r.len() implies total_rank(
                #[trigger] r[i].score,
            ) >= total_rank(#[trigger] r[j].score) by {
                if j == s.len() && i < s.len() - 1 {
                    assert(total_rank(s[i].score) >= total_rank(s[s.len() - 1].score));
                }
            }
        }
    } else {
        let t = s.drop_last();
        let q = insert_hit(t, x);
        insert_facts(t, x);
        assert(r == q.push(s.last()));
        assert forall|h: HitText| #[trigger] r.contains(h) <==> s.contains(h) || h == x by {
            if s.contains(h) {
                let k = choose|k: int| 0 <= k < s.len() && s[k] == h;
                if k < t.len() {
                    assert(t[k] == h);
                    assert(t.contains(h));
                    assert(q.contains(h));
                    let m = choose|m: int| 0 <= m < q.len() && q[m] == h;
                    assert(r[m] == h);
                } else {
                    assert(r[q.len() as int] == h);
                }
            }
            if h == x {
                assert(q.contains(x));
                let m = choose|m: int| 0 <= m < q.len() && q[m] == x;
                assert(r[m] == x);
            }
            if r.contains(h) && h != x {
                let m = choose|m: int| 0 <= m < r.len() && r[m] == h;
                if m < q.len() {
                    assert(q[m] == h);
                    assert(q.contains(h));
                    assert(t.contains(h));
                    let k = choose|k: int| 0 <= k < t.len() && t[k] == h;
                    assert(s[k] == h);
                } else {
                    assert(s[s.len() - 1] == h);
                }
            }
        }
        if descending(s) {
            assert(descending(t)) by {
                assert forall|i: int, j: int| 0 <= i < j < t.len() implies total_rank(
                    #[trigger] t[i].score,
                ) >= total_rank(#[trigger] t[j].score) by {
                    assert(total_rank(s[i].score) >= total_rank(s[j].score));
                }
            }
            assert forall|i: int, j: int| 0 <= i < j < r.len() implies total_rank(
                #[trigger] r[i].score,
            ) >= total_rank(#[trigger] r[j].score) by {
                if j < q.len() {
                    assert(total_rank(q[i].score) >= total_rank(q[j].score));
                } else {
                    assert(q[i] == r[i]);
                    assert(q.contains(q[i]));
                    if q[i] != x {
                        assert(t.contains(q[i]));
                        let k = choose|k: int| 0 <= k < t.len() && t[k] == q[i];
                        assert(total_rank(s[k].score) >= total_rank(s[s.len() - 1].score));
                    }
                }
            }
        }
        if one_per_document(s) && (forall|k: int|
            0 <= k < s.len() ==> #[trigger] s[k].path != x.path) {
            assert(one_per_document(t)) by {
                assert forall|i: int, j: int| 0 <= i < j < t.len() implies #[trigger] t[i].path
                    != #[trigger] t[j].path by {
                    assert(s[i].path != s[j].path);
                }
            }
            assert forall|k: int| 0 <= k < t.len() implies #[trigger] t[k].path != x.path by {
                assert(s[k].path != x.path);
            }
            assert forall|i: int, j: int| 0 <= i < j < r.len() implies #[trigger] r[i].path
                != #[trigger] r[j].path by {
                if j < q.len() {
                    assert(q[i].path != q[j].path);
                } else {
                    assert(q[i] == r[i]);
                    assert(q.contains(q[i]));
                    if q[i] != x {
                        assert(t.contains(q[i]));
                        let k = choose|k: int| 0 <= k < t.len() && t[k] == q[i];
                        assert(s[k].path != s[s.len() - 1].path);
                    } else {
                        assert(s[s.len() - 1].path != x.path);
                    }
                }
            }
        }
    }
}

pub proof fn by_score_facts(s: Seq<HitText>)
    ensures
        by_score(s).len() == s.len(),
        descending(by_score(s)),
        forall|h: HitText| #[trigger] by_score(s).contains(h) <==> s.contains(h),
        one_per_document(s) ==> one_per_document(by_score(s)),
    decreases s.len(),
{
    if s.len() > 0 {
        let t = s.drop_last();
        let q = by_score(t);
        by_score_facts(t);
        insert_facts(q, s.last());
        assert forall|h: HitText| #[trigger] by_score(s).contains(h) <==> s.contains(h) by {
            if s.contains(h) {
                let k = choose|k: int| 0 <= k < s.len() && s[k] == h;
                if k < t.len() {
                    assert(t[k] == h);
                    assert(t.contains(h));
                }
            }
            if q.contains(h) {
                assert(t.contains(h));
                let k = choose|k: int| 0 <= k < t.len() && t[k] == h;
                assert(s[k] == h);
            }
            if h == s.last() {
                assert(s[s.len() - 1] == h);
            }
        }
        if one_per_document(s) {
            assert(one_per_document(t)) by {
                assert forall|i: int, j: int| 0 <= i < j < t.len() implies #[trigger] t[i].path
                    != #[trigger] t[j].path by {
                    assert(s[i].path != s[j].path);
                }
            }
            assert forall|k: int| 0 <= k < q.len() implies #[trigger] q[k].path != s.last().path by {
                assert(q.contains(q[k]));
                assert(t.contains(q[k]));
                let m = choose|m: int| 0 <= m < t.len() && t[m] == q[k];
                assert(s[m].path != s[s.len() - 1].path);
            }
        }
    } else {
        assert(by_score(s) =~= s);
    }
}

/// Whether `best` holds a hit of `path` that does not score below `score`.
pub open spec fn reaches(best: Seq<HitText>, path: Seq<char>, score: u32) -> bool {
    exists|k: int|
        0 <= k < best.len() && (#[trigger] best[k]).path == path && (is_nan(score) || value_rank(
            best[k].score,
        ) >= value_rank(score))
}

/// Whether a hit shows what its document's best chunk holds: it is that chunk
/// under its score, or no chunk of the document scores above negative infinity.
pub open spec fn stems_from(
    h: HitText,
    candidates: Seq<CandidateText>,
    scores: Seq<u32>,
) -> bool {
    exists|i: int|
        0 <= i < candidates.len() && (#[trigger] candidates[i]).path == h.path && (h.score
            == crate::search::NEG_INFINITY || h.score == scores[i] && h.text
            == candidates[i].text && h.heading_path == candidates[i].heading_path && h.width
            == candidates[i].width && h.height == candidates[i].height)
}

proof fn best_of_facts(
    candidates: Seq<CandidateText>,
    scores: Seq<u32>,
    exclude: Seq<Seq<char>>,
)
    ensures
        one_per_document(best_of(candidates, scores, exclude)),
        forall|k: int|
            0 <= k < best_of(candidates, scores, exclude).len() ==> {
                &&& !exclude.contains(
                    (#[trigger] best_of(candidates, scores, exclude)[k]).path,
                )
                &&& !is_nan(best_of(candidates, scores, exclude)[k].score)
                &&& stems_from(best_of(candidates, scores, exclude)[k], candidates, scores)
            },
        forall|i: int|
            0 <= i < candidates.len() && !exclude.contains(
                (#[trigger] candidates[i]).path,
            ) ==> reaches(best_of(candidates, scores, exclude), candidates[i].path, scores[i]),
    decreases candidates.len(),
{
    let best = best_of(candidates, scores, exclude);
    if candidates.len() > 0 {
        let rest = candidates.drop_last();
        let before = best_of(rest, scores, exclude);
        let c = candidates.last();
        let n = candidates.len() - 1;
        best_of_facts(rest, scores, exclude);
        let k0 = place_of(before, c.path);
        place_found(before, c.path);
        assert forall|k: int| 0 <= k < before.len() implies stems_from(
            #[trigger] before[k],
            candidates,
            scores,
        ) by {
            assert(stems_from(before[k], rest, scores));
            let i = choose|i: int|
                0 <= i < rest.len() && (#[trigger] rest[i]).path == before[k].path && (
                before[k].score == crate::search::NEG_INFINITY || before[k].score == scores[i]
                    && before[k].text == rest[i].text && before[k].heading_path
                    == rest[i].heading_path && before[k].width == rest[i].width
                    && before[k].height == rest[i].height);
            assert(candidates[i] == rest[i]);
        }
        if !exclude.contains(c.path) {
            assert(best == scored(before, c, scores[n]));
            assert forall|k: int| 0 <= k < best.len() implies {
                &&& !exclude.contains((#[trigger] best[k]).path)
                &&& !is_nan(best[k].score)
                &&& stems_from(best[k], candidates, scores)
            } by {
                assert(candidates[n] == c);
                if k < before.len() && k != k0 {
                    assert(best[k] == before[k]);
                } else if k == k0 {
                    assert(best[k] == better(before[k], c, scores[n]));
                    assert(stems_from(before[k], candidates, scores));
                } else {
                    assert(best[k] == better(unscored(c), c, scores[n]));
                }
            }
            assert forall|i: int, j: int| 0 <= i < j < best.len() implies #[trigger] best[i].path
                != #[trigger] best[j].path by {
                assert(best[i].path == if i < before.len() {
                    before[i].path
                } else {
                    c.path
                });
                assert(best[j].path == if j < before.len() {
                    before[j].path
                } else {
                    c.path
                });
            }
            assert forall|i: int|
                0 <= i < candidates.len() && !exclude.contains(
                    (#[trigger] candidates[i]).path,
                ) implies reaches(best, candidates[i].path, scores[i]) by {
                if i < n {
                    assert(rest[i] == candidates[i]);
                    assert(reaches(before, rest[i].path, scores[i]));
                    let k = choose|k: int|
                        0 <= k < before.len() && (#[trigger] before[k]).path == rest[i].path && (
                        is_nan(scores[i]) || value_rank(before[k].score) >= value_rank(
                            scores[i],
                        ));
                    assert(best[k].path == candidates[i].path);
                } else if k0 >= 0 {
                    assert(best[k0].path == c.path);
                    assert(!is_nan(before[k0].score));
                } else {
                    assert(best[before.len() as int].path == c.path);
                }
            }
        } else {
            assert(best == before);
            assert forall|i: int|
                0 <= i < candidates.len() && !exclude.contains(
                    (#[trigger] candidates[i]).path,
                ) implies reaches(best, candidates[i].path, scores[i]) by {
                assert(rest[i] == candidates[i]);
            }
        }
    }
}

/// A ranking holds at most `limit` hits, by descending score, at most one of
/// each document, and none of an excluded document.
pub proof fn ranking_is_ordered_and_bounded(
    candidates: Seq<CandidateText>,
    scores: Seq<u32>,
    exclude: Seq<Seq<char>>,
    limit: nat,
)
    ensures
        ranking(candidates, scores, exclude, limit).len() <= limit,
        descending(ranking(candidates, scores, exclude, limit)),
        one_per_document(ranking(candidates, scores, exclude, limit)),
        forall|k: int|
            0 <= k < ranking(candidates, scores, exclude, limit).len() ==> !exclude.contains(
                (#[trigger] ranking(candidates, scores, exclude, limit)[k]).path,
            ),
{
    let best = best_of(candidates, scores, exclude);
    let sorted = by_score(best);
    let r = ranking(candidates, scores, exclude, limit);
    best_of_facts(candidates, scores, exclude);
    by_score_facts(best);
    assert(forall|k: int| 0 <= k < r.len() ==> r[k] == sorted[k]);
    assert forall|i: int, j: int| 0 <= i < j < r.len() implies total_rank(#[trigger] r[i].score)
        >= total_rank(#[trigger] r[j].score) by {
        assert(total_rank(sorted[i].score) >= total_rank(sorted[j].score));
    }
    assert forall|i: int, j: int| 0 <= i < j < r.len() implies #[trigger] r[i].path
        != #[trigger] r[j].path by {
        assert(sorted[i].path != sorted[j].path);
    }
    assert forall|k: int| 0 <= k < r.len() implies !exclude.contains((#[trigger] r[k]).path) by {
        assert(sorted.contains(sorted[k]));
        assert(best.contains(sorted[k]));
        let m = choose|m: int| 0 <= m < best.len() && best[m] == sorted[k];
        assert(!exclude.contains(best[m].path));
    }
}

/// Each document that is not excluded is ranked by its best chunk: without a
/// limit, the ranking holds a hit of it that scores at least as high as each of
/// its chunks, and shows the chunk that has that score.
pub proof fn ranking_shows_the_best_chunk(
    candidates: Seq<CandidateText>,
    scores: Seq<u32>,
    exclude: Seq<Seq<char>>,
    i: int,
)
    requires
        0 <= i < candidates.len(),
        !exclude.contains(candidates[i].path),
    ensures
        reaches(
            by_score(best_of(candidates, scores, exclude)),
            candidates[i].path,
            scores[i],
        ),
        forall|k: int|
            0 <= k < by_score(best_of(candidates, scores, exclude)).len() ==> stems_from(
                #[trigger] by_score(best_of(candidates, scores, exclude))[k],
                candidates,
                scores,
            ),
{
    let best = best_of(candidates, scores, exclude);
    let sorted = by_score(best);
    best_of_facts(candidates, scores, exclude);
    by_score_facts(best);
    assert(reaches(best, candidates[i].path, scores[i]));
    let k = choose|k: int|
        0 <= k < best.len() && (#[trigger] best[k]).path == candidates[i].path && (is_nan(
            scores[i],
        ) || value_rank(best[k].score) >= value_rank(scores[i]));
    assert(best.contains(best[k]));
    assert(sorted.contains(best[k]));
    let m = choose|m: int| 0 <= m < sorted.len() && sorted[m] == best[k];
    assert(sorted[m].path == candidates[i].path);
    assert forall|k: int| 0 <= k < sorted.len() implies stems_from(
        #[trigger] sorted[k],
        candidates,
        scores,
    ) by {
        assert(sorted.contains(sorted[k]));
        assert(best.contains(sorted[k]));
        let m = choose|m: int| 0 <= m < best.len() && best[m] == sorted[k];
        assert(stems_from(best[m], candidates, scores));
    }
}

/// The candidates that are not excluded.
pub open spec fn eligible(
    candidates: Seq<CandidateText>,
    exclude: Seq<Seq<char>>,
) -> Seq<CandidateText>
    decreases candidates.len(),
{
    if candidates.len() == 0 {
        seq![]
    } else if exclude.contains(candidates.last().path) {
        eligible(candidates.drop_last(), exclude)
    } else {
        eligible(candidates.drop_last(), exclude).push(candidates.last())
    }
}

/// The scores of the candidates that are not excluded.
pub open spec fn eligible_scores(
    candidates: Seq<CandidateText>,
    scores: Seq<u32>,
    exclude: Seq<Seq<char>>,
) -> Seq<u32>
    decreases candidates.len(),
{
    if candidates.len() == 0 {
        seq![]
    } else {
        let before = eligible_scores(candidates.drop_last(), scores, exclude);
        if exclude.contains(candidates.last().path) {
            before
        } else {
            before.push(scores[candidates.len() - 1])
        }
    }
}

proof fn best_of_prefix(candidates: Seq<CandidateText>, a: Seq<u32>, b: Seq<u32>)
    requires
        forall|i: int| 0 <= i < candidates.len() ==> a[i] == b[i],
    ensures
        best_of(candidates, a, seq![]) == best_of(candidates, b, seq![]),
    decreases candidates.len(),
{
    if candidates.len() > 0 {
        best_of_prefix(candidates.drop_last(), a, b);
    }
}

proof fn best_of_eligible(
    candidates: Seq<CandidateText>,
    scores: Seq<u32>,
    exclude: Seq<Seq<char>>,
)
    ensures
        eligible(candidates, exclude).len() == eligible_scores(candidates, scores, exclude).len(),
        best_of(candidates, scores, exclude) == best_of(
            eligible(candidates, exclude),
            eligible_scores(candidates, scores, exclude),
            seq![],
        ),
    decreases candidates.len(),
{
    if candidates.len() > 0 {
        let rest = candidates.drop_last();
        best_of_eligible(rest, scores, exclude);
        if !exclude.contains(candidates.last().path) {
            let e = eligible(rest, exclude);
            let s = eligible_scores(rest, scores, exclude);
            let s2 = s.push(scores[candidates.len() - 1]);
            assert(e.push(candidates.last()).drop_last() =~= e);
            best_of_prefix(e, s, s2);
        }
    }
}

/// Exclusion comes before truncation: excluded candidates leave the ranking as
/// it would be without them, so that they never displace another.
pub proof fn excluded_never_displace(
    candidates: Seq<CandidateText>,
    scores: Seq<u32>,
    exclude: Seq<Seq<char>>,
    limit: nat,
)
    ensures
        ranking(candidates, scores, exclude, limit) == ranking(
            eligible(candidates, exclude),
            eligible_scores(candidates, scores, exclude),
            seq![],
            limit,
        ),
{
    best_of_eligible(candidates, scores, exclude);
}

/// The hits of several spaces come out by descending score, at most `limit` of
/// them, and under whichever scores they got, each is a hit of a space.
pub proof fn merged_is_ordered_and_bounded(
    spaces: Seq<Seq<HitText>>,
    scores: Seq<Seq<u32>>,
    limit: nat,
)
    ensures
        at_most(by_score(all_rescored(spaces, scores)), limit).len() <= limit,
        descending(at_most(by_score(all_rescored(spaces, scores)), limit)),
        forall|k: int|
            0 <= k < at_most(by_score(all_rescored(spaces, scores)), limit).len()
                ==> all_rescored(spaces, scores).contains(
                #[trigger] at_most(by_score(all_rescored(spaces, scores)), limit)[k],
            ),
{
    let all = all_rescored(spaces, scores);
    let sorted = by_score(all);
    let r = at_most(sorted, limit);
    by_score_facts(all);
    assert(forall|k: int| 0 <= k < r.len() ==> r[k] == sorted[k]);
    assert forall|i: int, j: int| 0 <= i < j < r.len() implies total_rank(#[trigger] r[i].score)
        >= total_rank(#[trigger] r[j].score) by {
        assert(total_rank(sorted[i].score) >= total_rank(sorted[j].score));
    }
    assert forall|k: int| 0 <= k < r.len() implies all.contains(#[trigger] r[k]) by {
        assert(sorted.contains(sorted[k]));
    }
}

/// Whether a document has a candidate and is not excluded.
pub open spec fn is_eligible(
    candidates: Seq<CandidateText>,
    exclude: Seq<Seq<char>>,
    path: Seq<char>,
) -> bool {
    !exclude.contains(path) && exists|i: int|
        0 <= i < candidates.len() && (#[trigger] candidates[i]).path == path
}

/// The documents that have a candidate and are not excluded.
pub open spec fn eligible_documents(
    candidates: Seq<CandidateText>,
    exclude: Seq<Seq<char>>,
) -> Set<Seq<char>> {
    Set::new(|p: Seq<char>| is_eligible(candidates, exclude, p))
}

/// Whether a hit is of the document that the candidate at `f` is the first of.
pub open spec fn first_of(h: HitText, candidates: Seq<CandidateText>, f: int) -> bool {
    &&& 0 <= f < candidates.len()
    &&& candidates[f].path == h.path
    &&& candidates[f].title == h.title
    &&& candidates[f].source_root == h.source_root
    &&& forall|j: int| 0 <= j < f ==> (#[trigger] candidates[j]).path != h.path
}

/// Whether a hit shows the candidate at `i` under its score.
pub open spec fn shows(h: HitText, candidates: Seq<CandidateText>, scores: Seq<u32>, i: int) -> bool {
    &&& 0 <= i < candidates.len()
    &&& candidates[i].path == h.path
    &&& scores[i] == h.score
    &&& candidates[i].text == h.text
    &&& candidates[i].heading_path == h.heading_path
    &&& candidates[i].width == h.width
    &&& candidates[i].height == h.height
}

/// Whether a hit is what its document's candidates make it: it shows one of
/// them, or, where none of them scores above negative infinity, nothing.
pub open spec fn is_made_of(
    h: HitText,
    candidates: Seq<CandidateText>,
    scores: Seq<u32>,
) -> bool {
    &&& exists|f: int| first_of(h, candidates, f)
    &&& (exists|i: int| shows(h, candidates, scores, i)) || (h.score == 0xff80_0000 && h.text.len()
        == 0 && h.heading_path.len() == 0 && h.width is None && h.height is None)
}

/// One more candidate leaves a hit made of those before it.
proof fn made_of_more(h: HitText, candidates: Seq<CandidateText>, scores: Seq<u32>)
    requires
        candidates.len() > 0,
        is_made_of(h, candidates.drop_last(), scores),
    ensures
        is_made_of(h, candidates, scores),
{
    let rest = candidates.drop_last();
    let f = choose|f: int| first_of(h, rest, f);
    assert forall|j: int| 0 <= j < f implies (#[trigger] candidates[j]).path != h.path by {
        assert(rest[j].path != h.path);
    }
    assert(first_of(h, candidates, f));
    if exists|i: int| shows(h, rest, scores, i) {
        let i = choose|i: int| shows(h, rest, scores, i);
        assert(shows(h, candidates, scores, i));
    }
}

/// A hit that the last candidate may take over is made of the candidates.
proof fn better_is_made(h: HitText, candidates: Seq<CandidateText>, scores: Seq<u32>)
    requires
        candidates.len() > 0,
        candidates.last().path == h.path,
        is_made_of(h, candidates, scores),
    ensures
        is_made_of(
            better(h, candidates.last(), scores[candidates.len() - 1]),
            candidates,
            scores,
        ),
{
    let n = candidates.len() - 1;
    let b = better(h, candidates.last(), scores[n]);
    let f = choose|f: int| first_of(h, candidates, f);
    assert(first_of(b, candidates, f));
    if b != h {
        assert(shows(b, candidates, scores, n));
    }
}

/// A document without a hit has no candidate.
proof fn no_candidate_before(
    candidates: Seq<CandidateText>,
    scores: Seq<u32>,
    exclude: Seq<Seq<char>>,
    path: Seq<char>,
)
    requires
        !exclude.contains(path),
        place_of(best_of(candidates, scores, exclude), path) < 0,
    ensures
        forall|j: int| 0 <= j < candidates.len() ==> (#[trigger] candidates[j]).path != path,
{
    let best = best_of(candidates, scores, exclude);
    best_of_facts(candidates, scores, exclude);
    place_found(best, path);
    assert forall|j: int| 0 <= j < candidates.len() implies (#[trigger] candidates[j]).path
        != path by {
        if candidates[j].path == path {
            assert(reaches(best, candidates[j].path, scores[j]));
        }
    }
}

proof fn best_of_made(candidates: Seq<CandidateText>, scores: Seq<u32>, exclude: Seq<Seq<char>>)
    ensures
        forall|k: int|
            0 <= k < best_of(candidates, scores, exclude).len() ==> is_made_of(
                #[trigger] best_of(candidates, scores, exclude)[k],
                candidates,
                scores,
            ),
    decreases candidates.len(),
{
    let best = best_of(candidates, scores, exclude);
    if candidates.len() > 0 {
        let rest = candidates.drop_last();
        let before = best_of(rest, scores, exclude);
        let c = candidates.last();
        let n = candidates.len() - 1;
        best_of_made(rest, scores, exclude);
        let k0 = place_of(before, c.path);
        place_found(before, c.path);
        assert forall|k: int| 0 <= k < best.len() implies is_made_of(
            #[trigger] best[k],
            candidates,
            scores,
        ) by {
            if k < before.len() {
                assert(is_made_of(before[k], rest, scores));
                made_of_more(before[k], candidates, scores);
                if !exclude.contains(c.path) && k == k0 {
                    better_is_made(before[k], candidates, scores);
                } else {
                    assert(best[k] == before[k]);
                }
            } else {
                let h = unscored(c);
                assert(best[k] == better(h, c, scores[n]));
                no_candidate_before(rest, scores, exclude, c.path);
                assert forall|j: int| 0 <= j < n implies (#[trigger] candidates[j]).path != h.path by {
                    assert(rest[j] == candidates[j]);
                }
                assert(first_of(h, candidates, n));
                assert(is_made_of(h, candidates, scores));
                better_is_made(h, candidates, scores);
            }
        }
    }
}

proof fn best_of_count(candidates: Seq<CandidateText>, scores: Seq<u32>, exclude: Seq<Seq<char>>)
    ensures
        eligible_documents(candidates, exclude).finite(),
        eligible_documents(candidates, exclude).len() == best_of(
            candidates,
            scores,
            exclude,
        ).len(),
{
    let best = best_of(candidates, scores, exclude);
    let paths = Seq::new(best.len(), |k: int| best[k].path);
    best_of_facts(candidates, scores, exclude);
    assert(paths.no_duplicates()) by {
        assert forall|i: int, j: int| 0 <= i < paths.len() && 0 <= j < paths.len() && i != j implies
            paths[i] != paths[j] by {
            if i < j {
                assert(best[i].path != best[j].path);
            } else {
                assert(best[j].path != best[i].path);
            }
        }
    }
    paths.unique_seq_to_set();
    let all = eligible_documents(candidates, exclude);
    assert forall|p: Seq<char>| #[trigger] all.contains(p) implies paths.to_set().contains(p) by {
        let i = choose|i: int| 0 <= i < candidates.len() && (#[trigger] candidates[i]).path == p;
        assert(reaches(best, candidates[i].path, scores[i]));
        let k = choose|k: int| 0 <= k < best.len() && (#[trigger] best[k]).path == p;
        assert(paths[k] == p);
    }
    assert forall|p: Seq<char>| #[trigger] paths.to_set().contains(p) implies all.contains(p) by {
        let k = choose|k: int| 0 <= k < paths.len() && paths[k] == p;
        assert(stems_from(best[k], candidates, scores));
        assert(!exclude.contains(best[k].path));
    }
    assert(all =~= paths.to_set());
}

/// A ranking keeps the top. It holds as many hits as there are documents that
/// are not excluded, up to the limit. Each of those documents either has a hit
/// in it that scores no lower than any chunk of the document, or is left out
/// for want of room, and then no hit in the ranking scores lower than any chunk
/// of that document. Each hit is made of its document's candidates.
pub proof fn ranking_keeps_the_top(
    candidates: Seq<CandidateText>,
    scores: Seq<u32>,
    exclude: Seq<Seq<char>>,
    limit: nat,
)
    ensures
        ({
            let r = ranking(candidates, scores, exclude, limit);
            let all = eligible_documents(candidates, exclude);
            &&& all.finite()
            &&& r.len() == if all.len() < limit {
                all.len()
            } else {
                limit
            }
            &&& forall|i: int|
                0 <= i < candidates.len() && !exclude.contains(
                    (#[trigger] candidates[i]).path,
                ) && !is_nan(scores[i]) ==> {
                    ||| exists|k: int|
                        0 <= k < r.len() && (#[trigger] r[k]).path == candidates[i].path
                            && !greater(scores[i], r[k].score)
                    ||| r.len() == limit && forall|k: int|
                        0 <= k < r.len() ==> !greater(scores[i], (#[trigger] r[k]).score)
                            && r[k].path != candidates[i].path
                }
            &&& forall|i: int|
                0 <= i < candidates.len() && !exclude.contains((#[trigger] candidates[i]).path) && (
                forall|k: int| 0 <= k < r.len() ==> (#[trigger] r[k]).path != candidates[i].path)
                    ==> r.len() == limit
            &&& forall|k: int|
                0 <= k < r.len() ==> is_made_of(#[trigger] r[k], candidates, scores)
                    && !exclude.contains(r[k].path) && !is_nan(r[k].score)
        }),
{
    let best = best_of(candidates, scores, exclude);
    let sorted = by_score(best);
    let r = ranking(candidates, scores, exclude, limit);
    best_of_facts(candidates, scores, exclude);
    best_of_made(candidates, scores, exclude);
    best_of_count(candidates, scores, exclude);
    by_score_facts(best);
    assert(forall|k: int| 0 <= k < r.len() ==> r[k] == sorted[k]);
    assert forall|k: int| 0 <= k < sorted.len() implies is_made_of(
        #[trigger] sorted[k],
        candidates,
        scores,
    ) && !exclude.contains(sorted[k].path) && !is_nan(sorted[k].score) by {
        assert(sorted.contains(sorted[k]));
        assert(best.contains(sorted[k]));
        let m = choose|m: int| 0 <= m < best.len() && best[m] == sorted[k];
        assert(is_made_of(best[m], candidates, scores));
    }
    assert forall|i: int|
        0 <= i < candidates.len() && !exclude.contains(
            (#[trigger] candidates[i]).path,
        ) implies exists|m: int|
        0 <= m < sorted.len() && (#[trigger] sorted[m]).path == candidates[i].path && !greater(
            scores[i],
            sorted[m].score,
        ) by {
        assert(reaches(best, candidates[i].path, scores[i]));
        let k = choose|k: int|
            0 <= k < best.len() && (#[trigger] best[k]).path == candidates[i].path && (is_nan(
                scores[i],
            ) || value_rank(best[k].score) >= value_rank(scores[i]));
        assert(best.contains(best[k]));
        assert(sorted.contains(best[k]));
        let m = choose|m: int| 0 <= m < sorted.len() && sorted[m] == best[k];
        assert(sorted[m].path == candidates[i].path);
    }
    assert forall|i: int|
        0 <= i < candidates.len() && !exclude.contains((#[trigger] candidates[i]).path) && !is_nan(
            scores[i],
        ) implies {
        ||| exists|k: int|
            0 <= k < r.len() && (#[trigger] r[k]).path == candidates[i].path && !greater(
                scores[i],
                r[k].score,
            )
        ||| r.len() == limit && forall|k: int|
            0 <= k < r.len() ==> !greater(scores[i], (#[trigger] r[k]).score) && r[k].path
                != candidates[i].path
    } by {
        let m = choose|m: int|
            0 <= m < sorted.len() && (#[trigger] sorted[m]).path == candidates[i].path && !greater(
                scores[i],
                sorted[m].score,
            );
        if m < r.len() {
            assert(r[m].path == candidates[i].path);
        } else {
            assert forall|k: int| 0 <= k < r.len() implies !greater(
                scores[i],
                (#[trigger] r[k]).score,
            ) && r[k].path != candidates[i].path by {
                assert(r[k] == sorted[k]);
                assert(total_rank(sorted[k].score) >= total_rank(sorted[m].score));
                assert(sorted[k].path != sorted[m].path);
            }
        }
    }
    assert forall|i: int|
        0 <= i < candidates.len() && !exclude.contains((#[trigger] candidates[i]).path) && (
        forall|k: int|
            0 <= k < r.len() ==> (#[trigger] r[k]).path != candidates[i].path) implies r.len()
        == limit by {
        let m = choose|m: int|
            0 <= m < sorted.len() && (#[trigger] sorted[m]).path == candidates[i].path && !greater(
                scores[i],
                sorted[m].score,
            );
        if m < r.len() {
            assert(r[m].path == candidates[i].path);
        }
    }
}

/// The largest of some scores is one of them, or negative infinity, and none of
/// them is greater.
pub proof fn largest_is_the_largest(s: Seq<u32>)
    ensures
        !is_nan(largest(s)),
        largest(s) == 0xff80_0000 || s.contains(largest(s)),
        forall|k: int| 0 <= k < s.len() ==> !greater(#[trigger] s[k], largest(s)),
        forall|k: int|
            0 <= k < s.len() && !is_nan(#[trigger] s[k]) && s[k] != 0xff80_0000 ==> s.contains(
                largest(s),
            ),
    decreases s.len(),
{
    if s.len() > 0 {
        let t = s.drop_last();
        largest_is_the_largest(t);
        if t.contains(largest(t)) {
            let k = choose|k: int| 0 <= k < t.len() && t[k] == largest(t);
            assert(s[k] == largest(t));
        }
        assert(s[s.len() - 1] == s.last());
        assert forall|k: int| 0 <= k < s.len() implies !greater(#[trigger] s[k], largest(s)) by {
            if k < t.len() {
                assert(t[k] == s[k]);
            }
        }
        assert forall|k: int|
            0 <= k < s.len() && !is_nan(#[trigger] s[k]) && s[k] != 0xff80_0000 implies s.contains(
            largest(s),
        ) by {
            if k < t.len() {
                assert(t[k] == s[k]);
            }
        }
    }
}

/// The smallest of some scores is one of them, or infinity, and none of them is
/// smaller.
pub proof fn smallest_is_the_smallest(s: Seq<u32>)
    ensures
        !is_nan(smallest(s)),
        smallest(s) == 0x7f80_0000 || s.contains(smallest(s)),
        forall|k: int| 0 <= k < s.len() ==> !greater(smallest(s), #[trigger] s[k]),
        forall|k: int|
            0 <= k < s.len() && !is_nan(#[trigger] s[k]) && s[k] != 0x7f80_0000 ==> s.contains(
                smallest(s),
            ),
    decreases s.len(),
{
    if s.len() > 0 {
        let t = s.drop_last();
        smallest_is_the_smallest(t);
        if t.contains(smallest(t)) {
            let k = choose|k: int| 0 <= k < t.len() && t[k] == smallest(t);
            assert(s[k] == smallest(t));
        }
        assert(s[s.len() - 1] == s.last());
        assert forall|k: int| 0 <= k < s.len() implies !greater(smallest(s), #[trigger] s[k]) by {
            if k < t.len() {
                assert(t[k] == s[k]);
            }
        }
        assert forall|k: int|
            0 <= k < s.len() && !is_nan(#[trigger] s[k]) && s[k] != 0x7f80_0000 implies s.contains(
            smallest(s),
        ) by {
            if k < t.len() {
                assert(t[k] == s[k]);
            }
        }
    }
}

} // verus!
