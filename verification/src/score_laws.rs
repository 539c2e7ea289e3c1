//! What scores mean: floats compare as their values do, a document's best query
//! counts, and the hits of several spaces are merged by their normalized scores.
use vstd::arithmetic::mul::{lemma_mul_inequality, lemma_mul_strict_inequality};
use vstd::arithmetic::power2::{
    lemma_pow2_pos, lemma_pow2_strictly_increases, lemma_pow2_unfold, pow2,
};
use vstd::prelude::*;

use crate::search::{
    all_normalized, all_rescored, at_most, best_dot, best_dot_scores, by_score, dot_scores,
    dots_as, greater, is_nan, largest, merges, normalized, query_dots, rescored, scores_as,
    scores_by, scores_of, smallest, total_rank, CandidateText, HitText,
};
use crate::search_laws::{
    by_score_facts, descending, largest_is_the_largest, smallest_is_the_smallest,
};

verus! {

/// The exponent bits of a float.
pub open spec fn exponent_of(b: u32) -> int {
    (b % 0x8000_0000) as int / 0x80_0000
}

/// The fraction bits of a float.
pub open spec fn fraction_of(b: u32) -> int {
    (b % 0x8000_0000) as int % 0x80_0000
}

/// What a float stands for by its sign, exponent and fraction, in units of the
/// smallest positive one; infinity as if it were the next power of two.
pub open spec fn value_of(b: u32) -> int {
    let magnitude = if exponent_of(b) == 0 {
        fraction_of(b)
    } else {
        (0x80_0000 + fraction_of(b)) * pow2((exponent_of(b) - 1) as nat)
    };
    if b < 0x8000_0000 {
        magnitude
    } else {
        -magnitude
    }
}

proof fn magnitudes_increase(a: u32, b: u32)
    requires
        a < b < 0x8000_0000,
    ensures
        value_of(a) < value_of(b),
        0 <= value_of(a),
{
    let (e1, m1) = (exponent_of(a), fraction_of(a));
    let (e2, m2) = (exponent_of(b), fraction_of(b));
    assert(a % 0x8000_0000 == a && b % 0x8000_0000 == b);
    assert(a == e1 * 0x80_0000 + m1);
    assert(b == e2 * 0x80_0000 + m2);
    assert(e1 <= e2);
    let h: int = 0x80_0000;
    if e1 > 0 {
        lemma_pow2_pos((e1 - 1) as nat);
        lemma_mul_inequality(1, h + m1, pow2((e1 - 1) as nat) as int);
    }
    if e2 > 0 {
        lemma_pow2_pos((e2 - 1) as nat);
    }
    if e1 == e2 {
        if e1 > 0 {
            lemma_mul_strict_inequality(h + m1, h + m2, pow2((e1 - 1) as nat) as int);
        }
    } else {
        let p2 = pow2((e2 - 1) as nat) as int;
        lemma_mul_inequality(h, h + m2, p2);
        if e1 == 0 {
            assert(h * p2 >= h) by (nonlinear_arith)
                requires
                    h == 0x80_0000,
                    p2 >= 1,
            ;
        } else {
            let p1 = pow2((e1 - 1) as nat) as int;
            lemma_pow2_unfold(e1 as nat);
            assert(pow2(e1 as nat) == 2 * p1);
            if e1 < e2 - 1 {
                lemma_pow2_strictly_increases(e1 as nat, (e2 - 1) as nat);
            }
            assert(2 * p1 <= p2);
            assert((h + m1) * p1 < h * p2) by (nonlinear_arith)
                requires
                    0 <= m1 < h,
                    p1 >= 1,
                    2 * p1 <= p2,
            ;
        }
    }
}

proof fn opposite_values(a: u32)
    requires
        a < 0x8000_0000,
    ensures
        value_of((a + 0x8000_0000) as u32) == -value_of(a),
{
    let n = (a + 0x8000_0000) as u32;
    assert(n % 0x8000_0000 == a);
    assert(a % 0x8000_0000 == a);
}

/// Scores compare as the values that their bits stand for: a NaN is what has
/// all exponent bits set and a fraction, and of two other floats the one with
/// the larger value is the greater.
pub proof fn floats_compare_as_their_values(a: u32, b: u32)
    ensures
        is_nan(a) <==> exponent_of(a) == 255 && fraction_of(a) != 0,
        !is_nan(a) && !is_nan(b) ==> (greater(a, b) <==> value_of(a) > value_of(b)),
        is_nan(a) || is_nan(b) ==> !greater(a, b),
        !is_nan(a) && !is_nan(b) && value_of(a) > value_of(b) ==> total_rank(a) > total_rank(b),
        total_rank(a) == total_rank(b) ==> a == b,
{
    let x = (a % 0x8000_0000) as u32;
    let y = (b % 0x8000_0000) as u32;
    assert(a >= 0x8000_0000 ==> a == (x + 0x8000_0000) as u32);
    assert(b >= 0x8000_0000 ==> b == (y + 0x8000_0000) as u32);
    opposite_values(x);
    opposite_values(y);
    assert(exponent_of(a) == x as int / 0x80_0000);
    assert(value_of(0) == 0);
    if x < y {
        magnitudes_increase(x, y);
    } else if y < x {
        magnitudes_increase(y, x);
    }
    if x > 0 {
        magnitudes_increase(0, x);
    }
    if y > 0 {
        magnitudes_increase(0, y);
    }
}

/// The score of a vector against several queries is the dot product with one of
/// them, or negative infinity, and no query's dot product is greater: every
/// query counts.
pub proof fn every_query_counts<D: Fn(&[u32], &[u32]) -> u32>(
    dot: D,
    queries: Seq<Seq<u32>>,
    vector: Seq<u32>,
    score: u32,
)
    requires
        best_dot(dot, queries, vector, score),
    ensures
        !is_nan(score),
        score == 0xff80_0000 || exists|i: int|
            0 <= i < queries.len() && dots_as(dot, #[trigger] queries[i], vector, score),
        forall|i: int|
            0 <= i < queries.len() ==> exists|d: u32|
                dots_as(dot, #[trigger] queries[i], vector, d) && !greater(d, score),
{
    let dots = choose|dots: Seq<u32>| #[trigger]
        query_dots(dot, queries, vector, dots) && score == largest(dots);
    largest_is_the_largest(dots);
    if score != 0xff80_0000 {
        let i = choose|i: int| 0 <= i < dots.len() && dots[i] == score;
        assert(dots_as(dot, queries[i], vector, dots[i]));
    }
    assert forall|i: int| 0 <= i < queries.len() implies exists|d: u32|
        dots_as(dot, #[trigger] queries[i], vector, d) && !greater(d, score) by {
        assert(dots_as(dot, queries[i], vector, dots[i]));
    }
}

/// How many hits some spaces have together.
pub open spec fn total_hits(spaces: Seq<Seq<HitText>>) -> nat
    decreases spaces.len(),
{
    if spaces.len() == 0 {
        0
    } else {
        total_hits(spaces.drop_last()) + spaces.last().len()
    }
}

/// Whether `low` and `high` bound the scores of some hits, and are among them.
pub open spec fn bound_scores(hits: Seq<HitText>, low: u32, high: u32) -> bool {
    &&& forall|k: int|
        0 <= k < hits.len() ==> !greater(low, (#[trigger] hits[k]).score) && !greater(
            hits[k].score,
            high,
        )
    &&& low == 0x7f80_0000 || exists|k: int|
        0 <= k < hits.len() && (#[trigger] hits[k]).score == low
    &&& high == 0xff80_0000 || exists|k: int|
        0 <= k < hits.len() && (#[trigger] hits[k]).score == high
    &&& !is_nan(low) && !is_nan(high)
}

/// Whether these are the scores of a space's hits, each rescaled between the
/// lowest and the highest of the space.
pub open spec fn rescales<N: Fn(u32, u32, u32) -> u32>(
    normalize: N,
    hits: Seq<HitText>,
    scores: Seq<u32>,
) -> bool {
    &&& scores.len() == hits.len()
    &&& exists|low: u32, high: u32|
        {
            &&& #[trigger] bound_scores(hits, low, high)
            &&& forall|k: int|
                0 <= k < hits.len() ==> call_ensures(
                    normalize,
                    ((#[trigger] hits[k]).score, low, high),
                    scores[k],
                )
        }
}

/// The hit at `k` of the space at `i` under another score.
pub open spec fn under_score(
    spaces: Seq<Seq<HitText>>,
    scores: Seq<Seq<u32>>,
    i: int,
    k: int,
) -> HitText {
    HitText { score: scores[i][k], ..spaces[i][k] }
}

/// Whether the hit at `k` of the space at `i` exists.
pub open spec fn is_hit(spaces: Seq<Seq<HitText>>, i: int, k: int) -> bool {
    0 <= i < spaces.len() && 0 <= k < spaces[i].len()
}

/// Whether a hit is one of some spaces' hits under another score.
pub open spec fn is_one_of(h: HitText, spaces: Seq<Seq<HitText>>, scores: Seq<Seq<u32>>) -> bool {
    exists|i: int, k: int| #[trigger]
        is_hit(spaces, i, k) && h == under_score(spaces, scores, i, k)
}

proof fn all_rescored_facts(spaces: Seq<Seq<HitText>>, scores: Seq<Seq<u32>>)
    ensures
        all_rescored(spaces, scores).len() == total_hits(spaces),
        forall|i: int, k: int| #[trigger]
            is_hit(spaces, i, k) ==> all_rescored(spaces, scores).contains(
                under_score(spaces, scores, i, k),
            ),
        forall|j: int|
            0 <= j < all_rescored(spaces, scores).len() ==> is_one_of(
                #[trigger] all_rescored(spaces, scores)[j],
                spaces,
                scores,
            ),
    decreases spaces.len(),
{
    let all = all_rescored(spaces, scores);
    if spaces.len() > 0 {
        let rest = spaces.drop_last();
        let before = all_rescored(rest, scores);
        let n = spaces.len() - 1;
        let last = rescored(spaces.last(), scores[n]);
        all_rescored_facts(rest, scores);
        assert(all == before + last);
        assert forall|i: int, k: int| #[trigger] is_hit(spaces, i, k) implies all.contains(
            under_score(spaces, scores, i, k),
        ) by {
            let h = under_score(spaces, scores, i, k);
            if i < n {
                assert(is_hit(rest, i, k));
                assert(before.contains(under_score(rest, scores, i, k)));
                let j = choose|j: int| 0 <= j < before.len() && before[j] == h;
                assert(all[j] == h);
            } else {
                assert(all[before.len() + k] == last[k]);
            }
        }
        assert forall|j: int| 0 <= j < all.len() implies is_one_of(
            #[trigger] all[j],
            spaces,
            scores,
        ) by {
            if j < before.len() {
                assert(before[j] == all[j]);
                assert(is_one_of(before[j], rest, scores));
                let (i, k) = choose|i: int, k: int| #[trigger]
                    is_hit(rest, i, k) && before[j] == under_score(rest, scores, i, k);
                assert(is_hit(spaces, i, k));
                assert(all[j] == under_score(spaces, scores, i, k));
            } else {
                let k = j - before.len();
                assert(is_hit(spaces, n, k));
                assert(all[j] == under_score(spaces, scores, n, k));
            }
        }
    }
}

proof fn normalized_rescales<N: Fn(u32, u32, u32) -> u32>(
    normalize: N,
    hits: Seq<HitText>,
    scores: Seq<u32>,
)
    requires
        normalized(normalize, hits, scores),
    ensures
        rescales(normalize, hits, scores),
{
    let all = scores_of(hits);
    let low = smallest(all);
    let high = largest(all);
    largest_is_the_largest(all);
    smallest_is_the_smallest(all);
    assert forall|k: int| 0 <= k < hits.len() implies !greater(low, (#[trigger] hits[k]).score)
        && !greater(hits[k].score, high) by {
        assert(all[k] == hits[k].score);
    }
    if all.contains(low) {
        let k = choose|k: int| 0 <= k < all.len() && all[k] == low;
        assert(hits[k].score == low);
    }
    if all.contains(high) {
        let k = choose|k: int| 0 <= k < all.len() && all[k] == high;
        assert(hits[k].score == high);
    }
    assert(bound_scores(hits, low, high));
    assert forall|k: int| 0 <= k < hits.len() implies call_ensures(
        normalize,
        ((#[trigger] hits[k]).score, low, high),
        scores[k],
    ) by {}
}

/// Merging keeps the top of all spaces. As many hits come out as the spaces have
/// together, up to the limit. Those of a single space come as they are. Those of
/// several come under scores that are rescaled within their space, by descending
/// score, and a hit is only left out for want of room and where none that came
/// out scores lower.
pub proof fn merging_keeps_the_top<N: Fn(u32, u32, u32) -> u32>(
    normalize: N,
    spaces: Seq<Seq<HitText>>,
    limit: nat,
    hits: Seq<HitText>,
)
    requires
        merges(normalize, spaces, limit, hits),
    ensures
        hits.len() == if total_hits(spaces) < limit {
            total_hits(spaces)
        } else {
            limit
        },
        spaces.len() == 1 ==> forall|k: int|
            0 <= k < hits.len() ==> #[trigger] hits[k] == spaces[0][k],
        spaces.len() > 1 ==> descending(hits) && exists|scores: Seq<Seq<u32>>|
            {
                &&& scores.len() == spaces.len()
                &&& forall|i: int|
                    0 <= i < spaces.len() ==> rescales(
                        normalize,
                        spaces[i],
                        #[trigger] scores[i],
                    )
                &&& forall|j: int|
                    0 <= j < hits.len() ==> is_one_of(#[trigger] hits[j], spaces, scores)
                &&& forall|i: int, k: int| #[trigger]
                    is_hit(spaces, i, k) ==> hits.contains(under_score(spaces, scores, i, k))
                        || hits.len() == limit && forall|j: int|
                        0 <= j < hits.len() ==> total_rank((#[trigger] hits[j]).score)
                            >= total_rank(scores[i][k])
            },
{
    if spaces.len() == 0 {
    } else if spaces.len() == 1 {
        assert(spaces.drop_last().len() == 0);
        assert(total_hits(spaces.drop_last()) == 0);
    } else {
        let scores = choose|scores: Seq<Seq<u32>>| #[trigger]
            all_normalized(normalize, spaces, scores) && hits == at_most(
                by_score(all_rescored(spaces, scores)),
                limit,
            );
        let all = all_rescored(spaces, scores);
        let sorted = by_score(all);
        by_score_facts(all);
        all_rescored_facts(spaces, scores);
        assert(forall|j: int| 0 <= j < hits.len() ==> hits[j] == sorted[j]);
        assert forall|i: int, j: int| 0 <= i < j < hits.len() implies total_rank(
            #[trigger] hits[i].score,
        ) >= total_rank(#[trigger] hits[j].score) by {
            assert(total_rank(sorted[i].score) >= total_rank(sorted[j].score));
        }
        assert forall|i: int| 0 <= i < spaces.len() implies rescales(
            normalize,
            spaces[i],
            #[trigger] scores[i],
        ) by {
            normalized_rescales(normalize, spaces[i], scores[i]);
        }
        assert forall|j: int| 0 <= j < hits.len() implies is_one_of(
            #[trigger] hits[j],
            spaces,
            scores,
        ) by {
            assert(sorted.contains(sorted[j]));
            let n = choose|n: int| 0 <= n < all.len() && all[n] == sorted[j];
            assert(is_one_of(all[n], spaces, scores));
        }
        assert forall|i: int, k: int| #[trigger] is_hit(spaces, i, k) implies hits.contains(
            under_score(spaces, scores, i, k),
        ) || hits.len() == limit && forall|j: int|
            0 <= j < hits.len() ==> total_rank((#[trigger] hits[j]).score) >= total_rank(
                scores[i][k],
            ) by {
            let h = under_score(spaces, scores, i, k);
            assert(sorted.contains(h));
            let m = choose|m: int| 0 <= m < sorted.len() && sorted[m] == h;
            if m < hits.len() {
                assert(hits[m] == h);
            } else {
                assert forall|j: int| 0 <= j < hits.len() implies total_rank(
                    (#[trigger] hits[j]).score,
                ) >= total_rank(scores[i][k]) by {
                    assert(total_rank(sorted[j].score) >= total_rank(sorted[m].score));
                }
            }
        }
    }
}

/// Each candidate's score is what is computed of its own vector: of that alone,
/// of the query and that, or the best over all queries and that. Only excluded
/// candidates are left without one.
pub proof fn candidates_are_scored_by_their_own_vectors<
    F: Fn(&[u32]) -> u32,
    D: Fn(&[u32], &[u32]) -> u32,
>(
    score_fn: F,
    dot: D,
    query: Seq<u32>,
    queries: Seq<Seq<u32>>,
    candidates: Seq<CandidateText>,
    exclude: Seq<Seq<char>>,
    scores: Seq<u32>,
    i: int,
)
    requires
        0 <= i < candidates.len(),
    ensures
        scores_by(score_fn, candidates, exclude, scores) && !exclude.contains(candidates[i].path)
            ==> scores.len() == candidates.len() && exists|v: &[u32]|
            v@ == candidates[i].vector && #[trigger] call_ensures(score_fn, (v,), scores[i]),
        dot_scores(dot, query, candidates, scores) ==> scores.len() == candidates.len() && exists|
            q: &[u32],
            v: &[u32],
        |
            q@ == query && v@ == candidates[i].vector && #[trigger] call_ensures(
                dot,
                (q, v),
                scores[i],
            ),
        best_dot_scores(dot, queries, candidates, exclude, scores) && !exclude.contains(
            candidates[i].path,
        ) ==> scores.len() == candidates.len() && best_dot(
            dot,
            queries,
            candidates[i].vector,
            scores[i],
        ),
{
    if dot_scores(dot, query, candidates, scores) {
        assert(dots_as(dot, query, candidates[i].vector, scores[i]));
    }
    if scores_by(score_fn, candidates, exclude, scores) && !exclude.contains(candidates[i].path) {
        assert(scores_as(score_fn, candidates[i].vector, scores[i]));
    }
}

} // verus!
