//! Vector scoring and ranking, independent of how candidates are stored.
//!
//! A score and each element of a vector is a single-precision float, held as
//! its IEEE 754 bit pattern: the bits decide how floats compare, and what takes
//! floating-point arithmetic (the dot product, the rescaling of a score) is
//! handed in by the caller.
use vstd::hash_map::StringHashMap;
use vstd::prelude::*;

use crate::embed::vectors;
use crate::text::{holds_text, texts};

verus! {

/// The bits of negative infinity.
pub const NEG_INFINITY: u32 = 0xff80_0000;

/// The bits of positive infinity.
pub const INFINITY: u32 = 0x7f80_0000;

/// Whether these are the bits of a NaN.
pub open spec fn is_nan(b: u32) -> bool {
    0x7f80_0000 < b < 0x8000_0000 || 0xff80_0000 < b
}

/// A number that orders floats other than NaN as their values do; both zeros
/// have the same.
pub open spec fn value_rank(b: u32) -> int {
    if b < 0x8000_0000 {
        b as int
    } else {
        0x8000_0000 - b
    }
}

/// A number that orders all floats as `total_cmp` does: negative NaNs first,
/// positive NaNs last, negative zero before positive zero.
pub open spec fn total_rank(b: u32) -> int {
    if b < 0x8000_0000 {
        b as int
    } else {
        0x7fff_ffff - b
    }
}

/// Whether float `a` is greater than float `b`; false where either is a NaN.
pub open spec fn greater(a: u32, b: u32) -> bool {
    !is_nan(a) && !is_nan(b) && value_rank(a) > value_rank(b)
}

/// The larger of two floats; the other one where one is a NaN.
pub open spec fn larger(a: u32, b: u32) -> u32 {
    if is_nan(a) || greater(b, a) {
        b
    } else {
        a
    }
}

/// The smaller of two floats; the other one where one is a NaN.
pub open spec fn smaller(a: u32, b: u32) -> u32 {
    if is_nan(a) || greater(a, b) {
        b
    } else {
        a
    }
}

fn nan(b: u32) -> (r: bool)
    ensures
        r == is_nan(b),
{
    (0x7f80_0000 < b && b < 0x8000_0000) || 0xff80_0000 < b
}

fn rank_of_value(b: u32) -> (r: i64)
    ensures
        r == value_rank(b),
{
    if b < 0x8000_0000 {
        b as i64
    } else {
        0x8000_0000 - b as i64
    }
}

fn rank_of_float(b: u32) -> (r: i64)
    ensures
        r == total_rank(b),
{
    if b < 0x8000_0000 {
        b as i64
    } else {
        0x7fff_ffff - b as i64
    }
}

/// Whether float `a` is greater than float `b`.
pub fn float_greater(a: u32, b: u32) -> (r: bool)
    ensures
        r == greater(a, b),
{
    !nan(a) && !nan(b) && rank_of_value(a) > rank_of_value(b)
}

/// The larger of two floats.
pub fn float_max(a: u32, b: u32) -> (r: u32)
    ensures
        r == larger(a, b),
{
    if nan(a) || float_greater(b, a) {
        b
    } else {
        a
    }
}

/// The smaller of two floats.
pub fn float_min(a: u32, b: u32) -> (r: u32)
    ensures
        r == smaller(a, b),
{
    if nan(a) || float_greater(a, b) {
        b
    } else {
        a
    }
}

/// One embedded chunk to score against a query, before dedup and ranking.
pub struct Candidate {
    pub path: String,
    pub title: String,
    pub source_root: String,
    pub heading_path: String,
    pub text: String,
    pub vector: Vec<u32>,
    /// Image pixel dimensions, when this candidate's document is an image
    /// (or `None` for text documents and unknown dimensions).
    pub width: Option<i64>,
    pub height: Option<i64>,
}

/// The content of a [`Candidate`].
pub struct CandidateText {
    pub path: Seq<char>,
    pub title: Seq<char>,
    pub source_root: Seq<char>,
    pub heading_path: Seq<char>,
    pub text: Seq<char>,
    pub vector: Seq<u32>,
    pub width: Option<i64>,
    pub height: Option<i64>,
}

impl View for Candidate {
    type V = CandidateText;

    open spec fn view(&self) -> CandidateText {
        CandidateText {
            path: self.path@,
            title: self.title@,
            source_root: self.source_root@,
            heading_path: self.heading_path@,
            text: self.text@,
            vector: self.vector@,
            width: self.width,
            height: self.height,
        }
    }
}

/// The contents of some candidates.
pub open spec fn candidate_texts(v: Seq<Candidate>) -> Seq<CandidateText> {
    Seq::new(v.len(), |i: int| v[i]@)
}

/// One ranked search result (best chunk per document).
#[derive(Debug)]
pub struct Hit {
    pub path: String,
    pub title: String,
    pub source_root: String,
    pub heading_path: String,
    pub text: String,
    pub score: u32,
    pub width: Option<i64>,
    pub height: Option<i64>,
}

/// The content of a [`Hit`].
pub struct HitText {
    pub path: Seq<char>,
    pub title: Seq<char>,
    pub source_root: Seq<char>,
    pub heading_path: Seq<char>,
    pub text: Seq<char>,
    pub score: u32,
    pub width: Option<i64>,
    pub height: Option<i64>,
}

impl View for Hit {
    type V = HitText;

    open spec fn view(&self) -> HitText {
        HitText {
            path: self.path@,
            title: self.title@,
            source_root: self.source_root@,
            heading_path: self.heading_path@,
            text: self.text@,
            score: self.score,
            width: self.width,
            height: self.height,
        }
    }
}

/// The contents of some hits.
pub open spec fn hit_texts(v: Seq<Hit>) -> Seq<HitText> {
    Seq::new(v.len(), |i: int| v[i]@)
}

/// The contents of the hits of several spaces.
pub open spec fn space_texts(v: Seq<Vec<Hit>>) -> Seq<Seq<HitText>> {
    Seq::new(v.len(), |i: int| hit_texts(v[i]@))
}

/// At most the first `n` items.
pub open spec fn at_most<T>(s: Seq<T>, n: nat) -> Seq<T> {
    if s.len() <= n {
        s
    } else {
        s.take(n as int)
    }
}

/// `x` put in before the trailing items of `s` that score lower.
pub open spec fn insert_hit(s: Seq<HitText>, x: HitText) -> Seq<HitText>
    decreases s.len(),
{
    if s.len() == 0 || total_rank(s.last().score) >= total_rank(x.score) {
        s.push(x)
    } else {
        insert_hit(s.drop_last(), x).push(s.last())
    }
}

/// The hits by descending score; of equal scores, the one that came first.
pub open spec fn by_score(s: Seq<HitText>) -> Seq<HitText>
    decreases s.len(),
{
    if s.len() == 0 {
        seq![]
    } else {
        insert_hit(by_score(s.drop_last()), s.last())
    }
}

/// Two rankings merged; of equal scores, those of `a` come first.
pub open spec fn merged(a: Seq<HitText>, b: Seq<HitText>) -> Seq<HitText>
    decreases a.len() + b.len(),
{
    if a.len() == 0 {
        b
    } else if b.len() == 0 {
        a
    } else if total_rank(a.last().score) >= total_rank(b.last().score) {
        merged(a, b.drop_last()).push(b.last())
    } else {
        merged(a.drop_last(), b).push(a.last())
    }
}

proof fn merged_insert(a: Seq<HitText>, b: Seq<HitText>, x: HitText)
    ensures
        merged(a, insert_hit(b, x)) == insert_hit(merged(a, b), x),
    decreases a.len() + b.len(),
{
    if a.len() == 0 {
    } else if b.len() == 0 || total_rank(b.last().score) >= total_rank(x.score) {
        assert(insert_hit(b, x) == b.push(x));
        assert(b.push(x).drop_last() =~= b);
        assert(b.push(x).last() == x);
        if total_rank(a.last().score) >= total_rank(x.score) {
            if b.len() > 0 {
                if total_rank(a.last().score) >= total_rank(b.last().score) {
                    assert(merged(a, b).last() == b.last());
                } else {
                    assert(merged(a, b).last() == a.last());
                }
            }
        } else {
            merged_insert(a.drop_last(), b, x);
            if b.len() > 0 {
                assert(merged(a, b) == merged(a.drop_last(), b).push(a.last()));
                assert(merged(a, b).drop_last() =~= merged(a.drop_last(), b));
            } else {
                assert(merged(a.drop_last(), b) =~= a.drop_last());
            }
        }
    } else {
        let c = insert_hit(b.drop_last(), x);
        assert(insert_hit(b, x) == c.push(b.last()));
        assert(c.push(b.last()).drop_last() =~= c);
        if total_rank(a.last().score) >= total_rank(b.last().score) {
            merged_insert(a, b.drop_last(), x);
            assert(merged(a, b).drop_last() =~= merged(a, b.drop_last()));
        } else {
            merged_insert(a.drop_last(), b, x);
            assert(merged(a, b).drop_last() =~= merged(a.drop_last(), b));
        }
    }
}

proof fn merged_by_score(a: Seq<HitText>, b: Seq<HitText>)
    ensures
        merged(by_score(a), by_score(b)) == by_score(a + b),
    decreases b.len(),
{
    if b.len() == 0 {
        assert(a + b =~= a);
    } else {
        merged_by_score(a, b.drop_last());
        merged_insert(by_score(a), by_score(b.drop_last()), b.last());
        assert((a + b).drop_last() =~= a + b.drop_last());
        assert((a + b).last() == b.last());
    }
}

/// The hits in reverse.
fn reversed(v: Vec<Hit>) -> (r: Vec<Hit>)
    ensures
        hit_texts(r@) == hit_texts(v@).reverse(),
{
    let mut v = v;
    let ghost all = hit_texts(v@);
    let mut r: Vec<Hit> = Vec::new();
    while v.len() > 0
        invariant
            hit_texts(v@) == all.take(v.len() as int),
            v.len() <= all.len(),
            hit_texts(r@) == all.skip(v.len() as int).reverse(),
        decreases v.len(),
    {
        let ghost before = v@;
        let ghost done = hit_texts(r@);
        if let Some(hit) = v.pop() {
            r.push(hit);
            proof {
                assert(hit@ == hit_texts(before)[before.len() - 1]);
                assert(hit_texts(v@) =~= hit_texts(before).drop_last());
                assert(hit_texts(r@) =~= done.push(hit@));
                assert(all.skip(v.len() as int).reverse() =~= all.skip(
                    before.len() as int,
                ).reverse().push(all[v.len() as int]));
            }
        }
    }
    assert(all.skip(0) =~= all);
    r
}

/// Merges two rankings.
fn merge_hits(a: Vec<Hit>, b: Vec<Hit>) -> (r: Vec<Hit>)
    ensures
        hit_texts(r@) == merged(hit_texts(a@), hit_texts(b@)),
{
    let mut a = a;
    let mut b = b;
    let ghost all = merged(hit_texts(a@), hit_texts(b@));
    let mut tail: Vec<Hit> = Vec::new();
    assert(hit_texts(tail@).reverse() =~= seq![]);
    assert(all + Seq::<HitText>::empty() =~= all);
    while a.len() > 0 && b.len() > 0
        invariant
            all == merged(hit_texts(a@), hit_texts(b@)) + hit_texts(tail@).reverse(),
        decreases a.len() + b.len(),
    {
        let ghost left = hit_texts(a@);
        let ghost right = hit_texts(b@);
        let ghost done = hit_texts(tail@);
        let from_b = rank_of_float(a[a.len() - 1].score) >= rank_of_float(b[b.len() - 1].score);
        let taken = if from_b {
            b.pop()
        } else {
            a.pop()
        };
        if let Some(hit) = taken {
            tail.push(hit);
            proof {
                assert(hit_texts(tail@) =~= done.push(hit@));
                assert(done.push(hit@).reverse() =~= seq![hit@] + done.reverse());
                if from_b {
                    assert(hit_texts(b@) =~= right.drop_last());
                    assert(hit@ == right.last());
                } else {
                    assert(hit_texts(a@) =~= left.drop_last());
                    assert(hit@ == left.last());
                }
                let rest = merged(hit_texts(a@), hit_texts(b@));
                assert(rest.push(hit@) + done.reverse() =~= rest + (seq![hit@] + done.reverse()));
            }
        }
    }
    let mut r = if a.len() == 0 {
        b
    } else {
        a
    };
    let ghost head = hit_texts(r@);
    let mut tail = reversed(tail);
    let ghost back = hit_texts(tail@);
    let ghost whole = r@ + tail@;
    r.append(&mut tail);
    assert(hit_texts(r@) =~= head + back);
    r
}

/// Sorts hits by descending score; hits of equal score keep their order.
fn sort_hits(v: Vec<Hit>) -> (r: Vec<Hit>)
    ensures
        hit_texts(r@) == by_score(hit_texts(v@)),
    decreases v.len(),
{
    let mut v = v;
    let ghost all = hit_texts(v@);
    if v.len() <= 1 {
        proof {
            if v.len() == 1 {
                assert(all.drop_last() =~= seq![]);
                assert(by_score(all.drop_last()) =~= seq![]);
                assert(by_score(all) =~= all);
            }
        }
        return v;
    }
    let half: usize = v.len() / 2;
    let back = v.split_off(half);
    let ghost front_texts = hit_texts(v@);
    let ghost back_texts = hit_texts(back@);
    let front = sort_hits(v);
    let back = sort_hits(back);
    proof {
        assert(front_texts + back_texts =~= all);
        merged_by_score(front_texts, back_texts);
    }
    merge_hits(front, back)
}

/// The top `limit` hits, sorted descending by score.
pub fn top_hits(hits: Vec<Hit>, limit: usize) -> (r: Vec<Hit>)
    ensures
        hit_texts(r@) == at_most(by_score(hit_texts(hits@)), limit as nat),
{
    let mut sorted = sort_hits(hits);
    let ghost all = hit_texts(sorted@);
    if sorted.len() > limit {
        sorted.truncate(limit);
        assert(hit_texts(sorted@) =~= all.take(limit as int));
    }
    sorted
}

/// A candidate's document before any chunk of it has scored.
pub open spec fn unscored(c: CandidateText) -> HitText {
    HitText {
        path: c.path,
        title: c.title,
        source_root: c.source_root,
        heading_path: seq![],
        text: seq![],
        score: NEG_INFINITY,
        width: None,
        height: None,
    }
}

/// A document's hit after one more of its chunks: the chunk takes the hit over
/// where it scores higher.
pub open spec fn better(h: HitText, c: CandidateText, score: u32) -> HitText {
    if greater(score, h.score) {
        HitText {
            heading_path: c.heading_path,
            text: c.text,
            score,
            width: c.width,
            height: c.height,
            ..h
        }
    } else {
        h
    }
}

/// Where the hit for `path` stands, or -1.
pub open spec fn place_of(best: Seq<HitText>, path: Seq<char>) -> int
    decreases best.len(),
{
    if best.len() == 0 {
        -1
    } else if best.last().path == path {
        best.len() - 1
    } else {
        place_of(best.drop_last(), path)
    }
}

/// The best hits after one more candidate.
pub open spec fn scored(best: Seq<HitText>, c: CandidateText, score: u32) -> Seq<HitText> {
    let k = place_of(best, c.path);
    if k < 0 {
        best.push(better(unscored(c), c, score))
    } else {
        best.update(k, better(best[k], c, score))
    }
}

/// The best hit of each document that is not excluded, in the order in which
/// the documents first come.
pub open spec fn best_of(
    candidates: Seq<CandidateText>,
    scores: Seq<u32>,
    exclude: Seq<Seq<char>>,
) -> Seq<HitText>
    decreases candidates.len(),
{
    if candidates.len() == 0 {
        seq![]
    } else {
        let before = best_of(candidates.drop_last(), scores, exclude);
        let c = candidates.last();
        if exclude.contains(c.path) {
            before
        } else {
            scored(before, c, scores[candidates.len() - 1])
        }
    }
}

/// The ranking of scored candidates: the best chunk of each document that is
/// not excluded, by descending score, the top `limit` of them.
pub open spec fn ranking(
    candidates: Seq<CandidateText>,
    scores: Seq<u32>,
    exclude: Seq<Seq<char>>,
    limit: nat,
) -> Seq<HitText> {
    at_most(by_score(best_of(candidates, scores, exclude)), limit)
}

/// Whether `index` holds the place of each document in `best`.
spec fn indexes(index: Map<Seq<char>, usize>, best: Seq<HitText>) -> bool {
    &&& forall|k: int|
        0 <= k < best.len() ==> index.contains_key(#[trigger] best[k].path) && index[best[k].path]
            == k
    &&& forall|p: Seq<char>| #[trigger]
        index.contains_key(p) ==> index[p] < best.len() && best[index[p] as int].path == p
}

/// Where the hit for a path stands, as [`place_of`] finds it.
pub proof fn place_found(best: Seq<HitText>, path: Seq<char>)
    ensures
        -1 <= place_of(best, path) < best.len(),
        place_of(best, path) >= 0 ==> best[place_of(best, path)].path == path,
        place_of(best, path) < 0 ==> forall|k: int|
            0 <= k < best.len() ==> #[trigger] best[k].path != path,
    decreases best.len(),
{
    if best.len() > 0 && best.last().path != path {
        place_found(best.drop_last(), path);
        if place_of(best, path) < 0 {
            assert forall|k: int| 0 <= k < best.len() implies #[trigger] best[k].path != path by {
                if k < best.len() - 1 {
                    assert(best.drop_last()[k].path != path);
                }
            }
        }
    }
}

/// The best hit of each document that is not excluded, given each candidate's
/// score.
pub fn best_hits(candidates: Vec<Candidate>, scores: &[u32], exclude: &[String]) -> (r: Vec<Hit>)
    requires
        scores.len() == candidates.len(),
    ensures
        hit_texts(r@) == best_of(candidate_texts(candidates@), scores@, texts(exclude@)),
{
    let ghost all = candidate_texts(candidates@);
    let mut best: Vec<Hit> = Vec::new();
    let mut index: StringHashMap<usize> = StringHashMap::new();
    let mut i: usize = 0;
    assert(hit_texts(best@) =~= best_of(all.take(0), scores@, texts(exclude@)));
    for c in it: candidates.into_iter()
        invariant
            i == it.index(),
            it.seq().len() == scores.len(),
            all == candidate_texts(it.seq()),
            indexes(index@, hit_texts(best@)),
            hit_texts(best@) == best_of(all.take(i as int), scores@, texts(exclude@)),
    {
        let ghost before = hit_texts(best@);
        let ghost item = c@;
        proof {
            assert(all.take(i + 1).drop_last() =~= all.take(i as int));
            assert(all.take(i + 1).last() == item);
            place_found(before, item.path);
        }
        if !holds_text(exclude, c.path.as_str()) {
            let score: u32 = scores[i];
            match index.get(c.path.as_str()) {
                Some(k) => {
                    let k: usize = *k;
                    assert(place_of(before, item.path) == k);
                    if float_greater(score, best[k].score) {
                        best[k].score = score;
                        best[k].heading_path = c.heading_path;
                        best[k].text = c.text;
                        best[k].width = c.width;
                        best[k].height = c.height;
                    }
                    assert(hit_texts(best@) =~= scored(before, item, score));
                },
                None => {
                    proof {
                        if place_of(before, item.path) >= 0 {
                            assert(index@.contains_key(
                                before[place_of(before, item.path)].path,
                            ));
                        }
                    }
                    let mut hit = Hit {
                        path: c.path.clone(),
                        title: c.title,
                        source_root: c.source_root,
                        heading_path: String::new(),
                        text: String::new(),
                        score: NEG_INFINITY,
                        width: None,
                        height: None,
                    };
                    assert(hit.heading_path@ =~= seq![]);
                    assert(hit.text@ =~= seq![]);
                    if float_greater(score, hit.score) {
                        hit.score = score;
                        hit.heading_path = c.heading_path;
                        hit.text = c.text;
                        hit.width = c.width;
                        hit.height = c.height;
                    }
                    index.insert(c.path, best.len());
                    best.push(hit);
                    assert(hit_texts(best@) =~= scored(before, item, score));
                },
            }
        }
        i += 1;
    }
    assert(all.take(i as int) =~= all);
    best
}

/// Whether `score_fn` gives `score` for a vector with these elements.
pub open spec fn scores_as<F: Fn(&[u32]) -> u32>(
    score_fn: F,
    vector: Seq<u32>,
    score: u32,
) -> bool {
    exists|v: &[u32]| v@ == vector && #[trigger] call_ensures(score_fn, (v,), score)
}

/// Whether each candidate that is not excluded has a score that `score_fn`
/// gives for its vector.
pub open spec fn scores_by<F: Fn(&[u32]) -> u32>(
    score_fn: F,
    candidates: Seq<CandidateText>,
    exclude: Seq<Seq<char>>,
    scores: Seq<u32>,
) -> bool {
    &&& scores.len() == candidates.len()
    &&& forall|i: int|
        0 <= i < scores.len() && !exclude.contains(candidates[i].path) ==> scores_as(
            score_fn,
            candidates[i].vector,
            #[trigger] scores[i],
        )
}

/// Scores each candidate with `score_fn`, keeps the best-scoring chunk per
/// document path (excluding `exclude_paths`), and returns the top `limit`
/// sorted descending by score. Documents of equal score come in the order in
/// which they first came.
pub fn rank_by<F: Fn(&[u32]) -> u32>(
    score_fn: F,
    candidates: Vec<Candidate>,
    exclude_paths: &[String],
    limit: usize,
) -> (r: Vec<Hit>)
    requires
        forall|v: &[u32]| #[trigger] call_requires(score_fn, (v,)),
    ensures
        exists|scores: Seq<u32>| #[trigger]
            scores_by(score_fn, candidate_texts(candidates@), texts(exclude_paths@), scores)
                && hit_texts(r@) == ranking(
                candidate_texts(candidates@),
                scores,
                texts(exclude_paths@),
                limit as nat,
            ),
{
    let ghost all = candidate_texts(candidates@);
    let ghost exclude = texts(exclude_paths@);
    let mut scores: Vec<u32> = Vec::new();
    let mut i: usize = 0;
    while i < candidates.len()
        invariant
            i <= candidates.len(),
            all == candidate_texts(candidates@),
            exclude == texts(exclude_paths@),
            forall|v: &[u32]| #[trigger] call_requires(score_fn, (v,)),
            scores_by(score_fn, all.take(i as int), exclude, scores@),
        decreases candidates.len() - i,
    {
        let ghost before = scores@;
        if holds_text(exclude_paths, candidates[i].path.as_str()) {
            scores.push(NEG_INFINITY);
        } else {
            let v = candidates[i].vector.as_slice();
            let score: u32 = score_fn(v);
            scores.push(score);
            assert(scores_as(score_fn, all[i as int].vector, scores@[i as int]));
        }
        proof {
            let now = all.take(i + 1);
            assert forall|k: int|
                0 <= k < scores@.len() && !exclude.contains(now[k].path) implies scores_as(
                score_fn,
                now[k].vector,
                #[trigger] scores@[k],
            ) by {
                if k < i {
                    assert(now[k] == all.take(i as int)[k]);
                    assert(scores@[k] == before[k]);
                }
            }
        }
        i += 1;
    }
    assert(all.take(i as int) =~= all);
    let best = best_hits(candidates, scores.as_slice(), exclude_paths);
    top_hits(best, limit)
}

/// Whether `dot` gives `score` for two vectors with these elements.
pub open spec fn dots_as<D: Fn(&[u32], &[u32]) -> u32>(
    dot: D,
    query: Seq<u32>,
    vector: Seq<u32>,
    score: u32,
) -> bool {
    exists|q: &[u32], v: &[u32]|
        q@ == query && v@ == vector && #[trigger] call_ensures(dot, (q, v), score)
}

/// Whether each candidate's score is its dot product with `query`.
pub open spec fn dot_scores<D: Fn(&[u32], &[u32]) -> u32>(
    dot: D,
    query: Seq<u32>,
    candidates: Seq<CandidateText>,
    scores: Seq<u32>,
) -> bool {
    &&& scores.len() == candidates.len()
    &&& forall|i: int|
        0 <= i < scores.len() ==> dots_as(dot, query, candidates[i].vector, #[trigger] scores[i])
}

/// Scores `candidates` against `query` by cosine similarity (vectors are
/// taken to be L2-normalized, so the dot product that `dot` computes suffices),
/// keeps only the best-scoring chunk per document path, and returns the top
/// `limit` sorted descending by score.
pub fn rank<D: Fn(&[u32], &[u32]) -> u32>(
    query: &[u32],
    candidates: Vec<Candidate>,
    limit: usize,
    dot: D,
) -> (r: Vec<Hit>)
    requires
        forall|q: &[u32], v: &[u32]| #[trigger] call_requires(dot, (q, v)),
    ensures
        exists|scores: Seq<u32>| #[trigger]
            dot_scores(dot, query@, candidate_texts(candidates@), scores) && hit_texts(r@)
                == ranking(candidate_texts(candidates@), scores, seq![], limit as nat),
{
    let ghost all = candidate_texts(candidates@);
    let dot_ref = &dot;
    let score_fn = |v: &[u32]| -> (s: u32)
        ensures
            call_ensures(*dot_ref, (query, v), s),
        { dot_ref(query, v) };
    let none: Vec<String> = Vec::new();
    assert(texts(none@) =~= seq![]);
    let r = rank_by(score_fn, candidates, none.as_slice(), limit);
    proof {
        let scores = choose|scores: Seq<u32>| #[trigger]
            scores_by(score_fn, all, texts(none@), scores) && hit_texts(r@) == ranking(
                all,
                scores,
                texts(none@),
                limit as nat,
            );
        assert forall|i: int| 0 <= i < scores.len() implies dots_as(
            dot,
            query@,
            all[i].vector,
            #[trigger] scores[i],
        ) by {
            assert(scores_as(score_fn, all[i].vector, scores[i]));
            let v = choose|v: &[u32]|
                v@ == all[i].vector && #[trigger] call_ensures(score_fn, (v,), scores[i]);
            assert(call_ensures(dot, (query, v), scores[i]));
        }
        assert(dot_scores(dot, query@, all, scores));
    }
    r
}

/// The largest of some floats, NaNs left out; negative infinity of none.
pub open spec fn largest(s: Seq<u32>) -> u32
    decreases s.len(),
{
    if s.len() == 0 {
        NEG_INFINITY
    } else {
        larger(largest(s.drop_last()), s.last())
    }
}

/// The smallest of some floats, NaNs left out; positive infinity of none.
pub open spec fn smallest(s: Seq<u32>) -> u32
    decreases s.len(),
{
    if s.len() == 0 {
        INFINITY
    } else {
        smaller(smallest(s.drop_last()), s.last())
    }
}

/// Whether `score` is the largest dot product of `vector` with the queries.
pub open spec fn best_dot<D: Fn(&[u32], &[u32]) -> u32>(
    dot: D,
    queries: Seq<Seq<u32>>,
    vector: Seq<u32>,
    score: u32,
) -> bool {
    exists|dots: Seq<u32>| #[trigger]
        query_dots(dot, queries, vector, dots) && score == largest(dots)
}

/// Whether `dots` are the dot products of `vector` with the queries.
pub open spec fn query_dots<D: Fn(&[u32], &[u32]) -> u32>(
    dot: D,
    queries: Seq<Seq<u32>>,
    vector: Seq<u32>,
    dots: Seq<u32>,
) -> bool {
    &&& dots.len() == queries.len()
    &&& forall|i: int|
        0 <= i < dots.len() ==> dots_as(dot, queries[i], vector, #[trigger] dots[i])
}

/// The largest dot product of `v` with the queries.
fn best_score<D: Fn(&[u32], &[u32]) -> u32>(
    queries: &[Vec<u32>],
    v: &[u32],
    dot: &D,
) -> (r: u32)
    requires
        forall|q: &[u32], v: &[u32]| #[trigger] call_requires(*dot, (q, v)),
    ensures
        best_dot(*dot, vectors(queries@), v@, r),
{
    let mut best: u32 = NEG_INFINITY;
    let ghost all = vectors(queries@);
    let ghost mut dots: Seq<u32> = seq![];
    let mut i: usize = 0;
    while i < queries.len()
        invariant
            i <= queries.len(),
            all == vectors(queries@),
            forall|q: &[u32], v: &[u32]| #[trigger] call_requires(*dot, (q, v)),
            query_dots(*dot, all.take(i as int), v@, dots),
            best == largest(dots),
        decreases queries.len() - i,
    {
        let q = queries[i].as_slice();
        let score: u32 = dot(q, v);
        best = float_max(best, score);
        proof {
            let before = dots;
            dots = dots.push(score);
            assert(dots.drop_last() =~= before);
            assert(dots_as(*dot, all[i as int], v@, score));
            assert forall|k: int| 0 <= k < dots.len() implies dots_as(
                *dot,
                all.take(i + 1)[k],
                v@,
                #[trigger] dots[k],
            ) by {
                if k < i {
                    assert(before[k] == dots[k]);
                    assert(all.take(i as int)[k] == all.take(i + 1)[k]);
                }
            }
        }
        i += 1;
    }
    assert(all.take(i as int) =~= all);
    best
}

/// Whether each candidate's score is its largest dot product with the queries;
/// the scores of excluded candidates are left open.
pub open spec fn best_dot_scores<D: Fn(&[u32], &[u32]) -> u32>(
    dot: D,
    queries: Seq<Seq<u32>>,
    candidates: Seq<CandidateText>,
    exclude: Seq<Seq<char>>,
    scores: Seq<u32>,
) -> bool {
    &&& scores.len() == candidates.len()
    &&& forall|i: int|
        0 <= i < scores.len() && !exclude.contains(candidates[i].path) ==> best_dot(
            dot,
            queries,
            candidates[i].vector,
            #[trigger] scores[i],
        )
}

/// Like [`rank`], but scores each candidate against the best (max) cosine
/// similarity across several query vectors instead of one (e.g. a document's
/// own chunks). `exclude_paths` is filtered before truncation to `limit`, not
/// after, so an excluded document never displaces a genuinely eligible one.
pub fn rank_multi<D: Fn(&[u32], &[u32]) -> u32>(
    queries: &[Vec<u32>],
    candidates: Vec<Candidate>,
    exclude_paths: &[String],
    limit: usize,
    dot: D,
) -> (r: Vec<Hit>)
    requires
        forall|q: &[u32], v: &[u32]| #[trigger] call_requires(dot, (q, v)),
    ensures
        exists|scores: Seq<u32>| #[trigger]
            best_dot_scores(
                dot,
                vectors(queries@),
                candidate_texts(candidates@),
                texts(exclude_paths@),
                scores,
            ) && hit_texts(r@) == ranking(
                candidate_texts(candidates@),
                scores,
                texts(exclude_paths@),
                limit as nat,
            ),
{
    let ghost all = candidate_texts(candidates@);
    let ghost exclude = texts(exclude_paths@);
    let dot_ref = &dot;
    let score_fn = |v: &[u32]| -> (s: u32)
        ensures
            best_dot(*dot_ref, vectors(queries@), v@, s),
        { best_score(queries, v, dot_ref) };
    let r = rank_by(score_fn, candidates, exclude_paths, limit);
    proof {
        let scores = choose|scores: Seq<u32>| #[trigger]
            scores_by(score_fn, all, exclude, scores) && hit_texts(r@) == ranking(
                all,
                scores,
                exclude,
                limit as nat,
            );
        assert forall|i: int|
            0 <= i < scores.len() && !exclude.contains(all[i].path) implies best_dot(
            dot,
            vectors(queries@),
            all[i].vector,
            #[trigger] scores[i],
        ) by {
            assert(scores_as(score_fn, all[i].vector, scores[i]));
        }
        assert(best_dot_scores(dot, vectors(queries@), all, exclude, scores));
    }
    r
}

/// The scores of some hits.
pub open spec fn scores_of(hits: Seq<HitText>) -> Seq<u32> {
    Seq::new(hits.len(), |i: int| hits[i].score)
}

/// The hits under other scores.
pub open spec fn rescored(hits: Seq<HitText>, scores: Seq<u32>) -> Seq<HitText> {
    Seq::new(hits.len(), |i: int| HitText { score: scores[i], ..hits[i] })
}

/// Whether each of a space's scores is what `normalize` gives for it between
/// the smallest and the largest of the space.
pub open spec fn normalized<N: Fn(u32, u32, u32) -> u32>(
    normalize: N,
    hits: Seq<HitText>,
    scores: Seq<u32>,
) -> bool {
    &&& scores.len() == hits.len()
    &&& forall|i: int|
        0 <= i < scores.len() ==> call_ensures(
            normalize,
            (hits[i].score, smallest(scores_of(hits)), largest(scores_of(hits))),
            #[trigger] scores[i],
        )
}

/// Whether the scores of each space are normalized.
pub open spec fn all_normalized<N: Fn(u32, u32, u32) -> u32>(
    normalize: N,
    spaces: Seq<Seq<HitText>>,
    scores: Seq<Seq<u32>>,
) -> bool {
    &&& scores.len() == spaces.len()
    &&& forall|i: int|
        0 <= i < scores.len() ==> normalized(normalize, spaces[i], #[trigger] scores[i])
}

/// The hits of all spaces under other scores, one space after the other.
pub open spec fn all_rescored(spaces: Seq<Seq<HitText>>, scores: Seq<Seq<u32>>) -> Seq<HitText>
    decreases spaces.len(),
{
    if spaces.len() == 0 {
        seq![]
    } else {
        all_rescored(spaces.drop_last(), scores) + rescored(
            spaces.last(),
            scores[spaces.len() - 1],
        )
    }
}

/// The largest and the smallest score of some hits.
fn score_bounds(hits: &Vec<Hit>) -> (r: (u32, u32))
    ensures
        r.0 == smallest(scores_of(hit_texts(hits@))),
        r.1 == largest(scores_of(hit_texts(hits@))),
{
    let ghost all = scores_of(hit_texts(hits@));
    let mut low: u32 = INFINITY;
    let mut high: u32 = NEG_INFINITY;
    let mut i: usize = 0;
    assert(all.take(0) =~= seq![]);
    while i < hits.len()
        invariant
            i <= hits.len(),
            all == scores_of(hit_texts(hits@)),
            low == smallest(all.take(i as int)),
            high == largest(all.take(i as int)),
        decreases hits.len() - i,
    {
        low = float_min(low, hits[i].score);
        high = float_max(high, hits[i].score);
        i += 1;
        assert(all.take(i as int).drop_last() =~= all.take(i - 1));
        assert(all.take(i as int).last() == hits@[i - 1].score);
    }
    assert(all.take(i as int) =~= all);
    (low, high)
}

/// A space's hits under their normalized scores.
fn normalize_space<N: Fn(u32, u32, u32) -> u32>(hits: Vec<Hit>, normalize: &N) -> (r: Vec<Hit>)
    requires
        forall|s: u32, min: u32, max: u32| #[trigger] call_requires(*normalize, (s, min, max)),
    ensures
        normalized(*normalize, hit_texts(hits@), scores_of(hit_texts(r@))),
        hit_texts(r@) == rescored(hit_texts(hits@), scores_of(hit_texts(r@))),
{
    let (low, high) = score_bounds(&hits);
    let ghost all = hit_texts(hits@);
    let mut hits = hits;
    let mut i: usize = 0;
    while i < hits.len()
        invariant
            i <= hits.len(),
            hits.len() == all.len(),
            low == smallest(scores_of(all)),
            high == largest(scores_of(all)),
            forall|s: u32, min: u32, max: u32| #[trigger] call_requires(*normalize, (s, min, max)),
            forall|k: int|
                i <= k < all.len() ==> (#[trigger] hits@[k])@ == all[k],
            forall|k: int|
                0 <= k < i ==> (#[trigger] hits@[k])@ == (HitText {
                    score: hits@[k].score,
                    ..all[k]
                }) && call_ensures(*normalize, (all[k].score, low, high), hits@[k].score),
        decreases hits.len() - i,
    {
        let ghost before = hits@;
        let score: u32 = normalize(hits[i].score, low, high);
        assert(before[i as int]@ == all[i as int]);
        hits[i].score = score;
        assert(hits@[i as int]@ == HitText { score, ..all[i as int] });
        assert forall|k: int| 0 <= k < all.len() && k != i implies (#[trigger] hits@[k])@
            == before[k]@ && hits@[k].score == before[k].score by {}
        i += 1;
    }
    assert(hit_texts(hits@) =~= rescored(all, scores_of(hit_texts(hits@))));
    hits
}

/// Whether `hits` are the hits of several spaces merged into one ranked list of
/// at most `limit`: those of a single space as they are, those of more by their
/// normalized scores.
pub open spec fn merges<N: Fn(u32, u32, u32) -> u32>(
    normalize: N,
    spaces: Seq<Seq<HitText>>,
    limit: nat,
    hits: Seq<HitText>,
) -> bool {
    if spaces.len() == 0 {
        hits.len() == 0
    } else if spaces.len() == 1 {
        hits == at_most(spaces[0], limit)
    } else {
        exists|scores: Seq<Seq<u32>>| #[trigger]
            all_normalized(normalize, spaces, scores) && hits == at_most(
                by_score(all_rescored(spaces, scores)),
                limit,
            )
    }
}

/// Merges per-space search results into one ranked list. A single space passes
/// through with its raw scores unchanged. Two or more spaces get per-space
/// score normalization first, since plain cosine scores are not comparable
/// across different embedding models, then are merged and truncated to `limit`.
/// `normalize` takes a score and the smallest and largest score of its space.
pub fn merge_normalized<N: Fn(u32, u32, u32) -> u32>(
    per_space: Vec<Vec<Hit>>,
    limit: usize,
    normalize: N,
) -> (r: Vec<Hit>)
    requires
        forall|s: u32, min: u32, max: u32| #[trigger] call_requires(normalize, (s, min, max)),
    ensures
        merges(normalize, space_texts(per_space@), limit as nat, hit_texts(r@)),
{
    let ghost spaces = space_texts(per_space@);
    let mut per_space = per_space;
    if per_space.len() <= 1 {
        let mut hits = match per_space.pop() {
            Some(hits) => hits,
            None => Vec::new(),
        };
        let ghost all = hit_texts(hits@);
        if hits.len() > limit {
            hits.truncate(limit);
            assert(hit_texts(hits@) =~= all.take(limit as int));
        }
        return hits;
    }
    let mut merged: Vec<Hit> = Vec::new();
    let ghost mut scores: Seq<Seq<u32>> = seq![];
    assert(hit_texts(merged@) =~= all_rescored(spaces.take(0), scores));
    for hits in it: per_space.into_iter()
        invariant
            spaces == space_texts(it.seq()),
            forall|s: u32, min: u32, max: u32| #[trigger] call_requires(normalize, (s, min, max)),
            all_normalized(normalize, spaces.take(it.index() as int), scores),
            hit_texts(merged@) == all_rescored(spaces.take(it.index() as int), scores),
    {
        let ghost i: int = it.index() as int;
        let ghost before = hit_texts(merged@);
        let ghost old_scores = scores;
        let mut part = normalize_space(hits, &normalize);
        let ghost new = hit_texts(part@);
        proof {
            assert(spaces[i] == hit_texts(hits@));
            scores = scores.push(scores_of(new));
            let now = spaces.take(i + 1);
            assert(now.drop_last() =~= spaces.take(i));
            assert forall|k: int| 0 <= k < scores.len() implies normalized(
                normalize,
                now[k],
                #[trigger] scores[k],
            ) by {
                if k < i {
                    assert(now[k] == spaces.take(i)[k]);
                    assert(scores[k] == old_scores[k]);
                }
            }
            rescored_prefix(spaces.take(i), old_scores, scores);
        }
        merged.append(&mut part);
        assert(hit_texts(merged@) =~= before + new);
    }
    assert(spaces.take(spaces.len() as int) =~= spaces);
    top_hits(merged, limit)
}

proof fn rescored_prefix(spaces: Seq<Seq<HitText>>, a: Seq<Seq<u32>>, b: Seq<Seq<u32>>)
    requires
        spaces.len() <= a.len(),
        spaces.len() <= b.len(),
        forall|i: int| 0 <= i < spaces.len() ==> a[i] == b[i],
    ensures
        all_rescored(spaces, a) == all_rescored(spaces, b),
    decreases spaces.len(),
{
    if spaces.len() > 0 {
        rescored_prefix(spaces.drop_last(), a, b);
    }
}

/// Byte `k` of a number, the least significant first.
pub open spec fn byte_of(x: u32, k: int) -> u8 {
    if k == 0 {
        (x % 256) as u8
    } else if k == 1 {
        (x / 256 % 256) as u8
    } else if k == 2 {
        (x / 65536 % 256) as u8
    } else {
        (x / 16777216) as u8
    }
}

/// The number that four bytes make up, the least significant first.
pub open spec fn number_of(a: u8, b: u8, c: u8, d: u8) -> u32 {
    (a + 256 * b + 65536 * c + 16777216 * d) as u32
}

/// The bytes of a vector.
pub open spec fn blob_of(v: Seq<u32>) -> Seq<u8> {
    Seq::new(4 * v.len(), |i: int| byte_of(v[i / 4], i % 4))
}

/// The vector that some bytes hold; up to three bytes at the end are left over.
pub open spec fn vector_of(bytes: Seq<u8>) -> Seq<u32> {
    Seq::new(
        bytes.len() / 4,
        |i: int|
            number_of(bytes[4 * i], bytes[4 * i + 1], bytes[4 * i + 2], bytes[4 * i + 3]),
    )
}

/// Encodes a vector as little-endian bytes for compact storage.
pub fn vec_to_blob(v: &[u32]) -> (r: Vec<u8>)
    ensures
        r@ == blob_of(v@),
{
    let mut bytes: Vec<u8> = Vec::new();
    let mut i: usize = 0;
    while i < v.len()
        invariant
            i <= v.len(),
            bytes@ == blob_of(v@.take(i as int)),
        decreases v.len() - i,
    {
        let x: u32 = v[i];
        let ghost before = bytes@;
        bytes.push((x % 256) as u8);
        bytes.push((x / 256 % 256) as u8);
        bytes.push((x / 65536 % 256) as u8);
        bytes.push((x / 16777216) as u8);
        i += 1;
        proof {
            let now = blob_of(v@.take(i as int));
            assert forall|k: int| 0 <= k < now.len() implies #[trigger] now[k] == bytes@[k] by {
                if k < before.len() {
                    assert(k / 4 < i - 1);
                    assert(before[k] == byte_of(v@.take(i - 1)[k / 4], k % 4));
                } else {
                    assert(k / 4 == i - 1);
                    assert(k % 4 == k - before.len());
                }
            }
            assert(bytes@ =~= now);
        }
    }
    assert(v@.take(i as int) =~= v@);
    bytes
}

/// Decodes little-endian bytes back into a vector.
pub fn blob_to_vec(bytes: &[u8]) -> (r: Vec<u32>)
    ensures
        r@ == vector_of(bytes@),
{
    let mut v: Vec<u32> = Vec::new();
    let n: usize = bytes.len() / 4;
    let mut i: usize = 0;
    while i < n
        invariant
            i <= n,
            n == bytes.len() / 4,
            v@ == vector_of(bytes@).take(i as int),
        decreases n - i,
    {
        let a: u32 = bytes[4 * i] as u32;
        let b: u32 = bytes[4 * i + 1] as u32;
        let c: u32 = bytes[4 * i + 2] as u32;
        let d: u32 = bytes[4 * i + 3] as u32;
        v.push(a + 256 * b + 65536 * c + 16777216 * d);
        i += 1;
        assert(v@ =~= vector_of(bytes@).take(i as int));
    }
    assert(vector_of(bytes@).take(n as int) =~= vector_of(bytes@));
    v
}

/// A number is what its four bytes make up.
pub proof fn number_of_bytes(x: u32)
    ensures
        number_of(byte_of(x, 0), byte_of(x, 1), byte_of(x, 2), byte_of(x, 3)) == x,
{
    let (a, b, c, d) = (x % 256, x / 256 % 256, x / 65536 % 256, x / 16777216);
    assert(a + 256 * b + 65536 * c + 16777216 * d == x);
}

/// A number's four bytes stand side by side.
pub proof fn four_bytes(v: Seq<u32>, i: int)
    requires
        0 <= i < v.len(),
    ensures
        blob_of(v)[4 * i] == byte_of(v[i], 0),
        blob_of(v)[4 * i + 1] == byte_of(v[i], 1),
        blob_of(v)[4 * i + 2] == byte_of(v[i], 2),
        blob_of(v)[4 * i + 3] == byte_of(v[i], 3),
{
    assert((4 * i) / 4 == i && (4 * i) % 4 == 0);
    assert((4 * i + 1) / 4 == i && (4 * i + 1) % 4 == 1);
    assert((4 * i + 2) / 4 == i && (4 * i + 2) % 4 == 2);
    assert((4 * i + 3) / 4 == i && (4 * i + 3) % 4 == 3);
}

/// Decoding what was encoded gives the vector back.
pub proof fn blob_roundtrip(v: Seq<u32>)
    ensures
        vector_of(blob_of(v)) == v,
{
    let bytes = blob_of(v);
    assert(bytes.len() == 4 * v.len());
    assert(bytes.len() / 4 == v.len());
    assert forall|i: int| 0 <= i < v.len() implies #[trigger] vector_of(bytes)[i] == v[i] by {
        four_bytes(v, i);
        number_of_bytes(v[i]);
    }
    assert(vector_of(bytes) =~= v);
}

proof fn bytes_of_number(a: u8, b: u8, c: u8, d: u8)
    ensures
        byte_of(number_of(a, b, c, d), 0) == a,
        byte_of(number_of(a, b, c, d), 1) == b,
        byte_of(number_of(a, b, c, d), 2) == c,
        byte_of(number_of(a, b, c, d), 3) == d,
{
    let x: int = a + 256 * b + 65536 * c + 16777216 * d;
    assert(x / 256 == b + 256 * c + 65536 * d);
    assert(x / 65536 == c + 256 * d);
    assert(x / 16777216 == d);
}

/// Encoding what was decoded gives the bytes back, where they are whole floats.
pub proof fn blob_of_vector(bytes: Seq<u8>)
    requires
        bytes.len() % 4 == 0,
    ensures
        blob_of(vector_of(bytes)) == bytes,
{
    let v = vector_of(bytes);
    assert forall|i: int| 0 <= i < bytes.len() implies #[trigger] blob_of(v)[i] == bytes[i] by {
        let k = i / 4;
        assert(4 * k <= i < 4 * k + 4);
        bytes_of_number(bytes[4 * k], bytes[4 * k + 1], bytes[4 * k + 2], bytes[4 * k + 3]);
    }
    assert(blob_of(v) =~= bytes);
}

} // verus!
