use gnosis::search::{
    best_hits, blob_to_vec, float_greater, float_max, float_min, merge_normalized, rank, rank_by,
    rank_multi, top_hits, vec_to_blob, Candidate, Hit,
};

fn bits(v: &[f32]) -> Vec<u32> {
    v.iter().map(|x| x.to_bits()).collect()
}

fn dot(a: &[u32], b: &[u32]) -> u32 {
    if a.len() != b.len() {
        return 0.0f32.to_bits();
    }
    let sum: f32 = a.iter().zip(b).map(|(x, y)| f32::from_bits(*x) * f32::from_bits(*y)).sum();
    sum.to_bits()
}

fn normalize(score: u32, min: u32, max: u32) -> u32 {
    let (score, min, max) = (f32::from_bits(score), f32::from_bits(min), f32::from_bits(max));
    let range = max - min;
    let value = if range > f32::EPSILON { (score - min) / range } else { 1.0 };
    value.to_bits()
}

fn candidate(path: &str, heading: &str, text: &str, vector: Vec<f32>) -> Candidate {
    Candidate {
        path: path.to_string(),
        title: "t".to_string(),
        source_root: "/root".to_string(),
        heading_path: heading.to_string(),
        text: text.to_string(),
        vector: bits(&vector),
        width: None,
        height: None,
    }
}

fn hit(path: &str, score: f32) -> Hit {
    Hit {
        path: path.to_string(),
        title: "t".to_string(),
        source_root: "/r".to_string(),
        heading_path: String::new(),
        text: String::new(),
        score: score.to_bits(),
        width: None,
        height: None,
    }
}

fn score(h: &Hit) -> f32 {
    f32::from_bits(h.score)
}

fn paths(hits: &[Hit]) -> Vec<&str> {
    hits.iter().map(|h| h.path.as_str()).collect()
}

#[test]
fn blob_roundtrip() {
    let v = bits(&[0.5f32, -1.25, 3.0]);
    assert_eq!(blob_to_vec(&vec_to_blob(&v)), v);
}

#[test]
fn rank_keeps_best_chunk_per_document() {
    let query = bits(&[1.0, 0.0]);
    let candidates = vec![
        candidate("a.md", "H1", "weak", vec![0.1, 0.9]),
        candidate("a.md", "H2", "strong", vec![0.9, 0.1]),
        candidate("b.md", "H1", "mid", vec![0.5, 0.5]),
    ];

    let hits = rank(&query, candidates, 10, dot);
    assert_eq!(hits.len(), 2);
    assert_eq!(hits[0].path, "a.md");
    assert_eq!(hits[0].text, "strong");
    assert_eq!(hits[1].path, "b.md");
}

#[test]
fn rank_truncates_to_limit() {
    let query = bits(&[1.0]);
    let candidates =
        (0..5).map(|i| candidate(&format!("{i}.md"), "", "x", vec![i as f32])).collect();
    assert_eq!(rank(&query, candidates, 2, dot).len(), 2);
}

#[test]
fn rank_carries_width_height_from_best_chunk() {
    let query = bits(&[1.0, 0.0]);
    let mut c = candidate("img.png", "", "", vec![0.9, 0.1]);
    c.width = Some(800);
    c.height = Some(600);
    let hits = rank(&query, vec![c], 10, dot);
    assert_eq!(hits[0].width, Some(800));
    assert_eq!(hits[0].height, Some(600));
}

#[test]
fn merge_normalized_passes_through_single_space_unnormalized() {
    let hits = vec![hit("a.md", 0.42), hit("b.md", 0.10)];
    let merged = merge_normalized(vec![hits], 10, normalize);
    assert_eq!(score(&merged[0]), 0.42);
    assert_eq!(score(&merged[1]), 0.10);
}

#[test]
fn merge_normalized_normalizes_per_space_before_merging() {
    let text_hits = vec![hit("a.md", 0.80), hit("b.md", 0.40)];
    let image_hits = vec![hit("c.png", 0.30), hit("d.png", 0.10)];
    let merged = merge_normalized(vec![text_hits, image_hits], 10, normalize);
    assert_eq!(merged.len(), 4);
    assert_eq!(score(&merged[0]), 1.0);
    assert_eq!(score(&merged[1]), 1.0);
    assert_eq!(score(&merged[2]), 0.0);
    assert_eq!(score(&merged[3]), 0.0);
}

#[test]
fn merge_normalized_truncates_to_limit() {
    let hits = (0..5).map(|i| hit(&format!("{i}.md"), i as f32)).collect();
    let other = vec![hit("x.png", 1.0)];
    assert_eq!(merge_normalized(vec![hits, other], 2, normalize).len(), 2);
}

#[test]
fn merge_normalized_of_no_space_is_empty() {
    assert!(merge_normalized(Vec::new(), 10, normalize).is_empty());
    assert!(merge_normalized(vec![Vec::new(), Vec::new()], 10, normalize).is_empty());
}

#[test]
fn merge_normalized_keeps_the_order_of_ties() {
    let merged = merge_normalized(
        vec![vec![hit("a", 0.8), hit("b", 0.4)], vec![hit("c", 0.3)], vec![hit("d", 2.0), hit("e", 1.0)]],
        10,
        normalize,
    );
    assert_eq!(paths(&merged), vec!["a", "c", "d", "b", "e"]);
}

#[test]
fn merge_normalized_passes_a_single_space_through_in_its_order() {
    let merged = merge_normalized(vec![vec![hit("a", 0.1), hit("b", 0.9)]], 10, normalize);
    assert_eq!(paths(&merged), vec!["a", "b"]);
}

#[test]
fn rank_multi_scores_by_the_best_query_and_excludes_before_truncation() {
    let queries = vec![bits(&[1.0, 0.0]), bits(&[0.0, 1.0])];
    let candidates = vec![
        candidate("self.md", "", "", vec![1.0, 1.0]),
        candidate("x.md", "", "x", vec![0.2, 0.7]),
        candidate("y.md", "", "y", vec![0.9, 0.0]),
    ];
    let hits = rank_multi(&queries, candidates, &["self.md".to_string()], 2, dot);
    assert_eq!(paths(&hits), vec!["y.md", "x.md"]);
    assert_eq!(score(&hits[0]), 0.9);
    assert_eq!(score(&hits[1]), 0.7);
}

#[test]
fn rank_multi_without_queries_scores_nothing() {
    let hits = rank_multi(&[], vec![candidate("a", "h", "t", vec![1.0])], &[], 5, dot);
    assert_eq!(score(&hits[0]), f32::NEG_INFINITY);
    assert_eq!(hits[0].text, "");
    assert_eq!(hits[0].title, "t");
}

#[test]
fn rank_by_never_takes_a_nan_over() {
    let vectors = [f32::NAN, 0.5, 0.25];
    let candidates =
        vectors.iter().map(|v| candidate("a", "", &format!("{v}"), vec![*v])).collect();
    let hits = rank_by(|v: &[u32]| v[0], candidates, &[], 5);
    assert_eq!(hits.len(), 1);
    assert_eq!(hits[0].text, "0.5");
}

#[test]
fn rank_on_a_length_mismatch_scores_zero() {
    let hits = rank(&bits(&[1.0, 1.0]), vec![candidate("a", "", "", vec![3.0])], 5, dot);
    assert_eq!(score(&hits[0]), 0.0);
}

#[test]
fn best_hits_keeps_first_of_equal_scores() {
    let candidates = vec![candidate("a", "1", "", vec![]), candidate("a", "2", "", vec![])];
    let scores = bits(&[0.5, 0.5]);
    let hits = best_hits(candidates, &scores, &[]);
    assert_eq!(hits.len(), 1);
    assert_eq!(hits[0].heading_path, "1");
}

#[test]
fn top_hits_sorts_as_total_cmp_does() {
    let values = [
        0.0f32, -0.0, 1.5, -1.5, f32::NAN, -f32::NAN, f32::INFINITY, f32::NEG_INFINITY, 1e-40, 3.0,
        1.5, -2.5, f32::MIN_POSITIVE,
    ];
    let hits = values.iter().enumerate().map(|(i, v)| hit(&i.to_string(), *v)).collect();
    let mut want: Vec<(usize, f32)> = values.iter().copied().enumerate().collect();
    want.sort_by(|a, b| b.1.total_cmp(&a.1));
    let got: Vec<String> = top_hits(hits, 100).into_iter().map(|h| h.path).collect();
    let want: Vec<String> = want.iter().map(|(i, _)| i.to_string()).collect();
    assert_eq!(got, want);
}

#[test]
fn float_order_agrees_with_the_hardware() {
    let values = [
        0.0f32, -0.0, 1.5, -1.5, f32::NAN, -f32::NAN, f32::INFINITY, f32::NEG_INFINITY, 1e-40,
        -1e-40, f32::MAX, f32::MIN,
    ];
    for a in values {
        for b in values {
            assert_eq!(float_greater(a.to_bits(), b.to_bits()), a > b);
            let max = f32::from_bits(float_max(a.to_bits(), b.to_bits()));
            let min = f32::from_bits(float_min(a.to_bits(), b.to_bits()));
            assert!(max == a.max(b) || (max.is_nan() && a.max(b).is_nan()));
            assert!(min == a.min(b) || (min.is_nan() && a.min(b).is_nan()));
        }
    }
}

#[test]
fn blob_is_little_endian_and_drops_a_partial_float() {
    assert_eq!(vec_to_blob(&[0x0102_0304, 0xfffe_fdfc]), vec![4, 3, 2, 1, 0xfc, 0xfd, 0xfe, 0xff]);
    assert_eq!(vec_to_blob(&bits(&[1.0])), 1.0f32.to_le_bytes().to_vec());
    assert_eq!(blob_to_vec(&[4, 3, 2, 1, 9, 9, 9]), vec![0x0102_0304]);
    assert!(blob_to_vec(&[]).is_empty());
}
