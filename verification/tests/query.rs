use std::cell::RefCell;
use std::collections::HashMap;
use std::rc::Rc;

use gnosis::commands::query_filter;
use gnosis::config::Config;
use gnosis::embed::{Embedder, EmbedderModel};
use gnosis::query::{
    links_to, related, resolve_link_targets, resolve_spaces, search, space_of, QueryEmbedders,
};
use gnosis::search::Hit;
use gnosis::store::{DocWrite, Space, Stats, Store, StoreModel, TextQuery};
use gnosis::workspace::Workspace;

fn hit(path: &str, score: f32) -> Hit {
    Hit {
        path: path.to_string(),
        title: "t".to_string(),
        source_root: "/r".to_string(),
        heading_path: String::new(),
        text: String::new(),
        score: score.to_bits(),
        width: None,
        height: None,
    }
}

fn strings(v: &[&str]) -> Vec<String> {
    v.iter().map(|s| s.to_string()).collect()
}

fn workspace(image: bool) -> Workspace {
    let mut config = Config::default();
    config.embed.image.enabled = image;
    Workspace {
        config,
        config_path: "gnosis.toml".to_string(),
        db_path: "x.db".to_string(),
        global: false,
    }
}

#[derive(Default)]
struct FakeStore {
    indexed: bool,
    text: Vec<(String, f32)>,
    image: Vec<(String, f32)>,
    vectors: HashMap<&'static str, Vec<Vec<u32>>>,
    links: Vec<String>,
    metas: Vec<(String, Option<String>)>,
    excluded: Rc<RefCell<Vec<Vec<String>>>>,
    asked: Rc<RefCell<Vec<String>>>,
    fails: bool,
}

impl FakeStore {
    fn hits(&self, space: Space) -> Result<Vec<Hit>, String> {
        if self.fails {
            return Err("no such table".to_string());
        }
        let list = match space {
            Space::Text => &self.text,
            Space::Image => &self.image,
        };
        Ok(list.iter().map(|(p, s)| hit(p, *s)).collect())
    }
}

impl Store for FakeStore {
    fn model(&self) -> StoreModel {
        unreachable!("only proofs speak of the model")
    }
    fn set_meta(&mut self, _: &str, _: &str) -> Result<(), String> {
        Ok(())
    }
    fn get_meta(&mut self, _: &str) -> Result<Option<String>, String> {
        Ok(None)
    }
    fn stats(&mut self) -> Result<Stats, String> {
        Ok(Stats::default())
    }
    fn document_hash(&mut self, _: &str) -> Result<Option<Vec<u8>>, String> {
        Ok(if self.indexed { Some(Vec::new()) } else { None })
    }
    fn paths_for_roots(&mut self, _: &[String]) -> Result<Vec<String>, String> {
        Ok(Vec::new())
    }
    fn counts_by_root(&mut self) -> Result<Vec<(String, i64)>, String> {
        Ok(Vec::new())
    }
    fn delete_by_root(&mut self, _: &str) -> Result<usize, String> {
        Ok(0)
    }
    fn replace_document(&mut self, _: &DocWrite<'_>) -> Result<(), String> {
        Ok(())
    }
    fn delete_document(&mut self, _: &str) -> Result<(), String> {
        Ok(())
    }
    fn search_space(
        &mut self,
        space: Space,
        query: &[u32],
        limit: usize,
        filter: &TextQuery<'_>,
    ) -> Result<Vec<Hit>, String> {
        self.asked.borrow_mut().push(format!(
            "{} {} {} {:?} {:?}",
            space.as_str(),
            f32::from_bits(query[0]),
            limit,
            filter.from,
            filter.tags
        ));
        self.hits(space)
    }
    fn chunk_vectors(&mut self, _: &str, space: Space) -> Result<Vec<Vec<u32>>, String> {
        Ok(self.vectors.get(space.as_str()).cloned().unwrap_or_default())
    }
    fn linked_targets(&mut self, _: &str) -> Result<Vec<String>, String> {
        Ok(self.links.clone())
    }
    fn all_document_meta(&mut self) -> Result<Vec<(String, Option<String>)>, String> {
        Ok(self.metas.clone())
    }
    fn related_space(
        &mut self,
        space: Space,
        queries: &[Vec<u32>],
        exclude: &[String],
        limit: usize,
        filter: &TextQuery<'_>,
    ) -> Result<Vec<Hit>, String> {
        self.excluded.borrow_mut().push(exclude.to_vec());
        self.asked.borrow_mut().push(format!(
            "{} {} {} {:?} {:?}",
            space.as_str(),
            queries.len(),
            limit,
            filter.from,
            filter.tags
        ));
        self.hits(space)
    }
}

struct FakeEmbedder {
    vector: Option<f32>,
}

impl Embedder for FakeEmbedder {
    fn model(&self) -> EmbedderModel {
        unreachable!("only proofs speak of the model")
    }
    fn space(&self) -> &str {
        "text"
    }
    fn dim(&self) -> usize {
        1
    }
    fn model_id(&self) -> &str {
        "fake"
    }
    fn embed(&mut self, _: &[String]) -> Result<Vec<Vec<u32>>, String> {
        Ok(self.vector.iter().map(|v| vec![v.to_bits()]).collect())
    }
}

fn normalize(score: u32, min: u32, max: u32) -> u32 {
    let (score, min, max) = (f32::from_bits(score), f32::from_bits(min), f32::from_bits(max));
    let range = max - min;
    (if range > f32::EPSILON { (score - min) / range } else { 1.0 }).to_bits()
}

fn embedders(
    text: Option<f32>,
    image_text: Option<f32>,
) -> QueryEmbedders<FakeEmbedder, FakeEmbedder> {
    QueryEmbedders {
        text: Some(FakeEmbedder { vector: text }),
        image_text: Some(FakeEmbedder { vector: image_text }),
    }
}

fn paths(hits: &[Hit]) -> Vec<&str> {
    hits.iter().map(|h| h.path.as_str()).collect()
}

#[test]
fn resolve_spaces_defaults_to_what_is_available() {
    assert_eq!(resolve_spaces(&workspace(false), &[]).unwrap(), vec!["text"]);
    assert_eq!(resolve_spaces(&workspace(true), &[]).unwrap(), vec!["text", "image"]);
}

#[test]
fn resolve_spaces_validates_what_is_requested() {
    let ws = workspace(false);
    assert_eq!(resolve_spaces(&ws, &strings(&["image"])).unwrap(), vec!["image"]);
    assert_eq!(
        resolve_spaces(&ws, &strings(&["text", "audio", "video"])).unwrap_err(),
        "unsupported space 'audio' — only text, image are indexed"
    );
    assert_eq!(space_of("text"), Some(Space::Text));
    assert_eq!(space_of("image"), Some(Space::Image));
    assert_eq!(space_of("Text"), None);
}

#[test]
fn link_targets_match_stems_and_aliases_in_any_case() {
    let metas = vec![
        ("/v/Note One.md".to_string(), None),
        ("/v/two.md".to_string(), Some("aliases: [Second, Deux]".to_string())),
        ("/v/three.md".to_string(), Some("title: note one".to_string())),
    ];
    assert_eq!(
        resolve_link_targets(&strings(&["note one", "DEUX"]), &metas),
        vec!["/v/Note One.md", "/v/two.md"]
    );
    assert!(resolve_link_targets(&[], &metas).is_empty());
    assert!(links_to(&strings(&["A"]), "/v/x.md", &strings(&["b", "a"])));
    assert!(!links_to(&strings(&["x.md"]), "/v/x.md", &[]));
    assert!(!links_to(&strings(&["é"]), "/v/É.md", &[]));
}

#[test]
fn search_merges_the_spaces() {
    let mut store = FakeStore {
        text: vec![("a".to_string(), 0.8), ("b".to_string(), 0.4)],
        image: vec![("c".to_string(), 0.3), ("d".to_string(), 0.1)],
        ..FakeStore::default()
    };
    let asked = store.asked.clone();
    let from = strings(&["/r"]);
    let hits = search(
        &mut store,
        &mut embedders(Some(1.0), Some(2.0)),
        &strings(&["text", "image"]),
        "q",
        3,
        &query_filter(&from, &[]),
        normalize,
    )
    .unwrap();
    assert_eq!(paths(&hits), vec!["a", "c", "b"]);
    assert_eq!(
        *asked.borrow(),
        vec!["text 1 3 Some([\"/r\"]) None", "image 2 3 Some([\"/r\"]) None"]
    );
}

#[test]
fn search_reports_each_failure() {
    let filter = TextQuery { from: None, tags: None };
    let spaces = strings(&["text"]);
    let mut store = FakeStore::default();
    let none = search(&mut store, &mut embedders(None, None), &spaces, "q", 3, &filter, normalize);
    assert_eq!(none.unwrap_err(), "embedding produced no vector");
    let other = search(
        &mut store,
        &mut embedders(Some(1.0), None),
        &strings(&["audio"]),
        "q",
        3,
        &filter,
        normalize,
    );
    assert_eq!(other.unwrap_err(), "unsupported space 'audio'");
    store.fails = true;
    let failed =
        search(&mut store, &mut embedders(Some(1.0), None), &spaces, "q", 3, &filter, normalize);
    assert_eq!(failed.unwrap_err(), "no such table");
}

fn related_store() -> FakeStore {
    let mut vectors = HashMap::new();
    vectors.insert("text", vec![vec![0], vec![1]]);
    FakeStore {
        indexed: true,
        text: vec![("b".to_string(), 0.5), ("c".to_string(), 0.25)],
        vectors,
        links: strings(&["Two"]),
        metas: vec![("/v/two.md".to_string(), None), ("/v/three.md".to_string(), None)],
        ..FakeStore::default()
    }
}

#[test]
fn related_excludes_the_source_and_what_it_links_to() {
    let mut store = related_store();
    let (excluded, asked) = (store.excluded.clone(), store.asked.clone());
    let tags = strings(&["x"]);
    let hits =
        related(&mut store, &workspace(true), "/v/one.md", &[], false, &tags, 10, normalize).unwrap();
    assert_eq!(paths(&hits), vec!["b", "c"]);
    assert_eq!(f32::from_bits(hits[0].score), 0.5);
    assert_eq!(*excluded.borrow(), vec![strings(&["/v/one.md", "/v/two.md"])]);
    assert_eq!(*asked.borrow(), vec!["text 2 10 None Some([\"x\"])"]);

    let mut store = related_store();
    let excluded = store.excluded.clone();
    related(&mut store, &workspace(true), "/v/one.md", &[], true, &[], 10, normalize).unwrap();
    assert_eq!(*excluded.borrow(), vec![strings(&["/v/one.md"])]);
}

#[test]
fn related_reports_each_failure() {
    let ws = workspace(false);
    let mut store = related_store();
    store.indexed = false;
    let r = related(&mut store, &ws, "/v/one.md", &[], false, &[], 10, normalize);
    assert_eq!(r.unwrap_err(), "/v/one.md is not indexed — run `gnosis index`");
    let mut store = related_store();
    let r = related(
        &mut store,
        &ws,
        "/v/one.md",
        &strings(&["image", "image"]),
        false,
        &[],
        10,
        normalize,
    );
    assert_eq!(r.unwrap_err(), "/v/one.md has no chunks in any of [image, image] to compare");
    let r =
        related(&mut store, &ws, "/v/one.md", &strings(&["nope"]), false, &[], 10, normalize);
    assert_eq!(r.unwrap_err(), "unsupported space 'nope' — only text, image are indexed");
    store.fails = true;
    let r = related(&mut store, &ws, "/v/one.md", &[], false, &[], 10, normalize);
    assert_eq!(r.unwrap_err(), "no such table");
}
