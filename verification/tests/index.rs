use std::cell::RefCell;
use std::collections::HashMap;
use std::rc::Rc;

use gnosis::config::ChunkConfig;
use gnosis::embed::{Embedder, EmbedderModel};
use gnosis::fs::{FileReader, ReaderModel};
use gnosis::index::{
    run, EmbedderSet, IndexReport, IndexerArgs, PendingImage, PendingTitleDoc,
};
use gnosis::progress::{NoopProgress, Progress, ProgressModel};
use gnosis::search::Hit;
use gnosis::store::{ChunkWrite, DocWrite, Space, Stats, Store, StoreModel, TextQuery};
use gnosis::walk::{DocKind, Found, Walker, WalkerModel};

/// A document as it was handed to the store.
#[derive(Clone, Debug, PartialEq)]
struct Written {
    path: String,
    kind: String,
    source_root: String,
    content_hash: Vec<u8>,
    mtime: i64,
    title: String,
    frontmatter: Option<String>,
    chunks: Vec<(usize, String, String, Option<String>, String, Vec<u32>)>,
    links: Vec<String>,
    tags: Vec<String>,
    width: Option<i64>,
    height: Option<i64>,
}

#[derive(Clone, Default)]
struct FakeStore {
    written: Rc<RefCell<Vec<Written>>>,
    deleted: Rc<RefCell<Vec<String>>>,
    meta: Rc<RefCell<Vec<(String, String)>>>,
    hashes: HashMap<String, Vec<u8>>,
    models: HashMap<String, String>,
    stored: Vec<String>,
    asked_roots: Rc<RefCell<Vec<String>>>,
    refuses: Option<String>,
}

impl Store for FakeStore {
    fn model(&self) -> StoreModel {
        unreachable!("only proofs speak of the model")
    }
    fn set_meta(&mut self, key: &str, value: &str) -> Result<(), String> {
        self.meta.borrow_mut().push((key.to_string(), value.to_string()));
        Ok(())
    }
    fn get_meta(&mut self, key: &str) -> Result<Option<String>, String> {
        Ok(self.models.get(key).cloned())
    }
    fn stats(&mut self) -> Result<Stats, String> {
        Ok(Stats::default())
    }
    fn document_hash(&mut self, path: &str) -> Result<Option<Vec<u8>>, String> {
        Ok(self.hashes.get(path).cloned())
    }
    fn paths_for_roots(&mut self, roots: &[String]) -> Result<Vec<String>, String> {
        self.asked_roots.borrow_mut().extend(roots.iter().cloned());
        Ok(self.stored.clone())
    }
    fn counts_by_root(&mut self) -> Result<Vec<(String, i64)>, String> {
        Ok(Vec::new())
    }
    fn delete_by_root(&mut self, _root: &str) -> Result<usize, String> {
        Ok(0)
    }
    fn replace_document(&mut self, doc: &DocWrite<'_>) -> Result<(), String> {
        if self.refuses.as_deref() == Some(doc.path) {
            return Err("disk full".to_string());
        }
        self.written.borrow_mut().push(Written {
            path: doc.path.to_string(),
            kind: doc.kind.to_string(),
            source_root: doc.source_root.to_string(),
            content_hash: doc.content_hash.to_vec(),
            mtime: doc.mtime,
            title: doc.title.to_string(),
            frontmatter: doc.frontmatter.map(str::to_string),
            chunks: doc
                .chunks
                .iter()
                .map(|c| {
                    (
                        c.ord,
                        c.space.clone(),
                        c.modality.clone(),
                        c.text.clone(),
                        c.heading_path.clone(),
                        c.vector.clone(),
                    )
                })
                .collect(),
            links: doc.links.to_vec(),
            tags: doc.tags.to_vec(),
            width: doc.width,
            height: doc.height,
        });
        Ok(())
    }
    fn delete_document(&mut self, path: &str) -> Result<(), String> {
        self.deleted.borrow_mut().push(path.to_string());
        Ok(())
    }
    fn search_space(
        &mut self,
        _: Space,
        _: &[u32],
        _: usize,
        _: &TextQuery<'_>,
    ) -> Result<Vec<Hit>, String> {
        Ok(Vec::new())
    }
    fn chunk_vectors(&mut self, _: &str, _: Space) -> Result<Vec<Vec<u32>>, String> {
        Ok(Vec::new())
    }
    fn linked_targets(&mut self, _: &str) -> Result<Vec<String>, String> {
        Ok(Vec::new())
    }
    fn all_document_meta(&mut self) -> Result<Vec<(String, Option<String>)>, String> {
        Ok(Vec::new())
    }
    fn related_space(
        &mut self,
        _: Space,
        _: &[Vec<u32>],
        _: &[String],
        _: usize,
        _: &TextQuery<'_>,
    ) -> Result<Vec<Hit>, String> {
        Ok(Vec::new())
    }
}

struct FakeWalker {
    files: Vec<(String, DocKind)>,
}

impl Walker for FakeWalker {
    fn model(&self) -> WalkerModel {
        unreachable!("only proofs speak of the model")
    }
    fn discover(&mut self, _root: &str, _ignore_globs: &[String]) -> Result<Vec<Found>, String> {
        Ok(self
            .files
            .iter()
            .map(|(path, kind)| Found { path: path.clone(), kind: *kind })
            .collect())
    }
}

#[derive(Default)]
struct FakeFileReader {
    contents: HashMap<String, Vec<u8>>,
    unreadable: Vec<String>,
    unresolved: Vec<String>,
    canonical: HashMap<String, String>,
    sizes: HashMap<String, (u32, u32)>,
    time: i64,
}

impl FileReader for FakeFileReader {
    fn model(&self) -> ReaderModel {
        unreachable!("only proofs speak of the model")
    }
    fn canonicalize(&mut self, path: &str) -> Result<String, String> {
        if self.unresolved.iter().any(|p| p == path) {
            return Err(format!("resolving {path}"));
        }
        Ok(self.canonical.get(path).cloned().unwrap_or_else(|| path.to_string()))
    }
    fn read(&mut self, path: &str) -> Result<Vec<u8>, String> {
        if self.unreadable.iter().any(|p| p == path) {
            return Err(format!("reading {path}"));
        }
        Ok(self
            .contents
            .get(path)
            .cloned()
            .unwrap_or_else(|| b"# Heading\n\nbody text".to_vec()))
    }
    fn mtime(&mut self, _path: &str) -> i64 {
        self.time
    }
    fn image_dimensions(&mut self, path: &str) -> Option<(u32, u32)> {
        self.sizes.get(path).copied()
    }
}

struct FakeTextEmbedder;

impl Embedder for FakeTextEmbedder {
    fn model(&self) -> EmbedderModel {
        unreachable!("only proofs speak of the model")
    }
    fn space(&self) -> &str {
        "text"
    }
    fn dim(&self) -> usize {
        2
    }
    fn model_id(&self) -> &str {
        "fake-text"
    }
    fn embed(&mut self, inputs: &[String]) -> Result<Vec<Vec<u32>>, String> {
        Ok(inputs.iter().map(|_| unit()).collect())
    }
}

fn unit() -> Vec<u32> {
    vec![1.0f32.to_bits(), 0.0f32.to_bits()]
}

/// Simulates a corrupt or unsupported image: always fails to "decode".
struct FailingImageEmbedder;

impl Embedder for FailingImageEmbedder {
    fn model(&self) -> EmbedderModel {
        unreachable!("only proofs speak of the model")
    }
    fn space(&self) -> &str {
        "image"
    }
    fn dim(&self) -> usize {
        2
    }
    fn model_id(&self) -> &str {
        "fake-image"
    }
    fn embed(&mut self, _inputs: &[String]) -> Result<Vec<Vec<u32>>, String> {
        Err("simulated decode failure".to_string())
    }
}

/// Records every `embed()` call's inputs. Shares its call log so the test can
/// inspect it after the run.
#[derive(Clone, Default)]
struct RecordingEmbedder {
    calls: Rc<RefCell<Vec<Vec<String>>>>,
}

impl Embedder for RecordingEmbedder {
    fn model(&self) -> EmbedderModel {
        unreachable!("only proofs speak of the model")
    }
    fn space(&self) -> &str {
        "image"
    }
    fn dim(&self) -> usize {
        2
    }
    fn model_id(&self) -> &str {
        "fake-image"
    }
    fn embed(&mut self, inputs: &[String]) -> Result<Vec<Vec<u32>>, String> {
        self.calls.borrow_mut().push(inputs.to_vec());
        Ok(inputs.iter().map(|_| unit()).collect())
    }
}

/// Fails the batch call (2+ inputs) but succeeds on a single-item retry call,
/// unless that single item is `bad.png`.
struct PartiallyFailingImageEmbedder;

impl Embedder for PartiallyFailingImageEmbedder {
    fn model(&self) -> EmbedderModel {
        unreachable!("only proofs speak of the model")
    }
    fn space(&self) -> &str {
        "image"
    }
    fn dim(&self) -> usize {
        2
    }
    fn model_id(&self) -> &str {
        "fake-image"
    }
    fn embed(&mut self, inputs: &[String]) -> Result<Vec<Vec<u32>>, String> {
        if inputs.len() > 1 {
            return Err("simulated batch failure".to_string());
        }
        if inputs[0].contains("bad.png") {
            return Err("simulated decode failure".to_string());
        }
        Ok(inputs.iter().map(|_| unit()).collect())
    }
}

/// Answers without any vector.
struct EmptyEmbedder {
    batch_fails: bool,
}

impl Embedder for EmptyEmbedder {
    fn model(&self) -> EmbedderModel {
        unreachable!("only proofs speak of the model")
    }
    fn space(&self) -> &str {
        "image"
    }
    fn dim(&self) -> usize {
        2
    }
    fn model_id(&self) -> &str {
        "empty"
    }
    fn embed(&mut self, _inputs: &[String]) -> Result<Vec<Vec<u32>>, String> {
        if self.batch_fails {
            self.batch_fails = false;
            return Err("batch".to_string());
        }
        Ok(Vec::new())
    }
}

#[derive(Clone, Default)]
struct RecordingProgress {
    total: Rc<RefCell<u64>>,
    done: Rc<RefCell<u64>>,
    finished: Rc<RefCell<bool>>,
}

impl Progress for RecordingProgress {
    fn model(&self) -> ProgressModel {
        unreachable!("only proofs speak of the model")
    }
    fn inc_total(&mut self, delta: u64) {
        *self.total.borrow_mut() += delta;
    }
    fn inc(&mut self, delta: u64) {
        *self.done.borrow_mut() += delta;
    }
    fn finish(&mut self) {
        *self.finished.borrow_mut() = true;
    }
}

fn files(list: &[(&str, DocKind)]) -> FakeWalker {
    FakeWalker { files: list.iter().map(|(p, k)| (p.to_string(), *k)).collect() }
}

/// One markdown, one (failing) image, one more markdown: proves processing
/// continues past the failure to the next file.
fn three_file_walker() -> FakeWalker {
    files(&[
        ("/vault/a.md", DocKind::Markdown),
        ("/vault/bad.png", DocKind::Image),
        ("/vault/b.md", DocKind::Markdown),
    ])
}

fn args<I: Embedder, J: Embedder>(
    store: FakeStore,
    walker: FakeWalker,
    image: Option<I>,
    image_text: Option<J>,
) -> IndexerArgs<FakeStore, FakeWalker, FakeFileReader, FakeTextEmbedder, I, J, NoopProgress> {
    IndexerArgs {
        store,
        walker,
        fs_reader: FakeFileReader::default(),
        embedders: EmbedderSet { text: FakeTextEmbedder, image, image_text },
        progress: NoopProgress::new(),
        warnings: Vec::new(),
    }
}

fn vault() -> Vec<String> {
    vec!["/vault".to_string()]
}

fn run_default<I: Embedder, J: Embedder>(
    args: &mut IndexerArgs<
        FakeStore,
        FakeWalker,
        FakeFileReader,
        FakeTextEmbedder,
        I,
        J,
        NoopProgress,
    >,
) -> Result<IndexReport, String> {
    run(args, &vault(), &[], &ChunkConfig::default(), false, false, 32)
}

const NO_TITLES: Option<RecordingEmbedder> = None;

#[test]
fn run_skips_failing_images_by_default_and_reports_them() {
    let mut args =
        args(FakeStore::default(), three_file_walker(), Some(FailingImageEmbedder), NO_TITLES);

    let report = run(&mut args, &vault(), &[], &ChunkConfig::default(), false, false, 32)
        .expect("a failing image must not abort the run by default");

    assert_eq!(report.scanned, 3);
    assert_eq!(report.indexed, 2, "both markdown files indexed despite the image failing");
    assert_eq!(report.errors.len(), 1);
    assert_eq!(report.errors[0].path, "/vault/bad.png");
    assert!(report.errors[0].message.contains("simulated decode failure"));
}

#[test]
fn run_fail_fast_aborts_immediately_on_first_error() {
    let mut args =
        args(FakeStore::default(), three_file_walker(), Some(FailingImageEmbedder), NO_TITLES);

    let result = run(&mut args, &vault(), &[], &ChunkConfig::default(), false, true, 32);

    assert!(
        result.is_err(),
        "fail_fast must propagate the image error instead of collecting it"
    );
}

fn three_images() -> FakeWalker {
    files(&[
        ("/vault/a.png", DocKind::Image),
        ("/vault/b.png", DocKind::Image),
        ("/vault/c.png", DocKind::Image),
    ])
}

#[test]
fn run_batches_image_embeds_into_one_call() {
    let image_embedder = RecordingEmbedder::default();
    let mut args =
        args(FakeStore::default(), three_images(), Some(image_embedder.clone()), NO_TITLES);

    let report = run(&mut args, &vault(), &[], &ChunkConfig::default(), false, false, 32)
        .expect("all three images embed successfully");

    assert_eq!(report.indexed, 3);
    let calls = image_embedder.calls.borrow();
    assert_eq!(
        calls.len(),
        1,
        "three images under the default batch size must embed in a single call"
    );
    assert_eq!(calls[0].len(), 3);
}

#[test]
fn run_flushes_when_batch_size_reached_and_again_at_end() {
    let image_embedder = RecordingEmbedder::default();
    let mut args =
        args(FakeStore::default(), three_images(), Some(image_embedder.clone()), NO_TITLES);

    let report = run(&mut args, &vault(), &[], &ChunkConfig::default(), false, false, 2)
        .expect("all three images embed successfully");

    assert_eq!(report.indexed, 3);
    let calls = image_embedder.calls.borrow();
    assert_eq!(
        calls.len(),
        2,
        "batch_size=2 over 3 images must flush once at the threshold and once at the end"
    );
    assert_eq!(calls[0].len(), 2);
    assert_eq!(calls[1].len(), 1);
}

#[test]
fn run_retries_batch_one_by_one_on_batch_failure_and_isolates_the_bad_file() {
    let walker = files(&[
        ("/vault/a.png", DocKind::Image),
        ("/vault/bad.png", DocKind::Image),
        ("/vault/c.png", DocKind::Image),
    ]);
    let mut args =
        args(FakeStore::default(), walker, Some(PartiallyFailingImageEmbedder), NO_TITLES);

    let report = run(&mut args, &vault(), &[], &ChunkConfig::default(), false, false, 32)
        .expect("a single bad file in a batch must not abort the run by default");

    assert_eq!(report.indexed, 2, "a.png and c.png survive the one-by-one retry");
    assert_eq!(report.errors.len(), 1);
    assert_eq!(report.errors[0].path, "/vault/bad.png");
}

#[test]
fn run_batches_title_proxy_embeds_across_markdown_and_image_files() {
    let walker = files(&[
        ("/vault/a.md", DocKind::Markdown),
        ("/vault/b.md", DocKind::Markdown),
        ("/vault/c.png", DocKind::Image),
    ]);
    let image_embedder = RecordingEmbedder::default();
    let title_embedder = RecordingEmbedder::default();
    let mut args = args(
        FakeStore::default(),
        walker,
        Some(image_embedder.clone()),
        Some(title_embedder.clone()),
    );

    let report = run(&mut args, &vault(), &[], &ChunkConfig::default(), false, false, 32)
        .expect("two markdown files and one image all index successfully");

    assert_eq!(report.indexed, 3);
    let calls = title_embedder.calls.borrow();
    assert_eq!(
        calls.len(),
        1,
        "titles from both markdown files and the image must embed in a single batched call"
    );
    assert_eq!(calls[0].len(), 3);
}

fn digest_of_default_content() -> Vec<u8> {
    blake3::hash(b"# Heading\n\nbody text").as_bytes().to_vec()
}

#[test]
fn run_writes_markdown_documents_in_full() {
    let store = FakeStore::default();
    let written = store.written.clone();
    let meta = store.meta.clone();
    let mut args =
        args(store, files(&[("/vault/n.md", DocKind::Markdown)]), None::<RecordingEmbedder>, NO_TITLES);
    args.fs_reader.time = 77;
    args.fs_reader.contents.insert(
        "/vault/n.md".to_string(),
        b"---\ntitle: T\ntags: [x]\n---\n# H\n\nsee [[A]] #y\n".to_vec(),
    );
    let report = run_default(&mut args).unwrap();
    assert_eq!((report.indexed, report.chunks, report.skipped, report.deleted), (1, 1, 0, 0));
    let docs = written.borrow();
    assert_eq!(docs.len(), 1);
    let doc = &docs[0];
    assert_eq!(doc.path, "/vault/n.md");
    assert_eq!(doc.kind, "markdown");
    assert_eq!(doc.source_root, "/vault");
    assert_eq!(doc.mtime, 77);
    assert_eq!(doc.title, "T");
    assert_eq!(doc.frontmatter.as_deref(), Some("title: T\ntags: [x]"));
    assert_eq!(doc.links, vec!["A"]);
    assert_eq!(doc.tags, vec!["x", "y"]);
    assert_eq!(
        doc.content_hash,
        blake3::hash(b"---\ntitle: T\ntags: [x]\n---\n# H\n\nsee [[A]] #y\n").as_bytes().to_vec()
    );
    assert_eq!((doc.width, doc.height), (None, None));
    assert_eq!(
        doc.chunks,
        vec![(
            0,
            "text".to_string(),
            "text".to_string(),
            Some("see [[A]] #y".to_string()),
            "H".to_string(),
            unit()
        )]
    );
    assert_eq!(
        *meta.borrow(),
        vec![
            ("model.text".to_string(), "fake-text".to_string()),
            ("dim.text".to_string(), "2".to_string()),
        ]
    );
}

#[test]
fn run_writes_images_with_their_dimensions_and_title_chunk() {
    let store = FakeStore::default();
    let written = store.written.clone();
    let meta = store.meta.clone();
    let mut args = args(
        store,
        files(&[("/vault/pic.v1.png", DocKind::Image)]),
        Some(RecordingEmbedder::default()),
        Some(RecordingEmbedder::default()),
    );
    args.fs_reader.sizes.insert("/vault/pic.v1.png".to_string(), (800, 600));
    let report = run_default(&mut args).unwrap();
    assert_eq!((report.indexed, report.chunks), (1, 2));
    let docs = written.borrow();
    assert_eq!(docs[0].kind, "image");
    assert_eq!(docs[0].title, "pic.v1");
    assert_eq!((docs[0].width, docs[0].height), (Some(800), Some(600)));
    assert_eq!(docs[0].frontmatter, None);
    assert!(docs[0].links.is_empty() && docs[0].tags.is_empty());
    let chunks: Vec<(usize, &str, &str, Option<&str>)> = docs[0]
        .chunks
        .iter()
        .map(|c| (c.0, c.1.as_str(), c.2.as_str(), c.3.as_deref()))
        .collect();
    assert_eq!(
        chunks,
        vec![(0, "image", "image", None), (1, "image", "text_title", Some("pic.v1"))]
    );
    let keys: Vec<String> = meta.borrow().iter().map(|(k, _)| k.clone()).collect();
    assert_eq!(
        keys,
        vec!["model.text", "dim.text", "model.image_vision", "dim.image", "model.image_text"]
    );
}

#[test]
fn run_appends_the_title_chunk_to_markdown() {
    let store = FakeStore::default();
    let written = store.written.clone();
    let mut args = args(
        store,
        files(&[("/vault/a.md", DocKind::Markdown)]),
        Some(RecordingEmbedder::default()),
        Some(RecordingEmbedder::default()),
    );
    let report = run_default(&mut args).unwrap();
    assert_eq!(report.chunks, 2);
    let docs = written.borrow();
    assert_eq!(docs[0].chunks[1].0, 1);
    assert_eq!(docs[0].chunks[1].2, "text_title");
    assert_eq!(docs[0].chunks[1].3.as_deref(), Some("Heading"));
}

#[test]
fn run_skips_unchanged_files_unless_forced() {
    let mut store = FakeStore::default();
    store.hashes.insert("/vault/a.md".to_string(), digest_of_default_content());
    store.hashes.insert("/vault/b.md".to_string(), vec![1, 2, 3]);
    store.hashes.insert("/vault/c.png".to_string(), digest_of_default_content());
    let walker = || {
        files(&[
            ("/vault/a.md", DocKind::Markdown),
            ("/vault/b.md", DocKind::Markdown),
            ("/vault/c.png", DocKind::Image),
        ])
    };
    let written = store.written.clone();
    let mut first = args(store.clone(), walker(), Some(RecordingEmbedder::default()), NO_TITLES);
    let report = run_default(&mut first).unwrap();
    assert_eq!((report.indexed, report.skipped), (1, 2));
    assert_eq!(written.borrow()[0].path, "/vault/b.md");
    let mut second = args(store, walker(), Some(RecordingEmbedder::default()), NO_TITLES);
    let report =
        run(&mut second, &vault(), &[], &ChunkConfig::default(), true, false, 32).unwrap();
    assert_eq!((report.indexed, report.skipped), (3, 0));
}

#[test]
fn a_second_run_over_unchanged_files_does_nothing() {
    let walker = || {
        files(&[
            ("/vault/a.md", DocKind::Markdown),
            ("/vault/b.png", DocKind::Image),
            ("/vault/c.png", DocKind::Image),
        ])
    };
    let store = FakeStore::default();
    let (written, meta) = (store.written.clone(), store.meta.clone());
    let embedder = || Some(RecordingEmbedder::default());
    let mut first = args(store, walker(), embedder(), embedder());
    let report = run_default(&mut first).unwrap();
    assert_eq!((report.scanned, report.indexed, report.skipped), (3, 3, 0));

    let mut kept = FakeStore::default();
    for doc in written.borrow().iter() {
        kept.hashes.insert(doc.path.clone(), doc.content_hash.clone());
        kept.stored.push(doc.path.clone());
    }
    kept.models.extend(meta.borrow().iter().cloned());
    let (written, deleted) = (kept.written.clone(), kept.deleted.clone());
    let (image, image_text) = (RecordingEmbedder::default(), RecordingEmbedder::default());
    let mut second = args(kept, walker(), Some(image.clone()), Some(image_text.clone()));
    let report = run_default(&mut second).unwrap();
    assert_eq!((report.scanned, report.indexed, report.skipped), (3, 0, 3));
    assert_eq!((report.chunks, report.deleted, report.errors.len()), (0, 0, 0));
    assert!(written.borrow().is_empty() && deleted.borrow().is_empty());
    assert!(image.calls.borrow().is_empty() && image_text.calls.borrow().is_empty());
}

#[test]
fn image_batches_hold_the_changed_images_in_order() {
    let mut store = FakeStore::default();
    store.hashes.insert("/vault/2.png".to_string(), digest_of_default_content());
    let image = RecordingEmbedder::default();
    let walker = files(&[
        ("/vault/1.png", DocKind::Image),
        ("/vault/2.png", DocKind::Image),
        ("/vault/a.md", DocKind::Markdown),
        ("/vault/3.png", DocKind::Image),
        ("/vault/1.png", DocKind::Image),
        ("/vault/4.png", DocKind::Image),
    ]);
    let mut args = args(store, walker, Some(image.clone()), NO_TITLES);
    run(&mut args, &vault(), &[], &ChunkConfig::default(), false, false, 2).unwrap();
    assert_eq!(
        *image.calls.borrow(),
        vec![vec!["/vault/1.png", "/vault/3.png"], vec!["/vault/4.png"]]
    );
}

#[test]
fn run_prunes_only_unseen_documents_of_the_walked_roots() {
    let mut store = FakeStore::default();
    store.stored = vec!["/vault/a.md".to_string(), "/vault/gone.md".to_string()];
    let deleted = store.deleted.clone();
    let asked = store.asked_roots.clone();
    let mut args =
        args(store, files(&[("/vault/a.md", DocKind::Markdown)]), None::<RecordingEmbedder>, NO_TITLES);
    args.fs_reader.unresolved.push("/missing".to_string());
    let roots = vec!["/missing".to_string(), "/vault".to_string()];
    let report = run(&mut args, &roots, &[], &ChunkConfig::default(), false, false, 32).unwrap();
    assert_eq!(report.deleted, 1);
    assert_eq!(*deleted.borrow(), vec!["/vault/gone.md"]);
    assert_eq!(*asked.borrow(), vec!["/vault"]);
    assert_eq!(args.warnings, vec!["warning: skipping vault /missing (resolving /missing)"]);
}

#[test]
fn run_sees_a_file_once_across_overlapping_roots() {
    let store = FakeStore::default();
    let written = store.written.clone();
    let mut args = args(
        store,
        files(&[("/vault/a.md", DocKind::Markdown), ("/vault/link.md", DocKind::Markdown)]),
        None::<RecordingEmbedder>,
        NO_TITLES,
    );
    args.fs_reader.canonical.insert("/vault/link.md".to_string(), "/vault/a.md".to_string());
    let roots = vec!["/vault".to_string(), "/other".to_string()];
    let report = run(&mut args, &roots, &[], &ChunkConfig::default(), false, false, 32).unwrap();
    assert_eq!((report.scanned, report.indexed), (4, 1));
    assert_eq!(written.borrow()[0].source_root, "/vault");
}

#[test]
fn run_refuses_another_model_unless_forced() {
    let mut store = FakeStore::default();
    store.models.insert("model.text".to_string(), "old".to_string());
    let mut first = args(store.clone(), files(&[]), None::<RecordingEmbedder>, NO_TITLES);
    assert_eq!(
        run_default(&mut first).unwrap_err(),
        "index was built with model 'old' (model.text) but config now specifies 'fake-text'; run `gnosis rebuild` to re-embed"
    );
    let mut forced = args(store, files(&[]), None::<RecordingEmbedder>, NO_TITLES);
    assert!(run(&mut forced, &vault(), &[], &ChunkConfig::default(), true, false, 32).is_ok());
    let mut store = FakeStore::default();
    store.models.insert("model.image_text".to_string(), "old".to_string());
    let mut title = args(
        store,
        files(&[]),
        Some(RecordingEmbedder::default()),
        Some(RecordingEmbedder::default()),
    );
    assert!(run_default(&mut title).unwrap_err().contains("'old' (model.image_text)"));
    let mut store = FakeStore::default();
    store.models.insert("model.image_vision".to_string(), "old".to_string());
    let mut image = args(store, files(&[]), Some(RecordingEmbedder::default()), NO_TITLES);
    assert!(run_default(&mut image).unwrap_err().contains("'old' (model.image_vision)"));
}

#[test]
fn run_propagates_markdown_errors_whether_or_not_it_fails_fast() {
    let mut unreadable =
        args(FakeStore::default(), three_file_walker(), Some(RecordingEmbedder::default()), NO_TITLES);
    unreadable.fs_reader.unreadable.push("/vault/b.md".to_string());
    assert_eq!(run_default(&mut unreadable).unwrap_err(), "reading /vault/b.md");

    let mut title = args(
        FakeStore::default(),
        files(&[("/vault/a.md", DocKind::Markdown)]),
        None::<RecordingEmbedder>,
        Some(FailingImageEmbedder),
    );
    assert_eq!(run_default(&mut title).unwrap_err(), "simulated decode failure");

    let mut store = FakeStore::default();
    store.refuses = Some("/vault/a.md".to_string());
    let mut full =
        args(store, files(&[("/vault/a.md", DocKind::Markdown)]), None::<RecordingEmbedder>, NO_TITLES);
    assert_eq!(run_default(&mut full).unwrap_err(), "disk full");
}

#[test]
fn run_records_an_image_that_cannot_be_read() {
    let walker = || files(&[("/vault/a.png", DocKind::Image), ("/vault/b.png", DocKind::Image)]);
    let mut soft = args(FakeStore::default(), walker(), Some(RecordingEmbedder::default()), NO_TITLES);
    soft.fs_reader.unreadable.push("/vault/a.png".to_string());
    let report = run_default(&mut soft).unwrap();
    assert_eq!(report.indexed, 1);
    assert_eq!(report.errors[0].path, "/vault/a.png");
    assert_eq!(report.errors[0].message, "reading /vault/a.png");
    let mut hard = args(FakeStore::default(), walker(), Some(RecordingEmbedder::default()), NO_TITLES);
    hard.fs_reader.unreadable.push("/vault/a.png".to_string());
    assert_eq!(
        run(&mut hard, &vault(), &[], &ChunkConfig::default(), false, true, 32).unwrap_err(),
        "reading /vault/a.png"
    );
}

#[test]
fn run_records_an_image_whose_title_fails() {
    let mut args = args(
        FakeStore::default(),
        files(&[("/vault/a.png", DocKind::Image)]),
        Some(RecordingEmbedder::default()),
        Some(FailingImageEmbedder),
    );
    let report = run_default(&mut args).unwrap();
    assert_eq!(report.indexed, 0);
    assert_eq!(report.errors.len(), 1);
    assert_eq!(report.errors[0].path, "/vault/a.png");
}

#[test]
fn run_names_what_is_missing() {
    let mut no_image = args(
        FakeStore::default(),
        files(&[("/vault/a.png", DocKind::Image)]),
        None::<RecordingEmbedder>,
        NO_TITLES,
    );
    assert_eq!(
        run_default(&mut no_image).unwrap_err(),
        "an image file was discovered but [embed.image].enabled is false"
    );
    let mut no_vector = args(
        FakeStore::default(),
        files(&[("/vault/a.png", DocKind::Image)]),
        Some(EmptyEmbedder { batch_fails: true }),
        NO_TITLES,
    );
    assert_eq!(run_default(&mut no_vector).unwrap_err(), "image embedding produced no vector");
    let mut no_title = args(
        FakeStore::default(),
        files(&[("/vault/a.md", DocKind::Markdown)]),
        None::<RecordingEmbedder>,
        Some(EmptyEmbedder { batch_fails: true }),
    );
    assert_eq!(run_default(&mut no_title).unwrap_err(), "title embedding produced no vector");
}

#[test]
fn run_drops_what_gets_no_vector() {
    let mut args = args(
        FakeStore::default(),
        three_images(),
        Some(EmptyEmbedder { batch_fails: false }),
        NO_TITLES,
    );
    let report = run_default(&mut args).unwrap();
    assert_eq!((report.scanned, report.indexed, report.errors.len()), (3, 0, 0));
}

#[test]
fn run_treats_a_batch_size_of_zero_as_one() {
    let image_embedder = RecordingEmbedder::default();
    let mut args =
        args(FakeStore::default(), three_images(), Some(image_embedder.clone()), NO_TITLES);
    run(&mut args, &vault(), &[], &ChunkConfig::default(), false, false, 0).unwrap();
    let sizes: Vec<usize> = image_embedder.calls.borrow().iter().map(Vec::len).collect();
    assert_eq!(sizes, vec![1, 1, 1]);
}

#[test]
fn run_bounds_title_batches_while_images_are_flushed() {
    let titles = RecordingEmbedder::default();
    let mut args = args(
        FakeStore::default(),
        files(&[
            ("/vault/a.md", DocKind::Markdown),
            ("/vault/a.png", DocKind::Image),
            ("/vault/b.png", DocKind::Image),
            ("/vault/c.png", DocKind::Image),
        ]),
        Some(RecordingEmbedder::default()),
        Some(titles.clone()),
    );
    let report = run(&mut args, &vault(), &[], &ChunkConfig::default(), false, false, 3).unwrap();
    assert_eq!(report.indexed, 4);
    let calls = titles.calls.borrow();
    assert_eq!(*calls, vec![vec!["Heading", "a", "b"], vec!["c"]]);
}

#[test]
fn run_reports_progress_for_every_file_found() {
    let progress = RecordingProgress::default();
    let mut args = IndexerArgs {
        store: FakeStore::default(),
        walker: three_file_walker(),
        fs_reader: FakeFileReader::default(),
        embedders: EmbedderSet {
            text: FakeTextEmbedder,
            image: Some(FailingImageEmbedder),
            image_text: NO_TITLES,
        },
        progress: progress.clone(),
        warnings: Vec::new(),
    };
    let roots = vec!["/vault".to_string(), "/vault".to_string()];
    run(&mut args, &roots, &[], &ChunkConfig::default(), false, false, 32).unwrap();
    assert_eq!(*progress.total.borrow(), 6);
    assert_eq!(*progress.done.borrow(), 6);
    assert!(*progress.finished.borrow());
}

#[test]
fn run_reads_text_that_is_not_utf8_with_replacements() {
    let store = FakeStore::default();
    let written = store.written.clone();
    let mut args =
        args(store, files(&[("/vault/a.md", DocKind::Markdown)]), None::<RecordingEmbedder>, NO_TITLES);
    args.fs_reader.contents.insert("/vault/a.md".to_string(), b"# caf\xff\n\nbody".to_vec());
    run_default(&mut args).unwrap();
    assert_eq!(written.borrow()[0].title, "caf\u{fffd}");
}

#[test]
fn run_accounts_for_each_file_once() {
    let mut store = FakeStore::default();
    store.hashes.insert("/vault/same.md".to_string(), digest_of_default_content());
    let mut args = args(
        store,
        files(&[
            ("/vault/a.md", DocKind::Markdown),
            ("/vault/same.md", DocKind::Markdown),
            ("/vault/a.png", DocKind::Image),
            ("/vault/bad.png", DocKind::Image),
        ]),
        Some(PartiallyFailingImageEmbedder),
        NO_TITLES,
    );
    let report = run_default(&mut args).unwrap();
    assert_eq!((report.indexed, report.skipped, report.errors.len()), (2, 1, 1));
}

#[test]
fn pending_title_docs_tell_what_they_are() {
    let markdown = PendingTitleDoc::Markdown {
        path: "/v/a.md".to_string(),
        source_root: "/v".to_string(),
        content_hash: Vec::new(),
        mtime: 0,
        title: "A".to_string(),
        frontmatter: None,
        links: Vec::new(),
        tags: Vec::new(),
        chunk_writes: Vec::new(),
    };
    assert_eq!((markdown.title(), markdown.path(), markdown.must_propagate()), ("A", "/v/a.md", true));
    let image = PendingTitleDoc::Image {
        item: PendingImage {
            path: "/v/p.png".to_string(),
            source_root: "/v".to_string(),
            title: "p".to_string(),
            content_hash: Vec::new(),
            mtime: 0,
            width: None,
            height: None,
        },
        image_chunk: ChunkWrite {
            ord: 0,
            space: "image".to_string(),
            modality: "image".to_string(),
            text: None,
            heading_path: String::new(),
            vector: Vec::new(),
        },
    };
    assert_eq!((image.title(), image.path(), image.must_propagate()), ("p", "/v/p.png", false));
}
