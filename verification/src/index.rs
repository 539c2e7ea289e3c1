//! Indexing pipeline orchestration: walk, parse, chunk, embed, and persist.
//! Generic over the backends, so it carries no native dependencies of its own.
use vstd::hash_set::StringHashSet;
use vstd::prelude::*;

use crate::chunk::{chunk_markdown, chunk_texts, Chunk};
use crate::config::ChunkConfig;
use crate::embed::{opt_model, vectors, Embedder};
use crate::fs::FileReader;
use crate::outside::{content_hash, read_lossy};
use crate::parse::{parse_markdown, ParsedDoc};
use crate::paths::stem_of_path;
use crate::pipeline::{
    body_chunks, changed_bytes, chunk_input, chunk_inputs, chunk_row, chunk_rows_of, file_step,
    file_steps, finish_image, finished, flush_full_titles, flush_images, flush_titles,
    guard_message, guard_step, guarded, image_retries, image_retry, image_step, image_writes,
    indexed, markdown_step, no_pass, no_report, parsed_bytes, paths_of, plus, prune, prune_steps,
    recorded, root_step, root_steps, skip_warning, staged_image, staged_markdown, title_retries,
    title_retry, title_writes, titles_of, with_image, with_title, written, Backends, ErrorText,
    Options, PassText, Reply, ReportText, TitleText, Work,
};
use crate::progress::Progress;
use crate::store::{chunk_rows, ChunkRow, ChunkWrite, DocRow, DocWrite, Store};
use crate::text::{error_of, number, opt_text, push_text, same_text, texts};
use crate::walk::{found_texts, kind_name, DocKind, Found, Walker};

verus! {

/// Outcome of an indexing run.
#[derive(Debug)]
pub struct IndexReport {
    pub scanned: usize,
    pub indexed: usize,
    pub skipped: usize,
    pub deleted: usize,
    pub chunks: usize,
    pub errors: Vec<IndexError>,
}

/// A file that failed to index. Only possible for images: a corrupt or
/// unsupported file fails to open or decode; markdown has no equivalent failure
/// mode. Indexing continues past these by default; `fail_fast` makes [`run`]
/// return the error immediately instead of collecting it here.
#[derive(Debug)]
pub struct IndexError {
    pub path: String,
    pub message: String,
}

impl View for IndexError {
    type V = ErrorText;

    open spec fn view(&self) -> ErrorText {
        ErrorText { path: self.path@, message: self.message@ }
    }
}

/// The contents of some errors.
pub open spec fn error_texts(v: Seq<IndexError>) -> Seq<ErrorText> {
    Seq::new(v.len(), |i: int| v[i]@)
}

impl View for IndexReport {
    type V = ReportText;

    open spec fn view(&self) -> ReportText {
        ReportText {
            scanned: self.scanned,
            indexed: self.indexed,
            skipped: self.skipped,
            deleted: self.deleted,
            chunks: self.chunks,
            errors: error_texts(self.errors@),
        }
    }
}

impl Default for IndexReport {
    fn default() -> (r: IndexReport)
        ensures
            r@ == no_report(),
    {
        let r = IndexReport {
            scanned: 0,
            indexed: 0,
            skipped: 0,
            deleted: 0,
            chunks: 0,
            errors: Vec::new(),
        };
        assert(r@.errors =~= seq![]);
        r
    }
}

/// The embedders an indexing run needs, one per space. `image` and `image_text`
/// are `None` when image embedding is not enabled: a text-only vault indexes
/// without them.
pub struct EmbedderSet<T: Embedder, I: Embedder, J: Embedder> {
    pub text: T,
    pub image: Option<I>,
    pub image_text: Option<J>,
}

/// The backends an indexing run needs, and the warnings it gives.
pub struct IndexerArgs<
    S: Store,
    W: Walker,
    F: FileReader,
    T: Embedder,
    I: Embedder,
    J: Embedder,
    P: Progress,
> {
    pub store: S,
    pub walker: W,
    pub fs_reader: F,
    pub embedders: EmbedderSet<T, I, J>,
    pub progress: P,
    /// A message for each vault that was passed over.
    pub warnings: Vec<String>,
}

impl<
    S: Store,
    W: Walker,
    F: FileReader,
    T: Embedder,
    I: Embedder,
    J: Embedder,
    P: Progress,
> View for IndexerArgs<S, W, F, T, I, J, P> {
    type V = Backends;

    open spec fn view(&self) -> Backends {
        Backends {
            store: self.store.model(),
            walker: self.walker.model(),
            reader: self.fs_reader.model(),
            text: self.embedders.text.model(),
            image: opt_model(self.embedders.image),
            image_text: opt_model(self.embedders.image_text),
            progress: self.progress.model().calls,
            warnings: texts(self.warnings@),
        }
    }
}

/// One image file that has been read, hashed and skip-checked and is waiting
/// for its vision embedding: everything needed to finish indexing it once a
/// vector arrives, without re-reading the file.
pub struct PendingImage {
    pub path: String,
    pub source_root: String,
    pub title: String,
    pub content_hash: Vec<u8>,
    pub mtime: i64,
    pub width: Option<i64>,
    pub height: Option<i64>,
}

impl View for PendingImage {
    type V = DocRow;

    open spec fn view(&self) -> DocRow {
        DocRow {
            path: self.path@,
            kind: kind_name(DocKind::Image),
            source_root: self.source_root@,
            content_hash: self.content_hash@,
            mtime: self.mtime,
            title: self.title@,
            frontmatter: None,
            chunks: seq![],
            links: seq![],
            tags: seq![],
            width: self.width,
            height: self.height,
        }
    }
}

/// One document (markdown or image) whose other chunks are already embedded
/// and which is now waiting only for its title-proxy vector: the mechanism that
/// lets `related` traverse from an image to a text document (and vice versa)
/// without ever comparing incompatible vector spaces directly.
pub enum PendingTitleDoc {
    Markdown {
        path: String,
        source_root: String,
        content_hash: Vec<u8>,
        mtime: i64,
        title: String,
        frontmatter: Option<String>,
        links: Vec<String>,
        tags: Vec<String>,
        chunk_writes: Vec<ChunkWrite>,
    },
    Image { item: PendingImage, image_chunk: ChunkWrite },
}

impl View for PendingTitleDoc {
    type V = TitleText;

    open spec fn view(&self) -> TitleText {
        match self {
            PendingTitleDoc::Markdown {
                path,
                source_root,
                content_hash,
                mtime,
                title,
                frontmatter,
                links,
                tags,
                chunk_writes,
            } => TitleText {
                doc: DocRow {
                    path: path@,
                    kind: kind_name(DocKind::Markdown),
                    source_root: source_root@,
                    content_hash: content_hash@,
                    mtime: *mtime,
                    title: title@,
                    frontmatter: opt_text(*frontmatter),
                    chunks: chunk_rows(chunk_writes@),
                    links: texts(links@),
                    tags: texts(tags@),
                    width: None,
                    height: None,
                },
                markdown: true,
            },
            PendingTitleDoc::Image { item, image_chunk } => TitleText {
                doc: DocRow { chunks: seq![image_chunk@], ..item@ },
                markdown: false,
            },
        }
    }
}

impl PendingTitleDoc {
    /// The document's title.
    pub fn title(&self) -> (r: &str)
        ensures
            r@ == self@.doc.title,
    {
        match self {
            PendingTitleDoc::Markdown { title, .. } => title.as_str(),
            PendingTitleDoc::Image { item, .. } => item.title.as_str(),
        }
    }

    /// The document's path.
    pub fn path(&self) -> (r: &str)
        ensures
            r@ == self@.doc.path,
    {
        match self {
            PendingTitleDoc::Markdown { path, .. } => path.as_str(),
            PendingTitleDoc::Image { item, .. } => item.path.as_str(),
        }
    }

    /// Whether a title-embed failure for this document must propagate
    /// immediately regardless of `fail_fast`: markdown always propagates, an
    /// image soft-fails.
    pub fn must_propagate(&self) -> (r: bool)
        ensures
            r == self@.markdown,
    {
        matches!(self, PendingTitleDoc::Markdown { .. })
    }
}

/// The contents of some images that wait.
pub open spec fn image_texts(v: Seq<PendingImage>) -> Seq<DocRow> {
    Seq::new(v.len(), |i: int| v[i]@)
}

/// The contents of some documents that wait for their title.
pub open spec fn title_texts(v: Seq<PendingTitleDoc>) -> Seq<TitleText> {
    Seq::new(v.len(), |i: int| v[i]@)
}

/// What a run has gathered.
struct Pass {
    report: IndexReport,
    seen: StringHashSet,
    walked: Vec<String>,
    images: Vec<PendingImage>,
    titles: Vec<PendingTitleDoc>,
}

impl View for Pass {
    type V = PassText;

    closed spec fn view(&self) -> PassText {
        PassText {
            report: self.report@,
            seen: self.seen@,
            walked: texts(self.walked@),
            images: image_texts(self.images@),
            titles: title_texts(self.titles@),
        }
    }
}

impl Pass {
    /// Nothing gathered yet.
    fn new() -> (r: Pass)
        ensures
            r@ == no_pass(),
    {
        let r = Pass {
            report: IndexReport::default(),
            seen: StringHashSet::new(),
            walked: Vec::new(),
            images: Vec::new(),
            titles: Vec::new(),
        };
        assert(r@.walked =~= seq![]);
        assert(r@.images =~= seq![]);
        assert(r@.titles =~= seq![]);
        r
    }

    /// Records a file as failed.
    fn add_error(&mut self, path: String, message: String)
        ensures
            final(self)@ == (PassText {
                report: ReportText {
                    errors: old(self)@.report.errors.push(
                        ErrorText { path: path@, message: message@ },
                    ),
                    ..old(self)@.report
                },
                ..old(self)@
            }),
    {
        let ghost before = self@;
        self.report.errors.push(IndexError { path, message });
        assert(self@.report.errors =~= before.report.errors.push(
            ErrorText { path: path@, message: message@ },
        ));
    }

    /// Counts a file as unchanged.
    fn add_skipped(&mut self)
        ensures
            final(self)@ == (PassText {
                report: ReportText {
                    skipped: plus(old(self)@.report.skipped, 1),
                    ..old(self)@.report
                },
                ..old(self)@
            }),
    {
        self.report.skipped = self.report.skipped.saturating_add(1);
    }
}

/// How a run is asked to proceed.
struct Settings<'a> {
    chunk_cfg: &'a ChunkConfig,
    force: bool,
    fail_fast: bool,
    image_batch_size: usize,
}

impl<'a> View for Settings<'a> {
    type V = Options;

    closed spec fn view(&self) -> Options {
        Options {
            max_tokens: self.chunk_cfg.max_tokens as nat,
            overlap: self.chunk_cfg.overlap as nat,
            force: self.force,
            fail_fast: self.fail_fast,
            batch: self.image_batch_size as nat,
        }
    }
}

/// Whether two runs of bytes are the same.
fn same_bytes(a: &[u8], b: &[u8]) -> (r: bool)
    ensures
        r == (a@ == b@),
{
    if a.len() != b.len() {
        return false;
    }
    let mut i: usize = 0;
    while i < a.len()
        invariant
            i <= a.len(),
            a.len() == b.len(),
            forall|k: int| 0 <= k < i ==> a@[k] == b@[k],
        decreases a.len() - i,
    {
        if a[i] != b[i] {
            return false;
        }
        i += 1;
    }
    assert(a@ =~= b@);
    true
}

/// What reading a file that may be unchanged came back with.
spec fn changed_result(r: Result<Option<Vec<u8>>, String>) -> Result<
    Option<Seq<u8>>,
    Seq<char>,
> {
    match r {
        Ok(Some(b)) => Ok(Some(b@)),
        Ok(None) => Ok(None),
        Err(e) => Err(e@),
    }
}

/// What is embedded for each chunk: its text, with the heading trail prepended
/// so that chunks carry their structural context.
fn embed_inputs(chunks: &[Chunk]) -> (r: Vec<String>)
    ensures
        texts(r@) == chunk_inputs(chunk_texts(chunks@)),
{
    let mut inputs: Vec<String> = Vec::new();
    let mut i: usize = 0;
    while i < chunks.len()
        invariant
            i <= chunks.len(),
            texts(inputs@) == chunk_inputs(chunk_texts(chunks@)).take(i as int),
        decreases chunks.len() - i,
    {
        let c = &chunks[i];
        let ghost before = texts(inputs@);
        let input = if c.heading_path.as_str().is_empty() {
            c.text.clone()
        } else {
            let mut t = c.heading_path.clone();
            push_text(&mut t, "\n");
            push_text(&mut t, c.text.as_str());
            t
        };
        assert(input@ == chunk_input(c@));
        inputs.push(input);
        i += 1;
        assert(texts(inputs@) =~= before.push(input@));
        assert(chunk_inputs(chunk_texts(chunks@)).take(i as int) =~= before.push(input@));
    }
    assert(chunk_inputs(chunk_texts(chunks@)).take(i as int) =~= chunk_inputs(
        chunk_texts(chunks@),
    ));
    inputs
}

/// Pairs chunks with their vectors, while there are both.
fn pair_chunks(chunks: &[Chunk], vecs: Vec<Vec<u32>>) -> (r: Vec<ChunkWrite>)
    ensures
        chunk_rows(r@) == chunk_rows_of(chunk_texts(chunks@), vectors(vecs@)),
{
    let mut rows: Vec<ChunkWrite> = Vec::new();
    let ghost all = chunk_rows_of(chunk_texts(chunks@), vectors(vecs@));
    let ghost vs = vectors(vecs@);
    let mut i: usize = 0;
    for vector in it: vecs.into_iter()
        invariant
            i == it.index(),
            vs == vectors(it.seq()),
            all == chunk_rows_of(chunk_texts(chunks@), vs),
            i <= chunks.len(),
            chunk_rows(rows@) == all.take(i as int),
    {
        if i >= chunks.len() {
            assert(all.take(i as int) =~= all);
            return rows;
        }
        let c = &chunks[i];
        let ghost before = chunk_rows(rows@);
        let row = ChunkWrite {
            ord: c.ord,
            space: "text".to_string(),
            modality: "text".to_string(),
            text: Some(c.text.clone()),
            heading_path: c.heading_path.clone(),
            vector,
        };
        assert(vector@ == vs[i as int]);
        assert(row@ == chunk_row(c@, vs[i as int]));
        rows.push(row);
        i += 1;
        assert(chunk_rows(rows@) =~= before.push(row@));
        assert(all.take(i as int) =~= before.push(all[i - 1]));
    }
    assert(all.take(i as int) =~= all);
    rows
}

/// The message for an index built with another model.
fn model_mismatch(existing: &str, key: &str, model_id: &str) -> (r: String)
    ensures
        r@ == guard_message(existing@, key@, model_id@),
{
    let mut m: String = "index was built with model '".to_string();
    push_text(&mut m, existing);
    push_text(&mut m, "' (");
    push_text(&mut m, key);
    push_text(&mut m, ") but config now specifies '");
    push_text(&mut m, model_id);
    push_text(&mut m, "'; run `gnosis rebuild` to re-embed");
    m
}

/// Refuses a store that was built with another model under `key`.
fn guard_one<S: Store>(store: &mut S, key: &str, model_id: &str) -> (r: Result<(), String>)
    ensures
        forall|w: Work| #![trigger guard_step(w, key@, model_id@)]
            w.failed is None && w.backends.store == old(store).model() ==> guard_step(
                w,
                key@,
                model_id@,
            ) == (Work {
                backends: Backends { store: final(store).model(), ..w.backends },
                failed: error_of(r),
                ..w
            }),
{
    match store.get_meta(key)? {
        Some(existing) => {
            if same_text(existing.as_str(), model_id) {
                Ok(())
            } else {
                Err(model_mismatch(existing.as_str(), key, model_id))
            }
        },
        None => Ok(()),
    }
}

impl<
    S: Store,
    W: Walker,
    F: FileReader,
    T: Embedder,
    I: Embedder,
    J: Embedder,
    P: Progress,
> IndexerArgs<S, W, F, T, I, J, P> {
    /// Refuses to mix vectors from a different model into an existing index,
    /// for any embedder currently in use.
    fn guard_model(&mut self, force: bool) -> (r: Result<(), String>)
        ensures
            forall|w: Work| #![trigger guarded(w, force)]
                w.failed is None && w.backends == old(self)@ ==> guarded(w, force) == (Work {
                    backends: final(self)@,
                    failed: error_of(r),
                    ..w
                }),
    {
        if force {
            return Ok(());
        }
        guard_one(&mut self.store, "model.text", self.embedders.text.model_id())?;
        if let Some(image) = &self.embedders.image {
            guard_one(&mut self.store, "model.image_vision", image.model_id())?;
        }
        if let Some(image_text) = &self.embedders.image_text {
            guard_one(&mut self.store, "model.image_text", image_text.model_id())?;
        }
        Ok(())
    }

    /// Reads a file, unless the store holds a document of the same hash under
    /// its path and the run is not forced.
    fn read_changed(&mut self, path_str: &str, force: bool) -> (r: Result<
        Option<Vec<u8>>,
        String,
    >)
        ensures
            changed_bytes(old(self)@, path_str@, force) == (Reply {
                backends: final(self)@,
                answer: changed_result(r),
            }),
    {
        let bytes = match self.fs_reader.read(path_str) {
            Ok(b) => b,
            Err(e) => {
                return Err(e);
            },
        };
        if !force {
            let hash = content_hash(bytes.as_slice());
            match self.store.document_hash(path_str) {
                Ok(Some(existing)) => {
                    if same_bytes(existing.as_slice(), hash.as_slice()) {
                        return Ok(None);
                    }
                },
                Ok(None) => {},
                Err(e) => {
                    return Err(e);
                },
            }
        }
        Ok(Some(bytes))
    }

    /// Parses and chunks markdown `bytes`, and text-embeds the chunks.
    fn embed_markdown_chunks(
        &mut self,
        path_str: &str,
        bytes: &[u8],
        settings: &Settings<'_>,
    ) -> (r: Result<(ParsedDoc, Vec<ChunkWrite>), String>)
        ensures
            ({
                let text = parsed_bytes(path_str@, bytes@);
                let chunks = body_chunks(text.body, settings@);
                let inputs = chunk_inputs(chunks);
                &&& final(self)@ == (Backends {
                    text: old(self)@.text.after(inputs),
                    ..old(self)@
                })
                &&& match old(self)@.text.embedded(inputs) {
                    Ok(vectors) => r is Ok && r->Ok_0.0@ == text && chunk_rows(r->Ok_0.1@)
                        == chunk_rows_of(chunks, vectors),
                    Err(e) => r is Err && r->Err_0@ == e,
                }
            }),
    {
        let content = read_lossy(bytes);
        let parsed = parse_markdown(path_str, content.as_str());
        let chunks = chunk_markdown(
            parsed.body.as_str(),
            settings.chunk_cfg.max_tokens,
            settings.chunk_cfg.overlap,
        );
        let inputs = embed_inputs(chunks.as_slice());
        match self.embedders.text.embed(inputs.as_slice()) {
            Ok(vectors) => Ok((parsed, pair_chunks(chunks.as_slice(), vectors))),
            Err(e) => Err(e),
        }
    }

    /// Reads, hashes, skip-checks, parses, chunks, and text-embeds one
    /// discovered markdown file, but defers its write. `Ok(None)` if it is
    /// unchanged since the last index. Markdown has no soft-failure mode, so
    /// the caller always propagates an error.
    fn stage_markdown_file(
        &mut self,
        path_str: &str,
        source_root: &str,
        settings: &Settings<'_>,
    ) -> (r: Result<Option<PendingTitleDoc>, String>)
        ensures
            final(self)@ == staged_markdown(
                old(self)@,
                path_str@,
                source_root@,
                settings@,
            ).backends,
            match staged_markdown(old(self)@, path_str@, source_root@, settings@).answer {
                Err(e) => r is Err && r->Err_0@ == e,
                Ok(None) => r is Ok && r->Ok_0 is None,
                Ok(Some(doc)) => r is Ok && r->Ok_0 is Some && r->Ok_0->0@ == (TitleText {
                    doc,
                    markdown: true,
                }),
            },
    {
        let bytes = match self.read_changed(path_str, settings.force) {
            Ok(Some(bytes)) => bytes,
            Ok(None) => {
                return Ok(None);
            },
            Err(e) => {
                return Err(e);
            },
        };
        match self.embed_markdown_chunks(path_str, bytes.as_slice(), settings) {
            Ok((parsed, chunk_writes)) => {
                let mtime: i64 = self.fs_reader.mtime(path_str);
                Ok(
                    Some(
                        PendingTitleDoc::Markdown {
                            path: path_str.to_string(),
                            source_root: source_root.to_string(),
                            content_hash: content_hash(bytes.as_slice()),
                            mtime,
                            title: parsed.title,
                            frontmatter: parsed.frontmatter,
                            links: parsed.links,
                            tags: parsed.tags,
                            chunk_writes,
                        },
                    ),
                )
            },
            Err(e) => Err(e),
        }
    }

    /// Reads, hashes, and skip-checks a single discovered image file. `Ok(None)`
    /// if it is unchanged since the last index. Does not embed: that happens
    /// later, batched.
    fn stage_image_file(&mut self, path_str: &str, source_root: &str, force: bool) -> (r: Result<
        Option<PendingImage>,
        String,
    >)
        ensures
            final(self)@ == staged_image(old(self)@, path_str@, source_root@, force).backends,
            match staged_image(old(self)@, path_str@, source_root@, force).answer {
                Err(e) => r is Err && r->Err_0@ == e,
                Ok(None) => r is Ok && r->Ok_0 is None,
                Ok(Some(doc)) => r is Ok && r->Ok_0 is Some && r->Ok_0->0@ == doc,
            },
    {
        let bytes = match self.read_changed(path_str, force) {
            Ok(Some(bytes)) => bytes,
            Ok(None) => {
                return Ok(None);
            },
            Err(e) => {
                return Err(e);
            },
        };
        let title = match stem_of_path(path_str) {
            Some(stem) => stem,
            None => path_str.to_string(),
        };
        let (width, height) = match self.fs_reader.image_dimensions(path_str) {
            Some((w, h)) => (Some(w as i64), Some(h as i64)),
            None => (None, None),
        };
        let mtime: i64 = self.fs_reader.mtime(path_str);
        Ok(
            Some(
                PendingImage {
                    path: path_str.to_string(),
                    source_root: source_root.to_string(),
                    title,
                    content_hash: content_hash(bytes.as_slice()),
                    mtime,
                    width,
                    height,
                },
            ),
        )
    }

    /// Persists a document, and counts it with its chunks.
    fn write_doc(&mut self, pass: &mut Pass, doc: &DocWrite<'_>) -> (r: Result<(), String>)
        ensures
            written(Work { backends: old(self)@, pass: old(pass)@, failed: None }, doc@) == (
            Work { backends: final(self)@, pass: final(pass)@, failed: error_of(r) }),
    {
        match self.store.replace_document(doc) {
            Ok(_) => {
                pass.report.indexed = pass.report.indexed.saturating_add(1);
                pass.report.chunks = pass.report.chunks.saturating_add(doc.chunks.len());
                Ok(())
            },
            Err(e) => Err(e),
        }
    }

    /// Persists a markdown document from its already-embedded chunks.
    fn write_markdown_doc(&mut self, pass: &mut Pass, item: PendingTitleDoc) -> (r: Result<
        (),
        String,
    >)
        requires
            item is Markdown,
        ensures
            written(Work { backends: old(self)@, pass: old(pass)@, failed: None }, item@.doc) == (
            Work { backends: final(self)@, pass: final(pass)@, failed: error_of(r) }),
    {
        match item {
            PendingTitleDoc::Markdown {
                path,
                source_root,
                content_hash,
                mtime,
                title,
                frontmatter,
                links,
                tags,
                chunk_writes,
            } => self.write_doc(
                pass,
                &DocWrite {
                    path: path.as_str(),
                    kind: DocKind::Markdown.as_str(),
                    source_root: source_root.as_str(),
                    content_hash: content_hash.as_slice(),
                    mtime,
                    title: title.as_str(),
                    frontmatter: match &frontmatter {
                        Some(fm) => Some(fm.as_str()),
                        None => None,
                    },
                    chunks: chunk_writes.as_slice(),
                    links: links.as_slice(),
                    tags: tags.as_slice(),
                    width: None,
                    height: None,
                },
            ),
            PendingTitleDoc::Image { .. } => Ok(()),
        }
    }

    /// Persists an image document from its already-embedded chunks.
    fn write_image_doc(
        &mut self,
        pass: &mut Pass,
        item: PendingImage,
        chunk_writes: Vec<ChunkWrite>,
    ) -> (r: Result<(), String>)
        ensures
            written(
                Work { backends: old(self)@, pass: old(pass)@, failed: None },
                DocRow { chunks: chunk_rows(chunk_writes@), ..item@ },
            ) == (Work { backends: final(self)@, pass: final(pass)@, failed: error_of(r) }),
    {
        let links: Vec<String> = Vec::new();
        let tags: Vec<String> = Vec::new();
        assert(texts(links@) =~= seq![]);
        assert(texts(tags@) =~= seq![]);
        self.write_doc(
            pass,
            &DocWrite {
                path: item.path.as_str(),
                kind: DocKind::Image.as_str(),
                source_root: item.source_root.as_str(),
                content_hash: item.content_hash.as_slice(),
                mtime: item.mtime,
                title: item.title.as_str(),
                frontmatter: None,
                chunks: chunk_writes.as_slice(),
                links: links.as_slice(),
                tags: tags.as_slice(),
                width: item.width,
                height: item.height,
            },
        )
    }

    /// Builds the title-proxy chunk from its embedded `vector` and persists the
    /// document (markdown or image) it belongs to.
    fn write_title_doc(
        &mut self,
        pass: &mut Pass,
        item: PendingTitleDoc,
        vector: Vec<u32>,
    ) -> (r: Result<(), String>)
        ensures
            written(
                Work { backends: old(self)@, pass: old(pass)@, failed: None },
                with_title(item@.doc, vector@),
            ) == (Work { backends: final(self)@, pass: final(pass)@, failed: error_of(r) }),
    {
        let ghost want = with_title(item@.doc, vector@);
        match item {
            PendingTitleDoc::Markdown {
                path,
                source_root,
                content_hash,
                mtime,
                title,
                frontmatter,
                links,
                tags,
                chunk_writes,
            } => {
                let mut chunk_writes = chunk_writes;
                let ghost before = chunk_rows(chunk_writes@);
                let chunk = title_chunk(chunk_writes.len(), title.as_str(), vector);
                chunk_writes.push(chunk);
                assert(chunk_rows(chunk_writes@) =~= before.push(chunk@));
                self.write_markdown_doc(
                    pass,
                    PendingTitleDoc::Markdown {
                        path,
                        source_root,
                        content_hash,
                        mtime,
                        title,
                        frontmatter,
                        links,
                        tags,
                        chunk_writes,
                    },
                )
            },
            PendingTitleDoc::Image { item, image_chunk } => {
                let chunk = title_chunk(1, item.title.as_str(), vector);
                let mut chunk_writes: Vec<ChunkWrite> = Vec::new();
                chunk_writes.push(image_chunk);
                chunk_writes.push(chunk);
                assert(chunk_rows(chunk_writes@) =~= seq![image_chunk@].push(chunk@));
                assert(want == DocRow { chunks: chunk_rows(chunk_writes@), ..item@ });
                self.write_image_doc(pass, item, chunk_writes)
            },
        }
    }

    /// Writes each document of a batch with its title's vector.
    fn write_titles(
        &mut self,
        pass: &mut Pass,
        batch: Vec<PendingTitleDoc>,
        vecs: Vec<Vec<u32>>,
    ) -> (r: Result<(), String>)
        ensures
            title_writes(
                Work { backends: old(self)@, pass: old(pass)@, failed: None },
                title_texts(batch@),
                vectors(vecs@),
                0,
            ) == (Work { backends: final(self)@, pass: final(pass)@, failed: error_of(r) }),
    {
        let ghost all = title_texts(batch@);
        let ghost vs = vectors(vecs@);
        let ghost done = title_writes(
            Work { backends: self@, pass: pass@, failed: None },
            all,
            vs,
            0,
        );
        let mut i: usize = 0;
        for item in it: batch.into_iter()
            invariant
                i == it.index(),
                all == title_texts(it.seq()),
                vs == vectors(vecs@),
                done == title_writes(
                    Work { backends: old(self)@, pass: old(pass)@, failed: None },
                    all,
                    vs,
                    0,
                ),
                done == title_writes(
                    Work { backends: self@, pass: pass@, failed: None },
                    all,
                    vs,
                    i as nat,
                ),
        {
            if i >= vecs.len() {
                return Ok(());
            }
            assert(item@ == all[i as int]);
            let vector: Vec<u32> = vecs[i].clone();
            assert(vector@ =~= vs[i as int]);
            match self.write_title_doc(pass, item, vector) {
                Ok(_) => {},
                Err(e) => {
                    let ghost stopped = Work { backends: self@, pass: pass@, failed: Some(e@) };
                    assert(title_writes(stopped, all, vs, (i + 1) as nat) == stopped);
                    return Err(e);
                },
            }
            i += 1;
        }
        Ok(())
    }

    /// Embeds one title alone and writes its document.
    fn retry_title(&mut self, pass: &mut Pass, item: PendingTitleDoc, fail_fast: bool) -> (r: Result<
        (),
        String,
    >)
        ensures
            title_retry(
                Work { backends: old(self)@, pass: old(pass)@, failed: None },
                item@,
                fail_fast,
            ) == (Work { backends: final(self)@, pass: final(pass)@, failed: error_of(r) }),
    {
        let path = item.path().to_string();
        let must_propagate = item.must_propagate();
        let mut title: Vec<String> = Vec::new();
        title.push(item.title().to_string());
        assert(texts(title@) =~= seq![item@.doc.title]);
        let answer = match &mut self.embedders.image_text {
            Some(image_text) => image_text.embed(title.as_slice()),
            None => {
                return Err(
                    "a title-proxy chunk was staged but no image-text embedder is configured".to_string(),
                );
            },
        };
        match answer {
            Ok(vecs) => {
                assert(vectors(vecs@).len() == vecs.len());
                if vecs.len() == 0 {
                    return Err("title embedding produced no vector".to_string());
                }
                let vector: Vec<u32> = vecs[0].clone();
                assert(vector@ =~= vectors(vecs@)[0]);
                self.write_title_doc(pass, item, vector)
            },
            Err(e) => {
                if must_propagate || fail_fast {
                    Err(e)
                } else {
                    pass.add_error(path, e);
                    Ok(())
                }
            },
        }
    }

    /// Embeds each title of a batch alone and writes its document.
    fn retry_titles(&mut self, pass: &mut Pass, batch: Vec<PendingTitleDoc>, fail_fast: bool) -> (r:
        Result<(), String>)
        ensures
            title_retries(
                Work { backends: old(self)@, pass: old(pass)@, failed: None },
                title_texts(batch@),
                0,
                fail_fast,
            ) == (Work { backends: final(self)@, pass: final(pass)@, failed: error_of(r) }),
    {
        let ghost all = title_texts(batch@);
        for item in it: batch.into_iter()
            invariant
                all == title_texts(it.seq()),
                title_retries(
                    Work { backends: old(self)@, pass: old(pass)@, failed: None },
                    all,
                    0,
                    fail_fast,
                ) == title_retries(
                    Work { backends: self@, pass: pass@, failed: None },
                    all,
                    it.index() as nat,
                    fail_fast,
                ),
        {
            let ghost next = (it.index() + 1) as nat;
            assert(item@ == all[it.index() as int]);
            match self.retry_title(pass, item, fail_fast) {
                Ok(_) => {},
                Err(e) => {
                    let ghost stopped = Work { backends: self@, pass: pass@, failed: Some(e@) };
                    assert(title_retries(stopped, all, next, fail_fast) == stopped);
                    return Err(e);
                },
            }
        }
        Ok(())
    }

    /// Embeds every buffered title in one call and persists each document. On a
    /// batch failure, retries the batch one file at a time to isolate which one
    /// is bad; a markdown failure always propagates. No-op on an empty buffer.
    fn flush_title_batch(&mut self, pass: &mut Pass, fail_fast: bool) -> (r: Result<(), String>)
        ensures
            flush_titles(
                Work { backends: old(self)@, pass: old(pass)@, failed: None },
                fail_fast,
            ) == (Work { backends: final(self)@, pass: final(pass)@, failed: error_of(r) }),
    {
        let ghost before = pass@;
        assert(before.titles.len() == pass.titles.len());
        if pass.titles.len() == 0 {
            return Ok(());
        }
        let mut batch: Vec<PendingTitleDoc> = Vec::new();
        std::mem::swap(&mut batch, &mut pass.titles);
        assert(title_texts(batch@) =~= before.titles);
        assert(pass@.titles =~= seq![]);
        let mut titles: Vec<String> = Vec::new();
        let mut i: usize = 0;
        while i < batch.len()
            invariant
                i <= batch.len(),
                texts(titles@) == titles_of(title_texts(batch@)).take(i as int),
            decreases batch.len() - i,
        {
            let ghost so_far = texts(titles@);
            titles.push(batch[i].title().to_string());
            i += 1;
            assert(texts(titles@) =~= so_far.push(titles@[i - 1]@));
            assert(titles_of(title_texts(batch@)).take(i as int) =~= so_far.push(titles@[i - 1]@));
        }
        assert(texts(titles@) =~= titles_of(title_texts(batch@)));
        let answer = match &mut self.embedders.image_text {
            Some(image_text) => image_text.embed(titles.as_slice()),
            None => {
                return Err(
                    "a title-proxy chunk was staged but no image-text embedder is configured".to_string(),
                );
            },
        };
        match answer {
            Ok(vecs) => self.write_titles(pass, batch, vecs),
            Err(_) => self.retry_titles(pass, batch, fail_fast),
        }
    }

    /// Flushes the titles once a whole batch of them waits.
    fn flush_titles_if_full(&mut self, pass: &mut Pass, settings: &Settings<'_>) -> (r: Result<
        (),
        String,
    >)
        ensures
            flush_full_titles(
                Work { backends: old(self)@, pass: old(pass)@, failed: None },
                settings@,
            ) == (Work { backends: final(self)@, pass: final(pass)@, failed: error_of(r) }),
    {
        assert(pass@.titles.len() == pass.titles.len());
        if pass.titles.len() >= settings.image_batch_size {
            self.flush_title_batch(pass, settings.fail_fast)
        } else {
            Ok(())
        }
    }

    /// Writes an embedded image, or keeps it until its title is embedded where
    /// a title-proxy chunk is wanted alongside it.
    fn finish_image_doc(&mut self, pass: &mut Pass, item: PendingImage, vector: Vec<u32>) -> (r:
        Result<(), String>)
        ensures
            finish_image(
                Work { backends: old(self)@, pass: old(pass)@, failed: None },
                item@,
                vector@,
            ) == (Work { backends: final(self)@, pass: final(pass)@, failed: error_of(r) }),
    {
        let ghost want = with_image(item@, vector@);
        let heading_path: String = String::new();
        assert(heading_path@ =~= seq![]);
        let image_chunk = ChunkWrite {
            ord: 0,
            space: "image".to_string(),
            modality: "image".to_string(),
            text: None,
            heading_path,
            vector,
        };
        if self.embedders.image_text.is_some() {
            let ghost before = pass@.titles;
            let doc = PendingTitleDoc::Image { item, image_chunk };
            assert(doc@ == TitleText { doc: want, markdown: false });
            pass.titles.push(doc);
            assert(pass@.titles =~= before.push(TitleText { doc: want, markdown: false }));
            return Ok(());
        }
        let mut chunk_writes: Vec<ChunkWrite> = Vec::new();
        chunk_writes.push(image_chunk);
        assert(chunk_rows(chunk_writes@) =~= want.chunks);
        self.write_image_doc(pass, item, chunk_writes)
    }

    /// Finishes each image of a batch with its vector.
    fn write_images(
        &mut self,
        pass: &mut Pass,
        batch: Vec<PendingImage>,
        vecs: Vec<Vec<u32>>,
        settings: &Settings<'_>,
    ) -> (r: Result<(), String>)
        ensures
            image_writes(
                Work { backends: old(self)@, pass: old(pass)@, failed: None },
                image_texts(batch@),
                vectors(vecs@),
                0,
                settings@,
            ) == (Work { backends: final(self)@, pass: final(pass)@, failed: error_of(r) }),
    {
        let ghost all = image_texts(batch@);
        let ghost vs = vectors(vecs@);
        let mut i: usize = 0;
        for item in it: batch.into_iter()
            invariant
                i == it.index(),
                all == image_texts(it.seq()),
                vs == vectors(vecs@),
                image_writes(
                    Work { backends: old(self)@, pass: old(pass)@, failed: None },
                    all,
                    vs,
                    0,
                    settings@,
                ) == image_writes(
                    Work { backends: self@, pass: pass@, failed: None },
                    all,
                    vs,
                    i as nat,
                    settings@,
                ),
        {
            if i >= vecs.len() {
                return Ok(());
            }
            assert(item@ == all[i as int]);
            let vector: Vec<u32> = vecs[i].clone();
            assert(vector@ =~= vs[i as int]);
            match self.finish_image_doc(pass, item, vector) {
                Ok(_) => {},
                Err(e) => {
                    let ghost stopped = Work { backends: self@, pass: pass@, failed: Some(e@) };
                    assert(image_writes(stopped, all, vs, (i + 1) as nat, settings@) == stopped);
                    return Err(e);
                },
            }
            match self.flush_titles_if_full(pass, settings) {
                Ok(_) => {},
                Err(e) => {
                    let ghost stopped = Work { backends: self@, pass: pass@, failed: Some(e@) };
                    assert(image_writes(stopped, all, vs, (i + 1) as nat, settings@) == stopped);
                    return Err(e);
                },
            }
            i += 1;
        }
        Ok(())
    }

    /// Embeds one image alone and finishes it.
    fn retry_image(&mut self, pass: &mut Pass, item: PendingImage, settings: &Settings<'_>) -> (r:
        Result<(), String>)
        ensures
            image_retry(
                Work { backends: old(self)@, pass: old(pass)@, failed: None },
                item@,
                settings@,
            ) == (Work { backends: final(self)@, pass: final(pass)@, failed: error_of(r) }),
    {
        let mut path: Vec<String> = Vec::new();
        path.push(item.path.clone());
        assert(texts(path@) =~= seq![item@.path]);
        let answer = match &mut self.embedders.image {
            Some(image) => image.embed(path.as_slice()),
            None => {
                return Err(
                    "an image file was discovered but [embed.image].enabled is false".to_string(),
                );
            },
        };
        match answer {
            Ok(vecs) => {
                assert(vectors(vecs@).len() == vecs.len());
                if vecs.len() == 0 {
                    return Err("image embedding produced no vector".to_string());
                }
                let vector: Vec<u32> = vecs[0].clone();
                assert(vector@ =~= vectors(vecs@)[0]);
                match self.finish_image_doc(pass, item, vector) {
                    Ok(_) => self.flush_titles_if_full(pass, settings),
                    Err(e) => Err(e),
                }
            },
            Err(e) => {
                if settings.fail_fast {
                    Err(e)
                } else {
                    pass.add_error(item.path, e);
                    Ok(())
                }
            },
        }
    }

    /// Embeds each image of a batch alone and finishes it.
    fn retry_images(
        &mut self,
        pass: &mut Pass,
        batch: Vec<PendingImage>,
        settings: &Settings<'_>,
    ) -> (r: Result<(), String>)
        ensures
            image_retries(
                Work { backends: old(self)@, pass: old(pass)@, failed: None },
                image_texts(batch@),
                0,
                settings@,
            ) == (Work { backends: final(self)@, pass: final(pass)@, failed: error_of(r) }),
    {
        let ghost all = image_texts(batch@);
        for item in it: batch.into_iter()
            invariant
                all == image_texts(it.seq()),
                image_retries(
                    Work { backends: old(self)@, pass: old(pass)@, failed: None },
                    all,
                    0,
                    settings@,
                ) == image_retries(
                    Work { backends: self@, pass: pass@, failed: None },
                    all,
                    it.index() as nat,
                    settings@,
                ),
        {
            let ghost next = (it.index() + 1) as nat;
            assert(item@ == all[it.index() as int]);
            match self.retry_image(pass, item, settings) {
                Ok(_) => {},
                Err(e) => {
                    let ghost stopped = Work { backends: self@, pass: pass@, failed: Some(e@) };
                    assert(image_retries(stopped, all, next, settings@) == stopped);
                    return Err(e);
                },
            }
        }
        Ok(())
    }

    /// Embeds every buffered image in one call and finishes each one. On a batch
    /// failure, retries the batch one file at a time to isolate which one is
    /// bad: a single corrupt image then costs only itself (recorded as an error,
    /// or propagated immediately under `fail_fast`), not its batch-mates. No-op
    /// on an empty buffer; always drains the buffer, even on error paths.
    fn flush_image_batch(&mut self, pass: &mut Pass, settings: &Settings<'_>) -> (r: Result<
        (),
        String,
    >)
        ensures
            flush_images(
                Work { backends: old(self)@, pass: old(pass)@, failed: None },
                settings@,
            ) == (Work { backends: final(self)@, pass: final(pass)@, failed: error_of(r) }),
    {
        let ghost before = pass@;
        assert(before.images.len() == pass.images.len());
        if pass.images.len() == 0 {
            return Ok(());
        }
        let mut batch: Vec<PendingImage> = Vec::new();
        std::mem::swap(&mut batch, &mut pass.images);
        assert(image_texts(batch@) =~= before.images);
        assert(pass@.images =~= seq![]);
        let mut paths: Vec<String> = Vec::new();
        let mut i: usize = 0;
        while i < batch.len()
            invariant
                i <= batch.len(),
                texts(paths@) == paths_of(image_texts(batch@)).take(i as int),
            decreases batch.len() - i,
        {
            let ghost so_far = texts(paths@);
            paths.push(batch[i].path.clone());
            i += 1;
            assert(texts(paths@) =~= so_far.push(paths@[i - 1]@));
            assert(paths_of(image_texts(batch@)).take(i as int) =~= so_far.push(paths@[i - 1]@));
        }
        assert(texts(paths@) =~= paths_of(image_texts(batch@)));
        let answer = match &mut self.embedders.image {
            Some(image) => image.embed(paths.as_slice()),
            None => {
                return Err(
                    "an image file was discovered but [embed.image].enabled is false".to_string(),
                );
            },
        };
        match answer {
            Ok(vecs) => self.write_images(pass, batch, vecs, settings),
            Err(_) => self.retry_images(pass, batch, settings),
        }
    }

    /// Handles one discovered markdown file: skips it if unchanged, else writes
    /// it, or buffers it where a title-proxy chunk is wanted. Any error
    /// propagates.
    fn process_markdown_file(
        &mut self,
        pass: &mut Pass,
        path_str: &str,
        source_root: &str,
        settings: &Settings<'_>,
    ) -> (r: Result<(), String>)
        ensures
            markdown_step(
                Work { backends: old(self)@, pass: old(pass)@, failed: None },
                path_str@,
                source_root@,
                settings@,
            ) == (Work { backends: final(self)@, pass: final(pass)@, failed: error_of(r) }),
    {
        match self.stage_markdown_file(path_str, source_root, settings) {
            Ok(Some(pending)) => {
                if self.embedders.image_text.is_some() {
                    let ghost before = pass@.titles;
                    pass.titles.push(pending);
                    assert(pass@.titles =~= before.push(pending@));
                    self.flush_titles_if_full(pass, settings)
                } else {
                    self.write_markdown_doc(pass, pending)
                }
            },
            Ok(None) => {
                pass.add_skipped();
                Ok(())
            },
            Err(e) => Err(e),
        }
    }

    /// Handles one discovered image file: skips it if unchanged, else buffers
    /// it. A failure to read it is recorded, or propagates under `fail_fast`.
    fn process_image_file(
        &mut self,
        pass: &mut Pass,
        path_str: &str,
        source_root: &str,
        settings: &Settings<'_>,
    ) -> (r: Result<(), String>)
        ensures
            image_step(
                Work { backends: old(self)@, pass: old(pass)@, failed: None },
                path_str@,
                source_root@,
                settings@,
            ) == (Work { backends: final(self)@, pass: final(pass)@, failed: error_of(r) }),
    {
        match self.stage_image_file(path_str, source_root, settings.force) {
            Ok(Some(pending)) => {
                let ghost before = pass@.images;
                pass.images.push(pending);
                assert(pass@.images =~= before.push(pending@));
                assert(pass@.images.len() == pass.images.len());
                if pass.images.len() >= settings.image_batch_size {
                    self.flush_image_batch(pass, settings)
                } else {
                    Ok(())
                }
            },
            Ok(None) => {
                pass.add_skipped();
                Ok(())
            },
            Err(e) => {
                if settings.fail_fast {
                    Err(e)
                } else {
                    pass.add_error(path_str.to_string(), e);
                    Ok(())
                }
            },
        }
    }

    /// Handles one discovered file, unless its canonical path was seen before:
    /// across overlapping roots the first root wins.
    fn process_file(
        &mut self,
        pass: &mut Pass,
        file: &Found,
        source_root: &str,
        settings: &Settings<'_>,
    ) -> (r: Result<(), String>)
        ensures
            file_step(
                Work { backends: old(self)@, pass: old(pass)@, failed: None },
                file@,
                source_root@,
                settings@,
            ) == (Work { backends: final(self)@, pass: final(pass)@, failed: error_of(r) }),
    {
        let path = match self.fs_reader.canonicalize(file.path.as_str()) {
            Ok(p) => p,
            Err(e) => {
                return Err(e);
            },
        };
        let ghost before = pass@.seen;
        if !pass.seen.insert(path.clone()) {
            assert(before.insert(path@) =~= before);
            self.progress.inc(1);
            return Ok(());
        }
        let done = match file.kind {
            DocKind::Markdown => self.process_markdown_file(
                pass,
                path.as_str(),
                source_root,
                settings,
            ),
            DocKind::Image => self.process_image_file(pass, path.as_str(), source_root, settings),
        };
        match done {
            Ok(_) => {
                self.progress.inc(1);
                Ok(())
            },
            Err(e) => Err(e),
        }
    }

    /// Handles the files that were found under a root.
    fn process_files(
        &mut self,
        pass: &mut Pass,
        found: &Vec<Found>,
        source_root: &str,
        settings: &Settings<'_>,
    ) -> (r: Result<(), String>)
        ensures
            file_steps(
                Work { backends: old(self)@, pass: old(pass)@, failed: None },
                found_texts(found@),
                0,
                source_root@,
                settings@,
            ) == (Work { backends: final(self)@, pass: final(pass)@, failed: error_of(r) }),
    {
        let ghost all = found_texts(found@);
        let mut i: usize = 0;
        while i < found.len()
            invariant
                i <= found.len(),
                all == found_texts(found@),
                file_steps(
                    Work { backends: old(self)@, pass: old(pass)@, failed: None },
                    all,
                    0,
                    source_root@,
                    settings@,
                ) == file_steps(
                    Work { backends: self@, pass: pass@, failed: None },
                    all,
                    i as nat,
                    source_root@,
                    settings@,
                ),
            decreases found.len() - i,
        {
            match self.process_file(pass, &found[i], source_root, settings) {
                Ok(_) => {},
                Err(e) => {
                    let ghost stopped = Work { backends: self@, pass: pass@, failed: Some(e@) };
                    assert(file_steps(stopped, all, (i + 1) as nat, source_root@, settings@)
                        == stopped);
                    return Err(e);
                },
            }
            i += 1;
        }
        Ok(())
    }

    /// Walks a root and handles what is found. A root that cannot be resolved is
    /// passed over with a warning.
    fn process_root(
        &mut self,
        pass: &mut Pass,
        root: &str,
        ignore_globs: &[String],
        settings: &Settings<'_>,
    ) -> (r: Result<(), String>)
        ensures
            root_step(
                Work { backends: old(self)@, pass: old(pass)@, failed: None },
                root@,
                texts(ignore_globs@),
                settings@,
            ) == (Work { backends: final(self)@, pass: final(pass)@, failed: error_of(r) }),
    {
        let root_canon = match self.fs_reader.canonicalize(root) {
            Ok(p) => p,
            Err(e) => {
                let ghost before = texts(self.warnings@);
                let mut warning: String = "warning: skipping vault ".to_string();
                push_text(&mut warning, root);
                push_text(&mut warning, " (");
                push_text(&mut warning, e.as_str());
                push_text(&mut warning, ")");
                self.warnings.push(warning);
                assert(texts(self.warnings@) =~= before.push(skip_warning(root@, e@)));
                return Ok(());
            },
        };
        let ghost walked = texts(pass.walked@);
        pass.walked.push(root_canon.clone());
        assert(texts(pass.walked@) =~= walked.push(root_canon@));
        let found = match self.walker.discover(root_canon.as_str(), ignore_globs) {
            Ok(f) => f,
            Err(e) => {
                return Err(e);
            },
        };
        pass.report.scanned = pass.report.scanned.saturating_add(found.len());
        assert(found_texts(found@).len() == found.len());
        self.progress.inc_total(found.len() as u64);
        self.process_files(pass, &found, root_canon.as_str(), settings)
    }

    /// Deletes the stored documents of the walked roots that were not seen.
    fn prune(&mut self, pass: &mut Pass) -> (r: Result<(), String>)
        ensures
            prune(Work { backends: old(self)@, pass: old(pass)@, failed: None }) == (Work {
                backends: final(self)@,
                pass: final(pass)@,
                failed: error_of(r),
            }),
    {
        let paths = match self.store.paths_for_roots(pass.walked.as_slice()) {
            Ok(p) => p,
            Err(e) => {
                return Err(e);
            },
        };
        let ghost all = texts(paths@);
        let ghost listed = Work { backends: self@, pass: pass@, failed: None };
        let mut i: usize = 0;
        while i < paths.len()
            invariant
                i <= paths.len(),
                all == texts(paths@),
                prune(Work { backends: old(self)@, pass: old(pass)@, failed: None })
                    == prune_steps(listed, all, 0),
                prune_steps(listed, all, 0) == prune_steps(
                    Work { backends: self@, pass: pass@, failed: None },
                    all,
                    i as nat,
                ),
            decreases paths.len() - i,
        {
            if !pass.seen.contains(paths[i].as_str()) {
                match self.store.delete_document(paths[i].as_str()) {
                    Ok(_) => {
                        pass.report.deleted = pass.report.deleted.saturating_add(1);
                    },
                    Err(e) => {
                        let ghost stopped = Work {
                            backends: self@,
                            pass: pass@,
                            failed: Some(e@),
                        };
                        assert(prune_steps(stopped, all, (i + 1) as nat) == stopped);
                        return Err(e);
                    },
                }
            }
            i += 1;
        }
        Ok(())
    }

    /// Records the models and dimensions of the embedders in use.
    fn record_models(&mut self) -> (r: Result<(), String>)
        ensures
            forall|w: Work| #![trigger recorded(w)]
                w.failed is None && w.backends == old(self)@ ==> recorded(w) == (Work {
                    backends: final(self)@,
                    failed: error_of(r),
                    ..w
                }),
    {
        self.store.set_meta("model.text", self.embedders.text.model_id())?;
        self.store.set_meta("dim.text", number(self.embedders.text.dim() as u64).as_str())?;
        if let Some(image) = &self.embedders.image {
            self.store.set_meta("model.image_vision", image.model_id())?;
            self.store.set_meta("dim.image", number(image.dim() as u64).as_str())?;
        }
        if let Some(image_text) = &self.embedders.image_text {
            self.store.set_meta("model.image_text", image_text.model_id())?;
        }
        Ok(())
    }

    /// Flushes what waits, prunes, and reports the end.
    fn finish(&mut self, pass: &mut Pass, settings: &Settings<'_>) -> (r: Result<(), String>)
        ensures
            finished(
                Work { backends: old(self)@, pass: old(pass)@, failed: None },
                settings@,
            ) == (Work { backends: final(self)@, pass: final(pass)@, failed: error_of(r) }),
    {
        self.flush_image_batch(pass, settings)?;
        self.flush_title_batch(pass, settings.fail_fast)?;
        self.prune(pass)?;
        self.progress.finish();
        Ok(())
    }
}

/// The chunk that holds the vector of a document's title.
fn title_chunk(ord: usize, title: &str, vector: Vec<u32>) -> (r: ChunkWrite)
    ensures
        r@ == (ChunkRow {
            ord,
            space: "image"@,
            modality: "text_title"@,
            text: Some(title@),
            heading_path: seq![],
            vector: vector@,
        }),
{
    let heading_path: String = String::new();
    assert(heading_path@ =~= seq![]);
    ChunkWrite {
        ord,
        space: "image".to_string(),
        modality: "text_title".to_string(),
        text: Some(title.to_string()),
        heading_path,
        vector,
    }
}

/// What a run came back with.
pub open spec fn report_result(r: Result<IndexReport, String>) -> Result<ReportText, Seq<char>> {
    match r {
        Ok(report) => Ok(report@),
        Err(e) => Err(e@),
    }
}

/// What a run comes back with: its report, or the error that stopped it.
pub open spec fn outcome(w: Work) -> Result<ReportText, Seq<char>> {
    match w.failed {
        None => Ok(w.pass.report),
        Some(e) => Err(e),
    }
}

/// How a run is asked to proceed: a batch holds at least one document.
pub open spec fn run_options(
    chunk_cfg: ChunkConfig,
    force: bool,
    fail_fast: bool,
    image_batch_size: usize,
) -> Options {
    Options {
        max_tokens: chunk_cfg.max_tokens as nat,
        overlap: chunk_cfg.overlap as nat,
        force,
        fail_fast,
        batch: if image_batch_size == 0 {
            1
        } else {
            image_batch_size as nat
        },
    }
}

/// Walks each root in `roots`, (re)embeds changed documents, and prunes deleted
/// ones. Pruning is scoped to the source vaults walked in this run, so indexing
/// one vault never removes another's documents from a shared database.
///
/// A file that fails to read or index is, by default, skipped and recorded in
/// the returned report's `errors` rather than aborting the whole run; this only
/// happens for images. `fail_fast` makes `run` return that error immediately
/// instead. Markdown files always propagate their errors immediately.
///
/// Images are not embedded inline as they're discovered: each one that needs
/// (re)indexing is staged into a buffer, which is flushed with one call across
/// every buffered path once it reaches `image_batch_size`, and once more for the
/// remainder at the end of the walk. If a batch's call fails, the batch is
/// retried one file at a time, so a single corrupt image still costs only
/// itself, not its batch-mates.
pub fn run<
    S: Store,
    W: Walker,
    F: FileReader,
    T: Embedder,
    I: Embedder,
    J: Embedder,
    P: Progress,
>(
    args: &mut IndexerArgs<S, W, F, T, I, J, P>,
    roots: &[String],
    ignore_globs: &[String],
    chunk_cfg: &ChunkConfig,
    force: bool,
    fail_fast: bool,
    image_batch_size: usize,
) -> (r: Result<IndexReport, String>)
    ensures
        final(args)@ == indexed(
            old(args)@,
            texts(roots@),
            texts(ignore_globs@),
            run_options(*chunk_cfg, force, fail_fast, image_batch_size),
        ).backends,
        report_result(r) == outcome(
            indexed(
                old(args)@,
                texts(roots@),
                texts(ignore_globs@),
                run_options(*chunk_cfg, force, fail_fast, image_batch_size),
            ),
        ),
{
    let settings = Settings {
        chunk_cfg,
        force,
        fail_fast,
        image_batch_size: if image_batch_size == 0 {
            1
        } else {
            image_batch_size
        },
    };
    let ghost o = run_options(*chunk_cfg, force, fail_fast, image_batch_size);
    let ghost start = Work { backends: args@, pass: no_pass(), failed: None };
    let ghost globs = texts(ignore_globs@);
    let ghost all = texts(roots@);
    let ghost done = indexed(args@, all, globs, o);
    assert(settings@ == o);
    let mut pass = Pass::new();
    match args.guard_model(force) {
        Ok(_) => {},
        Err(e) => {
            assert(guarded(start, force).failed == Some(e@));
            return Err(e);
        },
    }
    let ghost checked = Work { backends: args@, pass: no_pass(), failed: None };
    assert(guarded(start, force) == checked);
    match args.record_models() {
        Ok(_) => {},
        Err(e) => {
            let ghost stopped = Work { backends: args@, pass: no_pass(), failed: Some(e@) };
            assert(recorded(checked) == stopped);
            assert(root_steps(stopped, all, 0, globs, o) == stopped);
            return Err(e);
        },
    }
    assert(recorded(checked) == Work { backends: args@, pass: no_pass(), failed: None });
    let mut i: usize = 0;
    while i < roots.len()
        invariant
            i <= roots.len(),
            all == texts(roots@),
            globs == texts(ignore_globs@),
            settings@ == o,
            done == indexed(
                old(args)@,
                texts(roots@),
                texts(ignore_globs@),
                run_options(*chunk_cfg, force, fail_fast, image_batch_size),
            ),
            done == finished(
                root_steps(
                    Work { backends: args@, pass: pass@, failed: None },
                    all,
                    i as nat,
                    globs,
                    o,
                ),
                o,
            ),
        decreases roots.len() - i,
    {
        match args.process_root(&mut pass, roots[i].as_str(), ignore_globs, &settings) {
            Ok(_) => {},
            Err(e) => {
                let ghost stopped = Work { backends: args@, pass: pass@, failed: Some(e@) };
                assert(root_steps(stopped, all, (i + 1) as nat, globs, o) == stopped);
                return Err(e);
            },
        }
        i += 1;
    }
    match args.finish(&mut pass, &settings) {
        Ok(_) => Ok(pass.report),
        Err(e) => Err(e),
    }
}

} // verus!
