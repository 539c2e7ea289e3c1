//! What an indexing run does, step by step, as a function of what its backends
//! answer.
use vstd::prelude::*;

use crate::chunk::{chunks_of, sections_of, ChunkText};
use crate::embed::EmbedderModel;
use crate::fs::{ReaderCall, ReaderModel};
use crate::outside::{blake3_digest, lossy_text, markdown_events};
use crate::parse::{parsed, tags_field, ParsedText};
use crate::paths::file_stem;
use crate::progress::ProgressCall;
use crate::store::{ChunkRow, DocRow, StoreCall, StoreModel};
use crate::text::decimal;
use crate::walk::{kind_name, DocKind, FoundText, Walk, WalkerModel};

verus! {

/// The backends of a run as it sees them, and the warnings it gave.
pub struct Backends {
    pub store: StoreModel,
    pub walker: WalkerModel,
    pub reader: ReaderModel,
    pub text: EmbedderModel,
    pub image: Option<EmbedderModel>,
    pub image_text: Option<EmbedderModel>,
    pub progress: Seq<ProgressCall>,
    pub warnings: Seq<Seq<char>>,
}

/// A file that failed to index.
pub struct ErrorText {
    pub path: Seq<char>,
    pub message: Seq<char>,
}

/// The outcome of a run.
pub struct ReportText {
    pub scanned: usize,
    pub indexed: usize,
    pub skipped: usize,
    pub deleted: usize,
    pub chunks: usize,
    pub errors: Seq<ErrorText>,
}

/// A document that waits for the vector of its title.
pub struct TitleText {
    pub doc: DocRow,
    pub markdown: bool,
}

/// What a run has gathered: its report so far, the paths seen, the roots
/// walked, and the documents that wait for a vector.
pub struct PassText {
    pub report: ReportText,
    pub seen: Set<Seq<char>>,
    pub walked: Seq<Seq<char>>,
    pub images: Seq<DocRow>,
    pub titles: Seq<TitleText>,
}

/// A run at some point: its backends, what it has gathered, and the error that
/// stopped it, if one did.
pub struct Work {
    pub backends: Backends,
    pub pass: PassText,
    pub failed: Option<Seq<char>>,
}

/// How a run is asked to proceed.
pub struct Options {
    pub max_tokens: nat,
    pub overlap: nat,
    pub force: bool,
    pub fail_fast: bool,
    /// How many documents wait for a vector before they are embedded.
    pub batch: nat,
}

/// What a step that may fail leaves behind, and what it came to.
pub struct Reply<T> {
    pub backends: Backends,
    pub answer: Result<T, Seq<char>>,
}

/// A count after `n` more, which stays at the largest number there is.
pub open spec fn plus(a: usize, n: nat) -> usize {
    if a + n > usize::MAX {
        usize::MAX
    } else {
        (a + n) as usize
    }
}

/// The empty report.
pub open spec fn no_report() -> ReportText {
    ReportText { scanned: 0, indexed: 0, skipped: 0, deleted: 0, chunks: 0, errors: seq![] }
}

/// Nothing gathered yet.
pub open spec fn no_pass() -> PassText {
    PassText {
        report: no_report(),
        seen: Set::empty(),
        walked: seq![],
        images: seq![],
        titles: seq![],
    }
}

/// The run stops with an error.
pub open spec fn fail(w: Work, e: Seq<char>) -> Work {
    Work { failed: Some(e), ..w }
}

/// One more file is recorded as failed, and the run goes on.
pub open spec fn with_error(w: Work, path: Seq<char>, message: Seq<char>) -> Work {
    Work {
        pass: PassText {
            report: ReportText {
                errors: w.pass.report.errors.push(ErrorText { path, message }),
                ..w.pass.report
            },
            ..w.pass
        },
        ..w
    }
}

/// One more file is recorded as unchanged.
pub open spec fn with_skipped(w: Work) -> Work {
    Work {
        pass: PassText {
            report: ReportText { skipped: plus(w.pass.report.skipped, 1), ..w.pass.report },
            ..w.pass
        },
        ..w
    }
}

/// A document is written, and counted with its chunks.
pub open spec fn written(w: Work, doc: DocRow) -> Work {
    let call = StoreCall::ReplaceDocument { doc };
    let backends = Backends { store: w.backends.store.after(call), ..w.backends };
    match w.backends.store.done(call) {
        Ok(_) => Work {
            backends,
            pass: PassText {
                report: ReportText {
                    indexed: plus(w.pass.report.indexed, 1),
                    chunks: plus(w.pass.report.chunks, doc.chunks.len()),
                    ..w.pass.report
                },
                ..w.pass
            },
            ..w
        },
        Err(e) => fail(Work { backends, ..w }, e),
    }
}

/// The bytes of a file, or `None` where the store holds a document of the same
/// digest under its path and the run is not forced.
pub open spec fn changed_bytes(b: Backends, path: Seq<char>, force: bool) -> Reply<
    Option<Seq<u8>>,
> {
    let read = Backends { reader: b.reader.after(ReaderCall::Read(path)), ..b };
    match b.reader.bytes(path) {
        Err(e) => Reply { backends: read, answer: Err(e) },
        Ok(bytes) => if force {
            Reply { backends: read, answer: Ok(Some(bytes)) }
        } else {
            let looked = Backends {
                store: b.store.after(StoreCall::DocumentHash { path }),
                ..read
            };
            match b.store.hash(path) {
                Err(e) => Reply { backends: looked, answer: Err(e) },
                Ok(found) => if found == Some(blake3_digest(bytes)) {
                    Reply { backends: looked, answer: Ok(None) }
                } else {
                    Reply { backends: looked, answer: Ok(Some(bytes)) }
                },
            }
        },
    }
}

/// A markdown file's content, parsed.
pub open spec fn parsed_bytes(path: Seq<char>, bytes: Seq<u8>) -> ParsedText {
    let content = lossy_text(bytes);
    parsed(path, content, tags_field(crate::parse::frontmatter_and_body(content).0))
}

/// What is embedded for a chunk: its text under its heading trail.
pub open spec fn chunk_input(c: ChunkText) -> Seq<char> {
    if c.heading_path.len() == 0 {
        c.text
    } else {
        c.heading_path + "\n"@ + c.text
    }
}

/// What is embedded for some chunks.
pub open spec fn chunk_inputs(chunks: Seq<ChunkText>) -> Seq<Seq<char>> {
    Seq::new(chunks.len(), |i: int| chunk_input(chunks[i]))
}

/// A chunk as it is stored.
pub open spec fn chunk_row(c: ChunkText, vector: Seq<u32>) -> ChunkRow {
    ChunkRow {
        ord: c.ord as usize,
        space: "text"@,
        modality: "text"@,
        text: Some(c.text),
        heading_path: c.heading_path,
        vector,
    }
}

/// Chunks and vectors as they are stored, pairwise while there are both.
pub open spec fn chunk_rows_of(chunks: Seq<ChunkText>, vectors: Seq<Seq<u32>>) -> Seq<ChunkRow> {
    Seq::new(
        if chunks.len() < vectors.len() {
            chunks.len()
        } else {
            vectors.len()
        },
        |i: int| chunk_row(chunks[i], vectors[i]),
    )
}

/// A markdown document from its parsed text and embedded chunks.
pub open spec fn markdown_row(
    path: Seq<char>,
    root: Seq<char>,
    bytes: Seq<u8>,
    mtime: i64,
    text: ParsedText,
    chunks: Seq<ChunkRow>,
) -> DocRow {
    DocRow {
        path,
        kind: kind_name(DocKind::Markdown),
        source_root: root,
        content_hash: blake3_digest(bytes),
        mtime,
        title: text.title,
        frontmatter: text.frontmatter,
        chunks,
        links: text.links,
        tags: text.tags,
        width: None,
        height: None,
    }
}

/// A markdown text's chunks.
pub open spec fn body_chunks(body: Seq<char>, o: Options) -> Seq<ChunkText> {
    chunks_of(sections_of(markdown_events(body)), o.max_tokens, o.overlap)
}

/// A markdown file parsed, chunked and embedded.
pub open spec fn markdown_doc(
    b: Backends,
    path: Seq<char>,
    root: Seq<char>,
    bytes: Seq<u8>,
    o: Options,
) -> Reply<DocRow> {
    let text = parsed_bytes(path, bytes);
    let chunks = body_chunks(text.body, o);
    let inputs = chunk_inputs(chunks);
    let embedded = Backends { text: b.text.after(inputs), ..b };
    match b.text.embedded(inputs) {
        Err(e) => Reply { backends: embedded, answer: Err(e) },
        Ok(vectors) => Reply {
            backends: Backends { reader: b.reader.after(ReaderCall::Mtime(path)), ..embedded },
            answer: Ok(
                markdown_row(
                    path,
                    root,
                    bytes,
                    b.reader.time(path),
                    text,
                    chunk_rows_of(chunks, vectors),
                ),
            ),
        },
    }
}

/// The title of an image: its file stem.
pub open spec fn image_title(path: Seq<char>) -> Seq<char> {
    match file_stem(path) {
        Some(s) => s,
        None => path,
    }
}

/// An image file that waits for its vector.
pub open spec fn image_doc(
    b: Backends,
    path: Seq<char>,
    root: Seq<char>,
    bytes: Seq<u8>,
) -> (Backends, DocRow) {
    let sized = b.reader.after(ReaderCall::ImageDimensions(path));
    (
        Backends { reader: sized.after(ReaderCall::Mtime(path)), ..b },
        DocRow {
            path,
            kind: kind_name(DocKind::Image),
            source_root: root,
            content_hash: blake3_digest(bytes),
            mtime: sized.time(path),
            title: image_title(path),
            frontmatter: None,
            chunks: seq![],
            links: seq![],
            tags: seq![],
            width: match b.reader.dimensions(path) {
                Some(d) => Some(d.0 as i64),
                None => None,
            },
            height: match b.reader.dimensions(path) {
                Some(d) => Some(d.1 as i64),
                None => None,
            },
        },
    )
}

/// An image document with the chunk that holds its vector.
pub open spec fn with_image(doc: DocRow, vector: Seq<u32>) -> DocRow {
    DocRow {
        chunks: seq![
            ChunkRow {
                ord: 0,
                space: "image"@,
                modality: "image"@,
                text: None,
                heading_path: seq![],
                vector,
            },
        ],
        ..doc
    }
}

/// A document with a last chunk that holds the vector of its title.
pub open spec fn with_title(doc: DocRow, vector: Seq<u32>) -> DocRow {
    DocRow {
        chunks: doc.chunks.push(
            ChunkRow {
                ord: doc.chunks.len() as usize,
                space: "image"@,
                modality: "text_title"@,
                text: Some(doc.title),
                heading_path: seq![],
                vector,
            },
        ),
        ..doc
    }
}

/// The titles of some documents.
pub open spec fn titles_of(batch: Seq<TitleText>) -> Seq<Seq<char>> {
    Seq::new(batch.len(), |i: int| batch[i].doc.title)
}

/// The paths of some documents.
pub open spec fn paths_of(batch: Seq<DocRow>) -> Seq<Seq<char>> {
    Seq::new(batch.len(), |i: int| batch[i].path)
}

/// The batch written from index `i` on, each document with its title's vector.
pub open spec fn title_writes(
    w: Work,
    batch: Seq<TitleText>,
    vectors: Seq<Seq<u32>>,
    i: nat,
) -> Work
    decreases batch.len() - i,
{
    if w.failed is Some || i >= batch.len() || i >= vectors.len() {
        w
    } else {
        title_writes(
            written(w, with_title(batch[i as int].doc, vectors[i as int])),
            batch,
            vectors,
            i + 1,
        )
    }
}

/// One document's title embedded alone, and the document written. A failure
/// stops the run for markdown, or under `fail_fast`; else it is recorded.
pub open spec fn title_retry(w: Work, item: TitleText, fail_fast: bool) -> Work {
    match w.backends.image_text {
        None => fail(
            w,
            "a title-proxy chunk was staged but no image-text embedder is configured"@,
        ),
        Some(m) => {
            let inputs = seq![item.doc.title];
            let asked = Work {
                backends: Backends { image_text: Some(m.after(inputs)), ..w.backends },
                ..w
            };
            match m.embedded(inputs) {
                Ok(vectors) => if vectors.len() == 0 {
                    fail(asked, "title embedding produced no vector"@)
                } else {
                    written(asked, with_title(item.doc, vectors[0]))
                },
                Err(e) => if item.markdown || fail_fast {
                    fail(asked, e)
                } else {
                    with_error(asked, item.doc.path, e)
                },
            }
        },
    }
}

/// The batch from index `i` on, one document at a time.
pub open spec fn title_retries(w: Work, batch: Seq<TitleText>, i: nat, fail_fast: bool) -> Work
    decreases batch.len() - i,
{
    if w.failed is Some || i >= batch.len() {
        w
    } else {
        title_retries(title_retry(w, batch[i as int], fail_fast), batch, i + 1, fail_fast)
    }
}

/// All titles that wait are embedded in one call and their documents written;
/// where the call fails, one by one. Nothing waits afterwards.
pub open spec fn flush_titles(w: Work, fail_fast: bool) -> Work {
    let batch = w.pass.titles;
    let taken = Work { pass: PassText { titles: seq![], ..w.pass }, ..w };
    if batch.len() == 0 {
        w
    } else {
        match w.backends.image_text {
            None => fail(
                taken,
                "a title-proxy chunk was staged but no image-text embedder is configured"@,
            ),
            Some(m) => {
                let inputs = titles_of(batch);
                let asked = Work {
                    backends: Backends { image_text: Some(m.after(inputs)), ..w.backends },
                    ..taken
                };
                match m.embedded(inputs) {
                    Ok(vectors) => title_writes(asked, batch, vectors, 0),
                    Err(_) => title_retries(asked, batch, 0, fail_fast),
                }
            },
        }
    }
}

/// Titles are embedded once a whole batch of them waits.
pub open spec fn flush_full_titles(w: Work, o: Options) -> Work {
    if w.failed is None && w.pass.titles.len() >= o.batch {
        flush_titles(w, o.fail_fast)
    } else {
        w
    }
}

/// An embedded image is written, or waits for its title's vector where one is
/// wanted.
pub open spec fn finish_image(w: Work, doc: DocRow, vector: Seq<u32>) -> Work {
    let done = with_image(doc, vector);
    if w.backends.image_text is Some {
        Work {
            pass: PassText {
                titles: w.pass.titles.push(TitleText { doc: done, markdown: false }),
                ..w.pass
            },
            ..w
        }
    } else {
        written(w, done)
    }
}

/// The batch finished from index `i` on, each image with its vector.
pub open spec fn image_writes(
    w: Work,
    batch: Seq<DocRow>,
    vectors: Seq<Seq<u32>>,
    i: nat,
    o: Options,
) -> Work
    decreases batch.len() - i,
{
    if w.failed is Some || i >= batch.len() || i >= vectors.len() {
        w
    } else {
        image_writes(
            flush_full_titles(finish_image(w, batch[i as int], vectors[i as int]), o),
            batch,
            vectors,
            i + 1,
            o,
        )
    }
}

/// One image embedded alone and finished. A failure stops the run under
/// `fail_fast`; else it is recorded.
pub open spec fn image_retry(w: Work, doc: DocRow, o: Options) -> Work {
    match w.backends.image {
        None => fail(w, "an image file was discovered but [embed.image].enabled is false"@),
        Some(m) => {
            let inputs = seq![doc.path];
            let asked = Work {
                backends: Backends { image: Some(m.after(inputs)), ..w.backends },
                ..w
            };
            match m.embedded(inputs) {
                Ok(vectors) => if vectors.len() == 0 {
                    fail(asked, "image embedding produced no vector"@)
                } else {
                    flush_full_titles(finish_image(asked, doc, vectors[0]), o)
                },
                Err(e) => if o.fail_fast {
                    fail(asked, e)
                } else {
                    with_error(asked, doc.path, e)
                },
            }
        },
    }
}

/// The batch from index `i` on, one image at a time.
pub open spec fn image_retries(w: Work, batch: Seq<DocRow>, i: nat, o: Options) -> Work
    decreases batch.len() - i,
{
    if w.failed is Some || i >= batch.len() {
        w
    } else {
        image_retries(image_retry(w, batch[i as int], o), batch, i + 1, o)
    }
}

/// All images that wait are embedded in one call and finished; where the call
/// fails, one by one. No image waits afterwards.
pub open spec fn flush_images(w: Work, o: Options) -> Work {
    let batch = w.pass.images;
    let taken = Work { pass: PassText { images: seq![], ..w.pass }, ..w };
    if batch.len() == 0 {
        w
    } else {
        match w.backends.image {
            None => fail(
                taken,
                "an image file was discovered but [embed.image].enabled is false"@,
            ),
            Some(m) => {
                let inputs = paths_of(batch);
                let asked = Work {
                    backends: Backends { image: Some(m.after(inputs)), ..w.backends },
                    ..taken
                };
                match m.embedded(inputs) {
                    Ok(vectors) => image_writes(asked, batch, vectors, 0, o),
                    Err(_) => image_retries(asked, batch, 0, o),
                }
            },
        }
    }
}

/// A markdown file read and made ready to be written; `None` where unchanged.
pub open spec fn staged_markdown(
    b: Backends,
    path: Seq<char>,
    root: Seq<char>,
    o: Options,
) -> Reply<Option<DocRow>> {
    let read = changed_bytes(b, path, o.force);
    match read.answer {
        Err(e) => Reply { backends: read.backends, answer: Err(e) },
        Ok(None) => Reply { backends: read.backends, answer: Ok(None) },
        Ok(Some(bytes)) => {
            let made = markdown_doc(read.backends, path, root, bytes, o);
            Reply {
                backends: made.backends,
                answer: match made.answer {
                    Err(e) => Err(e),
                    Ok(doc) => Ok(Some(doc)),
                },
            }
        },
    }
}

/// An image file read and made ready to be embedded; `None` where unchanged.
pub open spec fn staged_image(
    b: Backends,
    path: Seq<char>,
    root: Seq<char>,
    force: bool,
) -> Reply<Option<DocRow>> {
    let read = changed_bytes(b, path, force);
    match read.answer {
        Err(e) => Reply { backends: read.backends, answer: Err(e) },
        Ok(None) => Reply { backends: read.backends, answer: Ok(None) },
        Ok(Some(bytes)) => {
            let made = image_doc(read.backends, path, root, bytes);
            Reply { backends: made.0, answer: Ok(Some(made.1)) }
        },
    }
}

/// A markdown file: skipped where unchanged, else written, or kept until its
/// title is embedded. Any failure stops the run.
pub open spec fn markdown_step(w: Work, path: Seq<char>, root: Seq<char>, o: Options) -> Work {
    let staged = staged_markdown(w.backends, path, root, o);
    let w1 = Work { backends: staged.backends, ..w };
    match staged.answer {
        Err(e) => fail(w1, e),
        Ok(None) => with_skipped(w1),
        Ok(Some(doc)) => if w.backends.image_text is Some {
            flush_full_titles(
                Work {
                    pass: PassText {
                        titles: w.pass.titles.push(TitleText { doc, markdown: true }),
                        ..w.pass
                    },
                    ..w1
                },
                o,
            )
        } else {
            written(w1, doc)
        },
    }
}

/// Images are embedded once a whole batch of them waits.
pub open spec fn flush_full_images(w: Work, o: Options) -> Work {
    if w.pass.images.len() >= o.batch {
        flush_images(w, o)
    } else {
        w
    }
}

/// An image file: skipped where unchanged, else kept until it is embedded. A
/// failure to read it stops the run under `fail_fast`; else it is recorded.
pub open spec fn image_step(w: Work, path: Seq<char>, root: Seq<char>, o: Options) -> Work {
    let staged = staged_image(w.backends, path, root, o.force);
    let w1 = Work { backends: staged.backends, ..w };
    match staged.answer {
        Err(e) => if o.fail_fast {
            fail(w1, e)
        } else {
            with_error(w1, path, e)
        },
        Ok(None) => with_skipped(w1),
        Ok(Some(doc)) => flush_full_images(
            Work { pass: PassText { images: w.pass.images.push(doc), ..w.pass }, ..w1 },
            o,
        ),
    }
}

/// One more report of progress.
pub open spec fn advanced(w: Work, call: ProgressCall) -> Work {
    Work {
        backends: Backends { progress: w.backends.progress.push(call), ..w.backends },
        ..w
    }
}

/// A found file: passed over where its canonical path was seen before, else
/// handled by its kind.
pub open spec fn file_step(w: Work, file: FoundText, root: Seq<char>, o: Options) -> Work {
    let resolved = Work {
        backends: Backends {
            reader: w.backends.reader.after(ReaderCall::Canonicalize(file.path)),
            ..w.backends
        },
        ..w
    };
    match w.backends.reader.canonical(file.path) {
        Err(e) => fail(resolved, e),
        Ok(path) => if w.pass.seen.contains(path) {
            advanced(resolved, ProgressCall::Inc(1))
        } else {
            let fresh = Work {
                pass: PassText { seen: w.pass.seen.insert(path), ..w.pass },
                ..resolved
            };
            let done = match file.kind {
                DocKind::Markdown => markdown_step(fresh, path, root, o),
                DocKind::Image => image_step(fresh, path, root, o),
            };
            if done.failed is Some {
                done
            } else {
                advanced(done, ProgressCall::Inc(1))
            }
        },
    }
}

/// The found files from index `i` on.
pub open spec fn file_steps(
    w: Work,
    files: Seq<FoundText>,
    i: nat,
    root: Seq<char>,
    o: Options,
) -> Work
    decreases files.len() - i,
{
    if w.failed is Some || i >= files.len() {
        w
    } else {
        file_steps(file_step(w, files[i as int], root, o), files, i + 1, root, o)
    }
}

/// The warning for a vault that cannot be resolved.
pub open spec fn skip_warning(root: Seq<char>, e: Seq<char>) -> Seq<char> {
    "warning: skipping vault "@ + root + " ("@ + e + ")"@
}

/// A root: walked, and each found file handled. One that cannot be resolved is
/// passed over with a warning.
pub open spec fn root_step(
    w: Work,
    root: Seq<char>,
    globs: Seq<Seq<char>>,
    o: Options,
) -> Work {
    let resolved = Backends {
        reader: w.backends.reader.after(ReaderCall::Canonicalize(root)),
        ..w.backends
    };
    match w.backends.reader.canonical(root) {
        Err(e) => Work {
            backends: Backends {
                warnings: w.backends.warnings.push(skip_warning(root, e)),
                ..resolved
            },
            ..w
        },
        Ok(canon) => {
            let walk = Walk { root: canon, ignore_globs: globs };
            let w1 = Work {
                backends: Backends { walker: w.backends.walker.after(walk), ..resolved },
                pass: PassText { walked: w.pass.walked.push(canon), ..w.pass },
                ..w
            };
            match w.backends.walker.found(walk) {
                Err(e) => fail(w1, e),
                Ok(files) => {
                    let counted = Work {
                        pass: PassText {
                            report: ReportText {
                                scanned: plus(w1.pass.report.scanned, files.len()),
                                ..w1.pass.report
                            },
                            ..w1.pass
                        },
                        ..w1
                    };
                    file_steps(
                        advanced(counted, ProgressCall::IncTotal(files.len() as u64)),
                        files,
                        0,
                        canon,
                        o,
                    )
                },
            }
        },
    }
}

/// The roots from index `i` on.
pub open spec fn root_steps(
    w: Work,
    roots: Seq<Seq<char>>,
    i: nat,
    globs: Seq<Seq<char>>,
    o: Options,
) -> Work
    decreases roots.len() - i,
{
    if w.failed is Some || i >= roots.len() {
        w
    } else {
        root_steps(root_step(w, roots[i as int], globs, o), roots, i + 1, globs, o)
    }
}

/// A stored document of a walked root: deleted where the run did not see it.
pub open spec fn prune_step(w: Work, path: Seq<char>) -> Work {
    let call = StoreCall::DeleteDocument { path };
    let backends = Backends { store: w.backends.store.after(call), ..w.backends };
    if w.pass.seen.contains(path) {
        w
    } else {
        match w.backends.store.done(call) {
            Err(e) => fail(Work { backends, ..w }, e),
            Ok(_) => Work {
                backends,
                pass: PassText {
                    report: ReportText {
                        deleted: plus(w.pass.report.deleted, 1),
                        ..w.pass.report
                    },
                    ..w.pass
                },
                ..w
            },
        }
    }
}

/// The stored paths from index `i` on.
pub open spec fn prune_steps(w: Work, paths: Seq<Seq<char>>, i: nat) -> Work
    decreases paths.len() - i,
{
    if w.failed is Some || i >= paths.len() {
        w
    } else {
        prune_steps(prune_step(w, paths[i as int]), paths, i + 1)
    }
}

/// The stored documents of the walked roots that the run did not see are
/// deleted.
pub open spec fn prune(w: Work) -> Work {
    let call = StoreCall::PathsForRoots { roots: w.pass.walked };
    let listed = Work {
        backends: Backends { store: w.backends.store.after(call), ..w.backends },
        ..w
    };
    match w.backends.store.list(call) {
        Err(e) => fail(listed, e),
        Ok(paths) => prune_steps(listed, paths, 0),
    }
}

/// The message for an index built with another model.
pub open spec fn guard_message(
    existing: Seq<char>,
    key: Seq<char>,
    model_id: Seq<char>,
) -> Seq<char> {
    "index was built with model '"@ + existing + "' ("@ + key
        + ") but config now specifies '"@ + model_id
        + "'; run `gnosis rebuild` to re-embed"@
}

/// The store's model under `key` is not another one than `model_id`.
pub open spec fn guard_step(w: Work, key: Seq<char>, model_id: Seq<char>) -> Work {
    let asked = Work {
        backends: Backends {
            store: w.backends.store.after(StoreCall::GetMeta { key }),
            ..w.backends
        },
        ..w
    };
    if w.failed is Some {
        w
    } else {
        match w.backends.store.meta(key) {
            Err(e) => fail(asked, e),
            Ok(None) => asked,
            Ok(Some(existing)) => if existing == model_id {
                asked
            } else {
                fail(asked, guard_message(existing, key, model_id))
            },
        }
    }
}

/// As [`guard_step`], for an embedder that may not be in use.
pub open spec fn guard_opt(w: Work, key: Seq<char>, m: Option<EmbedderModel>) -> Work {
    match m {
        Some(m) => guard_step(w, key, m.model_id),
        None => w,
    }
}

/// No vectors of another model are mixed into the store, unless forced.
pub open spec fn guarded(w: Work, force: bool) -> Work {
    if force {
        w
    } else {
        let text = guard_step(w, "model.text"@, w.backends.text.model_id);
        let image = guard_opt(text, "model.image_vision"@, w.backends.image);
        guard_opt(image, "model.image_text"@, w.backends.image_text)
    }
}

/// A meta value is set.
pub open spec fn meta_step(w: Work, key: Seq<char>, value: Seq<char>) -> Work {
    let call = StoreCall::SetMeta { key, value };
    let set = Work {
        backends: Backends { store: w.backends.store.after(call), ..w.backends },
        ..w
    };
    if w.failed is Some {
        w
    } else {
        match w.backends.store.done(call) {
            Ok(_) => set,
            Err(e) => fail(set, e),
        }
    }
}

/// The models and dimensions of the embedders in use are recorded.
pub open spec fn recorded(w: Work) -> Work {
    let b = w.backends;
    let model = meta_step(w, "model.text"@, b.text.model_id);
    let text = meta_step(model, "dim.text"@, decimal(b.text.dim as nat));
    let image = match b.image {
        Some(m) => meta_step(
            meta_step(text, "model.image_vision"@, m.model_id),
            "dim.image"@,
            decimal(m.dim as nat),
        ),
        None => text,
    };
    match b.image_text {
        Some(m) => meta_step(image, "model.image_text"@, m.model_id),
        None => image,
    }
}

/// What is left to do once every root was walked: the documents that wait are
/// embedded, and what is gone is pruned.
pub open spec fn finished(w: Work, o: Options) -> Work {
    if w.failed is Some {
        w
    } else {
        let images = flush_images(w, o);
        if images.failed is Some {
            images
        } else {
            let titles = flush_titles(images, o.fail_fast);
            if titles.failed is Some {
                titles
            } else {
                let pruned = prune(titles);
                if pruned.failed is Some {
                    pruned
                } else {
                    advanced(pruned, ProgressCall::Finish)
                }
            }
        }
    }
}

/// A whole run.
pub open spec fn indexed(
    b: Backends,
    roots: Seq<Seq<char>>,
    globs: Seq<Seq<char>>,
    o: Options,
) -> Work {
    let start = Work { backends: b, pass: no_pass(), failed: None };
    let checked = guarded(start, o.force);
    if checked.failed is Some {
        checked
    } else {
        finished(root_steps(recorded(checked), roots, 0, globs, o), o)
    }
}

} // verus!
