//! What an indexing run writes to its store, and what it deletes from it.
use vstd::prelude::*;

use crate::pipeline::{
    advanced, file_step, file_steps, finish_image, flush_full_titles, flush_images, flush_titles,
    guarded, image_retries, image_retry, image_step, image_writes, indexed, markdown_step, no_pass,
    paths_of, plus, prune, prune_step, prune_steps, recorded, root_step, root_steps, staged_image,
    staged_markdown, title_retries, title_retry, title_writes, titles_of, with_image, with_title,
    written, Backends, Options, PassText, ReportText, TitleText, Work,
};
use crate::fs::ReaderCall;
use crate::progress::ProgressCall;
use crate::store::{ChunkRow, DocRow, StoreCall, StoreModel};
use crate::walk::{kind_name, DocKind, FoundText, Walk};

verus! {

/// The calls that delete those of the first `n` paths that were not seen.
pub open spec fn deletions(
    paths: Seq<Seq<char>>,
    seen: Set<Seq<char>>,
    n: nat,
) -> Seq<StoreCall>
    decreases n,
{
    if n == 0 {
        seq![]
    } else {
        let before = deletions(paths, seen, (n - 1) as nat);
        if seen.contains(paths[n - 1]) {
            before
        } else {
            before.push(StoreCall::DeleteDocument { path: paths[n - 1] })
        }
    }
}

proof fn prune_steps_delete(start: Work, w: Work, paths: Seq<Seq<char>>, i: nat)
    requires
        i <= paths.len(),
        prune_steps(w, paths, i).failed is None,
        w.failed is None,
        w.pass.seen == start.pass.seen,
        w.backends.store.calls == start.backends.store.calls + deletions(
            paths,
            start.pass.seen,
            i,
        ),
        w.pass.report.deleted == plus(
            start.pass.report.deleted,
            deletions(paths, start.pass.seen, i).len(),
        ),
    ensures
        prune_steps(w, paths, i).backends.store.calls == start.backends.store.calls + deletions(
            paths,
            start.pass.seen,
            paths.len(),
        ),
        prune_steps(w, paths, i).pass.report.deleted == plus(
            start.pass.report.deleted,
            deletions(paths, start.pass.seen, paths.len()).len(),
        ),
    decreases paths.len() - i,
{
    if i < paths.len() {
        let path = paths[i as int];
        let next = prune_step(w, path);
        if next.failed is Some {
            assert(prune_steps(next, paths, i + 1) == next);
        }
        assert(next.backends.store.calls =~= start.backends.store.calls + deletions(
            paths,
            start.pass.seen,
            i + 1,
        ));
        prune_steps_delete(start, next, paths, i + 1);
    }
}

/// A run that succeeds in pruning asks the store once for the documents of the
/// walked roots, deletes exactly those that it did not see, in the order
/// listed, and counts them.
pub proof fn what_is_gone_is_pruned(w: Work, paths: Seq<Seq<char>>)
    requires
        w.failed is None,
        prune(w).failed is None,
        w.backends.store.list(StoreCall::PathsForRoots { roots: w.pass.walked }) == Ok::<
            Seq<Seq<char>>,
            Seq<char>,
        >(paths),
    ensures
        prune(w).backends.store.calls == w.backends.store.calls.push(
            StoreCall::PathsForRoots { roots: w.pass.walked },
        ) + deletions(paths, w.pass.seen, paths.len()),
        prune(w).pass.report.deleted == plus(
            w.pass.report.deleted,
            deletions(paths, w.pass.seen, paths.len()).len(),
        ),
{
    let call = StoreCall::PathsForRoots { roots: w.pass.walked };
    let listed = Work {
        backends: Backends { store: w.backends.store.after(call), ..w.backends },
        ..w
    };
    assert(listed.backends.store.calls + deletions(paths, w.pass.seen, 0)
        =~= listed.backends.store.calls);
    prune_steps_delete(listed, listed, paths, 0);
}

/// Whether these are the chunks of a document's own content: of an image its
/// one vector, of markdown only chunks of text.
pub open spec fn content_chunks(kind: Seq<char>, chunks: Seq<ChunkRow>) -> bool {
    ||| {
        &&& kind == kind_name(DocKind::Image)
        &&& chunks.len() == 1
        &&& chunks[0].ord == 0
        &&& chunks[0].space == "image"@
        &&& chunks[0].modality == "image"@
        &&& chunks[0].text is None
    }
    ||| {
        &&& kind == kind_name(DocKind::Markdown)
        &&& forall|k: int|
            0 <= k < chunks.len() ==> (#[trigger] chunks[k]).space == "text"@
                && chunks[k].modality == "text"@ && chunks[k].text is Some
    }
}

/// Whether a chunk stands for the title of a document in the image space.
pub open spec fn stands_for_title(c: ChunkRow, doc: DocRow) -> bool {
    &&& c.space == "image"@
    &&& c.modality == "text_title"@
    &&& c.text == Some(doc.title)
}

/// Whether a document is as a run writes it: its own content and, where titles
/// are embedded, last of all a chunk for its title.
pub open spec fn well_shaped(doc: DocRow, titles: bool) -> bool {
    if titles {
        &&& doc.chunks.len() > 0
        &&& stands_for_title(doc.chunks.last(), doc)
        &&& content_chunks(doc.kind, doc.chunks.drop_last())
    } else {
        content_chunks(doc.kind, doc.chunks)
    }
}

/// Whether the documents that the calls on a store from `n` on write are well
/// shaped.
pub open spec fn writes_well_shaped(store: StoreModel, n: nat, titles: bool) -> bool {
    forall|k: int| n <= k < store.calls.len() ==> match #[trigger] store.calls[k] {
        StoreCall::ReplaceDocument { doc } => well_shaped(doc, titles),
        _ => true,
    }
}

/// Whether an image waits for its vector.
spec fn bare_image(doc: DocRow) -> bool {
    doc.kind == kind_name(DocKind::Image) && doc.chunks.len() == 0
}

/// What holds of a run that started with `b` at each point.
spec fn shaped(b: Backends, w: Work) -> bool {
    &&& w.backends.image_text is Some == b.image_text is Some
    &&& b.store.calls.len() <= w.backends.store.calls.len()
    &&& writes_well_shaped(w.backends.store, b.store.calls.len(), b.image_text is Some)
    &&& forall|k: int| 0 <= k < w.pass.images.len() ==> bare_image(#[trigger] w.pass.images[k])
    &&& all_content(w.pass.titles)
    &&& b.image_text is None ==> w.pass.titles.len() == 0
}

/// Whether each document of a batch holds its own content.
spec fn all_content(batch: Seq<TitleText>) -> bool {
    forall|k: int|
        0 <= k < batch.len() ==> content_chunks(
            (#[trigger] batch[k]).doc.kind,
            batch[k].doc.chunks,
        )
}

proof fn written_shaped(b: Backends, w: Work, doc: DocRow)
    requires
        shaped(b, w),
        well_shaped(doc, b.image_text is Some),
    ensures
        shaped(b, written(w, doc)),
{
}

proof fn titled_is_shaped(doc: DocRow, vector: Seq<u32>)
    requires
        content_chunks(doc.kind, doc.chunks),
    ensures
        well_shaped(with_title(doc, vector), true),
{
    assert(with_title(doc, vector).chunks.drop_last() =~= doc.chunks);
}

proof fn title_writes_shaped(
    b: Backends,
    w: Work,
    batch: Seq<TitleText>,
    vectors: Seq<Seq<u32>>,
    i: nat,
)
    requires
        shaped(b, w),
        b.image_text is Some,
        all_content(batch),
    ensures
        shaped(b, title_writes(w, batch, vectors, i)),
    decreases batch.len() - i,
{
    if w.failed is Some || i >= batch.len() || i >= vectors.len() {
    } else {
        let doc = batch[i as int].doc;
        titled_is_shaped(doc, vectors[i as int]);
        written_shaped(b, w, with_title(doc, vectors[i as int]));
        title_writes_shaped(
            b,
            written(w, with_title(doc, vectors[i as int])),
            batch,
            vectors,
            i + 1,
        );
    }
}

proof fn title_retries_shaped(
    b: Backends,
    w: Work,
    batch: Seq<TitleText>,
    i: nat,
    fail_fast: bool,
)
    requires
        shaped(b, w),
        b.image_text is Some,
        all_content(batch),
    ensures
        shaped(b, title_retries(w, batch, i, fail_fast)),
    decreases batch.len() - i,
{
    if w.failed is Some || i >= batch.len() {
    } else {
        let item = batch[i as int];
        let m = w.backends.image_text->0;
        let inputs = seq![item.doc.title];
        let asked = Work {
            backends: Backends { image_text: Some(m.after(inputs)), ..w.backends },
            ..w
        };
        assert(shaped(b, asked));
        if let Ok(vectors) = m.embedded(inputs) {
            titled_is_shaped(item.doc, vectors[0]);
            written_shaped(b, asked, with_title(item.doc, vectors[0]));
        }
        title_retries_shaped(b, title_retry(w, item, fail_fast), batch, i + 1, fail_fast);
    }
}

proof fn flush_titles_shaped(b: Backends, w: Work, fail_fast: bool)
    requires
        shaped(b, w),
    ensures
        shaped(b, flush_titles(w, fail_fast)),
{
    let batch = w.pass.titles;
    if batch.len() > 0 {
        let m = w.backends.image_text->0;
        let inputs = titles_of(batch);
        let asked = Work {
            backends: Backends { image_text: Some(m.after(inputs)), ..w.backends },
            pass: PassText { titles: seq![], ..w.pass },
            ..w
        };
        assert(shaped(b, asked));
        match m.embedded(inputs) {
            Ok(vectors) => title_writes_shaped(b, asked, batch, vectors, 0),
            Err(_) => title_retries_shaped(b, asked, batch, 0, fail_fast),
        }
    }
}

proof fn finish_image_shaped(b: Backends, w: Work, doc: DocRow, vector: Seq<u32>, o: Options)
    requires
        shaped(b, w),
        bare_image(doc),
    ensures
        shaped(b, flush_full_titles(finish_image(w, doc, vector), o)),
{
    let done = finish_image(w, doc, vector);
    assert(content_chunks(doc.kind, with_image(doc, vector).chunks));
    if w.backends.image_text is Some {
        assert(all_content(done.pass.titles));
    } else {
        written_shaped(b, w, with_image(doc, vector));
    }
    flush_titles_shaped(b, done, o.fail_fast);
}

proof fn image_writes_shaped(
    b: Backends,
    w: Work,
    batch: Seq<DocRow>,
    vectors: Seq<Seq<u32>>,
    i: nat,
    o: Options,
)
    requires
        shaped(b, w),
        forall|k: int| 0 <= k < batch.len() ==> bare_image(#[trigger] batch[k]),
    ensures
        shaped(b, image_writes(w, batch, vectors, i, o)),
    decreases batch.len() - i,
{
    if w.failed is Some || i >= batch.len() || i >= vectors.len() {
    } else {
        finish_image_shaped(b, w, batch[i as int], vectors[i as int], o);
        let next = flush_full_titles(finish_image(w, batch[i as int], vectors[i as int]), o);
        image_writes_shaped(b, next, batch, vectors, i + 1, o);
    }
}

proof fn image_retries_shaped(b: Backends, w: Work, batch: Seq<DocRow>, i: nat, o: Options)
    requires
        shaped(b, w),
        forall|k: int| 0 <= k < batch.len() ==> bare_image(#[trigger] batch[k]),
    ensures
        shaped(b, image_retries(w, batch, i, o)),
    decreases batch.len() - i,
{
    if w.failed is Some || i >= batch.len() {
    } else {
        let doc = batch[i as int];
        if let Some(m) = w.backends.image {
            let inputs = seq![doc.path];
            let asked = Work {
                backends: Backends { image: Some(m.after(inputs)), ..w.backends },
                ..w
            };
            assert(shaped(b, asked));
            if let Ok(vectors) = m.embedded(inputs) {
                finish_image_shaped(b, asked, doc, vectors[0], o);
            }
        }
        image_retries_shaped(b, image_retry(w, doc, o), batch, i + 1, o);
    }
}

proof fn flush_images_shaped(b: Backends, w: Work, o: Options)
    requires
        shaped(b, w),
    ensures
        shaped(b, flush_images(w, o)),
{
    let batch = w.pass.images;
    if batch.len() > 0 {
        if let Some(m) = w.backends.image {
            let inputs = paths_of(batch);
            let asked = Work {
                backends: Backends { image: Some(m.after(inputs)), ..w.backends },
                pass: PassText { images: seq![], ..w.pass },
                ..w
            };
            assert(shaped(b, asked));
            match m.embedded(inputs) {
                Ok(vectors) => image_writes_shaped(b, asked, batch, vectors, 0, o),
                Err(_) => image_retries_shaped(b, asked, batch, 0, o),
            }
        }
    }
}

proof fn image_step_shaped(b: Backends, w: Work, path: Seq<char>, root: Seq<char>, o: Options)
    requires
        shaped(b, w),
    ensures
        shaped(b, image_step(w, path, root, o)),
{
    let staged = staged_image(w.backends, path, root, o.force);
    let read = Work { backends: staged.backends, ..w };
    assert(shaped(b, read));
    if let Ok(Some(doc)) = staged.answer {
        let kept = Work {
            pass: PassText { images: w.pass.images.push(doc), ..w.pass },
            ..read
        };
        assert(bare_image(doc));
        assert(shaped(b, kept));
        flush_images_shaped(b, kept, o);
    }
}

proof fn markdown_step_shaped(
    b: Backends,
    w: Work,
    path: Seq<char>,
    root: Seq<char>,
    o: Options,
)
    requires
        shaped(b, w),
    ensures
        shaped(b, markdown_step(w, path, root, o)),
{
    let staged = staged_markdown(w.backends, path, root, o);
    let read = Work { backends: staged.backends, ..w };
    assert(shaped(b, read));
    if let Ok(Some(doc)) = staged.answer {
        assert(content_chunks(doc.kind, doc.chunks));
        if w.backends.image_text is Some {
            let kept = Work {
                pass: PassText {
                    titles: w.pass.titles.push(TitleText { doc, markdown: true }),
                    ..w.pass
                },
                ..read
            };
            assert(shaped(b, kept));
            flush_titles_shaped(b, kept, o.fail_fast);
        } else {
            written_shaped(b, read, doc);
        }
    }
}

proof fn file_steps_shaped(
    b: Backends,
    w: Work,
    files: Seq<FoundText>,
    i: nat,
    root: Seq<char>,
    o: Options,
)
    requires
        shaped(b, w),
    ensures
        shaped(b, file_steps(w, files, i, root, o)),
    decreases files.len() - i,
{
    if w.failed is Some || i >= files.len() {
    } else {
        let file = files[i as int];
        let reader = w.backends.reader.after(ReaderCall::Canonicalize(file.path));
        if let Ok(path) = w.backends.reader.canonical(file.path) {
            if !w.pass.seen.contains(path) {
                let fresh = Work {
                    backends: Backends { reader, ..w.backends },
                    pass: PassText { seen: w.pass.seen.insert(path), ..w.pass },
                    ..w
                };
                assert(shaped(b, fresh));
                match file.kind {
                    DocKind::Markdown => markdown_step_shaped(b, fresh, path, root, o),
                    DocKind::Image => image_step_shaped(b, fresh, path, root, o),
                }
            }
        }
        file_steps_shaped(b, file_step(w, file, root, o), files, i + 1, root, o);
    }
}

proof fn root_steps_shaped(
    b: Backends,
    w: Work,
    roots: Seq<Seq<char>>,
    i: nat,
    globs: Seq<Seq<char>>,
    o: Options,
)
    requires
        shaped(b, w),
    ensures
        shaped(b, root_steps(w, roots, i, globs, o)),
    decreases roots.len() - i,
{
    if w.failed is Some || i >= roots.len() {
    } else {
        let root = roots[i as int];
        if let Ok(canon) = w.backends.reader.canonical(root) {
            let walk = Walk { root: canon, ignore_globs: globs };
            if let Ok(files) = w.backends.walker.found(walk) {
                let told = advanced(
                    Work {
                        backends: Backends {
                            reader: w.backends.reader.after(ReaderCall::Canonicalize(root)),
                            walker: w.backends.walker.after(walk),
                            ..w.backends
                        },
                        pass: PassText {
                            walked: w.pass.walked.push(canon),
                            report: ReportText {
                                scanned: plus(w.pass.report.scanned, files.len()),
                                ..w.pass.report
                            },
                            ..w.pass
                        },
                        ..w
                    },
                    ProgressCall::IncTotal(files.len() as u64),
                );
                assert(shaped(b, told));
                file_steps_shaped(b, told, files, 0, canon, o);
            }
        }
        root_steps_shaped(b, root_step(w, root, globs, o), roots, i + 1, globs, o);
    }
}

proof fn prune_steps_shaped(b: Backends, w: Work, paths: Seq<Seq<char>>, i: nat)
    requires
        shaped(b, w),
    ensures
        shaped(b, prune_steps(w, paths, i)),
    decreases paths.len() - i,
{
    if w.failed is Some || i >= paths.len() {
    } else {
        prune_steps_shaped(b, prune_step(w, paths[i as int]), paths, i + 1);
    }
}

/// Every document that a run writes holds its own content, which is one vector
/// in the image space for an image and chunks of text for markdown. Where
/// titles are embedded, a chunk for the document's title in the image space
/// comes last, so that images and notes can be compared; where they are not,
/// there is none.
pub proof fn written_documents_carry_their_titles(
    b: Backends,
    roots: Seq<Seq<char>>,
    globs: Seq<Seq<char>>,
    o: Options,
)
    ensures
        writes_well_shaped(
            indexed(b, roots, globs, o).backends.store,
            b.store.calls.len(),
            b.image_text is Some,
        ),
{
    let start = Work { backends: b, pass: no_pass(), failed: None };
    let checked = guarded(start, o.force);
    assert(shaped(b, checked));
    if checked.failed is None {
        assert(shaped(b, recorded(checked)));
        root_steps_shaped(b, recorded(checked), roots, 0, globs, o);
        let walked = root_steps(recorded(checked), roots, 0, globs, o);
        if walked.failed is None {
            flush_images_shaped(b, walked, o);
            let images = flush_images(walked, o);
            flush_titles_shaped(b, images, o.fail_fast);
            let titles = flush_titles(images, o.fail_fast);
            let call = StoreCall::PathsForRoots { roots: titles.pass.walked };
            let listed = Work {
                backends: Backends {
                    store: titles.backends.store.after(call),
                    ..titles.backends
                },
                ..titles
            };
            assert(shaped(b, listed));
            if let Ok(paths) = titles.backends.store.list(call) {
                prune_steps_shaped(b, listed, paths, 0);
            }
        }
    }
}

} // verus!
