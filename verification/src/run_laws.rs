//! What each step of an indexing run asks, writes and counts.
use vstd::prelude::*;

use crate::fs::ReaderCall;
use crate::outside::blake3_digest;
use crate::paths::file_stem;
use crate::pipeline::{
    changed_bytes, file_step, file_steps, finish_image, flush_full_images, flush_full_titles,
    flush_images, flush_titles, guarded, image_doc, image_retries, image_retry, image_step,
    image_writes, indexed, markdown_doc, markdown_step, plus, prune, recorded, root_step,
    root_steps, title_retries, title_retry, title_writes, with_image, with_title, written,
    Backends, ErrorText, Options, PassText, ReportText, TitleText, Work,
};
use crate::progress::ProgressCall;
use crate::store::{DocRow, StoreCall};
use crate::text::decimal;
use crate::walk::{DocKind, FoundText, Walk};

verus! {

/// Whether nothing but the store and the report's counts differ.
pub open spec fn differs_in_counts(a: Work, b: Work) -> bool {
    &&& a.backends == Backends { store: a.backends.store, ..b.backends }
    &&& a.pass == PassText { report: a.pass.report, ..b.pass }
    &&& a.pass.report.scanned == b.pass.report.scanned
    &&& a.pass.report.skipped == b.pass.report.skipped
    &&& a.pass.report.deleted == b.pass.report.deleted
    &&& a.pass.report.errors == b.pass.report.errors
}

/// Whether `a` is `b` after `n` more, as far as there is a number for it.
pub open spec fn counts_up(a: usize, b: usize, n: nat) -> bool {
    a as int == b + n || a == usize::MAX && b + n > usize::MAX
}

/// Writing a document is one call to the store, which replaces it as it is.
/// Where that succeeds the document counts as indexed, once, and all its chunks
/// count; where it fails the run stops with the error and counts nothing.
pub proof fn a_write_is_counted(w: Work, doc: DocRow)
    requires
        w.failed is None,
    ensures
        ({
            let r = written(w, doc);
            let calls = w.backends.store.calls.push(StoreCall::ReplaceDocument { doc });
            let answer = (w.backends.store.dones)(calls);
            &&& r.backends.store.calls == calls
            &&& differs_in_counts(r, w)
            &&& answer is Ok ==> {
                &&& r.failed is None
                &&& counts_up(r.pass.report.indexed, w.pass.report.indexed, 1)
                &&& counts_up(r.pass.report.chunks, w.pass.report.chunks, doc.chunks.len())
            }
            &&& answer is Err ==> {
                &&& r.failed == Some(answer->Err_0)
                &&& r.pass == w.pass
            }
        }),
{
}

/// A changed file's bytes are those that the reader gives for it. They are
/// withheld only where the run is not forced and the store holds their digest
/// under the file's path; a forced run does not ask the store.
pub proof fn a_file_is_left_out_only_by_its_digest(b: Backends, path: Seq<char>, force: bool)
    ensures
        ({
            let r = changed_bytes(b, path, force);
            let read = b.reader.calls.push(ReaderCall::Read(path));
            let bytes = (b.reader.contents)(read);
            let asked = b.store.calls.push(StoreCall::DocumentHash { path });
            let stored = (b.store.hashes)(asked);
            &&& r.backends == Backends {
                reader: r.backends.reader,
                store: r.backends.store,
                ..b
            }
            &&& r.backends.reader.calls == read
            &&& if bytes is Err {
                r.backends.store == b.store && r.answer == Err::<Option<Seq<u8>>, Seq<char>>(
                    bytes->Err_0,
                )
            } else if force {
                r.backends.store == b.store && r.answer == Ok::<Option<Seq<u8>>, Seq<char>>(
                    Some(bytes->Ok_0),
                )
            } else if stored is Err {
                r.backends.store.calls == asked && r.answer == Err::<
                    Option<Seq<u8>>,
                    Seq<char>,
                >(stored->Err_0)
            } else {
                r.backends.store.calls == asked && r.answer == Ok::<Option<Seq<u8>>, Seq<char>>(
                    if stored->Ok_0 == Some(blake3_digest(bytes->Ok_0)) {
                        None
                    } else {
                        Some(bytes->Ok_0)
                    },
                )
            }
        }),
{
}

/// The document made of an image names the file and the root it was found in,
/// holds the digest of its bytes, its time and its size, and has its file stem
/// as title. It has no chunk before it is embedded, and no frontmatter, links or
/// tags.
pub proof fn images_describe_their_files(
    b: Backends,
    path: Seq<char>,
    root: Seq<char>,
    bytes: Seq<u8>,
)
    ensures
        ({
            let (after, doc) = image_doc(b, path, root, bytes);
            let sized = b.reader.calls.push(ReaderCall::ImageDimensions(path));
            let size = (b.reader.sizes)(sized);
            &&& after == Backends { reader: after.reader, ..b }
            &&& after.reader.calls == sized.push(ReaderCall::Mtime(path))
            &&& doc.path == path && doc.source_root == root && doc.kind == "image"@
            &&& doc.content_hash == blake3_digest(bytes)
            &&& doc.mtime == (b.reader.times)(after.reader.calls)
            &&& doc.title == match file_stem(path) {
                Some(stem) => stem,
                None => path,
            }
            &&& doc.width is Some <==> size is Some
            &&& doc.height is Some <==> size is Some
            &&& size is Some ==> {
                let (width, height) = size->0;
                doc.width->0 as int == width && doc.height->0 as int == height
            }
            &&& doc.chunks.len() == 0 && doc.links.len() == 0 && doc.tags.len() == 0
            &&& doc.frontmatter is None
        }),
{
}

/// An embedded image holds one chunk: its vector, in the image space, with no
/// text and no heading. Nothing else about it changes.
pub proof fn an_image_is_one_chunk(doc: DocRow, vector: Seq<u32>)
    ensures
        ({
            let r = with_image(doc, vector);
            let c = r.chunks[0];
            &&& r == DocRow { chunks: r.chunks, ..doc }
            &&& r.chunks.len() == 1
            &&& c.ord == 0 && c.space == "image"@ && c.modality == "image"@
            &&& c.text is None && c.heading_path.len() == 0 && c.vector == vector
        }),
{
}

/// A document's title is one more chunk, after all others: its vector, in the
/// image space, with the title as its text and no heading. Nothing else about
/// the document changes.
pub proof fn a_title_is_one_more_chunk(doc: DocRow, vector: Seq<u32>)
    ensures
        ({
            let r = with_title(doc, vector);
            let c = r.chunks.last();
            &&& r == DocRow { chunks: r.chunks, ..doc }
            &&& r.chunks.len() == doc.chunks.len() + 1 && r.chunks.drop_last() == doc.chunks
            &&& c.ord == doc.chunks.len() as usize
            &&& c.space == "image"@ && c.modality == "text_title"@
            &&& c.text == Some(doc.title) && c.heading_path.len() == 0 && c.vector == vector
        }),
{
    assert(with_title(doc, vector).chunks.drop_last() =~= doc.chunks);
}

/// The call that writes the `k`th document of a batch with the `k`th vector as
/// that of its title.
pub open spec fn title_call(batch: Seq<TitleText>, vectors: Seq<Seq<u32>>, k: int) -> StoreCall {
    StoreCall::ReplaceDocument { doc: with_title(batch[k].doc, vectors[k]) }
}

proof fn titles_written(
    start: Work,
    w: Work,
    batch: Seq<TitleText>,
    vectors: Seq<Seq<u32>>,
    i: nat,
)
    requires
        batch.len() == vectors.len(),
        i <= batch.len(),
        title_writes(w, batch, vectors, i).failed is None,
        w.backends.store.calls == start.backends.store.calls + Seq::new(
            i,
            |k: int| title_call(batch, vectors, k),
        ),
    ensures
        title_writes(w, batch, vectors, i).backends.store.calls == start.backends.store.calls
            + Seq::new(batch.len(), |k: int| title_call(batch, vectors, k)),
    decreases batch.len() - i,
{
    if i < batch.len() {
        let next = written(w, with_title(batch[i as int].doc, vectors[i as int]));
        if next.failed is Some {
            assert(title_writes(next, batch, vectors, i + 1) == next);
        }
        assert(next.backends.store.calls =~= start.backends.store.calls + Seq::new(
            i + 1,
            |k: int| title_call(batch, vectors, k),
        ));
        titles_written(start, next, batch, vectors, i + 1);
    }
}

/// Where a batch of titles was embedded in full and every write succeeds, each
/// document is written, once, in order, with the vector of its own title.
pub proof fn each_title_gets_its_own_vector(
    w: Work,
    batch: Seq<TitleText>,
    vectors: Seq<Seq<u32>>,
)
    requires
        batch.len() == vectors.len(),
        title_writes(w, batch, vectors, 0).failed is None,
    ensures
        title_writes(w, batch, vectors, 0).backends.store.calls == w.backends.store.calls
            + Seq::new(batch.len(), |k: int| title_call(batch, vectors, k)),
{
    assert(w.backends.store.calls =~= w.backends.store.calls + Seq::new(
        0,
        |k: int| title_call(batch, vectors, k),
    ));
    titles_written(w, w, batch, vectors, 0);
}

proof fn one_more_image(
    w: Work,
    batch: Seq<DocRow>,
    vectors: Seq<Seq<u32>>,
    doc: DocRow,
    vector: Seq<u32>,
    i: nat,
    o: Options,
)
    requires
        batch.len() == vectors.len(),
        i <= batch.len(),
    ensures
        ({
            let b = image_writes(w, batch, vectors, i, o);
            image_writes(w, batch.push(doc), vectors.push(vector), i, o) == if b.failed is Some {
                b
            } else {
                flush_full_titles(finish_image(b, doc, vector), o)
            }
        }),
    decreases batch.len() - i,
{
    let (docs, vs) = (batch.push(doc), vectors.push(vector));
    if w.failed is None {
        if i < batch.len() {
            assert(docs[i as int] == batch[i as int] && vs[i as int] == vectors[i as int]);
            let next = flush_full_titles(finish_image(w, batch[i as int], vectors[i as int]), o);
            one_more_image(next, batch, vectors, doc, vector, i + 1, o);
        } else {
            assert(docs[i as int] == doc && vs[i as int] == vector);
            let next = flush_full_titles(finish_image(w, doc, vector), o);
            assert(image_writes(next, docs, vs, i + 1, o) == next);
        }
    }
}

/// The images of a batch are finished one after the other, each with its own
/// vector, and each of them unless the run stopped before it. Without an
/// embedder for titles an image is written; with one it waits for its title,
/// and those that wait are embedded once there are enough of them.
pub proof fn each_image_gets_its_own_vector(
    w: Work,
    batch: Seq<DocRow>,
    vectors: Seq<Seq<u32>>,
    doc: DocRow,
    vector: Seq<u32>,
    o: Options,
)
    requires
        batch.len() == vectors.len(),
    ensures
        image_writes(w, seq![], seq![], 0, o) == w,
        ({
            let b = image_writes(w, batch, vectors, 0, o);
            let waiting = Work {
                pass: PassText {
                    titles: b.pass.titles.push(
                        TitleText { doc: with_image(doc, vector), markdown: false },
                    ),
                    ..b.pass
                },
                ..b
            };
            image_writes(w, batch.push(doc), vectors.push(vector), 0, o) == if b.failed is Some {
                b
            } else if b.backends.image_text is None {
                flush_full_titles(written(b, with_image(doc, vector)), o)
            } else {
                flush_full_titles(waiting, o)
            }
        }),
{
    one_more_image(w, batch, vectors, doc, vector, 0, o);
}

/// The title embedder is given the titles of all documents that wait, in order,
/// in one batch, and nothing waits afterwards. Where it answers, the documents
/// are written with the vectors answered; where it fails, one by one. Where
/// nothing waits, nothing happens.
pub proof fn waiting_titles_are_embedded_together(w: Work, fail_fast: bool)
    requires
        w.failed is None,
        w.pass.titles.len() > 0,
        w.backends.image_text is Some,
    ensures
        flush_titles(Work { pass: PassText { titles: seq![], ..w.pass }, ..w }, fail_fast)
            == (Work { pass: PassText { titles: seq![], ..w.pass }, ..w }),
        ({
            let batch = w.pass.titles;
            let m = w.backends.image_text->0;
            let inputs = batch.map_values(|t: TitleText| t.doc.title);
            let answer = (m.answers)(m.calls.push(inputs));
            let asked = Work {
                backends: Backends { image_text: Some(m.after(inputs)), ..w.backends },
                pass: PassText { titles: seq![], ..w.pass },
                ..w
            };
            flush_titles(w, fail_fast) == if answer is Ok {
                title_writes(asked, batch, answer->Ok_0, 0)
            } else {
                title_retries(asked, batch, 0, fail_fast)
            }
        }),
{
    let batch = w.pass.titles;
    assert(crate::pipeline::titles_of(batch) =~= batch.map_values(|t: TitleText| t.doc.title));
}

/// The image embedder is given the paths of all images that wait, in order, in
/// one batch, and no image waits afterwards. Where it answers, the images are
/// finished with the vectors answered; where it fails, one by one. Where nothing
/// waits, nothing happens.
pub proof fn waiting_images_are_embedded_together(w: Work, o: Options)
    requires
        w.failed is None,
        w.pass.images.len() > 0,
        w.backends.image is Some,
    ensures
        flush_images(Work { pass: PassText { images: seq![], ..w.pass }, ..w }, o) == (Work {
            pass: PassText { images: seq![], ..w.pass },
            ..w
        }),
        ({
            let batch = w.pass.images;
            let m = w.backends.image->0;
            let inputs = batch.map_values(|d: DocRow| d.path);
            let answer = (m.answers)(m.calls.push(inputs));
            let asked = Work {
                backends: Backends { image: Some(m.after(inputs)), ..w.backends },
                pass: PassText { images: seq![], ..w.pass },
                ..w
            };
            flush_images(w, o) == if answer is Ok {
                image_writes(asked, batch, answer->Ok_0, 0, o)
            } else {
                image_retries(asked, batch, 0, o)
            }
        }),
{
    let batch = w.pass.images;
    assert(crate::pipeline::paths_of(batch) =~= batch.map_values(|d: DocRow| d.path));
}

/// Titles are embedded as soon as a whole batch of them waits, and not before;
/// so are images.
pub proof fn batches_are_embedded_when_full(w: Work, o: Options)
    requires
        w.failed is None,
    ensures
        w.pass.titles.len() >= o.batch ==> flush_full_titles(w, o) == flush_titles(w, o.fail_fast),
        w.pass.titles.len() < o.batch ==> flush_full_titles(w, o) == w,
        w.pass.images.len() >= o.batch ==> flush_full_images(w, o) == flush_images(w, o),
        w.pass.images.len() < o.batch ==> flush_full_images(w, o) == w,
{
}

/// Whether a run goes on with one more error, for `path`.
pub open spec fn goes_on_with_error(
    r: Work,
    w: Work,
    path: Seq<char>,
    message: Seq<char>,
) -> bool {
    &&& r.failed is None
    &&& r.pass == PassText { report: r.pass.report, ..w.pass }
    &&& r.pass.report == ReportText { errors: r.pass.report.errors, ..w.pass.report }
    &&& r.pass.report.errors == w.pass.report.errors.push(ErrorText { path, message })
}

/// A title embedded alone is given to the embedder by itself, and its document
/// written with the first vector answered. Where the embedder fails, a markdown
/// document stops the run; an image does so only under `fail_fast`, and is
/// recorded as failed otherwise. Where no vector is answered the run stops.
pub proof fn a_title_embedded_alone(w: Work, item: TitleText, fail_fast: bool)
    requires
        w.failed is None,
        w.backends.image_text is Some,
    ensures
        ({
            let r = title_retry(w, item, fail_fast);
            let m = w.backends.image_text->0;
            let calls = m.calls.push(seq![item.doc.title]);
            let answer = (m.answers)(calls);
            let asked = Work {
                backends: Backends {
                    image_text: Some(m.after(seq![item.doc.title])),
                    ..w.backends
                },
                ..w
            };
            if answer is Ok {
                if answer->Ok_0.len() > 0 {
                    r == written(asked, with_title(item.doc, answer->Ok_0[0]))
                } else {
                    r.backends == asked.backends && r.pass == w.pass && r.failed is Some
                }
            } else {
                &&& r.backends == asked.backends
                &&& item.markdown || fail_fast ==> r.pass == w.pass && r.failed == Some(
                    answer->Err_0,
                )
                &&& !item.markdown && !fail_fast ==> goes_on_with_error(
                    r,
                    w,
                    item.doc.path,
                    answer->Err_0,
                )
            }
        }),
{
}

/// An image embedded alone is given to the embedder by itself, and finished with
/// the first vector answered. Where the embedder fails, the run stops under
/// `fail_fast`, and records the image as failed otherwise. Where no vector is
/// answered the run stops.
pub proof fn an_image_embedded_alone(w: Work, doc: DocRow, o: Options)
    requires
        w.failed is None,
        w.backends.image is Some,
    ensures
        ({
            let r = image_retry(w, doc, o);
            let m = w.backends.image->0;
            let calls = m.calls.push(seq![doc.path]);
            let answer = (m.answers)(calls);
            let asked = Work {
                backends: Backends { image: Some(m.after(seq![doc.path])), ..w.backends },
                ..w
            };
            if answer is Ok {
                if answer->Ok_0.len() > 0 {
                    r == flush_full_titles(finish_image(asked, doc, answer->Ok_0[0]), o)
                } else {
                    r.backends == asked.backends && r.pass == w.pass && r.failed is Some
                }
            } else {
                &&& r.backends == asked.backends
                &&& o.fail_fast ==> r.pass == w.pass && r.failed == Some(answer->Err_0)
                &&& !o.fail_fast ==> goes_on_with_error(r, w, doc.path, answer->Err_0)
            }
        }),
{
}

proof fn one_more_title_alone(
    w: Work,
    batch: Seq<TitleText>,
    item: TitleText,
    i: nat,
    fail_fast: bool,
)
    requires
        i <= batch.len(),
    ensures
        ({
            let b = title_retries(w, batch, i, fail_fast);
            title_retries(w, batch.push(item), i, fail_fast) == if b.failed is Some {
                b
            } else {
                title_retry(b, item, fail_fast)
            }
        }),
    decreases batch.len() - i,
{
    let more = batch.push(item);
    if w.failed is None {
        if i < batch.len() {
            assert(more[i as int] == batch[i as int]);
            let next = title_retry(w, batch[i as int], fail_fast);
            one_more_title_alone(next, batch, item, i + 1, fail_fast);
        } else {
            assert(more[i as int] == item);
            let next = title_retry(w, item, fail_fast);
            assert(title_retries(next, more, i + 1, fail_fast) == next);
        }
    }
}

proof fn one_more_image_alone(w: Work, batch: Seq<DocRow>, doc: DocRow, i: nat, o: Options)
    requires
        i <= batch.len(),
    ensures
        ({
            let b = image_retries(w, batch, i, o);
            image_retries(w, batch.push(doc), i, o) == if b.failed is Some {
                b
            } else {
                image_retry(b, doc, o)
            }
        }),
    decreases batch.len() - i,
{
    let more = batch.push(doc);
    if w.failed is None {
        if i < batch.len() {
            assert(more[i as int] == batch[i as int]);
            one_more_image_alone(image_retry(w, batch[i as int], o), batch, doc, i + 1, o);
        } else {
            assert(more[i as int] == doc);
            let next = image_retry(w, doc, o);
            assert(image_retries(next, more, i + 1, o) == next);
        }
    }
}

/// What is embedded one by one is so in order, each of it unless the run stopped
/// before it.
pub proof fn each_is_tried_alone(
    w: Work,
    titles: Seq<TitleText>,
    item: TitleText,
    images: Seq<DocRow>,
    doc: DocRow,
    o: Options,
)
    ensures
        title_retries(w, seq![], 0, o.fail_fast) == w,
        image_retries(w, seq![], 0, o) == w,
        ({
            let b = title_retries(w, titles, 0, o.fail_fast);
            title_retries(w, titles.push(item), 0, o.fail_fast) == if b.failed is Some {
                b
            } else {
                title_retry(b, item, o.fail_fast)
            }
        }),
        ({
            let b = image_retries(w, images, 0, o);
            image_retries(w, images.push(doc), 0, o) == if b.failed is Some {
                b
            } else {
                image_retry(b, doc, o)
            }
        }),
{
    one_more_title_alone(w, titles, item, 0, o.fail_fast);
    one_more_image_alone(w, images, doc, 0, o);
}

/// A markdown file that changed is made into a document from its bytes, and the
/// document is written as it is, or waits, as markdown, for its title where
/// titles are embedded. Whatever fails stops the run.
pub proof fn a_changed_note_is_written(
    w: Work,
    path: Seq<char>,
    root: Seq<char>,
    o: Options,
)
    requires
        w.failed is None,
    ensures
        ({
            let r = markdown_step(w, path, root, o);
            let read = changed_bytes(w.backends, path, o.force);
            let made = markdown_doc(read.backends, path, root, read.answer->Ok_0->0, o);
            let ready = Work { backends: made.backends, ..w };
            if read.answer is Err {
                &&& r.backends == read.backends && r.pass == w.pass
                &&& r.failed == Some(read.answer->Err_0)
            } else if read.answer->Ok_0 is None {
                &&& r.backends == read.backends && r.failed is None
                &&& r.pass == PassText { report: r.pass.report, ..w.pass }
                &&& r.pass.report == ReportText {
                    skipped: r.pass.report.skipped,
                    ..w.pass.report
                }
                &&& counts_up(r.pass.report.skipped, w.pass.report.skipped, 1)
            } else if made.answer is Err {
                &&& r.backends == made.backends && r.pass == w.pass
                &&& r.failed == Some(made.answer->Err_0)
            } else if w.backends.image_text is None {
                r == written(ready, made.answer->Ok_0)
            } else {
                r == flush_full_titles(
                    Work {
                        pass: PassText {
                            titles: w.pass.titles.push(
                                TitleText { doc: made.answer->Ok_0, markdown: true },
                            ),
                            ..w.pass
                        },
                        ..ready
                    },
                    o,
                )
            }
        }),
{
}

/// An image that changed waits, with the document made of its bytes, to be
/// embedded. One that cannot be read stops the run under `fail_fast`, and is
/// recorded as failed otherwise.
pub proof fn a_changed_image_waits(w: Work, path: Seq<char>, root: Seq<char>, o: Options)
    requires
        w.failed is None,
    ensures
        ({
            let r = image_step(w, path, root, o);
            let read = changed_bytes(w.backends, path, o.force);
            let (after, doc) = image_doc(read.backends, path, root, read.answer->Ok_0->0);
            if read.answer is Err {
                &&& r.backends == read.backends
                &&& o.fail_fast ==> r.pass == w.pass && r.failed == Some(read.answer->Err_0)
                &&& !o.fail_fast ==> goes_on_with_error(r, w, path, read.answer->Err_0)
            } else if read.answer->Ok_0 is None {
                &&& r.backends == read.backends && r.failed is None
                &&& r.pass == PassText { report: r.pass.report, ..w.pass }
                &&& r.pass.report == ReportText {
                    skipped: r.pass.report.skipped,
                    ..w.pass.report
                }
                &&& counts_up(r.pass.report.skipped, w.pass.report.skipped, 1)
            } else {
                r == flush_full_images(
                    Work {
                        backends: after,
                        pass: PassText { images: w.pass.images.push(doc), ..w.pass },
                        ..w
                    },
                    o,
                )
            }
        }),
{
}

/// A found file is handled under its canonical path, by its kind, once: the path
/// is seen from then on, and one that was seen before is passed over. Progress
/// advances by one unless the run stops.
pub proof fn a_found_file_is_handled_once(
    w: Work,
    file: FoundText,
    root: Seq<char>,
    o: Options,
)
    requires
        w.failed is None,
    ensures
        ({
            let r = file_step(w, file, root, o);
            let calls = w.backends.reader.calls.push(ReaderCall::Canonicalize(file.path));
            let canon = (w.backends.reader.paths)(calls);
            let looked = Backends {
                reader: w.backends.reader.after(ReaderCall::Canonicalize(file.path)),
                ..w.backends
            };
            let path = canon->Ok_0;
            let fresh = Work {
                backends: looked,
                pass: PassText { seen: w.pass.seen.insert(path), ..w.pass },
                ..w
            };
            let done = if file.kind == DocKind::Markdown {
                markdown_step(fresh, path, root, o)
            } else {
                image_step(fresh, path, root, o)
            };
            if canon is Err {
                r.backends == looked && r.pass == w.pass && r.failed == Some(canon->Err_0)
            } else if w.pass.seen.contains(path) {
                &&& r.pass == w.pass && r.failed is None
                &&& r.backends == Backends {
                    progress: w.backends.progress.push(ProgressCall::Inc(1)),
                    ..looked
                }
            } else if done.failed is Some {
                r == done
            } else {
                &&& r.pass == done.pass && r.failed is None
                &&& r.backends == Backends {
                    progress: done.backends.progress.push(ProgressCall::Inc(1)),
                    ..done.backends
                }
            }
        }),
{
}

proof fn one_more_file(
    w: Work,
    files: Seq<FoundText>,
    file: FoundText,
    i: nat,
    root: Seq<char>,
    o: Options,
)
    requires
        i <= files.len(),
    ensures
        ({
            let b = file_steps(w, files, i, root, o);
            file_steps(w, files.push(file), i, root, o) == if b.failed is Some {
                b
            } else {
                file_step(b, file, root, o)
            }
        }),
    decreases files.len() - i,
{
    let more = files.push(file);
    if w.failed is None {
        if i < files.len() {
            assert(more[i as int] == files[i as int]);
            one_more_file(file_step(w, files[i as int], root, o), files, file, i + 1, root, o);
        } else {
            assert(more[i as int] == file);
            let next = file_step(w, file, root, o);
            assert(file_steps(next, more, i + 1, root, o) == next);
        }
    }
}

proof fn one_more_root(
    w: Work,
    roots: Seq<Seq<char>>,
    root: Seq<char>,
    i: nat,
    globs: Seq<Seq<char>>,
    o: Options,
)
    requires
        i <= roots.len(),
    ensures
        ({
            let b = root_steps(w, roots, i, globs, o);
            root_steps(w, roots.push(root), i, globs, o) == if b.failed is Some {
                b
            } else {
                root_step(b, root, globs, o)
            }
        }),
    decreases roots.len() - i,
{
    let more = roots.push(root);
    if w.failed is None {
        if i < roots.len() {
            assert(more[i as int] == roots[i as int]);
            one_more_root(root_step(w, roots[i as int], globs, o), roots, root, i + 1, globs, o);
        } else {
            assert(more[i as int] == root);
            let next = root_step(w, root, globs, o);
            assert(root_steps(next, more, i + 1, globs, o) == next);
        }
    }
}

/// All found files of a root are handled, in order, and all roots are, each
/// unless the run stopped before it.
pub proof fn every_root_and_file_is_handled(
    w: Work,
    files: Seq<FoundText>,
    file: FoundText,
    roots: Seq<Seq<char>>,
    root: Seq<char>,
    globs: Seq<Seq<char>>,
    o: Options,
)
    ensures
        file_steps(w, seq![], 0, root, o) == w,
        root_steps(w, seq![], 0, globs, o) == w,
        ({
            let b = file_steps(w, files, 0, root, o);
            file_steps(w, files.push(file), 0, root, o) == if b.failed is Some {
                b
            } else {
                file_step(b, file, root, o)
            }
        }),
        ({
            let b = root_steps(w, roots, 0, globs, o);
            root_steps(w, roots.push(root), 0, globs, o) == if b.failed is Some {
                b
            } else {
                root_step(b, root, globs, o)
            }
        }),
{
    one_more_file(w, files, file, 0, root, o);
    one_more_root(w, roots, root, 0, globs, o);
}

/// A root is walked under its canonical path, with the ignore globs given. What
/// is found is counted as scanned and added to the total of progress, and every
/// file is then handled as one of that root. A root that cannot be resolved is
/// passed over with a warning that names it and says why, and not walked; a walk
/// that fails stops the run.
pub proof fn a_root_is_walked(w: Work, root: Seq<char>, globs: Seq<Seq<char>>, o: Options)
    requires
        w.failed is None,
    ensures
        ({
            let r = root_step(w, root, globs, o);
            let calls = w.backends.reader.calls.push(ReaderCall::Canonicalize(root));
            let canon = (w.backends.reader.paths)(calls);
            let looked = Backends {
                reader: w.backends.reader.after(ReaderCall::Canonicalize(root)),
                ..w.backends
            };
            let walk = Walk { root: canon->Ok_0, ignore_globs: globs };
            let found = (w.backends.walker.answers)(w.backends.walker.calls.push(walk));
            let went = PassText { walked: w.pass.walked.push(canon->Ok_0), ..w.pass };
            let walked = Backends { walker: w.backends.walker.after(walk), ..looked };
            if canon is Err {
                &&& r.pass == w.pass && r.failed is None
                &&& r.backends == Backends {
                    warnings: w.backends.warnings.push(
                        "warning: skipping vault "@ + root + " ("@ + canon->Err_0 + ")"@,
                    ),
                    ..looked
                }
            } else if found is Err {
                r.backends == walked && r.pass == went && r.failed == Some(found->Err_0)
            } else {
                exists|begun: Work| #[trigger]
                    begins_files(begun, walked, went, found->Ok_0) && r == file_steps(
                        begun,
                        found->Ok_0,
                        0,
                        canon->Ok_0,
                        o,
                    )
            }
        }),
{
    let calls = w.backends.reader.calls.push(ReaderCall::Canonicalize(root));
    let canon = (w.backends.reader.paths)(calls);
    let looked = Backends {
        reader: w.backends.reader.after(ReaderCall::Canonicalize(root)),
        ..w.backends
    };
    let walk = Walk { root: canon->Ok_0, ignore_globs: globs };
    let found = (w.backends.walker.answers)(w.backends.walker.calls.push(walk));
    let went = PassText { walked: w.pass.walked.push(canon->Ok_0), ..w.pass };
    let walked = Backends { walker: w.backends.walker.after(walk), ..looked };
    if canon is Ok && found is Ok {
        let files = found->Ok_0;
        let begun = Work {
            backends: Backends {
                progress: walked.progress.push(ProgressCall::IncTotal(files.len() as u64)),
                ..walked
            },
            pass: PassText {
                report: ReportText {
                    scanned: plus(went.report.scanned, files.len()),
                    ..went.report
                },
                ..went
            },
            failed: None,
        };
        assert(begins_files(begun, walked, went, files));
        assert(root_step(w, root, globs, o) == file_steps(begun, files, 0, canon->Ok_0, o));
    }
}

/// Whether a run has counted some found files, and not yet handled any.
pub open spec fn begins_files(
    begun: Work,
    walked: Backends,
    went: PassText,
    files: Seq<FoundText>,
) -> bool {
    &&& begun.failed is None
    &&& begun.backends == Backends {
        progress: walked.progress.push(ProgressCall::IncTotal(files.len() as u64)),
        ..walked
    }
    &&& begun.pass == PassText { report: begun.pass.report, ..went }
    &&& begun.pass.report == ReportText { scanned: begun.pass.report.scanned, ..went.report }
    &&& counts_up(begun.pass.report.scanned, went.report.scanned, files.len())
}

/// The model and the dimension that a run's embedders have are recorded before
/// anything is indexed, each under its own key: those for texts, those for
/// images where there are any, and the model for titles where there is one.
/// Nothing but the store changes.
pub proof fn models_are_recorded(w: Work)
    requires
        w.failed is None,
        recorded(w).failed is None,
    ensures
        ({
            let b = w.backends;
            let text = seq![
                StoreCall::SetMeta { key: "model.text"@, value: b.text.model_id },
                StoreCall::SetMeta { key: "dim.text"@, value: decimal(b.text.dim as nat) },
            ];
            let image = if b.image is Some {
                seq![
                    StoreCall::SetMeta {
                        key: "model.image_vision"@,
                        value: b.image->0.model_id,
                    },
                    StoreCall::SetMeta {
                        key: "dim.image"@,
                        value: decimal(b.image->0.dim as nat),
                    },
                ]
            } else {
                seq![]
            };
            let titles = if b.image_text is Some {
                seq![
                    StoreCall::SetMeta {
                        key: "model.image_text"@,
                        value: b.image_text->0.model_id,
                    },
                ]
            } else {
                seq![]
            };
            &&& recorded(w).backends.store.calls == b.store.calls + text + image + titles
            &&& recorded(w).backends == Backends { store: recorded(w).backends.store, ..b }
            &&& recorded(w).pass == w.pass
        }),
{
}

/// A run whose models are the store's, or of which the store knows none, asks
/// for each model in use and goes on; a forced run does not ask.
pub proof fn known_models_are_accepted(w: Work, force: bool)
    requires
        w.failed is None,
        guarded(w, force).failed is None,
    ensures
        ({
            let b = w.backends;
            let image = if b.image is Some {
                seq![StoreCall::GetMeta { key: "model.image_vision"@ }]
            } else {
                seq![]
            };
            let titles = if b.image_text is Some {
                seq![StoreCall::GetMeta { key: "model.image_text"@ }]
            } else {
                seq![]
            };
            let asked = b.store.calls + seq![StoreCall::GetMeta { key: "model.text"@ }] + image
                + titles;
            let r = guarded(w, force);
            &&& r.pass == w.pass && r.backends == Backends { store: r.backends.store, ..b }
            &&& force ==> r == w
            &&& !force ==> r.backends.store.calls == asked
        }),
{
}

/// Pruning asks the store for the documents of all roots that were walked.
pub proof fn pruning_asks_for_the_walked_roots(w: Work)
    requires
        w.failed is None,
    ensures
        ({
            let calls = w.backends.store.calls.push(
                StoreCall::PathsForRoots { roots: w.pass.walked },
            );
            let listed = (w.backends.store.lists)(calls);
            let asked = Work {
                backends: Backends {
                    store: w.backends.store.after(
                        StoreCall::PathsForRoots { roots: w.pass.walked },
                    ),
                    ..w.backends
                },
                ..w
            };
            prune(w) == if listed is Ok {
                crate::pipeline::prune_steps(asked, listed->Ok_0, 0)
            } else {
                Work { failed: Some(listed->Err_0), ..asked }
            }
        }),
{
}

/// A run checks the models, records them, handles every root, embeds what still
/// waits, images before titles, and prunes; it reports that it is finished at
/// the very end. Each of this is done only where all before it went well.
pub proof fn a_run_in_its_order(
    b: Backends,
    roots: Seq<Seq<char>>,
    globs: Seq<Seq<char>>,
    o: Options,
)
    ensures
        ({
            let start = Work {
                backends: b,
                pass: PassText {
                    report: ReportText {
                        scanned: 0,
                        indexed: 0,
                        skipped: 0,
                        deleted: 0,
                        chunks: 0,
                        errors: seq![],
                    },
                    seen: Set::empty(),
                    walked: seq![],
                    images: seq![],
                    titles: seq![],
                },
                failed: None,
            };
            let checked = guarded(start, o.force);
            let walked = root_steps(recorded(checked), roots, 0, globs, o);
            let images = flush_images(walked, o);
            let titles = flush_titles(images, o.fail_fast);
            let pruned = prune(titles);
            indexed(b, roots, globs, o) == if checked.failed is Some {
                checked
            } else if walked.failed is Some {
                walked
            } else if images.failed is Some {
                images
            } else if titles.failed is Some {
                titles
            } else if pruned.failed is Some {
                pruned
            } else {
                Work {
                    backends: Backends {
                        progress: pruned.backends.progress.push(ProgressCall::Finish),
                        ..pruned.backends
                    },
                    ..pruned
                }
            }
        }),
{
}

} // verus!
