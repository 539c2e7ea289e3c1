//! What holds of every indexing run.
use vstd::prelude::*;

use crate::embed::EmbedderModel;
use crate::pipeline::{
    advanced, changed_bytes, file_step, file_steps, finish_image, finished, flush_full_titles,
    flush_images, flush_titles, guard_opt, guard_step, guarded, image_retries, image_retry,
    image_step, image_writes, indexed, markdown_step, meta_step, no_pass, paths_of, plus, prune,
    prune_step, prune_steps, recorded, root_step, root_steps, staged_image, staged_markdown,
    title_retries, title_retry, title_writes, titles_of, with_error, with_image, with_skipped,
    with_title, written, Backends, Options, PassText, TitleText, Work,
};
use crate::progress::ProgressCall;
use crate::store::{DocRow, StoreCall, StoreModel};
use crate::walk::{DocKind, FoundText};

verus! {

/// How many files a run has accounted for: indexed, skipped, failed, or waiting
/// for a vector.
pub open spec fn accounted(p: PassText) -> int {
    p.report.indexed + p.report.skipped + p.report.errors.len() + p.images.len() + p.titles.len()
}

/// Whether no count of files has reached the largest number there is.
pub open spec fn countable(p: PassText) -> bool {
    p.report.indexed < usize::MAX && p.report.skipped < usize::MAX
}

/// Whether an embedder that answers gives one vector for each input.
pub open spec fn answers_in_full(m: Option<EmbedderModel>) -> bool {
    match m {
        None => true,
        Some(m) => forall|calls: Seq<Seq<Seq<char>>>|
            calls.len() > 0 && (#[trigger] (m.answers)(calls)) is Ok ==> (m.answers)(
                calls,
            )->Ok_0.len() == calls.last().len(),
    }
}

/// Whether a document's file was seen, under a root that was walked.
pub open spec fn belongs(doc: DocRow, p: PassText) -> bool {
    p.seen.contains(doc.path) && p.walked.contains(doc.source_root)
}

/// The calls on a store from `n` on that write documents write those of files
/// that were seen, and none deletes.
pub open spec fn writes_belong(store: StoreModel, n: nat, p: PassText) -> bool {
    forall|k: int| n <= k < store.calls.len() ==> match #[trigger] store.calls[k] {
        StoreCall::ReplaceDocument { doc } => belongs(doc, p),
        StoreCall::DeleteDocument { .. } => false,
        StoreCall::DeleteByRoot { .. } => false,
        _ => true,
    }
}

/// Whether `now` is `then` after some more calls, each of them a batch of at
/// least one and at most `batch` inputs.
pub open spec fn batches_bounded(
    then: Option<EmbedderModel>,
    now: Option<EmbedderModel>,
    batch: nat,
) -> bool {
    match (then, now) {
        (None, None) => true,
        (Some(a), Some(b)) => {
            &&& b.answers == a.answers
            &&& b.model_id == a.model_id
            &&& b.dim == a.dim
            &&& a.calls.len() <= b.calls.len()
            &&& a.calls =~= b.calls.take(a.calls.len() as int)
            &&& forall|k: int|
                a.calls.len() <= k < b.calls.len() ==> 1 <= (#[trigger] b.calls[k]).len() <= batch
        },
        _ => false,
    }
}

/// What holds of a run that started with `b` at each point of its walk, with
/// `extra` more documents in hand.
pub open spec fn sound(b: Backends, w: Work, o: Options, extra: nat) -> bool {
    &&& b.store.calls.len() <= w.backends.store.calls.len()
    &&& writes_belong(w.backends.store, b.store.calls.len(), w.pass)
    &&& batches_bounded(b.image, w.backends.image, o.batch)
    &&& batches_bounded(b.image_text, w.backends.image_text, o.batch)
    &&& forall|k: int|
        0 <= k < w.pass.images.len() ==> belongs(#[trigger] w.pass.images[k], w.pass)
    &&& forall|k: int|
        0 <= k < w.pass.titles.len() ==> belongs((#[trigger] w.pass.titles[k]).doc, w.pass)
    &&& w.failed is None ==> w.pass.images.len() <= o.batch && w.pass.titles.len() <= o.batch
    &&& o.fail_fast ==> w.pass.report.errors.len() == 0
    &&& o.force ==> w.pass.report.skipped == 0
    &&& w.pass.report.deleted == 0
    &&& w.pass.seen.finite()
    &&& accounted(w.pass) + extra <= w.pass.seen.len()
    &&& answers_in_full(b.image) && answers_in_full(b.image_text) && w.failed is None && countable(
        w.pass,
    ) ==> accounted(w.pass) + extra == w.pass.seen.len()
}

proof fn written_sound(b: Backends, w: Work, o: Options, extra: nat, doc: DocRow)
    requires
        w.failed is None,
        extra > 0,
        sound(b, w, o, extra),
        belongs(doc, w.pass),
    ensures
        sound(b, written(w, doc), o, (extra - 1) as nat),
        written(w, doc).pass.seen == w.pass.seen,
        written(w, doc).pass.walked == w.pass.walked,
        written(w, doc).backends.progress == w.backends.progress,
        written(w, doc).backends.walker == w.backends.walker,
        written(w, doc).pass.images == w.pass.images,
        written(w, doc).pass.titles == w.pass.titles,
{
}

proof fn with_error_sound(
    b: Backends,
    w: Work,
    o: Options,
    extra: nat,
    path: Seq<char>,
    e: Seq<char>,
)
    requires
        w.failed is None,
        extra > 0,
        !o.fail_fast,
        sound(b, w, o, extra),
    ensures
        sound(b, with_error(w, path, e), o, (extra - 1) as nat),
{
}

/// Whether each document of a batch belongs.
pub open spec fn all_belong(batch: Seq<TitleText>, p: PassText) -> bool {
    forall|k: int| 0 <= k < batch.len() ==> belongs((#[trigger] batch[k]).doc, p)
}

proof fn title_writes_sound(
    b: Backends,
    w: Work,
    o: Options,
    extra: nat,
    batch: Seq<TitleText>,
    vectors: Seq<Seq<u32>>,
    i: nat,
)
    requires
        sound(b, w, o, (extra + batch.len() - i) as nat),
        i <= batch.len(),
        all_belong(batch, w.pass),
        answers_in_full(b.image) && answers_in_full(b.image_text) ==> vectors.len()
            == batch.len(),
    ensures
        sound(b, title_writes(w, batch, vectors, i), o, extra),
        title_writes(w, batch, vectors, i).pass.seen == w.pass.seen,
        title_writes(w, batch, vectors, i).pass.walked == w.pass.walked,
        title_writes(w, batch, vectors, i).backends.progress == w.backends.progress,
        title_writes(w, batch, vectors, i).backends.walker == w.backends.walker,
        title_writes(w, batch, vectors, i).pass.images == w.pass.images,
        title_writes(w, batch, vectors, i).pass.titles == w.pass.titles,
    decreases batch.len() - i,
{
    if w.failed is Some || i >= batch.len() || i >= vectors.len() {
    } else {
        let doc = with_title(batch[i as int].doc, vectors[i as int]);
        assert(belongs(batch[i as int].doc, w.pass));
        written_sound(b, w, o, (extra + batch.len() - i) as nat, doc);
        title_writes_sound(b, written(w, doc), o, extra, batch, vectors, i + 1);
    }
}

/// One more batch of at least one and at most `batch` inputs is bounded.
proof fn one_more_batch(
    then: Option<EmbedderModel>,
    now: EmbedderModel,
    batch: nat,
    inputs: Seq<Seq<char>>,
)
    requires
        batches_bounded(then, Some(now), batch),
        1 <= inputs.len() <= batch,
    ensures
        batches_bounded(then, Some(now.after(inputs)), batch),
        answers_in_full(then) && now.embedded(inputs) is Ok ==> now.embedded(inputs)->Ok_0.len()
            == inputs.len(),
{
    let a = then->0;
    let c = now.after(inputs);
    assert(c.calls.take(a.calls.len() as int) =~= now.calls.take(a.calls.len() as int));
    assert forall|k: int| a.calls.len() <= k < c.calls.len() implies 1 <= (
    #[trigger] c.calls[k]).len() <= batch by {
        if k < now.calls.len() {
            assert(c.calls[k] == now.calls[k]);
        }
    }
    assert(now.calls.push(inputs).last() == inputs);
}

proof fn title_retry_sound(b: Backends, w: Work, o: Options, extra: nat, item: TitleText)
    requires
        w.failed is None,
        extra > 0,
        o.batch >= 1,
        sound(b, w, o, extra),
        belongs(item.doc, w.pass),
    ensures
        sound(b, title_retry(w, item, o.fail_fast), o, (extra - 1) as nat),
        title_retry(w, item, o.fail_fast).pass.seen == w.pass.seen,
        title_retry(w, item, o.fail_fast).pass.walked == w.pass.walked,
        title_retry(w, item, o.fail_fast).backends.progress == w.backends.progress,
        title_retry(w, item, o.fail_fast).backends.walker == w.backends.walker,
        title_retry(w, item, o.fail_fast).pass.images == w.pass.images,
        title_retry(w, item, o.fail_fast).pass.titles == w.pass.titles,
{
    match w.backends.image_text {
        None => {},
        Some(m) => {
            let inputs = seq![item.doc.title];
            one_more_batch(b.image_text, m, o.batch, inputs);
            let asked = Work {
                backends: Backends { image_text: Some(m.after(inputs)), ..w.backends },
                ..w
            };
            assert(sound(b, asked, o, extra));
            match m.embedded(inputs) {
                Ok(vectors) => {
                    if vectors.len() > 0 {
                        written_sound(b, asked, o, extra, with_title(item.doc, vectors[0]));
                    }
                },
                Err(e) => {
                    if !item.markdown && !o.fail_fast {
                        with_error_sound(b, asked, o, extra, item.doc.path, e);
                    }
                },
            }
        },
    }
}

proof fn title_retries_sound(
    b: Backends,
    w: Work,
    o: Options,
    extra: nat,
    batch: Seq<TitleText>,
    i: nat,
)
    requires
        sound(b, w, o, (extra + batch.len() - i) as nat),
        i <= batch.len(),
        o.batch >= 1,
        all_belong(batch, w.pass),
    ensures
        sound(b, title_retries(w, batch, i, o.fail_fast), o, extra),
        title_retries(w, batch, i, o.fail_fast).pass.seen == w.pass.seen,
        title_retries(w, batch, i, o.fail_fast).pass.walked == w.pass.walked,
        title_retries(w, batch, i, o.fail_fast).backends.progress == w.backends.progress,
        title_retries(w, batch, i, o.fail_fast).backends.walker == w.backends.walker,
        title_retries(w, batch, i, o.fail_fast).pass.images == w.pass.images,
        title_retries(w, batch, i, o.fail_fast).pass.titles == w.pass.titles,
    decreases batch.len() - i,
{
    if w.failed is Some || i >= batch.len() {
    } else {
        assert(belongs(batch[i as int].doc, w.pass));
        title_retry_sound(b, w, o, (extra + batch.len() - i) as nat, batch[i as int]);
        title_retries_sound(
            b,
            title_retry(w, batch[i as int], o.fail_fast),
            o,
            extra,
            batch,
            i + 1,
        );
    }
}

proof fn flush_titles_sound(b: Backends, w: Work, o: Options, extra: nat)
    requires
        w.failed is None,
        o.batch >= 1,
        sound(b, w, o, extra),
    ensures
        sound(b, flush_titles(w, o.fail_fast), o, extra),
        flush_titles(w, o.fail_fast).pass.seen == w.pass.seen,
        flush_titles(w, o.fail_fast).pass.walked == w.pass.walked,
        flush_titles(w, o.fail_fast).backends.progress == w.backends.progress,
        flush_titles(w, o.fail_fast).backends.walker == w.backends.walker,
        flush_titles(w, o.fail_fast).pass.images == w.pass.images,
        flush_titles(w, o.fail_fast).pass.titles.len() == 0,
{
    let batch = w.pass.titles;
    let taken = Work { pass: PassText { titles: seq![], ..w.pass }, ..w };
    if batch.len() > 0 {
        match w.backends.image_text {
            None => {},
            Some(m) => {
                let inputs = titles_of(batch);
                one_more_batch(b.image_text, m, o.batch, inputs);
                let asked = Work {
                    backends: Backends { image_text: Some(m.after(inputs)), ..w.backends },
                    ..taken
                };
                assert(all_belong(batch, asked.pass)) by {
                    assert forall|k: int| 0 <= k < batch.len() implies belongs(
                        (#[trigger] batch[k]).doc,
                        asked.pass,
                    ) by {
                        assert(belongs(w.pass.titles[k].doc, w.pass));
                    }
                }
                assert(sound(b, asked, o, extra + batch.len()));
                match m.embedded(inputs) {
                    Ok(vectors) => {
                        title_writes_sound(b, asked, o, extra, batch, vectors, 0);
                    },
                    Err(_) => {
                        title_retries_sound(b, asked, o, extra, batch, 0);
                    },
                }
            },
        }
    }
}

proof fn flush_full_titles_sound(b: Backends, w: Work, o: Options, extra: nat)
    requires
        o.batch >= 1,
        sound(b, w, o, extra),
    ensures
        sound(b, flush_full_titles(w, o), o, extra),
        flush_full_titles(w, o).pass.seen == w.pass.seen,
        flush_full_titles(w, o).pass.walked == w.pass.walked,
        flush_full_titles(w, o).backends.progress == w.backends.progress,
        flush_full_titles(w, o).backends.walker == w.backends.walker,
        flush_full_titles(w, o).pass.images == w.pass.images,
        flush_full_titles(w, o).failed is None ==> flush_full_titles(w, o).pass.titles.len()
            < o.batch,
{
    if w.failed is None && w.pass.titles.len() >= o.batch {
        flush_titles_sound(b, w, o, extra);
    }
}

proof fn finish_image_sound(
    b: Backends,
    w: Work,
    o: Options,
    extra: nat,
    doc: DocRow,
    vector: Seq<u32>,
)
    requires
        w.failed is None,
        extra > 0,
        w.pass.titles.len() < o.batch,
        sound(b, w, o, extra),
        belongs(doc, w.pass),
    ensures
        sound(b, finish_image(w, doc, vector), o, (extra - 1) as nat),
        finish_image(w, doc, vector).pass.seen == w.pass.seen,
        finish_image(w, doc, vector).pass.walked == w.pass.walked,
        finish_image(w, doc, vector).backends.progress == w.backends.progress,
        finish_image(w, doc, vector).backends.walker == w.backends.walker,
        finish_image(w, doc, vector).pass.images == w.pass.images,
{
    let done = with_image(doc, vector);
    if w.backends.image_text is Some {
        let r = finish_image(w, doc, vector);
        assert forall|k: int| 0 <= k < r.pass.titles.len() implies belongs(
            (#[trigger] r.pass.titles[k]).doc,
            r.pass,
        ) by {
            if k < w.pass.titles.len() {
                assert(belongs(w.pass.titles[k].doc, w.pass));
            }
        }
    } else {
        written_sound(b, w, o, extra, done);
    }
}

/// Whether each document of a batch belongs.
pub open spec fn all_rows_belong(batch: Seq<DocRow>, p: PassText) -> bool {
    forall|k: int| 0 <= k < batch.len() ==> belongs(#[trigger] batch[k], p)
}

proof fn image_writes_sound(
    b: Backends,
    w: Work,
    o: Options,
    extra: nat,
    batch: Seq<DocRow>,
    vectors: Seq<Seq<u32>>,
    i: nat,
)
    requires
        sound(b, w, o, (extra + batch.len() - i) as nat),
        i <= batch.len(),
        o.batch >= 1,
        w.failed is None ==> w.pass.titles.len() < o.batch,
        all_rows_belong(batch, w.pass),
        answers_in_full(b.image) && answers_in_full(b.image_text) ==> vectors.len()
            == batch.len(),
    ensures
        sound(b, image_writes(w, batch, vectors, i, o), o, extra),
        image_writes(w, batch, vectors, i, o).pass.seen == w.pass.seen,
        image_writes(w, batch, vectors, i, o).pass.walked == w.pass.walked,
        image_writes(w, batch, vectors, i, o).backends.progress == w.backends.progress,
        image_writes(w, batch, vectors, i, o).backends.walker == w.backends.walker,
        image_writes(w, batch, vectors, i, o).pass.images == w.pass.images,
        image_writes(w, batch, vectors, i, o).failed is None ==> image_writes(
            w,
            batch,
            vectors,
            i,
            o,
        ).pass.titles.len() < o.batch,
    decreases batch.len() - i,
{
    if w.failed is Some || i >= batch.len() || i >= vectors.len() {
    } else {
        let n = (extra + batch.len() - i) as nat;
        let doc = batch[i as int];
        let done = finish_image(w, doc, vectors[i as int]);
        assert(belongs(doc, w.pass));
        finish_image_sound(b, w, o, n, doc, vectors[i as int]);
        flush_full_titles_sound(b, done, o, (n - 1) as nat);
        image_writes_sound(b, flush_full_titles(done, o), o, extra, batch, vectors, i + 1);
    }
}

proof fn image_retry_sound(b: Backends, w: Work, o: Options, extra: nat, doc: DocRow)
    requires
        w.failed is None,
        extra > 0,
        o.batch >= 1,
        w.pass.titles.len() < o.batch,
        sound(b, w, o, extra),
        belongs(doc, w.pass),
    ensures
        sound(b, image_retry(w, doc, o), o, (extra - 1) as nat),
        image_retry(w, doc, o).pass.seen == w.pass.seen,
        image_retry(w, doc, o).pass.walked == w.pass.walked,
        image_retry(w, doc, o).backends.progress == w.backends.progress,
        image_retry(w, doc, o).backends.walker == w.backends.walker,
        image_retry(w, doc, o).pass.images == w.pass.images,
        image_retry(w, doc, o).failed is None ==> image_retry(w, doc, o).pass.titles.len()
            < o.batch,
{
    match w.backends.image {
        None => {},
        Some(m) => {
            let inputs = seq![doc.path];
            one_more_batch(b.image, m, o.batch, inputs);
            let asked = Work {
                backends: Backends { image: Some(m.after(inputs)), ..w.backends },
                ..w
            };
            assert(sound(b, asked, o, extra));
            match m.embedded(inputs) {
                Ok(vectors) => {
                    if vectors.len() > 0 {
                        finish_image_sound(b, asked, o, extra, doc, vectors[0]);
                        flush_full_titles_sound(
                            b,
                            finish_image(asked, doc, vectors[0]),
                            o,
                            (extra - 1) as nat,
                        );
                    }
                },
                Err(e) => {
                    if !o.fail_fast {
                        with_error_sound(b, asked, o, extra, doc.path, e);
                    }
                },
            }
        },
    }
}

proof fn image_retries_sound(
    b: Backends,
    w: Work,
    o: Options,
    extra: nat,
    batch: Seq<DocRow>,
    i: nat,
)
    requires
        sound(b, w, o, (extra + batch.len() - i) as nat),
        i <= batch.len(),
        o.batch >= 1,
        w.failed is None ==> w.pass.titles.len() < o.batch,
        all_rows_belong(batch, w.pass),
    ensures
        sound(b, image_retries(w, batch, i, o), o, extra),
        image_retries(w, batch, i, o).pass.seen == w.pass.seen,
        image_retries(w, batch, i, o).pass.walked == w.pass.walked,
        image_retries(w, batch, i, o).backends.progress == w.backends.progress,
        image_retries(w, batch, i, o).backends.walker == w.backends.walker,
        image_retries(w, batch, i, o).pass.images == w.pass.images,
        image_retries(w, batch, i, o).failed is None ==> image_retries(
            w,
            batch,
            i,
            o,
        ).pass.titles.len() < o.batch,
    decreases batch.len() - i,
{
    if w.failed is Some || i >= batch.len() {
    } else {
        assert(belongs(batch[i as int], w.pass));
        image_retry_sound(b, w, o, (extra + batch.len() - i) as nat, batch[i as int]);
        image_retries_sound(b, image_retry(w, batch[i as int], o), o, extra, batch, i + 1);
    }
}

proof fn flush_images_sound(b: Backends, w: Work, o: Options, extra: nat)
    requires
        w.failed is None,
        o.batch >= 1,
        w.pass.titles.len() < o.batch,
        sound(b, w, o, extra),
    ensures
        sound(b, flush_images(w, o), o, extra),
        flush_images(w, o).pass.seen == w.pass.seen,
        flush_images(w, o).pass.walked == w.pass.walked,
        flush_images(w, o).backends.progress == w.backends.progress,
        flush_images(w, o).backends.walker == w.backends.walker,
        flush_images(w, o).pass.images.len() == 0,
        flush_images(w, o).failed is None ==> flush_images(w, o).pass.titles.len() < o.batch,
{
    let batch = w.pass.images;
    let taken = Work { pass: PassText { images: seq![], ..w.pass }, ..w };
    if batch.len() > 0 {
        match w.backends.image {
            None => {},
            Some(m) => {
                let inputs = paths_of(batch);
                one_more_batch(b.image, m, o.batch, inputs);
                let asked = Work {
                    backends: Backends { image: Some(m.after(inputs)), ..w.backends },
                    ..taken
                };
                assert(all_rows_belong(batch, asked.pass)) by {
                    assert forall|k: int| 0 <= k < batch.len() implies belongs(
                        #[trigger] batch[k],
                        asked.pass,
                    ) by {
                        assert(belongs(w.pass.images[k], w.pass));
                    }
                }
                assert(sound(b, asked, o, extra + batch.len()));
                match m.embedded(inputs) {
                    Ok(vectors) => {
                        image_writes_sound(b, asked, o, extra, batch, vectors, 0);
                    },
                    Err(_) => {
                        image_retries_sound(b, asked, o, extra, batch, 0);
                    },
                }
            },
        }
    }
}

/// Whether there is room for one more image and one more title, or the run has
/// stopped.
pub open spec fn has_room(w: Work, o: Options) -> bool {
    w.failed is None ==> w.pass.images.len() < o.batch && w.pass.titles.len() < o.batch
}

proof fn changed_bytes_sound(
    b: Backends,
    w: Work,
    o: Options,
    extra: nat,
    path: Seq<char>,
)
    requires
        sound(b, w, o, extra),
    ensures
        sound(
            b,
            Work { backends: changed_bytes(w.backends, path, o.force).backends, ..w },
            o,
            extra,
        ),
        o.force ==> changed_bytes(w.backends, path, o.force).answer != Ok::<
            Option<Seq<u8>>,
            Seq<char>,
        >(None),
{
}

proof fn markdown_step_sound(
    b: Backends,
    w: Work,
    o: Options,
    path: Seq<char>,
    root: Seq<char>,
)
    requires
        w.failed is None,
        o.batch >= 1,
        has_room(w, o),
        sound(b, w, o, 1),
        w.pass.seen.contains(path),
        w.pass.walked.contains(root),
    ensures
        sound(b, markdown_step(w, path, root, o), o, 0),
        has_room(markdown_step(w, path, root, o), o),
        markdown_step(w, path, root, o).pass.seen == w.pass.seen,
        markdown_step(w, path, root, o).pass.walked == w.pass.walked,
        markdown_step(w, path, root, o).backends.progress == w.backends.progress,
        markdown_step(w, path, root, o).backends.walker == w.backends.walker,
{
    let staged = staged_markdown(w.backends, path, root, o);
    let w1 = Work { backends: staged.backends, ..w };
    changed_bytes_sound(b, w, o, 1, path);
    assert(sound(b, w1, o, 1));
    match staged.answer {
        Err(e) => {},
        Ok(None) => {},
        Ok(Some(doc)) => {
            assert(belongs(doc, w1.pass));
            if w.backends.image_text is Some {
                let kept = Work {
                    pass: PassText {
                        titles: w.pass.titles.push(TitleText { doc, markdown: true }),
                        ..w.pass
                    },
                    ..w1
                };
                assert forall|k: int| 0 <= k < kept.pass.titles.len() implies belongs(
                    (#[trigger] kept.pass.titles[k]).doc,
                    kept.pass,
                ) by {
                    if k < w.pass.titles.len() {
                        assert(belongs(w.pass.titles[k].doc, w.pass));
                    }
                }
                assert(sound(b, kept, o, 0));
                flush_full_titles_sound(b, kept, o, 0);
            } else {
                written_sound(b, w1, o, 1, doc);
            }
        },
    }
}

proof fn image_step_sound(b: Backends, w: Work, o: Options, path: Seq<char>, root: Seq<char>)
    requires
        w.failed is None,
        o.batch >= 1,
        has_room(w, o),
        sound(b, w, o, 1),
        w.pass.seen.contains(path),
        w.pass.walked.contains(root),
    ensures
        sound(b, image_step(w, path, root, o), o, 0),
        has_room(image_step(w, path, root, o), o),
        image_step(w, path, root, o).pass.seen == w.pass.seen,
        image_step(w, path, root, o).pass.walked == w.pass.walked,
        image_step(w, path, root, o).backends.progress == w.backends.progress,
        image_step(w, path, root, o).backends.walker == w.backends.walker,
{
    let staged = staged_image(w.backends, path, root, o.force);
    let w1 = Work { backends: staged.backends, ..w };
    changed_bytes_sound(b, w, o, 1, path);
    assert(sound(b, w1, o, 1));
    match staged.answer {
        Err(e) => {
            if !o.fail_fast {
                with_error_sound(b, w1, o, 1, path, e);
            }
        },
        Ok(None) => {},
        Ok(Some(doc)) => {
            assert(belongs(doc, w1.pass));
            let kept = Work {
                pass: PassText { images: w.pass.images.push(doc), ..w.pass },
                ..w1
            };
            assert forall|k: int| 0 <= k < kept.pass.images.len() implies belongs(
                #[trigger] kept.pass.images[k],
                kept.pass,
            ) by {
                if k < w.pass.images.len() {
                    assert(belongs(w.pass.images[k], w.pass));
                }
            }
            assert(sound(b, kept, o, 0));
            if kept.pass.images.len() >= o.batch {
                flush_images_sound(b, kept, o, 0);
            }
        },
    }
}

proof fn file_step_sound(b: Backends, w: Work, o: Options, file: FoundText, root: Seq<char>)
    requires
        w.failed is None,
        o.batch >= 1,
        has_room(w, o),
        sound(b, w, o, 0),
        w.pass.walked.contains(root),
    ensures
        sound(b, file_step(w, file, root, o), o, 0),
        has_room(file_step(w, file, root, o), o),
        file_step(w, file, root, o).pass.walked == w.pass.walked,
        file_step(w, file, root, o).backends.walker == w.backends.walker,
        file_step(w, file, root, o).failed is None ==> file_step(w, file, root, o).backends.progress
            == w.backends.progress.push(ProgressCall::Inc(1)),
{
    match w.backends.reader.canonical(file.path) {
        Err(e) => {},
        Ok(path) => {
            if !w.pass.seen.contains(path) {
                let fresh = Work {
                    backends: Backends {
                        reader: w.backends.reader.after(
                            crate::fs::ReaderCall::Canonicalize(file.path),
                        ),
                        ..w.backends
                    },
                    pass: PassText { seen: w.pass.seen.insert(path), ..w.pass },
                    ..w
                };
                assert(fresh.pass.seen.len() == w.pass.seen.len() + 1);
                assert(writes_belong(fresh.backends.store, b.store.calls.len(), fresh.pass));
                assert(sound(b, fresh, o, 1));
                match file.kind {
                    DocKind::Markdown => {
                        markdown_step_sound(b, fresh, o, path, root);
                    },
                    DocKind::Image => {
                        image_step_sound(b, fresh, o, path, root);
                    },
                }
            }
        },
    }
}

/// By how many units the total that was told is ahead of the progress.
pub open spec fn outstanding(calls: Seq<ProgressCall>) -> int
    decreases calls.len(),
{
    if calls.len() == 0 {
        0
    } else {
        outstanding(calls.drop_last()) + match calls.last() {
            ProgressCall::IncTotal(n) => n as int,
            ProgressCall::Inc(n) => -(n as int),
            ProgressCall::Finish => 0,
        }
    }
}

proof fn outstanding_push(calls: Seq<ProgressCall>, call: ProgressCall)
    ensures
        outstanding(calls.push(call)) == outstanding(calls) + match call {
            ProgressCall::IncTotal(n) => n as int,
            ProgressCall::Inc(n) => -(n as int),
            ProgressCall::Finish => 0,
        },
{
    assert(calls.push(call).drop_last() =~= calls);
}

proof fn file_steps_sound(
    b: Backends,
    w: Work,
    o: Options,
    files: Seq<FoundText>,
    i: nat,
    root: Seq<char>,
)
    requires
        o.batch >= 1,
        has_room(w, o),
        sound(b, w, o, 0),
        w.pass.walked.contains(root),
    ensures
        sound(b, file_steps(w, files, i, root, o), o, 0),
        has_room(file_steps(w, files, i, root, o), o),
        file_steps(w, files, i, root, o).backends.walker == w.backends.walker,
        file_steps(w, files, i, root, o).failed is None ==> outstanding(
            file_steps(w, files, i, root, o).backends.progress,
        ) == outstanding(w.backends.progress) - if i < files.len() {
            files.len() - i
        } else {
            0
        },
    decreases files.len() - i,
{
    if w.failed is Some || i >= files.len() {
    } else {
        file_step_sound(b, w, o, files[i as int], root);
        outstanding_push(w.backends.progress, ProgressCall::Inc(1));
        file_steps_sound(b, file_step(w, files[i as int], root, o), o, files, i + 1, root);
    }
}

/// Whether no walk finds more files than can be counted.
pub open spec fn finds_few(walker: crate::walk::WalkerModel) -> bool {
    forall|calls: Seq<crate::walk::Walk>|
        (#[trigger] (walker.answers)(calls)) is Ok ==> (walker.answers)(calls)->Ok_0.len()
            <= u64::MAX
}

proof fn root_step_sound(
    b: Backends,
    w: Work,
    o: Options,
    root: Seq<char>,
    globs: Seq<Seq<char>>,
)
    requires
        w.failed is None,
        o.batch >= 1,
        has_room(w, o),
        sound(b, w, o, 0),
    ensures
        sound(b, root_step(w, root, globs, o), o, 0),
        has_room(root_step(w, root, globs, o), o),
        root_step(w, root, globs, o).backends.walker.answers == w.backends.walker.answers,
        root_step(w, root, globs, o).failed is None && finds_few(w.backends.walker)
            ==> outstanding(root_step(w, root, globs, o).backends.progress) == outstanding(
            w.backends.progress,
        ),
{
    match w.backends.reader.canonical(root) {
        Err(e) => {},
        Ok(canon) => {
            let walk = crate::walk::Walk { root: canon, ignore_globs: globs };
            let w1 = Work {
                backends: Backends {
                    walker: w.backends.walker.after(walk),
                    reader: w.backends.reader.after(crate::fs::ReaderCall::Canonicalize(root)),
                    ..w.backends
                },
                pass: PassText { walked: w.pass.walked.push(canon), ..w.pass },
                ..w
            };
            more_walked(w.pass.walked, canon);
            assert(writes_belong(w1.backends.store, b.store.calls.len(), w1.pass));
            assert(sound(b, w1, o, 0));
            match w.backends.walker.found(walk) {
                Err(e) => {},
                Ok(files) => {
                    let counted = Work {
                        pass: PassText {
                            report: crate::pipeline::ReportText {
                                scanned: plus(w1.pass.report.scanned, files.len()),
                                ..w1.pass.report
                            },
                            ..w1.pass
                        },
                        ..w1
                    };
                    let told = advanced(counted, ProgressCall::IncTotal(files.len() as u64));
                    assert(sound(b, told, o, 0));
                    outstanding_push(
                        w.backends.progress,
                        ProgressCall::IncTotal(files.len() as u64),
                    );
                    file_steps_sound(b, told, o, files, 0, canon);
                },
            }
        },
    }
}

proof fn more_walked(walked: Seq<Seq<char>>, root: Seq<char>)
    ensures
        walked.push(root).contains(root),
        forall|r: Seq<char>| #[trigger] walked.contains(r) ==> walked.push(root).contains(r),
{
    assert(walked.push(root)[walked.len() as int] == root);
    assert forall|r: Seq<char>| #[trigger] walked.contains(r) implies walked.push(root).contains(
        r,
    ) by {
        let k = choose|k: int| 0 <= k < walked.len() && walked[k] == r;
        assert(walked.push(root)[k] == r);
    }
}

proof fn root_steps_sound(
    b: Backends,
    w: Work,
    o: Options,
    roots: Seq<Seq<char>>,
    i: nat,
    globs: Seq<Seq<char>>,
)
    requires
        o.batch >= 1,
        has_room(w, o),
        sound(b, w, o, 0),
    ensures
        sound(b, root_steps(w, roots, i, globs, o), o, 0),
        has_room(root_steps(w, roots, i, globs, o), o),
        root_steps(w, roots, i, globs, o).failed is None && finds_few(w.backends.walker)
            ==> outstanding(root_steps(w, roots, i, globs, o).backends.progress) == outstanding(
            w.backends.progress,
        ),
    decreases roots.len() - i,
{
    if w.failed is Some || i >= roots.len() {
    } else {
        root_step_sound(b, w, o, roots[i as int], globs);
        root_steps_sound(b, root_step(w, roots[i as int], globs, o), o, roots, i + 1, globs);
    }
}

proof fn guard_step_sound(b: Backends, w: Work, o: Options, key: Seq<char>, id: Seq<char>)
    requires
        sound(b, w, o, 0),
    ensures
        sound(b, guard_step(w, key, id), o, 0),
        guard_step(w, key, id).pass == w.pass,
        guard_step(w, key, id).backends.progress == w.backends.progress,
        guard_step(w, key, id).backends.walker == w.backends.walker,
{
}

proof fn meta_step_sound(b: Backends, w: Work, o: Options, key: Seq<char>, value: Seq<char>)
    requires
        sound(b, w, o, 0),
    ensures
        sound(b, meta_step(w, key, value), o, 0),
        meta_step(w, key, value).pass == w.pass,
        meta_step(w, key, value).backends.progress == w.backends.progress,
        meta_step(w, key, value).backends.walker == w.backends.walker,
{
}

/// A run once every root was walked.
pub open spec fn all_walked(
    b: Backends,
    roots: Seq<Seq<char>>,
    globs: Seq<Seq<char>>,
    o: Options,
) -> Work {
    let start = Work { backends: b, pass: no_pass(), failed: None };
    let checked = guarded(start, o.force);
    if checked.failed is Some {
        checked
    } else {
        root_steps(recorded(checked), roots, 0, globs, o)
    }
}

proof fn all_walked_sound(
    b: Backends,
    roots: Seq<Seq<char>>,
    globs: Seq<Seq<char>>,
    o: Options,
)
    requires
        o.batch >= 1,
    ensures
        sound(b, all_walked(b, roots, globs, o), o, 0),
        has_room(all_walked(b, roots, globs, o), o),
        indexed(b, roots, globs, o) == finished(all_walked(b, roots, globs, o), o),
        all_walked(b, roots, globs, o).failed is None && finds_few(b.walker) ==> outstanding(
            all_walked(b, roots, globs, o).backends.progress,
        ) == outstanding(b.progress),
{
    let start = Work { backends: b, pass: no_pass(), failed: None };
    assert(sound(b, start, o, 0)) by {
        match b.image {
            Some(m) => assert(m.calls.take(m.calls.len() as int) =~= m.calls),
            None => {},
        }
        match b.image_text {
            Some(m) => assert(m.calls.take(m.calls.len() as int) =~= m.calls),
            None => {},
        }
    }
    if !o.force {
        let text = guard_step(start, "model.text"@, b.text.model_id);
        guard_step_sound(b, start, o, "model.text"@, b.text.model_id);
        let image = guard_opt(text, "model.image_vision"@, b.image);
        if b.image is Some {
            guard_step_sound(b, text, o, "model.image_vision"@, b.image->0.model_id);
        }
        if b.image_text is Some {
            guard_step_sound(b, image, o, "model.image_text"@, b.image_text->0.model_id);
        }
    }
    let checked = guarded(start, o.force);
    if checked.failed is None {
        let c = checked.backends;
        let model = meta_step(checked, "model.text"@, c.text.model_id);
        meta_step_sound(b, checked, o, "model.text"@, c.text.model_id);
        let dim = crate::text::decimal(c.text.dim as nat);
        let text = meta_step(model, "dim.text"@, dim);
        meta_step_sound(b, model, o, "dim.text"@, dim);
        let image = match c.image {
            Some(m) => {
                let vision = meta_step(text, "model.image_vision"@, m.model_id);
                let dim = crate::text::decimal(m.dim as nat);
                meta_step_sound(b, text, o, "model.image_vision"@, m.model_id);
                meta_step_sound(b, vision, o, "dim.image"@, dim);
                meta_step(vision, "dim.image"@, dim)
            },
            None => text,
        };
        if c.image_text is Some {
            meta_step_sound(b, image, o, "model.image_text"@, c.image_text->0.model_id);
        }
        root_steps_sound(b, recorded(checked), o, roots, 0, globs);
    }
}

/// Whether the store listed `path` among the documents of `roots`, in answer to
/// a call between `n` and `k`.
pub open spec fn listed(
    store: StoreModel,
    n: int,
    k: int,
    roots: Seq<Seq<char>>,
    path: Seq<char>,
) -> bool {
    exists|j: int|
        n <= j < k && #[trigger] store.calls[j] == (StoreCall::PathsForRoots { roots }) && (
        store.lists)(store.calls.take(j + 1)) is Ok && (store.lists)(
            store.calls.take(j + 1),
        )->Ok_0.contains(path)
}

/// What the calls on a store from `n` on do: they write documents of files that
/// were seen under a walked root, and delete documents that the store listed
/// for the walked roots and that were not seen.
pub open spec fn store_calls_fit(store: StoreModel, n: nat, p: PassText) -> bool {
    forall|k: int| n <= k < store.calls.len() ==> match #[trigger] store.calls[k] {
        StoreCall::ReplaceDocument { doc } => belongs(doc, p),
        StoreCall::DeleteDocument { path } => !p.seen.contains(path) && listed(
            store,
            n as int,
            k,
            p.walked,
            path,
        ),
        StoreCall::DeleteByRoot { .. } => false,
        _ => true,
    }
}

/// Whether two runs have gathered the same, but for the number of deleted
/// documents.
pub open spec fn same_but_deleted(a: PassText, b: PassText) -> bool {
    PassText {
        report: crate::pipeline::ReportText { deleted: b.report.deleted, ..a.report },
        ..a
    } == b
}

proof fn prune_steps_fit(w: Work, paths: Seq<Seq<char>>, i: nat, n: nat, j: int)
    requires
        store_calls_fit(w.backends.store, n, w.pass),
        n <= j < w.backends.store.calls.len(),
        w.backends.store.calls[j] == (StoreCall::PathsForRoots { roots: w.pass.walked }),
        (w.backends.store.lists)(w.backends.store.calls.take(j + 1)) == Ok::<
            Seq<Seq<char>>,
            Seq<char>,
        >(paths),
    ensures
        store_calls_fit(
            prune_steps(w, paths, i).backends.store,
            n,
            prune_steps(w, paths, i).pass,
        ),
        same_but_deleted(w.pass, prune_steps(w, paths, i).pass),
        prune_steps(w, paths, i).backends.image == w.backends.image,
        prune_steps(w, paths, i).backends.image_text == w.backends.image_text,
        prune_steps(w, paths, i).backends.progress == w.backends.progress,
    decreases paths.len() - i,
{
    if w.failed is Some || i >= paths.len() {
    } else {
        let path = paths[i as int];
        let r = prune_step(w, path);
        if !w.pass.seen.contains(path) {
            let old_store = w.backends.store;
            let store = r.backends.store;
            assert(paths.contains(path));
            assert(store.calls.take(j + 1) =~= old_store.calls.take(j + 1));
            assert forall|k: int| n <= k < store.calls.len() implies match #[trigger] store.calls[k] {
                StoreCall::ReplaceDocument { doc } => belongs(doc, r.pass),
                StoreCall::DeleteDocument { path } => !r.pass.seen.contains(path) && listed(
                    store,
                    n as int,
                    k,
                    r.pass.walked,
                    path,
                ),
                StoreCall::DeleteByRoot { .. } => false,
                _ => true,
            } by {
                if k < old_store.calls.len() {
                    assert(store.calls[k] == old_store.calls[k]);
                    if let StoreCall::DeleteDocument { path: p } = store.calls[k] {
                        let m = choose|m: int|
                            n <= m < k && #[trigger] old_store.calls[m] == (
                            StoreCall::PathsForRoots { roots: w.pass.walked }) && (old_store.lists)(
                                old_store.calls.take(m + 1),
                            ) is Ok && (old_store.lists)(
                                old_store.calls.take(m + 1),
                            )->Ok_0.contains(p);
                        assert(store.calls.take(m + 1) =~= old_store.calls.take(m + 1));
                        assert(store.calls[m] == old_store.calls[m]);
                    }
                } else {
                    assert(store.calls[j] == old_store.calls[j]);
                }
            }
        }
        prune_steps_fit(r, paths, i + 1, n, j);
    }
}

/// What holds of a run that started with `b`, however it ended.
pub open spec fn lawful(b: Backends, w: Work, o: Options) -> bool {
    &&& store_calls_fit(w.backends.store, b.store.calls.len(), w.pass)
    &&& batches_bounded(b.image, w.backends.image, o.batch)
    &&& batches_bounded(b.image_text, w.backends.image_text, o.batch)
    &&& o.fail_fast ==> w.pass.report.errors.len() == 0
    &&& o.force ==> w.pass.report.skipped == 0
    &&& w.pass.seen.finite()
    &&& accounted(w.pass) <= w.pass.seen.len()
    &&& w.failed is None ==> w.pass.images.len() == 0 && w.pass.titles.len() == 0
    &&& answers_in_full(b.image) && answers_in_full(b.image_text) && w.failed is None && countable(
        w.pass,
    ) ==> accounted(w.pass) == w.pass.seen.len()
    &&& w.failed is None && finds_few(b.walker) ==> outstanding(w.backends.progress)
        == outstanding(b.progress)
}

proof fn indexed_lawful(b: Backends, roots: Seq<Seq<char>>, globs: Seq<Seq<char>>, o: Options)
    requires
        o.batch >= 1,
    ensures
        lawful(b, indexed(b, roots, globs, o), o),
{
    let w = all_walked(b, roots, globs, o);
    let n = b.store.calls.len();
    all_walked_sound(b, roots, globs, o);
    if w.failed is None {
        let images = flush_images(w, o);
        flush_images_sound(b, w, o, 0);
        if images.failed is None {
            let titles = flush_titles(images, o.fail_fast);
            flush_titles_sound(b, images, o, 0);
            if titles.failed is None {
                let call = StoreCall::PathsForRoots { roots: titles.pass.walked };
                let listed_work = Work {
                    backends: Backends {
                        store: titles.backends.store.after(call),
                        ..titles.backends
                    },
                    ..titles
                };
                assert(store_calls_fit(listed_work.backends.store, n, listed_work.pass));
                let calls = listed_work.backends.store.calls;
                let j = calls.len() - 1;
                assert(calls.take(j + 1) =~= calls);
                if let Ok(paths) = titles.backends.store.list(call) {
                    prune_steps_fit(listed_work, paths, 0, n, j);
                }
                let pruned = prune(titles);
                assert(same_but_deleted(titles.pass, pruned.pass));
                outstanding_push(pruned.backends.progress, ProgressCall::Finish);
            }
        }
    }
}

/// Under `fail_fast` a run collects no errors: the first one stops it.
pub proof fn fail_fast_collects_no_errors(
    b: Backends,
    roots: Seq<Seq<char>>,
    globs: Seq<Seq<char>>,
    o: Options,
)
    requires
        o.batch >= 1,
        o.fail_fast,
    ensures
        indexed(b, roots, globs, o).pass.report.errors.len() == 0,
{
    indexed_lawful(b, roots, globs, o);
}

/// A forced run skips no file as unchanged.
pub proof fn forced_run_skips_nothing(
    b: Backends,
    roots: Seq<Seq<char>>,
    globs: Seq<Seq<char>>,
    o: Options,
)
    requires
        o.batch >= 1,
        o.force,
    ensures
        indexed(b, roots, globs, o).pass.report.skipped == 0,
{
    indexed_lawful(b, roots, globs, o);
}

/// The image and title embedders are given batches of at least one and at most
/// the batch size.
pub proof fn embed_batches_are_bounded(
    b: Backends,
    roots: Seq<Seq<char>>,
    globs: Seq<Seq<char>>,
    o: Options,
)
    requires
        o.batch >= 1,
    ensures
        batches_bounded(b.image, indexed(b, roots, globs, o).backends.image, o.batch),
        batches_bounded(b.image_text, indexed(b, roots, globs, o).backends.image_text, o.batch),
{
    indexed_lawful(b, roots, globs, o);
}

/// A run writes only documents of files that it saw, under roots that it
/// walked. It deletes only documents that the store listed for those roots and
/// that it did not see, so that it never removes the documents of another
/// vault, nor one that it wrote.
pub proof fn writes_and_deletions_stay_in_the_walked_roots(
    b: Backends,
    roots: Seq<Seq<char>>,
    globs: Seq<Seq<char>>,
    o: Options,
)
    requires
        o.batch >= 1,
    ensures
        store_calls_fit(
            indexed(b, roots, globs, o).backends.store,
            b.store.calls.len(),
            indexed(b, roots, globs, o).pass,
        ),
{
    indexed_lawful(b, roots, globs, o);
}

/// A run that succeeds leaves no document waiting.
pub proof fn nothing_waits_at_the_end(
    b: Backends,
    roots: Seq<Seq<char>>,
    globs: Seq<Seq<char>>,
    o: Options,
)
    requires
        o.batch >= 1,
        indexed(b, roots, globs, o).failed is None,
    ensures
        indexed(b, roots, globs, o).pass.images.len() == 0,
        indexed(b, roots, globs, o).pass.titles.len() == 0,
{
    indexed_lawful(b, roots, globs, o);
}

/// Each file that a run sees is counted at most once, as indexed, skipped or
/// failed. Where the run succeeds and the embedders give a vector for each
/// input, it is counted exactly once: a failing image costs only itself.
pub proof fn each_file_is_accounted_for(
    b: Backends,
    roots: Seq<Seq<char>>,
    globs: Seq<Seq<char>>,
    o: Options,
)
    requires
        o.batch >= 1,
    ensures
        ({
            let w = indexed(b, roots, globs, o);
            let r = w.pass.report;
            &&& r.indexed + r.skipped + r.errors.len() <= w.pass.seen.len()
            &&& w.failed is None && countable(w.pass) && answers_in_full(b.image)
                && answers_in_full(b.image_text) ==> r.indexed + r.skipped + r.errors.len()
                == w.pass.seen.len()
        }),
{
    indexed_lawful(b, roots, globs, o);
}

/// A run that succeeds advances its progress by as many units as it adds to the
/// total.
pub proof fn progress_reaches_its_total(
    b: Backends,
    roots: Seq<Seq<char>>,
    globs: Seq<Seq<char>>,
    o: Options,
)
    requires
        o.batch >= 1,
        finds_few(b.walker),
        indexed(b, roots, globs, o).failed is None,
    ensures
        outstanding(indexed(b, roots, globs, o).backends.progress) == outstanding(b.progress),
{
    indexed_lawful(b, roots, globs, o);
}

/// A store that was built with another text model stops a run that is not
/// forced before anything is read, embedded or written.
pub proof fn another_model_is_refused(
    b: Backends,
    roots: Seq<Seq<char>>,
    globs: Seq<Seq<char>>,
    o: Options,
    existing: Seq<char>,
)
    requires
        !o.force,
        b.store.meta("model.text"@) == Ok::<Option<Seq<char>>, Seq<char>>(Some(existing)),
        existing != b.text.model_id,
    ensures
        indexed(b, roots, globs, o).failed == Some(
            crate::pipeline::guard_message(existing, "model.text"@, b.text.model_id),
        ),
        indexed(b, roots, globs, o).backends == (Backends {
            store: b.store.after(StoreCall::GetMeta { key: "model.text"@ }),
            ..b
        }),
{
}

/// As [`another_model_is_refused`], for the model that embeds images, where the
/// text model is not another one.
pub proof fn another_image_model_is_refused(
    b: Backends,
    roots: Seq<Seq<char>>,
    globs: Seq<Seq<char>>,
    o: Options,
    existing: Seq<char>,
)
    requires
        !o.force,
        guard_step(
            Work { backends: b, pass: no_pass(), failed: None },
            "model.text"@,
            b.text.model_id,
        ).failed is None,
        b.image is Some,
        b.store.after(StoreCall::GetMeta { key: "model.text"@ }).meta("model.image_vision"@)
            == Ok::<Option<Seq<char>>, Seq<char>>(Some(existing)),
        existing != b.image->0.model_id,
    ensures
        indexed(b, roots, globs, o).failed == Some(
            crate::pipeline::guard_message(
                existing,
                "model.image_vision"@,
                b.image->0.model_id,
            ),
        ),
        indexed(b, roots, globs, o).backends == (Backends {
            store: b.store.after(StoreCall::GetMeta { key: "model.text"@ }).after(
                StoreCall::GetMeta { key: "model.image_vision"@ },
            ),
            ..b
        }),
{
}

/// As [`another_model_is_refused`], for the model that embeds titles, where the
/// other models are not other ones.
pub proof fn another_title_model_is_refused(
    b: Backends,
    roots: Seq<Seq<char>>,
    globs: Seq<Seq<char>>,
    o: Options,
    existing: Seq<char>,
)
    requires
        !o.force,
        b.image_text is Some,
        ({
            let start = Work { backends: b, pass: no_pass(), failed: None };
            let text = guard_step(start, "model.text"@, b.text.model_id);
            let image = guard_opt(text, "model.image_vision"@, b.image);
            &&& image.failed is None
            &&& image.backends.store.meta("model.image_text"@) == Ok::<
                Option<Seq<char>>,
                Seq<char>,
            >(Some(existing))
        }),
        existing != b.image_text->0.model_id,
    ensures
        indexed(b, roots, globs, o).failed == Some(
            crate::pipeline::guard_message(
                existing,
                "model.image_text"@,
                b.image_text->0.model_id,
            ),
        ),
        ({
            let text = b.store.after(StoreCall::GetMeta { key: "model.text"@ });
            let image = if b.image is Some {
                text.after(StoreCall::GetMeta { key: "model.image_vision"@ })
            } else {
                text
            };
            indexed(b, roots, globs, o).backends == (Backends {
                store: image.after(StoreCall::GetMeta { key: "model.image_text"@ }),
                ..b
            })
        }),
{
}

/// A markdown file whose digest the store holds under its path is only counted
/// as skipped, unless the run is forced: it is not parsed, embedded or written.
pub proof fn unchanged_markdown_is_left_alone(
    w: Work,
    path: Seq<char>,
    root: Seq<char>,
    bytes: Seq<u8>,
    o: Options,
)
    requires
        !o.force,
        w.backends.reader.bytes(path) == Ok::<Seq<u8>, Seq<char>>(bytes),
        w.backends.store.hash(path) == Ok::<Option<Seq<u8>>, Seq<char>>(
            Some(crate::outside::blake3_digest(bytes)),
        ),
    ensures
        markdown_step(w, path, root, o) == with_skipped(
            Work {
                backends: Backends {
                    reader: w.backends.reader.after(crate::fs::ReaderCall::Read(path)),
                    store: w.backends.store.after(StoreCall::DocumentHash { path }),
                    ..w.backends
                },
                ..w
            },
        ),
{
}

/// An image file whose digest the store holds under its path is only counted as
/// skipped, unless the run is forced.
pub proof fn unchanged_image_is_left_alone(
    w: Work,
    path: Seq<char>,
    root: Seq<char>,
    bytes: Seq<u8>,
    o: Options,
)
    requires
        !o.force,
        w.backends.reader.bytes(path) == Ok::<Seq<u8>, Seq<char>>(bytes),
        w.backends.store.hash(path) == Ok::<Option<Seq<u8>>, Seq<char>>(
            Some(crate::outside::blake3_digest(bytes)),
        ),
    ensures
        image_step(w, path, root, o) == with_skipped(
            Work {
                backends: Backends {
                    reader: w.backends.reader.after(crate::fs::ReaderCall::Read(path)),
                    store: w.backends.store.after(StoreCall::DocumentHash { path }),
                    ..w.backends
                },
                ..w
            },
        ),
{
}

/// A file that was found before, under whichever root, is not handled again.
pub proof fn the_first_root_wins(
    w: Work,
    file: FoundText,
    root: Seq<char>,
    path: Seq<char>,
    o: Options,
)
    requires
        w.backends.reader.canonical(file.path) == Ok::<Seq<char>, Seq<char>>(path),
        w.pass.seen.contains(path),
    ensures
        file_step(w, file, root, o).pass == w.pass,
        file_step(w, file, root, o).failed == w.failed,
        file_step(w, file, root, o).backends.store == w.backends.store,
        file_step(w, file, root, o).backends.text == w.backends.text,
        file_step(w, file, root, o).backends.image == w.backends.image,
        file_step(w, file, root, o).backends.image_text == w.backends.image_text,
{
}

/// Whether every file that a walker finds is markdown.
pub open spec fn finds_only_markdown(walker: crate::walk::WalkerModel) -> bool {
    forall|calls: Seq<crate::walk::Walk>, k: int|
        (walker.answers)(calls) is Ok && 0 <= k < (walker.answers)(calls)->Ok_0.len() ==> (
        #[trigger] (walker.answers)(calls)->Ok_0[k]).kind == DocKind::Markdown
}

/// What holds of a run that started with `b` while only markdown was found.
spec fn text_only(b: Backends, w: Work) -> bool {
    &&& w.backends.image == b.image
    &&& w.backends.walker.answers == b.walker.answers
    &&& w.pass.images.len() == 0
    &&& w.pass.report.errors.len() == 0
    &&& forall|k: int| 0 <= k < w.pass.titles.len() ==> (#[trigger] w.pass.titles[k]).markdown
}

proof fn title_writes_text_only(
    b: Backends,
    w: Work,
    batch: Seq<TitleText>,
    vectors: Seq<Seq<u32>>,
    i: nat,
)
    requires
        text_only(b, w),
    ensures
        text_only(b, title_writes(w, batch, vectors, i)),
    decreases batch.len() - i,
{
    if w.failed is Some || i >= batch.len() || i >= vectors.len() {
    } else {
        title_writes_text_only(
            b,
            written(w, with_title(batch[i as int].doc, vectors[i as int])),
            batch,
            vectors,
            i + 1,
        );
    }
}

proof fn title_retries_text_only(
    b: Backends,
    w: Work,
    batch: Seq<TitleText>,
    i: nat,
    fail_fast: bool,
)
    requires
        text_only(b, w),
        forall|k: int| 0 <= k < batch.len() ==> (#[trigger] batch[k]).markdown,
    ensures
        text_only(b, title_retries(w, batch, i, fail_fast)),
    decreases batch.len() - i,
{
    if w.failed is Some || i >= batch.len() {
    } else {
        assert(batch[i as int].markdown);
        title_retries_text_only(
            b,
            title_retry(w, batch[i as int], fail_fast),
            batch,
            i + 1,
            fail_fast,
        );
    }
}

proof fn flush_titles_text_only(b: Backends, w: Work, fail_fast: bool)
    requires
        text_only(b, w),
    ensures
        text_only(b, flush_titles(w, fail_fast)),
{
    let batch = w.pass.titles;
    if batch.len() > 0 {
        if let Some(m) = w.backends.image_text {
            let inputs = titles_of(batch);
            let asked = Work {
                backends: Backends { image_text: Some(m.after(inputs)), ..w.backends },
                pass: PassText { titles: seq![], ..w.pass },
                ..w
            };
            match m.embedded(inputs) {
                Ok(vectors) => {
                    title_writes_text_only(b, asked, batch, vectors, 0);
                },
                Err(_) => {
                    title_retries_text_only(b, asked, batch, 0, fail_fast);
                },
            }
        }
    }
}

proof fn markdown_step_text_only(
    b: Backends,
    w: Work,
    path: Seq<char>,
    root: Seq<char>,
    o: Options,
)
    requires
        text_only(b, w),
    ensures
        text_only(b, markdown_step(w, path, root, o)),
{
    let staged = staged_markdown(w.backends, path, root, o);
    if let Ok(Some(doc)) = staged.answer {
        if w.backends.image_text is Some {
            let kept = Work {
                backends: staged.backends,
                pass: PassText {
                    titles: w.pass.titles.push(TitleText { doc, markdown: true }),
                    ..w.pass
                },
                ..w
            };
            assert(text_only(b, kept));
            flush_titles_text_only(b, kept, o.fail_fast);
        }
    }
}

proof fn file_steps_text_only(
    b: Backends,
    w: Work,
    files: Seq<FoundText>,
    i: nat,
    root: Seq<char>,
    o: Options,
)
    requires
        text_only(b, w),
        forall|k: int| 0 <= k < files.len() ==> (#[trigger] files[k]).kind == DocKind::Markdown,
    ensures
        text_only(b, file_steps(w, files, i, root, o)),
    decreases files.len() - i,
{
    if w.failed is Some || i >= files.len() {
    } else {
        let file = files[i as int];
        let reader = w.backends.reader.after(crate::fs::ReaderCall::Canonicalize(file.path));
        assert(file.kind == DocKind::Markdown);
        if let Ok(path) = w.backends.reader.canonical(file.path) {
            if !w.pass.seen.contains(path) {
                let fresh = Work {
                    backends: Backends { reader, ..w.backends },
                    pass: PassText { seen: w.pass.seen.insert(path), ..w.pass },
                    ..w
                };
                markdown_step_text_only(b, fresh, path, root, o);
            }
        }
        file_steps_text_only(b, file_step(w, file, root, o), files, i + 1, root, o);
    }
}

proof fn root_steps_text_only(
    b: Backends,
    w: Work,
    roots: Seq<Seq<char>>,
    i: nat,
    globs: Seq<Seq<char>>,
    o: Options,
)
    requires
        finds_only_markdown(b.walker),
        text_only(b, w),
    ensures
        text_only(b, root_steps(w, roots, i, globs, o)),
    decreases roots.len() - i,
{
    if w.failed is Some || i >= roots.len() {
    } else {
        let root = roots[i as int];
        if let Ok(canon) = w.backends.reader.canonical(root) {
            let walk = crate::walk::Walk { root: canon, ignore_globs: globs };
            if let Ok(files) = w.backends.walker.found(walk) {
                let calls = w.backends.walker.calls.push(walk);
                assert forall|k: int| 0 <= k < files.len() implies (#[trigger] files[k]).kind
                    == DocKind::Markdown by {
                    assert((b.walker.answers)(calls)->Ok_0[k].kind == DocKind::Markdown);
                }
                let told = Work {
                    backends: Backends {
                        reader: w.backends.reader.after(
                            crate::fs::ReaderCall::Canonicalize(root),
                        ),
                        walker: w.backends.walker.after(walk),
                        progress: w.backends.progress.push(
                            ProgressCall::IncTotal(files.len() as u64),
                        ),
                        ..w.backends
                    },
                    pass: PassText {
                        walked: w.pass.walked.push(canon),
                        report: crate::pipeline::ReportText {
                            scanned: plus(w.pass.report.scanned, files.len()),
                            ..w.pass.report
                        },
                        ..w.pass
                    },
                    ..w
                };
                assert(text_only(b, told));
                file_steps_text_only(b, told, files, 0, canon, o);
            }
        }
        root_steps_text_only(b, root_step(w, root, globs, o), roots, i + 1, globs, o);
    }
}

proof fn prune_steps_text_only(b: Backends, w: Work, paths: Seq<Seq<char>>, i: nat)
    requires
        text_only(b, w),
    ensures
        text_only(b, prune_steps(w, paths, i)),
    decreases paths.len() - i,
{
    if w.failed is Some || i >= paths.len() {
    } else {
        prune_steps_text_only(b, prune_step(w, paths[i as int]), paths, i + 1);
    }
}

/// Errors are only ever recorded for images: while a walker finds only
/// markdown, a run records none, whether or not it is to fail fast, and gives
/// the image embedder nothing to embed. Whatever goes wrong stops the run.
pub proof fn markdown_errors_always_propagate(
    b: Backends,
    roots: Seq<Seq<char>>,
    globs: Seq<Seq<char>>,
    o: Options,
)
    requires
        finds_only_markdown(b.walker),
    ensures
        indexed(b, roots, globs, o).pass.report.errors.len() == 0,
        indexed(b, roots, globs, o).backends.image == b.image,
{
    let start = Work { backends: b, pass: no_pass(), failed: None };
    let checked = guarded(start, o.force);
    assert(text_only(b, checked));
    if checked.failed is None {
        assert(text_only(b, recorded(checked)));
        root_steps_text_only(b, recorded(checked), roots, 0, globs, o);
        let w = root_steps(recorded(checked), roots, 0, globs, o);
        if w.failed is None {
            flush_titles_text_only(b, w, o.fail_fast);
            let titles = flush_titles(w, o.fail_fast);
            let call = StoreCall::PathsForRoots { roots: titles.pass.walked };
            let listed_work = Work {
                backends: Backends {
                    store: titles.backends.store.after(call),
                    ..titles.backends
                },
                ..titles
            };
            if let Ok(paths) = titles.backends.store.list(call) {
                prune_steps_text_only(b, listed_work, paths, 0);
            }
        }
    }
}

} // verus!
