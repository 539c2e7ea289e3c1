//! Where the vectors of a run's documents come from.
use vstd::prelude::*;

use crate::embed::EmbedderModel;
use crate::embed_laws::{chunks_are_embedded_under_their_headings, is_input_for};
use crate::fs::ReaderCall;
use crate::pipeline::{
    advanced, changed_bytes, file_step, file_steps, finish_image, flush_full_titles, flush_images,
    flush_titles, guarded, image_retries, image_retry, image_step, image_writes, indexed,
    markdown_doc, markdown_step, no_pass, paths_of, plus, prune, prune_step, prune_steps, recorded,
    root_step, root_steps, staged_image, title_retries, title_retry, title_writes, titles_of,
    with_image, with_title, written, Backends, Options, PassText, ReportText, TitleText, Work,
};
use crate::progress::ProgressCall;
use crate::store::{ChunkRow, DocRow, StoreCall, StoreModel};
use crate::walk::{DocKind, FoundText, Walk};

verus! {

/// Whether batch `c` of an embedder held `input` at place `k`, and was answered
/// with `vector` at that place.
pub open spec fn answered_at(
    m: EmbedderModel,
    c: int,
    k: int,
    input: Seq<char>,
    vector: Seq<u32>,
) -> bool {
    let answer = (m.answers)(m.calls.take(c + 1));
    &&& 0 <= c < m.calls.len() && 0 <= k < m.calls[c].len()
    &&& m.calls[c][k] == input
    &&& answer is Ok && k < answer->Ok_0.len() && answer->Ok_0[k] == vector
}

/// Whether an embedder gave `vector` for `input`.
pub open spec fn gave(m: EmbedderModel, input: Seq<char>, vector: Seq<u32>) -> bool {
    exists|c: int, k: int| answered_at(m, c, k, input, vector)
}

/// Whether an embedder gave a chunk's vector for the chunk's text under its
/// headings.
pub open spec fn gave_for_text(m: EmbedderModel, chunk: ChunkRow) -> bool {
    chunk.text is Some && exists|input: Seq<char>| #[trigger]
        is_input_for(input, chunk.heading_path, chunk.text->0) && gave(m, input, chunk.vector)
}

/// Whether a chunk's vector is what the embedder for its modality gave for it: for
/// its text under its headings, for the document's path, or for its title.
pub open spec fn is_sourced(chunk: ChunkRow, doc: DocRow, b: Backends) -> bool {
    &&& chunk.modality == "text"@ || chunk.modality == "image"@ || chunk.modality == "text_title"@
    &&& chunk.modality == "text"@ ==> gave_for_text(b.text, chunk)
    &&& chunk.modality == "image"@ ==> b.image is Some && gave(b.image->0, doc.path, chunk.vector)
    &&& chunk.modality == "text_title"@ ==> b.image_text is Some && gave(
        b.image_text->0,
        doc.title,
        chunk.vector,
    )
}

/// Whether every vector of a document is what was given for it.
pub open spec fn all_sourced(doc: DocRow, b: Backends) -> bool {
    forall|k: int| 0 <= k < doc.chunks.len() ==> is_sourced(#[trigger] doc.chunks[k], doc, b)
}

/// Whether every vector that the calls on a store from `n` on write is what was
/// given for it.
pub open spec fn writes_sourced(store: StoreModel, n: nat, b: Backends) -> bool {
    forall|k: int| n <= k < store.calls.len() ==> match #[trigger] store.calls[k] {
        StoreCall::ReplaceDocument { doc } => all_sourced(doc, b),
        _ => true,
    }
}

/// Whether an embedder was only given more batches.
spec fn grew(a: EmbedderModel, b: EmbedderModel) -> bool {
    &&& b.answers == a.answers
    &&& a.calls.len() <= b.calls.len()
    &&& b.calls.take(a.calls.len() as int) == a.calls
}

spec fn grew_opt(a: Option<EmbedderModel>, b: Option<EmbedderModel>) -> bool {
    (a is Some <==> b is Some) && (a is Some ==> grew(a->0, b->0))
}

/// Whether the embedders of a run were only given more batches.
spec fn grown(a: Backends, b: Backends) -> bool {
    grew(a.text, b.text) && grew_opt(a.image, b.image) && grew_opt(a.image_text, b.image_text)
}

proof fn still_gave(a: EmbedderModel, b: EmbedderModel, input: Seq<char>, vector: Seq<u32>)
    requires
        grew(a, b),
        gave(a, input, vector),
    ensures
        gave(b, input, vector),
{
    let (c, k) = choose|c: int, k: int| answered_at(a, c, k, input, vector);
    assert(b.calls.take(a.calls.len() as int)[c] == b.calls[c]);
    assert(b.calls.take(c + 1) =~= a.calls.take(c + 1)) by {
        assert forall|i: int| 0 <= i < c + 1 implies b.calls.take(c + 1)[i] == #[trigger] a.calls.take(
            c + 1,
        )[i] by {
            assert(b.calls.take(a.calls.len() as int)[i] == b.calls[i]);
        }
    }
    assert(answered_at(b, c, k, input, vector));
}

proof fn still_sourced(doc: DocRow, a: Backends, b: Backends)
    requires
        grown(a, b),
        all_sourced(doc, a),
    ensures
        all_sourced(doc, b),
{
    assert forall|k: int| 0 <= k < doc.chunks.len() implies is_sourced(
        #[trigger] doc.chunks[k],
        doc,
        b,
    ) by {
        let chunk = doc.chunks[k];
        assert(is_sourced(chunk, doc, a));
        if chunk.modality == "text"@ {
            let input = choose|input: Seq<char>| #[trigger]
                is_input_for(input, chunk.heading_path, chunk.text->0) && gave(
                    a.text,
                    input,
                    chunk.vector,
                );
            still_gave(a.text, b.text, input, chunk.vector);
            assert(gave_for_text(b.text, chunk));
        }
        if chunk.modality == "image"@ {
            still_gave(a.image->0, b.image->0, doc.path, chunk.vector);
        }
        if chunk.modality == "text_title"@ {
            still_gave(a.image_text->0, b.image_text->0, doc.title, chunk.vector);
        }
    }
}

proof fn grown_further(a: Backends, b: Backends, c: Backends)
    requires
        grown(a, b),
        grown(b, c),
    ensures
        grown(a, c),
{
    grew_further(a.text, b.text, c.text);
    if a.image is Some {
        grew_further(a.image->0, b.image->0, c.image->0);
    }
    if a.image_text is Some {
        grew_further(a.image_text->0, b.image_text->0, c.image_text->0);
    }
}

proof fn grew_further(a: EmbedderModel, b: EmbedderModel, c: EmbedderModel)
    requires
        grew(a, b),
        grew(b, c),
    ensures
        grew(a, c),
{
    assert(c.calls.take(a.calls.len() as int) =~= a.calls) by {
        assert forall|i: int| 0 <= i < a.calls.len() implies c.calls.take(a.calls.len() as int)[i]
            == #[trigger] a.calls[i] by {
            assert(c.calls.take(b.calls.len() as int)[i] == c.calls[i]);
            assert(b.calls.take(a.calls.len() as int)[i] == b.calls[i]);
        }
    }
}

proof fn grew_by_one(a: EmbedderModel, inputs: Seq<Seq<char>>)
    ensures
        grew(a, a),
        grew(a, a.after(inputs)),
{
    assert(a.calls.take(a.calls.len() as int) =~= a.calls);
    assert(a.after(inputs).calls.take(a.calls.len() as int) =~= a.calls);
}

proof fn grown_not(a: Backends)
    ensures
        grown(a, a),
{
    grew_by_one(a.text, seq![]);
    if a.image is Some {
        grew_by_one(a.image->0, seq![]);
    }
    if a.image_text is Some {
        grew_by_one(a.image_text->0, seq![]);
    }
}

/// An embedder gave what it answered its last batch with.
proof fn gave_last(m: EmbedderModel, inputs: Seq<Seq<char>>, k: int)
    requires
        m.embedded(inputs) is Ok,
        0 <= k < inputs.len(),
        k < m.embedded(inputs)->Ok_0.len(),
    ensures
        gave(m.after(inputs), inputs[k], m.embedded(inputs)->Ok_0[k]),
{
    let a = m.after(inputs);
    let c = m.calls.len() as int;
    assert(a.calls.take(c + 1) =~= a.calls);
    assert(answered_at(a, c, k, inputs[k], m.embedded(inputs)->Ok_0[k]));
}

/// What holds of a run at each point, whose store had `n` calls at its start.
spec fn sourced(n: nat, w: Work) -> bool {
    &&& n <= w.backends.store.calls.len()
    &&& writes_sourced(w.backends.store, n, w.backends)
    &&& titles_sourced(w.pass.titles, w.backends)
    &&& no_chunks(w.pass.images)
}

spec fn titles_sourced(batch: Seq<TitleText>, b: Backends) -> bool {
    forall|k: int| 0 <= k < batch.len() ==> all_sourced((#[trigger] batch[k]).doc, b)
}

spec fn no_chunks(batch: Seq<DocRow>) -> bool {
    forall|k: int| 0 <= k < batch.len() ==> (#[trigger] batch[k]).chunks.len() == 0
}

/// A run stays sourced where its embedders are only given more, no document is
/// written and none waits that did not wait before.
proof fn stays_sourced(n: nat, w: Work, r: Work)
    requires
        sourced(n, w),
        grown(w.backends, r.backends),
        r.backends.store == w.backends.store,
        r.pass.titles == w.pass.titles || r.pass.titles.len() == 0,
        r.pass.images == w.pass.images || r.pass.images.len() == 0,
    ensures
        sourced(n, r),
{
    assert forall|k: int| n <= k < r.backends.store.calls.len() implies match
        #[trigger] r.backends.store.calls[k] {
        StoreCall::ReplaceDocument { doc } => all_sourced(doc, r.backends),
        _ => true,
    } by {
        if let StoreCall::ReplaceDocument { doc } = r.backends.store.calls[k] {
            still_sourced(doc, w.backends, r.backends);
        }
    }
    titles_stay_sourced(r.pass.titles, w.backends, r.backends);
}

proof fn titles_stay_sourced(batch: Seq<TitleText>, a: Backends, b: Backends)
    requires
        titles_sourced(batch, a),
        grown(a, b),
    ensures
        titles_sourced(batch, b),
{
    assert forall|k: int| 0 <= k < batch.len() implies all_sourced(
        (#[trigger] batch[k]).doc,
        b,
    ) by {
        still_sourced(batch[k].doc, a, b);
    }
}

proof fn modalities_differ()
    ensures
        "text"@ != "image"@,
        "text"@ != "text_title"@,
        "image"@ != "text_title"@,
{
    reveal_strlit("text");
    reveal_strlit("image");
    reveal_strlit("text_title");
    assert("text"@.len() == 4 && "image"@.len() == 5 && "text_title"@.len() == 10);
}

/// Another call that writes no document leaves a run sourced.
proof fn call_sourced(n: nat, w: Work, r: Work, call: StoreCall)
    requires
        sourced(n, w),
        !(call is ReplaceDocument),
        r.backends.store == w.backends.store.after(call),
        r.backends.text == w.backends.text,
        r.backends.image == w.backends.image,
        r.backends.image_text == w.backends.image_text,
        r.pass.titles == w.pass.titles,
        r.pass.images == w.pass.images,
    ensures
        sourced(n, r),
        grown(w.backends, r.backends),
{
    grown_not(w.backends);
    assert forall|k: int| n <= k < r.backends.store.calls.len() implies match
        #[trigger] r.backends.store.calls[k] {
        StoreCall::ReplaceDocument { doc } => all_sourced(doc, r.backends),
        _ => true,
    } by {
        if k < w.backends.store.calls.len() {
            assert(w.backends.store.calls[k] == r.backends.store.calls[k]);
            if let StoreCall::ReplaceDocument { doc } = w.backends.store.calls[k] {
                still_sourced(doc, w.backends, r.backends);
            }
        }
    }
    titles_stay_sourced(r.pass.titles, w.backends, r.backends);
}

proof fn written_sourced(n: nat, w: Work, doc: DocRow)
    requires
        sourced(n, w),
        all_sourced(doc, w.backends),
    ensures
        sourced(n, written(w, doc)),
        grown(w.backends, written(w, doc).backends),
{
    let r = written(w, doc);
    grown_not(w.backends);
    assert(grown(w.backends, r.backends));
    assert forall|k: int| n <= k < r.backends.store.calls.len() implies match
        #[trigger] r.backends.store.calls[k] {
        StoreCall::ReplaceDocument { doc } => all_sourced(doc, r.backends),
        _ => true,
    } by {
        if k < w.backends.store.calls.len() {
            assert(w.backends.store.calls[k] == r.backends.store.calls[k]);
        }
        if let StoreCall::ReplaceDocument { doc } = r.backends.store.calls[k] {
            still_sourced(doc, w.backends, r.backends);
        }
    }
    titles_stay_sourced(r.pass.titles, w.backends, r.backends);
}

proof fn titled_is_sourced(doc: DocRow, vector: Seq<u32>, b: Backends)
    requires
        all_sourced(doc, b),
        b.image_text is Some,
        gave(b.image_text->0, doc.title, vector),
    ensures
        all_sourced(with_title(doc, vector), b),
{
    modalities_differ();
    let r = with_title(doc, vector);
    assert forall|k: int| 0 <= k < r.chunks.len() implies is_sourced(
        #[trigger] r.chunks[k],
        r,
        b,
    ) by {
        if k < doc.chunks.len() {
            assert(r.chunks[k] == doc.chunks[k]);
            assert(is_sourced(doc.chunks[k], doc, b));
        }
    }
}

proof fn imaged_is_sourced(doc: DocRow, vector: Seq<u32>, b: Backends)
    requires
        b.image is Some,
        gave(b.image->0, doc.path, vector),
    ensures
        all_sourced(with_image(doc, vector), b),
{
    modalities_differ();
}

/// Whether each title of a batch was given its vector, as far as there is one.
spec fn titles_given(b: Backends, batch: Seq<TitleText>, vectors: Seq<Seq<u32>>) -> bool {
    b.image_text is Some && forall|k: int|
        0 <= k < batch.len() && k < vectors.len() ==> gave(
            b.image_text->0,
            (#[trigger] batch[k]).doc.title,
            vectors[k],
        )
}

proof fn title_writes_sourced(
    n: nat,
    w: Work,
    batch: Seq<TitleText>,
    vectors: Seq<Seq<u32>>,
    i: nat,
)
    requires
        sourced(n, w),
        titles_sourced(batch, w.backends),
        titles_given(w.backends, batch, vectors),
    ensures
        sourced(n, title_writes(w, batch, vectors, i)),
        grown(w.backends, title_writes(w, batch, vectors, i).backends),
    decreases batch.len() - i,
{
    grown_not(w.backends);
    if w.failed is Some || i >= batch.len() || i >= vectors.len() {
    } else {
        let doc = batch[i as int].doc;
        titled_is_sourced(doc, vectors[i as int], w.backends);
        let titled = with_title(doc, vectors[i as int]);
        let next = written(w, titled);
        written_sourced(n, w, titled);
        titles_stay_sourced(batch, w.backends, next.backends);
        assert(titles_given(next.backends, batch, vectors));
        title_writes_sourced(n, next, batch, vectors, i + 1);
        grown_further(
            w.backends,
            next.backends,
            title_writes(next, batch, vectors, i + 1).backends,
        );
    }
}

proof fn title_retry_sourced(n: nat, w: Work, item: TitleText, fail_fast: bool)
    requires
        sourced(n, w),
        all_sourced(item.doc, w.backends),
    ensures
        sourced(n, title_retry(w, item, fail_fast)),
        grown(w.backends, title_retry(w, item, fail_fast).backends),
{
    grown_not(w.backends);
    let r = title_retry(w, item, fail_fast);
    if let Some(m) = w.backends.image_text {
        let inputs = seq![item.doc.title];
        let asked = Work {
            backends: Backends { image_text: Some(m.after(inputs)), ..w.backends },
            ..w
        };
        grew_by_one(m, inputs);
        assert(grown(w.backends, asked.backends));
        stays_sourced(n, w, asked);
        if m.embedded(inputs) is Ok && m.embedded(inputs)->Ok_0.len() > 0 {
            let vectors = m.embedded(inputs)->Ok_0;
            gave_last(m, inputs, 0);
            still_sourced(item.doc, w.backends, asked.backends);
            titled_is_sourced(item.doc, vectors[0], asked.backends);
            written_sourced(n, asked, with_title(item.doc, vectors[0]));
            grown_further(w.backends, asked.backends, r.backends);
        } else {
            assert(r.backends == asked.backends);
            grown_not(asked.backends);
            stays_sourced(n, asked, r);
        }
    } else {
        stays_sourced(n, w, r);
    }
}

proof fn title_retries_sourced(n: nat, w: Work, batch: Seq<TitleText>, i: nat, fail_fast: bool)
    requires
        sourced(n, w),
        titles_sourced(batch, w.backends),
    ensures
        sourced(n, title_retries(w, batch, i, fail_fast)),
        grown(w.backends, title_retries(w, batch, i, fail_fast).backends),
    decreases batch.len() - i,
{
    grown_not(w.backends);
    if w.failed is Some || i >= batch.len() {
    } else {
        let next = title_retry(w, batch[i as int], fail_fast);
        title_retry_sourced(n, w, batch[i as int], fail_fast);
        titles_stay_sourced(batch, w.backends, next.backends);
        title_retries_sourced(n, next, batch, i + 1, fail_fast);
        grown_further(
            w.backends,
            next.backends,
            title_retries(next, batch, i + 1, fail_fast).backends,
        );
    }
}

proof fn flush_titles_sourced(n: nat, w: Work, fail_fast: bool)
    requires
        sourced(n, w),
    ensures
        sourced(n, flush_titles(w, fail_fast)),
        grown(w.backends, flush_titles(w, fail_fast).backends),
{
    let batch = w.pass.titles;
    let r = flush_titles(w, fail_fast);
    grown_not(w.backends);
    if batch.len() > 0 {
        if let Some(m) = w.backends.image_text {
            let inputs = titles_of(batch);
            let asked = Work {
                backends: Backends { image_text: Some(m.after(inputs)), ..w.backends },
                pass: PassText { titles: seq![], ..w.pass },
                ..w
            };
            grew_by_one(m, inputs);
            assert(grown(w.backends, asked.backends));
            stays_sourced(n, w, asked);
            titles_stay_sourced(batch, w.backends, asked.backends);
            match m.embedded(inputs) {
                Ok(vectors) => {
                    assert forall|k: int| 0 <= k < batch.len() && k < vectors.len() implies gave(
                        asked.backends.image_text->0,
                        (#[trigger] batch[k]).doc.title,
                        vectors[k],
                    ) by {
                        gave_last(m, inputs, k);
                    }
                    title_writes_sourced(n, asked, batch, vectors, 0);
                },
                Err(_) => title_retries_sourced(n, asked, batch, 0, fail_fast),
            }
            grown_further(w.backends, asked.backends, r.backends);
        } else {
            stays_sourced(n, w, r);
        }
    }
}

proof fn flush_full_titles_sourced(n: nat, w: Work, o: Options)
    requires
        sourced(n, w),
    ensures
        sourced(n, flush_full_titles(w, o)),
        grown(w.backends, flush_full_titles(w, o).backends),
{
    grown_not(w.backends);
    flush_titles_sourced(n, w, o.fail_fast);
}

proof fn finish_image_sourced(n: nat, w: Work, doc: DocRow, vector: Seq<u32>, o: Options)
    requires
        sourced(n, w),
        w.backends.image is Some,
        gave(w.backends.image->0, doc.path, vector),
    ensures
        sourced(n, flush_full_titles(finish_image(w, doc, vector), o)),
        grown(w.backends, flush_full_titles(finish_image(w, doc, vector), o).backends),
{
    let done = finish_image(w, doc, vector);
    imaged_is_sourced(doc, vector, w.backends);
    grown_not(w.backends);
    if w.backends.image_text is Some {
        assert forall|k: int| 0 <= k < done.pass.titles.len() implies all_sourced(
            (#[trigger] done.pass.titles[k]).doc,
            done.backends,
        ) by {
            if k < w.pass.titles.len() {
                assert(done.pass.titles[k] == w.pass.titles[k]);
            }
        }
        assert(sourced(n, done));
    } else {
        written_sourced(n, w, with_image(doc, vector));
    }
    flush_full_titles_sourced(n, done, o);
    grown_further(w.backends, done.backends, flush_full_titles(done, o).backends);
}

/// Whether each image of a batch was given its vector, as far as there is one.
spec fn images_given(b: Backends, batch: Seq<DocRow>, vectors: Seq<Seq<u32>>) -> bool {
    b.image is Some && forall|k: int|
        0 <= k < batch.len() && k < vectors.len() ==> gave(
            b.image->0,
            (#[trigger] batch[k]).path,
            vectors[k],
        )
}

proof fn image_writes_sourced(
    n: nat,
    w: Work,
    batch: Seq<DocRow>,
    vectors: Seq<Seq<u32>>,
    i: nat,
    o: Options,
)
    requires
        sourced(n, w),
        images_given(w.backends, batch, vectors),
    ensures
        sourced(n, image_writes(w, batch, vectors, i, o)),
        grown(w.backends, image_writes(w, batch, vectors, i, o).backends),
    decreases batch.len() - i,
{
    grown_not(w.backends);
    if w.failed is Some || i >= batch.len() || i >= vectors.len() {
    } else {
        assert(gave(w.backends.image->0, batch[i as int].path, vectors[i as int]));
        finish_image_sourced(n, w, batch[i as int], vectors[i as int], o);
        let next = flush_full_titles(finish_image(w, batch[i as int], vectors[i as int]), o);
        assert forall|k: int| 0 <= k < batch.len() && k < vectors.len() implies gave(
            next.backends.image->0,
            (#[trigger] batch[k]).path,
            vectors[k],
        ) by {
            still_gave(w.backends.image->0, next.backends.image->0, batch[k].path, vectors[k]);
        }
        image_writes_sourced(n, next, batch, vectors, i + 1, o);
        grown_further(
            w.backends,
            next.backends,
            image_writes(next, batch, vectors, i + 1, o).backends,
        );
    }
}

proof fn image_retry_sourced(n: nat, w: Work, doc: DocRow, o: Options)
    requires
        sourced(n, w),
    ensures
        sourced(n, image_retry(w, doc, o)),
        grown(w.backends, image_retry(w, doc, o).backends),
{
    let r = image_retry(w, doc, o);
    grown_not(w.backends);
    if let Some(m) = w.backends.image {
        let inputs = seq![doc.path];
        let asked = Work {
            backends: Backends { image: Some(m.after(inputs)), ..w.backends },
            ..w
        };
        grew_by_one(m, inputs);
        assert(grown(w.backends, asked.backends));
        stays_sourced(n, w, asked);
        if m.embedded(inputs) is Ok && m.embedded(inputs)->Ok_0.len() > 0 {
            let vectors = m.embedded(inputs)->Ok_0;
            gave_last(m, inputs, 0);
            finish_image_sourced(n, asked, doc, vectors[0], o);
            grown_further(w.backends, asked.backends, r.backends);
        } else {
            assert(r.backends == asked.backends);
            grown_not(asked.backends);
            stays_sourced(n, asked, r);
        }
    } else {
        stays_sourced(n, w, r);
    }
}

proof fn image_retries_sourced(n: nat, w: Work, batch: Seq<DocRow>, i: nat, o: Options)
    requires
        sourced(n, w),
    ensures
        sourced(n, image_retries(w, batch, i, o)),
        grown(w.backends, image_retries(w, batch, i, o).backends),
    decreases batch.len() - i,
{
    grown_not(w.backends);
    if w.failed is Some || i >= batch.len() {
    } else {
        let next = image_retry(w, batch[i as int], o);
        image_retry_sourced(n, w, batch[i as int], o);
        image_retries_sourced(n, next, batch, i + 1, o);
        grown_further(w.backends, next.backends, image_retries(next, batch, i + 1, o).backends);
    }
}

proof fn flush_images_sourced(n: nat, w: Work, o: Options)
    requires
        sourced(n, w),
    ensures
        sourced(n, flush_images(w, o)),
        grown(w.backends, flush_images(w, o).backends),
{
    let batch = w.pass.images;
    let r = flush_images(w, o);
    grown_not(w.backends);
    if batch.len() > 0 {
        if let Some(m) = w.backends.image {
            let inputs = paths_of(batch);
            let asked = Work {
                backends: Backends { image: Some(m.after(inputs)), ..w.backends },
                pass: PassText { images: seq![], ..w.pass },
                ..w
            };
            grew_by_one(m, inputs);
            assert(grown(w.backends, asked.backends));
            stays_sourced(n, w, asked);
            match m.embedded(inputs) {
                Ok(vectors) => {
                    assert forall|k: int| 0 <= k < batch.len() && k < vectors.len() implies gave(
                        asked.backends.image->0,
                        (#[trigger] batch[k]).path,
                        vectors[k],
                    ) by {
                        gave_last(m, inputs, k);
                    }
                    image_writes_sourced(n, asked, batch, vectors, 0, o);
                },
                Err(_) => image_retries_sourced(n, asked, batch, 0, o),
            }
            grown_further(w.backends, asked.backends, r.backends);
        } else {
            stays_sourced(n, w, r);
        }
    }
}

/// Asking whether a file changed leaves a run sourced.
proof fn read_sourced(n: nat, w: Work, path: Seq<char>, force: bool)
    requires
        sourced(n, w),
    ensures
        ({
            let r = Work { backends: changed_bytes(w.backends, path, force).backends, ..w };
            sourced(n, r) && grown(w.backends, r.backends)
        }),
{
    let r = Work { backends: changed_bytes(w.backends, path, force).backends, ..w };
    grown_not(w.backends);
    if r.backends.store == w.backends.store {
        stays_sourced(n, w, r);
    } else {
        call_sourced(n, w, r, StoreCall::DocumentHash { path });
    }
}

proof fn image_step_sourced(n: nat, w: Work, path: Seq<char>, root: Seq<char>, o: Options)
    requires
        sourced(n, w),
    ensures
        sourced(n, image_step(w, path, root, o)),
        grown(w.backends, image_step(w, path, root, o).backends),
{
    let r = image_step(w, path, root, o);
    let staged = staged_image(w.backends, path, root, o.force);
    let looked = Work {
        backends: changed_bytes(w.backends, path, o.force).backends,
        ..w
    };
    read_sourced(n, w, path, o.force);
    let read = Work { backends: staged.backends, ..w };
    grown_not(looked.backends);
    assert(grown(looked.backends, read.backends));
    stays_sourced(n, looked, read);
    grown_further(w.backends, looked.backends, read.backends);
    grown_not(read.backends);
    if let Ok(Some(doc)) = staged.answer {
        let kept = Work {
            pass: PassText { images: w.pass.images.push(doc), ..w.pass },
            ..read
        };
        assert(doc.chunks.len() == 0);
        assert forall|k: int| 0 <= k < kept.pass.images.len() implies (
        #[trigger] kept.pass.images[k]).chunks.len() == 0 by {
            if k < w.pass.images.len() {
                assert(kept.pass.images[k] == w.pass.images[k]);
            }
        }
        assert(sourced(n, kept));
        flush_images_sourced(n, kept, o);
        grown_not(kept.backends);
        grown_further(w.backends, kept.backends, r.backends);
    } else {
        stays_sourced(n, read, r);
    }
}

/// A markdown document's vectors are what the text embedder gave for its chunks.
proof fn markdown_is_sourced(
    b: Backends,
    path: Seq<char>,
    root: Seq<char>,
    bytes: Seq<u8>,
    o: Options,
)
    ensures
        ({
            let r = markdown_doc(b, path, root, bytes, o);
            &&& grown(b, r.backends)
            &&& r.answer is Ok ==> all_sourced(r.answer->Ok_0, r.backends)
        }),
{
    let r = markdown_doc(b, path, root, bytes, o);
    chunks_are_embedded_under_their_headings(b, path, root, bytes, o);
    let batch = r.backends.text.calls.last();
    modalities_differ();
    grown_not(b);
    grew_by_one(b.text, batch);
    assert(r.backends.text == b.text.after(batch));
    if r.answer is Ok {
        let doc = r.answer->Ok_0;
        assert forall|k: int| 0 <= k < doc.chunks.len() implies is_sourced(
            #[trigger] doc.chunks[k],
            doc,
            r.backends,
        ) by {
            gave_last(b.text, batch, k);
            let chunk = doc.chunks[k];
            assert(is_input_for(batch[k], chunk.heading_path, chunk.text->0));
            assert(gave_for_text(r.backends.text, chunk));
        }
    }
}

proof fn markdown_step_sourced(
    n: nat,
    w: Work,
    path: Seq<char>,
    root: Seq<char>,
    o: Options,
)
    requires
        sourced(n, w),
    ensures
        sourced(n, markdown_step(w, path, root, o)),
        grown(w.backends, markdown_step(w, path, root, o).backends),
{
    let r = markdown_step(w, path, root, o);
    let changed = changed_bytes(w.backends, path, o.force);
    let looked = Work { backends: changed.backends, ..w };
    read_sourced(n, w, path, o.force);
    grown_not(looked.backends);
    if let Ok(Some(bytes)) = changed.answer {
        let made = markdown_doc(changed.backends, path, root, bytes, o);
        markdown_is_sourced(changed.backends, path, root, bytes, o);
        let read = Work { backends: made.backends, ..w };
        stays_sourced(n, looked, read);
        grown_further(w.backends, looked.backends, read.backends);
        grown_not(read.backends);
        if let Ok(doc) = made.answer {
            if w.backends.image_text is Some {
                let kept = Work {
                    pass: PassText {
                        titles: w.pass.titles.push(TitleText { doc, markdown: true }),
                        ..w.pass
                    },
                    ..read
                };
                assert forall|k: int| 0 <= k < kept.pass.titles.len() implies all_sourced(
                    (#[trigger] kept.pass.titles[k]).doc,
                    kept.backends,
                ) by {
                    if k < w.pass.titles.len() {
                        assert(kept.pass.titles[k] == read.pass.titles[k]);
                    }
                }
                assert(sourced(n, kept));
                flush_full_titles_sourced(n, kept, o);
                grown_further(w.backends, kept.backends, r.backends);
            } else {
                written_sourced(n, read, doc);
                grown_further(w.backends, read.backends, r.backends);
            }
        } else {
            stays_sourced(n, read, r);
        }
    } else {
        stays_sourced(n, looked, r);
    }
}

proof fn file_step_sourced(n: nat, w: Work, file: FoundText, root: Seq<char>, o: Options)
    requires
        sourced(n, w),
    ensures
        sourced(n, file_step(w, file, root, o)),
{
    let r = file_step(w, file, root, o);
    let reader = w.backends.reader.after(ReaderCall::Canonicalize(file.path));
    grown_not(w.backends);
    let canon = w.backends.reader.canonical(file.path);
    if canon is Ok && !w.pass.seen.contains(canon->Ok_0) {
        let path = canon->Ok_0;
        let fresh = Work {
            backends: Backends { reader, ..w.backends },
            pass: PassText { seen: w.pass.seen.insert(path), ..w.pass },
            ..w
        };
        stays_sourced(n, w, fresh);
        let done = match file.kind {
            DocKind::Markdown => markdown_step(fresh, path, root, o),
            DocKind::Image => image_step(fresh, path, root, o),
        };
        match file.kind {
            DocKind::Markdown => markdown_step_sourced(n, fresh, path, root, o),
            DocKind::Image => image_step_sourced(n, fresh, path, root, o),
        }
        grown_not(done.backends);
        stays_sourced(n, done, r);
    } else {
        stays_sourced(n, w, r);
    }
}

proof fn file_steps_sourced(
    n: nat,
    w: Work,
    files: Seq<FoundText>,
    i: nat,
    root: Seq<char>,
    o: Options,
)
    requires
        sourced(n, w),
    ensures
        sourced(n, file_steps(w, files, i, root, o)),
    decreases files.len() - i,
{
    if w.failed is Some || i >= files.len() {
    } else {
        file_step_sourced(n, w, files[i as int], root, o);
        file_steps_sourced(n, file_step(w, files[i as int], root, o), files, i + 1, root, o);
    }
}

proof fn root_step_sourced(
    n: nat,
    w: Work,
    root: Seq<char>,
    globs: Seq<Seq<char>>,
    o: Options,
)
    requires
        sourced(n, w),
    ensures
        sourced(n, root_step(w, root, globs, o)),
{
    let r = root_step(w, root, globs, o);
    grown_not(w.backends);
    let canon = w.backends.reader.canonical(root);
    let walk = Walk { root: canon->Ok_0, ignore_globs: globs };
    let found = w.backends.walker.found(walk);
    if canon is Ok && found is Ok {
        let files = found->Ok_0;
        let told = advanced(
            Work {
                backends: Backends {
                    reader: w.backends.reader.after(ReaderCall::Canonicalize(root)),
                    walker: w.backends.walker.after(walk),
                    ..w.backends
                },
                pass: PassText {
                    walked: w.pass.walked.push(canon->Ok_0),
                    report: ReportText {
                        scanned: plus(w.pass.report.scanned, files.len()),
                        ..w.pass.report
                    },
                    ..w.pass
                },
                ..w
            },
            ProgressCall::IncTotal(files.len() as u64),
        );
        stays_sourced(n, w, told);
        file_steps_sourced(n, told, files, 0, canon->Ok_0, o);
    } else {
        stays_sourced(n, w, r);
    }
}

proof fn root_steps_sourced(
    n: nat,
    w: Work,
    roots: Seq<Seq<char>>,
    i: nat,
    globs: Seq<Seq<char>>,
    o: Options,
)
    requires
        sourced(n, w),
    ensures
        sourced(n, root_steps(w, roots, i, globs, o)),
    decreases roots.len() - i,
{
    if w.failed is Some || i >= roots.len() {
    } else {
        root_step_sourced(n, w, roots[i as int], globs, o);
        root_steps_sourced(n, root_step(w, roots[i as int], globs, o), roots, i + 1, globs, o);
    }
}

proof fn prune_steps_sourced(n: nat, w: Work, paths: Seq<Seq<char>>, i: nat)
    requires
        sourced(n, w),
    ensures
        sourced(n, prune_steps(w, paths, i)),
    decreases paths.len() - i,
{
    if w.failed is Some || i >= paths.len() {
    } else {
        let path = paths[i as int];
        let next = prune_step(w, path);
        if !w.pass.seen.contains(path) {
            call_sourced(n, w, next, StoreCall::DeleteDocument { path });
        }
        prune_steps_sourced(n, next, paths, i + 1);
    }
}

/// Every vector that a run writes is what an embedder gave it for the very chunk
/// it is written with: for a chunk of text the text embedder, for the heading
/// trail, a line feed and the whole text, or the text alone without a trail; for
/// an image the image embedder, for its path; for a title the title embedder, for
/// the title.
pub proof fn every_vector_is_that_of_its_chunk(
    b: Backends,
    roots: Seq<Seq<char>>,
    globs: Seq<Seq<char>>,
    o: Options,
)
    ensures
        ({
            let r = indexed(b, roots, globs, o).backends;
            writes_sourced(r.store, b.store.calls.len(), r)
        }),
{
    let n = b.store.calls.len();
    let start = Work { backends: b, pass: no_pass(), failed: None };
    assert(sourced(n, start));
    let checked = guarded(start, o.force);
    assert(sourced(n, checked));
    let r = indexed(b, roots, globs, o);
    if checked.failed is None {
        assert(sourced(n, recorded(checked)));
        root_steps_sourced(n, recorded(checked), roots, 0, globs, o);
        let walked = root_steps(recorded(checked), roots, 0, globs, o);
        if walked.failed is None {
            flush_images_sourced(n, walked, o);
            let images = flush_images(walked, o);
            flush_titles_sourced(n, images, o.fail_fast);
            let titles = flush_titles(images, o.fail_fast);
            let call = StoreCall::PathsForRoots { roots: titles.pass.walked };
            let listed = Work {
                backends: Backends {
                    store: titles.backends.store.after(call),
                    ..titles.backends
                },
                ..titles
            };
            call_sourced(n, titles, listed, call);
            if let Ok(paths) = titles.backends.store.list(call) {
                prune_steps_sourced(n, listed, paths, 0);
            }
            if images.failed is None && titles.failed is None && prune(titles).failed is None {
                grown_not(prune(titles).backends);
                stays_sourced(n, prune(titles), r);
            }
        }
    }
}

} // verus!
