//! What a failing image costs an indexing run: itself, and nothing else.
use vstd::prelude::*;

use crate::embed::EmbedderModel;
use crate::fs::{ReaderCall, ReaderModel};
use crate::index_laws::answers_in_full;
use crate::pipeline::{
    advanced, file_step, file_steps, finish_image, flush_full_titles, flush_images, flush_titles,
    guarded, image_retries, image_retry, image_step, image_writes, indexed, markdown_step, no_pass,
    paths_of, plus, prune_step, prune_steps, recorded, root_step, root_steps, staged_image,
    staged_markdown, title_retries, title_retry, title_writes, titles_of, with_image, with_title,
    written, Backends, ErrorText, Options, PassText, ReportText, TitleText, Work,
};
use crate::progress::ProgressCall;
use crate::store::{DocRow, StoreCall, StoreModel};
use crate::walk::{DocKind, FoundText, Walk, WalkerModel};

verus! {

/// Whether a store takes whatever is written.
pub open spec fn takes_writes(store: StoreModel) -> bool {
    forall|calls: Seq<StoreCall>| (#[trigger] (store.dones)(calls)) is Ok
}

/// The batches of one input each, for the first `n` inputs.
pub open spec fn lone_batches(inputs: Seq<Seq<char>>, n: nat) -> Seq<Seq<Seq<char>>> {
    Seq::new(n, |j: int| seq![inputs[j]])
}

/// What an embedder answers for the input at `k`, where the inputs are given to
/// it one at a time.
pub open spec fn lone_answer(m: EmbedderModel, inputs: Seq<Seq<char>>, k: int) -> Result<
    Seq<Seq<u32>>,
    Seq<char>,
> {
    (m.answers)(m.calls + lone_batches(inputs, (k + 1) as nat))
}

/// Whether each of the lone inputs that is answered gets a vector.
pub open spec fn lone_vectors(m: EmbedderModel, inputs: Seq<Seq<char>>) -> bool {
    forall|k: int|
        0 <= k < inputs.len() && (#[trigger] lone_answer(m, inputs, k)) is Ok ==> lone_answer(
            m,
            inputs,
            k,
        )->Ok_0.len() > 0
}

/// The errors of those of the first `n` lone inputs that fail.
pub open spec fn lone_errors(
    m: EmbedderModel,
    inputs: Seq<Seq<char>>,
    paths: Seq<Seq<char>>,
    n: nat,
) -> Seq<ErrorText>
    decreases n,
{
    if n == 0 {
        seq![]
    } else {
        let before = lone_errors(m, inputs, paths, (n - 1) as nat);
        match lone_answer(m, inputs, n - 1) {
            Ok(_) => before,
            Err(message) => before.push(ErrorText { path: paths[n - 1], message }),
        }
    }
}

/// The store calls that write those of the first `n` documents that do not
/// fail; `docs[k]` makes the document at `k` from its vector.
pub open spec fn lone_writes(
    m: EmbedderModel,
    inputs: Seq<Seq<char>>,
    docs: spec_fn(int, Seq<u32>) -> DocRow,
    n: nat,
) -> Seq<StoreCall>
    decreases n,
{
    if n == 0 {
        seq![]
    } else {
        let before = lone_writes(m, inputs, docs, (n - 1) as nat);
        match lone_answer(m, inputs, n - 1) {
            Ok(vectors) => before.push(
                StoreCall::ReplaceDocument { doc: docs(n - 1, vectors[0]) },
            ),
            Err(_) => before,
        }
    }
}

/// An embedder that was given the first `i` inputs one at a time answers the
/// next one as a lone input.
proof fn next_lone_batch(m: EmbedderModel, now: EmbedderModel, inputs: Seq<Seq<char>>, i: nat)
    requires
        i < inputs.len(),
        now == (EmbedderModel { calls: m.calls + lone_batches(inputs, i), ..m }),
    ensures
        now.embedded(seq![inputs[i as int]]) == lone_answer(m, inputs, i as int),
        now.after(seq![inputs[i as int]]) == (EmbedderModel {
            calls: m.calls + lone_batches(inputs, i + 1),
            ..m
        }),
{
    assert(now.calls.push(seq![inputs[i as int]]) =~= m.calls + lone_batches(inputs, i + 1));
}

/// How the images of a batch come out, one at a time.
pub open spec fn image_of(batch: Seq<DocRow>) -> spec_fn(int, Seq<u32>) -> DocRow {
    |k: int, vector: Seq<u32>| with_image(batch[k], vector)
}

/// How the documents of a batch come out, one title at a time.
pub open spec fn titled(batch: Seq<TitleText>) -> spec_fn(int, Seq<u32>) -> DocRow {
    |k: int, vector: Seq<u32>| with_title(batch[k].doc, vector)
}

/// The paths of some documents that wait for a title.
pub open spec fn title_paths(batch: Seq<TitleText>) -> Seq<Seq<char>> {
    Seq::new(batch.len(), |i: int| batch[i].doc.path)
}

proof fn image_retries_isolate(start: Work, w: Work, batch: Seq<DocRow>, i: nat, o: Options)
    requires
        !o.fail_fast,
        start.failed is None,
        w.failed is None,
        i <= batch.len(),
        start.backends.image is Some,
        start.backends.image_text is None,
        takes_writes(start.backends.store),
        lone_vectors(start.backends.image->0, paths_of(batch)),
        start.pass.titles.len() < o.batch,
        w.pass.titles == start.pass.titles,
        ({
            let m = start.backends.image->0;
            let paths = paths_of(batch);
            &&& w.backends == (Backends {
                image: Some(EmbedderModel { calls: m.calls + lone_batches(paths, i), ..m }),
                store: StoreModel {
                    calls: start.backends.store.calls + lone_writes(m, paths, image_of(batch), i),
                    ..start.backends.store
                },
                ..start.backends
            })
            &&& w.pass.report.errors == start.pass.report.errors + lone_errors(m, paths, paths, i)
        }),
    ensures
        ({
            let m = start.backends.image->0;
            let paths = paths_of(batch);
            let done = image_retries(w, batch, i, o);
            &&& done.failed is None
            &&& done.pass.report.errors == start.pass.report.errors + lone_errors(
                m,
                paths,
                paths,
                batch.len(),
            )
            &&& done.backends == (Backends {
                image: Some(
                    EmbedderModel { calls: m.calls + lone_batches(paths, batch.len()), ..m },
                ),
                store: StoreModel {
                    calls: start.backends.store.calls + lone_writes(
                        m,
                        paths,
                        image_of(batch),
                        batch.len(),
                    ),
                    ..start.backends.store
                },
                ..start.backends
            })
        }),
    decreases batch.len() - i,
{
    if i < batch.len() {
        let m = start.backends.image->0;
        let paths = paths_of(batch);
        let now = w.backends.image->0;
        let doc = batch[i as int];
        next_lone_batch(m, now, paths, i);
        assert(paths[i as int] == doc.path);
        assert(lone_answer(m, paths, i as int) == now.embedded(seq![doc.path]));
        let next = image_retry(w, doc, o);
        match lone_answer(m, paths, i as int) {
            Ok(vectors) => {
                assert(image_of(batch)(i as int, vectors[0]) == with_image(doc, vectors[0]));
                let call = StoreCall::ReplaceDocument { doc: with_image(doc, vectors[0]) };
                assert(w.backends.store.done(call) is Ok);
                assert(next.backends.store.calls =~= start.backends.store.calls + lone_writes(
                    m,
                    paths,
                    image_of(batch),
                    i + 1,
                ));
            },
            Err(message) => {
                assert(next.pass.report.errors =~= start.pass.report.errors + lone_errors(
                    m,
                    paths,
                    paths,
                    i + 1,
                ));
            },
        }
        image_retries_isolate(start, next, batch, i + 1, o);
    }
}

/// Where a batch of images is retried one at a time and the run is not to fail
/// fast, an image that cannot be embedded costs only itself: exactly the images
/// that fail alone are recorded as failed, each other one is written with its
/// own vector, in order, and the run goes on.
pub proof fn a_bad_image_costs_only_itself(w: Work, batch: Seq<DocRow>, o: Options)
    requires
        !o.fail_fast,
        w.failed is None,
        w.backends.image is Some,
        w.backends.image_text is None,
        w.pass.titles.len() < o.batch,
        takes_writes(w.backends.store),
        lone_vectors(w.backends.image->0, paths_of(batch)),
    ensures
        ({
            let m = w.backends.image->0;
            let paths = paths_of(batch);
            let done = image_retries(w, batch, 0, o);
            &&& done.failed is None
            &&& done.pass.report.errors == w.pass.report.errors + lone_errors(
                m,
                paths,
                paths,
                batch.len(),
            )
            &&& done.backends.store.calls == w.backends.store.calls + lone_writes(
                m,
                paths,
                image_of(batch),
                batch.len(),
            )
        }),
{
    let m = w.backends.image->0;
    let paths = paths_of(batch);
    assert(m.calls + lone_batches(paths, 0) =~= m.calls);
    assert(w.backends.store.calls + lone_writes(m, paths, image_of(batch), 0)
        =~= w.backends.store.calls);
    assert(w.pass.report.errors + lone_errors(m, paths, paths, 0) =~= w.pass.report.errors);
    image_retries_isolate(w, w, batch, 0, o);
}

proof fn title_retries_isolate(start: Work, w: Work, batch: Seq<TitleText>, i: nat)
    requires
        start.failed is None,
        w.failed is None,
        i <= batch.len(),
        start.backends.image_text is Some,
        takes_writes(start.backends.store),
        lone_vectors(start.backends.image_text->0, titles_of(batch)),
        forall|k: int|
            0 <= k < batch.len() && (#[trigger] batch[k]).markdown ==> lone_answer(
                start.backends.image_text->0,
                titles_of(batch),
                k,
            ) is Ok,
        ({
            let m = start.backends.image_text->0;
            let titles = titles_of(batch);
            &&& w.backends == (Backends {
                image_text: Some(EmbedderModel { calls: m.calls + lone_batches(titles, i), ..m }),
                store: StoreModel {
                    calls: start.backends.store.calls + lone_writes(m, titles, titled(batch), i),
                    ..start.backends.store
                },
                ..start.backends
            })
            &&& w.pass.report.errors == start.pass.report.errors + lone_errors(
                m,
                titles,
                title_paths(batch),
                i,
            )
        }),
    ensures
        ({
            let m = start.backends.image_text->0;
            let titles = titles_of(batch);
            let done = title_retries(w, batch, i, false);
            &&& done.failed is None
            &&& done.pass.report.errors == start.pass.report.errors + lone_errors(
                m,
                titles,
                title_paths(batch),
                batch.len(),
            )
            &&& done.backends.store.calls == start.backends.store.calls + lone_writes(
                m,
                titles,
                titled(batch),
                batch.len(),
            )
        }),
    decreases batch.len() - i,
{
    if i < batch.len() {
        let m = start.backends.image_text->0;
        let titles = titles_of(batch);
        let now = w.backends.image_text->0;
        let item = batch[i as int];
        next_lone_batch(m, now, titles, i);
        assert(titles[i as int] == item.doc.title);
        assert(title_paths(batch)[i as int] == item.doc.path);
        assert(lone_answer(m, titles, i as int) == now.embedded(seq![item.doc.title]));
        let next = title_retry(w, item, false);
        match lone_answer(m, titles, i as int) {
            Ok(vectors) => {
                let doc = with_title(item.doc, vectors[0]);
                assert(titled(batch)(i as int, vectors[0]) == doc);
                assert(w.backends.store.done(StoreCall::ReplaceDocument { doc }) is Ok);
                assert(next.backends.store.calls =~= start.backends.store.calls + lone_writes(
                    m,
                    titles,
                    titled(batch),
                    i + 1,
                ));
            },
            Err(message) => {
                assert(next.pass.report.errors =~= start.pass.report.errors + lone_errors(
                    m,
                    titles,
                    title_paths(batch),
                    i + 1,
                ));
            },
        }
        title_retries_isolate(start, next, batch, i + 1);
    }
}

/// Where the titles of a batch are retried one at a time, the run is not to
/// fail fast and no markdown title fails, a title that cannot be embedded costs
/// only its own image: exactly the documents whose titles fail alone are
/// recorded as failed, each other one is written with its own vector, in order,
/// and the run goes on.
pub proof fn a_bad_title_costs_only_its_image(w: Work, batch: Seq<TitleText>)
    requires
        w.failed is None,
        w.backends.image_text is Some,
        takes_writes(w.backends.store),
        lone_vectors(w.backends.image_text->0, titles_of(batch)),
        forall|k: int|
            0 <= k < batch.len() && (#[trigger] batch[k]).markdown ==> lone_answer(
                w.backends.image_text->0,
                titles_of(batch),
                k,
            ) is Ok,
    ensures
        ({
            let m = w.backends.image_text->0;
            let titles = titles_of(batch);
            let done = title_retries(w, batch, 0, false);
            &&& done.failed is None
            &&& done.pass.report.errors == w.pass.report.errors + lone_errors(
                m,
                titles,
                title_paths(batch),
                batch.len(),
            )
            &&& done.backends.store.calls == w.backends.store.calls + lone_writes(
                m,
                titles,
                titled(batch),
                batch.len(),
            )
        }),
{
    let m = w.backends.image_text->0;
    let titles = titles_of(batch);
    assert(m.calls + lone_batches(titles, 0) =~= m.calls);
    assert(w.backends.store.calls + lone_writes(m, titles, titled(batch), 0)
        =~= w.backends.store.calls);
    assert(w.pass.report.errors + lone_errors(m, titles, title_paths(batch), 0)
        =~= w.pass.report.errors);
    title_retries_isolate(w, w, batch, 0);
}

/// Whether a store takes whatever is written, and lists its documents.
pub open spec fn works(store: StoreModel) -> bool {
    &&& takes_writes(store)
    &&& forall|calls: Seq<StoreCall>| (#[trigger] (store.lists)(calls)) is Ok
}

/// Whether a reader resolves every path.
pub open spec fn resolves(reader: ReaderModel) -> bool {
    forall|calls: Seq<ReaderCall>| (#[trigger] (reader.paths)(calls)) is Ok
}

/// Whether a walker walks every root.
pub open spec fn walks(walker: WalkerModel) -> bool {
    forall|calls: Seq<Walk>| (#[trigger] (walker.answers)(calls)) is Ok
}

/// Whether every file that a walker finds is an image.
pub open spec fn finds_only_images(walker: WalkerModel) -> bool {
    forall|calls: Seq<Walk>, k: int|
        (walker.answers)(calls) is Ok && 0 <= k < (walker.answers)(calls)->Ok_0.len() ==> (
        #[trigger] (walker.answers)(calls)->Ok_0[k]).kind == DocKind::Image
}

/// Whether nothing goes wrong with markdown: files are read, digests looked up,
/// and chunks and titles embedded.
pub open spec fn markdown_succeeds(b: Backends) -> bool {
    &&& forall|calls: Seq<ReaderCall>| (#[trigger] (b.reader.contents)(calls)) is Ok
    &&& forall|calls: Seq<StoreCall>| (#[trigger] (b.store.hashes)(calls)) is Ok
    &&& forall|calls: Seq<Seq<Seq<char>>>| (#[trigger] (b.text.answers)(calls)) is Ok
    &&& match b.image_text {
        Some(m) => forall|calls: Seq<Seq<Seq<char>>>| (#[trigger] (m.answers)(calls)) is Ok,
        None => true,
    }
}

/// Whether two embedders that may not be in use are the same, but for the calls
/// made.
pub open spec fn same_embedder(a: Option<EmbedderModel>, b: Option<EmbedderModel>) -> bool {
    match (a, b) {
        (None, None) => true,
        (Some(a), Some(b)) => a.answers == b.answers,
        _ => false,
    }
}

/// What holds of a run that started with `b` and has not stopped.
spec fn going(b: Backends, w: Work) -> bool {
    &&& w.failed is None
    &&& w.backends.store.dones == b.store.dones
    &&& w.backends.store.lists == b.store.lists
    &&& w.backends.store.hashes == b.store.hashes
    &&& w.backends.reader.paths == b.reader.paths
    &&& w.backends.reader.contents == b.reader.contents
    &&& w.backends.walker.answers == b.walker.answers
    &&& w.backends.text.answers == b.text.answers
    &&& same_embedder(w.backends.image, b.image)
    &&& same_embedder(w.backends.image_text, b.image_text)
    &&& !markdown_succeeds(b) ==> no_markdown(w.pass.titles)
    &&& w.backends.image_text is None ==> w.pass.titles.len() == 0
}

/// Whether every document of a batch is an image.
spec fn no_markdown(batch: Seq<TitleText>) -> bool {
    forall|k: int| 0 <= k < batch.len() ==> !(#[trigger] batch[k]).markdown
}

/// What is asked of the backends of a run that images cannot stop.
pub open spec fn only_images_fail(b: Backends) -> bool {
    &&& works(b.store)
    &&& resolves(b.reader)
    &&& walks(b.walker)
    &&& b.image is Some
    &&& answers_in_full(b.image)
    &&& answers_in_full(b.image_text)
    &&& finds_only_images(b.walker) || markdown_succeeds(b)
}

proof fn written_going(b: Backends, w: Work, doc: DocRow)
    requires
        only_images_fail(b),
        going(b, w),
    ensures
        going(b, written(w, doc)),
{
    let calls = w.backends.store.calls.push(StoreCall::ReplaceDocument { doc });
    assert((b.store.dones)(calls) is Ok);
}

proof fn title_writes_going(
    b: Backends,
    w: Work,
    batch: Seq<TitleText>,
    vectors: Seq<Seq<u32>>,
    i: nat,
)
    requires
        only_images_fail(b),
        going(b, w),
    ensures
        going(b, title_writes(w, batch, vectors, i)),
    decreases batch.len() - i,
{
    if i < batch.len() && i < vectors.len() {
        let doc = with_title(batch[i as int].doc, vectors[i as int]);
        written_going(b, w, doc);
        title_writes_going(b, written(w, doc), batch, vectors, i + 1);
    }
}

proof fn title_retries_going(b: Backends, w: Work, batch: Seq<TitleText>, i: nat)
    requires
        only_images_fail(b),
        going(b, w),
        w.backends.image_text is Some,
        !markdown_succeeds(b) ==> no_markdown(batch),
    ensures
        going(b, title_retries(w, batch, i, false)),
    decreases batch.len() - i,
{
    if i < batch.len() {
        let item = batch[i as int];
        let m = w.backends.image_text->0;
        let inputs = seq![item.doc.title];
        let calls = m.calls.push(inputs);
        assert(calls.last() == inputs);
        let asked = Work {
            backends: Backends { image_text: Some(m.after(inputs)), ..w.backends },
            ..w
        };
        assert(going(b, asked));
        let answer = (b.image_text->0.answers)(calls);
        if let Ok(vectors) = answer {
            written_going(b, asked, with_title(item.doc, vectors[0]));
        } else {
            assert(!item.markdown);
        }
        title_retries_going(b, title_retry(w, item, false), batch, i + 1);
    }
}

proof fn flush_titles_going(b: Backends, w: Work)
    requires
        only_images_fail(b),
        going(b, w),
    ensures
        going(b, flush_titles(w, false)),
{
    let batch = w.pass.titles;
    if batch.len() > 0 {
        let m = w.backends.image_text->0;
        let inputs = titles_of(batch);
        let asked = Work {
            backends: Backends { image_text: Some(m.after(inputs)), ..w.backends },
            pass: PassText { titles: seq![], ..w.pass },
            ..w
        };
        assert(going(b, asked));
        match m.embedded(inputs) {
            Ok(vectors) => title_writes_going(b, asked, batch, vectors, 0),
            Err(_) => title_retries_going(b, asked, batch, 0),
        }
    }
}

proof fn finish_image_going(b: Backends, w: Work, doc: DocRow, vector: Seq<u32>, o: Options)
    requires
        only_images_fail(b),
        !o.fail_fast,
        going(b, w),
    ensures
        going(b, flush_full_titles(finish_image(w, doc, vector), o)),
{
    let done = finish_image(w, doc, vector);
    if w.backends.image_text is Some {
        assert(going(b, done));
    } else {
        written_going(b, w, with_image(doc, vector));
    }
    flush_titles_going(b, done);
}

proof fn image_writes_going(
    b: Backends,
    w: Work,
    batch: Seq<DocRow>,
    vectors: Seq<Seq<u32>>,
    i: nat,
    o: Options,
)
    requires
        only_images_fail(b),
        !o.fail_fast,
        going(b, w),
    ensures
        going(b, image_writes(w, batch, vectors, i, o)),
    decreases batch.len() - i,
{
    if i < batch.len() && i < vectors.len() {
        finish_image_going(b, w, batch[i as int], vectors[i as int], o);
        let next = flush_full_titles(finish_image(w, batch[i as int], vectors[i as int]), o);
        image_writes_going(b, next, batch, vectors, i + 1, o);
    }
}

proof fn image_retries_going(b: Backends, w: Work, batch: Seq<DocRow>, i: nat, o: Options)
    requires
        only_images_fail(b),
        !o.fail_fast,
        going(b, w),
    ensures
        going(b, image_retries(w, batch, i, o)),
    decreases batch.len() - i,
{
    if i < batch.len() {
        let doc = batch[i as int];
        let m = w.backends.image->0;
        let inputs = seq![doc.path];
        let calls = m.calls.push(inputs);
        assert(calls.last() == inputs);
        let asked = Work {
            backends: Backends { image: Some(m.after(inputs)), ..w.backends },
            ..w
        };
        assert(going(b, asked));
        if let Ok(vectors) = (b.image->0.answers)(calls) {
            finish_image_going(b, asked, doc, vectors[0], o);
        }
        image_retries_going(b, image_retry(w, doc, o), batch, i + 1, o);
    }
}

proof fn flush_images_going(b: Backends, w: Work, o: Options)
    requires
        only_images_fail(b),
        !o.fail_fast,
        going(b, w),
    ensures
        going(b, flush_images(w, o)),
{
    let batch = w.pass.images;
    if batch.len() > 0 {
        let m = w.backends.image->0;
        let inputs = paths_of(batch);
        let asked = Work {
            backends: Backends { image: Some(m.after(inputs)), ..w.backends },
            pass: PassText { images: seq![], ..w.pass },
            ..w
        };
        assert(going(b, asked));
        match m.embedded(inputs) {
            Ok(vectors) => image_writes_going(b, asked, batch, vectors, 0, o),
            Err(_) => image_retries_going(b, asked, batch, 0, o),
        }
    }
}

proof fn image_step_going(b: Backends, w: Work, path: Seq<char>, root: Seq<char>, o: Options)
    requires
        only_images_fail(b),
        !o.fail_fast,
        going(b, w),
    ensures
        going(b, image_step(w, path, root, o)),
{
    let staged = staged_image(w.backends, path, root, o.force);
    if let Ok(Some(doc)) = staged.answer {
        let kept = Work {
            backends: staged.backends,
            pass: PassText { images: w.pass.images.push(doc), ..w.pass },
            ..w
        };
        assert(going(b, kept));
        flush_images_going(b, kept, o);
    }
}

proof fn markdown_step_going(b: Backends, w: Work, path: Seq<char>, root: Seq<char>, o: Options)
    requires
        only_images_fail(b),
        markdown_succeeds(b),
        !o.fail_fast,
        going(b, w),
    ensures
        going(b, markdown_step(w, path, root, o)),
{
    assert(w.backends.reader.bytes(path) is Ok);
    assert(w.backends.store.hash(path) is Ok);
    let staged = staged_markdown(w.backends, path, root, o);
    assert(staged.answer is Ok);
    let read = Work { backends: staged.backends, ..w };
    assert(going(b, read));
    if let Ok(Some(doc)) = staged.answer {
        if w.backends.image_text is Some {
            let kept = Work {
                pass: PassText {
                    titles: w.pass.titles.push(TitleText { doc, markdown: true }),
                    ..w.pass
                },
                ..read
            };
            assert(going(b, kept));
            flush_titles_going(b, kept);
        } else {
            written_going(b, read, doc);
        }
    }
}

proof fn file_steps_going(
    b: Backends,
    w: Work,
    files: Seq<FoundText>,
    i: nat,
    root: Seq<char>,
    o: Options,
)
    requires
        only_images_fail(b),
        !o.fail_fast,
        going(b, w),
        !markdown_succeeds(b) ==> forall|k: int|
            0 <= k < files.len() ==> (#[trigger] files[k]).kind == DocKind::Image,
    ensures
        going(b, file_steps(w, files, i, root, o)),
    decreases files.len() - i,
{
    if i < files.len() {
        let file = files[i as int];
        let reader = w.backends.reader.after(ReaderCall::Canonicalize(file.path));
        assert((b.reader.paths)(reader.calls) is Ok);
        let path = w.backends.reader.canonical(file.path)->Ok_0;
        if !w.pass.seen.contains(path) {
            let fresh = Work {
                backends: Backends { reader, ..w.backends },
                pass: PassText { seen: w.pass.seen.insert(path), ..w.pass },
                ..w
            };
            assert(going(b, fresh));
            match file.kind {
                DocKind::Markdown => markdown_step_going(b, fresh, path, root, o),
                DocKind::Image => image_step_going(b, fresh, path, root, o),
            }
        }
        file_steps_going(b, file_step(w, file, root, o), files, i + 1, root, o);
    }
}

proof fn root_steps_going(
    b: Backends,
    w: Work,
    roots: Seq<Seq<char>>,
    i: nat,
    globs: Seq<Seq<char>>,
    o: Options,
)
    requires
        only_images_fail(b),
        !o.fail_fast,
        going(b, w),
    ensures
        going(b, root_steps(w, roots, i, globs, o)),
    decreases roots.len() - i,
{
    if i < roots.len() {
        let root = roots[i as int];
        let canon = w.backends.reader.canonical(root)->Ok_0;
        let walk = Walk { root: canon, ignore_globs: globs };
        let calls = w.backends.walker.calls.push(walk);
        assert((b.reader.paths)(
            w.backends.reader.calls.push(ReaderCall::Canonicalize(root)),
        ) is Ok);
        assert((b.walker.answers)(calls) is Ok);
        let files = w.backends.walker.found(walk)->Ok_0;
        if !markdown_succeeds(b) {
            assert forall|k: int| 0 <= k < files.len() implies (#[trigger] files[k]).kind
                == DocKind::Image by {
                assert((b.walker.answers)(calls)->Ok_0[k].kind == DocKind::Image);
            }
        }
        let told = advanced(
            Work {
                backends: Backends {
                    reader: w.backends.reader.after(ReaderCall::Canonicalize(root)),
                    walker: w.backends.walker.after(walk),
                    ..w.backends
                },
                pass: PassText {
                    walked: w.pass.walked.push(canon),
                    report: ReportText {
                        scanned: plus(w.pass.report.scanned, files.len()),
                        ..w.pass.report
                    },
                    ..w.pass
                },
                ..w
            },
            ProgressCall::IncTotal(files.len() as u64),
        );
        assert(going(b, told));
        file_steps_going(b, told, files, 0, canon, o);
        root_steps_going(b, root_step(w, root, globs, o), roots, i + 1, globs, o);
    }
}

proof fn prune_steps_going(b: Backends, w: Work, paths: Seq<Seq<char>>, i: nat)
    requires
        only_images_fail(b),
        going(b, w),
    ensures
        going(b, prune_steps(w, paths, i)),
    decreases paths.len() - i,
{
    if i < paths.len() {
        let path = paths[i as int];
        let calls = w.backends.store.calls.push(StoreCall::DeleteDocument { path });
        assert((b.store.dones)(calls) is Ok);
        prune_steps_going(b, prune_step(w, path), paths, i + 1);
    }
}

/// Unless it is to fail fast, a run is never stopped by an image: whatever
/// images fail to be read or embedded, the run succeeds where nothing else goes
/// wrong, and the models are those that the store was built with.
pub proof fn images_never_stop_a_run(
    b: Backends,
    roots: Seq<Seq<char>>,
    globs: Seq<Seq<char>>,
    o: Options,
)
    requires
        !o.fail_fast,
        only_images_fail(b),
        guarded(Work { backends: b, pass: no_pass(), failed: None }, o.force).failed is None,
    ensures
        indexed(b, roots, globs, o).failed is None,
{
    let start = Work { backends: b, pass: no_pass(), failed: None };
    let checked = guarded(start, o.force);
    assert(going(b, checked));
    let models = recorded(checked);
    assert(going(b, models));
    root_steps_going(b, models, roots, 0, globs, o);
    let walked = root_steps(models, roots, 0, globs, o);
    flush_images_going(b, walked, o);
    let images = flush_images(walked, o);
    flush_titles_going(b, images);
    let titles = flush_titles(images, false);
    let call = StoreCall::PathsForRoots { roots: titles.pass.walked };
    let calls = titles.backends.store.calls.push(call);
    assert((b.store.lists)(calls) is Ok);
    let listed = Work {
        backends: Backends { store: titles.backends.store.after(call), ..titles.backends },
        ..titles
    };
    prune_steps_going(b, listed, titles.backends.store.list(call)->Ok_0, 0);
}

} // verus!
