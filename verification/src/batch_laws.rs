//! What the image embedder is given: the changed images, cut into batches.
use vstd::prelude::*;

use crate::embed::EmbedderModel;
use crate::fs::ReaderCall;
use crate::pipeline::{
    advanced, file_step, file_steps, finish_image, flush_full_titles, flush_images, flush_titles,
    guarded, image_step, image_writes, indexed, markdown_step, no_pass, paths_of, plus, prune_step,
    prune_steps, recorded, root_step, root_steps, staged_image, staged_markdown, title_retries,
    title_retry, title_writes, titles_of, with_title, written, Backends, Options, PassText,
    ReportText, TitleText, Work,
};
use crate::progress::ProgressCall;
use crate::store::{DocRow, StoreCall};
use crate::walk::{DocKind, FoundText, Walk};

verus! {

/// The inputs of some batches, one after another.
pub open spec fn in_a_row(batches: Seq<Seq<Seq<char>>>) -> Seq<Seq<char>>
    decreases batches.len(),
{
    if batches.len() == 0 {
        seq![]
    } else {
        in_a_row(batches.drop_last()) + batches.last()
    }
}

/// The path of a found file, where it is an image that was not seen before and
/// has to be embedded: it can be read, and it has changed or the run is forced.
pub open spec fn changed_image(w: Work, file: FoundText, root: Seq<char>, o: Options) -> Seq<
    Seq<char>,
> {
    match w.backends.reader.canonical(file.path) {
        Ok(path) => if file.kind == DocKind::Image && !w.pass.seen.contains(path) {
            let b = Backends {
                reader: w.backends.reader.after(ReaderCall::Canonicalize(file.path)),
                ..w.backends
            };
            match staged_image(b, path, root, o.force).answer {
                Ok(Some(_)) => seq![path],
                _ => seq![],
            }
        } else {
            seq![]
        },
        Err(_) => seq![],
    }
}

/// The changed images among the found files from index `i` on, as they are come
/// upon.
pub open spec fn changed_in_files(
    w: Work,
    files: Seq<FoundText>,
    i: nat,
    root: Seq<char>,
    o: Options,
) -> Seq<Seq<char>>
    decreases files.len() - i,
{
    if w.failed is Some || i >= files.len() {
        seq![]
    } else {
        changed_image(w, files[i as int], root, o) + changed_in_files(
            file_step(w, files[i as int], root, o),
            files,
            i + 1,
            root,
            o,
        )
    }
}

/// A root that was walked, before its files are handled.
pub open spec fn entered(
    w: Work,
    root: Seq<char>,
    canon: Seq<char>,
    walk: Walk,
    n: nat,
) -> Work {
    advanced(
        Work {
            backends: Backends {
                reader: w.backends.reader.after(ReaderCall::Canonicalize(root)),
                walker: w.backends.walker.after(walk),
                ..w.backends
            },
            pass: PassText {
                walked: w.pass.walked.push(canon),
                report: ReportText {
                    scanned: plus(w.pass.report.scanned, n),
                    ..w.pass.report
                },
                ..w.pass
            },
            ..w
        },
        ProgressCall::IncTotal(n as u64),
    )
}

/// The changed images under a root, as they are come upon.
pub open spec fn changed_in_root(
    w: Work,
    root: Seq<char>,
    globs: Seq<Seq<char>>,
    o: Options,
) -> Seq<Seq<char>> {
    match w.backends.reader.canonical(root) {
        Err(_) => seq![],
        Ok(canon) => {
            let walk = Walk { root: canon, ignore_globs: globs };
            match w.backends.walker.found(walk) {
                Err(_) => seq![],
                Ok(files) => changed_in_files(
                    entered(w, root, canon, walk, files.len()),
                    files,
                    0,
                    canon,
                    o,
                ),
            }
        },
    }
}

/// The changed images under the roots from index `i` on, as they are come upon.
pub open spec fn changed_in_roots(
    w: Work,
    roots: Seq<Seq<char>>,
    i: nat,
    globs: Seq<Seq<char>>,
    o: Options,
) -> Seq<Seq<char>>
    decreases roots.len() - i,
{
    if w.failed is Some || i >= roots.len() {
        seq![]
    } else {
        changed_in_root(w, roots[i as int], globs, o) + changed_in_roots(
            root_step(w, roots[i as int], globs, o),
            roots,
            i + 1,
            globs,
            o,
        )
    }
}

/// The changed images that a whole run comes upon.
pub open spec fn changed_images(
    b: Backends,
    roots: Seq<Seq<char>>,
    globs: Seq<Seq<char>>,
    o: Options,
) -> Seq<Seq<char>> {
    let checked = guarded(Work { backends: b, pass: no_pass(), failed: None }, o.force);
    if checked.failed is Some {
        seq![]
    } else {
        changed_in_roots(recorded(checked), roots, 0, globs, o)
    }
}

/// The batches that an embedder was given since it was `then`.
pub open spec fn batches_since(now: EmbedderModel, then: EmbedderModel) -> Seq<Seq<Seq<char>>> {
    now.calls.skip(then.calls.len() as int)
}

/// Whether an embedder answers every batch.
pub open spec fn never_fails(m: EmbedderModel) -> bool {
    forall|calls: Seq<Seq<Seq<char>>>| (#[trigger] (m.answers)(calls)) is Ok
}

/// What holds of a run at each point, where `paths` are the changed images come
/// upon so far: they were given to the embedder in whole batches, or wait.
spec fn cut(b: Backends, w: Work, o: Options, paths: Seq<Seq<char>>) -> bool {
    &&& w.backends.image is Some
    &&& w.backends.image->0.answers == b.image->0.answers
    &&& b.image->0.calls.len() <= w.backends.image->0.calls.len()
    &&& in_a_row(batches_since(w.backends.image->0, b.image->0)) + paths_of(w.pass.images)
        == paths
    &&& forall|k: int|
        b.image->0.calls.len() <= k < w.backends.image->0.calls.len() ==> (
        #[trigger] w.backends.image->0.calls[k]).len() == o.batch
    &&& w.failed is None ==> w.pass.images.len() < o.batch
}

/// Whether two runs have the same image embedder and images that wait.
spec fn same_images(a: Work, c: Work) -> bool {
    a.backends.image == c.backends.image && a.pass.images == c.pass.images
}

proof fn title_writes_images(
    w: Work,
    batch: Seq<TitleText>,
    vectors: Seq<Seq<u32>>,
    i: nat,
)
    ensures
        same_images(title_writes(w, batch, vectors, i), w),
    decreases batch.len() - i,
{
    if w.failed is Some || i >= batch.len() || i >= vectors.len() {
    } else {
        let doc = with_title(batch[i as int].doc, vectors[i as int]);
        title_writes_images(written(w, doc), batch, vectors, i + 1);
    }
}

proof fn title_retries_images(w: Work, batch: Seq<TitleText>, i: nat, fail_fast: bool)
    ensures
        same_images(title_retries(w, batch, i, fail_fast), w),
    decreases batch.len() - i,
{
    if w.failed is Some || i >= batch.len() {
    } else {
        title_retries_images(title_retry(w, batch[i as int], fail_fast), batch, i + 1, fail_fast);
    }
}

proof fn flush_titles_images(w: Work, fail_fast: bool)
    ensures
        same_images(flush_titles(w, fail_fast), w),
{
    let batch = w.pass.titles;
    if let Some(m) = w.backends.image_text {
        let inputs = titles_of(batch);
        let asked = Work {
            backends: Backends { image_text: Some(m.after(inputs)), ..w.backends },
            pass: PassText { titles: seq![], ..w.pass },
            ..w
        };
        match m.embedded(inputs) {
            Ok(vectors) => title_writes_images(asked, batch, vectors, 0),
            Err(_) => title_retries_images(asked, batch, 0, fail_fast),
        }
    }
}

proof fn image_writes_images(
    w: Work,
    batch: Seq<DocRow>,
    vectors: Seq<Seq<u32>>,
    i: nat,
    o: Options,
)
    ensures
        same_images(image_writes(w, batch, vectors, i, o), w),
    decreases batch.len() - i,
{
    if w.failed is Some || i >= batch.len() || i >= vectors.len() {
    } else {
        let done = finish_image(w, batch[i as int], vectors[i as int]);
        flush_titles_images(done, o.fail_fast);
        image_writes_images(flush_full_titles(done, o), batch, vectors, i + 1, o);
    }
}

/// All images that wait are given to the embedder in one more batch.
proof fn flush_images_batch(b: Backends, w: Work, o: Options)
    requires
        b.image is Some,
        never_fails(b.image->0),
        w.backends.image is Some,
        w.backends.image->0.answers == b.image->0.answers,
        w.pass.images.len() > 0,
    ensures
        flush_images(w, o).backends.image == Some(
            w.backends.image->0.after(paths_of(w.pass.images)),
        ),
        flush_images(w, o).pass.images.len() == 0,
{
    let batch = w.pass.images;
    let m = w.backends.image->0;
    let inputs = paths_of(batch);
    assert((b.image->0.answers)(m.calls.push(inputs)) is Ok);
    let asked = Work {
        backends: Backends { image: Some(m.after(inputs)), ..w.backends },
        pass: PassText { images: seq![], ..w.pass },
        ..w
    };
    image_writes_images(asked, batch, m.embedded(inputs)->Ok_0, 0, o);
}

/// One more batch adds its inputs.
proof fn one_more_in_a_row(now: EmbedderModel, then: EmbedderModel, inputs: Seq<Seq<char>>)
    requires
        then.calls.len() <= now.calls.len(),
    ensures
        in_a_row(batches_since(now.after(inputs), then)) == in_a_row(batches_since(now, then))
            + inputs,
{
    let after = batches_since(now.after(inputs), then);
    assert(after.drop_last() =~= batches_since(now, then));
    assert(after.last() == inputs);
}

proof fn image_step_cut(
    b: Backends,
    w: Work,
    path: Seq<char>,
    root: Seq<char>,
    o: Options,
    paths: Seq<Seq<char>>,
)
    requires
        b.image is Some,
        never_fails(b.image->0),
        o.batch >= 1,
        w.failed is None,
        cut(b, w, o, paths),
    ensures
        cut(
            b,
            image_step(w, path, root, o),
            o,
            match staged_image(w.backends, path, root, o.force).answer {
                Ok(Some(_)) => paths.push(path),
                _ => paths,
            },
        ),
{
    let staged = staged_image(w.backends, path, root, o.force);
    if let Ok(Some(doc)) = staged.answer {
        let kept = Work {
            backends: staged.backends,
            pass: PassText { images: w.pass.images.push(doc), ..w.pass },
            ..w
        };
        let m = w.backends.image->0;
        let row = in_a_row(batches_since(m, b.image->0));
        assert(paths_of(kept.pass.images) =~= paths_of(w.pass.images).push(path));
        assert(row + paths_of(kept.pass.images) =~= paths.push(path));
        if kept.pass.images.len() >= o.batch {
            let inputs = paths_of(kept.pass.images);
            flush_images_batch(b, kept, o);
            one_more_in_a_row(m, b.image->0, inputs);
            let r = flush_images(kept, o);
            let now = m.after(inputs);
            assert(paths_of(r.pass.images) =~= seq![]);
            assert(in_a_row(batches_since(now, b.image->0)) + paths_of(r.pass.images)
                =~= paths.push(path));
            assert forall|k: int| b.image->0.calls.len() <= k < now.calls.len() implies (
            #[trigger] now.calls[k]).len() == o.batch by {
                if k < m.calls.len() {
                    assert(now.calls[k] == m.calls[k]);
                }
            }
        }
    }
}

proof fn file_step_cut(
    b: Backends,
    w: Work,
    file: FoundText,
    root: Seq<char>,
    o: Options,
    paths: Seq<Seq<char>>,
)
    requires
        b.image is Some,
        never_fails(b.image->0),
        o.batch >= 1,
        w.failed is None,
        cut(b, w, o, paths),
    ensures
        cut(b, file_step(w, file, root, o), o, paths + changed_image(w, file, root, o)),
{
    let none = Seq::<Seq<char>>::empty();
    assert(paths + none =~= paths);
    if let Ok(path) = w.backends.reader.canonical(file.path) {
        assert(paths + seq![path] =~= paths.push(path));
        if !w.pass.seen.contains(path) {
            let fresh = Work {
                backends: Backends {
                    reader: w.backends.reader.after(ReaderCall::Canonicalize(file.path)),
                    ..w.backends
                },
                pass: PassText { seen: w.pass.seen.insert(path), ..w.pass },
                ..w
            };
            match file.kind {
                DocKind::Image => {
                    image_step_cut(b, fresh, path, root, o, paths);
                },
                DocKind::Markdown => {
                    let staged = staged_markdown(fresh.backends, path, root, o);
                    if let Ok(Some(doc)) = staged.answer {
                        let kept = Work {
                            backends: staged.backends,
                            pass: PassText {
                                titles: fresh.pass.titles.push(TitleText { doc, markdown: true }),
                                ..fresh.pass
                            },
                            ..fresh
                        };
                        flush_titles_images(kept, o.fail_fast);
                    }
                    assert(same_images(markdown_step(fresh, path, root, o), fresh));
                },
            }
        }
    }
}

proof fn file_steps_cut(
    b: Backends,
    w: Work,
    files: Seq<FoundText>,
    i: nat,
    root: Seq<char>,
    o: Options,
    paths: Seq<Seq<char>>,
)
    requires
        b.image is Some,
        never_fails(b.image->0),
        o.batch >= 1,
        cut(b, w, o, paths),
    ensures
        cut(
            b,
            file_steps(w, files, i, root, o),
            o,
            paths + changed_in_files(w, files, i, root, o),
        ),
    decreases files.len() - i,
{
    if w.failed is Some || i >= files.len() {
        assert(paths + changed_in_files(w, files, i, root, o) =~= paths);
    } else {
        let file = files[i as int];
        let next = file_step(w, file, root, o);
        let more = changed_image(w, file, root, o);
        file_step_cut(b, w, file, root, o, paths);
        file_steps_cut(b, next, files, i + 1, root, o, paths + more);
        assert(paths + changed_in_files(w, files, i, root, o) =~= paths + more
            + changed_in_files(next, files, i + 1, root, o));
    }
}

proof fn root_steps_cut(
    b: Backends,
    w: Work,
    roots: Seq<Seq<char>>,
    i: nat,
    globs: Seq<Seq<char>>,
    o: Options,
    paths: Seq<Seq<char>>,
)
    requires
        b.image is Some,
        never_fails(b.image->0),
        o.batch >= 1,
        cut(b, w, o, paths),
    ensures
        cut(
            b,
            root_steps(w, roots, i, globs, o),
            o,
            paths + changed_in_roots(w, roots, i, globs, o),
        ),
    decreases roots.len() - i,
{
    if w.failed is Some || i >= roots.len() {
        assert(paths + changed_in_roots(w, roots, i, globs, o) =~= paths);
    } else {
        let root = roots[i as int];
        let next = root_step(w, root, globs, o);
        let more = changed_in_root(w, root, globs, o);
        let none = Seq::<Seq<char>>::empty();
        assert(paths + none =~= paths);
        if let Ok(canon) = w.backends.reader.canonical(root) {
            let walk = Walk { root: canon, ignore_globs: globs };
            if let Ok(files) = w.backends.walker.found(walk) {
                let told = entered(w, root, canon, walk, files.len());
                assert(cut(b, told, o, paths));
                file_steps_cut(b, told, files, 0, canon, o, paths);
                assert(next == file_steps(told, files, 0, canon, o));
            }
        }
        assert(cut(b, next, o, paths + more));
        root_steps_cut(b, next, roots, i + 1, globs, o, paths + more);
        assert(paths + changed_in_roots(w, roots, i, globs, o) =~= paths + more
            + changed_in_roots(next, roots, i + 1, globs, o));
    }
}

proof fn prune_steps_images(w: Work, paths: Seq<Seq<char>>, i: nat)
    ensures
        same_images(prune_steps(w, paths, i), w),
    decreases paths.len() - i,
{
    if w.failed is Some || i >= paths.len() {
    } else {
        prune_steps_images(prune_step(w, paths[i as int]), paths, i + 1);
    }
}

/// Where no batch fails, a run gives the image embedder exactly the changed
/// images, in the order come upon, each once, cut into batches: all but the
/// last hold as many as asked, and the last at least one. Only a run that stops
/// leaves some of them waiting.
pub proof fn image_batches_are_the_changed_images(
    b: Backends,
    roots: Seq<Seq<char>>,
    globs: Seq<Seq<char>>,
    o: Options,
)
    requires
        o.batch >= 1,
        b.image is Some,
        never_fails(b.image->0),
    ensures
        ({
            let w = indexed(b, roots, globs, o);
            let batches = batches_since(w.backends.image->0, b.image->0);
            &&& w.backends.image is Some
            &&& in_a_row(batches) + paths_of(w.pass.images) == changed_images(b, roots, globs, o)
            &&& w.failed is None ==> w.pass.images.len() == 0
            &&& forall|k: int|
                0 <= k < batches.len() - 1 ==> (#[trigger] batches[k]).len() == o.batch
            &&& batches.len() > 0 ==> 1 <= batches.last().len() <= o.batch
        }),
{
    let start = Work { backends: b, pass: no_pass(), failed: None };
    let checked = guarded(start, o.force);
    let none = Seq::<Seq<char>>::empty();
    assert(batches_since(b.image->0, b.image->0) =~= seq![]);
    assert(paths_of(start.pass.images) =~= none);
    assert(none + paths_of(start.pass.images) =~= none);
    let w = indexed(b, roots, globs, o);
    if checked.failed is None {
        let ready = recorded(checked);
        assert(same_images(ready, start));
        assert(cut(b, ready, o, none));
        root_steps_cut(b, ready, roots, 0, globs, o, none);
        let walked = root_steps(ready, roots, 0, globs, o);
        let paths = changed_images(b, roots, globs, o);
        assert(none + changed_in_roots(ready, roots, 0, globs, o) =~= paths);
        let m = walked.backends.image->0;
        if walked.failed is None {
            let images = flush_images(walked, o);
            let inputs = paths_of(walked.pass.images);
            if walked.pass.images.len() > 0 {
                flush_images_batch(b, walked, o);
                one_more_in_a_row(m, b.image->0, inputs);
            }
            assert(paths_of(images.pass.images) =~= none);
            flush_titles_images(images, o.fail_fast);
            let titles = flush_titles(images, o.fail_fast);
            let call = StoreCall::PathsForRoots { roots: titles.pass.walked };
            let listed = Work {
                backends: Backends {
                    store: titles.backends.store.after(call),
                    ..titles.backends
                },
                ..titles
            };
            if let Ok(listing) = titles.backends.store.list(call) {
                prune_steps_images(listed, listing, 0);
            }
            assert(same_images(w, images));
            let batches = batches_since(w.backends.image->0, b.image->0);
            assert(in_a_row(batches) + paths_of(w.pass.images) =~= paths);
            assert forall|k: int| 0 <= k < batches.len() - 1 implies (
            #[trigger] batches[k]).len() == o.batch by {
                assert(batches[k] == m.calls[b.image->0.calls.len() + k]);
            }
            if batches.len() > 0 && walked.pass.images.len() == 0 {
                assert(batches.last() == m.calls[m.calls.len() - 1]);
            }
        } else {
            let batches = batches_since(m, b.image->0);
            assert forall|k: int| 0 <= k < batches.len() implies (
            #[trigger] batches[k]).len() == o.batch by {
                assert(batches[k] == m.calls[b.image->0.calls.len() + k]);
            }
        }
    }
}

} // verus!
