//! A second indexing run over files that have not changed does nothing.
use vstd::prelude::*;

use crate::batch_laws::entered;
use crate::fs::{ReaderCall, ReaderModel};
use crate::index_laws::{answers_in_full, countable, each_file_is_accounted_for};
use crate::isolation_laws::{same_embedder, takes_writes, title_paths};
use crate::outside::blake3_digest;
use crate::pipeline::{
    advanced, changed_bytes, file_step, file_steps, finish_image, finished, flush_full_titles,
    flush_images, flush_titles, guard_opt, guard_step, guarded, image_retries, image_retry,
    image_step, image_writes, indexed, markdown_step, meta_step, no_pass, paths_of, plus,
    prune_step, prune_steps, recorded, root_step, root_steps, staged_image, staged_markdown,
    title_retries, title_retry, title_writes, titles_of, with_image, with_title, written, Backends,
    Options, PassText, TitleText, Work,
};
use crate::progress::ProgressCall;
use crate::store::{DocRow, StoreCall, StoreModel};
use crate::walk::{DocKind, FoundText, Walk, WalkerModel};

verus! {

/// The documents that a store holds after a history of calls, where it began
/// with `docs`.
pub open spec fn documents_after(
    docs: Map<Seq<char>, DocRow>,
    calls: Seq<StoreCall>,
) -> Map<Seq<char>, DocRow>
    decreases calls.len(),
{
    if calls.len() == 0 {
        docs
    } else {
        let before = documents_after(docs, calls.drop_last());
        match calls.last() {
            StoreCall::ReplaceDocument { doc } => before.insert(doc.path, doc),
            StoreCall::DeleteDocument { path } => before.remove(path),
            StoreCall::DeleteByRoot { root } => before.restrict(
                Set::new(|p: Seq<char>| before[p].source_root != root),
            ),
            _ => before,
        }
    }
}

/// The meta values that a store holds after a history of calls, where it began
/// with `metas`.
pub open spec fn metas_after(
    metas: Map<Seq<char>, Seq<char>>,
    calls: Seq<StoreCall>,
) -> Map<Seq<char>, Seq<char>>
    decreases calls.len(),
{
    if calls.len() == 0 {
        metas
    } else {
        let before = metas_after(metas, calls.drop_last());
        match calls.last() {
            StoreCall::SetMeta { key, value } => before.insert(key, value),
            _ => before,
        }
    }
}

/// The content hash under a path.
pub open spec fn hash_under(docs: Map<Seq<char>, DocRow>, path: Seq<char>) -> Option<Seq<u8>> {
    if docs.contains_key(path) {
        Some(docs[path].content_hash)
    } else {
        None
    }
}

/// The meta value under a key.
pub open spec fn meta_under(metas: Map<Seq<char>, Seq<char>>, key: Seq<char>) -> Option<
    Seq<char>,
> {
    if metas.contains_key(key) {
        Some(metas[key])
    } else {
        None
    }
}

/// Whether these are the paths of the documents of some roots.
pub open spec fn lists_roots(
    answer: Result<Seq<Seq<char>>, Seq<char>>,
    docs: Map<Seq<char>, DocRow>,
    roots: Seq<Seq<char>>,
) -> bool {
    &&& answer is Ok
    &&& forall|p: Seq<char>| #[trigger]
        answer->Ok_0.contains(p) <==> docs.contains_key(p) && roots.contains(docs[p].source_root)
}

/// Whether a store, which began with `docs` and `metas`, takes every write and
/// gives back what was written.
pub open spec fn remembers(
    store: StoreModel,
    docs: Map<Seq<char>, DocRow>,
    metas: Map<Seq<char>, Seq<char>>,
) -> bool {
    &&& takes_writes(store)
    &&& forall|calls: Seq<StoreCall>, path: Seq<char>| #[trigger]
        (store.hashes)(calls.push(StoreCall::DocumentHash { path })) == Ok::<
            Option<Seq<u8>>,
            Seq<char>,
        >(hash_under(documents_after(docs, calls), path))
    &&& forall|calls: Seq<StoreCall>, key: Seq<char>| #[trigger]
        (store.metas)(calls.push(StoreCall::GetMeta { key })) == Ok::<
            Option<Seq<char>>,
            Seq<char>,
        >(meta_under(metas_after(metas, calls), key))
    &&& forall|calls: Seq<StoreCall>, roots: Seq<Seq<char>>|
        lists_roots(
            #[trigger] (store.lists)(calls.push(StoreCall::PathsForRoots { roots })),
            documents_after(docs, calls),
            roots,
        )
}

/// Whether a reader answers alike whenever it is asked.
pub open spec fn steady_reader(r: ReaderModel) -> bool {
    &&& forall|calls: Seq<ReaderCall>, call: ReaderCall| #[trigger]
        (r.paths)(calls.push(call)) == (r.paths)(seq![call])
    &&& forall|calls: Seq<ReaderCall>, call: ReaderCall| #[trigger]
        (r.contents)(calls.push(call)) == (r.contents)(seq![call])
}

/// Whether a walker finds the same whenever it walks.
pub open spec fn steady_walker(w: WalkerModel) -> bool {
    forall|calls: Seq<Walk>, walk: Walk| #[trigger]
        (w.answers)(calls.push(walk)) == (w.answers)(seq![walk])
}

/// What a file holds, whenever it is read.
pub open spec fn file_bytes(r: ReaderModel, path: Seq<char>) -> Result<Seq<u8>, Seq<char>> {
    (r.contents)(seq![ReaderCall::Read(path)])
}

/// Whether a document has the digest of its file.
pub open spec fn up_to_date(r: ReaderModel, doc: DocRow, path: Seq<char>) -> bool {
    &&& file_bytes(r, path) is Ok
    &&& doc.content_hash == blake3_digest(file_bytes(r, path)->Ok_0)
}

/// What a run starts from: its backends, and the documents and meta values that
/// its store began with.
pub struct Ground {
    pub backends: Backends,
    pub docs: Map<Seq<char>, DocRow>,
    pub metas: Map<Seq<char>, Seq<char>>,
}

/// What is asked of the backends of the first run.
pub open spec fn settled_world(g: Ground) -> bool {
    &&& remembers(g.backends.store, g.docs, g.metas)
    &&& steady_reader(g.backends.reader)
    &&& steady_walker(g.backends.walker)
    &&& answers_in_full(g.backends.image)
    &&& answers_in_full(g.backends.image_text)
}

/// Whether the store holds an up-to-date document under a path.
pub open spec fn holds(g: Ground, calls: Seq<StoreCall>, path: Seq<char>) -> bool {
    let docs = documents_after(g.docs, calls);
    docs.contains_key(path) && up_to_date(g.backends.reader, docs[path], path)
}

/// Whether a document of this path waits for a vector.
spec fn waits(p: PassText, path: Seq<char>) -> bool {
    ||| exists|k: int| 0 <= k < p.images.len() && (#[trigger] p.images[k]).path == path
    ||| exists|k: int| 0 <= k < p.titles.len() && (#[trigger] p.titles[k]).doc.path == path
}

/// Whether two runs have walked alike.
pub open spec fn same_walk(a: PassText, b: PassText) -> bool {
    a.seen == b.seen && a.walked == b.walked && a.report.scanned == b.report.scanned
}

/// Whether the documents of a batch are up to date.
spec fn all_fresh(r: ReaderModel, batch: Seq<DocRow>) -> bool {
    forall|k: int| 0 <= k < batch.len() ==> up_to_date(r, #[trigger] batch[k], batch[k].path)
}

/// Whether the documents of a batch are up to date.
spec fn all_titles_fresh(r: ReaderModel, batch: Seq<TitleText>) -> bool {
    forall|k: int|
        0 <= k < batch.len() ==> up_to_date(r, (#[trigger] batch[k]).doc, batch[k].doc.path)
}

/// What holds of a run at each point, with the documents of some paths in hand:
/// while nothing has failed, each file seen is stored up to date, or waits, or
/// is in hand.
spec fn keeps(g: Ground, set: Map<Seq<char>, Seq<char>>, w: Work, hand: Set<Seq<char>>) -> bool {
    let b = g.backends;
    &&& w.backends.store == (StoreModel { calls: w.backends.store.calls, ..b.store })
    &&& w.backends.reader.paths == b.reader.paths
    &&& w.backends.reader.contents == b.reader.contents
    &&& w.backends.walker.answers == b.walker.answers
    &&& same_embedder(w.backends.image, b.image)
    &&& same_embedder(w.backends.image_text, b.image_text)
    &&& metas_after(g.metas, w.backends.store.calls) == set
    &&& all_fresh(b.reader, w.pass.images)
    &&& all_titles_fresh(b.reader, w.pass.titles)
    &&& w.failed is None && w.pass.report.errors.len() == 0 ==> forall|p: Seq<char>|
        #[trigger] w.pass.seen.contains(p) ==> holds(g, w.backends.store.calls, p) || waits(
            w.pass,
            p,
        ) || hand.contains(p)
}

/// The paths from index `i` on.
spec fn rest(paths: Seq<Seq<char>>, i: nat) -> Set<Seq<char>> {
    Set::new(|p: Seq<char>| exists|k: int| i <= k < paths.len() && #[trigger] paths[k] == p)
}

proof fn rest_step(hand: Set<Seq<char>>, paths: Seq<Seq<char>>, i: nat)
    requires
        i <= paths.len(),
    ensures
        i < paths.len() ==> hand.union(rest(paths, i)) == hand.union(rest(paths, i + 1)).insert(
            paths[i as int],
        ),
        i == paths.len() ==> hand.union(rest(paths, i)) == hand,
{
    if i < paths.len() {
        let a = hand.union(rest(paths, i));
        let c = hand.union(rest(paths, i + 1)).insert(paths[i as int]);
        assert forall|p: Seq<char>| a.contains(p) implies #[trigger] c.contains(p) by {
            if rest(paths, i).contains(p) {
                let k = choose|k: int| i <= k < paths.len() && #[trigger] paths[k] == p;
                if k > i {
                    assert(rest(paths, i + 1).contains(p));
                }
            }
        }
        assert forall|p: Seq<char>| c.contains(p) implies #[trigger] a.contains(p) by {
            if rest(paths, i + 1).contains(p) {
                let k = choose|k: int| i + 1 <= k < paths.len() && #[trigger] paths[k] == p;
                assert(rest(paths, i).contains(p));
            }
            if p == paths[i as int] {
                assert(rest(paths, i).contains(p));
            }
        }
        assert(a =~= c);
    } else {
        assert(hand.union(rest(paths, i)) =~= hand);
    }
}

/// What one more call does to what a store holds.
proof fn one_more_call(g: Ground, calls: Seq<StoreCall>, call: StoreCall)
    ensures
        documents_after(g.docs, calls.push(call)) == match call {
            StoreCall::ReplaceDocument { doc } => documents_after(g.docs, calls).insert(
                doc.path,
                doc,
            ),
            StoreCall::DeleteDocument { path } => documents_after(g.docs, calls).remove(path),
            StoreCall::DeleteByRoot { root } => documents_after(g.docs, calls).restrict(
                Set::new(
                    |p: Seq<char>| documents_after(g.docs, calls)[p].source_root != root,
                ),
            ),
            _ => documents_after(g.docs, calls),
        },
        metas_after(g.metas, calls.push(call)) == match call {
            StoreCall::SetMeta { key, value } => metas_after(g.metas, calls).insert(key, value),
            _ => metas_after(g.metas, calls),
        },
{
    assert(calls.push(call).drop_last() =~= calls);
}

proof fn written_keeps(
    g: Ground,
    set: Map<Seq<char>, Seq<char>>,
    w: Work,
    doc: DocRow,
    hand: Set<Seq<char>>,
)
    requires
        settled_world(g),
        w.failed is None,
        keeps(g, set, w, hand.insert(doc.path)),
        up_to_date(g.backends.reader, doc, doc.path),
    ensures
        keeps(g, set, written(w, doc), hand),
        same_walk(written(w, doc).pass, w.pass),
        written(w, doc).pass.images == w.pass.images,
        written(w, doc).pass.titles == w.pass.titles,
{
    let call = StoreCall::ReplaceDocument { doc };
    let r = written(w, doc);
    one_more_call(g, w.backends.store.calls, call);
    assert((g.backends.store.dones)(w.backends.store.calls.push(call)) is Ok);
    if w.pass.report.errors.len() == 0 {
        assert forall|p: Seq<char>| #[trigger] r.pass.seen.contains(p) implies holds(
            g,
            r.backends.store.calls,
            p,
        ) || waits(r.pass, p) || hand.contains(p) by {
            assert(w.pass.seen.contains(p));
            assert(waits(w.pass, p) ==> waits(r.pass, p));
        }
    }
}

proof fn title_writes_keeps(
    g: Ground,
    set: Map<Seq<char>, Seq<char>>,
    w: Work,
    batch: Seq<TitleText>,
    vectors: Seq<Seq<u32>>,
    i: nat,
    hand: Set<Seq<char>>,
)
    requires
        settled_world(g),
        i <= batch.len(),
        vectors.len() == batch.len(),
        keeps(g, set, w, hand.union(rest(title_paths(batch), i))),
        all_titles_fresh(g.backends.reader, batch),
    ensures
        keeps(g, set, title_writes(w, batch, vectors, i), hand),
        same_walk(title_writes(w, batch, vectors, i).pass, w.pass),
        title_writes(w, batch, vectors, i).pass.images == w.pass.images,
        title_writes(w, batch, vectors, i).pass.titles == w.pass.titles,
    decreases batch.len() - i,
{
    rest_step(hand, title_paths(batch), i);
    if w.failed is Some || i >= batch.len() {
    } else {
        let doc = with_title(batch[i as int].doc, vectors[i as int]);
        assert(title_paths(batch)[i as int] == doc.path);
        assert(up_to_date(g.backends.reader, batch[i as int].doc, doc.path));
        written_keeps(g, set, w, doc, hand.union(rest(title_paths(batch), i + 1)));
        title_writes_keeps(g, set, written(w, doc), batch, vectors, i + 1, hand);
    }
}

proof fn title_retries_keeps(
    g: Ground,
    set: Map<Seq<char>, Seq<char>>,
    w: Work,
    batch: Seq<TitleText>,
    i: nat,
    fail_fast: bool,
    hand: Set<Seq<char>>,
)
    requires
        settled_world(g),
        i <= batch.len(),
        keeps(g, set, w, hand.union(rest(title_paths(batch), i))),
        all_titles_fresh(g.backends.reader, batch),
    ensures
        keeps(g, set, title_retries(w, batch, i, fail_fast), hand),
        same_walk(title_retries(w, batch, i, fail_fast).pass, w.pass),
        title_retries(w, batch, i, fail_fast).pass.images == w.pass.images,
        title_retries(w, batch, i, fail_fast).pass.titles == w.pass.titles,
    decreases batch.len() - i,
{
    rest_step(hand, title_paths(batch), i);
    if w.failed is Some || i >= batch.len() {
    } else {
        let item = batch[i as int];
        let left = hand.union(rest(title_paths(batch), i + 1));
        assert(title_paths(batch)[i as int] == item.doc.path);
        assert(up_to_date(g.backends.reader, item.doc, item.doc.path));
        let next = title_retry(w, item, fail_fast);
        if let Some(m) = w.backends.image_text {
            let inputs = seq![item.doc.title];
            let asked = Work {
                backends: Backends { image_text: Some(m.after(inputs)), ..w.backends },
                ..w
            };
            assert(keeps(g, set, asked, left.insert(item.doc.path)));
            match m.embedded(inputs) {
                Ok(vectors) => {
                    let doc = with_title(item.doc, vectors[0]);
                    written_keeps(g, set, asked, doc, left);
                },
                Err(_) => {},
            }
        }
        assert(keeps(g, set, next, left));
        title_retries_keeps(g, set, next, batch, i + 1, fail_fast, hand);
    }
}

proof fn flush_titles_keeps(
    g: Ground,
    set: Map<Seq<char>, Seq<char>>,
    w: Work,
    fail_fast: bool,
    hand: Set<Seq<char>>,
)
    requires
        settled_world(g),
        w.failed is None,
        keeps(g, set, w, hand),
    ensures
        keeps(g, set, flush_titles(w, fail_fast), hand),
        same_walk(flush_titles(w, fail_fast).pass, w.pass),
        flush_titles(w, fail_fast).pass.images == w.pass.images,
        flush_titles(w, fail_fast).pass.titles.len() == 0,
{
    let batch = w.pass.titles;
    if batch.len() > 0 {
        if let Some(m) = w.backends.image_text {
            let inputs = titles_of(batch);
            let asked = Work {
                backends: Backends { image_text: Some(m.after(inputs)), ..w.backends },
                pass: PassText { titles: seq![], ..w.pass },
                ..w
            };
            let left = hand.union(rest(title_paths(batch), 0));
            if w.pass.report.errors.len() == 0 {
                assert forall|p: Seq<char>| #[trigger] asked.pass.seen.contains(p) implies holds(
                    g,
                    asked.backends.store.calls,
                    p,
                ) || waits(asked.pass, p) || left.contains(p) by {
                    assert(w.pass.seen.contains(p));
                    if waits(w.pass, p) {
                        if exists|k: int|
                            0 <= k < batch.len() && (#[trigger] batch[k]).doc.path == p {
                            let k = choose|k: int|
                                0 <= k < batch.len() && (#[trigger] batch[k]).doc.path == p;
                            assert(title_paths(batch)[k] == p);
                            assert(rest(title_paths(batch), 0).contains(p));
                        } else {
                            assert(waits(asked.pass, p));
                        }
                    }
                }
            }
            assert(keeps(g, set, asked, left));
            assert(m.calls.push(inputs).last() == inputs);
            match m.embedded(inputs) {
                Ok(vectors) => {
                    title_writes_keeps(g, set, asked, batch, vectors, 0, hand);
                },
                Err(_) => {
                    title_retries_keeps(g, set, asked, batch, 0, fail_fast, hand);
                },
            }
        }
    }
}

proof fn finish_image_keeps(
    g: Ground,
    set: Map<Seq<char>, Seq<char>>,
    w: Work,
    doc: DocRow,
    vector: Seq<u32>,
    o: Options,
    hand: Set<Seq<char>>,
)
    requires
        settled_world(g),
        w.failed is None,
        keeps(g, set, w, hand.insert(doc.path)),
        up_to_date(g.backends.reader, doc, doc.path),
    ensures
        keeps(g, set, flush_full_titles(finish_image(w, doc, vector), o), hand),
        same_walk(flush_full_titles(finish_image(w, doc, vector), o).pass, w.pass),
        flush_full_titles(finish_image(w, doc, vector), o).pass.images == w.pass.images,
{
    let image = with_image(doc, vector);
    let done = finish_image(w, doc, vector);
    if w.backends.image_text is Some {
        let n = w.pass.titles.len();
        assert(done.pass.titles[n as int].doc.path == doc.path);
        assert forall|k: int| 0 <= k < done.pass.titles.len() implies up_to_date(
            g.backends.reader,
            (#[trigger] done.pass.titles[k]).doc,
            done.pass.titles[k].doc.path,
        ) by {
            if k < n {
                assert(done.pass.titles[k] == w.pass.titles[k]);
            }
        }
        if w.pass.report.errors.len() == 0 {
            assert forall|p: Seq<char>| #[trigger] done.pass.seen.contains(p) implies holds(
                g,
                done.backends.store.calls,
                p,
            ) || waits(done.pass, p) || hand.contains(p) by {
                assert(w.pass.seen.contains(p));
                if waits(w.pass, p) {
                    if exists|k: int| 0 <= k < n && (#[trigger] w.pass.titles[k]).doc.path == p {
                        let k = choose|k: int|
                            0 <= k < n && (#[trigger] w.pass.titles[k]).doc.path == p;
                        assert(done.pass.titles[k].doc.path == p);
                    }
                    assert(waits(done.pass, p));
                }
            }
        }
        assert(keeps(g, set, done, hand));
    } else {
        written_keeps(g, set, w, image, hand);
    }
    if done.failed is None && done.pass.titles.len() >= o.batch {
        flush_titles_keeps(g, set, done, o.fail_fast, hand);
    }
}

proof fn image_writes_keeps(
    g: Ground,
    set: Map<Seq<char>, Seq<char>>,
    w: Work,
    batch: Seq<DocRow>,
    vectors: Seq<Seq<u32>>,
    i: nat,
    o: Options,
    hand: Set<Seq<char>>,
)
    requires
        settled_world(g),
        i <= batch.len(),
        vectors.len() == batch.len(),
        keeps(g, set, w, hand.union(rest(paths_of(batch), i))),
        all_fresh(g.backends.reader, batch),
    ensures
        keeps(g, set, image_writes(w, batch, vectors, i, o), hand),
        same_walk(image_writes(w, batch, vectors, i, o).pass, w.pass),
        image_writes(w, batch, vectors, i, o).pass.images == w.pass.images,
    decreases batch.len() - i,
{
    rest_step(hand, paths_of(batch), i);
    if w.failed is Some || i >= batch.len() {
    } else {
        let doc = batch[i as int];
        assert(paths_of(batch)[i as int] == doc.path);
        let left = hand.union(rest(paths_of(batch), i + 1));
        finish_image_keeps(g, set, w, doc, vectors[i as int], o, left);
        let next = flush_full_titles(finish_image(w, doc, vectors[i as int]), o);
        image_writes_keeps(g, set, next, batch, vectors, i + 1, o, hand);
    }
}

proof fn image_retries_keeps(
    g: Ground,
    set: Map<Seq<char>, Seq<char>>,
    w: Work,
    batch: Seq<DocRow>,
    i: nat,
    o: Options,
    hand: Set<Seq<char>>,
)
    requires
        settled_world(g),
        i <= batch.len(),
        keeps(g, set, w, hand.union(rest(paths_of(batch), i))),
        all_fresh(g.backends.reader, batch),
    ensures
        keeps(g, set, image_retries(w, batch, i, o), hand),
        same_walk(image_retries(w, batch, i, o).pass, w.pass),
        image_retries(w, batch, i, o).pass.images == w.pass.images,
    decreases batch.len() - i,
{
    rest_step(hand, paths_of(batch), i);
    if w.failed is Some || i >= batch.len() {
    } else {
        let doc = batch[i as int];
        assert(paths_of(batch)[i as int] == doc.path);
        let left = hand.union(rest(paths_of(batch), i + 1));
        let next = image_retry(w, doc, o);
        if let Some(m) = w.backends.image {
            let inputs = seq![doc.path];
            let asked = Work {
                backends: Backends { image: Some(m.after(inputs)), ..w.backends },
                ..w
            };
            assert(keeps(g, set, asked, left.insert(doc.path)));
            match m.embedded(inputs) {
                Ok(vectors) => {
                    finish_image_keeps(g, set, asked, doc, vectors[0], o, left);
                },
                Err(_) => {},
            }
        }
        assert(keeps(g, set, next, left));
        image_retries_keeps(g, set, next, batch, i + 1, o, hand);
    }
}

proof fn flush_images_keeps(
    g: Ground,
    set: Map<Seq<char>, Seq<char>>,
    w: Work,
    o: Options,
    hand: Set<Seq<char>>,
)
    requires
        settled_world(g),
        w.failed is None,
        keeps(g, set, w, hand),
    ensures
        keeps(g, set, flush_images(w, o), hand),
        same_walk(flush_images(w, o).pass, w.pass),
        flush_images(w, o).pass.images.len() == 0,
{
    let batch = w.pass.images;
    if batch.len() > 0 {
        if let Some(m) = w.backends.image {
            let inputs = paths_of(batch);
            let asked = Work {
                backends: Backends { image: Some(m.after(inputs)), ..w.backends },
                pass: PassText { images: seq![], ..w.pass },
                ..w
            };
            let left = hand.union(rest(paths_of(batch), 0));
            if w.pass.report.errors.len() == 0 {
                assert forall|p: Seq<char>| #[trigger] asked.pass.seen.contains(p) implies holds(
                    g,
                    asked.backends.store.calls,
                    p,
                ) || waits(asked.pass, p) || left.contains(p) by {
                    assert(w.pass.seen.contains(p));
                    if waits(w.pass, p) {
                        if exists|k: int|
                            0 <= k < batch.len() && (#[trigger] batch[k]).path == p {
                            let k = choose|k: int|
                                0 <= k < batch.len() && (#[trigger] batch[k]).path == p;
                            assert(paths_of(batch)[k] == p);
                            assert(rest(paths_of(batch), 0).contains(p));
                        } else {
                            assert(waits(asked.pass, p));
                        }
                    }
                }
            }
            assert(keeps(g, set, asked, left));
            assert(m.calls.push(inputs).last() == inputs);
            match m.embedded(inputs) {
                Ok(vectors) => {
                    image_writes_keeps(g, set, asked, batch, vectors, 0, o, hand);
                },
                Err(_) => {
                    image_retries_keeps(g, set, asked, batch, 0, o, hand);
                },
            }
        }
    }
}

/// Reading a file and looking up its digest keeps what a run keeps. A file that
/// counts as unchanged is stored up to date.
proof fn changed_bytes_keeps(
    g: Ground,
    set: Map<Seq<char>, Seq<char>>,
    w: Work,
    path: Seq<char>,
    force: bool,
    hand: Set<Seq<char>>,
)
    requires
        settled_world(g),
        keeps(g, set, w, hand),
    ensures
        ({
            let read = changed_bytes(w.backends, path, force);
            let r = Work { backends: read.backends, ..w };
            &&& keeps(g, set, r, hand)
            &&& read.answer == Ok::<Option<Seq<u8>>, Seq<char>>(None) ==> holds(
                g,
                r.backends.store.calls,
                path,
            )
            &&& read.answer is Ok && read.answer->Ok_0 is Some ==> file_bytes(
                g.backends.reader,
                path,
            ) == Ok::<Seq<u8>, Seq<char>>(read.answer->Ok_0->0)
        }),
{
    one_more_call(g, w.backends.store.calls, StoreCall::DocumentHash { path });
    let read = changed_bytes(w.backends, path, force);
    let r = Work { backends: read.backends, ..w };
    assert(w.backends.reader.bytes(path) == file_bytes(g.backends.reader, path));
    if w.failed is None && w.pass.report.errors.len() == 0 {
        assert forall|p: Seq<char>| #[trigger] r.pass.seen.contains(p) implies holds(
            g,
            r.backends.store.calls,
            p,
        ) || waits(r.pass, p) || hand.contains(p) by {
            assert(w.pass.seen.contains(p));
        }
    }
}

proof fn image_step_keeps(
    g: Ground,
    set: Map<Seq<char>, Seq<char>>,
    w: Work,
    path: Seq<char>,
    root: Seq<char>,
    o: Options,
)
    requires
        settled_world(g),
        w.failed is None,
        keeps(g, set, w, Set::empty().insert(path)),
    ensures
        keeps(g, set, image_step(w, path, root, o), Set::empty()),
        same_walk(image_step(w, path, root, o).pass, w.pass),
{
    let hand = Set::<Seq<char>>::empty().insert(path);
    changed_bytes_keeps(g, set, w, path, o.force, hand);
    let staged = staged_image(w.backends, path, root, o.force);
    if let Ok(Some(doc)) = staged.answer {
        let kept = Work {
            backends: staged.backends,
            pass: PassText { images: w.pass.images.push(doc), ..w.pass },
            ..w
        };
        let n = w.pass.images.len();
        assert(kept.pass.images[n as int].path == path);
        assert forall|k: int| 0 <= k < kept.pass.images.len() implies up_to_date(
            g.backends.reader,
            #[trigger] kept.pass.images[k],
            kept.pass.images[k].path,
        ) by {
            if k < n {
                assert(kept.pass.images[k] == w.pass.images[k]);
            }
        }
        if w.pass.report.errors.len() == 0 {
            let read = changed_bytes(w.backends, path, o.force);
            let r = Work { backends: read.backends, ..w };
            assert forall|p: Seq<char>| #[trigger] kept.pass.seen.contains(p) implies holds(
                g,
                kept.backends.store.calls,
                p,
            ) || waits(kept.pass, p) by {
                assert(r.pass.seen.contains(p));
                if waits(r.pass, p) {
                    if exists|k: int| 0 <= k < n && (#[trigger] w.pass.images[k]).path == p {
                        let k = choose|k: int|
                            0 <= k < n && (#[trigger] w.pass.images[k]).path == p;
                        assert(kept.pass.images[k].path == p);
                    }
                    assert(waits(kept.pass, p));
                }
            }
        }
        assert(keeps(g, set, kept, Set::empty()));
        flush_images_keeps(g, set, kept, o, Set::empty());
    } else if let Ok(None) = staged.answer {
        let r = image_step(w, path, root, o);
        if w.pass.report.errors.len() == 0 {
            assert forall|p: Seq<char>| #[trigger] r.pass.seen.contains(p) implies holds(
                g,
                r.backends.store.calls,
                p,
            ) || waits(r.pass, p) by {
                let read = changed_bytes(w.backends, path, o.force);
                let before = Work { backends: read.backends, ..w };
                assert(before.pass.seen.contains(p));
                assert(waits(before.pass, p) ==> waits(r.pass, p));
            }
        }
    }
}

proof fn markdown_step_keeps(
    g: Ground,
    set: Map<Seq<char>, Seq<char>>,
    w: Work,
    path: Seq<char>,
    root: Seq<char>,
    o: Options,
)
    requires
        settled_world(g),
        w.failed is None,
        keeps(g, set, w, Set::empty().insert(path)),
    ensures
        keeps(g, set, markdown_step(w, path, root, o), Set::empty()),
        same_walk(markdown_step(w, path, root, o).pass, w.pass),
{
    let hand = Set::<Seq<char>>::empty().insert(path);
    changed_bytes_keeps(g, set, w, path, o.force, hand);
    let staged = staged_markdown(w.backends, path, root, o);
    let read = changed_bytes(w.backends, path, o.force);
    let before = Work { backends: read.backends, ..w };
    if let Ok(Some(doc)) = staged.answer {
        let ready = Work { backends: staged.backends, ..w };
        assert(up_to_date(g.backends.reader, doc, path));
        assert(doc.path == path);
        assert(ready.backends.store == before.backends.store);
        assert(keeps(g, set, ready, hand)) by {
            if w.pass.report.errors.len() == 0 {
                assert forall|p: Seq<char>| #[trigger] ready.pass.seen.contains(p) implies holds(
                    g,
                    ready.backends.store.calls,
                    p,
                ) || waits(ready.pass, p) || hand.contains(p) by {
                    assert(before.pass.seen.contains(p));
                }
            }
        }
        if w.backends.image_text is Some {
            let kept = Work {
                pass: PassText {
                    titles: w.pass.titles.push(TitleText { doc, markdown: true }),
                    ..w.pass
                },
                ..ready
            };
            let n = w.pass.titles.len();
            assert(kept.pass.titles[n as int].doc.path == path);
            assert forall|k: int| 0 <= k < kept.pass.titles.len() implies up_to_date(
                g.backends.reader,
                (#[trigger] kept.pass.titles[k]).doc,
                kept.pass.titles[k].doc.path,
            ) by {
                if k < n {
                    assert(kept.pass.titles[k] == w.pass.titles[k]);
                }
            }
            if w.pass.report.errors.len() == 0 {
                assert forall|p: Seq<char>| #[trigger] kept.pass.seen.contains(p) implies holds(
                    g,
                    kept.backends.store.calls,
                    p,
                ) || waits(kept.pass, p) by {
                    assert(ready.pass.seen.contains(p));
                    if waits(ready.pass, p) {
                        if exists|k: int|
                            0 <= k < n && (#[trigger] w.pass.titles[k]).doc.path == p {
                            let k = choose|k: int|
                                0 <= k < n && (#[trigger] w.pass.titles[k]).doc.path == p;
                            assert(kept.pass.titles[k].doc.path == p);
                        }
                        assert(waits(kept.pass, p));
                    }
                }
            }
            assert(keeps(g, set, kept, Set::empty()));
            if kept.pass.titles.len() >= o.batch {
                flush_titles_keeps(g, set, kept, o.fail_fast, Set::empty());
            }
        } else {
            written_keeps(g, set, ready, doc, Set::empty());
        }
    } else if let Ok(None) = staged.answer {
        let r = markdown_step(w, path, root, o);
        if w.pass.report.errors.len() == 0 {
            assert forall|p: Seq<char>| #[trigger] r.pass.seen.contains(p) implies holds(
                g,
                r.backends.store.calls,
                p,
            ) || waits(r.pass, p) by {
                assert(before.pass.seen.contains(p));
                assert(waits(before.pass, p) ==> waits(r.pass, p));
            }
        }
    }
}

proof fn file_step_keeps(
    g: Ground,
    set: Map<Seq<char>, Seq<char>>,
    w: Work,
    file: FoundText,
    root: Seq<char>,
    o: Options,
)
    requires
        settled_world(g),
        w.failed is None,
        keeps(g, set, w, Set::empty()),
    ensures
        keeps(g, set, file_step(w, file, root, o), Set::empty()),
        ({
            let path = w.backends.reader.canonical(file.path)->Ok_0;
            let r = file_step(w, file, root, o);
            &&& r.pass.walked == w.pass.walked
            &&& r.pass.report.scanned == w.pass.report.scanned
            &&& w.backends.reader.canonical(file.path) is Ok ==> r.pass.seen
                == w.pass.seen.insert(path)
            &&& w.backends.reader.canonical(file.path) is Err ==> r.failed is Some && r.pass.seen
                == w.pass.seen
        }),
{
    let reader = w.backends.reader.after(ReaderCall::Canonicalize(file.path));
    let none = Set::<Seq<char>>::empty();
    if let Ok(path) = w.backends.reader.canonical(file.path) {
        if w.pass.seen.contains(path) {
            assert(w.pass.seen.insert(path) =~= w.pass.seen);
            let r = file_step(w, file, root, o);
            assert forall|p: Seq<char>|
                w.pass.report.errors.len() == 0 && #[trigger] r.pass.seen.contains(p) implies holds(
                g,
                r.backends.store.calls,
                p,
            ) || waits(r.pass, p) by {
                assert(w.pass.seen.contains(p));
                assert(waits(w.pass, p) ==> waits(r.pass, p));
            }
        } else {
            let fresh = Work {
                backends: Backends { reader, ..w.backends },
                pass: PassText { seen: w.pass.seen.insert(path), ..w.pass },
                ..w
            };
            let hand = none.insert(path);
            assert forall|p: Seq<char>|
                w.pass.report.errors.len() == 0 && #[trigger] fresh.pass.seen.contains(
                    p,
                ) implies holds(g, fresh.backends.store.calls, p) || waits(fresh.pass, p)
                || hand.contains(p) by {
                if p != path {
                    assert(w.pass.seen.contains(p));
                    assert(waits(w.pass, p) ==> waits(fresh.pass, p));
                }
            }
            assert(keeps(g, set, fresh, hand));
            let done = match file.kind {
                DocKind::Markdown => {
                    markdown_step_keeps(g, set, fresh, path, root, o);
                    markdown_step(fresh, path, root, o)
                },
                DocKind::Image => {
                    image_step_keeps(g, set, fresh, path, root, o);
                    image_step(fresh, path, root, o)
                },
            };
            let r = file_step(w, file, root, o);
            assert forall|p: Seq<char>|
                r.failed is None && r.pass.report.errors.len() == 0
                    && #[trigger] r.pass.seen.contains(p) implies holds(
                g,
                r.backends.store.calls,
                p,
            ) || waits(r.pass, p) by {
                assert(done.pass.seen.contains(p));
                assert(waits(done.pass, p) ==> waits(r.pass, p));
            }
        }
    }
}

proof fn file_steps_keeps(
    g: Ground,
    set: Map<Seq<char>, Seq<char>>,
    w: Work,
    files: Seq<FoundText>,
    i: nat,
    root: Seq<char>,
    o: Options,
)
    requires
        settled_world(g),
        keeps(g, set, w, Set::empty()),
    ensures
        keeps(g, set, file_steps(w, files, i, root, o), Set::empty()),
        w.pass.seen.subset_of(file_steps(w, files, i, root, o).pass.seen),
    decreases files.len() - i,
{
    if w.failed is Some || i >= files.len() {
    } else {
        file_step_keeps(g, set, w, files[i as int], root, o);
        file_steps_keeps(g, set, file_step(w, files[i as int], root, o), files, i + 1, root, o);
    }
}

proof fn entered_keeps(
    g: Ground,
    set: Map<Seq<char>, Seq<char>>,
    w: Work,
    root: Seq<char>,
    canon: Seq<char>,
    walk: Walk,
    n: nat,
)
    requires
        keeps(g, set, w, Set::empty()),
    ensures
        keeps(g, set, entered(w, root, canon, walk, n), Set::empty()),
{
    let r = entered(w, root, canon, walk, n);
    assert forall|p: Seq<char>|
        w.failed is None && w.pass.report.errors.len() == 0 && #[trigger] r.pass.seen.contains(
            p,
        ) implies holds(g, r.backends.store.calls, p) || waits(r.pass, p) by {
        assert(w.pass.seen.contains(p));
        assert(waits(w.pass, p) ==> waits(r.pass, p));
    }
}

proof fn root_step_keeps(
    g: Ground,
    set: Map<Seq<char>, Seq<char>>,
    w: Work,
    root: Seq<char>,
    globs: Seq<Seq<char>>,
    o: Options,
)
    requires
        settled_world(g),
        w.failed is None,
        keeps(g, set, w, Set::empty()),
    ensures
        keeps(g, set, root_step(w, root, globs, o), Set::empty()),
        w.pass.seen.subset_of(root_step(w, root, globs, o).pass.seen),
{
    let r = root_step(w, root, globs, o);
    match w.backends.reader.canonical(root) {
        Ok(canon) => {
            let walk = Walk { root: canon, ignore_globs: globs };
            if let Ok(files) = w.backends.walker.found(walk) {
                let told = entered(w, root, canon, walk, files.len());
                entered_keeps(g, set, w, root, canon, walk, files.len());
                file_steps_keeps(g, set, told, files, 0, canon, o);
                assert(r == file_steps(told, files, 0, canon, o));
            }
        },
        Err(_) => {
            assert forall|p: Seq<char>|
                w.pass.report.errors.len() == 0 && #[trigger] r.pass.seen.contains(p) implies holds(
                g,
                r.backends.store.calls,
                p,
            ) || waits(r.pass, p) by {
                assert(w.pass.seen.contains(p));
                assert(waits(w.pass, p) ==> waits(r.pass, p));
            }
        },
    }
}

proof fn root_steps_keeps(
    g: Ground,
    set: Map<Seq<char>, Seq<char>>,
    w: Work,
    roots: Seq<Seq<char>>,
    i: nat,
    globs: Seq<Seq<char>>,
    o: Options,
)
    requires
        settled_world(g),
        keeps(g, set, w, Set::empty()),
    ensures
        keeps(g, set, root_steps(w, roots, i, globs, o), Set::empty()),
        w.pass.seen.subset_of(root_steps(w, roots, i, globs, o).pass.seen),
    decreases roots.len() - i,
{
    if w.failed is Some || i >= roots.len() {
    } else {
        root_step_keeps(g, set, w, roots[i as int], globs, o);
        root_steps_keeps(g, set, root_step(w, roots[i as int], globs, o), roots, i + 1, globs, o);
    }
}

/// What pruning leaves in the store: all but the listed paths from `i` on that
/// were not seen.
proof fn prune_steps_leave(g: Ground, w: Work, paths: Seq<Seq<char>>, i: nat)
    requires
        settled_world(g),
        w.failed is None,
        w.backends.store == (StoreModel {
            calls: w.backends.store.calls,
            ..g.backends.store
        }),
    ensures
        ({
            let r = prune_steps(w, paths, i);
            let before = documents_after(g.docs, w.backends.store.calls);
            let after = documents_after(g.docs, r.backends.store.calls);
            &&& r.failed is None
            &&& same_walk(r.pass, w.pass)
            &&& r.pass.report.errors == w.pass.report.errors
            &&& r.backends.store == (StoreModel {
                calls: r.backends.store.calls,
                ..g.backends.store
            })
            &&& metas_after(g.metas, r.backends.store.calls) == metas_after(
                g.metas,
                w.backends.store.calls,
            )
            &&& forall|p: Seq<char>| #[trigger]
                after.contains_key(p) <==> before.contains_key(p) && (w.pass.seen.contains(p)
                    || !rest(paths, i).contains(p))
            &&& forall|p: Seq<char>| #[trigger] after.contains_key(p) ==> after[p] == before[p]
        }),
    decreases paths.len() - i,
{
    if i < paths.len() {
        let path = paths[i as int];
        let call = StoreCall::DeleteDocument { path };
        let next = prune_step(w, path);
        one_more_call(g, w.backends.store.calls, call);
        assert((g.backends.store.dones)(w.backends.store.calls.push(call)) is Ok);
        prune_steps_leave(g, next, paths, i + 1);
        rest_step(Set::empty(), paths, i);
        let none = Set::<Seq<char>>::empty();
        assert(none.union(rest(paths, i)) =~= rest(paths, i));
        assert(none.union(rest(paths, i + 1)) =~= rest(paths, i + 1));
    }
}

/// Whether the recorded models are those of the embedders in use.
pub open spec fn models_recorded(metas: Map<Seq<char>, Seq<char>>, b: Backends) -> bool {
    &&& meta_under(metas, "model.text"@) == Some(b.text.model_id)
    &&& b.image is Some ==> meta_under(metas, "model.image_vision"@) == Some(
        b.image->0.model_id,
    )
    &&& b.image_text is Some ==> meta_under(metas, "model.image_text"@) == Some(
        b.image_text->0.model_id,
    )
}

/// Whether a run has done nothing yet but ask its store, or set meta values.
spec fn untouched(g: Ground, w: Work) -> bool {
    &&& w.pass == no_pass()
    &&& w.backends == (Backends {
        store: StoreModel { calls: w.backends.store.calls, ..g.backends.store },
        ..g.backends
    })
    &&& g.backends.store.calls.len() <= w.backends.store.calls.len()
    &&& quiet_since(w.backends.store.calls, g.backends.store.calls)
    &&& documents_after(g.docs, w.backends.store.calls) == documents_after(
        g.docs,
        g.backends.store.calls,
    )
}

/// Whether `calls` goes on from `then` without writing or deleting a document.
pub open spec fn quiet_since(calls: Seq<StoreCall>, then: Seq<StoreCall>) -> bool {
    &&& then.len() <= calls.len()
    &&& then =~= calls.take(then.len() as int)
    &&& forall|k: int| then.len() <= k < calls.len() ==> !writes(#[trigger] calls[k])
}

/// Whether a call writes or deletes documents.
pub open spec fn writes(call: StoreCall) -> bool {
    match call {
        StoreCall::ReplaceDocument { .. } => true,
        StoreCall::DeleteDocument { .. } => true,
        StoreCall::DeleteByRoot { .. } => true,
        _ => false,
    }
}

proof fn quiet_push(calls: Seq<StoreCall>, then: Seq<StoreCall>, call: StoreCall)
    requires
        quiet_since(calls, then),
        !writes(call),
    ensures
        quiet_since(calls.push(call), then),
{
    let n = then.len() as int;
    assert(calls.push(call).take(n) =~= calls.take(n));
    assert forall|k: int| then.len() <= k < calls.push(call).len() implies !writes(
        #[trigger] calls.push(call)[k],
    ) by {
        if k < calls.len() {
            assert(calls.push(call)[k] == calls[k]);
        }
    }
}

proof fn guard_step_untouched(g: Ground, w: Work, key: Seq<char>, id: Seq<char>)
    requires
        remembers(g.backends.store, g.docs, g.metas),
        untouched(g, w),
    ensures
        untouched(g, guard_step(w, key, id)),
        metas_after(g.metas, guard_step(w, key, id).backends.store.calls) == metas_after(
            g.metas,
            w.backends.store.calls,
        ),
        w.failed is None && meta_under(metas_after(g.metas, w.backends.store.calls), key) == Some(
            id,
        ) ==> guard_step(w, key, id).failed is None,
{
    let call = StoreCall::GetMeta { key };
    one_more_call(g, w.backends.store.calls, call);
    quiet_push(w.backends.store.calls, g.backends.store.calls, call);
}

proof fn guarded_untouched(g: Ground, w: Work, force: bool)
    requires
        remembers(g.backends.store, g.docs, g.metas),
        untouched(g, w),
    ensures
        untouched(g, guarded(w, force)),
        metas_after(g.metas, guarded(w, force).backends.store.calls) == metas_after(
            g.metas,
            w.backends.store.calls,
        ),
        w.failed is None && models_recorded(
            metas_after(g.metas, w.backends.store.calls),
            g.backends,
        ) ==> guarded(w, force).failed is None,
{
    if !force {
        let b = w.backends;
        let text = guard_step(w, "model.text"@, b.text.model_id);
        guard_step_untouched(g, w, "model.text"@, b.text.model_id);
        let image = guard_opt(text, "model.image_vision"@, b.image);
        if let Some(m) = b.image {
            guard_step_untouched(g, text, "model.image_vision"@, m.model_id);
        }
        if let Some(m) = b.image_text {
            guard_step_untouched(g, image, "model.image_text"@, m.model_id);
        }
    }
}

proof fn meta_step_untouched(g: Ground, w: Work, key: Seq<char>, value: Seq<char>)
    requires
        remembers(g.backends.store, g.docs, g.metas),
        untouched(g, w),
        w.failed is None,
    ensures
        untouched(g, meta_step(w, key, value)),
        meta_step(w, key, value).failed is None,
        metas_after(g.metas, meta_step(w, key, value).backends.store.calls) == metas_after(
            g.metas,
            w.backends.store.calls,
        ).insert(key, value),
{
    let call = StoreCall::SetMeta { key, value };
    one_more_call(g, w.backends.store.calls, call);
    quiet_push(w.backends.store.calls, g.backends.store.calls, call);
    assert((g.backends.store.dones)(w.backends.store.calls.push(call)) is Ok);
}

proof fn recorded_untouched(g: Ground, w: Work)
    requires
        remembers(g.backends.store, g.docs, g.metas),
        untouched(g, w),
        w.failed is None,
    ensures
        untouched(g, recorded(w)),
        recorded(w).failed is None,
        models_recorded(
            metas_after(g.metas, recorded(w).backends.store.calls),
            g.backends,
        ),
{
    reveal_strlit("model.text");
    reveal_strlit("dim.text");
    reveal_strlit("model.image_vision");
    reveal_strlit("dim.image");
    reveal_strlit("model.image_text");
    assert("model.text"@.len() == 10);
    assert("dim.text"@.len() == 8);
    assert("model.image_vision"@.len() == 18);
    assert("dim.image"@.len() == 9);
    assert("model.image_text"@.len() == 16);
    let b = w.backends;
    let model = meta_step(w, "model.text"@, b.text.model_id);
    meta_step_untouched(g, w, "model.text"@, b.text.model_id);
    let dim = crate::text::decimal(b.text.dim as nat);
    let text = meta_step(model, "dim.text"@, dim);
    meta_step_untouched(g, model, "dim.text"@, dim);
    let image = match b.image {
        Some(m) => {
            let vision = meta_step(text, "model.image_vision"@, m.model_id);
            let dim = crate::text::decimal(m.dim as nat);
            meta_step_untouched(g, text, "model.image_vision"@, m.model_id);
            meta_step_untouched(g, vision, "dim.image"@, dim);
            meta_step(vision, "dim.image"@, dim)
        },
        None => text,
    };
    if let Some(m) = b.image_text {
        meta_step_untouched(g, image, "model.image_text"@, m.model_id);
    }
}

/// What a run that succeeds without errors leaves behind.
proof fn first_run(g: Ground, roots: Seq<Seq<char>>, globs: Seq<Seq<char>>, o: Options)
    requires
        settled_world(g),
        indexed(g.backends, roots, globs, o).failed is None,
        indexed(g.backends, roots, globs, o).pass.report.errors.len() == 0,
    ensures
        ({
            let r = indexed(g.backends, roots, globs, o);
            let start = Work { backends: g.backends, pass: no_pass(), failed: None };
            let ready = recorded(guarded(start, o.force));
            let walked = root_steps(ready, roots, 0, globs, o);
            let set = metas_after(g.metas, ready.backends.store.calls);
            let docs = documents_after(g.docs, r.backends.store.calls);
            &&& ready.pass == no_pass()
            &&& ready.failed is None
            &&& keeps(g, set, ready, Set::empty())
            &&& walked.failed is None
            &&& same_walk(r.pass, walked.pass)
            &&& r.backends.store == (StoreModel {
                calls: r.backends.store.calls,
                ..g.backends.store
            })
            &&& models_recorded(metas_after(g.metas, r.backends.store.calls), g.backends)
            &&& forall|p: Seq<char>| #[trigger]
                r.pass.seen.contains(p) ==> holds(g, r.backends.store.calls, p)
            &&& forall|p: Seq<char>| #[trigger]
                docs.contains_key(p) && r.pass.walked.contains(docs[p].source_root)
                    ==> r.pass.seen.contains(p)
        }),
{
    let r = indexed(g.backends, roots, globs, o);
    let start = Work { backends: g.backends, pass: no_pass(), failed: None };
    let then = g.backends.store.calls;
    assert(then.take(then.len() as int) =~= then);
    guarded_untouched(g, start, o.force);
    let checked = guarded(start, o.force);
    recorded_untouched(g, checked);
    let ready = recorded(checked);
    let set = metas_after(g.metas, ready.backends.store.calls);
    let none = Set::<Seq<char>>::empty();
    root_steps_keeps(g, set, ready, roots, 0, globs, o);
    let walked = root_steps(ready, roots, 0, globs, o);
    flush_images_keeps(g, set, walked, o, none);
    let images = flush_images(walked, o);
    flush_titles_keeps(g, set, images, o.fail_fast, none);
    let titles = flush_titles(images, o.fail_fast);
    let call = StoreCall::PathsForRoots { roots: titles.pass.walked };
    let calls = titles.backends.store.calls;
    one_more_call(g, calls, call);
    let listed = Work {
        backends: Backends { store: titles.backends.store.after(call), ..titles.backends },
        ..titles
    };
    let paths = titles.backends.store.list(call)->Ok_0;
    assert(lists_roots(
        (g.backends.store.lists)(calls.push(call)),
        documents_after(g.docs, calls),
        titles.pass.walked,
    ));
    prune_steps_leave(g, listed, paths, 0);
    let before = documents_after(g.docs, calls);
    let docs = documents_after(g.docs, r.backends.store.calls);
    assert forall|p: Seq<char>| #[trigger] r.pass.seen.contains(p) implies holds(
        g,
        r.backends.store.calls,
        p,
    ) by {
        assert(titles.pass.seen.contains(p));
        assert(docs.contains_key(p));
    }
    assert forall|p: Seq<char>| #[trigger]
        docs.contains_key(p) && r.pass.walked.contains(docs[p].source_root) implies
        r.pass.seen.contains(p) by {
        assert(before.contains_key(p) && before[p] == docs[p]);
        assert(paths.contains(p));
        let k = choose|k: int| 0 <= k < paths.len() && paths[k] == p;
        assert(rest(paths, 0).contains(p));
    }
}

/// How many, up to the largest number there is.
pub open spec fn counted(n: nat) -> usize {
    plus(0, n)
}

/// Whether a run that started with `b` has done nothing but count files as
/// unchanged.
pub open spec fn idle(b: Backends, docs: Map<Seq<char>, DocRow>, w: Work) -> bool {
    &&& w.failed is None
    &&& w.backends.store == (StoreModel { calls: w.backends.store.calls, ..b.store })
    &&& quiet_since(w.backends.store.calls, b.store.calls)
    &&& documents_after(docs, w.backends.store.calls) == documents_after(docs, b.store.calls)
    &&& w.backends.text == b.text
    &&& w.backends.image == b.image
    &&& w.backends.image_text == b.image_text
    &&& w.backends.reader.paths == b.reader.paths
    &&& w.backends.reader.contents == b.reader.contents
    &&& w.backends.walker.answers == b.walker.answers
    &&& w.pass.images.len() == 0
    &&& w.pass.titles.len() == 0
    &&& w.pass.report.indexed == 0
    &&& w.pass.report.chunks == 0
    &&& w.pass.report.deleted == 0
    &&& w.pass.report.errors.len() == 0
    &&& w.pass.seen.finite()
    &&& w.pass.report.skipped == counted(w.pass.seen.len())
}

/// Whether the second run finds the world as the first one left it: the same
/// store, files, roots and models.
pub open spec fn nothing_changed(g: Ground, left: Backends, b: Backends) -> bool {
    &&& b.store == left.store
    &&& b.reader.paths == g.backends.reader.paths
    &&& b.reader.contents == g.backends.reader.contents
    &&& b.walker.answers == g.backends.walker.answers
    &&& b.text.model_id == g.backends.text.model_id
    &&& same_model(b.image, g.backends.image)
    &&& same_model(b.image_text, g.backends.image_text)
}

/// Whether two embedders that may not be in use have the same model.
pub open spec fn same_model(
    a: Option<crate::embed::EmbedderModel>,
    b: Option<crate::embed::EmbedderModel>,
) -> bool {
    match (a, b) {
        (None, None) => true,
        (Some(a), Some(b)) => a.model_id == b.model_id,
        _ => false,
    }
}

/// What is asked of the backends of the second run.
spec fn second_world(g: Ground, b: Backends) -> bool {
    &&& settled_world(g)
    &&& b.store == (StoreModel { calls: b.store.calls, ..g.backends.store })
    &&& b.reader.paths == g.backends.reader.paths
    &&& b.reader.contents == g.backends.reader.contents
    &&& b.walker.answers == g.backends.walker.answers
}

/// A file that is stored up to date is only counted.
proof fn step_idle(
    g: Ground,
    b: Backends,
    w: Work,
    path: Seq<char>,
    kind: DocKind,
    root: Seq<char>,
    o: Options,
)
    requires
        second_world(g, b),
        !o.force,
        holds(g, b.store.calls, path),
        w.pass.seen.contains(path),
        idle(b, g.docs, Work {
            pass: PassText { seen: w.pass.seen.remove(path), ..w.pass },
            ..w
        }),
    ensures
        ({
            let r = match kind {
                DocKind::Markdown => markdown_step(w, path, root, o),
                DocKind::Image => image_step(w, path, root, o),
            };
            &&& idle(b, g.docs, r)
            &&& same_walk(r.pass, w.pass)
        }),
{
    let call = StoreCall::DocumentHash { path };
    one_more_call(g, w.backends.store.calls, call);
    quiet_push(w.backends.store.calls, b.store.calls, call);
    assert(w.backends.reader.bytes(path) == file_bytes(g.backends.reader, path));
    assert(w.backends.store.hash(path) == Ok::<Option<Seq<u8>>, Seq<char>>(
        hash_under(documents_after(g.docs, w.backends.store.calls), path),
    ));
    assert(w.pass.seen.remove(path).insert(path) =~= w.pass.seen);
}

proof fn file_steps_idle(
    g: Ground,
    set: Map<Seq<char>, Seq<char>>,
    b: Backends,
    w1: Work,
    w2: Work,
    files: Seq<FoundText>,
    i: nat,
    root: Seq<char>,
    o1: Options,
    o2: Options,
)
    requires
        second_world(g, b),
        !o2.force,
        w1.failed is None,
        keeps(g, set, w1, Set::empty()),
        file_steps(w1, files, i, root, o1).failed is None,
        forall|p: Seq<char>| #[trigger]
            file_steps(w1, files, i, root, o1).pass.seen.contains(p) ==> holds(
                g,
                b.store.calls,
                p,
            ),
        idle(b, g.docs, w2),
        same_walk(w1.pass, w2.pass),
    ensures
        idle(b, g.docs, file_steps(w2, files, i, root, o2)),
        same_walk(
            file_steps(w1, files, i, root, o1).pass,
            file_steps(w2, files, i, root, o2).pass,
        ),
    decreases files.len() - i,
{
    if i < files.len() {
        let file = files[i as int];
        let call = ReaderCall::Canonicalize(file.path);
        let n1 = file_step(w1, file, root, o1);
        let n2 = file_step(w2, file, root, o2);
        file_step_keeps(g, set, w1, file, root, o1);
        if n1.failed is Some {
            assert(file_steps(n1, files, i + 1, root, o1) == n1);
        }
        file_steps_keeps(g, set, n1, files, i + 1, root, o1);
        assert(w1.backends.reader.canonical(file.path) == (g.backends.reader.paths)(seq![call]));
        assert(w2.backends.reader.canonical(file.path) == (g.backends.reader.paths)(seq![call]));
        let path = w1.backends.reader.canonical(file.path)->Ok_0;
        assert(n1.pass.seen.contains(path));
        assert(file_steps(w1, files, i, root, o1).pass.seen.contains(path));
        if w2.pass.seen.contains(path) {
            assert(w1.pass.seen.insert(path) =~= w1.pass.seen);
        } else {
            let fresh = Work {
                backends: Backends { reader: w2.backends.reader.after(call), ..w2.backends },
                pass: PassText { seen: w2.pass.seen.insert(path), ..w2.pass },
                ..w2
            };
            assert(fresh.pass.seen.remove(path) =~= w2.pass.seen);
            step_idle(g, b, fresh, path, file.kind, root, o2);
        }
        assert(idle(b, g.docs, n2));
        file_steps_idle(g, set, b, n1, n2, files, i + 1, root, o1, o2);
    }
}

proof fn root_steps_idle(
    g: Ground,
    set: Map<Seq<char>, Seq<char>>,
    b: Backends,
    w1: Work,
    w2: Work,
    roots: Seq<Seq<char>>,
    i: nat,
    globs: Seq<Seq<char>>,
    o1: Options,
    o2: Options,
)
    requires
        second_world(g, b),
        !o2.force,
        w1.failed is None,
        keeps(g, set, w1, Set::empty()),
        root_steps(w1, roots, i, globs, o1).failed is None,
        forall|p: Seq<char>| #[trigger]
            root_steps(w1, roots, i, globs, o1).pass.seen.contains(p) ==> holds(
                g,
                b.store.calls,
                p,
            ),
        idle(b, g.docs, w2),
        same_walk(w1.pass, w2.pass),
    ensures
        idle(b, g.docs, root_steps(w2, roots, i, globs, o2)),
        same_walk(
            root_steps(w1, roots, i, globs, o1).pass,
            root_steps(w2, roots, i, globs, o2).pass,
        ),
    decreases roots.len() - i,
{
    if i < roots.len() {
        let root = roots[i as int];
        let call = ReaderCall::Canonicalize(root);
        let n1 = root_step(w1, root, globs, o1);
        let n2 = root_step(w2, root, globs, o2);
        root_step_keeps(g, set, w1, root, globs, o1);
        if n1.failed is Some {
            assert(root_steps(n1, roots, i + 1, globs, o1) == n1);
        }
        root_steps_keeps(g, set, n1, roots, i + 1, globs, o1);
        assert forall|p: Seq<char>| #[trigger] n1.pass.seen.contains(p) implies holds(
            g,
            b.store.calls,
            p,
        ) by {
            assert(root_steps(w1, roots, i, globs, o1).pass.seen.contains(p));
        }
        assert(w1.backends.reader.canonical(root) == (g.backends.reader.paths)(seq![call]));
        assert(w2.backends.reader.canonical(root) == (g.backends.reader.paths)(seq![call]));
        if let Ok(canon) = w1.backends.reader.canonical(root) {
            let walk = Walk { root: canon, ignore_globs: globs };
            assert(w1.backends.walker.found(walk) == (g.backends.walker.answers)(seq![walk]));
            assert(w2.backends.walker.found(walk) == (g.backends.walker.answers)(seq![walk]));
            if let Ok(files) = w1.backends.walker.found(walk) {
                let t1 = entered(w1, root, canon, walk, files.len());
                let t2 = entered(w2, root, canon, walk, files.len());
                entered_keeps(g, set, w1, root, canon, walk, files.len());
                assert(n1 == file_steps(t1, files, 0, canon, o1));
                assert(n2 == file_steps(t2, files, 0, canon, o2));
                assert(idle(b, g.docs, t2));
                file_steps_idle(g, set, b, t1, t2, files, 0, canon, o1, o2);
            }
        }
        assert(idle(b, g.docs, n2));
        root_steps_idle(g, set, b, n1, n2, roots, i + 1, globs, o1, o2);
    }
}

/// Where every listed document was seen, nothing is pruned.
proof fn prune_steps_idle(w: Work, paths: Seq<Seq<char>>, i: nat)
    requires
        forall|p: Seq<char>| #[trigger] paths.contains(p) ==> w.pass.seen.contains(p),
    ensures
        prune_steps(w, paths, i) == w,
    decreases paths.len() - i,
{
    if w.failed is Some || i >= paths.len() {
    } else {
        assert(paths.contains(paths[i as int]));
        prune_steps_idle(w, paths, i + 1);
    }
}

/// A run that succeeds without errors, on a store that gives back what was
/// written, leaves nothing to do: a second run over the same roots that is not
/// forced, with no file, root or model changed, succeeds as well. It counts
/// every file as unchanged, and embeds, writes and deletes nothing. The
/// embedders of the first run answer in full: a document that gets no vector is
/// not written, and would be embedded again.
pub proof fn a_second_run_does_nothing(
    g: Ground,
    b: Backends,
    roots: Seq<Seq<char>>,
    globs: Seq<Seq<char>>,
    o1: Options,
    o2: Options,
)
    requires
        o1.batch >= 1,
        settled_world(g),
        indexed(g.backends, roots, globs, o1).failed is None,
        indexed(g.backends, roots, globs, o1).pass.report.errors.len() == 0,
        countable(indexed(g.backends, roots, globs, o1).pass),
        nothing_changed(g, indexed(g.backends, roots, globs, o1).backends, b),
        !o2.force,
    ensures
        ({
            let first = indexed(g.backends, roots, globs, o1).pass.report;
            let second = indexed(b, roots, globs, o2);
            &&& second.failed is None
            &&& second.pass.report.indexed == 0
            &&& second.pass.report.chunks == 0
            &&& second.pass.report.deleted == 0
            &&& second.pass.report.errors.len() == 0
            &&& second.pass.report.scanned == first.scanned
            &&& second.pass.report.skipped == plus(first.indexed, first.skipped as nat)
            &&& second.backends.text == b.text
            &&& second.backends.image == b.image
            &&& second.backends.image_text == b.image_text
            &&& quiet_since(second.backends.store.calls, b.store.calls)
        }),
{
    first_run(g, roots, globs, o1);
    each_file_is_accounted_for(g.backends, roots, globs, o1);
    let r1 = indexed(g.backends, roots, globs, o1);
    let start1 = Work { backends: g.backends, pass: no_pass(), failed: None };
    let ready1 = recorded(guarded(start1, o1.force));
    let set = metas_after(g.metas, ready1.backends.store.calls);
    let walked1 = root_steps(ready1, roots, 0, globs, o1);
    let g2 = Ground { backends: b, ..g };
    let start2 = Work { backends: b, pass: no_pass(), failed: None };
    let then = b.store.calls;
    assert(then.take(then.len() as int) =~= then);
    assert(remembers(b.store, g.docs, g.metas));
    guarded_untouched(g2, start2, o2.force);
    let checked = guarded(start2, o2.force);
    recorded_untouched(g2, checked);
    let ready2 = recorded(checked);
    assert(idle(b, g.docs, ready2));
    assert forall|p: Seq<char>| #[trigger] walked1.pass.seen.contains(p) implies holds(
        g,
        b.store.calls,
        p,
    ) by {
        assert(r1.pass.seen.contains(p));
    }
    root_steps_idle(g, set, b, ready1, ready2, roots, 0, globs, o1, o2);
    let walked2 = root_steps(ready2, roots, 0, globs, o2);
    let call = StoreCall::PathsForRoots { roots: walked2.pass.walked };
    let calls = walked2.backends.store.calls;
    one_more_call(g, calls, call);
    quiet_push(calls, b.store.calls, call);
    let listed = Work {
        backends: Backends { store: walked2.backends.store.after(call), ..walked2.backends },
        ..walked2
    };
    let docs = documents_after(g.docs, calls);
    let paths = walked2.backends.store.list(call)->Ok_0;
    assert(lists_roots((g.backends.store.lists)(calls.push(call)), docs, walked2.pass.walked));
    assert forall|p: Seq<char>| #[trigger] paths.contains(p) implies listed.pass.seen.contains(
        p,
    ) by {
        assert(docs.contains_key(p));
    }
    prune_steps_idle(listed, paths, 0);
    assert(finished(walked2, o2) == advanced(listed, ProgressCall::Finish));
}

} // verus!
