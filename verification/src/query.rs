//! The `search` and `related` commands: what they ask of the store and the
//! embedders, and what they make of the answers.
use vstd::prelude::*;

use crate::embed::{opt_model, vectors, Embedder, EmbedderModel};
use crate::outside::yaml_field;
use crate::parse::{extract_aliases, field_items};
use crate::paths::{file_stem, stem_of_path};
use crate::search::{hit_texts, merge_normalized, space_texts, Hit, HitText};
use crate::store::{
    meta_texts, FilterText, MetaText, Space, Store, StoreCall, StoreModel, TextQuery,
};
use crate::text::{
    copy_texts, error_of, join, join_texts, push_text, same_caseless, same_ignoring_case,
    same_text, texts, to_chars,
};
use crate::workspace::Workspace;

verus! {

/// The space of a name.
pub open spec fn named_space(name: Seq<char>) -> Option<Space> {
    if name == "text"@ {
        Some(Space::Text)
    } else if name == "image"@ {
        Some(Space::Image)
    } else {
        None
    }
}

/// The space of a name.
pub fn space_of(name: &str) -> (r: Option<Space>)
    ensures
        r == named_space(name@),
{
    if same_text(name, "text") {
        Some(Space::Text)
    } else if same_text(name, "image") {
        Some(Space::Image)
    } else {
        None
    }
}

/// The first of some names, from `i` on, that names no space.
pub open spec fn first_unsupported(names: Seq<Seq<char>>, i: nat) -> Option<Seq<char>>
    decreases names.len() - i,
{
    if i >= names.len() {
        None
    } else if named_space(names[i as int]) is None {
        Some(names[i as int])
    } else {
        first_unsupported(names, i + 1)
    }
}

/// The spaces that a query is for: those requested, each of them supported, or
/// by default every space with content available.
pub open spec fn spaces_for(image_enabled: bool, requested: Seq<Seq<char>>) -> Result<
    Seq<Seq<char>>,
    Seq<char>,
> {
    if requested.len() == 0 {
        if image_enabled {
            Ok(seq!["text"@, "image"@])
        } else {
            Ok(seq!["text"@])
        }
    } else {
        match first_unsupported(requested, 0) {
            Some(name) => Err(
                "unsupported space '"@ + name + "' — only text, image are indexed"@,
            ),
            None => Ok(requested),
        }
    }
}

/// Resolves `--in`: explicit spaces are validated rather than silently ignored,
/// so requesting an unsupported space fails clearly; an empty `--in` defaults to
/// every space with content available: `text` always, `image` only when image
/// embedding is enabled.
pub fn resolve_spaces(ws: &Workspace, requested: &[String]) -> (r: Result<Vec<String>, String>)
    ensures
        crate::store::texts_result(r) == spaces_for(
            ws.config.embed.image.enabled,
            texts(requested@),
        ),
{
    let ghost all = texts(requested@);
    assert(all.len() == requested.len());
    if requested.len() == 0 {
        let mut spaces: Vec<String> = Vec::new();
        spaces.push("text".to_string());
        if ws.config.embed.image.enabled {
            spaces.push("image".to_string());
            assert(texts(spaces@) =~= seq!["text"@, "image"@]);
        } else {
            assert(texts(spaces@) =~= seq!["text"@]);
        }
        return Ok(spaces);
    }
    let mut i: usize = 0;
    while i < requested.len()
        invariant
            i <= requested.len(),
            all == texts(requested@),
            all.len() > 0,
            first_unsupported(all, 0) == first_unsupported(all, i as nat),
        decreases requested.len() - i,
    {
        if space_of(requested[i].as_str()).is_none() {
            let mut e: String = "unsupported space '".to_string();
            push_text(&mut e, requested[i].as_str());
            push_text(&mut e, "' — only text, image are indexed");
            return Err(e);
        }
        i += 1;
    }
    Ok(copy_texts(requested))
}

/// Whether one of some link targets is `name`, in any case.
pub open spec fn is_target(targets: Seq<Seq<char>>, name: Seq<char>) -> bool {
    exists|i: int| 0 <= i < targets.len() && same_ignoring_case(#[trigger] targets[i], name)
}

/// Whether one of some link targets is one of `names`.
pub open spec fn names_a_target(targets: Seq<Seq<char>>, names: Seq<Seq<char>>) -> bool {
    exists|i: int| 0 <= i < names.len() && is_target(targets, #[trigger] names[i])
}

/// Whether a link target is a document: by its file stem or one of its aliases.
pub open spec fn is_linked(
    targets: Seq<Seq<char>>,
    path: Seq<char>,
    aliases: Seq<Seq<char>>,
) -> bool {
    (file_stem(path) is Some && is_target(targets, file_stem(path)->0)) || names_a_target(
        targets,
        aliases,
    )
}

/// The aliases in a document's frontmatter.
pub open spec fn aliases_of(frontmatter: Option<Seq<char>>) -> Seq<Seq<char>> {
    match frontmatter {
        Some(fm) => field_items(yaml_field(fm, "aliases"@)),
        None => seq![],
    }
}

/// The paths of the documents that some link targets are.
pub open spec fn linked_paths(targets: Seq<Seq<char>>, metas: Seq<MetaText>) -> Seq<Seq<char>>
    decreases metas.len(),
{
    if metas.len() == 0 {
        seq![]
    } else {
        let before = linked_paths(targets, metas.drop_last());
        let m = metas.last();
        if is_linked(targets, m.path, aliases_of(m.frontmatter)) {
            before.push(m.path)
        } else {
            before
        }
    }
}

/// Whether one of some link targets is `name`, in any case.
fn target_named(targets: &[String], name: &str) -> (r: bool)
    ensures
        r == is_target(texts(targets@), name@),
{
    let ghost all = texts(targets@);
    let chars = to_chars(name);
    let mut i: usize = 0;
    while i < targets.len()
        invariant
            i <= targets.len(),
            all == texts(targets@),
            chars@ == name@,
            forall|k: int| 0 <= k < i ==> !same_ignoring_case(#[trigger] all[k], name@),
        decreases targets.len() - i,
    {
        if same_caseless(to_chars(targets[i].as_str()).as_slice(), chars.as_slice()) {
            assert(same_ignoring_case(all[i as int], name@));
            return true;
        }
        i += 1;
    }
    false
}

/// Whether a link target is the document at `path`: by its filename stem or one
/// of its aliases, case-insensitively.
pub fn links_to(targets: &[String], path: &str, aliases: &[String]) -> (r: bool)
    ensures
        r == is_linked(texts(targets@), path@, texts(aliases@)),
{
    if let Some(stem) = stem_of_path(path) {
        if target_named(targets, stem.as_str()) {
            return true;
        }
    }
    let ghost all = texts(targets@);
    let ghost names = texts(aliases@);
    let mut i: usize = 0;
    while i < aliases.len()
        invariant
            i <= aliases.len(),
            all == texts(targets@),
            names == texts(aliases@),
            forall|k: int| 0 <= k < i ==> !is_target(all, #[trigger] names[k]),
        decreases aliases.len() - i,
    {
        if target_named(targets, aliases[i].as_str()) {
            assert(is_target(all, names[i as int]));
            return true;
        }
        i += 1;
    }
    false
}

/// Resolves raw wikilink target texts to indexed document paths by matching
/// against each candidate's filename stem or its frontmatter `aliases:`,
/// case-insensitively. No folder-path disambiguation.
pub fn resolve_link_targets(targets: &[String], all_meta: &[(String, Option<String>)]) -> (r: Vec<
    String,
>)
    ensures
        texts(r@) == linked_paths(texts(targets@), meta_texts(all_meta@)),
{
    let ghost all = meta_texts(all_meta@);
    let mut paths: Vec<String> = Vec::new();
    let mut i: usize = 0;
    assert(texts(paths@) =~= linked_paths(texts(targets@), all.take(0)));
    while i < all_meta.len()
        invariant
            i <= all_meta.len(),
            all == meta_texts(all_meta@),
            texts(paths@) == linked_paths(texts(targets@), all.take(i as int)),
        decreases all_meta.len() - i,
    {
        let ghost before = texts(paths@);
        assert(all.take(i + 1).drop_last() =~= all.take(i as int));
        let aliases = match &all_meta[i].1 {
            Some(fm) => extract_aliases(fm.as_str()),
            None => Vec::new(),
        };
        assert(texts(aliases@) =~= aliases_of(all[i as int].frontmatter));
        if links_to(targets, all_meta[i].0.as_str(), aliases.as_slice()) {
            paths.push(all_meta[i].0.clone());
            assert(texts(paths@) =~= before.push(all[i as int].path));
        }
        i += 1;
    }
    assert(all.take(i as int) =~= all);
    paths
}

/// The embedders that a search query may need: one for each space it is for.
pub struct QueryEmbedders<T: Embedder, J: Embedder> {
    pub text: Option<T>,
    pub image_text: Option<J>,
}

/// A search at some point: the store and the embedders as it sees them, the
/// hits of each space so far, and the error that stopped it, if one did.
pub struct Search {
    pub store: StoreModel,
    pub text: Option<EmbedderModel>,
    pub image_text: Option<EmbedderModel>,
    pub found: Seq<Seq<HitText>>,
    pub failed: Option<Seq<char>>,
}

/// What a search asks for.
pub struct Wanted {
    pub query: Seq<char>,
    pub limit: usize,
    pub filter: FilterText,
}

/// The store searched with the first of the vectors that a query was embedded
/// to.
pub open spec fn search_store(
    s: Search,
    space: Space,
    answer: Result<Seq<Seq<u32>>, Seq<char>>,
    wanted: Wanted,
) -> Search {
    match answer {
        Err(e) => Search { failed: Some(e), ..s },
        Ok(vectors) => if vectors.len() == 0 {
            Search { failed: Some("embedding produced no vector"@), ..s }
        } else {
            let call = StoreCall::SearchSpace {
                space,
                query: vectors[0],
                limit: wanted.limit,
                filter: wanted.filter,
            };
            let asked = Search { store: s.store.after(call), ..s };
            match s.store.hits(call) {
                Err(e) => Search { failed: Some(e), ..asked },
                Ok(hits) => Search { found: s.found.push(hits), ..asked },
            }
        },
    }
}

/// The message for a space that cannot be searched.
pub open spec fn unsupported(name: Seq<char>) -> Seq<char> {
    "unsupported space '"@ + name + "'"@
}

/// One space searched: the query is embedded for it, and the store asked.
pub open spec fn search_step(s: Search, name: Seq<char>, wanted: Wanted) -> Search {
    let inputs = seq![wanted.query];
    match (named_space(name), s.text, s.image_text) {
        (Some(Space::Text), Some(m), _) => search_store(
            Search { text: Some(m.after(inputs)), ..s },
            Space::Text,
            m.embedded(inputs),
            wanted,
        ),
        (Some(Space::Image), _, Some(m)) => search_store(
            Search { image_text: Some(m.after(inputs)), ..s },
            Space::Image,
            m.embedded(inputs),
            wanted,
        ),
        _ => Search { failed: Some(unsupported(name)), ..s },
    }
}

/// The spaces from index `i` on.
pub open spec fn search_steps(
    s: Search,
    names: Seq<Seq<char>>,
    i: nat,
    wanted: Wanted,
) -> Search
    decreases names.len() - i,
{
    if s.failed is Some || i >= names.len() {
        s
    } else {
        search_steps(search_step(s, names[i as int], wanted), names, i + 1, wanted)
    }
}

/// Searches one space and appends its hits.
fn search_one<S: Store, T: Embedder, J: Embedder>(
    store: &mut S,
    embedders: &mut QueryEmbedders<T, J>,
    found: &mut Vec<Vec<Hit>>,
    space: &str,
    query: &str,
    limit: usize,
    filter: &TextQuery<'_>,
) -> (r: Result<(), String>)
    ensures
        search_step(
            Search {
                store: old(store).model(),
                text: opt_model(old(embedders).text),
                image_text: opt_model(old(embedders).image_text),
                found: space_texts(old(found)@),
                failed: None,
            },
            space@,
            Wanted { query: query@, limit, filter: filter@ },
        ) == (Search {
            store: final(store).model(),
            text: opt_model(final(embedders).text),
            image_text: opt_model(final(embedders).image_text),
            found: space_texts(final(found)@),
            failed: error_of(r),
        }),
{
    let mut inputs: Vec<String> = Vec::new();
    inputs.push(query.to_string());
    assert(texts(inputs@) =~= seq![query@]);
    let mut missing: String = "unsupported space '".to_string();
    push_text(&mut missing, space);
    push_text(&mut missing, "'");
    let (target, answer) = match space_of(space) {
        Some(Space::Text) => match &mut embedders.text {
            Some(m) => (Space::Text, m.embed(inputs.as_slice())),
            None => {
                return Err(missing);
            },
        },
        Some(Space::Image) => match &mut embedders.image_text {
            Some(m) => (Space::Image, m.embed(inputs.as_slice())),
            None => {
                return Err(missing);
            },
        },
        None => {
            return Err(missing);
        },
    };
    let vecs = match answer {
        Ok(v) => v,
        Err(e) => {
            return Err(e);
        },
    };
    assert(vectors(vecs@).len() == vecs.len());
    if vecs.len() == 0 {
        return Err("embedding produced no vector".to_string());
    }
    assert(vectors(vecs@)[0] == vecs@[0]@);
    match store.search_space(target, vecs[0].as_slice(), limit, filter) {
        Ok(hits) => {
            let ghost before = space_texts(found@);
            found.push(hits);
            assert(space_texts(found@) =~= before.push(hit_texts(hits@)));
            Ok(())
        },
        Err(e) => Err(e),
    }
}

/// Embeds a query for each of the `spaces`, searches the store in it, and merges
/// the hits into one ranked list.
pub fn search<S: Store, T: Embedder, J: Embedder, N: Fn(u32, u32, u32) -> u32>(
    store: &mut S,
    embedders: &mut QueryEmbedders<T, J>,
    spaces: &[String],
    query: &str,
    limit: usize,
    filter: &TextQuery<'_>,
    normalize: N,
) -> (r: Result<Vec<Hit>, String>)
    requires
        forall|s: u32, min: u32, max: u32| #[trigger] call_requires(normalize, (s, min, max)),
    ensures
        ({
            let s = search_steps(
                Search {
                    store: old(store).model(),
                    text: opt_model(old(embedders).text),
                    image_text: opt_model(old(embedders).image_text),
                    found: seq![],
                    failed: None,
                },
                texts(spaces@),
                0,
                Wanted { query: query@, limit, filter: filter@ },
            );
            &&& final(store).model() == s.store
            &&& opt_model(final(embedders).text) == s.text
            &&& opt_model(final(embedders).image_text) == s.image_text
            &&& match s.failed {
                Some(e) => r is Err && r->Err_0@ == e,
                None => r is Ok && crate::search::merges(
                    normalize,
                    s.found,
                    limit as nat,
                    hit_texts(r->Ok_0@),
                ),
            }
        }),
{
    let ghost names = texts(spaces@);
    let ghost wanted = Wanted { query: query@, limit, filter: filter@ };
    let mut found: Vec<Vec<Hit>> = Vec::new();
    let ghost start = Search {
        store: store.model(),
        text: opt_model(embedders.text),
        image_text: opt_model(embedders.image_text),
        found: seq![],
        failed: None,
    };
    assert(space_texts(found@) =~= seq![]);
    let mut i: usize = 0;
    while i < spaces.len()
        invariant
            i <= spaces.len(),
            names == texts(spaces@),
            wanted == (Wanted { query: query@, limit, filter: filter@ }),
            forall|s: u32, min: u32, max: u32| #[trigger] call_requires(normalize, (s, min, max)),
            start == (Search {
                store: old(store).model(),
                text: opt_model(old(embedders).text),
                image_text: opt_model(old(embedders).image_text),
                found: seq![],
                failed: None,
            }),
            search_steps(start, names, 0, wanted) == search_steps(
                Search {
                    store: store.model(),
                    text: opt_model(embedders.text),
                    image_text: opt_model(embedders.image_text),
                    found: space_texts(found@),
                    failed: None,
                },
                names,
                i as nat,
                wanted,
            ),
        decreases spaces.len() - i,
    {
        match search_one(
            store,
            embedders,
            &mut found,
            spaces[i].as_str(),
            query,
            limit,
            filter,
        ) {
            Ok(_) => {},
            Err(e) => {
                let ghost stopped = Search {
                    store: store.model(),
                    text: opt_model(embedders.text),
                    image_text: opt_model(embedders.image_text),
                    found: space_texts(found@),
                    failed: Some(e@),
                };
                assert(search_steps(stopped, names, (i + 1) as nat, wanted) == stopped);
                return Err(e);
            },
        }
        i += 1;
    }
    Ok(merge_normalized(found, limit, normalize))
}

/// A search for related documents at some point: the store as it sees it, the
/// hits of each space so far, and the error that stopped it, if one did.
pub struct Related {
    pub store: StoreModel,
    pub found: Seq<Seq<HitText>>,
    pub failed: Option<Seq<char>>,
}

/// What a search for related documents asks for.
pub struct RelatedWanted {
    pub path: Seq<char>,
    pub exclude: Seq<Seq<char>>,
    pub limit: usize,
    pub filter: FilterText,
}

/// One space: the document's own vectors in it are what the store is asked
/// with. A space in which it has none contributes nothing.
pub open spec fn related_step(s: Related, name: Seq<char>, wanted: RelatedWanted) -> Related {
    match named_space(name) {
        None => Related { failed: Some(unsupported(name)), ..s },
        Some(space) => {
            let read = Related {
                store: s.store.after(StoreCall::ChunkVectors { path: wanted.path, space }),
                ..s
            };
            match s.store.chunk_vectors(wanted.path, space) {
                Err(e) => Related { failed: Some(e), ..read },
                Ok(queries) => if queries.len() == 0 {
                    read
                } else {
                    let call = StoreCall::RelatedSpace {
                        space,
                        queries,
                        exclude: wanted.exclude,
                        limit: wanted.limit,
                        filter: wanted.filter,
                    };
                    let asked = Related { store: read.store.after(call), ..read };
                    match read.store.hits(call) {
                        Err(e) => Related { failed: Some(e), ..asked },
                        Ok(hits) => Related { found: s.found.push(hits), ..asked },
                    }
                },
            }
        },
    }
}

/// The spaces from index `i` on.
pub open spec fn related_steps(
    s: Related,
    names: Seq<Seq<char>>,
    i: nat,
    wanted: RelatedWanted,
) -> Related
    decreases names.len() - i,
{
    if s.failed is Some || i >= names.len() {
        s
    } else {
        related_steps(related_step(s, names[i as int], wanted), names, i + 1, wanted)
    }
}

/// What is left out of the documents related to one: the document itself, and
/// those that it links to, unless they are included.
pub open spec fn excluded_from(
    store: StoreModel,
    path: Seq<char>,
    include_linked: bool,
) -> (StoreModel, Result<Seq<Seq<char>>, Seq<char>>) {
    let call = StoreCall::LinkedTargets { path };
    let asked = store.after(call);
    if include_linked {
        (store, Ok(seq![path]))
    } else {
        match store.list(call) {
            Err(e) => (asked, Err(e)),
            Ok(targets) => if targets.len() == 0 {
                (asked, Ok(seq![path]))
            } else {
                (
                    asked.after(StoreCall::AllDocumentMeta),
                    match asked.all_meta() {
                        Err(e) => Err(e),
                        Ok(metas) => Ok(seq![path] + linked_paths(targets, metas)),
                    },
                )
            },
        }
    }
}

/// A list of tags as a filter: none where it is empty.
pub open spec fn tag_filter(tags: Seq<Seq<char>>) -> FilterText {
    FilterText {
        from: None,
        tags: if tags.len() == 0 {
            None
        } else {
            Some(tags)
        },
    }
}

/// A search for the documents related to the one at `path`, up to the point
/// where the hits of each space are known.
pub open spec fn related_found(
    store: StoreModel,
    image_enabled: bool,
    path: Seq<char>,
    requested: Seq<Seq<char>>,
    include_linked: bool,
    tags: Seq<Seq<char>>,
    limit: usize,
) -> Related {
    let looked = Related {
        store: store.after(StoreCall::DocumentHash { path }),
        found: seq![],
        failed: None,
    };
    match store.hash(path) {
        Err(e) => Related { failed: Some(e), ..looked },
        Ok(None) => Related {
            failed: Some(path + " is not indexed — run `gnosis index`"@),
            ..looked
        },
        Ok(Some(_)) => match spaces_for(image_enabled, requested) {
            Err(e) => Related { failed: Some(e), ..looked },
            Ok(names) => {
                let (after, exclude) = excluded_from(looked.store, path, include_linked);
                let ready = Related { store: after, ..looked };
                match exclude {
                    Err(e) => Related { failed: Some(e), ..ready },
                    Ok(exclude) => {
                        let done = related_steps(
                            ready,
                            names,
                            0,
                            RelatedWanted { path, exclude, limit, filter: tag_filter(tags) },
                        );
                        if done.failed is None && done.found.len() == 0 {
                            Related {
                                failed: Some(
                                    path + " has no chunks in any of ["@ + join(names, ", "@)
                                        + "] to compare"@,
                                ),
                                ..done
                            }
                        } else {
                            done
                        }
                    },
                }
            },
        },
    }
}

/// Asks the store for documents related to `path` in one space, and appends the
/// hits.
fn related_one<S: Store>(
    store: &mut S,
    found: &mut Vec<Vec<Hit>>,
    name: &str,
    path: &str,
    exclude: &[String],
    limit: usize,
    filter: &TextQuery<'_>,
) -> (r: Result<(), String>)
    ensures
        related_step(
            Related {
                store: old(store).model(),
                found: space_texts(old(found)@),
                failed: None,
            },
            name@,
            RelatedWanted { path: path@, exclude: texts(exclude@), limit, filter: filter@ },
        ) == (Related {
            store: final(store).model(),
            found: space_texts(final(found)@),
            failed: error_of(r),
        }),
{
    let space = match space_of(name) {
        Some(space) => space,
        None => {
            let mut e: String = "unsupported space '".to_string();
            push_text(&mut e, name);
            push_text(&mut e, "'");
            return Err(e);
        },
    };
    let queries = match store.chunk_vectors(path, space) {
        Ok(q) => q,
        Err(e) => {
            return Err(e);
        },
    };
    assert(vectors(queries@).len() == queries.len());
    if queries.len() == 0 {
        return Ok(());
    }
    match store.related_space(space, queries.as_slice(), exclude, limit, filter) {
        Ok(hits) => {
            let ghost before = space_texts(found@);
            found.push(hits);
            assert(space_texts(found@) =~= before.push(hit_texts(hits@)));
            Ok(())
        },
        Err(e) => Err(e),
    }
}

/// What is left out of the documents related to `path`.
fn exclude_linked<S: Store>(store: &mut S, path: &str, include_linked: bool) -> (r: Result<
    Vec<String>,
    String,
>)
    ensures
        excluded_from(old(store).model(), path@, include_linked) == (
            final(store).model(),
            crate::store::texts_result(r),
        ),
{
    let mut exclude: Vec<String> = Vec::new();
    exclude.push(path.to_string());
    assert(texts(exclude@) =~= seq![path@]);
    if include_linked {
        return Ok(exclude);
    }
    let targets = match store.linked_targets(path) {
        Ok(t) => t,
        Err(e) => {
            return Err(e);
        },
    };
    assert(texts(targets@).len() == targets.len());
    if targets.len() == 0 {
        return Ok(exclude);
    }
    let all_meta = match store.all_document_meta() {
        Ok(m) => m,
        Err(e) => {
            return Err(e);
        },
    };
    let ghost before = texts(exclude@);
    let mut linked = resolve_link_targets(targets.as_slice(), all_meta.as_slice());
    let ghost more = texts(linked@);
    exclude.append(&mut linked);
    assert(texts(exclude@) =~= before + more);
    Ok(exclude)
}

/// Lists the documents related to the indexed one at `path`: for each space,
/// those that are nearest to its own chunks, itself and, unless they are
/// included, those that it links to left out; merged into one ranked list.
pub fn related<S: Store, N: Fn(u32, u32, u32) -> u32>(
    store: &mut S,
    ws: &Workspace,
    path: &str,
    requested: &[String],
    include_linked: bool,
    tags: &[String],
    limit: usize,
    normalize: N,
) -> (r: Result<Vec<Hit>, String>)
    requires
        forall|s: u32, min: u32, max: u32| #[trigger] call_requires(normalize, (s, min, max)),
    ensures
        ({
            let s = related_found(
                old(store).model(),
                ws.config.embed.image.enabled,
                path@,
                texts(requested@),
                include_linked,
                texts(tags@),
                limit,
            );
            &&& final(store).model() == s.store
            &&& match s.failed {
                Some(e) => r is Err && r->Err_0@ == e,
                None => r is Ok && crate::search::merges(
                    normalize,
                    s.found,
                    limit as nat,
                    hit_texts(r->Ok_0@),
                ),
            }
        }),
{
    match store.document_hash(path) {
        Ok(Some(_)) => {},
        Ok(None) => {
            let mut e: String = path.to_string();
            push_text(&mut e, " is not indexed — run `gnosis index`");
            return Err(e);
        },
        Err(e) => {
            return Err(e);
        },
    }
    let spaces = match resolve_spaces(ws, requested) {
        Ok(s) => s,
        Err(e) => {
            return Err(e);
        },
    };
    let exclude = match exclude_linked(store, path, include_linked) {
        Ok(x) => x,
        Err(e) => {
            return Err(e);
        },
    };
    assert(texts(tags@).len() == tags.len());
    let filter = TextQuery {
        from: None,
        tags: if tags.len() == 0 {
            None
        } else {
            Some(tags)
        },
    };
    assert(filter@ == tag_filter(texts(tags@)));
    let ghost names = texts(spaces@);
    let ghost wanted = RelatedWanted {
        path: path@,
        exclude: texts(exclude@),
        limit,
        filter: filter@,
    };
    let mut found: Vec<Vec<Hit>> = Vec::new();
    assert(space_texts(found@) =~= seq![]);
    let ghost ready = Related { store: store.model(), found: seq![], failed: None };
    let ghost done = related_steps(ready, names, 0, wanted);
    let ghost whole = related_found(
        old(store).model(),
        ws.config.embed.image.enabled,
        path@,
        texts(requested@),
        include_linked,
        texts(tags@),
        limit,
    );
    assert(done.failed is Some ==> whole == done);
    let mut i: usize = 0;
    while i < spaces.len()
        invariant
            i <= spaces.len(),
            names == texts(spaces@),
            wanted == (RelatedWanted {
                path: path@,
                exclude: texts(exclude@),
                limit,
                filter: filter@,
            }),
            forall|s: u32, min: u32, max: u32| #[trigger] call_requires(normalize, (s, min, max)),
            whole == related_found(
                old(store).model(),
                ws.config.embed.image.enabled,
                path@,
                texts(requested@),
                include_linked,
                texts(tags@),
                limit,
            ),
            done.failed is Some ==> whole == done,
            done == related_steps(
                Related { store: store.model(), found: space_texts(found@), failed: None },
                names,
                i as nat,
                wanted,
            ),
        decreases spaces.len() - i,
    {
        match related_one(
            store,
            &mut found,
            spaces[i].as_str(),
            path,
            exclude.as_slice(),
            limit,
            &filter,
        ) {
            Ok(_) => {},
            Err(e) => {
                let ghost stopped = Related {
                    store: store.model(),
                    found: space_texts(found@),
                    failed: Some(e@),
                };
                assert(related_steps(stopped, names, (i + 1) as nat, wanted) == stopped);
                return Err(e);
            },
        }
        i += 1;
    }
    assert(space_texts(found@).len() == found.len());
    if found.len() == 0 {
        let mut e: String = path.to_string();
        push_text(&mut e, " has no chunks in any of [");
        push_text(&mut e, join_texts(spaces.as_slice(), ", ").as_str());
        push_text(&mut e, "] to compare");
        return Err(e);
    }
    Ok(merge_normalized(found, limit, normalize))
}

/// Whichever spaces a query is for, each of them can be searched.
pub proof fn resolved_spaces_are_supported(image_enabled: bool, requested: Seq<Seq<char>>)
    ensures
        spaces_for(image_enabled, requested) is Ok ==> forall|i: int|
            0 <= i < spaces_for(image_enabled, requested)->Ok_0.len() ==> named_space(
                #[trigger] spaces_for(image_enabled, requested)->Ok_0[i],
            ) is Some,
{
    if requested.len() > 0 && first_unsupported(requested, 0) is None {
        none_unsupported(requested, 0);
    }
}

proof fn none_unsupported(names: Seq<Seq<char>>, i: nat)
    requires
        first_unsupported(names, i) is None,
    ensures
        forall|k: int| i <= k < names.len() ==> named_space(#[trigger] names[k]) is Some,
    decreases names.len() - i,
{
    if i < names.len() {
        none_unsupported(names, i + 1);
    }
}

/// A document is never among those related to it: it is always excluded.
pub proof fn the_document_itself_is_excluded(
    store: StoreModel,
    path: Seq<char>,
    include_linked: bool,
)
    ensures
        excluded_from(store, path, include_linked).1 is Ok ==> excluded_from(
            store,
            path,
            include_linked,
        ).1->Ok_0.contains(path),
{
    let r = excluded_from(store, path, include_linked).1;
    if r is Ok {
        assert(r->Ok_0[0] == path);
    }
}

/// Each excluded document but the first is one that a link of the document
/// names, by its file stem or an alias.
pub proof fn linked_paths_are_linked(targets: Seq<Seq<char>>, metas: Seq<MetaText>, k: int)
    requires
        0 <= k < linked_paths(targets, metas).len(),
    ensures
        exists|i: int|
            0 <= i < metas.len() && (#[trigger] metas[i]).path == linked_paths(targets, metas)[k]
                && is_linked(targets, metas[i].path, aliases_of(metas[i].frontmatter)),
    decreases metas.len(),
{
    if metas.len() > 0 {
        let rest = metas.drop_last();
        let before = linked_paths(targets, rest);
        if k < before.len() {
            linked_paths_are_linked(targets, rest, k);
            let i = choose|i: int|
                0 <= i < rest.len() && (#[trigger] rest[i]).path == before[k] && is_linked(
                    targets,
                    rest[i].path,
                    aliases_of(rest[i].frontmatter),
                );
            assert(metas[i].path == linked_paths(targets, metas)[k]);
        } else {
            assert(metas[metas.len() - 1].path == linked_paths(targets, metas)[k]);
        }
    }
}

} // verus!
