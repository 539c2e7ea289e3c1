//! Interface for durable document and chunk storage.
use vstd::prelude::*;

use crate::embed::{vectors, vectors_result};
use crate::search::{hit_texts, Hit, HitText};
use crate::text::{opt_text, texts};

verus! {

/// A vector space that chunks are embedded into.
#[derive(Debug, Clone, Copy, PartialEq, Eq, Structural)]
pub enum Space {
    Text,
    Image,
}

/// The name that a space is stored under.
pub open spec fn space_name(space: Space) -> Seq<char> {
    match space {
        Space::Text => "text"@,
        Space::Image => "image"@,
    }
}

impl Space {
    /// The name that this space is stored under.
    pub fn as_str(self) -> (r: &'static str)
        ensures
            r@ == space_name(self),
    {
        match self {
            Space::Text => "text",
            Space::Image => "image",
        }
    }
}

/// A single chunk to persist, including its embedding.
pub struct ChunkWrite {
    pub ord: usize,
    pub space: String,
    pub modality: String,
    pub text: Option<String>,
    pub heading_path: String,
    pub vector: Vec<u32>,
}

/// The content of a [`ChunkWrite`].
pub struct ChunkRow {
    pub ord: usize,
    pub space: Seq<char>,
    pub modality: Seq<char>,
    pub text: Option<Seq<char>>,
    pub heading_path: Seq<char>,
    pub vector: Seq<u32>,
}

impl View for ChunkWrite {
    type V = ChunkRow;

    open spec fn view(&self) -> ChunkRow {
        ChunkRow {
            ord: self.ord,
            space: self.space@,
            modality: self.modality@,
            text: opt_text(self.text),
            heading_path: self.heading_path@,
            vector: self.vector@,
        }
    }
}

/// The contents of some chunks.
pub open spec fn chunk_rows(v: Seq<ChunkWrite>) -> Seq<ChunkRow> {
    Seq::new(v.len(), |i: int| v[i]@)
}

/// A document about to be written, with its parsed chunks. It does not say when
/// it is written: the store sets that, as the `indexed_at` of the document's
/// row, which [`Stats`] reports the latest of.
pub struct DocWrite<'a> {
    pub path: &'a str,
    pub kind: &'a str,
    /// Canonical vault root this document was discovered under.
    pub source_root: &'a str,
    pub content_hash: &'a [u8],
    pub mtime: i64,
    pub title: &'a str,
    pub frontmatter: Option<&'a str>,
    pub chunks: &'a [ChunkWrite],
    pub links: &'a [String],
    pub tags: &'a [String],
    /// Pixel dimensions, for images.
    pub width: Option<i64>,
    pub height: Option<i64>,
}

/// The content of a [`DocWrite`].
pub struct DocRow {
    pub path: Seq<char>,
    pub kind: Seq<char>,
    pub source_root: Seq<char>,
    pub content_hash: Seq<u8>,
    pub mtime: i64,
    pub title: Seq<char>,
    pub frontmatter: Option<Seq<char>>,
    pub chunks: Seq<ChunkRow>,
    pub links: Seq<Seq<char>>,
    pub tags: Seq<Seq<char>>,
    pub width: Option<i64>,
    pub height: Option<i64>,
}

/// The text of an optional string slice.
pub open spec fn opt_str(s: Option<&str>) -> Option<Seq<char>> {
    match s {
        Some(t) => Some(t@),
        None => None,
    }
}

impl<'a> View for DocWrite<'a> {
    type V = DocRow;

    open spec fn view(&self) -> DocRow {
        DocRow {
            path: self.path@,
            kind: self.kind@,
            source_root: self.source_root@,
            content_hash: self.content_hash@,
            mtime: self.mtime,
            title: self.title@,
            frontmatter: opt_str(self.frontmatter),
            chunks: chunk_rows(self.chunks@),
            links: texts(self.links@),
            tags: texts(self.tags@),
            width: self.width,
            height: self.height,
        }
    }
}

/// Summary counts for the `status` command.
#[derive(Debug, Default)]
pub struct Stats {
    pub documents: i64,
    pub chunks_text: i64,
    pub chunks_image: i64,
    pub indexed_at: Option<i64>,
}

/// Filters applied when ranking: AND between fields, OR within a field's list.
#[derive(Default)]
pub struct TextQuery<'a> {
    /// Restrict to these vault roots. Empty or absent: no restriction.
    pub from: Option<&'a [String]>,
    /// Restrict to documents having any of these tags. Empty or absent: no
    /// restriction.
    pub tags: Option<&'a [String]>,
}

/// The content of a [`TextQuery`].
pub struct FilterText {
    pub from: Option<Seq<Seq<char>>>,
    pub tags: Option<Seq<Seq<char>>>,
}

/// The texts of an optional list of strings.
pub open spec fn opt_texts(v: Option<&[String]>) -> Option<Seq<Seq<char>>> {
    match v {
        Some(s) => Some(texts(s@)),
        None => None,
    }
}

impl<'a> View for TextQuery<'a> {
    type V = FilterText;

    open spec fn view(&self) -> FilterText {
        FilterText { from: opt_texts(self.from), tags: opt_texts(self.tags) }
    }
}

/// A call on a store.
pub enum StoreCall {
    SetMeta { key: Seq<char>, value: Seq<char> },
    GetMeta { key: Seq<char> },
    Stats,
    DocumentHash { path: Seq<char> },
    PathsForRoots { roots: Seq<Seq<char>> },
    CountsByRoot,
    DeleteByRoot { root: Seq<char> },
    ReplaceDocument { doc: DocRow },
    DeleteDocument { path: Seq<char> },
    SearchSpace { space: Space, query: Seq<u32>, limit: usize, filter: FilterText },
    ChunkVectors { path: Seq<char>, space: Space },
    LinkedTargets { path: Seq<char> },
    AllDocumentMeta,
    RelatedSpace {
        space: Space,
        queries: Seq<Seq<u32>>,
        exclude: Seq<Seq<char>>,
        limit: usize,
        filter: FilterText,
    },
}

/// A document's path and raw frontmatter.
pub struct MetaText {
    pub path: Seq<char>,
    pub frontmatter: Option<Seq<char>>,
}

/// What a write came back with.
pub open spec fn done_result(r: Result<(), String>) -> Result<(), Seq<char>> {
    match r {
        Ok(u) => Ok(u),
        Err(e) => Err(e@),
    }
}

/// What looking a text up came back with.
pub open spec fn meta_result(r: Result<Option<String>, String>) -> Result<
    Option<Seq<char>>,
    Seq<char>,
> {
    match r {
        Ok(t) => Ok(opt_text(t)),
        Err(e) => Err(e@),
    }
}

/// What counting came back with.
pub open spec fn stats_result(r: Result<Stats, String>) -> Result<Stats, Seq<char>> {
    match r {
        Ok(s) => Ok(s),
        Err(e) => Err(e@),
    }
}

/// What looking a hash up came back with.
pub open spec fn hash_result(r: Result<Option<Vec<u8>>, String>) -> Result<
    Option<Seq<u8>>,
    Seq<char>,
> {
    match r {
        Ok(Some(h)) => Ok(Some(h@)),
        Ok(None) => Ok(None),
        Err(e) => Err(e@),
    }
}

/// What listing texts came back with.
pub open spec fn texts_result(r: Result<Vec<String>, String>) -> Result<Seq<Seq<char>>, Seq<char>> {
    match r {
        Ok(v) => Ok(texts(v@)),
        Err(e) => Err(e@),
    }
}

/// What counting by root came back with.
pub open spec fn counts_result(r: Result<Vec<(String, i64)>, String>) -> Result<
    Seq<(Seq<char>, i64)>,
    Seq<char>,
> {
    match r {
        Ok(v) => Ok(count_texts(v@)),
        Err(e) => Err(e@),
    }
}

/// The contents of some counts.
pub open spec fn count_texts(v: Seq<(String, i64)>) -> Seq<(Seq<char>, i64)> {
    Seq::new(v.len(), |i: int| (v[i].0@, v[i].1))
}

/// What deleting by root came back with.
pub open spec fn number_result(r: Result<usize, String>) -> Result<usize, Seq<char>> {
    match r {
        Ok(n) => Ok(n),
        Err(e) => Err(e@),
    }
}

/// What a search came back with.
pub open spec fn hits_result(r: Result<Vec<Hit>, String>) -> Result<Seq<HitText>, Seq<char>> {
    match r {
        Ok(v) => Ok(hit_texts(v@)),
        Err(e) => Err(e@),
    }
}

/// The contents of some documents' metadata.
pub open spec fn meta_texts(v: Seq<(String, Option<String>)>) -> Seq<MetaText> {
    Seq::new(v.len(), |i: int| MetaText { path: v[i].0@, frontmatter: opt_text(v[i].1) })
}

/// What listing the documents' metadata came back with.
pub open spec fn metas_result(r: Result<Vec<(String, Option<String>)>, String>) -> Result<
    Seq<MetaText>,
    Seq<char>,
> {
    match r {
        Ok(v) => Ok(meta_texts(v@)),
        Err(e) => Err(e@),
    }
}

/// A store as its callers see it: the calls made so far, and what it answers at
/// the end of each history of calls.
pub struct StoreModel {
    pub calls: Seq<StoreCall>,
    pub dones: spec_fn(Seq<StoreCall>) -> Result<(), Seq<char>>,
    pub metas: spec_fn(Seq<StoreCall>) -> Result<Option<Seq<char>>, Seq<char>>,
    pub stats: spec_fn(Seq<StoreCall>) -> Result<Stats, Seq<char>>,
    pub hashes: spec_fn(Seq<StoreCall>) -> Result<Option<Seq<u8>>, Seq<char>>,
    pub lists: spec_fn(Seq<StoreCall>) -> Result<Seq<Seq<char>>, Seq<char>>,
    pub counts: spec_fn(Seq<StoreCall>) -> Result<Seq<(Seq<char>, i64)>, Seq<char>>,
    pub numbers: spec_fn(Seq<StoreCall>) -> Result<usize, Seq<char>>,
    pub hits: spec_fn(Seq<StoreCall>) -> Result<Seq<HitText>, Seq<char>>,
    pub vectors: spec_fn(Seq<StoreCall>) -> Result<Seq<Seq<u32>>, Seq<char>>,
    pub documents: spec_fn(Seq<StoreCall>) -> Result<Seq<MetaText>, Seq<char>>,
}

impl StoreModel {
    /// The store after one more call.
    pub open spec fn after(self, call: StoreCall) -> StoreModel {
        StoreModel { calls: self.calls.push(call), ..self }
    }

    /// Whether one more call that writes succeeds.
    pub open spec fn done(self, call: StoreCall) -> Result<(), Seq<char>> {
        (self.dones)(self.calls.push(call))
    }

    /// The meta value under `key`, fetched now.
    pub open spec fn meta(self, key: Seq<char>) -> Result<Option<Seq<char>>, Seq<char>> {
        (self.metas)(self.calls.push(StoreCall::GetMeta { key }))
    }

    /// The content hash of a document, fetched now.
    pub open spec fn hash(self, path: Seq<char>) -> Result<Option<Seq<u8>>, Seq<char>> {
        (self.hashes)(self.calls.push(StoreCall::DocumentHash { path }))
    }

    /// The answer to one more call that lists texts.
    pub open spec fn list(self, call: StoreCall) -> Result<Seq<Seq<char>>, Seq<char>> {
        (self.lists)(self.calls.push(call))
    }

    /// The answer to one more call that searches.
    pub open spec fn hits(self, call: StoreCall) -> Result<Seq<HitText>, Seq<char>> {
        (self.hits)(self.calls.push(call))
    }

    /// The vectors of a document in a space, fetched now.
    pub open spec fn chunk_vectors(self, path: Seq<char>, space: Space) -> Result<
        Seq<Seq<u32>>,
        Seq<char>,
    > {
        (self.vectors)(self.calls.push(StoreCall::ChunkVectors { path, space }))
    }

    /// The metadata of every document, fetched now.
    pub open spec fn all_meta(self) -> Result<Seq<MetaText>, Seq<char>> {
        (self.documents)(self.calls.push(StoreCall::AllDocumentMeta))
    }
}

/// Durable storage for indexed documents, chunks, and links. The contract
/// records each call and names its answer; it promises nothing of what the
/// answer is.
pub trait Store {
    /// The calls so far, and what is answered.
    spec fn model(&self) -> StoreModel;

    /// Inserts or updates a meta key and value.
    fn set_meta(&mut self, key: &str, value: &str) -> (r: Result<(), String>)
        ensures
            final(self).model() == old(self).model().after(
                (StoreCall::SetMeta { key: key@, value: value@ }),
            ),
            done_result(r) == old(self).model().done(
                (StoreCall::SetMeta { key: key@, value: value@ }),
            ),
    ;

    /// Fetches a meta value by key, if present.
    fn get_meta(&mut self, key: &str) -> (r: Result<Option<String>, String>)
        ensures
            final(self).model() == old(self).model().after((StoreCall::GetMeta { key: key@ })),
            meta_result(r) == old(self).model().meta(key@),
    ;

    /// Computes summary statistics for `status`.
    fn stats(&mut self) -> (r: Result<Stats, String>)
        ensures
            final(self).model() == old(self).model().after(StoreCall::Stats),
            stats_result(r) == (old(self).model().stats)(final(self).model().calls),
    ;

    /// Existing content hash for `path`, if the document is already indexed.
    fn document_hash(&mut self, path: &str) -> (r: Result<Option<Vec<u8>>, String>)
        ensures
            final(self).model() == old(self).model().after(
                (StoreCall::DocumentHash { path: path@ }),
            ),
            hash_result(r) == old(self).model().hash(path@),
    ;

    /// Document paths whose `source_root` is among `roots` (used to scope
    /// deletion detection to the vaults walked in a run). Empty `roots` matches
    /// nothing.
    fn paths_for_roots(&mut self, roots: &[String]) -> (r: Result<Vec<String>, String>)
        ensures
            final(self).model() == old(self).model().after(
                (StoreCall::PathsForRoots { roots: texts(roots@) }),
            ),
            texts_result(r) == old(self).model().list(
                (StoreCall::PathsForRoots { roots: texts(roots@) }),
            ),
    ;

    /// Document counts grouped by source vault, for `status`.
    fn counts_by_root(&mut self) -> (r: Result<Vec<(String, i64)>, String>)
        ensures
            final(self).model() == old(self).model().after(StoreCall::CountsByRoot),
            counts_result(r) == (old(self).model().counts)(final(self).model().calls),
    ;

    /// Deletes every document (chunks and links cascade) belonging to `root`.
    /// Returns the number of documents removed.
    fn delete_by_root(&mut self, root: &str) -> (r: Result<usize, String>)
        ensures
            final(self).model() == old(self).model().after(
                (StoreCall::DeleteByRoot { root: root@ }),
            ),
            number_result(r) == (old(self).model().numbers)(final(self).model().calls),
    ;

    /// Inserts or replaces a document and all its chunks and links in one
    /// transaction.
    fn replace_document(&mut self, doc: &DocWrite<'_>) -> (r: Result<(), String>)
        ensures
            final(self).model() == old(self).model().after(
                (StoreCall::ReplaceDocument { doc: doc@ }),
            ),
            done_result(r) == old(self).model().done((StoreCall::ReplaceDocument { doc: doc@ })),
    ;

    /// Deletes a document (chunks and links cascade) by path.
    fn delete_document(&mut self, path: &str) -> (r: Result<(), String>)
        ensures
            final(self).model() == old(self).model().after(
                (StoreCall::DeleteDocument { path: path@ }),
            ),
            done_result(r) == old(self).model().done((StoreCall::DeleteDocument { path: path@ })),
    ;

    /// Cosine search over a space. Returns the best chunk per document, ranked
    /// descending, capped at `limit`, restricted per `filter`.
    fn search_space(
        &mut self,
        space: Space,
        query: &[u32],
        limit: usize,
        filter: &TextQuery<'_>,
    ) -> (r: Result<Vec<Hit>, String>)
        ensures
            final(self).model() == old(self).model().after(
                (StoreCall::SearchSpace { space, query: query@, limit, filter: filter@ }),
            ),
            hits_result(r) == old(self).model().hits(
                (StoreCall::SearchSpace { space, query: query@, limit, filter: filter@ }),
            ),
    ;

    /// A document's own chunk vectors in a space: the query set for `related`.
    fn chunk_vectors(&mut self, path: &str, space: Space) -> (r: Result<Vec<Vec<u32>>, String>)
        ensures
            final(self).model() == old(self).model().after(
                (StoreCall::ChunkVectors { path: path@, space }),
            ),
            vectors_result(r) == old(self).model().chunk_vectors(path@, space),
    ;

    /// Raw wikilink target texts this document links out to (unresolved:
    /// `[[Some Note]]` yields `"Some Note"`, not a document path).
    fn linked_targets(&mut self, path: &str) -> (r: Result<Vec<String>, String>)
        ensures
            final(self).model() == old(self).model().after(
                (StoreCall::LinkedTargets { path: path@ }),
            ),
            texts_result(r) == old(self).model().list((StoreCall::LinkedTargets { path: path@ })),
    ;

    /// Every indexed document's path and raw frontmatter, for resolving link
    /// targets to paths (by filename stem or frontmatter alias).
    fn all_document_meta(&mut self) -> (r: Result<Vec<(String, Option<String>)>, String>)
        ensures
            final(self).model() == old(self).model().after(StoreCall::AllDocumentMeta),
            metas_result(r) == old(self).model().all_meta(),
    ;

    /// Ranks other documents by best chunk-to-chunk cosine similarity against
    /// `query_vectors` (the max across all of them per candidate), excluding
    /// `exclude_paths` before truncation to `limit`, restricted per `filter`.
    fn related_space(
        &mut self,
        space: Space,
        query_vectors: &[Vec<u32>],
        exclude_paths: &[String],
        limit: usize,
        filter: &TextQuery<'_>,
    ) -> (r: Result<Vec<Hit>, String>)
        ensures
            final(self).model() == old(self).model().after(
                (StoreCall::RelatedSpace {
                    space,
                    queries: vectors(query_vectors@),
                    exclude: texts(exclude_paths@),
                    limit,
                    filter: filter@,
                }),
            ),
            hits_result(r) == old(self).model().hits(
                (StoreCall::RelatedSpace {
                    space,
                    queries: vectors(query_vectors@),
                    exclude: texts(exclude_paths@),
                    limit,
                    filter: filter@,
                }),
            ),
    ;
}

} // verus!
