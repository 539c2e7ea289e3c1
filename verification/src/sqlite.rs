//! What the SQLite store asks of its database, and what it makes of the
//! answers.
use vstd::prelude::*;

use crate::embed::vectors;
use crate::search::{
    best_dot_scores, candidate_texts, dot_scores, hit_texts, rank, rank_multi, ranking,
    vec_to_blob, blob_of, blob_to_vec, vector_of, Candidate, CandidateText, Hit,
};
use crate::store::{
    chunk_rows, ChunkRow, ChunkWrite, DocRow, DocWrite, FilterText, Space, TextQuery,
};
use crate::text::{holds_text, join, opt_text, push_text, same_text, texts};

verus! {

/// Bumped whenever the schema changes in a backward-incompatible way.
pub const SCHEMA_VERSION: i64 = 1;

/// Creates the tables and indexes that are not there yet.
pub const SCHEMA_SQL: &'static str = "
CREATE TABLE IF NOT EXISTS documents (
    id           INTEGER PRIMARY KEY,
    path         TEXT NOT NULL UNIQUE,
    kind         TEXT NOT NULL,           -- markdown | image | pdf
    source_root  TEXT NOT NULL,           -- canonical vault root
    content_hash BLOB NOT NULL,
    mtime        INTEGER NOT NULL,
    title        TEXT,
    frontmatter  TEXT,                    -- JSON
    indexed_at   INTEGER NOT NULL,
    width        INTEGER,                 -- image documents only
    height       INTEGER                  -- image documents only
);
CREATE INDEX IF NOT EXISTS idx_documents_root ON documents(source_root);

CREATE TABLE IF NOT EXISTS chunks (
    id           INTEGER PRIMARY KEY,
    doc_id       INTEGER NOT NULL REFERENCES documents(id) ON DELETE CASCADE,
    ord          INTEGER NOT NULL,
    space        TEXT NOT NULL,           -- text | image
    modality     TEXT NOT NULL,
    text         TEXT,                    -- NULL for image chunks
    heading_path TEXT,
    vector       BLOB                     -- f32[dim], populated at embed time
);
CREATE INDEX IF NOT EXISTS idx_chunks_doc   ON chunks(doc_id);
CREATE INDEX IF NOT EXISTS idx_chunks_space ON chunks(space);

CREATE TABLE IF NOT EXISTS links (
    src_doc  INTEGER NOT NULL REFERENCES documents(id) ON DELETE CASCADE,
    dst_path TEXT NOT NULL
);
CREATE INDEX IF NOT EXISTS idx_links_src ON links(src_doc);

CREATE TABLE IF NOT EXISTS tags (
    doc_id INTEGER NOT NULL REFERENCES documents(id) ON DELETE CASCADE,
    tag    TEXT NOT NULL
);
CREATE INDEX IF NOT EXISTS idx_tags_doc ON tags(doc_id);
CREATE INDEX IF NOT EXISTS idx_tags_tag ON tags(tag);

CREATE TABLE IF NOT EXISTS meta (
    key   TEXT PRIMARY KEY,
    value TEXT NOT NULL
);
";

/// Inserts or updates a meta value.
pub const SET_META_SQL: &'static str = "INSERT INTO meta(key, value) VALUES (?1, ?2) ON CONFLICT(key) DO UPDATE SET value = excluded.value";

/// A meta value by its key.
pub const GET_META_SQL: &'static str = "SELECT value FROM meta WHERE key = ?1";

/// How many documents there are.
pub const COUNT_DOCUMENTS_SQL: &'static str = "SELECT COUNT(*) FROM documents";

/// How many chunks a space holds.
pub const COUNT_CHUNKS_SQL: &'static str = "SELECT COUNT(*) FROM chunks WHERE space = ?1";

/// When a document was last written.
pub const LAST_INDEXED_SQL: &'static str = "SELECT MAX(indexed_at) FROM documents";

/// A document's content hash by its path.
pub const DOCUMENT_HASH_SQL: &'static str = "SELECT content_hash FROM documents WHERE path = ?1";

/// A document's id by its path.
pub const DOCUMENT_ID_SQL: &'static str = "SELECT id FROM documents WHERE path = ?1";

/// How many documents each root has.
pub const COUNTS_BY_ROOT_SQL: &'static str = "SELECT source_root, COUNT(*) FROM documents GROUP BY source_root ORDER BY source_root";

/// Deletes the documents of a root.
pub const DELETE_BY_ROOT_SQL: &'static str = "DELETE FROM documents WHERE source_root = ?1";

/// Deletes a document by its path.
pub const DELETE_DOCUMENT_SQL: &'static str = "DELETE FROM documents WHERE path = ?1";

/// A document's vectors in a space.
pub const CHUNK_VECTORS_SQL: &'static str = "SELECT c.vector FROM chunks c JOIN documents d ON d.id = c.doc_id WHERE c.space = ?1 AND c.vector IS NOT NULL AND d.path = ?2";

/// What a document links to.
pub const LINKED_TARGETS_SQL: &'static str = "SELECT l.dst_path FROM links l JOIN documents d ON d.id = l.src_doc WHERE d.path = ?1";

/// Every document's path and frontmatter.
pub const ALL_DOCUMENT_META_SQL: &'static str = "SELECT path, frontmatter FROM documents";

/// The ids and vectors of a space's chunks.
pub const INDEX_ROWS_SQL: &'static str = "SELECT id, vector FROM chunks WHERE space = ?1 AND vector IS NOT NULL";

/// A value bound to a parameter of a statement.
pub enum SqlValue {
    Null,
    Integer(i64),
    Text(String),
    Blob(Vec<u8>),
}

/// The content of a [`SqlValue`].
pub enum ValueText {
    Null,
    Integer(i64),
    Text(Seq<char>),
    Blob(Seq<u8>),
}

impl View for SqlValue {
    type V = ValueText;

    open spec fn view(&self) -> ValueText {
        match self {
            SqlValue::Null => ValueText::Null,
            SqlValue::Integer(n) => ValueText::Integer(*n),
            SqlValue::Text(t) => ValueText::Text(t@),
            SqlValue::Blob(b) => ValueText::Blob(b@),
        }
    }
}

/// The contents of some values.
pub open spec fn value_texts(v: Seq<SqlValue>) -> Seq<ValueText> {
    Seq::new(v.len(), |i: int| v[i]@)
}

/// A statement and the values bound to its parameters, in their order.
pub struct Statement {
    pub sql: String,
    pub params: Vec<SqlValue>,
}

/// The content of a [`Statement`].
pub struct StatementText {
    pub sql: Seq<char>,
    pub params: Seq<ValueText>,
}

impl View for Statement {
    type V = StatementText;

    open spec fn view(&self) -> StatementText {
        StatementText { sql: self.sql@, params: value_texts(self.params@) }
    }
}

/// The contents of some statements.
pub open spec fn statement_texts(v: Seq<Statement>) -> Seq<StatementText> {
    Seq::new(v.len(), |i: int| v[i]@)
}

/// `n` placeholders.
pub open spec fn question_marks(n: nat) -> Seq<Seq<char>> {
    Seq::new(n, |i: int| "?"@)
}

/// `n` placeholders, separated by commas.
pub open spec fn placeholders(n: nat) -> Seq<char> {
    join(question_marks(n), ","@)
}

/// Builds `?,?,...` placeholders for an SQL `IN` clause of length `n`.
pub fn in_placeholders(n: usize) -> (r: String)
    ensures
        r@ == placeholders(n as nat),
{
    let mut marks: Vec<String> = Vec::new();
    let mut i: usize = 0;
    while i < n
        invariant
            i <= n,
            marks.len() == i,
            forall|k: int| 0 <= k < i ==> (#[trigger] marks@[k])@ == "?"@,
        decreases n - i,
    {
        marks.push("?".to_string());
        i += 1;
    }
    assert(texts(marks@) =~= question_marks(n as nat));
    crate::text::join_texts(marks.as_slice(), ",")
}

/// The values of a filter that restrict; none where it is empty or absent.
pub open spec fn restriction(v: Option<Seq<Seq<char>>>) -> Option<Seq<Seq<char>>> {
    match v {
        Some(s) => if s.len() > 0 {
            Some(s)
        } else {
            None
        },
        None => None,
    }
}

fn restricting<'a>(v: Option<&'a [String]>) -> (r: Option<&'a [String]>)
    ensures
        crate::store::opt_texts(r) == restriction(crate::store::opt_texts(v)),
{
    match v {
        Some(s) => {
            assert(texts(s@).len() == s.len());
            if s.len() > 0 {
                Some(s)
            } else {
                None
            }
        },
        None => None,
    }
}

/// Every chunk of a space as a scoring candidate.
pub const CANDIDATES_SQL: &'static str = "SELECT d.path, d.title, d.source_root, c.heading_path, c.text, c.vector, d.width, d.height, c.modality FROM chunks c JOIN documents d ON d.id = c.doc_id WHERE c.space = ? AND c.vector IS NOT NULL";

/// Every chunk of some ids as a scoring candidate, up to the list of ids.
pub const CANDIDATES_BY_ID_SQL: &'static str = "SELECT d.path, d.title, d.source_root, c.heading_path, c.text, c.vector, d.width, d.height, c.modality FROM chunks c JOIN documents d ON d.id = c.doc_id WHERE c.id IN (";

/// The statement that selects a space's candidates under a filter: roots and
/// tags narrow it where they restrict.
pub open spec fn candidates_sql(filter: FilterText) -> Seq<char> {
    let roots = match restriction(filter.from) {
        Some(v) => " AND d.source_root IN ("@ + placeholders(v.len()) + ")"@,
        None => seq![],
    };
    let tags = match restriction(filter.tags) {
        Some(v) => " AND d.id IN (SELECT doc_id FROM tags WHERE tag IN ("@ + placeholders(v.len())
            + "))"@,
        None => seq![],
    };
    CANDIDATES_SQL@ + roots + tags
}

/// The values bound in [`candidates_sql`]: the space, then roots, then tags.
pub open spec fn candidates_params(space: Seq<char>, filter: FilterText) -> Seq<Seq<char>> {
    let roots = match restriction(filter.from) {
        Some(v) => v,
        None => seq![],
    };
    let tags = match restriction(filter.tags) {
        Some(v) => v,
        None => seq![],
    };
    seq![space] + roots + tags
}

/// Appends a copy of each string.
fn push_all(out: &mut Vec<String>, v: &[String])
    ensures
        texts(final(out)@) == texts(old(out)@) + texts(v@),
{
    let mut i: usize = 0;
    assert(texts(out@) =~= texts(old(out)@) + texts(v@).take(0));
    while i < v.len()
        invariant
            i <= v.len(),
            texts(out@) == texts(old(out)@) + texts(v@).take(i as int),
        decreases v.len() - i,
    {
        let ghost before = texts(out@);
        out.push(v[i].clone());
        i += 1;
        assert(texts(out@) =~= before.push(v@[i - 1]@));
        assert(texts(v@).take(i as int) =~= texts(v@).take(i - 1).push(v@[i - 1]@));
    }
    assert(texts(v@).take(i as int) =~= texts(v@));
}

/// The query for every chunk in `space`, scoped per `filter`, and its values.
pub fn space_candidates_query(space: &str, filter: &TextQuery<'_>) -> (r: (String, Vec<String>))
    ensures
        r.0@ == candidates_sql(filter@),
        texts(r.1@) == candidates_params(space@, filter@),
{
    let mut sql: String = CANDIDATES_SQL.to_string();
    let mut params: Vec<String> = Vec::new();
    params.push(space.to_string());
    assert(texts(params@) =~= seq![space@]);
    let ghost filter_texts = filter@;
    match restricting(filter.from) {
        Some(roots) => {
            assert(texts(roots@).len() == roots.len());
            push_text(&mut sql, " AND d.source_root IN (");
            push_text(&mut sql, in_placeholders(roots.len()).as_str());
            push_text(&mut sql, ")");
            push_all(&mut params, roots);
            assert(sql@ =~= CANDIDATES_SQL@ + (" AND d.source_root IN ("@ + placeholders(
                roots@.len(),
            ) + ")"@));
        },
        None => {
            assert(sql@ =~= CANDIDATES_SQL@ + Seq::<char>::empty());
            assert(texts(params@) =~= seq![space@] + Seq::<Seq<char>>::empty());
        },
    }
    let ghost sql_before = sql@;
    let ghost params_before = texts(params@);
    match restricting(filter.tags) {
        Some(tags) => {
            assert(texts(tags@).len() == tags.len());
            push_text(&mut sql, " AND d.id IN (SELECT doc_id FROM tags WHERE tag IN (");
            push_text(&mut sql, in_placeholders(tags.len()).as_str());
            push_text(&mut sql, "))");
            push_all(&mut params, tags);
            assert(sql@ =~= sql_before + (" AND d.id IN (SELECT doc_id FROM tags WHERE tag IN ("@
                + placeholders(tags@.len()) + "))"@));
        },
        None => {
            assert(sql@ =~= sql_before + Seq::<char>::empty());
            assert(texts(params@) =~= params_before + Seq::<Seq<char>>::empty());
        },
    }
    (sql, params)
}

/// The query for the chunks of `n` ids.
pub fn candidates_by_ids_query(n: usize) -> (r: String)
    ensures
        r@ == CANDIDATES_BY_ID_SQL@ + placeholders(n as nat) + ")"@,
{
    let mut sql: String = CANDIDATES_BY_ID_SQL.to_string();
    push_text(&mut sql, in_placeholders(n).as_str());
    push_text(&mut sql, ")");
    sql
}

/// The query for the paths of every document with any of `n` tags.
pub fn paths_with_any_tag_query(n: usize) -> (r: String)
    ensures
        r@
            == "SELECT DISTINCT d.path FROM tags t JOIN documents d ON d.id = t.doc_id WHERE t.tag IN ("@
            + placeholders(n as nat) + ")"@,
{
    let mut sql: String = "SELECT DISTINCT d.path FROM tags t JOIN documents d ON d.id = t.doc_id WHERE t.tag IN (".to_string();
    push_text(&mut sql, in_placeholders(n).as_str());
    push_text(&mut sql, ")");
    sql
}

/// The query for the paths of the documents of `n` roots; `None` of no root,
/// which matches nothing.
pub fn paths_for_roots_query(n: usize) -> (r: Option<String>)
    ensures
        r is None <==> n == 0,
        r is Some ==> r->0@ == "SELECT path FROM documents WHERE source_root IN ("@ + placeholders(
            n as nat,
        ) + ")"@,
{
    if n == 0 {
        return None;
    }
    let mut sql: String = "SELECT path FROM documents WHERE source_root IN (".to_string();
    push_text(&mut sql, in_placeholders(n).as_str());
    push_text(&mut sql, ")");
    Some(sql)
}

/// The statement that adds a column to a table, unless the table has it.
pub fn ensure_column(columns: &[String], table: &str, column: &str, ddl: &str) -> (r: Option<
    String,
>)
    ensures
        r is None <==> texts(columns@).contains(column@),
        r is Some ==> r->0@ == "ALTER TABLE "@ + table@ + " ADD COLUMN "@ + ddl@,
{
    if holds_text(columns, column) {
        return None;
    }
    let mut sql: String = "ALTER TABLE ".to_string();
    push_text(&mut sql, table);
    push_text(&mut sql, " ADD COLUMN ");
    push_text(&mut sql, ddl);
    Some(sql)
}

/// A candidate with the modality of its chunk.
pub struct SpaceCandidate {
    pub candidate: Candidate,
    pub modality: String,
}

/// The content of a [`SpaceCandidate`].
pub struct SpaceCandidateText {
    pub candidate: CandidateText,
    pub modality: Seq<char>,
}

impl View for SpaceCandidate {
    type V = SpaceCandidateText;

    open spec fn view(&self) -> SpaceCandidateText {
        SpaceCandidateText { candidate: self.candidate@, modality: self.modality@ }
    }
}

/// The contents of some candidates.
pub open spec fn space_candidate_texts(v: Seq<SpaceCandidate>) -> Seq<SpaceCandidateText> {
    Seq::new(v.len(), |i: int| v[i]@)
}

/// The text of a nullable column: empty where it is null.
pub open spec fn or_empty(t: Option<Seq<char>>) -> Seq<char> {
    match t {
        Some(t) => t,
        None => seq![],
    }
}

/// A candidate from the columns of a row.
pub fn candidate_from_row(
    path: String,
    title: String,
    source_root: String,
    heading_path: Option<String>,
    text: Option<String>,
    vector: &[u8],
    width: Option<i64>,
    height: Option<i64>,
    modality: String,
) -> (r: SpaceCandidate)
    ensures
        r@ == (SpaceCandidateText {
            candidate: CandidateText {
                path: path@,
                title: title@,
                source_root: source_root@,
                heading_path: or_empty(opt_text(heading_path)),
                text: or_empty(opt_text(text)),
                vector: vector_of(vector@),
                width,
                height,
            },
            modality: modality@,
        }),
{
    let empty: String = String::new();
    assert(empty@ =~= seq![]);
    SpaceCandidate {
        candidate: Candidate {
            path,
            title,
            source_root,
            heading_path: match heading_path {
                Some(h) => h,
                None => empty.clone(),
            },
            text: match text {
                Some(t) => t,
                None => empty.clone(),
            },
            vector: blob_to_vec(vector),
            width,
            height,
        },
        modality,
    }
}

/// Whether a candidate fetched by its id passes a filter, where `tagged` are
/// the paths of the documents that have any of the filter's tags.
pub open spec fn passes(
    c: SpaceCandidateText,
    filter: FilterText,
    tagged: Seq<Seq<char>>,
) -> bool {
    &&& match restriction(filter.from) {
        Some(roots) => roots.contains(c.candidate.source_root),
        None => true,
    }
    &&& restriction(filter.tags) is Some ==> tagged.contains(c.candidate.path)
}

/// The candidates that pass a filter, in their order.
pub open spec fn passing(
    all: Seq<SpaceCandidateText>,
    filter: FilterText,
    tagged: Seq<Seq<char>>,
) -> Seq<SpaceCandidateText>
    decreases all.len(),
{
    if all.len() == 0 {
        seq![]
    } else {
        let before = passing(all.drop_last(), filter, tagged);
        if passes(all.last(), filter, tagged) {
            before.push(all.last())
        } else {
            before
        }
    }
}

/// Filters candidates fetched by their ids per `filter`. `tagged` holds the
/// paths of the documents that have any of the filter's tags.
pub fn filter_candidates(
    candidates: Vec<SpaceCandidate>,
    filter: &TextQuery<'_>,
    tagged: &[String],
) -> (r: Vec<SpaceCandidate>)
    ensures
        space_candidate_texts(r@) == passing(
            space_candidate_texts(candidates@),
            filter@,
            texts(tagged@),
        ),
{
    let roots = restricting(filter.from);
    let tags = restricting(filter.tags);
    let ghost all = space_candidate_texts(candidates@);
    let ghost f = filter@;
    let mut kept: Vec<SpaceCandidate> = Vec::new();
    assert(space_candidate_texts(kept@) =~= passing(all.take(0), f, texts(tagged@)));
    for c in it: candidates.into_iter()
        invariant
            all == space_candidate_texts(it.seq()),
            f == filter@,
            crate::store::opt_texts(roots) == restriction(f.from),
            crate::store::opt_texts(tags) == restriction(f.tags),
            space_candidate_texts(kept@) == passing(
                all.take(it.index() as int),
                f,
                texts(tagged@),
            ),
    {
        let ghost i: int = it.index() as int;
        let ghost before = space_candidate_texts(kept@);
        assert(all.take(i + 1).drop_last() =~= all.take(i));
        assert(all.take(i + 1).last() == c@);
        let from_root = match roots {
            Some(roots) => holds_text(roots, c.candidate.source_root.as_str()),
            None => true,
        };
        let has_tag = match tags {
            Some(_) => holds_text(tagged, c.candidate.path.as_str()),
            None => true,
        };
        if from_root && has_tag {
            let ghost item = c@;
            kept.push(c);
            assert(space_candidate_texts(kept@) =~= before.push(item));
        }
    }
    assert(all.take(all.len() as int) =~= all);
    kept
}

/// The ids of several answers, each once, in the order in which they first
/// come.
pub open spec fn union_of(answers: Seq<Seq<u64>>) -> Seq<u64>
    decreases answers.len(),
{
    if answers.len() == 0 {
        seq![]
    } else {
        with_ids(union_of(answers.drop_last()), answers.last())
    }
}

/// Ids with some more, each once.
pub open spec fn with_ids(ids: Seq<u64>, more: Seq<u64>) -> Seq<u64>
    decreases more.len(),
{
    if more.len() == 0 {
        ids
    } else {
        let before = with_ids(ids, more.drop_last());
        if before.contains(more.last()) {
            before
        } else {
            before.push(more.last())
        }
    }
}

/// The ids of some answers.
pub open spec fn id_lists(v: Seq<Vec<u64>>) -> Seq<Seq<u64>> {
    Seq::new(v.len(), |i: int| v[i]@)
}

fn holds_id(v: &[u64], id: u64) -> (r: bool)
    ensures
        r == v@.contains(id),
{
    let mut i: usize = 0;
    while i < v.len()
        invariant
            i <= v.len(),
            forall|k: int| 0 <= k < i ==> v@[k] != id,
        decreases v.len() - i,
    {
        if v[i] == id {
            return true;
        }
        i += 1;
    }
    false
}

/// Unites the ids that several queries matched.
pub fn union_ids(answers: &[Vec<u64>]) -> (r: Vec<u64>)
    ensures
        r@ == union_of(id_lists(answers@)),
{
    let mut ids: Vec<u64> = Vec::new();
    let ghost all = id_lists(answers@);
    let mut i: usize = 0;
    assert(ids@ =~= union_of(all.take(0)));
    while i < answers.len()
        invariant
            i <= answers.len(),
            all == id_lists(answers@),
            ids@ == union_of(all.take(i as int)),
        decreases answers.len() - i,
    {
        let more = &answers[i];
        let ghost before = ids@;
        let mut k: usize = 0;
        assert(with_ids(before, more@.take(0)) =~= before);
        while k < more.len()
            invariant
                k <= more.len(),
                ids@ == with_ids(before, more@.take(k as int)),
            decreases more.len() - k,
        {
            assert(more@.take(k + 1).drop_last() =~= more@.take(k as int));
            if !holds_id(ids.as_slice(), more[k]) {
                ids.push(more[k]);
            }
            k += 1;
        }
        assert(more@.take(k as int) =~= more@);
        assert(all.take(i + 1).drop_last() =~= all.take(i as int));
        assert(all.take(i + 1).last() == more@);
        i += 1;
    }
    assert(all.take(i as int) =~= all);
    ids
}

/// How many neighbors a search requests of an index: five times the limit where
/// candidates are dropped afterwards, by root, tag or modality.
pub open spec fn search_k(space: Space, limit: nat, filter: FilterText) -> nat {
    if filter.from is Some || filter.tags is Some || space == Space::Image {
        limit * 5
    } else {
        limit
    }
}

/// How many neighbors a search requests of an index.
pub fn search_fetch(space: Space, limit: usize, filter: &TextQuery<'_>) -> (r: usize)
    requires
        search_k(space, limit as nat, filter@) <= usize::MAX,
    ensures
        r == search_k(space, limit as nat, filter@),
{
    if filter.from.is_some() || filter.tags.is_some() || matches!(space, Space::Image) {
        limit * 5
    } else {
        limit
    }
}

/// How many neighbors `related` requests of an index: always more than the
/// limit, since the source's own chunks are the top matches and are excluded.
pub fn related_fetch(limit: usize) -> (r: usize)
    requires
        limit * 5 <= usize::MAX,
    ensures
        r == limit * 5,
{
    limit * 5
}

/// The candidates that a search of a space ranks: of the image space, only
/// images themselves, not the titles of documents.
pub open spec fn searchable(space: Space, all: Seq<SpaceCandidateText>) -> Seq<CandidateText>
    decreases all.len(),
{
    if all.len() == 0 {
        seq![]
    } else {
        let before = searchable(space, all.drop_last());
        if space == Space::Image && all.last().modality != "image"@ {
            before
        } else {
            before.push(all.last().candidate)
        }
    }
}

/// The candidates without their modality.
pub open spec fn bare(all: Seq<SpaceCandidateText>) -> Seq<CandidateText> {
    Seq::new(all.len(), |i: int| all[i].candidate)
}

/// Drops what a search of a space does not rank.
fn keep_searchable(space: Space, candidates: Vec<SpaceCandidate>) -> (r: Vec<Candidate>)
    ensures
        candidate_texts(r@) == searchable(space, space_candidate_texts(candidates@)),
{
    let ghost all = space_candidate_texts(candidates@);
    let image = matches!(space, Space::Image);
    let mut kept: Vec<Candidate> = Vec::new();
    assert(candidate_texts(kept@) =~= searchable(space, all.take(0)));
    for c in it: candidates.into_iter()
        invariant
            all == space_candidate_texts(it.seq()),
            image == (space == Space::Image),
            candidate_texts(kept@) == searchable(space, all.take(it.index() as int)),
    {
        let ghost i: int = it.index() as int;
        let ghost before = candidate_texts(kept@);
        assert(all.take(i + 1).drop_last() =~= all.take(i));
        assert(all.take(i + 1).last() == c@);
        if !image || same_text(c.modality.as_str(), "image") {
            let ghost item = c.candidate@;
            kept.push(c.candidate);
            assert(candidate_texts(kept@) =~= before.push(item));
        }
    }
    assert(all.take(all.len() as int) =~= all);
    kept
}

fn drop_modality(candidates: Vec<SpaceCandidate>) -> (r: Vec<Candidate>)
    ensures
        candidate_texts(r@) == bare(space_candidate_texts(candidates@)),
{
    let ghost all = space_candidate_texts(candidates@);
    let mut kept: Vec<Candidate> = Vec::new();
    for c in it: candidates.into_iter()
        invariant
            all == space_candidate_texts(it.seq()),
            candidate_texts(kept@) == bare(all).take(it.index() as int),
    {
        let ghost before = candidate_texts(kept@);
        let ghost item = c.candidate@;
        kept.push(c.candidate);
        assert(candidate_texts(kept@) =~= before.push(item));
        assert(bare(all).take(it.index() + 1) =~= before.push(item));
    }
    assert(bare(all).take(all.len() as int) =~= bare(all));
    kept
}

/// Ranks the candidates that were fetched for a search of a space.
pub fn search_candidates<D: Fn(&[u32], &[u32]) -> u32>(
    space: Space,
    query: &[u32],
    candidates: Vec<SpaceCandidate>,
    limit: usize,
    dot: D,
) -> (r: Vec<Hit>)
    requires
        forall|q: &[u32], v: &[u32]| #[trigger] call_requires(dot, (q, v)),
    ensures
        exists|scores: Seq<u32>| #[trigger]
            dot_scores(
                dot,
                query@,
                searchable(space, space_candidate_texts(candidates@)),
                scores,
            ) && hit_texts(r@) == ranking(
                searchable(space, space_candidate_texts(candidates@)),
                scores,
                seq![],
                limit as nat,
            ),
{
    rank(query, keep_searchable(space, candidates), limit, dot)
}

/// Ranks the candidates that were fetched for documents related to another.
pub fn related_candidates<D: Fn(&[u32], &[u32]) -> u32>(
    queries: &[Vec<u32>],
    candidates: Vec<SpaceCandidate>,
    exclude_paths: &[String],
    limit: usize,
    dot: D,
) -> (r: Vec<Hit>)
    requires
        forall|q: &[u32], v: &[u32]| #[trigger] call_requires(dot, (q, v)),
    ensures
        exists|scores: Seq<u32>| #[trigger]
            best_dot_scores(
                dot,
                vectors(queries@),
                bare(space_candidate_texts(candidates@)),
                texts(exclude_paths@),
                scores,
            ) && hit_texts(r@) == ranking(
                bare(space_candidate_texts(candidates@)),
                scores,
                texts(exclude_paths@),
                limit as nat,
            ),
{
    rank_multi(queries, drop_modality(candidates), exclude_paths, limit, dot)
}

/// Inserts a document, or updates the one with the same path.
pub const UPSERT_DOCUMENT_SQL: &'static str = "INSERT INTO documents (path, kind, source_root, content_hash, mtime, title, frontmatter, indexed_at, width, height) VALUES (?1, ?2, ?3, ?4, ?5, ?6, ?7, ?8, ?9, ?10) ON CONFLICT(path) DO UPDATE SET kind = excluded.kind, source_root = excluded.source_root, content_hash = excluded.content_hash, mtime = excluded.mtime, title = excluded.title, frontmatter = excluded.frontmatter, indexed_at = excluded.indexed_at, width = excluded.width, height = excluded.height";

/// Inserts a chunk of a document.
pub const INSERT_CHUNK_SQL: &'static str = "INSERT INTO chunks (doc_id, ord, space, modality, text, heading_path, vector) VALUES (?1, ?2, ?3, ?4, ?5, ?6, ?7)";

/// Inserts a link of a document.
pub const INSERT_LINK_SQL: &'static str = "INSERT INTO links (src_doc, dst_path) VALUES (?1, ?2)";

/// Inserts a tag of a document.
pub const INSERT_TAG_SQL: &'static str = "INSERT INTO tags (doc_id, tag) VALUES (?1, ?2)";

/// Deletes the chunks of a document.
pub const DELETE_CHUNKS_SQL: &'static str = "DELETE FROM chunks WHERE doc_id = ?1";

/// Deletes the links of a document.
pub const DELETE_LINKS_SQL: &'static str = "DELETE FROM links WHERE src_doc = ?1";

/// Deletes the tags of a document.
pub const DELETE_TAGS_SQL: &'static str = "DELETE FROM tags WHERE doc_id = ?1";

/// A nullable text as a value.
pub open spec fn text_value(t: Option<Seq<char>>) -> ValueText {
    match t {
        Some(t) => ValueText::Text(t),
        None => ValueText::Null,
    }
}

/// A nullable number as a value.
pub open spec fn number_value(n: Option<i64>) -> ValueText {
    match n {
        Some(n) => ValueText::Integer(n),
        None => ValueText::Null,
    }
}

/// The statement that inserts or updates a document's own row.
pub open spec fn upsert_statement(doc: DocRow, indexed_at: i64) -> StatementText {
    StatementText {
        sql: UPSERT_DOCUMENT_SQL@,
        params: seq![
            ValueText::Text(doc.path),
            ValueText::Text(doc.kind),
            ValueText::Text(doc.source_root),
            ValueText::Blob(doc.content_hash),
            ValueText::Integer(doc.mtime),
            ValueText::Text(doc.title),
            text_value(doc.frontmatter),
            ValueText::Integer(indexed_at),
            number_value(doc.width),
            number_value(doc.height),
        ],
    }
}

/// A statement with a document's id as its only value.
pub open spec fn id_statement(sql: Seq<char>, doc_id: i64) -> StatementText {
    StatementText { sql, params: seq![ValueText::Integer(doc_id)] }
}

/// The statement that inserts a chunk.
pub open spec fn chunk_statement(c: ChunkRow, doc_id: i64) -> StatementText {
    StatementText {
        sql: INSERT_CHUNK_SQL@,
        params: seq![
            ValueText::Integer(doc_id),
            ValueText::Integer(c.ord as i64),
            ValueText::Text(c.space),
            ValueText::Text(c.modality),
            text_value(c.text),
            ValueText::Text(c.heading_path),
            ValueText::Blob(blob_of(c.vector)),
        ],
    }
}

/// A statement with a document's id and a text as its values.
pub open spec fn text_statement(sql: Seq<char>, doc_id: i64, text: Seq<char>) -> StatementText {
    StatementText { sql, params: seq![ValueText::Integer(doc_id), ValueText::Text(text)] }
}

/// One statement for each chunk.
pub open spec fn chunk_statements(chunks: Seq<ChunkRow>, doc_id: i64) -> Seq<StatementText> {
    Seq::new(chunks.len(), |i: int| chunk_statement(chunks[i], doc_id))
}

/// One statement for each text.
pub open spec fn text_statements(sql: Seq<char>, doc_id: i64, v: Seq<Seq<char>>) -> Seq<
    StatementText,
> {
    Seq::new(v.len(), |i: int| text_statement(sql, doc_id, v[i]))
}

/// The statements that replace everything that belongs to a document: its old
/// chunks, links and tags are deleted, and its new ones inserted.
pub open spec fn replace_statements(doc: DocRow, doc_id: i64) -> Seq<StatementText> {
    seq![
        id_statement(DELETE_CHUNKS_SQL@, doc_id),
        id_statement(DELETE_LINKS_SQL@, doc_id),
    ] + chunk_statements(doc.chunks, doc_id) + text_statements(
        INSERT_LINK_SQL@,
        doc_id,
        doc.links,
    ) + seq![id_statement(DELETE_TAGS_SQL@, doc_id)] + text_statements(
        INSERT_TAG_SQL@,
        doc_id,
        doc.tags,
    )
}

fn nullable_number(n: Option<i64>) -> (r: SqlValue)
    ensures
        r@ == number_value(n),
{
    match n {
        Some(n) => SqlValue::Integer(n),
        None => SqlValue::Null,
    }
}

/// The statement that inserts or updates a document's own row, written at
/// `indexed_at`.
pub fn upsert_document(doc: &DocWrite<'_>, indexed_at: i64) -> (r: Statement)
    ensures
        r@ == upsert_statement(doc@, indexed_at),
{
    let frontmatter = match doc.frontmatter {
        Some(fm) => SqlValue::Text(fm.to_string()),
        None => SqlValue::Null,
    };
    let mut hash: Vec<u8> = Vec::new();
    hash.extend_from_slice(doc.content_hash);
    assert(hash@ =~= doc.content_hash@);
    let mut params: Vec<SqlValue> = Vec::new();
    params.push(SqlValue::Text(doc.path.to_string()));
    params.push(SqlValue::Text(doc.kind.to_string()));
    params.push(SqlValue::Text(doc.source_root.to_string()));
    params.push(SqlValue::Blob(hash));
    params.push(SqlValue::Integer(doc.mtime));
    params.push(SqlValue::Text(doc.title.to_string()));
    params.push(frontmatter);
    params.push(SqlValue::Integer(indexed_at));
    params.push(nullable_number(doc.width));
    params.push(nullable_number(doc.height));
    let r = Statement { sql: UPSERT_DOCUMENT_SQL.to_string(), params };
    assert(r@.params =~= upsert_statement(doc@, indexed_at).params);
    r
}

fn delete_of(sql: &str, doc_id: i64) -> (r: Statement)
    ensures
        r@ == id_statement(sql@, doc_id),
{
    let mut params: Vec<SqlValue> = Vec::new();
    params.push(SqlValue::Integer(doc_id));
    let r = Statement { sql: sql.to_string(), params };
    assert(r@.params =~= seq![ValueText::Integer(doc_id)]);
    r
}

fn insert_chunk(c: &ChunkWrite, doc_id: i64) -> (r: Statement)
    ensures
        r@ == chunk_statement(c@, doc_id),
{
    let text = match &c.text {
        Some(t) => SqlValue::Text(t.clone()),
        None => SqlValue::Null,
    };
    let mut params: Vec<SqlValue> = Vec::new();
    params.push(SqlValue::Integer(doc_id));
    params.push(
        SqlValue::Integer(
            #[verifier::truncate]
            (c.ord as i64),
        ),
    );
    params.push(SqlValue::Text(c.space.clone()));
    params.push(SqlValue::Text(c.modality.clone()));
    params.push(text);
    params.push(SqlValue::Text(c.heading_path.clone()));
    params.push(SqlValue::Blob(vec_to_blob(c.vector.as_slice())));
    let r = Statement { sql: INSERT_CHUNK_SQL.to_string(), params };
    assert(r@.params =~= chunk_statement(c@, doc_id).params);
    r
}

/// Appends one statement for each text.
fn push_texts(out: &mut Vec<Statement>, sql: &str, doc_id: i64, v: &[String])
    ensures
        statement_texts(final(out)@) == statement_texts(old(out)@) + text_statements(
            sql@,
            doc_id,
            texts(v@),
        ),
{
    let ghost all = text_statements(sql@, doc_id, texts(v@));
    let ghost head = statement_texts(out@);
    let mut i: usize = 0;
    assert(statement_texts(out@) =~= head + all.take(0));
    while i < v.len()
        invariant
            i <= v.len(),
            all == text_statements(sql@, doc_id, texts(v@)),
            statement_texts(out@) == head + all.take(i as int),
        decreases v.len() - i,
    {
        let ghost before = statement_texts(out@);
        let mut params: Vec<SqlValue> = Vec::new();
        params.push(SqlValue::Integer(doc_id));
        params.push(SqlValue::Text(v[i].clone()));
        let s = Statement { sql: sql.to_string(), params };
        assert(s@.params =~= all[i as int].params);
        out.push(s);
        i += 1;
        assert(statement_texts(out@) =~= before.push(all[i - 1]));
        assert(all.take(i as int) =~= all.take(i - 1).push(all[i - 1]));
    }
    assert(all.take(i as int) =~= all);
}

/// The statements that replace what belongs to the document under `doc_id`, to
/// be run in order after [`upsert_document`] in the same transaction.
pub fn replace_dependents(doc: &DocWrite<'_>, doc_id: i64) -> (r: Vec<Statement>)
    ensures
        statement_texts(r@) == replace_statements(doc@, doc_id),
{
    let ghost rows = chunk_statements(doc@.chunks, doc_id);
    let mut out: Vec<Statement> = Vec::new();
    out.push(delete_of(DELETE_CHUNKS_SQL, doc_id));
    out.push(delete_of(DELETE_LINKS_SQL, doc_id));
    let ghost head = statement_texts(out@);
    assert(head =~= seq![
        id_statement(DELETE_CHUNKS_SQL@, doc_id),
        id_statement(DELETE_LINKS_SQL@, doc_id),
    ]);
    let mut i: usize = 0;
    assert(statement_texts(out@) =~= head + rows.take(0));
    while i < doc.chunks.len()
        invariant
            i <= doc.chunks.len(),
            rows == chunk_statements(chunk_rows(doc.chunks@), doc_id),
            statement_texts(out@) == head + rows.take(i as int),
        decreases doc.chunks.len() - i,
    {
        let ghost before = statement_texts(out@);
        out.push(insert_chunk(&doc.chunks[i], doc_id));
        i += 1;
        assert(statement_texts(out@) =~= before.push(rows[i - 1]));
        assert(rows.take(i as int) =~= rows.take(i - 1).push(rows[i - 1]));
    }
    assert(rows.take(i as int) =~= rows);
    push_texts(&mut out, INSERT_LINK_SQL, doc_id, doc.links);
    let ghost so_far = statement_texts(out@);
    out.push(delete_of(DELETE_TAGS_SQL, doc_id));
    assert(statement_texts(out@) =~= so_far + seq![
        id_statement(DELETE_TAGS_SQL@, doc_id),
    ]);
    push_texts(&mut out, INSERT_TAG_SQL, doc_id, doc.tags);
    out
}

/// What becomes of a space's index on disk when it is rebuilt.
#[derive(Debug, Clone, Copy, PartialEq, Eq, Structural)]
pub enum IndexPlan {
    /// There is nothing to index: an existing file is removed.
    Remove,
    /// An index of vectors of this dimension is built and saved.
    Build { dimensions: usize },
}

/// The plan for the vectors of a space.
pub open spec fn plan_of(rows: Seq<Seq<u32>>) -> IndexPlan {
    if rows.len() == 0 {
        IndexPlan::Remove
    } else {
        IndexPlan::Build { dimensions: rows[0].len() as usize }
    }
}

/// Plans the rebuild of a space's index from its vectors.
pub fn rebuild_plan(rows: &[Vec<u32>]) -> (r: IndexPlan)
    ensures
        r == plan_of(vectors(rows@)),
{
    assert(vectors(rows@).len() == rows.len());
    if rows.len() == 0 {
        IndexPlan::Remove
    } else {
        assert(vectors(rows@)[0] == rows@[0]@);
        IndexPlan::Build { dimensions: rows[0].len() }
    }
}

/// The file name of a space's index.
pub fn index_file_name(space: Space) -> (r: String)
    ensures
        r@ == crate::store::space_name(space) + ".usearch"@,
{
    let mut name: String = space.as_str().to_string();
    push_text(&mut name, ".usearch");
    name
}

/// How often a character stands in a text.
pub open spec fn count_of(s: Seq<char>, c: char) -> nat
    decreases s.len(),
{
    if s.len() == 0 {
        0
    } else {
        count_of(s.drop_last(), c) + if s.last() == c {
            1nat
        } else {
            0nat
        }
    }
}

pub proof fn count_of_sum(a: Seq<char>, b: Seq<char>, c: char)
    ensures
        count_of(a + b, c) == count_of(a, c) + count_of(b, c),
    decreases b.len(),
{
    if b.len() == 0 {
        assert(a + b =~= a);
    } else {
        assert((a + b).drop_last() =~= a + b.drop_last());
        count_of_sum(a, b.drop_last(), c);
    }
}

/// The placeholders for `n` values hold one question mark for each.
pub proof fn one_placeholder_per_value(n: nat)
    ensures
        count_of(placeholders(n), '?') == n,
    decreases n,
{
    reveal_strlit("?");
    reveal_strlit(",");
    assert("?"@ =~= seq!['?']);
    assert(","@ =~= seq![',']);
    reveal_with_fuel(count_of, 2);
    assert(seq!['?'].drop_last() =~= seq![]);
    assert(seq![','].drop_last() =~= seq![]);
    assert(count_of("?"@, '?') == 1);
    assert(count_of(","@, '?') == 0);
    if n >= 2 {
        let m = (n - 1) as nat;
        one_placeholder_per_value(m);
        assert(question_marks(n).drop_last() =~= question_marks(m));
        let head = placeholders(m);
        assert(placeholders(n) == head + ","@ + "?"@);
        count_of_sum(head + ","@, "?"@, '?');
        count_of_sum(head, ","@, '?');
    }
}

/// A filter's statement is given a value for the space, for each root that
/// restricts it and for each tag that does, in this order.
pub proof fn candidates_params_follow_the_statement(space: Seq<char>, filter: FilterText)
    ensures
        candidates_params(space, filter).len() == 1 + (match restriction(filter.from) {
            Some(v) => v.len(),
            None => 0,
        }) + (match restriction(filter.tags) {
            Some(v) => v.len(),
            None => 0,
        }),
        candidates_params(space, filter)[0] == space,
{
}

proof fn with_ids_facts(ids: Seq<u64>, more: Seq<u64>)
    ensures
        ids.no_duplicates() ==> with_ids(ids, more).no_duplicates(),
        forall|x: u64| #[trigger]
            with_ids(ids, more).contains(x) <==> ids.contains(x) || more.contains(x),
    decreases more.len(),
{
    let r = with_ids(ids, more);
    if more.len() > 0 {
        let m = more.drop_last();
        let b = with_ids(ids, m);
        with_ids_facts(ids, m);
        assert forall|x: u64| #[trigger] r.contains(x) <==> ids.contains(x) || more.contains(x) by {
            if more.contains(x) {
                let k = choose|k: int| 0 <= k < more.len() && more[k] == x;
                if k < m.len() {
                    assert(m[k] == x);
                    assert(m.contains(x));
                    assert(b.contains(x));
                }
            }
            if m.contains(x) {
                let k = choose|k: int| 0 <= k < m.len() && m[k] == x;
                assert(more[k] == x);
            }
            if b.contains(x) {
                let k = choose|k: int| 0 <= k < b.len() && b[k] == x;
                assert(r[k] == x);
            }
            if x == more.last() {
                assert(more[more.len() - 1] == x);
                if !b.contains(x) {
                    assert(r[b.len() as int] == x);
                }
            }
            if r.contains(x) && !b.contains(x) {
                let k = choose|k: int| 0 <= k < r.len() && r[k] == x;
                if k < b.len() {
                    assert(b[k] == x);
                }
            }
        }
    } else {
        assert(r == ids);
    }
}

/// The union of several answers holds each id once, and those of the answers
/// only.
pub proof fn union_is_distinct_and_complete(answers: Seq<Seq<u64>>)
    ensures
        union_of(answers).no_duplicates(),
        forall|x: u64| #[trigger]
            union_of(answers).contains(x) <==> exists|i: int|
                0 <= i < answers.len() && (#[trigger] answers[i]).contains(x),
    decreases answers.len(),
{
    if answers.len() > 0 {
        let rest = answers.drop_last();
        union_is_distinct_and_complete(rest);
        with_ids_facts(union_of(rest), answers.last());
        assert forall|x: u64| #[trigger] union_of(answers).contains(x) <==> exists|i: int|
            0 <= i < answers.len() && (#[trigger] answers[i]).contains(x) by {
            if union_of(rest).contains(x) {
                let i = choose|i: int| 0 <= i < rest.len() && (#[trigger] rest[i]).contains(x);
                assert(answers[i].contains(x));
            }
            if answers.last().contains(x) {
                assert(answers[answers.len() - 1].contains(x));
            }
            if exists|i: int| 0 <= i < answers.len() && (#[trigger] answers[i]).contains(x) {
                let i = choose|i: int|
                    0 <= i < answers.len() && (#[trigger] answers[i]).contains(x);
                if i < rest.len() {
                    assert(rest[i].contains(x));
                }
            }
        }
    }
}

} // verus!
