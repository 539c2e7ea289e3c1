//! A model of the tables that the statements of the SQLite store write, and what
//! replacing a document does to them. What a statement does is written down here
//! as its text says; the database itself is not modelled any further, and neither
//! is the transaction that the statements are run in.
use vstd::multiset::Multiset;
use vstd::prelude::*;

use crate::search::{blob_of, blob_roundtrip, vector_of};
use crate::sqlite::{
    chunk_statement, chunk_statements, id_statement, replace_statements, text_statements,
    upsert_statement, StatementText, ValueText, DELETE_CHUNKS_SQL, DELETE_LINKS_SQL,
    DELETE_TAGS_SQL, INSERT_CHUNK_SQL, INSERT_LINK_SQL, INSERT_TAG_SQL, UPSERT_DOCUMENT_SQL,
};
use crate::store::{ChunkRow, DocRow};

verus! {

/// A row of the documents, with its columns in the order of the statement that
/// writes them.
pub struct DocumentRecord {
    pub id: i64,
    pub columns: Seq<ValueText>,
}

/// The tables that hold documents. The rows of the last three have their columns
/// in the order of the statements that insert them; the first one is the id of
/// the document that a row belongs to.
pub struct Tables {
    pub documents: Seq<DocumentRecord>,
    pub chunks: Seq<Seq<ValueText>>,
    pub links: Seq<Seq<ValueText>>,
    pub tags: Seq<Seq<ValueText>>,
}

/// Whether the document at `i` has this path.
pub open spec fn is_at(t: Tables, path: Seq<char>, i: int) -> bool {
    0 <= i < t.documents.len() && t.documents[i].columns[0] == ValueText::Text(path)
}

/// Whether a document of this path is stored.
pub open spec fn is_stored(t: Tables, path: Seq<char>) -> bool {
    exists|i: int| is_at(t, path, i)
}

/// Where the document of a path is stored.
pub open spec fn place(t: Tables, path: Seq<char>) -> int {
    choose|i: int| is_at(t, path, i)
}

/// The row of a path.
pub open spec fn record(t: Tables, path: Seq<char>) -> DocumentRecord {
    t.documents[place(t, path)]
}

/// The rows that belong to the document with an id.
pub open spec fn rows_of(rows: Seq<Seq<ValueText>>, id: i64) -> Seq<Seq<ValueText>>
    decreases rows.len(),
{
    if rows.len() == 0 {
        seq![]
    } else {
        let before = rows_of(rows.drop_last(), id);
        if rows.last()[0] == ValueText::Integer(id) {
            before.push(rows.last())
        } else {
            before
        }
    }
}

/// The rows that do not have this value in their first column.
pub open spec fn rows_without(rows: Seq<Seq<ValueText>>, value: ValueText) -> Seq<Seq<ValueText>>
    decreases rows.len(),
{
    if rows.len() == 0 {
        seq![]
    } else {
        let before = rows_without(rows.drop_last(), value);
        if rows.last()[0] == value {
            before
        } else {
            before.push(rows.last())
        }
    }
}

/// The tables after a statement. A document that is inserted gets the id
/// `fresh`, which the database picks.
pub open spec fn after_statement(t: Tables, s: StatementText, fresh: i64) -> Tables {
    if s.sql == UPSERT_DOCUMENT_SQL@ {
        let same = |i: int|
            0 <= i < t.documents.len() && t.documents[i].columns[0] == s.params[0];
        if exists|i: int| #[trigger] same(i) {
            let i = choose|i: int| #[trigger] same(i);
            let row = DocumentRecord { id: t.documents[i].id, columns: s.params };
            Tables { documents: t.documents.update(i, row), ..t }
        } else {
            let row = DocumentRecord { id: fresh, columns: s.params };
            Tables { documents: t.documents.push(row), ..t }
        }
    } else if s.sql == DELETE_CHUNKS_SQL@ {
        Tables { chunks: rows_without(t.chunks, s.params[0]), ..t }
    } else if s.sql == DELETE_LINKS_SQL@ {
        Tables { links: rows_without(t.links, s.params[0]), ..t }
    } else if s.sql == DELETE_TAGS_SQL@ {
        Tables { tags: rows_without(t.tags, s.params[0]), ..t }
    } else if s.sql == INSERT_CHUNK_SQL@ {
        Tables { chunks: t.chunks.push(s.params), ..t }
    } else if s.sql == INSERT_LINK_SQL@ {
        Tables { links: t.links.push(s.params), ..t }
    } else if s.sql == INSERT_TAG_SQL@ {
        Tables { tags: t.tags.push(s.params), ..t }
    } else {
        t
    }
}

/// The tables after some statements, one after another.
pub open spec fn after_statements(t: Tables, s: Seq<StatementText>, fresh: i64) -> Tables
    decreases s.len(),
{
    if s.len() == 0 {
        t
    } else {
        after_statement(after_statements(t, s.drop_last(), fresh), s.last(), fresh)
    }
}

/// The tables after a document was replaced: its own row is written, and then
/// what belongs to it, under the id that its row has.
pub open spec fn after_replacing(t: Tables, doc: DocRow, indexed_at: i64, fresh: i64) -> Tables {
    let upserted = after_statement(t, upsert_statement(doc, indexed_at), fresh);
    let id = record(upserted, doc.path).id;
    after_statements(upserted, replace_statements(doc, id), fresh)
}

/// A document's content hash.
pub open spec fn stored_hash(t: Tables, path: Seq<char>) -> Option<ValueText> {
    if is_stored(t, path) {
        Some(record(t, path).columns[3])
    } else {
        None
    }
}

/// The values in a column of the rows that belong to a document.
pub open spec fn belonging(
    t: Tables,
    rows: Seq<Seq<ValueText>>,
    path: Seq<char>,
    column: int,
) -> Multiset<ValueText> {
    if is_stored(t, path) {
        column_of(rows_of(rows, record(t, path).id), column).to_multiset()
    } else {
        Multiset::empty()
    }
}

/// A column of some rows.
pub open spec fn column_of(rows: Seq<Seq<ValueText>>, column: int) -> Seq<ValueText> {
    Seq::new(rows.len(), |i: int| rows[i][column])
}

/// What a document links to.
pub open spec fn stored_links(t: Tables, path: Seq<char>) -> Multiset<ValueText> {
    belonging(t, t.links, path, 1)
}

/// The tags of a document.
pub open spec fn stored_tags(t: Tables, path: Seq<char>) -> Multiset<ValueText> {
    belonging(t, t.tags, path, 1)
}

/// The rows of a space.
pub open spec fn rows_in(rows: Seq<Seq<ValueText>>, space: Seq<char>) -> Seq<Seq<ValueText>>
    decreases rows.len(),
{
    if rows.len() == 0 {
        seq![]
    } else {
        let before = rows_in(rows.drop_last(), space);
        if rows.last()[2] == ValueText::Text(space) {
            before.push(rows.last())
        } else {
            before
        }
    }
}

/// The vectors of a document in a space.
pub open spec fn stored_vectors(t: Tables, path: Seq<char>, space: Seq<char>) -> Multiset<
    ValueText,
> {
    if is_stored(t, path) {
        column_of(rows_in(rows_of(t.chunks, record(t, path).id), space), 6).to_multiset()
    } else {
        Multiset::empty()
    }
}

/// Whether no two documents have the same path.
pub open spec fn paths_differ(t: Tables) -> bool {
    forall|i: int, j: int|
        0 <= i < j < t.documents.len() ==> (#[trigger] t.documents[i]).columns[0] != (
        #[trigger] t.documents[j]).columns[0]
}

/// Whether paths and ids are unique.
pub open spec fn well_formed(t: Tables) -> bool {
    &&& paths_differ(t)
    &&& forall|i: int, j: int|
        0 <= i < j < t.documents.len() ==> (#[trigger] t.documents[i]).id != (
        #[trigger] t.documents[j]).id
}

/// Whether there is a document with this id.
pub open spec fn is_id(t: Tables, id: i64) -> bool {
    exists|i: int| 0 <= i < t.documents.len() && (#[trigger] t.documents[i]).id == id
}

/// The values of some texts.
pub open spec fn text_values(v: Seq<Seq<char>>) -> Seq<ValueText> {
    Seq::new(v.len(), |i: int| ValueText::Text(v[i]))
}

/// The vectors of the chunks in a space, as they are stored.
pub open spec fn vectors_in(chunks: Seq<ChunkRow>, space: Seq<char>) -> Seq<ValueText>
    decreases chunks.len(),
{
    if chunks.len() == 0 {
        seq![]
    } else {
        let before = vectors_in(chunks.drop_last(), space);
        if chunks.last().space == space {
            before.push(ValueText::Blob(blob_of(chunks.last().vector)))
        } else {
            before
        }
    }
}

/// The texts of the statements differ: in whether they insert or delete, or in
/// the first letter of their table.
proof fn texts_differ()
    ensures
        UPSERT_DOCUMENT_SQL@ != DELETE_CHUNKS_SQL@,
        UPSERT_DOCUMENT_SQL@ != DELETE_LINKS_SQL@,
        UPSERT_DOCUMENT_SQL@ != DELETE_TAGS_SQL@,
        UPSERT_DOCUMENT_SQL@ != INSERT_CHUNK_SQL@,
        UPSERT_DOCUMENT_SQL@ != INSERT_LINK_SQL@,
        UPSERT_DOCUMENT_SQL@ != INSERT_TAG_SQL@,
        DELETE_CHUNKS_SQL@ != DELETE_LINKS_SQL@,
        DELETE_CHUNKS_SQL@ != DELETE_TAGS_SQL@,
        DELETE_LINKS_SQL@ != DELETE_TAGS_SQL@,
        INSERT_CHUNK_SQL@ != INSERT_LINK_SQL@,
        INSERT_CHUNK_SQL@ != INSERT_TAG_SQL@,
        INSERT_LINK_SQL@ != INSERT_TAG_SQL@,
        INSERT_CHUNK_SQL@ != DELETE_CHUNKS_SQL@,
        INSERT_CHUNK_SQL@ != DELETE_LINKS_SQL@,
        INSERT_CHUNK_SQL@ != DELETE_TAGS_SQL@,
        INSERT_LINK_SQL@ != DELETE_CHUNKS_SQL@,
        INSERT_LINK_SQL@ != DELETE_LINKS_SQL@,
        INSERT_LINK_SQL@ != DELETE_TAGS_SQL@,
        INSERT_TAG_SQL@ != DELETE_CHUNKS_SQL@,
        INSERT_TAG_SQL@ != DELETE_LINKS_SQL@,
        INSERT_TAG_SQL@ != DELETE_TAGS_SQL@,
{
    reveal_strlit(
        "INSERT INTO documents (path, kind, source_root, content_hash, mtime, title, frontmatter, indexed_at, width, height) VALUES (?1, ?2, ?3, ?4, ?5, ?6, ?7, ?8, ?9, ?10) ON CONFLICT(path) DO UPDATE SET kind = excluded.kind, source_root = excluded.source_root, content_hash = excluded.content_hash, mtime = excluded.mtime, title = excluded.title, frontmatter = excluded.frontmatter, indexed_at = excluded.indexed_at, width = excluded.width, height = excluded.height",
    );
    assert(UPSERT_DOCUMENT_SQL@[0] == 'I' && UPSERT_DOCUMENT_SQL@[12] == 'd');
    reveal_strlit("DELETE FROM chunks WHERE doc_id = ?1");
    assert(DELETE_CHUNKS_SQL@[0] == 'D' && DELETE_CHUNKS_SQL@[12] == 'c');
    reveal_strlit("DELETE FROM links WHERE src_doc = ?1");
    assert(DELETE_LINKS_SQL@[0] == 'D' && DELETE_LINKS_SQL@[12] == 'l');
    reveal_strlit("DELETE FROM tags WHERE doc_id = ?1");
    assert(DELETE_TAGS_SQL@[0] == 'D' && DELETE_TAGS_SQL@[12] == 't');
    reveal_strlit(
        "INSERT INTO chunks (doc_id, ord, space, modality, text, heading_path, vector) VALUES (?1, ?2, ?3, ?4, ?5, ?6, ?7)",
    );
    assert(INSERT_CHUNK_SQL@[0] == 'I' && INSERT_CHUNK_SQL@[12] == 'c');
    reveal_strlit("INSERT INTO links (src_doc, dst_path) VALUES (?1, ?2)");
    assert(INSERT_LINK_SQL@[0] == 'I' && INSERT_LINK_SQL@[12] == 'l');
    reveal_strlit("INSERT INTO tags (doc_id, tag) VALUES (?1, ?2)");
    assert(INSERT_TAG_SQL@[0] == 'I' && INSERT_TAG_SQL@[12] == 't');
}

/// A path is stored in one place.
proof fn one_place(t: Tables, path: Seq<char>, i: int)
    requires
        paths_differ(t),
        is_at(t, path, i),
    ensures
        is_stored(t, path),
        place(t, path) == i,
{
    let j = place(t, path);
    assert(is_at(t, path, j));
    if i < j {
        assert(t.documents[i].columns[0] != t.documents[j].columns[0]);
    } else if j < i {
        assert(t.documents[j].columns[0] != t.documents[i].columns[0]);
    }
}

/// What writing a document's own row does: the row holds the new values under
/// the id it had, or a fresh one, and every other document stays.
proof fn upserted_rows(t: Tables, doc: DocRow, indexed_at: i64, fresh: i64)
    requires
        well_formed(t),
        !is_id(t, fresh),
    ensures
        ({
            let s = upsert_statement(doc, indexed_at);
            let u = after_statement(t, s, fresh);
            let id = record(u, doc.path).id;
            &&& is_stored(u, doc.path)
            &&& record(u, doc.path).columns == s.params
            &&& id == if is_stored(t, doc.path) {
                record(t, doc.path).id
            } else {
                fresh
            }
            &&& u.chunks == t.chunks && u.links == t.links && u.tags == t.tags
            &&& well_formed(u)
            &&& forall|p: Seq<char>|
                p != doc.path ==> (#[trigger] is_stored(u, p) <==> is_stored(t, p))
            &&& forall|p: Seq<char>|
                p != doc.path && #[trigger] is_stored(t, p) ==> record(u, p) == record(t, p)
                    && record(t, p).id != id
        }),
{
    let s = upsert_statement(doc, indexed_at);
    let u = after_statement(t, s, fresh);
    let same = |i: int| 0 <= i < t.documents.len() && t.documents[i].columns[0] == s.params[0];
    let at = if exists|i: int| #[trigger] same(i) {
        choose|i: int| #[trigger] same(i)
    } else {
        t.documents.len() as int
    };
    if is_stored(t, doc.path) {
        let i = place(t, doc.path);
        assert(is_at(t, doc.path, i));
        assert(same(i));
        assert(is_at(t, doc.path, at));
        one_place(t, doc.path, at);
    } else {
        assert forall|i: int| !#[trigger] same(i) by {
            if same(i) {
                assert(is_at(t, doc.path, i));
            }
        }
    }
    assert(u.documents[at].columns == s.params);
    assert forall|i: int, j: int| 0 <= i < j < u.documents.len() implies (
    #[trigger] u.documents[i]).columns[0] != (#[trigger] u.documents[j]).columns[0] by {
        if i != at && j != at {
            assert(t.documents[i].columns[0] != t.documents[j].columns[0]);
        } else {
            let k = if i == at {
                j
            } else {
                i
            };
            if t.documents[k].columns[0] == s.params[0] {
                assert(same(k));
                assert(is_at(t, doc.path, k));
                one_place(t, doc.path, k);
            }
        }
    }
    assert forall|i: int, j: int| 0 <= i < j < u.documents.len() implies (
    #[trigger] u.documents[i]).id != (#[trigger] u.documents[j]).id by {
        if j < t.documents.len() {
            assert(t.documents[i].id != t.documents[j].id);
        }
    }
    assert(is_at(u, doc.path, at));
    one_place(u, doc.path, at);
    assert forall|p: Seq<char>| p != doc.path implies (#[trigger] is_stored(u, p) <==> is_stored(
        t,
        p,
    )) by {
        if is_stored(u, p) {
            let i = place(u, p);
            assert(is_at(u, p, i));
            assert(is_at(t, p, i));
        }
        if is_stored(t, p) {
            let i = place(t, p);
            assert(is_at(t, p, i));
            assert(i != at);
            assert(is_at(u, p, i));
        }
    }
    let id = record(u, doc.path).id;
    assert forall|p: Seq<char>| p != doc.path && #[trigger] is_stored(t, p) implies record(u, p)
        == record(t, p) && record(t, p).id != id by {
        let i = place(t, p);
        assert(is_at(t, p, i));
        assert(i != at);
        assert(is_at(u, p, i));
        one_place(u, p, i);
        if at < t.documents.len() {
            if i < at {
                assert(t.documents[i].id != t.documents[at].id);
            } else {
                assert(t.documents[at].id != t.documents[i].id);
            }
        }
    }
}

/// Rows taken out do not belong to anyone any more, and the others stay.
proof fn rows_left(rows: Seq<Seq<ValueText>>, out: i64, id: i64)
    ensures
        rows_of(rows_without(rows, ValueText::Integer(out)), id) == if id == out {
            seq![]
        } else {
            rows_of(rows, id)
        },
    decreases rows.len(),
{
    if rows.len() > 0 {
        let value = ValueText::Integer(out);
        let before = rows_without(rows.drop_last(), value);
        rows_left(rows.drop_last(), out, id);
        assert(before.push(rows.last()).drop_last() =~= before);
    }
}

/// Rows that are added belong to the document whose id they have.
proof fn rows_added(rows: Seq<Seq<ValueText>>, more: Seq<Seq<ValueText>>, added: i64, id: i64)
    requires
        forall|k: int| 0 <= k < more.len() ==> (#[trigger] more[k])[0] == ValueText::Integer(added),
    ensures
        rows_of(rows + more, id) == if id == added {
            rows_of(rows, id) + more
        } else {
            rows_of(rows, id)
        },
    decreases more.len(),
{
    if more.len() == 0 {
        assert(rows + more =~= rows);
        assert(rows_of(rows, id) + more =~= rows_of(rows, id));
    } else {
        assert((rows + more).drop_last() =~= rows + more.drop_last());
        assert((rows + more).last() == more.last());
        assert(more[more.len() - 1][0] == ValueText::Integer(added));
        rows_added(rows, more.drop_last(), added, id);
        assert(rows_of(rows, id) + more =~= (rows_of(rows, id) + more.drop_last()).push(
            more.last(),
        ));
    }
}

proof fn statements_in_turn(t: Tables, a: Seq<StatementText>, c: Seq<StatementText>, fresh: i64)
    ensures
        after_statements(t, a + c, fresh) == after_statements(
            after_statements(t, a, fresh),
            c,
            fresh,
        ),
    decreases c.len(),
{
    if c.len() == 0 {
        assert(a + c =~= a);
    } else {
        assert((a + c).drop_last() =~= a + c.drop_last());
        statements_in_turn(t, a, c.drop_last(), fresh);
    }
}

/// The rows that insert the chunks of a document.
spec fn chunk_values(chunks: Seq<ChunkRow>, id: i64) -> Seq<Seq<ValueText>> {
    Seq::new(chunks.len(), |i: int| chunk_statement(chunks[i], id).params)
}

/// The rows that insert the texts of a document.
spec fn text_rows(v: Seq<Seq<char>>, id: i64) -> Seq<Seq<ValueText>> {
    Seq::new(v.len(), |i: int| seq![ValueText::Integer(id), ValueText::Text(v[i])])
}

proof fn chunks_inserted(t: Tables, chunks: Seq<ChunkRow>, id: i64, fresh: i64)
    ensures
        after_statements(t, chunk_statements(chunks, id), fresh) == (Tables {
            chunks: t.chunks + chunk_values(chunks, id),
            ..t
        }),
    decreases chunks.len(),
{
    let s = chunk_statements(chunks, id);
    if chunks.len() == 0 {
        assert(t.chunks + chunk_values(chunks, id) =~= t.chunks);
    } else {
        texts_differ();
        assert(s.drop_last() =~= chunk_statements(chunks.drop_last(), id));
        chunks_inserted(t, chunks.drop_last(), id, fresh);
        let before = t.chunks + chunk_values(chunks.drop_last(), id);
        assert(before.push(s.last().params) =~= t.chunks + chunk_values(chunks, id));
    }
}

proof fn links_inserted(t: Tables, v: Seq<Seq<char>>, id: i64, fresh: i64)
    ensures
        after_statements(t, text_statements(INSERT_LINK_SQL@, id, v), fresh) == (Tables {
            links: t.links + text_rows(v, id),
            ..t
        }),
    decreases v.len(),
{
    let s = text_statements(INSERT_LINK_SQL@, id, v);
    if v.len() == 0 {
        assert(t.links + text_rows(v, id) =~= t.links);
    } else {
        texts_differ();
        assert(s.drop_last() =~= text_statements(INSERT_LINK_SQL@, id, v.drop_last()));
        links_inserted(t, v.drop_last(), id, fresh);
        let before = t.links + text_rows(v.drop_last(), id);
        assert(before.push(s.last().params) =~= t.links + text_rows(v, id));
    }
}

proof fn tags_inserted(t: Tables, v: Seq<Seq<char>>, id: i64, fresh: i64)
    ensures
        after_statements(t, text_statements(INSERT_TAG_SQL@, id, v), fresh) == (Tables {
            tags: t.tags + text_rows(v, id),
            ..t
        }),
    decreases v.len(),
{
    let s = text_statements(INSERT_TAG_SQL@, id, v);
    if v.len() == 0 {
        assert(t.tags + text_rows(v, id) =~= t.tags);
    } else {
        texts_differ();
        assert(s.drop_last() =~= text_statements(INSERT_TAG_SQL@, id, v.drop_last()));
        tags_inserted(t, v.drop_last(), id, fresh);
        let before = t.tags + text_rows(v.drop_last(), id);
        assert(before.push(s.last().params) =~= t.tags + text_rows(v, id));
    }
}

proof fn one_statement(t: Tables, s: StatementText, fresh: i64)
    ensures
        after_statements(t, seq![s], fresh) == after_statement(t, s, fresh),
{
    assert(seq![s].drop_last() =~= seq![]);
    assert(after_statements(t, seq![s].drop_last(), fresh) == t);
}

/// What the statements that replace a document's dependents leave.
proof fn dependents_replaced(t: Tables, doc: DocRow, id: i64, fresh: i64)
    ensures
        after_statements(t, replace_statements(doc, id), fresh) == (Tables {
            documents: t.documents,
            chunks: rows_without(t.chunks, ValueText::Integer(id)) + chunk_values(doc.chunks, id),
            links: rows_without(t.links, ValueText::Integer(id)) + text_rows(doc.links, id),
            tags: rows_without(t.tags, ValueText::Integer(id)) + text_rows(doc.tags, id),
        }),
{
    texts_differ();
    let d1 = id_statement(DELETE_CHUNKS_SQL@, id);
    let d2 = id_statement(DELETE_LINKS_SQL@, id);
    let d3 = id_statement(DELETE_TAGS_SQL@, id);
    let cs = chunk_statements(doc.chunks, id);
    let ls = text_statements(INSERT_LINK_SQL@, id, doc.links);
    let ts = text_statements(INSERT_TAG_SQL@, id, doc.tags);
    let t1 = after_statement(t, d1, fresh);
    let t2 = after_statement(t1, d2, fresh);
    assert(seq![d1] + seq![d2] =~= seq![d1, d2]);
    statements_in_turn(t, seq![d1], seq![d2], fresh);
    one_statement(t, d1, fresh);
    one_statement(t1, d2, fresh);
    assert(after_statements(t, seq![d1, d2], fresh) == t2);
    let t3 = Tables { chunks: t2.chunks + chunk_values(doc.chunks, id), ..t2 };
    statements_in_turn(t, seq![d1, d2], cs, fresh);
    chunks_inserted(t2, doc.chunks, id, fresh);
    let t4 = Tables { links: t3.links + text_rows(doc.links, id), ..t3 };
    statements_in_turn(t, seq![d1, d2] + cs, ls, fresh);
    links_inserted(t3, doc.links, id, fresh);
    let t5 = after_statement(t4, d3, fresh);
    statements_in_turn(t, seq![d1, d2] + cs + ls, seq![d3], fresh);
    one_statement(t4, d3, fresh);
    statements_in_turn(t, seq![d1, d2] + cs + ls + seq![d3], ts, fresh);
    tags_inserted(t5, doc.tags, id, fresh);
}

/// The vectors of a space among the rows that insert some chunks.
proof fn chunk_values_in(chunks: Seq<ChunkRow>, id: i64, space: Seq<char>)
    ensures
        column_of(rows_in(chunk_values(chunks, id), space), 6) == vectors_in(chunks, space),
    decreases chunks.len(),
{
    let rows = chunk_values(chunks, id);
    if chunks.len() == 0 {
        assert(column_of(rows_in(rows, space), 6) =~= vectors_in(chunks, space));
    } else {
        assert(rows.drop_last() =~= chunk_values(chunks.drop_last(), id));
        chunk_values_in(chunks.drop_last(), id, space);
        assert(column_of(rows_in(rows, space), 6) =~= vectors_in(chunks, space));
    }
}

/// Replacing a document, whether or not one of its path was stored, leaves
/// under its path exactly what was written: its content hash, its links, its
/// tags and, in each space, the vectors of its chunks, with nothing left of what
/// was stored before. Nothing of any other document changes, and paths and ids
/// stay unique.
pub proof fn replacing_leaves_what_was_written(
    t: Tables,
    doc: DocRow,
    indexed_at: i64,
    fresh: i64,
    other: Seq<char>,
    space: Seq<char>,
)
    requires
        well_formed(t),
        !is_id(t, fresh),
        other != doc.path,
    ensures
        ({
            let r = after_replacing(t, doc, indexed_at, fresh);
            &&& well_formed(r)
            &&& stored_hash(r, doc.path) == Some(ValueText::Blob(doc.content_hash))
            &&& stored_links(r, doc.path) == text_values(doc.links).to_multiset()
            &&& stored_tags(r, doc.path) == text_values(doc.tags).to_multiset()
            &&& stored_vectors(r, doc.path, space) == vectors_in(doc.chunks, space).to_multiset()
            &&& is_stored(r, other) == is_stored(t, other)
            &&& stored_hash(r, other) == stored_hash(t, other)
            &&& stored_links(r, other) == stored_links(t, other)
            &&& stored_tags(r, other) == stored_tags(t, other)
            &&& stored_vectors(r, other, space) == stored_vectors(t, other, space)
        }),
{
    let s = upsert_statement(doc, indexed_at);
    let u = after_statement(t, s, fresh);
    let id = record(u, doc.path).id;
    let r = after_replacing(t, doc, indexed_at, fresh);
    upserted_rows(t, doc, indexed_at, fresh);
    dependents_replaced(u, doc, id, fresh);
    assert(r.documents == u.documents);
    assert forall|p: Seq<char>, i: int| #[trigger] is_at(r, p, i) == is_at(u, p, i) by {}
    assert(is_stored(r, doc.path)) by {
        assert(is_at(r, doc.path, place(u, doc.path)));
    }
    assert(forall|p: Seq<char>| is_stored(r, p) == is_stored(u, p)) by {
        assert forall|p: Seq<char>| is_stored(r, p) == is_stored(u, p) by {
            if is_stored(r, p) {
                assert(is_at(u, p, place(r, p)));
            }
            if is_stored(u, p) {
                assert(is_at(r, p, place(u, p)));
            }
        }
    }
    assert(is_at(u, doc.path, place(u, doc.path)));
    one_place(r, doc.path, place(u, doc.path));
    if is_stored(u, other) {
        assert(is_at(u, other, place(u, other)));
        one_place(r, other, place(u, other));
    }
    let mine = chunk_values(doc.chunks, id);
    let links = text_rows(doc.links, id);
    let tags = text_rows(doc.tags, id);
    let value = ValueText::Integer(id);
    rows_added(rows_without(u.chunks, value), mine, id, id);
    rows_added(rows_without(u.links, value), links, id, id);
    rows_added(rows_without(u.tags, value), tags, id, id);
    rows_left(u.chunks, id, id);
    rows_left(u.links, id, id);
    rows_left(u.tags, id, id);
    assert(rows_of(r.chunks, id) =~= mine);
    assert(rows_of(r.links, id) =~= links);
    assert(rows_of(r.tags, id) =~= tags);
    assert(column_of(links, 1) =~= text_values(doc.links));
    assert(column_of(tags, 1) =~= text_values(doc.tags));
    chunk_values_in(doc.chunks, id, space);
    if is_stored(t, other) {
        let theirs = record(t, other).id;
        rows_added(rows_without(u.chunks, value), mine, id, theirs);
        rows_added(rows_without(u.links, value), links, id, theirs);
        rows_added(rows_without(u.tags, value), tags, id, theirs);
        rows_left(u.chunks, id, theirs);
        rows_left(u.links, id, theirs);
        rows_left(u.tags, id, theirs);
    }
}

/// Whether a chunk's row holds the chunk, for the document of an id.
pub open spec fn holds_chunk(row: Seq<ValueText>, c: ChunkRow, id: i64) -> bool {
    &&& row.len() == 7
    &&& row[0] == ValueText::Integer(id)
    &&& row[1] == ValueText::Integer(c.ord as i64)
    &&& row[2] == ValueText::Text(c.space) && row[3] == ValueText::Text(c.modality)
    &&& row[4] == match c.text {
        Some(t) => ValueText::Text(t),
        None => ValueText::Null,
    }
    &&& row[5] == ValueText::Text(c.heading_path)
    &&& row[6] is Blob && vector_of(row[6]->Blob_0) == c.vector
}

/// Replacing a document leaves in its row what was written: its path, kind,
/// root, digest, time, title, frontmatter, the time of indexing and its size,
/// and among the chunks, in order, a row with all that each of its chunks holds.
pub proof fn replacing_stores_every_column(
    t: Tables,
    doc: DocRow,
    indexed_at: i64,
    fresh: i64,
)
    requires
        well_formed(t),
        !is_id(t, fresh),
    ensures
        ({
            let r = after_replacing(t, doc, indexed_at, fresh);
            let row = record(r, doc.path).columns;
            let id = record(r, doc.path).id;
            &&& is_stored(r, doc.path)
            &&& row.len() == 10
            &&& row[0] == ValueText::Text(doc.path) && row[1] == ValueText::Text(doc.kind)
            &&& row[2] == ValueText::Text(doc.source_root)
            &&& row[3] == ValueText::Blob(doc.content_hash)
            &&& row[4] == ValueText::Integer(doc.mtime) && row[5] == ValueText::Text(doc.title)
            &&& row[6] == match doc.frontmatter {
                Some(s) => ValueText::Text(s),
                None => ValueText::Null,
            }
            &&& row[7] == ValueText::Integer(indexed_at)
            &&& row[8] == match doc.width {
                Some(n) => ValueText::Integer(n),
                None => ValueText::Null,
            }
            &&& row[9] == match doc.height {
                Some(n) => ValueText::Integer(n),
                None => ValueText::Null,
            }
            &&& rows_of(r.chunks, id).len() == doc.chunks.len()
            &&& forall|k: int|
                0 <= k < doc.chunks.len() ==> holds_chunk(
                    #[trigger] rows_of(r.chunks, id)[k],
                    doc.chunks[k],
                    id,
                )
        }),
{
    let s = upsert_statement(doc, indexed_at);
    let u = after_statement(t, s, fresh);
    let id = record(u, doc.path).id;
    let r = after_replacing(t, doc, indexed_at, fresh);
    upserted_rows(t, doc, indexed_at, fresh);
    dependents_replaced(u, doc, id, fresh);
    assert(r.documents == u.documents);
    assert(is_at(u, doc.path, place(u, doc.path)));
    assert(is_at(r, doc.path, place(u, doc.path)));
    assert(paths_differ(r));
    one_place(r, doc.path, place(u, doc.path));
    let mine = chunk_values(doc.chunks, id);
    let value = ValueText::Integer(id);
    rows_added(rows_without(u.chunks, value), mine, id, id);
    rows_left(u.chunks, id, id);
    assert(rows_of(r.chunks, id) =~= mine);
    assert forall|k: int| 0 <= k < doc.chunks.len() implies holds_chunk(
        #[trigger] rows_of(r.chunks, id)[k],
        doc.chunks[k],
        id,
    ) by {
        blob_roundtrip(doc.chunks[k].vector);
    }
}

} // verus!
