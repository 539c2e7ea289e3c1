use gnosis::search::{blob_to_vec, Hit};
use gnosis::sqlite::{
    candidate_from_row, candidates_by_ids_query, ensure_column, filter_candidates, in_placeholders,
    index_file_name, paths_for_roots_query, paths_with_any_tag_query, rebuild_plan, related_candidates,
    related_fetch, replace_dependents, search_candidates, search_fetch, space_candidates_query,
    union_ids, upsert_document, IndexPlan, SpaceCandidate, SqlValue, Statement, CHUNK_VECTORS_SQL,
    DELETE_BY_ROOT_SQL, DOCUMENT_HASH_SQL, DOCUMENT_ID_SQL, GET_META_SQL, INDEX_ROWS_SQL, LINKED_TARGETS_SQL,
    SCHEMA_SQL, SET_META_SQL,
};
use gnosis::store::{ChunkWrite, DocWrite, Space, TextQuery};
use rusqlite::types::Value;
use rusqlite::{params_from_iter, Connection};

fn bits(v: &[f32]) -> Vec<u32> {
    v.iter().map(|x| x.to_bits()).collect()
}

fn dot(a: &[u32], b: &[u32]) -> u32 {
    let sum: f32 = a.iter().zip(b).map(|(x, y)| f32::from_bits(*x) * f32::from_bits(*y)).sum();
    sum.to_bits()
}

fn strings(v: &[&str]) -> Vec<String> {
    v.iter().map(|s| s.to_string()).collect()
}

/// A database in memory, run by the library's statements.
struct Memory {
    conn: Connection,
}

fn value(v: SqlValue) -> Value {
    match v {
        SqlValue::Null => Value::Null,
        SqlValue::Integer(n) => Value::Integer(n),
        SqlValue::Text(t) => Value::Text(t),
        SqlValue::Blob(b) => Value::Blob(b),
    }
}

impl Memory {
    fn new() -> Memory {
        let conn = Connection::open_in_memory().unwrap();
        conn.pragma_update(None, "foreign_keys", true).unwrap();
        conn.execute_batch(SCHEMA_SQL).unwrap();
        Memory { conn }
    }

    fn run(&self, s: Statement) {
        let params: Vec<Value> = s.params.into_iter().map(value).collect();
        self.conn.execute(&s.sql, params_from_iter(params)).unwrap();
    }

    fn replace(&self, doc: &DocWrite<'_>, at: i64) {
        self.run(upsert_document(doc, at));
        let id: i64 = self.conn.query_row(DOCUMENT_ID_SQL, [doc.path], |r| r.get(0)).unwrap();
        for s in replace_dependents(doc, id) {
            self.run(s);
        }
    }

    fn candidates(&self, sql: &str, params: Vec<Value>) -> Vec<SpaceCandidate> {
        let mut stmt = self.conn.prepare(sql).unwrap();
        stmt.query_map(params_from_iter(params), |r| {
            Ok(candidate_from_row(
                r.get(0)?,
                r.get(1)?,
                r.get(2)?,
                r.get(3)?,
                r.get(4)?,
                &r.get::<_, Vec<u8>>(5)?,
                r.get(6)?,
                r.get(7)?,
                r.get(8)?,
            ))
        })
        .unwrap()
        .map(|c| c.unwrap())
        .collect()
    }

    fn space_candidates(&self, space: Space, filter: &TextQuery<'_>) -> Vec<SpaceCandidate> {
        let (sql, params) = space_candidates_query(space.as_str(), filter);
        self.candidates(&sql, params.into_iter().map(Value::Text).collect())
    }

    fn search(&self, space: Space, query: &[f32], limit: usize, filter: &TextQuery<'_>) -> Vec<Hit> {
        search_candidates(space, &bits(query), self.space_candidates(space, filter), limit, dot)
    }

    fn texts(&self, sql: &str, params: &[String]) -> Vec<String> {
        let mut stmt = self.conn.prepare(sql).unwrap();
        let mut v: Vec<String> = stmt
            .query_map(params_from_iter(params), |r| r.get(0))
            .unwrap()
            .map(|c| c.unwrap())
            .collect();
        v.sort();
        v
    }

    fn chunk_vectors(&self, path: &str, space: &str) -> Vec<Vec<u32>> {
        let mut stmt = self.conn.prepare(CHUNK_VECTORS_SQL).unwrap();
        stmt.query_map([space, path], |r| r.get::<_, Vec<u8>>(0))
            .unwrap()
            .map(|b| blob_to_vec(&b.unwrap()))
            .collect()
    }

    fn paths_for_roots(&self, roots: &[String]) -> Vec<String> {
        match paths_for_roots_query(roots.len()) {
            Some(sql) => self.texts(&sql, roots),
            None => Vec::new(),
        }
    }
}

fn doc<'a>(path: &'a str, root: &'a str, chunks: &'a [ChunkWrite]) -> DocWrite<'a> {
    DocWrite {
        path,
        kind: "markdown",
        source_root: root,
        content_hash: b"hash",
        mtime: 0,
        title: "t",
        frontmatter: None,
        chunks,
        links: &[],
        tags: &[],
        width: None,
        height: None,
    }
}

fn write_full_doc(
    store: &Memory,
    path: &str,
    kind: &str,
    chunks: &[ChunkWrite],
    width: Option<i64>,
    height: Option<i64>,
) {
    let doc = DocWrite { kind, title: path, width, height, ..doc(path, "/vault", chunks) };
    store.replace(&doc, 0);
}

fn chunk(space: &str, modality: &str, text: Option<&str>, vector: Vec<f32>) -> ChunkWrite {
    ChunkWrite {
        ord: 0,
        space: space.to_string(),
        modality: modality.to_string(),
        text: text.map(str::to_string),
        heading_path: String::new(),
        vector: bits(&vector),
    }
}

fn photo_and_note() -> Memory {
    let store = Memory::new();
    write_full_doc(
        &store,
        "/vault/photo.png",
        "image",
        &[chunk("image", "image", None, vec![1.0, 0.0])],
        Some(800),
        Some(600),
    );
    write_full_doc(
        &store,
        "/vault/note.md",
        "markdown",
        &[chunk("image", "text_title", Some("note"), vec![1.0, 0.0])],
        None,
        None,
    );
    store
}

#[test]
fn search_space_excludes_title_proxy_rows() {
    let hits =
        photo_and_note().search(Space::Image, &[1.0, 0.0], 10, &TextQuery { from: None, tags: None });
    assert_eq!(hits.len(), 1);
    assert_eq!(hits[0].path, "/vault/photo.png");
    assert_eq!(hits[0].width, Some(800));
    assert_eq!(hits[0].height, Some(600));
}

#[test]
fn related_space_includes_title_proxy_rows() {
    let store = photo_and_note();
    let candidates = store.space_candidates(Space::Image, &TextQuery { from: None, tags: None });
    let hits = related_candidates(&[bits(&[1.0, 0.0])], candidates, &[], 10, dot);
    let mut paths: Vec<&str> = hits.iter().map(|h| h.path.as_str()).collect();
    paths.sort();
    assert_eq!(paths, vec!["/vault/note.md", "/vault/photo.png"]);
}

#[test]
fn chunk_vectors_scoped_to_space() {
    let store = Memory::new();
    write_full_doc(
        &store,
        "/vault/note.md",
        "markdown",
        &[
            chunk("text", "text", Some("body"), vec![0.5, 0.5]),
            chunk("image", "text_title", Some("note"), vec![1.0, 0.0]),
        ],
        None,
        None,
    );
    assert_eq!(store.chunk_vectors("/vault/note.md", "text").len(), 1);
    assert_eq!(store.chunk_vectors("/vault/note.md", "image").len(), 1);
    assert_eq!(store.chunk_vectors("/vault/photo.png", "image").len(), 0);
    assert_eq!(store.chunk_vectors("/vault/note.md", "text")[0], bits(&[0.5, 0.5]));
}

#[test]
fn rebuild_index_is_per_space() {
    let store = Memory::new();
    write_full_doc(
        &store,
        "/vault/photo.png",
        "image",
        &[chunk("image", "image", None, vec![1.0, 0.0])],
        Some(1),
        Some(1),
    );
    let rows = |space: &str| -> Vec<Vec<u32>> {
        let mut stmt = store.conn.prepare(INDEX_ROWS_SQL).unwrap();
        stmt.query_map([space], |r| r.get::<_, Vec<u8>>(1))
            .unwrap()
            .map(|b| blob_to_vec(&b.unwrap()))
            .collect()
    };
    assert_eq!(rebuild_plan(&rows("image")), IndexPlan::Build { dimensions: 2 });
    assert_eq!(rebuild_plan(&rows("text")), IndexPlan::Remove);
    let hits = store.search(Space::Image, &[1.0, 0.0], 10, &TextQuery { from: None, tags: None });
    assert_eq!(hits.len(), 1);
}

#[test]
fn root_scoped_queries() {
    let store = Memory::new();
    store.replace(&doc("/a/1.md", "/a", &[]), 0);
    store.replace(&doc("/a/2.md", "/a", &[]), 0);
    store.replace(&doc("/b/1.md", "/b", &[]), 0);

    assert_eq!(store.paths_for_roots(&strings(&["/a"])), vec!["/a/1.md", "/a/2.md"]);
    assert!(store.paths_for_roots(&[]).is_empty());

    assert_eq!(store.conn.execute(DELETE_BY_ROOT_SQL, ["/a"]).unwrap(), 2);
    assert!(store.paths_for_roots(&strings(&["/a"])).is_empty());
    assert_eq!(store.paths_for_roots(&strings(&["/b"])), vec!["/b/1.md"]);
}

#[test]
fn placeholders_are_one_per_value() {
    assert_eq!(in_placeholders(0), "");
    assert_eq!(in_placeholders(1), "?");
    assert_eq!(in_placeholders(4), "?,?,?,?");
}

#[test]
fn replacing_a_document_leaves_nothing_of_the_old_one() {
    let store = Memory::new();
    let old = [chunk("text", "text", Some("old"), vec![1.0]), chunk("text", "text", None, vec![2.0])];
    let (links, tags) = (strings(&["A", "B"]), strings(&["x"]));
    let first = DocWrite { links: &links, tags: &tags, ..doc("/a/1.md", "/a", &old) };
    store.replace(&first, 5);
    let new = [chunk("text", "text", Some("new"), vec![3.0])];
    let (links, tags) = (strings(&["C"]), strings(&["y", "z"]));
    let second = DocWrite {
        links: &links,
        tags: &tags,
        title: "u",
        frontmatter: Some("k: v"),
        ..doc("/a/1.md", "/b", &new)
    };
    store.replace(&second, 9);
    assert_eq!(store.chunk_vectors("/a/1.md", "text"), vec![bits(&[3.0])]);
    assert_eq!(store.texts(LINKED_TARGETS_SQL, &strings(&["/a/1.md"])), vec!["C"]);
    assert_eq!(
        store.texts(&paths_with_any_tag_query(2), &strings(&["x", "y"])),
        vec!["/a/1.md"]
    );
    assert!(store.texts(&paths_with_any_tag_query(1), &strings(&["x"])).is_empty());
    let row: (String, String, Option<String>, i64) = store
        .conn
        .query_row(
            "SELECT source_root, title, frontmatter, indexed_at FROM documents",
            [],
            |r| Ok((r.get(0)?, r.get(1)?, r.get(2)?, r.get(3)?)),
        )
        .unwrap();
    assert_eq!(row, ("/b".to_string(), "u".to_string(), Some("k: v".to_string()), 9));
}

#[test]
fn replacing_a_document_leaves_the_others_alone() {
    let store = Memory::new();
    let old = [chunk("text", "text", Some("old"), vec![1.0])];
    let (links, tags) = (strings(&["A", "B"]), strings(&["x"]));
    let theirs = DocWrite { links: &links, tags: &tags, ..doc("/a/1.md", "/a", &old) };
    store.replace(&theirs, 5);
    let new = [chunk("text", "text", Some("new"), vec![3.0]), chunk("image", "image", None, vec![4.0])];
    let hash = [7u8, 8];
    let mine = DocWrite { content_hash: &hash, ..doc("/a/2.md", "/a", &new) };
    store.replace(&mine, 6);
    store.replace(&mine, 7);
    assert_eq!(store.chunk_vectors("/a/1.md", "text"), vec![bits(&[1.0])]);
    assert_eq!(store.texts(LINKED_TARGETS_SQL, &strings(&["/a/1.md"])), vec!["A", "B"]);
    assert_eq!(store.texts(&paths_with_any_tag_query(1), &tags), vec!["/a/1.md"]);
    assert_eq!(store.chunk_vectors("/a/2.md", "text"), vec![bits(&[3.0])]);
    assert_eq!(store.chunk_vectors("/a/2.md", "image"), vec![bits(&[4.0])]);
    let stored: Vec<u8> =
        store.conn.query_row(DOCUMENT_HASH_SQL, ["/a/2.md"], |r| r.get(0)).unwrap();
    assert_eq!(stored, hash);
}

#[test]
fn candidates_are_narrowed_by_root_and_tag() {
    let store = Memory::new();
    let chunks = [chunk("text", "text", Some("c"), vec![1.0])];
    let tags = strings(&["x"]);
    store.replace(&DocWrite { tags: &tags, ..doc("/a/1.md", "/a", &chunks) }, 0);
    store.replace(&doc("/a/2.md", "/a", &chunks), 0);
    store.replace(&DocWrite { tags: &tags, ..doc("/b/1.md", "/b", &chunks) }, 0);
    let found = |from: &[&str], tags: &[&str]| -> Vec<String> {
        let (from, tags) = (strings(from), strings(tags));
        let filter = TextQuery { from: Some(&from), tags: Some(&tags) };
        let by_sql = store.space_candidates(Space::Text, &filter);
        let mut a: Vec<String> = by_sql.into_iter().map(|c| c.candidate.path).collect();
        let ids = vec![Value::Integer(1), Value::Integer(2), Value::Integer(3)];
        let by_id = store.candidates(&candidates_by_ids_query(3), ids);
        let tagged = if tags.is_empty() {
            Vec::new()
        } else {
            store.texts(&paths_with_any_tag_query(tags.len()), &tags)
        };
        let kept = filter_candidates(by_id, &filter, &tagged);
        let mut b: Vec<String> = kept.into_iter().map(|c| c.candidate.path).collect();
        a.sort();
        b.sort();
        assert_eq!(a, b);
        a
    };
    assert_eq!(found(&[], &[]).len(), 3);
    assert_eq!(found(&["/a"], &[]), vec!["/a/1.md", "/a/2.md"]);
    assert_eq!(found(&[], &["x", "y"]), vec!["/a/1.md", "/b/1.md"]);
    assert_eq!(found(&["/b", "/c"], &["x"]), vec!["/b/1.md"]);
    assert!(found(&["/c"], &["x"]).is_empty());
}

#[test]
fn a_null_heading_or_text_is_empty() {
    let c = candidate_from_row(
        "p".to_string(),
        "t".to_string(),
        "r".to_string(),
        None,
        None,
        &[0, 0, 128, 63],
        None,
        None,
        "image".to_string(),
    );
    assert_eq!(c.candidate.heading_path, "");
    assert_eq!(c.candidate.text, "");
    assert_eq!(c.candidate.vector, bits(&[1.0]));
    assert_eq!(c.modality, "image");
}

#[test]
fn more_is_fetched_where_candidates_are_dropped() {
    let roots = strings(&["/a"]);
    let none = TextQuery { from: None, tags: None };
    let some = TextQuery { from: Some(&roots), tags: None };
    let empty = TextQuery { from: None, tags: Some(&[]) };
    assert_eq!(search_fetch(Space::Text, 10, &none), 10);
    assert_eq!(search_fetch(Space::Text, 10, &some), 50);
    assert_eq!(search_fetch(Space::Text, 10, &empty), 50);
    assert_eq!(search_fetch(Space::Image, 10, &none), 50);
    assert_eq!(related_fetch(3), 15);
}

#[test]
fn ids_are_united_once_each() {
    assert_eq!(union_ids(&[vec![3, 1, 3], vec![], vec![2, 1]]), vec![3, 1, 2]);
    assert!(union_ids(&[]).is_empty());
}

#[test]
fn a_column_is_added_only_where_it_is_missing() {
    let columns = strings(&["id", "width"]);
    assert_eq!(ensure_column(&columns, "documents", "width", "width INTEGER"), None);
    assert_eq!(
        ensure_column(&columns, "documents", "height", "height INTEGER").as_deref(),
        Some("ALTER TABLE documents ADD COLUMN height INTEGER")
    );
}

#[test]
fn index_files_are_named_by_space() {
    assert_eq!(index_file_name(Space::Text), "text.usearch");
    assert_eq!(index_file_name(Space::Image), "image.usearch");
}

#[test]
fn meta_values_are_replaced() {
    let store = Memory::new();
    for v in ["1", "2"] {
        store.conn.execute(SET_META_SQL, ["schema_version", v]).unwrap();
    }
    let v: String = store.conn.query_row(GET_META_SQL, ["schema_version"], |r| r.get(0)).unwrap();
    assert_eq!(v, "2");
}
