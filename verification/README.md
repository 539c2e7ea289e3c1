# gnosis

Local semantic search and related notes over a markdown knowledge base.

`src/` is the library, verified with Verus:

- `text`, `paths` – strings, words, lines and `/`-separated paths
- `parse`, `chunk` – frontmatter, wikilinks, tags, headings and overlapping windows
- `walk`, `fs`, `embed`, `store`, `progress` – the backends of a run, as traits whose
  contracts record each call and name its answer
- `pipeline`, `index` – what an indexing run does, call by call, and the code that does it
- `search`, `query`, `sqlite` – ranking, merging across spaces, the statements of the database
- `tables` – a model of the tables that those statements write, and what replacing a document leaves
- `config`, `workspace`, `models`, `commands` – configuration and what the commands decide and print
- `*_laws` – what holds of the library as a whole
- `outside` – the calls into other crates, with what is believed of them

`app/` is the program: the command line, files, SQLite, the ANN index and the ONNX models.
Vectors and scores are held in the library as the bits of their floats; the arithmetic on
them is in `app/vectors.rs`. The models need the crate `fastembed`, which the manifest leaves
out for its build time; `app/embedder.rs` says what to add.

`tests/` runs the library with stand-in backends and an in-memory database.
