//! What a run hands to its embedders, and which vector it stores with what.
use vstd::prelude::*;

use crate::chunk::{chunks_of, sections_of, ChunkText};
use crate::chunk_laws::chunks_are_numbered_through;
use crate::embed::EmbedderModel;
use crate::outside::{blake3_digest, lossy_text, markdown_events, yaml_field, FieldText};
use crate::parse::{frontmatter_and_body, parsed};
use crate::pipeline::{markdown_doc, Backends, Options};
use crate::store::{ChunkRow, DocRow};

verus! {

/// Whether a text is a heading trail, a line feed and a chunk's text, or the
/// chunk's text alone where there is no trail.
pub open spec fn is_input_for(input: Seq<char>, trail: Seq<char>, text: Seq<char>) -> bool {
    let n = input.len() - text.len();
    &&& 0 <= n && input.skip(n) == text
    &&& if trail.len() == 0 {
        n == 0
    } else {
        &&& n == trail.len() + 1
        &&& input.take(n - 1) == trail
        &&& input[n - 1] == '\n'
    }
}

/// Whether an embedder was given one more batch, which it answered with
/// `answer`, and nothing else changed about it.
pub open spec fn answered(
    before: EmbedderModel,
    after: EmbedderModel,
    batch: Seq<Seq<char>>,
    answer: Result<Seq<Seq<u32>>, Seq<char>>,
) -> bool {
    &&& after.calls.len() == before.calls.len() + 1
    &&& after.calls.drop_last() == before.calls
    &&& after.calls.last() == batch
    &&& after.answers == before.answers
    &&& after.space == before.space && after.dim == before.dim
    &&& after.model_id == before.model_id
    &&& (before.answers)(after.calls) == answer
}

/// Whether a stored chunk is `c`, the `k`th of its document, with `vector`.
pub open spec fn stores_chunk(row: ChunkRow, c: ChunkText, k: int, vector: Seq<u32>) -> bool {
    &&& row.text == Some(c.text)
    &&& row.heading_path == c.heading_path
    &&& row.ord == k as usize
    &&& row.space == "text"@ && row.modality == "text"@
    &&& row.vector == vector
}

/// A markdown file's body is cut into chunks, and the text embedder is given one
/// batch with an input for each of them: the heading trail, a line feed and the
/// chunk's whole text, or the text alone where there is no trail. Where that
/// fails, the file fails with it. Else the document holds each chunk with the
/// vector that its own input was answered, as far as vectors were given.
pub proof fn chunks_are_embedded_under_their_headings(
    b: Backends,
    path: Seq<char>,
    root: Seq<char>,
    bytes: Seq<u8>,
    o: Options,
)
    ensures
        ({
            let r = markdown_doc(b, path, root, bytes, o);
            let chunks = chunks_of(
                sections_of(markdown_events(frontmatter_and_body(lossy_text(bytes)).1)),
                o.max_tokens,
                o.overlap,
            );
            let batch = r.backends.text.calls.last();
            let answer = (b.text.answers)(r.backends.text.calls);
            &&& answered(b.text, r.backends.text, batch, answer)
            &&& batch.len() == chunks.len()
            &&& forall|k: int|
                0 <= k < chunks.len() ==> is_input_for(
                    #[trigger] batch[k],
                    chunks[k].heading_path,
                    chunks[k].text,
                )
            &&& answer is Err ==> r.answer == Err::<DocRow, Seq<char>>(answer->Err_0)
            &&& answer is Ok ==> {
                let vectors = answer->Ok_0;
                let doc = r.answer->Ok_0;
                &&& r.answer is Ok
                &&& doc.chunks.len() <= chunks.len() && doc.chunks.len() <= vectors.len()
                &&& doc.chunks.len() == chunks.len() || doc.chunks.len() == vectors.len()
                &&& forall|k: int|
                    0 <= k < doc.chunks.len() ==> stores_chunk(
                        #[trigger] doc.chunks[k],
                        chunks[k],
                        k,
                        vectors[k],
                    )
            }
        }),
{
    reveal_strlit("\n");
    let r = markdown_doc(b, path, root, bytes, o);
    let chunks = chunks_of(
        sections_of(markdown_events(frontmatter_and_body(lossy_text(bytes)).1)),
        o.max_tokens,
        o.overlap,
    );
    let batch = r.backends.text.calls.last();
    chunks_are_numbered_through(
        sections_of(markdown_events(frontmatter_and_body(lossy_text(bytes)).1)),
        o.max_tokens,
        o.overlap,
    );
    assert(r.backends.text.calls.drop_last() =~= b.text.calls);
    assert forall|k: int| 0 <= k < chunks.len() implies is_input_for(
        #[trigger] batch[k],
        chunks[k].heading_path,
        chunks[k].text,
    ) by {
        let (trail, text) = (chunks[k].heading_path, chunks[k].text);
        let n = batch[k].len() - text.len();
        assert("\n"@ =~= seq!['\n']);
        assert(batch[k].skip(n) =~= text);
        if trail.len() > 0 {
            assert(batch[k].take(n - 1) =~= trail);
        }
    }
}

/// The document made of a markdown file names the file and the root it was found
/// in, holds the digest of its bytes and its time, and the title, frontmatter,
/// links and tags of its text. It has no width or height. Nothing but the text
/// embedder and the reader is asked.
pub proof fn documents_describe_their_files(
    b: Backends,
    path: Seq<char>,
    root: Seq<char>,
    bytes: Seq<u8>,
    o: Options,
)
    ensures
        ({
            let r = markdown_doc(b, path, root, bytes, o);
            let content = lossy_text(bytes);
            let fm = frontmatter_and_body(content).0;
            let listed = match fm {
                Some(s) => yaml_field(s, "tags"@),
                None => FieldText::Missing,
            };
            let text = parsed(path, content, listed);
            let doc = r.answer->Ok_0;
            &&& r.backends.store == b.store && r.backends.walker == b.walker
            &&& r.backends.image == b.image && r.backends.image_text == b.image_text
            &&& r.backends.warnings == b.warnings && r.backends.progress == b.progress
            &&& r.answer is Ok ==> {
                &&& doc.path == path && doc.source_root == root
                &&& doc.kind == "markdown"@
                &&& doc.content_hash == blake3_digest(bytes)
                &&& doc.mtime == b.reader.time(path)
                &&& doc.frontmatter == fm
                &&& doc.title == text.title
                &&& doc.links == text.links && doc.tags == text.tags
                &&& doc.width is None && doc.height is None
            }
        }),
{
}

} // verus!
