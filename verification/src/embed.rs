//! Interface for embedding, and its configuration. A vector's elements are
//! single-precision floats, each held as its IEEE 754 bit pattern.
use vstd::prelude::*;

use crate::text::texts;

verus! {

/// The elements of some vectors.
pub open spec fn vectors(v: Seq<Vec<u32>>) -> Seq<Seq<u32>> {
    Seq::new(v.len(), |i: int| v[i]@)
}

/// What embedding a batch came back with.
pub open spec fn vectors_result(r: Result<Vec<Vec<u32>>, String>) -> Result<
    Seq<Seq<u32>>,
    Seq<char>,
> {
    match r {
        Ok(v) => Ok(vectors(v@)),
        Err(e) => Err(e@),
    }
}

/// An embedder as its callers see it: what it says of itself, the batches it
/// was given so far, and what it answers at the end of each history of batches.
pub struct EmbedderModel {
    pub space: Seq<char>,
    pub dim: usize,
    pub model_id: Seq<char>,
    pub calls: Seq<Seq<Seq<char>>>,
    pub answers: spec_fn(Seq<Seq<Seq<char>>>) -> Result<Seq<Seq<u32>>, Seq<char>>,
}

impl EmbedderModel {
    /// The embedder after one more batch.
    pub open spec fn after(self, inputs: Seq<Seq<char>>) -> EmbedderModel {
        EmbedderModel { calls: self.calls.push(inputs), ..self }
    }

    /// What one more batch is answered.
    pub open spec fn embedded(self, inputs: Seq<Seq<char>>) -> Result<Seq<Seq<u32>>, Seq<char>> {
        (self.answers)(self.calls.push(inputs))
    }
}

/// An embedder as its callers see it, where there is one.
pub open spec fn opt_model<E: Embedder>(e: Option<E>) -> Option<EmbedderModel> {
    match e {
        Some(e) => Some(e.model()),
        None => None,
    }
}

/// An embedder produces L2-normalized vectors for a single vector space,
/// so cosine similarity reduces to a dot product. The contract records each
/// batch and names its answer; it promises nothing of what the answer is.
pub trait Embedder {
    /// What the embedder says of itself, the calls so far, and what is answered.
    spec fn model(&self) -> EmbedderModel;

    /// The vector space this embedder feeds (e.g. "text", "image").
    fn space(&self) -> (r: &str)
        ensures
            r@ == self.model().space,
    ;

    /// Dimensionality of the produced vectors.
    fn dim(&self) -> (r: usize)
        ensures
            r == self.model().dim,
    ;

    /// Identifier of the underlying model, stored in the index to guard against
    /// mixing vectors from different models.
    fn model_id(&self) -> (r: &str)
        ensures
            r@ == self.model().model_id,
    ;

    /// Embeds a batch of inputs, preserving order.
    fn embed(&mut self, inputs: &[String]) -> (r: Result<Vec<Vec<u32>>, String>)
        ensures
            final(self).model() == old(self).model().after(texts(inputs@)),
            vectors_result(r) == old(self).model().embedded(texts(inputs@)),
    ;
}

/// Text and image embedding configuration.
#[derive(Debug, Clone)]
pub struct EmbedConfig {
    pub text: TextEmbedConfig,
    pub image: ImageEmbedConfig,
}

/// Text embedding configuration.
#[derive(Debug, Clone)]
pub struct TextEmbedConfig {
    pub model: String,
}

/// Image embedding configuration.
#[derive(Debug, Clone)]
pub struct ImageEmbedConfig {
    pub enabled: bool,
    pub model: String,
    /// How many images are embedded in one call.
    pub batch_size: usize,
}

impl Default for EmbedConfig {
    fn default() -> (r: EmbedConfig)
        ensures
            r.text.model@ == "bge-small-en-v1.5"@,
            !r.image.enabled,
            r.image.model@ == "clip-vit-b-32"@,
            r.image.batch_size == 32,
    {
        EmbedConfig { text: TextEmbedConfig::default(), image: ImageEmbedConfig::default() }
    }
}

impl Default for TextEmbedConfig {
    fn default() -> (r: TextEmbedConfig)
        ensures
            r.model@ == "bge-small-en-v1.5"@,
    {
        TextEmbedConfig { model: "bge-small-en-v1.5".to_string() }
    }
}

impl Default for ImageEmbedConfig {
    fn default() -> (r: ImageEmbedConfig)
        ensures
            !r.enabled,
            r.model@ == "clip-vit-b-32"@,
            r.batch_size == 32,
    {
        ImageEmbedConfig { enabled: false, model: "clip-vit-b-32".to_string(), batch_size: 32 }
    }
}

} // verus!
