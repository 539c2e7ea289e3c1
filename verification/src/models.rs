//! The embedding models that a config can name.
use vstd::prelude::*;

use crate::text::{push_text, same_text};

verus! {

/// A model that embeds text.
#[derive(Debug, Clone, Copy, PartialEq, Eq, Structural)]
pub enum TextModel {
    BgeSmallEnV15,
    BgeBaseEnV15,
    AllMiniLmL6V2,
    NomicEmbedTextV15,
}

/// A model that embeds images, and text into the same space.
#[derive(Debug, Clone, Copy, PartialEq, Eq, Structural)]
pub enum ImageModel {
    ClipVitB32,
}

/// The text model of a name, and its dimensionality.
pub open spec fn text_model(name: Seq<char>) -> Option<(TextModel, usize)> {
    if name == "bge-small-en-v1.5"@ {
        Some((TextModel::BgeSmallEnV15, 384))
    } else if name == "bge-base-en-v1.5"@ {
        Some((TextModel::BgeBaseEnV15, 768))
    } else if name == "all-MiniLM-L6-v2"@ {
        Some((TextModel::AllMiniLmL6V2, 384))
    } else if name == "nomic-embed-text-v1.5"@ {
        Some((TextModel::NomicEmbedTextV15, 768))
    } else {
        None
    }
}

/// The image model of a name, and its dimensionality.
pub open spec fn image_model(name: Seq<char>) -> Option<(ImageModel, usize)> {
    if name == "clip-vit-b-32"@ {
        Some((ImageModel::ClipVitB32, 512))
    } else {
        None
    }
}

/// Maps a config model name to a text model and its dimensionality.
pub fn resolve_text_model(name: &str) -> (r: Result<(TextModel, usize), String>)
    ensures
        match text_model(name@) {
            Some(m) => r is Ok && r->Ok_0 == m,
            None => r is Err && r->Err_0@ == "unknown text model '"@ + name@
                + "' (try: bge-small-en-v1.5, bge-base-en-v1.5, all-MiniLM-L6-v2, nomic-embed-text-v1.5)"@,
        },
{
    if same_text(name, "bge-small-en-v1.5") {
        Ok((TextModel::BgeSmallEnV15, 384))
    } else if same_text(name, "bge-base-en-v1.5") {
        Ok((TextModel::BgeBaseEnV15, 768))
    } else if same_text(name, "all-MiniLM-L6-v2") {
        Ok((TextModel::AllMiniLmL6V2, 384))
    } else if same_text(name, "nomic-embed-text-v1.5") {
        Ok((TextModel::NomicEmbedTextV15, 768))
    } else {
        let mut e: String = "unknown text model '".to_string();
        push_text(&mut e, name);
        push_text(
            &mut e,
            "' (try: bge-small-en-v1.5, bge-base-en-v1.5, all-MiniLM-L6-v2, nomic-embed-text-v1.5)",
        );
        Err(e)
    }
}

/// Maps a config model name to an image model and its dimensionality.
pub fn resolve_image_model(name: &str) -> (r: Result<(ImageModel, usize), String>)
    ensures
        match image_model(name@) {
            Some(m) => r is Ok && r->Ok_0 == m,
            None => r is Err && r->Err_0@ == "unknown image model '"@ + name@
                + "' (try: clip-vit-b-32)"@,
        },
{
    if same_text(name, "clip-vit-b-32") {
        Ok((ImageModel::ClipVitB32, 512))
    } else {
        let mut e: String = "unknown image model '".to_string();
        push_text(&mut e, name);
        push_text(&mut e, "' (try: clip-vit-b-32)");
        Err(e)
    }
}

/// Maps a config model name to the text encoder of an image model, which embeds
/// text into the image space, and its dimensionality.
pub fn resolve_clip_text_model(name: &str) -> (r: Result<(ImageModel, usize), String>)
    ensures
        match image_model(name@) {
            Some(m) => r is Ok && r->Ok_0 == m,
            None => r is Err && r->Err_0@ == "unknown image model '"@ + name@
                + "' (try: clip-vit-b-32)"@,
        },
{
    resolve_image_model(name)
}

} // verus!
