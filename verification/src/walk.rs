//! Interface for discovering indexable files under a vault root.
use vstd::prelude::*;

use crate::paths::{extension, extension_of_path};
use crate::text::{same_caseless, same_ignoring_case, texts, to_chars};

verus! {

/// File kinds that can be indexed.
#[derive(Debug, Clone, Copy, PartialEq, Eq, Structural)]
pub enum DocKind {
    Markdown,
    Image,
}

/// The name that a kind is stored under.
pub open spec fn kind_name(kind: DocKind) -> Seq<char> {
    match kind {
        DocKind::Markdown => "markdown"@,
        DocKind::Image => "image"@,
    }
}

/// The kind of a path by its extension, in any case: `md` is markdown, `png` an
/// image.
pub open spec fn kind_of_path(path: Seq<char>) -> Option<DocKind> {
    match extension(path) {
        Some(e) => if same_ignoring_case(e, "md"@) {
            Some(DocKind::Markdown)
        } else if same_ignoring_case(e, "png"@) {
            Some(DocKind::Image)
        } else {
            None
        },
        None => None,
    }
}

impl DocKind {
    /// The name that this kind is stored under.
    pub fn as_str(self) -> (r: &'static str)
        ensures
            r@ == kind_name(self),
    {
        match self {
            DocKind::Markdown => "markdown",
            DocKind::Image => "image",
        }
    }

    /// Classifies a path by extension, or `None` if it is not indexed.
    pub fn from_path(path: &str) -> (r: Option<DocKind>)
        ensures
            r == kind_of_path(path@),
    {
        match extension_of_path(path) {
            Some(e) => {
                let e = to_chars(e.as_str());
                if same_caseless(e.as_slice(), to_chars("md").as_slice()) {
                    Some(DocKind::Markdown)
                } else if same_caseless(e.as_slice(), to_chars("png").as_slice()) {
                    Some(DocKind::Image)
                } else {
                    None
                }
            },
            None => None,
        }
    }
}

/// A discovered file to (potentially) index.
#[derive(Debug)]
pub struct Found {
    pub path: String,
    pub kind: DocKind,
}

/// The content of a [`Found`].
pub struct FoundText {
    pub path: Seq<char>,
    pub kind: DocKind,
}

impl View for Found {
    type V = FoundText;

    open spec fn view(&self) -> FoundText {
        FoundText { path: self.path@, kind: self.kind }
    }
}

/// The contents of some found files.
pub open spec fn found_texts(v: Seq<Found>) -> Seq<FoundText> {
    Seq::new(v.len(), |i: int| v[i]@)
}

/// What a walk came back with.
pub open spec fn found_result(r: Result<Vec<Found>, String>) -> Result<
    Seq<FoundText>,
    Seq<char>,
> {
    match r {
        Ok(v) => Ok(found_texts(v@)),
        Err(e) => Err(e@),
    }
}

/// A walk of a root with some ignore globs.
pub struct Walk {
    pub root: Seq<char>,
    pub ignore_globs: Seq<Seq<char>>,
}

/// A walker as its callers see it: the walks made so far, and what it answers
/// at the end of each history of walks.
pub struct WalkerModel {
    pub calls: Seq<Walk>,
    pub answers: spec_fn(Seq<Walk>) -> Result<Seq<FoundText>, Seq<char>>,
}

impl WalkerModel {
    /// The walker after one more walk.
    pub open spec fn after(self, walk: Walk) -> WalkerModel {
        WalkerModel { calls: self.calls.push(walk), ..self }
    }

    /// What one more walk finds.
    pub open spec fn found(self, walk: Walk) -> Result<Seq<FoundText>, Seq<char>> {
        (self.answers)(self.calls.push(walk))
    }
}

/// Discovers indexable files under a vault root. The contract records each call
/// and names its answer; it promises nothing of what the answer is.
pub trait Walker {
    /// The calls so far, and what is answered.
    spec fn model(&self) -> WalkerModel;

    /// Walks `root` for indexable files, honoring `.gitignore` and the
    /// configured ignore globs. Hidden files and directories are skipped.
    fn discover(&mut self, root: &str, ignore_globs: &[String]) -> (r: Result<Vec<Found>, String>)
        ensures
            final(self).model() == old(self).model().after(
                (Walk { root: root@, ignore_globs: texts(ignore_globs@) }),
            ),
            found_result(r) == old(self).model().found(
                (Walk { root: root@, ignore_globs: texts(ignore_globs@) }),
            ),
    ;
}

/// The override that makes a walk ignore what a glob matches: without a
/// whitelist everything else is walked.
pub fn ignore_override(glob: &str) -> (r: String)
    ensures
        r@ == "!"@ + glob@,
{
    let mut s: String = "!".to_string();
    crate::text::push_text(&mut s, glob);
    s
}

/// What a walk makes of one entry: a file of a kind that is indexed.
pub open spec fn found_entry(path: Seq<char>, is_file: bool) -> Option<FoundText> {
    match kind_of_path(path) {
        Some(kind) => if is_file {
            Some(FoundText { path, kind })
        } else {
            None
        },
        None => None,
    }
}

/// What a walk makes of one entry: a file of a kind that is indexed.
pub fn found_file(path: &str, is_file: bool) -> (r: Option<Found>)
    ensures
        match r {
            Some(f) => found_entry(path@, is_file) == Some(f@),
            None => found_entry(path@, is_file) is None,
        },
{
    if !is_file {
        return None;
    }
    match DocKind::from_path(path) {
        Some(kind) => Some(Found { path: path.to_string(), kind }),
        None => None,
    }
}

} // verus!
