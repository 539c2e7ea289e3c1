//! Interface for reading files during indexing.
use vstd::prelude::*;

verus! {

/// What resolving a path came back with.
pub open spec fn path_result(r: Result<String, String>) -> Result<Seq<char>, Seq<char>> {
    match r {
        Ok(p) => Ok(p@),
        Err(e) => Err(e@),
    }
}

/// What reading a file came back with.
pub open spec fn bytes_result(r: Result<Vec<u8>, String>) -> Result<Seq<u8>, Seq<char>> {
    match r {
        Ok(b) => Ok(b@),
        Err(e) => Err(e@),
    }
}

/// A call on a file reader, with its path.
pub enum ReaderCall {
    Canonicalize(Seq<char>),
    Read(Seq<char>),
    Mtime(Seq<char>),
    ImageDimensions(Seq<char>),
}

/// A file reader as its callers see it: the calls made so far, and what it
/// answers at the end of each history of calls.
pub struct ReaderModel {
    pub calls: Seq<ReaderCall>,
    pub paths: spec_fn(Seq<ReaderCall>) -> Result<Seq<char>, Seq<char>>,
    pub contents: spec_fn(Seq<ReaderCall>) -> Result<Seq<u8>, Seq<char>>,
    pub times: spec_fn(Seq<ReaderCall>) -> i64,
    pub sizes: spec_fn(Seq<ReaderCall>) -> Option<(u32, u32)>,
}

impl ReaderModel {
    /// The reader after one more call.
    pub open spec fn after(self, call: ReaderCall) -> ReaderModel {
        ReaderModel { calls: self.calls.push(call), ..self }
    }

    /// The canonical form of a path, asked for now.
    pub open spec fn canonical(self, path: Seq<char>) -> Result<Seq<char>, Seq<char>> {
        (self.paths)(self.calls.push(ReaderCall::Canonicalize(path)))
    }

    /// The bytes of a file, read now.
    pub open spec fn bytes(self, path: Seq<char>) -> Result<Seq<u8>, Seq<char>> {
        (self.contents)(self.calls.push(ReaderCall::Read(path)))
    }

    /// The modification time of a file, asked for now.
    pub open spec fn time(self, path: Seq<char>) -> i64 {
        (self.times)(self.calls.push(ReaderCall::Mtime(path)))
    }

    /// The pixel dimensions of an image, asked for now.
    pub open spec fn dimensions(self, path: Seq<char>) -> Option<(u32, u32)> {
        (self.sizes)(self.calls.push(ReaderCall::ImageDimensions(path)))
    }
}

/// Reads and inspects files for the indexing pipeline. The contract records
/// each call and names its answer; it promises nothing of what the answer is.
pub trait FileReader {
    /// The calls so far, and what is answered.
    spec fn model(&self) -> ReaderModel;

    /// Resolves a path to its canonical form (symlinks resolved, normalized).
    fn canonicalize(&mut self, path: &str) -> (r: Result<String, String>)
        ensures
            final(self).model() == old(self).model().after(ReaderCall::Canonicalize(path@)),
            path_result(r) == old(self).model().canonical(path@),
    ;

    /// Reads a file's full contents.
    fn read(&mut self, path: &str) -> (r: Result<Vec<u8>, String>)
        ensures
            final(self).model() == old(self).model().after(ReaderCall::Read(path@)),
            bytes_result(r) == old(self).model().bytes(path@),
    ;

    /// Last-modified time as unix seconds, or 0 if unavailable.
    fn mtime(&mut self, path: &str) -> (r: i64)
        ensures
            final(self).model() == old(self).model().after(ReaderCall::Mtime(path@)),
            r == old(self).model().time(path@),
    ;

    /// Pixel width and height of an image, or `None` if unavailable.
    fn image_dimensions(&mut self, path: &str) -> (r: Option<(u32, u32)>)
        ensures
            final(self).model() == old(self).model().after(ReaderCall::ImageDimensions(path@)),
            r == old(self).model().dimensions(path@),
    ;
}

} // verus!
