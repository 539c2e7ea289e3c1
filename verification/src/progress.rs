//! Progress-reporting interface for the indexing pipeline.
use vstd::prelude::*;

verus! {

/// A call on a progress reporter.
pub enum ProgressCall {
    IncTotal(u64),
    Inc(u64),
    Finish,
}

/// A progress reporter as its callers see it: the calls made so far.
pub struct ProgressModel {
    pub calls: Seq<ProgressCall>,
}

impl ProgressModel {
    /// The reporter after one more call.
    pub open spec fn after(self, call: ProgressCall) -> ProgressModel {
        ProgressModel { calls: self.calls.push(call) }
    }
}

/// Reports progress for a long-running operation with a growing total. The
/// contract records each call.
pub trait Progress {
    /// The calls so far.
    spec fn model(&self) -> ProgressModel;

    /// Increases the known total unit of work (e.g. as more files are
    /// discovered: the total is not known upfront).
    fn inc_total(&mut self, delta: u64)
        ensures
            final(self).model() == old(self).model().after(ProgressCall::IncTotal(delta)),
    ;

    /// Advances progress by `delta` units.
    fn inc(&mut self, delta: u64)
        ensures
            final(self).model() == old(self).model().after(ProgressCall::Inc(delta)),
    ;

    /// Marks the operation complete.
    fn finish(&mut self)
        ensures
            final(self).model() == old(self).model().after(ProgressCall::Finish),
    ;
}

/// No-op [`Progress`] for callers that don't want a bar.
pub struct NoopProgress {
    model: Ghost<ProgressModel>,
}

impl NoopProgress {
    /// A reporter that nothing was reported to yet.
    pub fn new() -> (r: NoopProgress)
        ensures
            r.model().calls == Seq::<ProgressCall>::empty(),
    {
        NoopProgress { model: Ghost(ProgressModel { calls: Seq::empty() }) }
    }
}

impl Progress for NoopProgress {
    closed spec fn model(&self) -> ProgressModel {
        self.model@
    }

    fn inc_total(&mut self, delta: u64) {
        proof {
            self.model@ = self.model@.after(ProgressCall::IncTotal(delta));
        }
    }

    fn inc(&mut self, delta: u64) {
        proof {
            self.model@ = self.model@.after(ProgressCall::Inc(delta));
        }
    }

    fn finish(&mut self) {
        proof {
            self.model@ = self.model@.after(ProgressCall::Finish);
        }
    }
}

} // verus!
