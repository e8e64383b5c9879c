//! What tasks export.

use vstd::prelude::*;

use crate::failure::RequestError;
use crate::keys::TaskId;
use crate::replies;
use crate::replies::TypedBody;
use crate::state::{HurlinState, StateView};

verus! {

impl<L, W> StateView<L, W> {
    /// The state once `task` has exported `body`, of the content type `mime`.
    pub open spec fn with_export(self, task: TaskId, body: Seq<u8>, mime: Option<Seq<u8>>) -> Self {
        StateView { exported: self.exported.insert(task, (body, mime)), ..self }
    }
}

impl<L, W> HurlinState<L, W> {
    /// Keeps what `task` exports, in place of anything that it exported before. `mime` is the
    /// content type as its header has it. No export is refused.
    pub fn exports(&mut self, task: TaskId, mime: Option<Vec<u8>>, body: Vec<u8>) -> (result:
        Result<(), RequestError>)
        requires
            old(self).wf(),
        ensures
            final(self).wf(),
            result is Ok,
            final(self)@ == old(self)@.with_export(task, body@, replies::optional(mime)),
    {
        let export = TypedBody(body, mime);
        let ghost kept = export@;
        self.exports.insert(task, export);
        proof {
            assert(self@.exported =~= old(self)@.exported.insert(task, kept));
            assert(self@ =~= old(self)@.with_export(task, kept.0, kept.1));
            assert(self@.consistent());
        }
        Ok(())
    }
}

} // verus!
