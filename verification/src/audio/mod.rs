use vstd::prelude::*;

use crate::resources::HandleCounter;

verus! {

/// Handle to a playing audio thread.
#[derive(PartialEq, Eq, Structural, Hash, Clone, Copy)]
pub struct AudioThreadHandle(usize);

impl AudioThreadHandle {
    /// The number behind the handle.
    pub closed spec fn index(&self) -> usize {
        self.0
    }

    /// A handle that no earlier call on `counter` gave out.
    pub fn unique(counter: &mut HandleCounter) -> (h: Self)
        requires
            old(counter).next_index() < usize::MAX,
        ensures
            h.index() == old(counter).next_index(),
            final(counter).next_index() == old(counter).next_index() + 1,
    {
        AudioThreadHandle(counter.take())
    }
}

} // verus!
