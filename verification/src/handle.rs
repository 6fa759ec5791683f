use vstd::prelude::*;

verus! {

/// A generation-tagged reference to a slot of a registry.
///
/// A handle names a slot by its index and by the generation at which the slot
/// was filled. It is plain data: it can be copied, stored and compared, and it
/// resolves only in the registry that issued it, and only while the value it
/// was issued for is still stored there.
#[derive(Clone, Copy, Debug, PartialEq, Eq, Hash, Structural)]
pub struct Handle {
    pub index: usize,
    pub generation: u64,
}

impl Handle {
    /// Builds a handle from its slot index and generation.
    pub fn from_raw_parts(index: usize, generation: u64) -> (handle: Handle)
        ensures
            handle == (Handle { index, generation }),
    {
        Handle { index, generation }
    }

    /// Splits the handle into its slot index and generation.
    pub fn into_raw_parts(self) -> (parts: (usize, u64))
        ensures
            parts == (self.index, self.generation),
    {
        (self.index, self.generation)
    }
}

} // verus!
