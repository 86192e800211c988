//! A block of storage for a fixed number of items.
use vstd::prelude::*;

verus! {

/// The record of a block of storage for items of one type: the number of
/// items that it has room for. The storage itself is the allocator's.
pub struct ArrayAlloc {
    size: usize,
}

impl ArrayAlloc {
    /// The number of items that the block has room for.
    pub closed spec fn size(&self) -> usize {
        self.size
    }

    /// The record of a block with room for `size` items.
    pub fn new(size: usize) -> (block: ArrayAlloc)
        ensures
            block.size() == size,
    {
        ArrayAlloc { size }
    }

    /// The number of items that the block has room for.
    pub fn count(&self) -> (count: usize)
        ensures
            count == self.size(),
    {
        self.size
    }
}

} // verus!
