//! Ids of the nodes of arithmetic expressions.
use vstd::prelude::*;

verus! {

/// The id of a node of an expression tree.
#[derive(Debug, Clone, Copy, PartialEq, Eq, Structural, PartialOrd, Ord, Hash)]
pub struct NodeId(pub usize);

/// The id that stands for no node.
pub const ERROR_NODE: usize = usize::MAX;

impl NodeId {
    /// Steps to the next id; the id stays at `usize::MAX` once it is there.
    pub fn increment(&mut self)
        ensures
            final(self).0 == if old(self).0 < usize::MAX { old(self).0 + 1 } else { old(self).0 as int },
    {
        if self.0 < usize::MAX {
            self.0 = self.0 + 1;
        }
    }
}

} // verus!
