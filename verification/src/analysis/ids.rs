//! Ids that analysis gives to variables, functions and nodes.
use vstd::prelude::*;

verus! {

/// A variable local to a function.
#[derive(Debug, Clone, Copy, PartialEq, Eq, Structural, PartialOrd, Ord, Hash)]
pub struct LocalVarId(pub usize);

/// A global variable.
#[derive(Debug, Clone, Copy, PartialEq, Eq, Structural, PartialOrd, Ord, Hash)]
pub struct GlobalVarId(pub usize);

/// A function.
#[derive(Debug, Clone, Copy, PartialEq, Eq, Structural, PartialOrd, Ord, Hash)]
pub struct FunctionId(pub usize);

/// A node of the analysed tree.
#[derive(Debug, Clone, Copy, PartialEq, Eq, Structural, PartialOrd, Ord, Hash)]
pub struct HirId(pub usize);

impl LocalVarId {
    /// The id that stands for no variable.
    pub fn error() -> (id: Self)
        ensures
            id.0 == usize::MAX,
    {
        LocalVarId(usize::MAX)
    }
}

impl FunctionId {
    /// The id that stands for no function.
    pub fn error() -> (id: Self)
        ensures
            id.0 == usize::MAX,
    {
        FunctionId(usize::MAX)
    }
}

impl From<usize> for LocalVarId {
    fn from(value: usize) -> (id: Self) {
        LocalVarId(value)
    }
}

impl vstd::std_specs::convert::FromSpecImpl<usize> for LocalVarId {
    open spec fn obeys_from_spec() -> bool {
        true
    }

    open spec fn from_spec(v: usize) -> Self {
        LocalVarId(v)
    }
}

} // verus!
