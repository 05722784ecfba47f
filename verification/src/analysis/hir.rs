//! Parts of the analysed tree: operators, variables and parameters.
use crate::analysis::ids::{GlobalVarId, LocalVarId};
use crate::analysis::types::Type;
use vstd::prelude::*;

verus! {

#[derive(Debug, PartialEq, Eq, Clone, Copy, Structural)]
pub enum BinaryOpKind {
    Add,
    Sub,
    Mul,
    Div,
    EqEq,
    BangEq,
    LessThan,
    LessEq,
    GreaterThan,
    GreaterEq,
    And,
    Or,
}

#[derive(Debug, PartialEq, Eq, Clone, Copy, Structural)]
pub enum UnaryOpKind {
    Negate,
    PreIncrement,
    PostIncrement,
    PreDecrement,
    PostDecrement,
}

/// A variable: local to a function, or global.
#[derive(Debug, PartialEq, Eq, Clone, Copy, Structural)]
pub enum Variable {
    Local(LocalVarId),
    Global(GlobalVarId),
}

/// A parameter of a function: its variable and type.
#[derive(Debug, PartialEq, Eq, Clone, Copy)]
pub struct Param {
    pub id: LocalVarId,
    pub ty: Type,
}

impl Param {
    pub fn new(id: LocalVarId, ty: Type) -> (p: Self)
        ensures
            p.id == id,
            p.ty == ty,
    {
        Param { id, ty }
    }
}

} // verus!
