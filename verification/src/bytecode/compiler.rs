//! The compiler for the first instruction set; it keeps no state.
use vstd::prelude::*;

verus! {

pub struct Compiler {}

impl Compiler {
    pub fn new() -> (c: Compiler) {
        Compiler {}
    }
}

} // verus!
