//! What the command line asks of a run.
use vstd::prelude::*;

verus! {

/// The options of a run: the file to compile, and whether to list the
/// bytecode before running it.
#[derive(Debug)]
pub struct Options {
    pub input: String,
    pub dump_bytecode: bool,
}

impl Options {
    /// No input file, and no listing.
    pub fn new() -> (o: Self)
        ensures
            o.input@ == Seq::<char>::empty(),
            !o.dump_bytecode,
    {
        Options { input: String::new(), dump_bytecode: false }
    }
}

impl Default for Options {
    fn default() -> (o: Self)
        ensures
            o.input@ == Seq::<char>::empty(),
            !o.dump_bytecode,
    {
        Options::new()
    }
}

} // verus!
