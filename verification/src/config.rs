//! What is to be sampled.
use vstd::prelude::*;

verus! {

/// Which line number is reported for a frame.
#[derive(Clone, Copy, Debug, PartialEq, Eq, Structural)]
pub enum LineNo {
    /// None.
    NoLine,
    /// The first line of the function.
    First,
    /// The line of the last instruction that was run.
    LastInstruction,
}

#[derive(Clone, Copy, Debug, PartialEq, Eq, Structural)]
pub struct Config {
    pub lineno: LineNo,
    /// Local variables are copied where this is above zero.
    pub dump_locals: u64,
}

} // verus!
