//! Process exit outcomes: either a launcher-internal failure with a
//! message, or the sandboxed program's own exit code passed through.

use vstd::prelude::*;

verus! {

/// The outcome of one launch attempt.
pub enum Exit {
    /// The launcher itself failed; the message describes why.
    Me(String),
    /// The sandboxed program ran and exited with this code.
    Program(i32),
}

impl Exit {
    /// The numeric exit code this outcome maps to: a fixed generic
    /// failure code for launcher-internal errors, the program's own
    /// code otherwise.
    pub fn code(&self) -> (r: i32)
        ensures
            r == self.spec_code(),
    {
        match self {
            Exit::Me(_) => 1,
            Exit::Program(code) => *code,
        }
    }

    pub open spec fn spec_code(&self) -> i32 {
        match self {
            Exit::Me(_) => 1,
            Exit::Program(code) => *code,
        }
    }
}

} // verus!
