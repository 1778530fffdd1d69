//! The interactive read loop's handle. The loop itself reads console
//! lines and prints tokens, so it lives with the embedding application;
//! this module only defines the value that the application drives.

use vstd::prelude::*;

verus! {

/// A handle for one interactive session.
pub struct Repl;

impl Repl {
    /// Create a session handle.
    pub fn new() -> Repl {
        Repl
    }
}

} // verus!
