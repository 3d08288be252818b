//! The process-wide list of component types marked "changed this frame",
//! owned explicitly and handed to the frame driver: each typed store
//! registers its token here at most once per frame (on the first `touch`),
//! and the driver walks the list after `execute`, runs each store's dispose
//! pass, then clears the list for the next frame.

use vstd::prelude::*;

verus! {

/// The changed-type list: tokens of the typed stores mutated this frame.
pub struct ChangedComponents {
    pub tokens: Vec<u64>,
}

impl ChangedComponents {
    pub fn new() -> (r: ChangedComponents)
        ensures
            r.tokens@.len() == 0,
    {
        ChangedComponents { tokens: Vec::new() }
    }

    /// Record a store's token; the caller registers each store at most once
    /// per frame, guarded by the store's own changed flag.
    pub fn note(&mut self, token: u64)
        ensures
            final(self).tokens@ == old(self).tokens@.push(token),
    {
        self.tokens.push(token);
    }

    /// The dispose pass is over: the list empties, its storage is reused.
    pub fn reset(&mut self)
        ensures
            final(self).tokens@.len() == 0,
    {
        self.tokens.clear();
    }
}

} // verus!
