//! Document state management.

use vstd::prelude::*;

verus! {

/// Tracks open documents for the surrounding protocol layer.
#[derive(Debug, PartialEq, Eq, Structural)]
pub struct DocumentManager;

impl DocumentManager {
    /// A fresh manager.
    pub fn new() -> (r: DocumentManager)
        ensures
            r == DocumentManager,
    {
        DocumentManager
    }
}

impl Default for DocumentManager {
    /// A fresh manager.
    fn default() -> (r: DocumentManager)
        ensures
            r == DocumentManager,
    {
        DocumentManager::new()
    }
}

} // verus!
