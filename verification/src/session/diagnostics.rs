//! Diagnostic publication hooks.

use vstd::prelude::*;

verus! {

/// Hands diagnostics to the surrounding protocol layer.
#[derive(Debug, PartialEq, Eq, Structural)]
pub struct DiagnosticProvider;

impl DiagnosticProvider {
    /// A fresh provider.
    pub fn new() -> (r: DiagnosticProvider)
        ensures
            r == DiagnosticProvider,
    {
        DiagnosticProvider
    }
}

impl Default for DiagnosticProvider {
    /// A fresh provider.
    fn default() -> (r: DiagnosticProvider)
        ensures
            r == DiagnosticProvider,
    {
        DiagnosticProvider::new()
    }
}

} // verus!
