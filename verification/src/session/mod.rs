//! Document-level bookkeeping shared with the protocol layer.

pub mod diagnostics;
pub mod document;

pub use diagnostics::DiagnosticProvider;
pub use document::DocumentManager;
