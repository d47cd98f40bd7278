//! Validation: diagnostics for a document against the active flavor.

pub mod engine;

pub use engine::{validate_document, validate_line, Diagnostic, Severity};
pub use engine::ValidationResult;
