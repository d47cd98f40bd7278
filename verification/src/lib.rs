//! A static-analysis library for G-code (machine instructions for 3D
//! printers and CNC controllers).
//!
//! The library provides:
//! - a byte-accurate, line-oriented tokenizer and a lightweight parser,
//! - a flavor schema describing which commands and parameters a machine
//!   dialect accepts,
//! - a registry that merges flavor definitions by priority and resolves the
//!   active flavor, including in-document overrides ("modelines"),
//! - a validation engine that checks parsed commands against the active
//!   flavor and emits diagnostics.

pub mod config;
pub mod flavor;
pub mod gcode;
pub mod parser;
pub mod session;
pub mod text;
pub mod validation;
pub mod value;

pub use config::Config;
pub use flavor::{Flavor, FlavorRegistry};
pub use parser::{parse_line, ParsedLine};
pub use validation::{validate_document, Diagnostic};
