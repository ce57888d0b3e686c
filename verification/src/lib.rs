//! Core data structures of the rcc C compiler: source files and locations,
//! string interning, structured diagnostics, the System V AMD64 calling
//! convention, and command-line argument handling.

pub mod text;
pub mod source;
pub mod ident;
pub mod abi;
pub mod diagnostics;
pub mod cli;

pub use diagnostics::{Diagnostic, Diagnostics, Severity};
pub use ident::{Ident, Interner};
pub use source::{FileId, SourceFile, SourceManager, Span};
