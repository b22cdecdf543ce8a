//! An in-memory, virtual compilation service.
//!
//! A caller hands over a set of virtual source files, the path of an entry
//! file, and compile options, and receives back a single result holding
//! diagnostics and emitted artifacts.  No real filesystem or network is ever
//! touched: every path is resolved against the caller-supplied virtual file
//! set, and every artifact is returned in memory.
//!
//! The crate is organised along the phases of one call:
//! - [`model`] holds the records exchanged with the caller;
//! - [`vfs`] builds the virtual file set and resolves the entry file;
//! - [`syntax`] tokenizes and parses a source file into declarations;
//! - [`check`] validates declarations against the virtual file set;
//! - [`emit`] runs the configured emitters over the checked program;
//! - [`compile`] glues the phases together into `compile_virtual`;
//! - [`boundary`] is the host adapter: it validates options, classifies
//!   guest outcomes, and never lets a fault leak into a later call;
//! - [`codec`] is the wire form of the records crossing the boundary,
//!   marshalled field by field with length-prefixed text;
//! - [`laws`] states and proves the crate-level guarantees.

pub mod boundary;
pub mod check;
pub mod codec;
pub mod compile;
pub mod emit;
pub mod laws;
pub mod model;
pub mod syntax;
pub mod text;
pub mod vfs;

pub use model::CompileOptions;
pub use model::CompileResult;
pub use model::Diagnostic;
pub use model::EmittedFile;
pub use model::Severity;
pub use model::SourceFile;
