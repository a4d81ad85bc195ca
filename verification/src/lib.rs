//! A lightweight syntactic lint for C sources: it aggregates, per function
//! name, the places where the name is declared and the places where it is
//! called, and reports functions that are never called ("unused") and
//! functions with fewer than two declaration sites ("undeclared").
//!
//! The analysis works on [`tree::SyntaxNode`], a plain-value image of one
//! parsed file's concrete syntax tree; building that tree from source text is
//! the caller's affair (any C parser exposing node kind, child fields, text
//! and positions will do). [`tree::find_function_stats`] walks a tree in
//! pre-order and records every declaration and call site into a
//! [`registry::FunctionRegistry`]; after the last file,
//! [`classify::report_findings`] turns the registry into findings. Each step
//! carries a contract that pins its result down exactly, and the classifier's
//! guarantees — `main` is never reported, a called function is never unused,
//! sites merge across files, runs are deterministic — are stated and proved in
//! [`classify`].

pub mod classify;
pub mod paths;
pub mod registry;
pub mod strutil;
pub mod tree;

pub use paths::is_source_or_header_file;
pub use classify::Category;
pub use classify::Finding;
pub use classify::report_findings;
pub use registry::FunctionRegistry;
pub use registry::FunctionStats;
pub use registry::Site;
pub use tree::NameRef;
pub use tree::SyntaxNode;
pub use tree::find_function_stats;
