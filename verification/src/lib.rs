//! Normalization of file-selection patterns (`glob:`, `re:`, `path:`, ...)
//! into the strict globs and regular-expression fragments that a path
//! matcher compiles.

pub mod curly;
pub mod environment;
pub mod error;
pub mod glob;
pub mod kind;
pub mod listfile;
pub mod message;
pub mod normalize;
pub mod path;
pub mod pattern;
pub mod text;
