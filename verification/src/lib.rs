//! Title comments and export streams for source trees, with machine-checked
//! contracts.
//!
//! A title is a comment on the first line of a source file that names the
//! file by its dotted path, as in `// src.foo.bar`. An export stream is the
//! text of many source files in a row, each behind a header that names it.
//! The library decides and computes on text alone; reading and writing
//! files is left to the caller.
//!
//! - [`language`]: the languages, their extensions and comment symbols.
//! - [`paths`]: relative paths, extensions and dotted names, on text.
//! - [`source`]: a source file, and which paths are source files.
//! - [`title`]: finding, deriving and inserting titles.
//! - [`export`]: headers and the export stream.

pub mod export;
pub mod language;
pub mod paths;
pub mod source;
mod text;
pub mod title;
