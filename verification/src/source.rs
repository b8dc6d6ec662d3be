//! Source files as the library sees them: a path and the text behind it,
//! and the rule by which a path counts as a source file of a language.

use crate::language::Language;
use crate::paths::{extension, extension_of};
use crate::text::same_text;
use vstd::prelude::*;

verus! {

/// A source file: its path and its full content, both as text.
#[derive(Debug)]
pub struct SourceFile {
    /// The path as the walk gave it, relative or absolute.
    pub path: String,
    /// The whole content of the file.
    pub content: String,
}

/// Whether `path` names a source file of `lang`: the extension of its last
/// component is the language's, letter for letter.
pub open spec fn is_source_text(path: Seq<char>, lang: Language) -> bool {
    extension_of(path) == Some(lang.extension_text())
}

/// Tells whether `path` names a source file of `lang`.
pub fn is_source(path: &str, lang: Language) -> (r: bool)
    ensures
        r == is_source_text(path@, lang),
{
    match extension(path) {
        Some(found) => same_text(found.as_str(), lang.extension()),
        None => false,
    }
}

} // verus!
