//! The registry of supported languages: for each one, its identifier, the
//! extension of its source files and the symbol that opens a line comment.

use crate::text::same_text;
use vstd::prelude::*;

verus! {

/// A supported programming language.
#[derive(Clone, Copy, Debug, PartialEq, Eq, Structural)]
pub enum Language {
    Rust,
    Python,
}

/// The failure of [`Language::resolve`]: the identifier names no language of
/// the registry.
#[derive(Debug)]
pub struct UnsupportedLanguage {
    /// The identifier that was asked for.
    pub identifier: String,
}

/// The language that `identifier` names, if it names one.
pub open spec fn resolve_text(identifier: Seq<char>) -> Option<Language> {
    if identifier == Language::Rust.identifier_text() {
        Some(Language::Rust)
    } else if identifier == Language::Python.identifier_text() {
        Some(Language::Python)
    } else {
        None
    }
}

impl Language {
    /// The identifier by which the language is asked for.
    pub open spec fn identifier_text(self) -> Seq<char> {
        match self {
            Language::Rust => seq!['r', 'u', 's', 't'],
            Language::Python => seq!['p', 'y', 't', 'h', 'o', 'n'],
        }
    }

    /// The extension of the language's source files, without the dot.
    pub open spec fn extension_text(self) -> Seq<char> {
        match self {
            Language::Rust => seq!['r', 's'],
            Language::Python => seq!['p', 'y'],
        }
    }

    /// The symbol that opens a line comment in the language.
    pub open spec fn comment_text(self) -> Seq<char> {
        match self {
            Language::Rust => seq!['/', '/'],
            Language::Python => seq!['#'],
        }
    }

    /// Returns the identifier by which the language is asked for.
    pub fn identifier(&self) -> (r: &'static str)
        ensures
            r@ == self.identifier_text(),
    {
        proof {
            reveal_strlit("rust");
            reveal_strlit("python");
        }
        let r = match self {
            Language::Rust => "rust",
            Language::Python => "python",
        };
        assert(r@ =~= self.identifier_text());
        r
    }

    /// Returns the file extension associated with the language.
    pub fn extension(&self) -> (r: &'static str)
        ensures
            r@ == self.extension_text(),
    {
        proof {
            reveal_strlit("rs");
            reveal_strlit("py");
        }
        let r = match self {
            Language::Rust => "rs",
            Language::Python => "py",
        };
        assert(r@ =~= self.extension_text());
        r
    }

    /// Returns the comment symbol used for the language.
    pub fn comment_symbol(&self) -> (r: &'static str)
        ensures
            r@ == self.comment_text(),
    {
        proof {
            reveal_strlit("//");
            reveal_strlit("#");
        }
        let r = match self {
            Language::Rust => "//",
            Language::Python => "#",
        };
        assert(r@ =~= self.comment_text());
        r
    }

    /// Looks `identifier` up in the registry. The lookup is exact: no case
    /// folding, no trimming.
    pub fn resolve(identifier: &str) -> (r: Result<Language, UnsupportedLanguage>)
        ensures
            match r {
                Ok(lang) => resolve_text(identifier@) == Some(lang),
                Err(e) => resolve_text(identifier@) is None && e.identifier@ == identifier@,
            },
    {
        if same_text(identifier, Language::Rust.identifier()) {
            Ok(Language::Rust)
        } else if same_text(identifier, Language::Python.identifier()) {
            Ok(Language::Python)
        } else {
            Err(UnsupportedLanguage { identifier: identifier.to_owned() })
        }
    }
}

impl UnsupportedLanguage {
    /// What [`UnsupportedLanguage::message`] returns.
    pub open spec fn message_text(self) -> Seq<char> {
        seq![
            'U', 'n', 's', 'u', 'p', 'p', 'o', 'r', 't', 'e', 'd', ' ', 'l', 'a', 'n', 'g', 'u',
            'a', 'g', 'e', ':', ' ',
        ] + self.identifier@
    }

    /// A line for the user that names the identifier.
    pub fn message(&self) -> (r: String)
        ensures
            r@ == self.message_text(),
    {
        proof {
            reveal_strlit("Unsupported language: ");
        }
        let mut r = "Unsupported language: ".to_owned();
        r.append(self.identifier.as_str());
        assert(r@ =~= self.message_text());
        r
    }
}

/// Every language is found again under its own identifier.
pub proof fn lemma_resolve_identifier(lang: Language)
    ensures
        resolve_text(lang.identifier_text()) == Some(lang),
{
    assert(Language::Rust.identifier_text().len() == 4);
    assert(Language::Python.identifier_text().len() == 6);
}

/// An identifier resolves to a language only if it is that language's own.
pub proof fn lemma_resolve_exact(identifier: Seq<char>, lang: Language)
    ensures
        resolve_text(identifier) == Some(lang) <==> identifier == lang.identifier_text(),
{
    lemma_resolve_identifier(lang);
}

} // verus!
