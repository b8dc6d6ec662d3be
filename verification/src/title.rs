//! Title comments: the line at the top of a source file that names the file
//! by its dotted path. This module decides whether a file has one, derives
//! the one it should have, and inserts it.

use crate::language::{resolve_text, Language, UnsupportedLanguage};
use crate::paths::{dotted, dotted_text, relative_text, relative_to, stem_text, without_extension};
use crate::source::{is_source, is_source_text, SourceFile};
use crate::text::{opens_with, to_chars};
use vstd::prelude::*;

verus! {

/// Whether `c` can stand in a word of a dotted name: an ASCII letter, an
/// ASCII digit or `_`.
pub open spec fn is_word_char(c: char) -> bool {
    ||| 'a' <= c <= 'z'
    ||| 'A' <= c <= 'Z'
    ||| '0' <= c <= '9'
    ||| c == '_'
}

/// Whether `text` has at index `dot` a dot that joins two words: a word
/// character stands on either side of it.
pub open spec fn joins_words(text: Seq<char>, dot: int) -> bool {
    &&& 0 < dot < text.len() - 1
    &&& is_word_char(text[dot - 1])
    &&& text[dot] == '.'
    &&& is_word_char(text[dot + 1])
}

/// Whether `line` holds a dotted name that begins at or behind index
/// `from`. Such a name is there exactly if some dot joins two words, as
/// [`lemma_dotted_name_by_its_dot`] shows.
pub open spec fn names_dotted_word(line: Seq<char>, from: int) -> bool {
    exists|dot: int| from < dot && #[trigger] joins_words(line, dot)
}

/// Whether the characters of `text` from index `from` up to, not including,
/// index `to` are a dotted name, `word(.word)+`: two or more words with one
/// dot between each two, where a word is one or more word characters.
pub open spec fn is_dotted_name(text: Seq<char>, from: int, to: int) -> bool {
    &&& 0 <= from < to <= text.len()
    &&& is_word_char(text[from])
    &&& is_word_char(text[to - 1])
    &&& forall|k: int| from <= k < to ==> is_word_char(#[trigger] text[k]) || text[k] == '.'
    &&& forall|k: int| from <= k < to - 1 && #[trigger] text[k] == '.' ==> text[k + 1] != '.'
    &&& exists|k: int| from <= k < to && #[trigger] text[k] == '.'
}

/// The first line of `text`, without the newline that ends it.
pub open spec fn first_line(text: Seq<char>) -> Seq<char> {
    match text.index_of_first('\n') {
        Some(end) => text.take(end),
        None => text,
    }
}

/// Whether `content` counts as titled in `lang`: its first line opens with
/// the comment symbol and holds a dotted name anywhere behind it.
pub open spec fn has_title_text(content: Seq<char>, lang: Language) -> bool {
    let line = first_line(content);
    let symbol = lang.comment_text();
    symbol.is_prefix_of(line) && names_dotted_word(line, symbol.len() as int)
}

/// The name by which a title calls the file at `path`: the path relative to
/// `base`, without its extension, with dots for separators.
pub open spec fn title_name(path: Seq<char>, base: Seq<char>) -> Seq<char> {
    dotted_text(stem_text(relative_text(path, base)))
}

/// The title line of the file at `path`: comment symbol, one space, name.
pub open spec fn title_text(path: Seq<char>, lang: Language, base: Seq<char>) -> Seq<char> {
    lang.comment_text() + seq![' '] + title_name(path, base)
}

/// `content` with the line `title` and one blank line put before it.
pub open spec fn with_title(content: Seq<char>, title: Seq<char>) -> Seq<char> {
    title + seq!['\n', '\n'] + content
}

/// What ensuring the title of the file at `path` writes: the content with
/// its derived title inserted, or nothing where the content has a title.
pub open spec fn title_insertion(
    content: Seq<char>,
    path: Seq<char>,
    lang: Language,
    base: Seq<char>,
) -> Option<Seq<char>> {
    if has_title_text(content, lang) {
        None
    } else {
        Some(with_title(content, title_text(path, lang, base)))
    }
}

/// What a file with `content` at `path` holds once its title is ensured.
pub open spec fn titled_text(
    content: Seq<char>,
    path: Seq<char>,
    lang: Language,
    base: Seq<char>,
) -> Seq<char> {
    match title_insertion(content, path, lang, base) {
        Some(new_content) => new_content,
        None => content,
    }
}

/// What a title run does to one file: the new content that is to be written,
/// or nothing where the file is no source file of `lang` or has a title.
pub open spec fn title_outcome(file: SourceFile, lang: Language, base: Seq<char>) -> Option<
    Seq<char>,
> {
    if is_source_text(file.path@, lang) {
        title_insertion(file.content@, file.path@, lang, base)
    } else {
        None
    }
}

/// The text of a content that is to be written, if there is one.
pub open spec fn text_of(outcome: Option<String>) -> Option<Seq<char>> {
    match outcome {
        Some(new_content) => Some(new_content@),
        None => None,
    }
}

/// Whether `c` can stand in a word of a dotted name.
pub fn word_char(c: char) -> (r: bool)
    ensures
        r == is_word_char(c),
{
    ('a' <= c && c <= 'z') || ('A' <= c && c <= 'Z') || ('0' <= c && c <= '9') || c == '_'
}

/// The first line of `text`, as characters.
fn first_line_chars(text: &str) -> (line: Vec<char>)
    ensures
        line@ == first_line(text@),
{
    broadcast use vstd::string::group_string_axioms;
    let mut line: Vec<char> = Vec::new();
    for c in it: text.chars()
        invariant
            it.seq() == text@,
            line@ == text@.take(it.index()),
            forall|k: int| 0 <= k < it.index() ==> text@[k] != '\n',
    {
        if c == '\n' {
            proof {
                text@.index_of_first_ensures('\n');
                assert(text@[it.index()] == '\n');
            }
            return line;
        }
        line.push(c);
    }
    proof {
        text@.index_of_first_ensures('\n');
        assert(line@ =~= text@);
    }
    line
}

/// Whether `line` holds a dotted name behind its first `from` characters.
fn finds_dotted_word(line: &Vec<char>, from: usize) -> (r: bool)
    requires
        from <= line.len(),
    ensures
        r == names_dotted_word(line@, from as int),
{
    let n: usize = line.len();
    if from == n {
        return false;
    }
    let mut dot: usize = from + 1;
    while dot < n - 1
        invariant
            n == line.len(),
            from < dot <= n,
            forall|k: int| from < k < dot ==> !joins_words(line@, k),
        decreases n - dot,
    {
        if line[dot] == '.' && word_char(line[dot - 1]) && word_char(line[dot + 1]) {
            assert(joins_words(line@, dot as int));
            return true;
        }
        dot += 1;
    }
    false
}

/// Tells whether `content` already has a title in `lang`. Only the first
/// line is looked at; any comment on it that holds a dotted name counts,
/// whatever the name is.
pub fn has_title(content: &str, lang: Language) -> (r: bool)
    ensures
        r == has_title_text(content@, lang),
{
    let line = first_line_chars(content);
    let symbol = to_chars(lang.comment_symbol());
    opens_with(&line, &symbol) && finds_dotted_word(&line, symbol.len())
}

/// Derives the title line of the file at `path`, seen from the directory
/// `base_path`.
pub fn generate_title(path: &str, lang: Language, base_path: &str) -> (title: String)
    ensures
        title@ == title_text(path@, lang, base_path@),
{
    let relative = relative_to(path, base_path);
    let stem = without_extension(relative.as_str());
    let name = dotted(stem.as_str());
    proof {
        reveal_strlit(" ");
    }
    let mut title = lang.comment_symbol().to_owned();
    title.append(" ");
    title.append(name.as_str());
    assert(title@ =~= title_text(path@, lang, base_path@));
    title
}

/// Puts the line `title` and one blank line before `content`.
pub fn insert_title(content: &str, title: &str) -> (r: String)
    ensures
        r@ == with_title(content@, title@),
{
    proof {
        reveal_strlit("\n\n");
    }
    let mut r = title.to_owned();
    r.append("\n\n");
    r.append(content);
    assert(r@ =~= with_title(content@, title@));
    r
}

/// Returns the new content of the file at `path`, with its title inserted,
/// or `None` where `content` has a title already and is to be left alone.
pub fn ensure_title(content: &str, path: &str, lang: Language, base_path: &str) -> (r: Option<
    String,
>)
    ensures
        text_of(r) == title_insertion(content@, path@, lang, base_path@),
        r is None <==> has_title_text(content@, lang),
{
    if has_title(content, lang) {
        None
    } else {
        let title = generate_title(path, lang, base_path);
        Some(insert_title(content, title.as_str()))
    }
}

/// Runs the title step over `files` for the language that `lang` names,
/// with paths seen from `base_path`. The result has one entry for each file,
/// in order: the content to write back, or `None` where nothing is to be
/// written, because the file is no source file of the language or has a
/// title already.
pub fn add_titles(lang: &str, files: &Vec<SourceFile>, base_path: &str) -> (r: Result<
    Vec<Option<String>>,
    UnsupportedLanguage,
>)
    ensures
        match r {
            Ok(outcomes) => {
                &&& resolve_text(lang@) matches Some(language)
                &&& outcomes.len() == files.len()
                &&& forall|i: int|
                    0 <= i < files.len() ==> text_of(#[trigger] outcomes[i]) == title_outcome(
                        files[i],
                        language,
                        base_path@,
                    )
                &&& forall|i: int|
                    0 <= i < files.len() && has_title_text(files[i].content@, language)
                        ==> #[trigger] outcomes[i] is None
            },
            Err(e) => resolve_text(lang@) is None && e.identifier@ == lang@,
        },
{
    let language = match Language::resolve(lang) {
        Ok(language) => language,
        Err(e) => {
            return Err(e);
        },
    };
    let mut outcomes: Vec<Option<String>> = Vec::new();
    let mut i: usize = 0;
    while i < files.len()
        invariant
            i <= files.len(),
            outcomes.len() == i,
            forall|k: int|
                0 <= k < i ==> text_of(#[trigger] outcomes[k]) == title_outcome(
                    files[k],
                    language,
                    base_path@,
                ),
        decreases files.len() - i,
    {
        let file = &files[i];
        let outcome = if is_source(file.path.as_str(), language) {
            ensure_title(file.content.as_str(), file.path.as_str(), language, base_path)
        } else {
            None
        };
        outcomes.push(outcome);
        i += 1;
    }
    Ok(outcomes)
}

/// A line holds a dotted name at or behind an index exactly if, behind that
/// index, a dot joins two words.
pub proof fn lemma_dotted_name_by_its_dot(line: Seq<char>, from: int)
    requires
        0 <= from,
    ensures
        names_dotted_word(line, from) <==> exists|start: int, end: int|
            from <= start && #[trigger] is_dotted_name(line, start, end),
{
    if names_dotted_word(line, from) {
        let dot = choose|dot: int| from < dot && joins_words(line, dot);
        assert(is_dotted_name(line, dot - 1, dot + 2)) by {
            assert(line[dot] == '.');
        }
    }
    if exists|start: int, end: int| from <= start && #[trigger] is_dotted_name(line, start, end) {
        let (start, end) = choose|start: int, end: int|
            from <= start && #[trigger] is_dotted_name(line, start, end);
        let dot = choose|k: int| start <= k < end && #[trigger] line[k] == '.';
        assert(is_word_char(line[dot - 1]) || line[dot - 1] == '.');
        assert(is_word_char(line[dot + 1]) || line[dot + 1] == '.');
        assert(joins_words(line, dot));
    }
}

/// What stands behind a newline plays no part in the first line: the first
/// line of `head`, a newline and `tail` is the first line of `head`.
pub proof fn lemma_first_line_of_head(head: Seq<char>, tail: Seq<char>)
    ensures
        first_line(head + seq!['\n'] + tail) == first_line(head),
{
    let text = head + seq!['\n'] + tail;
    text.index_of_first_ensures('\n');
    head.index_of_first_ensures('\n');
    assert(text[head.len() as int] == '\n');
    assert forall|k: int| 0 <= k < head.len() implies text[k] == head[k] by {}
    match head.index_of_first('\n') {
        Some(end) => {
            assert(text[end] == '\n');
            assert(text.index_of_first('\n') == Some(end));
            assert(text.take(end) =~= head.take(end));
        },
        None => {
            assert forall|k: int| 0 <= k < head.len() implies text[k] != '\n' by {
                assert(head.contains(head[k]));
            }
            assert(text.index_of_first('\n') == Some(head.len() as int));
            assert(text.take(head.len() as int) =~= head);
        },
    }
}

/// Whether a content has a title is decided on its first line: what
/// follows that line can neither give it a title nor take it away.
pub proof fn lemma_title_on_first_line(content: Seq<char>, lang: Language)
    ensures
        has_title_text(content, lang) == has_title_text(first_line(content), lang),
{
    content.index_of_first_ensures('\n');
    match content.index_of_first('\n') {
        Some(end) => {
            assert(content =~= content.take(end) + seq!['\n'] + content.skip(end + 1));
            lemma_first_line_of_head(content.take(end), content.skip(end + 1));
        },
        None => {},
    }
}

/// A text without a newline, put before another, goes before that one's
/// first line.
pub proof fn lemma_first_line_behind_prefix(prefix: Seq<char>, text: Seq<char>)
    requires
        !prefix.contains('\n'),
    ensures
        first_line(prefix + text) == prefix + first_line(text),
{
    let whole = prefix + text;
    let n: int = prefix.len() as int;
    whole.index_of_first_ensures('\n');
    text.index_of_first_ensures('\n');
    assert forall|k: int| 0 <= k < n implies whole[k] != '\n' by {
        assert(prefix.contains(prefix[k]));
    }
    assert forall|k: int| 0 <= k < text.len() implies text[k] == whole[n + k] by {}
    match text.index_of_first('\n') {
        Some(end) => {
            assert(whole[n + end] == '\n');
            assert forall|k: int| 0 <= k < n + end implies whole[k] != '\n' by {
                if k >= n {
                    assert(text[k - n] != '\n');
                }
            }
            assert(whole.index_of_first('\n') == Some(n + end));
            assert(whole.take(n + end) =~= prefix + text.take(end));
        },
        None => {
            assert forall|k: int| 0 <= k < whole.len() implies whole[k] != '\n' by {
                if k >= n {
                    assert(text.contains(text[k - n]));
                }
            }
            assert(whole.index_of_first('\n') is None);
        },
    }
}

/// Whether an inserted title is seen depends on the title line alone: the
/// content behind it plays no part.
pub proof fn lemma_inserted_title_seen(content: Seq<char>, title: Seq<char>, lang: Language)
    ensures
        has_title_text(with_title(content, title), lang) == has_title_text(title, lang),
{
    lemma_first_line_of_head(title, seq!['\n'] + content);
    assert(with_title(content, title) =~= title + seq!['\n'] + (seq!['\n'] + content));
}

/// A derived title is seen as a title exactly if, before any newline of the
/// path, the name it gives the file holds a dotted name: the file lies in a
/// directory below the base, or its own name has a dot between two words.
pub proof fn lemma_derived_title_seen(path: Seq<char>, lang: Language, base: Seq<char>)
    ensures
        has_title_text(title_text(path, lang, base), lang) <==> names_dotted_word(
            first_line(title_name(path, base)),
            0,
        ),
{
    let symbol = lang.comment_text();
    let opening = symbol + seq![' '];
    let name = first_line(title_name(path, base));
    let line = opening + name;
    let shift: int = opening.len() as int;
    assert(!opening.contains('\n'));
    lemma_first_line_behind_prefix(opening, title_name(path, base));
    assert(first_line(title_text(path, lang, base)) == line);
    assert(symbol =~= line.subrange(0, symbol.len() as int));
    assert(!is_word_char(line[symbol.len() as int]));
    assert forall|k: int| 0 <= k < name.len() implies name[k] == line[shift + k] by {}
    if names_dotted_word(name, 0) {
        let dot = choose|dot: int| 0 < dot && joins_words(name, dot);
        assert(joins_words(line, shift + dot));
    }
    if names_dotted_word(line, symbol.len() as int) {
        let dot = choose|dot: int| symbol.len() < dot && joins_words(line, dot);
        assert(joins_words(name, dot - shift));
    }
}

/// Ensuring a title twice gives what ensuring it once gives, wherever the
/// first run leaves a title behind: the content had one, or the derived title
/// is seen as one.
pub proof fn lemma_ensure_title_idempotent(
    content: Seq<char>,
    path: Seq<char>,
    lang: Language,
    base: Seq<char>,
)
    requires
        has_title_text(content, lang) || has_title_text(title_text(path, lang, base), lang),
    ensures
        has_title_text(titled_text(content, path, lang, base), lang),
        titled_text(titled_text(content, path, lang, base), path, lang, base) == titled_text(
            content,
            path,
            lang,
            base,
        ),
{
    lemma_inserted_title_seen(content, title_text(path, lang, base), lang);
}

/// Where neither the content has a title nor the derived title is seen as
/// one, a second run inserts the title a second time.
pub proof fn lemma_unseen_title_is_repeated(
    content: Seq<char>,
    path: Seq<char>,
    lang: Language,
    base: Seq<char>,
)
    requires
        !has_title_text(content, lang),
        !has_title_text(title_text(path, lang, base), lang),
    ensures
        titled_text(titled_text(content, path, lang, base), path, lang, base) == with_title(
            with_title(content, title_text(path, lang, base)),
            title_text(path, lang, base),
        ),
{
    lemma_inserted_title_seen(content, title_text(path, lang, base), lang);
}

} // verus!
