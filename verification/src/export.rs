//! The export stream: the source files of one language, one after the
//! other, each behind a header that names it.

use crate::language::{resolve_text, Language, UnsupportedLanguage};
use crate::source::{is_source, is_source_text, SourceFile};
use vstd::prelude::*;

verus! {

/// The rule of a separator line: 60 times `=`.
pub open spec fn rule_text() -> Seq<char> {
    Seq::new(60, |i: int| '=')
}

/// A separator line of `lang`: comment symbol, one space, rule.
pub open spec fn separator_text(lang: Language) -> Seq<char> {
    lang.comment_text() + seq![' '] + rule_text()
}

/// The header of the file at `path`: a separator line, the line that names
/// the file, and the separator line again. No newline ends it.
pub open spec fn header_text(path: Seq<char>, lang: Language) -> Seq<char> {
    separator_text(lang) + seq!['\n'] + lang.comment_text() + seq![' ', 'F', 'i', 'l', 'e', ':', ' ']
        + path + seq!['\n'] + separator_text(lang)
}

/// What one file adds to the stream: its header and a newline, its content
/// as it is and a newline, and one empty line.
pub open spec fn block_text(path: Seq<char>, content: Seq<char>, lang: Language) -> Seq<char> {
    header_text(path, lang) + seq!['\n'] + content + seq!['\n'] + seq!['\n']
}

/// The stream that `files` give in `lang`: the blocks of those that are
/// source files of `lang`, in the order of `files`.
pub open spec fn stream_text(files: Seq<SourceFile>, lang: Language) -> Seq<char>
    decreases files.len(),
{
    if files.len() == 0 {
        Seq::empty()
    } else {
        let before = stream_text(files.drop_last(), lang);
        let file = files.last();
        if is_source_text(file.path@, lang) {
            before + block_text(file.path@, file.content@, lang)
        } else {
            before
        }
    }
}

/// A separator line of `lang`.
fn separator(lang: Language) -> (r: String)
    ensures
        r@ == separator_text(lang),
{
    proof {
        reveal_strlit(" ");
        reveal_strlit("============================================================");
    }
    let mut r = lang.comment_symbol().to_owned();
    r.append(" ");
    r.append("============================================================");
    assert(r@ =~= separator_text(lang));
    r
}

/// Generates the header that goes before the file at `file_path`.
pub fn generate_file_header(file_path: &str, lang: Language) -> (header: String)
    ensures
        header@ == header_text(file_path@, lang),
{
    proof {
        reveal_strlit("\n");
        reveal_strlit(" File: ");
    }
    let line = separator(lang);
    let mut header = separator(lang);
    header.append("\n");
    header.append(lang.comment_symbol());
    header.append(" File: ");
    header.append(file_path);
    header.append("\n");
    header.append(line.as_str());
    assert(header@ =~= header_text(file_path@, lang));
    header
}

/// Appends the block of one file to `output`: header, content, empty line.
pub fn append_file_to_output(output: &mut String, file_path: &str, content: &str, lang: Language)
    ensures
        final(output)@ == old(output)@ + block_text(file_path@, content@, lang),
{
    proof {
        reveal_strlit("\n");
    }
    let header = generate_file_header(file_path, lang);
    output.append(header.as_str());
    output.append("\n");
    output.append(content);
    output.append("\n");
    output.append("\n");
    assert(output@ =~= old(output)@ + block_text(file_path@, content@, lang));
}

/// Exports the source files of the language that `lang` names. Files of
/// `files` that are no source files of it are passed over; the others go
/// into the stream in the order in which they stand.
pub fn export_files(lang: &str, files: &Vec<SourceFile>) -> (r: Result<
    String,
    UnsupportedLanguage,
>)
    ensures
        match r {
            Ok(stream) => {
                &&& resolve_text(lang@) matches Some(language)
                &&& stream@ == stream_text(files@, language)
                &&& (forall|i: int|
                    0 <= i < files.len() ==> !is_source_text(#[trigger] files[i].path@, language))
                    ==> stream@.len() == 0
            },
            Err(e) => resolve_text(lang@) is None && e.identifier@ == lang@,
        },
{
    let language = match Language::resolve(lang) {
        Ok(language) => language,
        Err(e) => {
            return Err(e);
        },
    };
    let mut stream = String::new();
    let mut i: usize = 0;
    while i < files.len()
        invariant
            i <= files.len(),
            stream@ == stream_text(files@.take(i as int), language),
        decreases files.len() - i,
    {
        let file = &files[i];
        proof {
            assert(files@.take(i + 1).drop_last() =~= files@.take(i as int));
            assert(files@.take(i + 1).last() == files@[i as int]);
        }
        if is_source(file.path.as_str(), language) {
            append_file_to_output(&mut stream, file.path.as_str(), file.content.as_str(), language);
        }
        i += 1;
    }
    proof {
        assert(files@.take(files.len() as int) =~= files@);
        if forall|i: int|
            0 <= i < files.len() ==> !is_source_text(#[trigger] files[i].path@, language) {
            lemma_stream_of_no_sources(files@, language);
        }
    }
    Ok(stream)
}

/// Files in a row give their streams in a row: the stream keeps the order
/// of the files.
pub proof fn lemma_stream_in_order(first: Seq<SourceFile>, second: Seq<SourceFile>, lang: Language)
    ensures
        stream_text(first + second, lang) == stream_text(first, lang) + stream_text(second, lang),
    decreases second.len(),
{
    if second.len() == 0 {
        assert(first + second =~= first);
        assert(stream_text(first, lang) + stream_text(second, lang) =~= stream_text(first, lang));
    } else {
        let all = first + second;
        assert(all.drop_last() =~= first + second.drop_last());
        assert(all.last() == second.last());
        lemma_stream_in_order(first, second.drop_last(), lang);
        let before = stream_text(second.drop_last(), lang);
        let block = block_text(second.last().path@, second.last().content@, lang);
        assert(stream_text(first, lang) + (before + block) =~= (stream_text(first, lang) + before)
            + block);
    }
}

/// Where no file is a source file of the language, the stream is empty.
pub proof fn lemma_stream_of_no_sources(files: Seq<SourceFile>, lang: Language)
    requires
        forall|i: int| 0 <= i < files.len() ==> !is_source_text(#[trigger] files[i].path@, lang),
    ensures
        stream_text(files, lang) == Seq::<char>::empty(),
    decreases files.len(),
{
    if files.len() > 0 {
        let front = files.drop_last();
        assert forall|i: int| 0 <= i < front.len() implies !is_source_text(
            #[trigger] front[i].path@,
            lang,
        ) by {
            assert(front[i] == files[i]);
        }
        lemma_stream_of_no_sources(front, lang);
        assert(!is_source_text(files[files.len() - 1].path@, lang));
    }
}

/// A single source file gives its block, and a file that is none gives
/// nothing.
pub proof fn lemma_stream_of_one(file: SourceFile, lang: Language)
    ensures
        stream_text(seq![file], lang) == if is_source_text(file.path@, lang) {
            block_text(file.path@, file.content@, lang)
        } else {
            Seq::<char>::empty()
        },
{
    let files = seq![file];
    assert(files.drop_last() =~= Seq::<SourceFile>::empty());
    assert(files.last() == file);
    assert(stream_text(files.drop_last(), lang) == Seq::<char>::empty());
    assert(Seq::<char>::empty() + block_text(file.path@, file.content@, lang) =~= block_text(
        file.path@,
        file.content@,
        lang,
    ));
}

} // verus!
