//! Paths as text. A path is a sequence of characters in which `/` and `\`
//! separate the components, on every platform alike; nothing here asks the
//! file system, and no component is rewritten: `.`, `..` and repeated
//! separators stay as they are written.

use crate::text::{chars_to_string, opens_with, to_chars};
use vstd::prelude::*;

verus! {

/// Whether `c` separates the components of a path.
pub open spec fn is_separator(c: char) -> bool {
    c == '/' || c == '\\'
}

/// The first index at or after `from` at which `path` holds no separator;
/// the length of `path` if there is none.
pub open spec fn skip_separators(path: Seq<char>, from: int) -> int
    decreases path.len() - from,
{
    if 0 <= from < path.len() && is_separator(path[from]) {
        skip_separators(path, from + 1)
    } else {
        from
    }
}

/// Whether `path` lies under the directory `base`: it goes on after `base`,
/// and a separator stands between the two.
pub open spec fn is_under(path: Seq<char>, base: Seq<char>) -> bool {
    &&& 0 < base.len() < path.len()
    &&& base.is_prefix_of(path)
    &&& (is_separator(base.last()) || is_separator(path[base.len() as int]))
}

/// Where in `path` the part relative to `base` begins: behind `base` and the
/// separators that follow it, or at 0 where `path` is not under `base`.
pub open spec fn relative_start(path: Seq<char>, base: Seq<char>) -> int {
    if is_under(path, base) {
        skip_separators(path, base.len() as int)
    } else {
        0
    }
}

/// `path` relative to `base`; `path` itself where it is not under `base`.
pub open spec fn relative_text(path: Seq<char>, base: Seq<char>) -> Seq<char> {
    path.skip(relative_start(path, base))
}

/// Where the last component of `path` begins: behind the last separator, or
/// at 0 where there is none.
pub open spec fn name_start(path: Seq<char>) -> int
    decreases path.len(),
{
    if path.len() == 0 {
        0
    } else if is_separator(path.last()) {
        path.len() as int
    } else {
        name_start(path.drop_last())
    }
}

/// The last component of `path`.
pub open spec fn file_name(path: Seq<char>) -> Seq<char> {
    path.skip(name_start(path))
}

/// The index in the file name `name` of the dot that opens its extension.
/// That is its last dot, unless the dot opens the name (a hidden file has no
/// extension) or the name is `..`.
pub open spec fn extension_dot(name: Seq<char>) -> Option<int> {
    match name.index_of_last('.') {
        Some(dot) => if dot > 0 && name != seq!['.', '.'] {
            Some(dot)
        } else {
            None
        },
        None => None,
    }
}

/// The extension of the last component of `path`, without its dot.
pub open spec fn extension_of(path: Seq<char>) -> Option<Seq<char>> {
    let name = file_name(path);
    match extension_dot(name) {
        Some(dot) => Some(name.skip(dot + 1)),
        None => None,
    }
}

/// The length of `path` without the extension of its last component.
pub open spec fn stem_end(path: Seq<char>) -> int {
    match extension_dot(file_name(path)) {
        Some(dot) => name_start(path) + dot,
        None => path.len() as int,
    }
}

/// `path` without the extension of its last component and the dot before
/// it.
pub open spec fn stem_text(path: Seq<char>) -> Seq<char> {
    path.take(stem_end(path))
}

/// `path` with a dot in place of each separator.
pub open spec fn dotted_text(path: Seq<char>) -> Seq<char> {
    path.map_values(|c: char| if is_separator(c) { '.' } else { c })
}

/// [`name_start`] is the one index behind which no separator follows and
/// before which, unless it is 0, a separator stands.
pub proof fn lemma_name_start(path: Seq<char>)
    ensures
        0 <= name_start(path) <= path.len(),
        name_start(path) > 0 ==> is_separator(path[name_start(path) - 1]),
        forall|k: int| name_start(path) <= k < path.len() ==> !is_separator(#[trigger] path[k]),
    decreases path.len(),
{
    if path.len() > 0 && !is_separator(path.last()) {
        let front = path.drop_last();
        lemma_name_start(front);
        assert forall|k: int| name_start(path) <= k < path.len() implies !is_separator(
            #[trigger] path[k],
        ) by {
            if k < front.len() {
                assert(path[k] == front[k]);
            }
        }
    }
}

/// An index with the two properties of [`lemma_name_start`] is
/// [`name_start`].
pub proof fn lemma_name_start_unique(path: Seq<char>, start: int)
    requires
        0 <= start <= path.len(),
        start > 0 ==> is_separator(path[start - 1]),
        forall|k: int| start <= k < path.len() ==> !is_separator(#[trigger] path[k]),
    ensures
        name_start(path) == start,
{
    lemma_name_start(path);
    let n = name_start(path);
    if n < start {
        assert(!is_separator(path[start - 1]));
    } else if start < n {
        assert(!is_separator(path[n - 1]));
    }
}

/// [`skip_separators`] passes separators only, and stops at the first
/// character that is none.
pub proof fn lemma_skip_separators(path: Seq<char>, from: int)
    requires
        0 <= from <= path.len(),
    ensures
        from <= skip_separators(path, from) <= path.len(),
        forall|k: int| from <= k < skip_separators(path, from) ==> is_separator(#[trigger] path[k]),
        skip_separators(path, from) < path.len() ==> !is_separator(
            path[skip_separators(path, from)],
        ),
    decreases path.len() - from,
{
    if from < path.len() && is_separator(path[from]) {
        lemma_skip_separators(path, from + 1);
    }
}

/// The relative part is the end of the path. Of a path under the base it
/// leaves out the base and the separators behind it, so that it opens with
/// no separator; any other path it leaves whole.
pub proof fn lemma_relative_text(path: Seq<char>, base: Seq<char>)
    ensures
        relative_text(path, base).is_suffix_of(path),
        is_under(path, base) ==> relative_text(path, base).len() <= path.len() - base.len(),
        is_under(path, base) && relative_text(path, base).len() > 0 ==> !is_separator(
            relative_text(path, base).first(),
        ),
        !is_under(path, base) ==> relative_text(path, base) == path,
{
    if is_under(path, base) {
        lemma_skip_separators(path, base.len() as int);
    } else {
        assert(path.skip(0) =~= path);
    }
}

/// A path is its stem, a dot and its extension, where it has an extension,
/// and its stem alone where it has none. An extension holds neither a dot
/// nor a separator.
pub proof fn lemma_stem_and_extension(path: Seq<char>)
    ensures
        match extension_of(path) {
            Some(ext) => {
                &&& path == stem_text(path) + seq!['.'] + ext
                &&& forall|k: int| 0 <= k < ext.len() ==> ext[k] != '.' && !is_separator(ext[k])
            },
            None => stem_text(path) == path,
        },
{
    let start = name_start(path);
    let name = file_name(path);
    lemma_name_start(path);
    name.index_of_last_ensures('.');
    match extension_dot(name) {
        Some(dot) => {
            let ext = name.skip(dot + 1);
            assert(path =~= path.take(start + dot) + seq!['.'] + ext);
            assert forall|k: int| 0 <= k < ext.len() implies ext[k] != '.' && !is_separator(
                ext[k],
            ) by {
                assert(ext[k] == name[dot + 1 + k]);
                assert(name[dot + 1 + k] == path[start + dot + 1 + k]);
            }
        },
        None => {
            assert(path.take(path.len() as int) =~= path);
        },
    }
}

/// Whether `c` separates the components of a path.
pub fn separates(c: char) -> (r: bool)
    ensures
        r == is_separator(c),
{
    c == '/' || c == '\\'
}

/// The index at which the part of `path` relative to `base` begins.
fn find_relative_start(path: &Vec<char>, base: &Vec<char>) -> (start: usize)
    ensures
        start == relative_start(path@, base@),
        start <= path.len(),
{
    let n: usize = base.len();
    if n == 0 || n >= path.len() || !opens_with(path, base) {
        return 0;
    }
    if !separates(base[n - 1]) && !separates(path[n]) {
        return 0;
    }
    let mut start: usize = n;
    while start < path.len() && separates(path[start])
        invariant
            n <= start <= path.len(),
            skip_separators(path@, n as int) == skip_separators(path@, start as int),
        decreases path.len() - start,
    {
        start += 1;
    }
    start
}

/// The index at which the last component of `path` begins.
fn find_name_start(path: &Vec<char>) -> (start: usize)
    ensures
        start == name_start(path@),
        start <= path.len(),
{
    let mut start: usize = path.len();
    while start > 0 && !separates(path[start - 1])
        invariant
            start <= path.len(),
            forall|k: int| start <= k < path.len() ==> !is_separator(#[trigger] path@[k]),
        decreases start,
    {
        start -= 1;
    }
    proof {
        lemma_name_start_unique(path@, start as int);
    }
    start
}

/// The index in `path` of the dot that opens the extension of its last
/// component, if it has one.
fn find_extension_dot(path: &Vec<char>) -> (r: Option<usize>)
    ensures
        match r {
            Some(at) => extension_dot(file_name(path@)) == Some(at - name_start(path@)) && at
                < path.len(),
            None => extension_dot(file_name(path@)) is None,
        },
{
    let start: usize = find_name_start(path);
    let ghost name = file_name(path@);
    proof {
        name.index_of_last_ensures('.');
    }
    let mut at: usize = path.len();
    while at > start && path[at - 1] != '.'
        invariant
            start <= at <= path.len(),
            start == name_start(path@),
            name == path@.skip(start as int),
            forall|k: int| at - start <= k < name.len() ==> name[k] != '.',
        decreases at,
    {
        at -= 1;
    }
    if at == start {
        // No dot in the name.
        assert(!name.contains('.'));
        return None;
    }
    let dot: usize = at - 1;
    assert(name[dot - start] == '.');
    assert(name.index_of_last('.') == Some(dot - start));
    if dot == start {
        return None;
    }
    if path.len() - start == 2 && path[start] == '.' {
        assert(name =~= seq!['.', '.']);
        return None;
    }
    assert(name != seq!['.', '.']) by {
        if name == seq!['.', '.'] {
            assert(name.len() == 2);
            assert(name[0] == '.');
        }
    }
    Some(dot)
}

/// Returns `path` relative to `base`. Where `path` is not under `base`, it
/// is returned as it is.
pub fn relative_to(path: &str, base: &str) -> (r: String)
    ensures
        r@ == relative_text(path@, base@),
{
    let p = to_chars(path);
    let b = to_chars(base);
    let start: usize = find_relative_start(&p, &b);
    chars_to_string(&p, start, p.len())
}

/// Returns the extension of the last component of `path`, without its dot.
pub fn extension(path: &str) -> (r: Option<String>)
    ensures
        match r {
            Some(e) => extension_of(path@) == Some(e@),
            None => extension_of(path@) is None,
        },
{
    let p = to_chars(path);
    match find_extension_dot(&p) {
        Some(at) => {
            let e = chars_to_string(&p, at + 1, p.len());
            proof {
                let start = name_start(p@);
                lemma_name_start(p@);
                assert(e@ =~= file_name(p@).skip(at - start + 1));
            }
            Some(e)
        },
        None => None,
    }
}

/// Returns `path` without the extension of its last component.
pub fn without_extension(path: &str) -> (r: String)
    ensures
        r@ == stem_text(path@),
{
    let p = to_chars(path);
    let end: usize = match find_extension_dot(&p) {
        Some(at) => at,
        None => p.len(),
    };
    chars_to_string(&p, 0, end)
}

/// Returns `path` with a dot in place of each separator.
pub fn dotted(path: &str) -> (r: String)
    ensures
        r@ == dotted_text(path@),
{
    broadcast use vstd::string::group_string_axioms;
    let mut r = String::new();
    for c in it: path.chars()
        invariant
            it.seq() == path@,
            r@ == dotted_text(path@.take(it.index())),
    {
        proof {
            let i = it.index();
            assert(path@.take(i + 1) =~= path@.take(i).push(c));
            assert(dotted_text(path@.take(i + 1)) =~= dotted_text(path@.take(i)).push(
                if is_separator(c) { '.' } else { c },
            ));
        }
        crate::text::push_char(&mut r, if separates(c) { '.' } else { c });
    }
    assert(path@.take(path@.len() as int) =~= path@);
    r
}

} // verus!
