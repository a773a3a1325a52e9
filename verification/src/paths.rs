//! File names and directories of paths.

use vstd::prelude::*;

verus! {

/// Whether a component of the path starts at `i`.
pub open spec fn starts_component(path: Seq<char>, i: int) -> bool {
    0 <= i < path.len() && path[i] != '/' && (i == 0 || path[i - 1] == '/')
}

/// Whether a component of the path ends before `i`.
pub open spec fn ends_component(path: Seq<char>, i: int) -> bool {
    i == path.len() || path[i] == '/'
}

/// Whether the component at `i` is one or two dots.
pub open spec fn is_dots(path: Seq<char>, i: int) -> bool {
    &&& path[i] == '.'
    &&& ends_component(path, i + 1) || i + 1 < path.len() && path[i + 1] == '.' && ends_component(
        path,
        i + 2,
    )
}

/// Whether a path reads the same on all systems and as it is written: it has neither backslash nor
/// colon, no empty component but a leading root, no component of one or two dots, and does not end
/// in a slash.
pub open spec fn is_tidy(path: Seq<char>) -> bool {
    &&& path.len() > 0
    &&& path.last() != '/'
    &&& forall|i: int| 0 <= i < path.len() ==> #[trigger] path[i] != '\\' && path[i] != ':'
    &&& forall|i: int| 1 <= i < path.len() && path[i - 1] == '/' ==> #[trigger] path[i] != '/'
    &&& forall|i: int| #[trigger] starts_component(path, i) ==> !is_dots(path, i)
}

/// The place behind the last `c` in `s`, and zero where there is none.
pub open spec fn behind_last(s: Seq<char>, c: char) -> int
    decreases s.len(),
{
    if s.len() == 0 {
        0
    } else if s.last() == c {
        s.len() as int
    } else {
        behind_last(s.drop_last(), c)
    }
}

/// The directory of a tidy path: what stands before its last slash, the root where that is the
/// first character, and nothing where there is none.
pub open spec fn dir_of(path: Seq<char>) -> Seq<char> {
    let k = behind_last(path, '/');
    if k <= 1 {
        path.take(k)
    } else {
        path.take(k - 1)
    }
}

/// The file name of a tidy path: what stands behind its last slash.
pub open spec fn name_of(path: Seq<char>) -> Seq<char> {
    path.skip(behind_last(path, '/'))
}

/// The stem of a file name: what stands before its last dot, and the whole name where there is no
/// dot or only a leading one.
pub open spec fn stem_of(name: Seq<char>) -> Seq<char> {
    let k = behind_last(name, '.');
    if k <= 1 {
        name
    } else {
        name.take(k - 1)
    }
}

/// A text, if there is one.
pub open spec fn text_view(s: Option<String>) -> Option<Seq<char>> {
    match s {
        Some(t) => Some(t@),
        None => None,
    }
}

/// The directory of a path, with `std::path::Path::parent`.
///
/// Believed of it: for a tidy path it is what stands before the last slash. What it makes of other
/// paths differs between systems and is left open.
#[verifier::external_body]
fn parent_text(path: &str) -> (r: Option<String>)
    ensures
        is_tidy(path@) ==> text_view(r) == Some(dir_of(path@)),
{
    std::path::Path::new(path).parent().and_then(|p| p.to_str()).map(|s| s.to_string())
}

/// The stem of the file name of a path, with `std::path::Path::file_stem`.
///
/// Believed of it: for a tidy path it is the file name up to its last dot, and all of it where there
/// is no dot or only a leading one. What it makes of other paths differs between systems and is
/// left open.
#[verifier::external_body]
fn stem_text(path: &str) -> (r: Option<String>)
    ensures
        is_tidy(path@) ==> text_view(r) == Some(stem_of(name_of(path@))),
{
    std::path::Path::new(path).file_stem().and_then(|s| s.to_str()).map(|s| s.to_string())
}

/// The file name of a path, with `std::path::Path::file_name`.
///
/// Believed of it: for a tidy path it is what stands behind the last slash. What it makes of other
/// paths differs between systems and is left open.
#[verifier::external_body]
fn name_text(path: &str) -> (r: Option<String>)
    ensures
        is_tidy(path@) ==> text_view(r) == Some(name_of(path@)),
{
    std::path::Path::new(path).file_name().and_then(|s| s.to_str()).map(|s| s.to_string())
}

/// Whether a text is a single component of a tidy path.
pub open spec fn is_plain_name(name: Seq<char>) -> bool {
    is_tidy(name) && forall|i: int| 0 <= i < name.len() ==> #[trigger] name[i] != '/'
}

/// A file in a directory, with `std::path::Path::join`.
///
/// Believed of it: the name stands behind the directory, parted by a slash or, on systems that
/// write paths so, a backslash. An empty directory adds nothing, and the root already ends in a
/// slash. What it makes of other directories and names is left open.
#[verifier::external_body]
fn join_text(dir: &str, name: &str) -> (r: String)
    ensures
        is_plain_name(name@) && dir@.len() == 0 ==> r@ == name@,
        is_plain_name(name@) && dir@ == seq!['/'] ==> r@ == seq!['/'] + name@,
        is_plain_name(name@) && is_tidy(dir@) ==> r@ == dir@ + seq!['/'] + name@ || r@ == dir@
            + seq!['\\'] + name@,
{
    std::path::Path::new(dir).join(name).to_string_lossy().into_owned()
}

/// A text, and the empty one where there is none.
pub open spec fn or_empty(s: Option<Seq<char>>) -> Seq<char> {
    match s {
        Some(t) => t,
        None => Seq::empty(),
    }
}

/// Whether asking for the directory of a path gave `dir`.
pub closed spec fn has_parent(path: Seq<char>, dir: Option<Seq<char>>) -> bool {
    exists|p: &str, r: Option<String>|
        p@ == path && text_view(r) == dir && #[trigger] call_ensures(parent_text, (p,), r)
}

/// Whether asking for the stem of a path gave `stem`.
pub closed spec fn has_stem(path: Seq<char>, stem: Option<Seq<char>>) -> bool {
    exists|p: &str, r: Option<String>|
        p@ == path && text_view(r) == stem && #[trigger] call_ensures(stem_text, (p,), r)
}

/// Whether asking for the file name of a path gave `name`.
pub closed spec fn has_name(path: Seq<char>, name: Option<Seq<char>>) -> bool {
    exists|p: &str, r: Option<String>|
        p@ == path && text_view(r) == name && #[trigger] call_ensures(name_text, (p,), r)
}

/// Whether joining a directory and a name gave `path`.
pub closed spec fn joins_to(dir: Seq<char>, name: Seq<char>, path: Seq<char>) -> bool {
    exists|d: &str, n: &str, r: String|
        d@ == dir && n@ == name && r@ == path && #[trigger] call_ensures(join_text, (d, n), r)
}

/// Whether this system parts a directory from a name in it by `separator`.
pub open spec fn joins_with(separator: char) -> bool {
    forall|dir: Seq<char>, name: Seq<char>, path: Seq<char>|
        is_plain_name(name) && is_tidy(dir) && #[trigger] joins_to(dir, name, path) ==> path == dir
            + seq![separator] + name
}

/// The directory of a path.
pub(crate) fn find_parent(path: &str) -> (r: Option<String>)
    ensures
        has_parent(path@, text_view(r)),
        is_tidy(path@) ==> text_view(r) == Some(dir_of(path@)),
{
    let ask = parent_text;
    ask(path)
}

/// The stem of the file name of a path.
pub(crate) fn find_stem(path: &str) -> (r: Option<String>)
    ensures
        has_stem(path@, text_view(r)),
        is_tidy(path@) ==> text_view(r) == Some(stem_of(name_of(path@))),
{
    let ask = stem_text;
    ask(path)
}

/// The file name of a path.
fn find_name(path: &str) -> (r: Option<String>)
    ensures
        has_name(path@, text_view(r)),
        is_tidy(path@) ==> text_view(r) == Some(name_of(path@)),
{
    let ask = name_text;
    ask(path)
}

/// A file in a directory.
pub(crate) fn join(dir: &str, name: &str) -> (r: String)
    ensures
        joins_to(dir@, name@, r@),
        is_plain_name(name@) && dir@.len() == 0 ==> r@ == name@,
        is_plain_name(name@) && dir@ == seq!['/'] ==> r@ == seq!['/'] + name@,
        is_plain_name(name@) && is_tidy(dir@) ==> r@ == dir@ + seq!['/'] + name@ || r@ == dir@
            + seq!['\\'] + name@,
{
    let ask = join_text;
    ask(dir, name)
}

/// Whether a text is the name of the file at a path, empty where it has none.
pub open spec fn names(path: Seq<char>, name: Seq<char>) -> bool {
    &&& exists|found: Option<Seq<char>>| #[trigger] has_name(path, found) && name == or_empty(found)
    &&& is_tidy(path) ==> name == name_of(path)
}

/// The file name of a path, empty where it has none.
pub fn name_or_empty(path: &str) -> (r: String)
    ensures
        names(path@, r@),
{
    let found = find_name(path);
    let ghost answer = text_view(found);
    assert(has_name(path@, answer));
    match found {
        Some(name) => name,
        None => {
            let name = String::new();
            assert(name@ =~= or_empty(answer));
            name
        },
    }
}

/// What stands behind the last `c` holds no `c`.
pub proof fn lemma_behind_last(s: Seq<char>, c: char)
    ensures
        0 <= behind_last(s, c) <= s.len(),
        behind_last(s, c) > 0 ==> s[behind_last(s, c) - 1] == c,
        forall|i: int| behind_last(s, c) <= i < s.len() ==> #[trigger] s[i] != c,
    decreases s.len(),
{
    if s.len() > 0 && s.last() != c {
        lemma_behind_last(s.drop_last(), c);
        assert forall|i: int| behind_last(s, c) <= i < s.len() implies #[trigger] s[i] != c by {
            if i < s.len() - 1 {
                assert(s.drop_last()[i] != c);
            }
        }
    }
}

/// A tidy path is its directory and its file name, parted by a slash unless the directory is the
/// root or empty.
pub proof fn path_is_dir_and_name(path: Seq<char>)
    requires
        is_tidy(path),
    ensures
        name_of(path).len() > 0,
        path == (if dir_of(path).len() == 0 || dir_of(path) == seq!['/'] {
            dir_of(path) + name_of(path)
        } else {
            dir_of(path) + seq!['/'] + name_of(path)
        }),
{
    let k = behind_last(path, '/');
    lemma_behind_last(path, '/');
    if k <= 1 {
        assert(path =~= dir_of(path) + name_of(path));
        if k == 1 {
            assert(path.take(1) =~= seq!['/']);
        }
    } else {
        assert(path =~= dir_of(path) + seq!['/'] + name_of(path));
        if dir_of(path) == seq!['/'] {
            assert(path.take(k - 1)[0] == '/');
            assert(path[0] == '/' && path[1] == '/');
        }
    }
}

/// What is found of a tidy path is what is written in it.
pub proof fn tidy_paths_are_read_as_written(
    path: Seq<char>,
    dir: Option<Seq<char>>,
    stem: Option<Seq<char>>,
    name: Option<Seq<char>>,
)
    requires
        is_tidy(path),
    ensures
        has_parent(path, dir) ==> dir == Some(dir_of(path)),
        has_stem(path, stem) ==> stem == Some(stem_of(name_of(path))),
        has_name(path, name) ==> name == Some(name_of(path)),
{
}

} // verus!
