//! Paths as text: components are separated by `/`.
//!
//! The file name of a path is what follows its last `/`; the extension is
//! what follows the last `.` of the file name, unless that `.` opens it.

use vstd::prelude::*;
use vstd::string::*;
use crate::text::to_chars;

verus! {

/// The last position of `c` in `s`, or -1 where `s` does not hold `c`.
pub open spec fn last_index_of(s: Seq<char>, c: char) -> int
    decreases s.len(),
{
    if s.len() == 0 {
        -1
    } else if s.last() == c {
        s.len() - 1
    } else {
        last_index_of(s.drop_last(), c)
    }
}

/// What follows the last `/` of `path`: all of it where it holds none.
pub open spec fn file_name(path: Seq<char>) -> Seq<char> {
    path.subrange(last_index_of(path, '/') + 1, path.len() as int)
}

/// What follows the last `.` of the file name, where the name holds one
/// that is not its first character.
pub open spec fn extension(path: Seq<char>) -> Option<Seq<char>> {
    let name = file_name(path);
    let dot = last_index_of(name, '.');
    if dot <= 0 {
        None
    } else {
        Some(name.subrange(dot + 1, name.len() as int))
    }
}

/// `rel` resolved against the directory `base`: a `rel` that starts with
/// `/` stands for itself; otherwise it is appended, after a `/` where
/// `base` is not empty and does not end in one.
pub open spec fn join(base: Seq<char>, rel: Seq<char>) -> Seq<char> {
    if rel.len() > 0 && rel[0] == '/' {
        rel
    } else if base.len() > 0 && base.last() != '/' {
        base + seq!['/'] + rel
    } else {
        base + rel
    }
}

/// The extension `html`.
pub open spec fn html_extension() -> Seq<char> {
    seq!['h', 't', 'm', 'l']
}

/// The extension `md`.
pub open spec fn markdown_extension() -> Seq<char> {
    seq!['m', 'd']
}

/// Whether `path` names a Markdown file.
pub open spec fn is_markdown(path: Seq<char>) -> bool {
    extension(path) == Some(markdown_extension())
}

/// Whether `path` names a file that can be inserted into a page.
pub open spec fn is_template(path: Seq<char>) -> bool {
    extension(path) == Some(html_extension()) || is_markdown(path)
}

/// `last_index_of` gives a position of `c` after which `c` does not occur.
pub proof fn lemma_last_index_of(s: Seq<char>, c: char)
    ensures
        -1 <= last_index_of(s, c) < s.len(),
        last_index_of(s, c) >= 0 ==> s[last_index_of(s, c)] == c,
        forall|j: int| last_index_of(s, c) < j < s.len() ==> s[j] != c,
    decreases s.len(),
{
    if s.len() > 0 && s.last() != c {
        let t = s.drop_last();
        lemma_last_index_of(t, c);
        assert forall|j: int| last_index_of(s, c) < j < s.len() implies s[j] != c by {
            if j < t.len() {
                assert(t[j] == s[j]);
            }
        }
    }
}

/// A position of `c` after which `c` does not occur is the last one.
pub proof fn lemma_last_index_is(s: Seq<char>, c: char, i: int)
    requires
        -1 <= i < s.len(),
        i >= 0 ==> s[i] == c,
        forall|j: int| i < j < s.len() ==> s[j] != c,
    ensures
        last_index_of(s, c) == i,
{
    lemma_last_index_of(s, c);
}

/// Where `front` is empty or ends in `/`, what follows the last `/` of
/// `front + rest` is what follows the last `/` of `rest`.
proof fn lemma_file_name_after(front: Seq<char>, rest: Seq<char>)
    requires
        front.len() == 0 || front.last() == '/',
    ensures
        file_name(front + rest) == file_name(rest),
{
    let whole = front + rest;
    let cut = last_index_of(rest, '/');
    lemma_last_index_of(rest, '/');
    if cut >= 0 {
        assert(whole[front.len() + cut] == rest[cut]);
        assert forall|j: int| front.len() + cut < j < whole.len() implies whole[j] != '/' by {
            assert(whole[j] == rest[j - front.len()]);
        }
        lemma_last_index_is(whole, '/', front.len() + cut);
        assert(file_name(whole) =~= file_name(rest));
    } else if front.len() > 0 {
        assert(whole[front.len() - 1] == front.last());
        assert forall|j: int| front.len() - 1 < j < whole.len() implies whole[j] != '/' by {
            assert(whole[j] == rest[j - front.len()]);
        }
        lemma_last_index_is(whole, '/', front.len() - 1);
        assert(file_name(whole) =~= file_name(rest));
    } else {
        assert(whole =~= rest);
    }
}

/// A path that is resolved against a directory keeps its file name, and
/// with it its extension: the file type of a target is the file type of
/// the file it stands for.
pub proof fn lemma_join_keeps_file_name(base: Seq<char>, rel: Seq<char>)
    ensures
        file_name(join(base, rel)) == file_name(rel),
        extension(join(base, rel)) == extension(rel),
        is_markdown(join(base, rel)) == is_markdown(rel),
        is_template(join(base, rel)) == is_template(rel),
{
    if rel.len() > 0 && rel[0] == '/' {
    } else if base.len() > 0 && base.last() != '/' {
        let front = base + seq!['/'];
        assert(front.last() == '/');
        lemma_file_name_after(front, rel);
    } else {
        lemma_file_name_after(base, rel);
    }
}

/// The last position of `c` in `text[from..end]`, if there is one.
fn last_index(text: &Vec<char>, from: usize, end: usize, c: char) -> (r: Option<usize>)
    requires
        from <= end <= text.len(),
    ensures
        match r {
            Some(i) => from <= i < end && last_index_of(
                text@.subrange(from as int, end as int),
                c,
            ) == i - from,
            None => last_index_of(text@.subrange(from as int, end as int), c) == -1,
        },
{
    let ghost s = text@.subrange(from as int, end as int);
    let mut i: usize = end;
    while i > from
        invariant
            from <= i <= end <= text.len(),
            s == text@.subrange(from as int, end as int),
            forall|j: int| i - from <= j < s.len() ==> s[j] != c,
        decreases i,
    {
        i -= 1;
        if text[i] == c {
            proof {
                lemma_last_index_is(s, c, i - from);
            }
            return Some(i);
        }
    }
    proof {
        lemma_last_index_is(s, c, -1);
    }
    None
}

/// Where the file name of `path` starts.
fn name_start(path: &Vec<char>) -> (start: usize)
    ensures
        start <= path.len(),
        start == last_index_of(path@, '/') + 1,
{
    assert(path@.subrange(0, path.len() as int) =~= path@);
    match last_index(path, 0, path.len(), '/') {
        Some(i) => i + 1,
        None => 0,
    }
}

/// Where the extension of `path` starts, if it has one.
fn extension_start(path: &Vec<char>) -> (r: Option<usize>)
    ensures
        match r {
            Some(e) => e <= path.len() && extension(path@) == Some(
                path@.subrange(e as int, path.len() as int),
            ),
            None => extension(path@) is None,
        },
{
    let start = name_start(path);
    let ghost name = file_name(path@);
    match last_index(path, start, path.len(), '.') {
        Some(dot) => {
            if dot == start {
                None
            } else {
                assert(name.subrange(dot - start + 1, name.len() as int) =~= path@.subrange(
                    dot + 1,
                    path.len() as int,
                ));
                Some(dot + 1)
            }
        },
        None => None,
    }
}

/// The file name of `path`.
pub fn file_name_of(path: &str) -> (name: String)
    ensures
        name@ == file_name(path@),
{
    let chars = to_chars(path);
    let start = name_start(&chars);
    path.substring_char(start, chars.len()).to_owned()
}

/// The extension of `path`, if it has one.
pub fn extension_of(path: &str) -> (ext: Option<String>)
    ensures
        match ext {
            Some(e) => extension(path@) == Some(e@),
            None => extension(path@) is None,
        },
{
    let chars = to_chars(path);
    match extension_start(&chars) {
        Some(e) => Some(path.substring_char(e, chars.len()).to_owned()),
        None => None,
    }
}

/// Whether the extension of `path` is `ext`.
fn has_extension(path: &Vec<char>, ext: &Vec<char>) -> (r: bool)
    ensures
        r == (extension(path@) == Some(ext@)),
{
    match extension_start(path) {
        Some(e) => {
            if path.len() - e == ext.len() {
                crate::text::matches_at(path, ext, e)
            } else {
                false
            }
        },
        None => false,
    }
}

/// Whether `path` names a Markdown file.
pub fn is_markdown_path(path: &str) -> (r: bool)
    ensures
        r == is_markdown(path@),
{
    let chars = to_chars(path);
    let md: Vec<char> = vec!['m', 'd'];
    assert(md@ =~= markdown_extension());
    has_extension(&chars, &md)
}

/// Whether `path` names a file that can be inserted into a page.
pub fn is_template_path(path: &str) -> (r: bool)
    ensures
        r == is_template(path@),
{
    let chars = to_chars(path);
    let html: Vec<char> = vec!['h', 't', 'm', 'l'];
    let md: Vec<char> = vec!['m', 'd'];
    assert(html@ =~= html_extension());
    assert(md@ =~= markdown_extension());
    has_extension(&chars, &html) || has_extension(&chars, &md)
}

/// `rel` resolved against the directory `base`.
pub fn join_path(base: &str, rel: &str) -> (joined: String)
    ensures
        joined@ == join(base@, rel@),
{
    let b = to_chars(base);
    let r = to_chars(rel);
    if r.len() > 0 && r[0] == '/' {
        rel.to_owned()
    } else if b.len() > 0 && b[b.len() - 1] != '/' {
        let mut joined = base.to_owned();
        proof {
            reveal_strlit("/");
            assert("/"@ =~= seq!['/']);
        }
        joined.append("/");
        joined.append(rel);
        joined
    } else {
        let mut joined = base.to_owned();
        joined.append(rel);
        joined
    }
}

} // verus!
