//! File names and extensions of `/`-separated paths.
//!
//! A path is read as a run of components with `/` between them. Nothing is
//! asked of the file system.
use vstd::prelude::*;
use crate::text::{chars_of, last_index_of, lemma_last_index_of, string_of};

verus! {

/// The last component of a `/`-separated path, as far as it names a file.
/// Separators at the end and `.` components are passed over; a path that
/// ends in `..`, or in which no component is left, names no file.
pub open spec fn file_name(path: Seq<char>) -> Option<Seq<char>>
    decreases path.len(),
{
    if path.len() == 0 {
        None
    } else if path.last() == '/' {
        file_name(path.drop_last())
    } else {
        let start = last_index_of(path, '/') + 1;
        let last = path.skip(start);
        if last == seq!['.'] {
            if 0 < start < path.len() {
                file_name(path.take(start - 1))
            } else {
                None
            }
        } else if last == seq!['.', '.'] {
            None
        } else {
            Some(last)
        }
    }
}

/// What follows the last `.` of a file name. A name without a `.`, or with
/// its only `.` in front, has the empty extension.
pub open spec fn extension(name: Seq<char>) -> Seq<char> {
    let dot = last_index_of(name, '.');
    if dot <= 0 {
        Seq::empty()
    } else {
        name.skip(dot + 1)
    }
}

/// The lower-case form of an ASCII capital; any other character is itself.
pub open spec fn ascii_lower(c: char) -> char {
    if 'A' <= c <= 'Z' {
        ((c as u8) + 32) as char
    } else {
        c
    }
}

/// `s` with each ASCII capital in lower case.
pub open spec fn lowered(s: Seq<char>) -> Seq<char> {
    s.map_values(|c: char| ascii_lower(c))
}

/// Whether a lower-cased extension is one of the two that are accepted.
pub open spec fn is_jpeg(ext: Seq<char>) -> bool {
    ext == seq!['j', 'p', 'g'] || ext == seq!['j', 'p', 'e', 'g']
}

/// Where the component that ends before `end` begins: just behind the last
/// `c` in front of `end`, or at the start.
fn start_after_last(chars: &Vec<char>, end: usize, c: char) -> (start: usize)
    requires
        end <= chars.len(),
    ensures
        start == last_index_of(chars@.take(end as int), c) + 1,
        start <= end,
{
    let mut i: usize = end;
    while i > 0 && chars[i - 1] != c
        invariant
            i <= end <= chars.len(),
            last_index_of(chars@.take(end as int), c) == last_index_of(chars@.take(i as int), c),
        decreases i,
    {
        assert(chars@.take(i as int).drop_last() == chars@.take(i - 1));
        i -= 1;
    }
    proof {
        start_after_last_done(chars@.take(i as int), c);
    }
    i
}

/// In a text that is empty or ends in `c`, what follows the last `c` starts
/// at its end.
proof fn start_after_last_done(s: Seq<char>, c: char)
    requires
        s.len() == 0 || s.last() == c,
    ensures
        last_index_of(s, c) + 1 == s.len(),
{
}

/// The range of `chars` that holds the file name of the path.
fn file_name_range(chars: &Vec<char>) -> (range: Option<(usize, usize)>)
    ensures
        match range {
            Some((from, to)) => from < to <= chars.len() && file_name(chars@) == Some(
                chars@.subrange(from as int, to as int),
            ),
            None => file_name(chars@) is None,
        },
{
    let mut end: usize = chars.len();
    assert(chars@.take(end as int) == chars@);
    while end > 0
        invariant
            end <= chars.len(),
            file_name(chars@) == file_name(chars@.take(end as int)),
        decreases end,
    {
        let ghost path = chars@.take(end as int);
        if chars[end - 1] == '/' {
            assert(path.drop_last() == chars@.take(end - 1));
            end -= 1;
        } else {
            let start = start_after_last(chars, end, '/');
            proof {
                lemma_last_index_of(path, '/');
            }
            let len = end - start;
            if len == 1 && chars[start] == '.' {
                assert(path.skip(start as int) == seq!['.']);
                if start == 0 {
                    return None;
                }
                assert(path.take(start - 1) == chars@.take(start - 1));
                end = start - 1;
            } else if len == 2 && chars[start] == '.' && chars[start + 1] == '.' {
                assert(path.skip(start as int) == seq!['.', '.']);
                return None;
            } else {
                proof {
                    let last = path.skip(start as int);
                    assert(last == chars@.subrange(start as int, end as int));
                    assert(last == seq!['.'] ==> last.len() == 1 && last[0] == '.');
                    assert(last == seq!['.', '.'] ==> last.len() == 2 && last[0] == '.' && last[1]
                        == '.');
                }
                return Some((start, end));
            }
        }
    }
    None
}

/// The file name that a path ends in, if it ends in one.
pub fn file_name_of(path: &str) -> (name: Option<String>)
    ensures
        match name {
            Some(name) => file_name(path@) == Some(name@),
            None => file_name(path@) is None,
        },
{
    let chars = chars_of(path);
    match file_name_range(&chars) {
        Some((from, to)) => Some(string_of(&chars, from, to)),
        None => None,
    }
}

/// The lower-case form of an ASCII capital; any other character is itself.
fn to_ascii_lower(c: char) -> (l: char)
    ensures
        l == ascii_lower(c),
{
    if 'A' <= c && c <= 'Z' {
        ((c as u8) + 32) as char
    } else {
        c
    }
}

/// The extension of a file name, with each ASCII capital in lower case.
pub fn lowered_extension_of(name: &str) -> (ext: String)
    ensures
        ext@ == lowered(extension(name@)),
{
    let chars = chars_of(name);
    let len = chars.len();
    let mut ext = String::new();
    let after_dot = start_after_last(&chars, len, '.');
    proof {
        assert(chars@.take(len as int) == chars@);
        lemma_last_index_of(chars@, '.');
    }
    if after_dot <= 1 {
        return ext;
    }
    let mut i: usize = after_dot;
    while i < len
        invariant
            1 < after_dot <= i <= len == chars.len(),
            ext@ == lowered(chars@.subrange(after_dot as int, i as int)),
        decreases len - i,
    {
        ext.push(to_ascii_lower(chars[i]));
        i += 1;
    }
    ext
}

/// Whether a lower-cased extension is one of the two that are accepted.
pub fn is_jpeg_extension(ext: &str) -> (yes: bool)
    ensures
        yes == is_jpeg(ext@),
{
    let chars = chars_of(ext);
    let n = chars.len();
    if n == 3 {
        let yes = chars[0] == 'j' && chars[1] == 'p' && chars[2] == 'g';
        assert(yes ==> chars@ == seq!['j', 'p', 'g']);
        yes
    } else if n == 4 {
        let yes = chars[0] == 'j' && chars[1] == 'p' && chars[2] == 'e' && chars[3] == 'g';
        assert(yes ==> chars@ == seq!['j', 'p', 'e', 'g']);
        yes
    } else {
        false
    }
}

/// A file name is bare: it is not empty, holds no separator, is neither `.`
/// nor `..`, and is its own file name.
pub proof fn lemma_file_name_is_bare(path: Seq<char>)
    ensures
        file_name(path) matches Some(name) ==> {
            &&& name.len() > 0
            &&& !name.contains('/')
            &&& name != seq!['.']
            &&& name != seq!['.', '.']
            &&& file_name(name) == Some(name)
        },
    decreases path.len(),
{
    if path.len() > 0 && path.last() == '/' {
        lemma_file_name_is_bare(path.drop_last());
    } else if path.len() > 0 {
        let start = last_index_of(path, '/') + 1;
        let last = path.skip(start);
        lemma_last_index_of(path, '/');
        if last == seq!['.'] {
            if 0 < start < path.len() {
                lemma_file_name_is_bare(path.take(start - 1));
            }
        } else if last != seq!['.', '.'] {
            assert forall|i: int| 0 <= i < last.len() implies last[i] != '/' by {
                assert(last[i] == path[start + i]);
            }
            lemma_last_index_of(last, '/');
            assert(last.skip(0) == last);
        }
    }
}

/// A name with a JPEG extension is not empty.
pub proof fn lemma_jpeg_name_is_not_empty(name: Seq<char>)
    requires
        is_jpeg(lowered(extension(name))),
    ensures
        name.len() > 0,
{
    assert(seq!['j', 'p', 'g'].len() == 3);
    assert(seq!['j', 'p', 'e', 'g'].len() == 4);
}

} // verus!
