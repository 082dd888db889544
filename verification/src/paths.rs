//! Relative paths of chapters, written with `/` between their segments.

use crate::text::{chars_of, push_range};
use vstd::prelude::*;
use vstd::string::StringExecFns;

verus! {

/// Whether a segment names a directory: it is not empty and is neither `.`
/// nor `..`.
pub open spec fn is_dir_name(name: Seq<char>) -> bool {
    name.len() > 0 && name != seq!['.'] && name != seq!['.', '.']
}

/// The offset at which the segment begins that offset `i` lies in: just
/// after the last `/` before `i`, or 0.
pub open spec fn segment_start(path: Seq<char>, i: int) -> int
    decreases i,
{
    if i <= 0 || i > path.len() || path[i - 1] == '/' {
        i
    } else {
        segment_start(path, i - 1)
    }
}

/// Whether a directory name ends at offset `i`, where a `/` stands.
pub open spec fn is_dir_end(path: Seq<char>, i: int) -> bool {
    0 <= i < path.len() && path[i] == '/' && is_dir_name(
        path.subrange(segment_start(path, i), i),
    )
}

/// The number of directory names that end before offset `n`.
pub open spec fn depth_upto(path: Seq<char>, n: int) -> nat
    decreases n,
{
    if n <= 0 {
        0
    } else if is_dir_end(path, n - 1) {
        depth_upto(path, n - 1) + 1
    } else {
        depth_upto(path, n - 1)
    }
}

/// The number of directories that `path` passes through.
pub open spec fn depth(path: Seq<char>) -> nat {
    depth_upto(path, path.len() as int)
}

/// `../` written `n` times.
pub open spec fn climb(n: nat) -> Seq<char>
    decreases n,
{
    if n == 0 {
        Seq::empty()
    } else {
        climb((n - 1) as nat) + seq!['.', '.', '/']
    }
}

/// The relative path that leads from the directory of the file `path` back
/// to the root against which `path` is written: one `../` for each directory
/// that `path` passes through.
pub open spec fn root_of(path: Seq<char>) -> Seq<char> {
    climb(depth(path))
}

/// The offset of the dot that begins the extension of the file name in
/// `path[..i]`, or -1 if the name has none there. A dot that begins the name
/// begins no extension.
pub open spec fn extension_dot(path: Seq<char>, i: int) -> int
    decreases i,
{
    if i <= 0 || i > path.len() || path[i - 1] == '/' {
        -1
    } else if path[i - 1] == '.' {
        if i >= 2 && path[i - 2] != '/' {
            i - 1
        } else {
            -1
        }
    } else {
        extension_dot(path, i - 1)
    }
}

/// `path` with the extension of its file name replaced by `html`, or with
/// `.html` added if it has none.
pub open spec fn html_path_of(path: Seq<char>) -> Seq<char> {
    let dot = extension_dot(path, path.len() as int);
    if dot < 0 {
        path + seq!['.', 'h', 't', 'm', 'l']
    } else {
        path.subrange(0, dot) + seq!['.', 'h', 't', 'm', 'l']
    }
}

/// Tests whether `path[start..end]` names a directory.
fn dir_name_at(path: &[char], start: usize, end: usize) -> (r: bool)
    requires
        start <= end <= path@.len(),
    ensures
        r == is_dir_name(path@.subrange(start as int, end as int)),
{
    let ghost name = path@.subrange(start as int, end as int);
    let len: usize = end - start;
    if len == 0 {
        false
    } else if len == 1 {
        assert(name[0] == path@[start as int]);
        assert(path@[start as int] == '.' ==> name =~= seq!['.']);
        path[start] != '.'
    } else if len == 2 {
        assert(name[0] == path@[start as int] && name[1] == path@[start + 1]);
        assert(path@[start as int] == '.' && path@[start + 1] == '.' ==> name =~= seq!['.', '.']);
        !(path[start] == '.' && path[start + 1] == '.')
    } else {
        true
    }
}

/// The path from the directory of the file `path` back to the root.
pub fn path_to_root(path: &str) -> (root: String)
    ensures
        root@ == root_of(path@),
{
    let text = chars_of(path);
    let mut root = String::new();
    let mut start: usize = 0;
    let mut i: usize = 0;
    while i < text.len()
        invariant
            i <= text@.len(),
            start <= i,
            start == segment_start(text@, i as int),
            root@ == climb(depth_upto(text@, i as int)),
        decreases text@.len() - i,
    {
        if text[i] == '/' {
            if dir_name_at(text.as_slice(), start, i) {
                root.append("../");
                proof {
                    reveal_strlit("../");
                    assert("../"@ =~= seq!['.', '.', '/']);
                }
            }
            start = i + 1;
        }
        i += 1;
    }
    root
}

/// Finds the dot that begins the extension of the file name of a path.
pub(crate) fn find_extension(text: &[char]) -> (dot: Option<usize>)
    ensures
        match dot {
            Some(d) => d < text@.len() && extension_dot(text@, text@.len() as int) == d,
            None => extension_dot(text@, text@.len() as int) == -1,
        },
{
    let mut i: usize = text.len();
    let mut dot: Option<usize> = None;
    while i > 0 && text[i - 1] != '/'
        invariant_except_break
            dot is None,
            extension_dot(text@, text@.len() as int) == extension_dot(text@, i as int),
        invariant
            i <= text@.len(),
        ensures
            match dot {
                Some(d) => d < text@.len() && extension_dot(text@, text@.len() as int) == d,
                None => extension_dot(text@, text@.len() as int) == -1,
            },
        decreases i,
    {
        if text[i - 1] == '.' {
            if i >= 2 && text[i - 2] != '/' {
                dot = Some(i - 1);
            }
            break ;
        }
        i -= 1;
    }
    dot
}

/// The name of the page that the chapter at `path` is rendered to.
pub fn html_path(path: &str) -> (page: String)
    ensures
        page@ == html_path_of(path@),
{
    let text = chars_of(path);
    let mut page = String::new();
    match find_extension(text.as_slice()) {
        Some(d) => push_range(&mut page, text.as_slice(), 0, d),
        None => {
            push_range(&mut page, text.as_slice(), 0, text.len());
            assert(text@.subrange(0, text@.len() as int) =~= text@);
        },
    }
    page.append(".html");
    proof {
        reveal_strlit(".html");
        assert(".html"@ =~= seq!['.', 'h', 't', 'm', 'l']);
    }
    page
}

} // verus!
