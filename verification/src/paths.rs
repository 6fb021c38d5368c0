use vstd::prelude::*;
use crate::text::{last_index_of, rfind_char, push_char};

verus! {

/// `dir` and `rel` joined with a single separator; an absolute `rel`
/// replaces `dir`, and an empty `dir` adds no separator.
pub open spec fn join_path_spec(dir: Seq<char>, rel: Seq<char>) -> Seq<char> {
    if rel.len() > 0 && rel[0] == '/' {
        rel
    } else if dir.len() == 0 {
        rel
    } else if dir.last() == '/' {
        dir + rel
    } else {
        dir + seq!['/'] + rel
    }
}

/// Joins a directory path and a path relative to it.
pub fn join_path(dir: &str, rel: &str) -> (r: String)
    ensures
        r@ == join_path_spec(dir@, rel@),
{
    let n = dir.unicode_len();
    let m = rel.unicode_len();
    if m > 0 && rel.get_char(0) == '/' {
        return rel.to_owned();
    }
    if n == 0 {
        proof {
            assert(dir@ =~= Seq::<char>::empty());
        }
        return rel.to_owned();
    }
    let mut acc = dir.to_owned();
    if dir.get_char(n - 1) != '/' {
        push_char(&mut acc, '/');
        proof {
            assert(acc@ =~= dir@ + seq!['/']);
        }
    }
    acc.append(rel);
    acc
}

/// The part of `p` after its last separator: the file's own name.
pub open spec fn file_name_of(p: Seq<char>) -> Seq<char> {
    p.skip(last_index_of(p, '/') + 1)
}

/// The title a source path yields: its file name without the extension,
/// the whole file name when the only dot leads it.
pub open spec fn title_of_path(p: Seq<char>) -> Seq<char> {
    let n = file_name_of(p);
    let d = last_index_of(n, '.');
    if d >= 1 {
        n.take(d)
    } else {
        n
    }
}

/// Whether the path's file name carries the blog-source extension.
pub open spec fn path_is_braw(p: Seq<char>) -> bool {
    let n = file_name_of(p);
    let d = last_index_of(n, '.');
    d >= 1 && n.skip(d + 1) == "braw"@
}

/// The directory part of `p`: everything before the last separator,
/// the root separator itself for a file just under the root, and empty
/// for a bare file name.
pub open spec fn parent_of_path(p: Seq<char>) -> Seq<char> {
    let i = last_index_of(p, '/');
    if i < 0 {
        Seq::empty()
    } else if i == 0 {
        seq!['/']
    } else {
        p.take(i)
    }
}

/// The file's own name: the part of the path after its last separator.
pub fn file_name(p: &str) -> (r: &str)
    ensures
        r@ == file_name_of(p@),
{
    let n = p.unicode_len();
    match rfind_char(p, '/') {
        Some(i) => {
            let r = p.substring_char(i + 1, n);
            proof {
                assert(p@.subrange(i + 1, n as int) =~= p@.skip(i + 1));
            }
            r
        },
        None => {
            proof {
                assert(p@.skip(0) =~= p@);
            }
            p
        },
    }
}

/// The title a source path yields.
pub fn title_of(p: &str) -> (r: String)
    ensures
        r@ == title_of_path(p@),
{
    let name = file_name(p);
    match rfind_char(name, '.') {
        Some(d) => {
            if d >= 1 {
                let r = name.substring_char(0, d);
                proof {
                    assert(name@.subrange(0, d as int) =~= name@.take(d as int));
                }
                r.to_owned()
            } else {
                name.to_owned()
            }
        },
        None => name.to_owned(),
    }
}

/// Whether the path names a blog source file, by its extension.
pub fn is_braw_path(p: &str) -> (r: bool)
    ensures
        r == path_is_braw(p@),
{
    let name = file_name(p);
    let n = name.unicode_len();
    match rfind_char(name, '.') {
        Some(d) => {
            if d >= 1 {
                let ext = name.substring_char(d + 1, n);
                proof {
                    assert(name@.subrange(d + 1, n as int) =~= name@.skip(d + 1));
                }
                crate::text::str_eq_str(ext, "braw")
            } else {
                false
            }
        },
        None => false,
    }
}

/// The directory part of `p`.
pub fn parent_dir(p: &str) -> (r: String)
    ensures
        r@ == parent_of_path(p@),
{
    match rfind_char(p, '/') {
        Some(i) => {
            if i == 0 {
                let mut acc = String::new();
                push_char(&mut acc, '/');
                proof {
                    assert(acc@ =~= seq!['/']);
                }
                acc
            } else {
                let r = p.substring_char(0, i);
                proof {
                    assert(p@.subrange(0, i as int) =~= p@.take(i as int));
                }
                r.to_owned()
            }
        },
        None => String::new(),
    }
}

/// The relative path that leads from the directory `base` to `path`,
/// when one exists; a pure function of the two paths.
pub uninterp spec fn diff_path_of(path: Seq<char>, base: Seq<char>) -> Option<Seq<char>>;

/// Relies on `pathdiff::diff_paths`: it computes the relative path from
/// `base` to `path` from the two paths' components alone, and returns
/// `None` when no such path exists (a relative `path` against an
/// absolute `base`, or a `base` whose unmatched components contain
/// an upward step).
#[verifier::external_body]
pub fn diff_paths_str(path: &str, base: &str) -> (r: Option<String>)
    ensures
        r is Some <==> diff_path_of(path@, base@) is Some,
        r matches Some(s) ==> diff_path_of(path@, base@) == Some(s@),
{
    pathdiff::diff_paths(std::path::Path::new(path), std::path::Path::new(base)).map(
        |p| p.to_string_lossy().to_string(),
    )
}

} // verus!
