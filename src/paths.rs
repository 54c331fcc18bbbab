use vstd::prelude::*;

use crate::error::{Existing, FsError};
use crate::naming::{is_copy_name, name_views, stem_of, unique_copy_name};

verus! {

/// What `Path::file_name` gives for a path: its final component, if any.
pub uninterp spec fn path_file_name(p: Seq<char>) -> Option<Seq<char>>;

/// What `Path::parent` gives for a path: the path without its final
/// component, if it has one.
pub uninterp spec fn path_parent(p: Seq<char>) -> Option<Seq<char>>;

/// Relies on `std::path::Path::file_name`, taken as a string.
#[verifier::external_body]
fn file_name_of(p: &str) -> (r: Option<String>)
    ensures
        r matches Some(n) ==> path_file_name(p@) == Some(n@),
        r is None ==> path_file_name(p@) is None,
{
    match std::path::Path::new(p).file_name() {
        Some(n) => Some(n.to_string_lossy().into_owned()),
        None => None,
    }
}

/// Relies on `std::path::Path::parent`, taken as a string.
#[verifier::external_body]
fn parent_of(p: &str) -> (r: Option<String>)
    ensures
        r matches Some(n) ==> path_parent(p@) == Some(n@),
        r is None ==> path_parent(p@) is None,
{
    match std::path::Path::new(p).parent() {
        Some(n) => Some(n.to_string_lossy().into_owned()),
        None => None,
    }
}

/// `part` appended to `base` by the rule of `PathBuf::push` on Unix, which
/// the library uses on every platform: '/' is the only separator, an
/// absolute `part` replaces `base`, and otherwise a '/' is put between them
/// unless `base` is empty or already ends with one.
pub open spec fn joined(base: Seq<char>, part: Seq<char>) -> Seq<char> {
    if part.len() > 0 && part[0] == '/' {
        part
    } else if base.len() > 0 && base.last() != '/' {
        base + seq!['/'] + part
    } else {
        base + part
    }
}

/// A single path component that names an entry: not empty, no '/', and
/// neither `.` nor `..`.
pub open spec fn is_plain_name(n: Seq<char>) -> bool {
    &&& n.len() > 0
    &&& !n.contains('/')
    &&& n != seq!['.']
    &&& n != seq!['.', '.']
}

/// The file name with its extension forced to `md`.
pub open spec fn md_name(n: Seq<char>) -> Seq<char> {
    stem_of(n) + seq!['.', 'm', 'd']
}

/// The path of `part` under `base`, always joined with '/'.
pub fn join_path(base: &str, part: &str) -> (r: String)
    ensures
        r@ == joined(base@, part@),
{
    proof {
        reveal_strlit("/");
    }
    let plen = part.unicode_len();
    if plen > 0 && part.get_char(0) == '/' {
        return String::from_str(part);
    }
    let blen = base.unicode_len();
    let mut r = String::from_str(base);
    if blen > 0 && base.get_char(blen - 1) != '/' {
        r.append("/");
    }
    r.append(part);
    r
}

/// Whether `n` is a plain entry name.
pub fn plain_name(n: &str) -> (r: bool)
    ensures
        r == is_plain_name(n@),
{
    let len = n.unicode_len();
    if len == 0 {
        return false;
    }
    let mut i: usize = 0;
    while i < len
        invariant
            i <= len == n@.len(),
            forall|j: int| 0 <= j < i ==> n@[j] != '/',
        decreases len - i,
    {
        if n.get_char(i) == '/' {
            assert(n@.contains('/'));
            return false;
        }
        i = i + 1;
    }
    if n.get_char(0) == '.' && (len == 1 || (len == 2 && n.get_char(1) == '.')) {
        assert(n@ =~= seq!['.'] || n@ =~= seq!['.', '.']);
        return false;
    }
    assert(n@ != seq!['.']) by {
        if n@ == seq!['.'] {
            assert(n@[0] == '.');
        }
    }
    assert(n@ != seq!['.', '.']) by {
        if n@ == seq!['.', '.'] {
            assert(n@[0] == '.' && n@[1] == '.');
        }
    }
    true
}

/// The path at which a new Markdown note named `file_name` goes in `dir`:
/// the name with its extension forced to `md`. A name that is not a plain
/// entry name is refused.
pub fn md_file_path(dir: &str, file_name: &str) -> (r: Result<String, FsError>)
    ensures
        is_plain_name(file_name@) ==> (r matches Ok(p) && p@ == joined(dir@, md_name(file_name@))),
        !is_plain_name(file_name@) ==> r == Err::<String, FsError>(FsError::InvalidPath),
{
    if !plain_name(file_name) {
        return Err(FsError::InvalidPath);
    }
    let stem = crate::naming::stem_string(file_name);
    let mut n = stem;
    proof {
        reveal_strlit(".md");
    }
    n.append(".md");
    assert(n@ =~= md_name(file_name@));
    Ok(join_path(dir, n.as_str()))
}

/// The path that a copy of the entry named `file_name` takes in `dest_dir`,
/// whose entries are named by `taken`.
pub fn copy_target(file_name: &str, dest_dir: &str, taken: &Vec<String>) -> (r: String)
    ensures
        exists|c: Seq<char>|
            is_copy_name(file_name@, name_views(taken@), c) && r@ == joined(dest_dir@, c),
{
    let c = unique_copy_name(file_name, taken);
    join_path(dest_dir, c.as_str())
}

/// The path that a copy of `source` takes in `dest_dir`, whose entries are
/// named by `taken`; a source without a final component is refused.
pub fn copy_destination(source: &str, dest_dir: &str, taken: &Vec<String>) -> (r: Result<
    String,
    FsError,
>)
    ensures
        match path_file_name(source@) {
            Some(f) => r matches Ok(p) && exists|c: Seq<char>|
                is_copy_name(f, name_views(taken@), c) && p@ == joined(dest_dir@, c),
            None => r == Err::<String, FsError>(FsError::InvalidSourcePath),
        },
{
    match file_name_of(source) {
        Some(f) => Ok(copy_target(f.as_str(), dest_dir, taken)),
        None => Err(FsError::InvalidSourcePath),
    }
}

/// The new path of `old_path` renamed to `new_name`: `new_name` under the
/// parent of `old_path`; a path without a parent is refused.
pub fn rename_target(old_path: &str, new_name: &str) -> (r: Result<String, FsError>)
    ensures
        match path_parent(old_path@) {
            Some(p) => r matches Ok(t) && t@ == joined(p, new_name@),
            None => r == Err::<String, FsError>(FsError::InvalidPath),
        },
{
    match parent_of(old_path) {
        Some(p) => Ok(join_path(p.as_str(), new_name)),
        None => Err(FsError::InvalidPath),
    }
}

/// The name shown for the entry at `path`: its final component, or the whole
/// path where it has none.
pub fn entry_name(path: &str) -> (r: String)
    ensures
        r@ == match path_file_name(path@) {
            Some(f) => f,
            None => path@,
        },
{
    match file_name_of(path) {
        Some(f) => f,
        None => String::from_str(path),
    }
}

/// The directory that a file manager is opened on for `path`: the parent of
/// a file (where it has one), else `path` itself.
pub fn explorer_target(path: &str, is_file: bool) -> (r: String)
    ensures
        r@ == if is_file && path_parent(path@) is Some {
            path_parent(path@)->Some_0
        } else {
            path@
        },
{
    if is_file {
        if let Some(p) = parent_of(path) {
            return p;
        }
    }
    String::from_str(path)
}

/// A new entry may be made at `path` only where nothing is there yet;
/// `what` says what kind of entry would be in the way.
pub fn claim_new_path(path: String, exists: bool, what: Existing) -> (r: Result<String, FsError>)
    ensures
        exists ==> r == Err::<String, FsError>(FsError::AlreadyExists(what)),
        !exists ==> (r matches Ok(p) && p@ == path@),
{
    if exists {
        Err(FsError::AlreadyExists(what))
    } else {
        Ok(path)
    }
}

} // verus!
