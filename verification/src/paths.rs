//! Path arithmetic, delegated to `std::path::Path`.
//!
//! Paths are held as `String`s. The functions below name what `Path` computes on the
//! target this crate is built for; each is a function of its arguments alone.
use vstd::prelude::*;

use std::path::Path;

use crate::text::no_slash;

verus! {

/// `t` is a single normal path component: non-empty, without separator, and
/// neither `.` nor `..`.
pub open spec fn plain_component(t: Seq<char>) -> bool {
    &&& t.len() > 0
    &&& no_slash(t)
    &&& t != seq!['.']
    &&& t != seq!['.', '.']
}

/// `stem` is the file stem of the file name `name`, by the rule documented for
/// `Path::file_stem`: the whole name if it holds no `.` other than a leading one,
/// else the part before its final `.`.
pub open spec fn stem_of_name(name: Seq<char>, stem: Seq<char>) -> bool {
    &&& stem.len() <= name.len()
    &&& stem == name.subrange(0, stem.len() as int)
    &&& if stem.len() == name.len() {
        forall|i: int| 1 <= i < name.len() ==> name[i] != '.'
    } else {
        &&& stem.len() >= 1
        &&& name[stem.len() as int] == '.'
        &&& forall|i: int| stem.len() < i < name.len() ==> name[i] != '.'
    }
}

/// What `Path::strip_prefix` leaves of `path` after the leading components `base`.
pub uninterp spec fn path_relative_to(path: Seq<char>, base: Seq<char>) -> Option<Seq<char>>;

/// What `Path::file_stem` gives for `path`.
pub uninterp spec fn path_file_stem(path: Seq<char>) -> Option<Seq<char>>;

/// What `Path::parent` gives for `path`.
pub uninterp spec fn path_parent(path: Seq<char>) -> Option<Seq<char>>;

/// What `Path::join` gives for `base` and `tail`.
pub uninterp spec fn path_joined(base: Seq<char>, tail: Seq<char>) -> Seq<char>;

/// What `Path::file_name` gives for `path`.
pub uninterp spec fn path_file_name(path: Seq<char>) -> Option<Seq<char>>;

/// What `Path::extension` gives for `path`.
pub uninterp spec fn path_extension(path: Seq<char>) -> Option<Seq<char>>;

/// Calls `Path::strip_prefix`; claims that the result, as text, is what
/// `path_relative_to` names for these arguments (`None` for an error).
#[verifier::external_body]
pub(crate) fn relative_to(path: &str, base: &str) -> (r: Option<String>)
    ensures
        match r {
            Some(s) => path_relative_to(path@, base@) == Some(s@),
            None => path_relative_to(path@, base@) is None,
        },
{
    Path::new(path).strip_prefix(base).ok().map(|p| p.to_string_lossy().into_owned())
}

/// Calls `Path::file_stem`; claims that the result, as text, is what `path_file_stem`
/// names, and, as documented, that there is a stem exactly when there is a file name,
/// the stem being that name cut by the documented rule (`stem_of_name`); a file name is
/// one component, so it holds no separator.
#[verifier::external_body]
pub(crate) fn file_stem(path: &str) -> (r: Option<String>)
    ensures
        match r {
            Some(s) => path_file_stem(path@) == Some(s@),
            None => path_file_stem(path@) is None,
        },
        r is Some <==> path_file_name(path@) is Some,
        r matches Some(s) ==> path_file_name(path@) matches Some(n) && no_slash(n)
            && stem_of_name(n, s@),
{
    Path::new(path).file_stem().map(|s| s.to_string_lossy().into_owned())
}

/// Calls `Path::parent`; claims that the result, as text, is what `path_parent` names,
/// and, as documented, that a path with a file name has a parent (only a path that
/// ends in a root or prefix, or the empty path, has none).
#[verifier::external_body]
pub(crate) fn parent(path: &str) -> (r: Option<String>)
    ensures
        match r {
            Some(s) => path_parent(path@) == Some(s@),
            None => path_parent(path@) is None,
        },
        path_file_name(path@) is Some ==> r is Some,
{
    Path::new(path).parent().map(|p| p.to_string_lossy().into_owned())
}

/// Calls `Path::join`; claims that the result, as text, is what `path_joined` names,
/// and, as documented for a relative `tail` (adjoined as the final component), that
/// joining one normal component makes it the file name.
#[verifier::external_body]
pub(crate) fn join(base: &str, tail: &str) -> (r: String)
    ensures
        r@ == path_joined(base@, tail@),
        plain_component(tail@) ==> path_file_name(r@) == Some(tail@),
{
    Path::new(base).join(tail).to_string_lossy().into_owned()
}

/// Calls `Path::file_name`; claims that the result, as text, is what `path_file_name` names.
#[verifier::external_body]
pub(crate) fn file_name(path: &str) -> (r: Option<String>)
    ensures
        match r {
            Some(s) => path_file_name(path@) == Some(s@),
            None => path_file_name(path@) is None,
        },
{
    Path::new(path).file_name().map(|s| s.to_string_lossy().into_owned())
}

/// Calls `Path::extension`; claims that the result, as text, is what `path_extension` names.
#[verifier::external_body]
pub(crate) fn extension(path: &str) -> (r: Option<String>)
    ensures
        match r {
            Some(s) => path_extension(path@) == Some(s@),
            None => path_extension(path@) is None,
        },
{
    Path::new(path).extension().map(|s| s.to_string_lossy().into_owned())
}

} // verus!
