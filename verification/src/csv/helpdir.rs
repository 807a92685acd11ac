//! Which of the files found on disk are CSV files, and in what order they are listed.
use vstd::prelude::*;

use std::path::PathBuf;

use crate::csv::backend::texts;
use crate::paths::{extension, path_extension};

verus! {

/// `ext` is "csv" up to ASCII case.
pub open spec fn is_csv_extension(ext: Seq<char>) -> bool {
    &&& ext.len() == 3
    &&& (ext[0] == 'c' || ext[0] == 'C')
    &&& (ext[1] == 's' || ext[1] == 'S')
    &&& (ext[2] == 'v' || ext[2] == 'V')
}

/// The file at `path` is a CSV file: its extension is "csv", in any ASCII case.
pub open spec fn is_csv_path(path: Seq<char>) -> bool {
    match path_extension(path) {
        Some(ext) => is_csv_extension(ext),
        None => false,
    }
}

/// The CSV files among `paths`, in their order.
pub open spec fn csv_paths(paths: Seq<String>) -> Seq<String> {
    paths.filter(|p: String| is_csv_path(p@))
}

/// The order in which `[PathBuf]::sort` leaves `paths`.
pub uninterp spec fn path_sorted(paths: Seq<Seq<char>>) -> Seq<Seq<char>>;

/// Whether `Path`'s ordering (components compared in turn) puts `a` no later than `b`.
pub uninterp spec fn path_le(a: Seq<char>, b: Seq<char>) -> bool;

/// Calls `[PathBuf]::sort` on `paths`; claims that the result, as text, is what
/// `path_sorted` names, that it holds the same paths (sorting only reorders), and
/// that it is in ascending `Path` order (`path_le`).
#[verifier::external_body]
fn sort_paths(paths: Vec<String>) -> (r: Vec<String>)
    ensures
        texts(r@) == path_sorted(texts(paths@)),
        texts(r@).to_multiset() == texts(paths@).to_multiset(),
        forall|i: int, j: int| 0 <= i < j < r@.len() ==> path_le(#[trigger] r@[i]@, #[trigger] r@[j]@),
{
    let mut v: Vec<PathBuf> = paths.into_iter().map(PathBuf::from).collect();
    v.sort();
    v.into_iter().map(|p| p.to_string_lossy().into_owned()).collect()
}

/// Whether the file at `path` has the extension "csv", in any ASCII case.
pub fn has_csv_extension(path: &str) -> (r: bool)
    ensures
        r == is_csv_path(path@),
{
    match extension(path) {
        Some(ext) => {
            let e = ext.as_str();
            if e.unicode_len() != 3 {
                return false;
            }
            let c0 = e.get_char(0);
            let c1 = e.get_char(1);
            let c2 = e.get_char(2);
            (c0 == 'c' || c0 == 'C') && (c1 == 's' || c1 == 'S') && (c2 == 'v' || c2 == 'V')
        },
        None => false,
    }
}

/// The CSV files among the files `paths` found on disk, sorted as `Path`s.
pub fn csv_files_among(paths: Vec<String>) -> (r: Vec<String>)
    ensures
        texts(r@) == path_sorted(texts(csv_paths(paths@))),
        texts(r@).to_multiset() == texts(csv_paths(paths@)).to_multiset(),
        forall|i: int, j: int| 0 <= i < j < r@.len() ==> path_le(#[trigger] r@[i]@, #[trigger] r@[j]@),
        forall|i: int| 0 <= i < r@.len() ==> is_csv_path(#[trigger] r@[i]@),
        forall|j: int|
            0 <= j < paths@.len() && is_csv_path(#[trigger] paths@[j]@) ==> texts(r@).contains(
                paths@[j]@,
            ),
{
    let ghost pred = |p: String| is_csv_path(p@);
    let mut found: Vec<String> = Vec::new();
    let mut i: usize = 0;
    while i < paths.len()
        invariant
            i <= paths@.len(),
            pred == (|p: String| is_csv_path(p@)),
            found@ == paths@.take(i as int).filter(pred),
        decreases paths@.len() - i,
    {
        reveal_with_fuel(Seq::<_>::filter, 1);
        assert(paths@.take(i + 1).drop_last() =~= paths@.take(i as int));
        if has_csv_extension(paths[i].as_str()) {
            found.push(paths[i].clone());
        }
        i = i + 1;
    }
    assert(paths@.take(paths@.len() as int) =~= paths@);
    let r = sort_paths(found);
    proof {
        broadcast use vstd::seq_lib::group_to_multiset_ensures;

        let kept = csv_paths(paths@);
        paths@.filter_lemma(pred);
        assert forall|i: int| 0 <= i < r@.len() implies is_csv_path(#[trigger] r@[i]@) by {
            assert(texts(r@)[i] == r@[i]@);
            assert(texts(r@).contains(r@[i]@));
            assert(texts(kept).to_multiset().count(r@[i]@) > 0);
            let k = choose|k: int| 0 <= k < texts(kept).len() && texts(kept)[k] == r@[i]@;
            assert(pred(kept[k]));
        }
        assert forall|j: int| 0 <= j < paths@.len() && is_csv_path(#[trigger] paths@[j]@)
            implies texts(r@).contains(paths@[j]@) by {
            assert(pred(paths@[j]));
            assert(kept.contains(paths@[j]));
            let k = choose|k: int| 0 <= k < kept.len() && kept[k] == paths@[j];
            assert(texts(kept)[k] == paths@[j]@);
            assert(texts(kept).contains(paths@[j]@));
            assert(texts(r@).to_multiset().count(paths@[j]@) > 0);
        }
    }
    r
}

} // verus!
