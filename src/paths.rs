//! The path operations of std that the workspace relies on. Paths are held
//! as strings.

use std::path::{Path, PathBuf};
use vstd::prelude::*;

verus! {

/// The extension of the file name of a path.
pub uninterp spec fn extension_of(p: Seq<char>) -> Option<Seq<char>>;

/// A path with the extension of its file name replaced.
pub uninterp spec fn with_extension(p: Seq<char>, ext: Seq<char>) -> Seq<char>;

/// The last component of a path, if it names a file or directory.
pub uninterp spec fn file_name_of(p: Seq<char>) -> Option<Seq<char>>;

/// Relies on `Path::file_name`: the final component, if there is one.
#[verifier::external_body]
pub(crate) fn path_file_name(p: &str) -> (r: Option<String>)
    ensures
        r matches Some(e) ==> file_name_of(p@) == Some(e@),
        r is None ==> file_name_of(p@) is None,
{
    match Path::new(p).file_name() {
        Some(e) => Some(e.to_string_lossy().into_owned()),
        None => None,
    }
}

/// Paths in the order of `Path`'s `Ord`: component by component.
pub uninterp spec fn sorted_paths_of(ps: Seq<Seq<char>>) -> Seq<Seq<char>>;

/// `a` and `b` are equal as `Path`s: component by component.
pub uninterp spec fn path_eq(a: Seq<char>, b: Seq<char>) -> bool;

/// Relies on `PartialEq for Path`: the paths have equal components.
#[verifier::external_body]
pub(crate) fn paths_equal(a: &str, b: &str) -> (r: bool)
    ensures
        r == path_eq(a@, b@),
{
    Path::new(a) == Path::new(b)
}

/// `a` comes no later than `b` in the order of `Path`'s `Ord`.
pub uninterp spec fn path_le(a: Seq<char>, b: Seq<char>) -> bool;

/// Paths with each run of equal paths, as `Path`'s `==` sees them, cut
/// down to its first.
pub uninterp spec fn deduped_paths_of(ps: Seq<Seq<char>>) -> Seq<Seq<char>>;

/// The contents of a list of strings.
pub open spec fn strings_view(v: Seq<String>) -> Seq<Seq<char>> {
    v.map_values(|s: String| s@)
}

/// Relies on `slice::sort` over `PathBuf`: a stable sort by path order,
/// which rearranges the paths and keeps each.
#[verifier::external_body]
pub(crate) fn sort_paths(ps: Vec<String>) -> (r: Vec<String>)
    ensures
        strings_view(r@) == sorted_paths_of(strings_view(ps@)),
        strings_view(r@).to_multiset() == strings_view(ps@).to_multiset(),
        forall|i: int, j: int| 0 <= i < j < r@.len() ==> path_le(#[trigger] r@[i]@, #[trigger] r@[j]@),
{
    let mut bufs: Vec<PathBuf> = ps.into_iter().map(PathBuf::from).collect();
    bufs.sort();
    bufs.into_iter().map(|b| b.to_string_lossy().into_owned()).collect()
}

/// `r` holds the first path of each run of neighbours in `ps` that are
/// equal as paths, in order.
pub open spec fn kept_run_heads(ps: Seq<Seq<char>>, r: Seq<Seq<char>>) -> bool {
    exists|idx: Seq<int>|
        {
            &&& idx.len() == r.len()
            &&& forall|k: int| 0 <= k < idx.len() ==> 0 <= #[trigger] idx[k] < ps.len() && r[k] == ps[idx[k]]
            &&& forall|k: int, l: int| 0 <= k < l < idx.len() ==> #[trigger] idx[k] < #[trigger] idx[l]
            &&& (ps.len() > 0 <==> idx.len() > 0)
            &&& (idx.len() > 0 ==> idx[0] == 0)
            &&& forall|k: int| 0 < k < idx.len() ==> !path_eq(ps[#[trigger] idx[k] - 1], ps[idx[k]])
            &&& forall|k: int, m: int|
                0 <= k < idx.len() && #[trigger] idx[k] <= m && (if k + 1 < idx.len() {
                    m < idx[k + 1]
                } else {
                    m < ps.len()
                }) ==> path_eq(#[trigger] ps[m], ps[idx[k]])
        }
}

/// Relies on `Vec::dedup` over `PathBuf`: of each run of neighbours equal
/// as paths, the first is kept and the rest removed. As `Path`'s `Ord` is a
/// total order that agrees with its `==`, a sorted input comes out strictly
/// increasing.
#[verifier::external_body]
pub(crate) fn dedup_paths(ps: Vec<String>) -> (r: Vec<String>)
    ensures
        strings_view(r@) == deduped_paths_of(strings_view(ps@)),
        kept_run_heads(strings_view(ps@), strings_view(r@)),
        forall|k: int| 0 <= k < r@.len() ==> strings_view(ps@).contains(#[trigger] r@[k]@),
        forall|m: int| 0 <= m < ps@.len() ==> exists|k: int| 0 <= k < r@.len() && path_eq(#[trigger] ps@[m]@, r@[k]@),
        forall|k: int| 0 <= k < r@.len() - 1 ==> !path_eq(#[trigger] r@[k]@, r@[k + 1]@),
        (forall|i: int, j: int| 0 <= i < j < ps@.len() ==> path_le(#[trigger] ps@[i]@, #[trigger] ps@[j]@)) ==> forall|i: int, j: int|
            0 <= i < j < r@.len() ==> path_le(#[trigger] r@[i]@, #[trigger] r@[j]@) && !path_eq(r@[i]@, r@[j]@),
{
    let mut bufs: Vec<PathBuf> = ps.into_iter().map(PathBuf::from).collect();
    bufs.dedup();
    bufs.into_iter().map(|b| b.to_string_lossy().into_owned()).collect()
}

/// The parent of a path, if it has one.
pub uninterp spec fn parent_of(p: Seq<char>) -> Option<Seq<char>>;

/// The names of the components of a path.
pub uninterp spec fn components_of(p: Seq<char>) -> Seq<Seq<char>>;

/// A path with another appended.
pub uninterp spec fn joined_of(base: Seq<char>, p: Seq<char>) -> Seq<char>;

/// Relies on `Path::parent`: the path without its final component.
#[verifier::external_body]
pub(crate) fn path_parent(p: &str) -> (r: Option<String>)
    ensures
        r matches Some(e) ==> parent_of(p@) == Some(e@),
        r is None ==> parent_of(p@) is None,
{
    match Path::new(p).parent() {
        Some(e) => Some(e.to_string_lossy().into_owned()),
        None => None,
    }
}

/// Relies on `Path::components`: each component as text.
#[verifier::external_body]
pub(crate) fn path_components(p: &str) -> (r: Vec<String>)
    ensures
        strings_view(r@) == components_of(p@),
{
    Path::new(p).components().map(|c| c.as_os_str().to_string_lossy().into_owned()).collect()
}

/// Relies on `Path::join`: `p` appended to `base`.
#[verifier::external_body]
pub(crate) fn path_join(base: &str, p: &str) -> (r: String)
    ensures
        r@ == joined_of(base@, p@),
{
    Path::new(base).join(p).to_string_lossy().into_owned()
}

/// Relies on `Path::extension`: the extension of the file name, if any.
#[verifier::external_body]
pub(crate) fn path_extension(p: &str) -> (r: Option<String>)
    ensures
        r matches Some(e) ==> extension_of(p@) == Some(e@),
        r is None ==> extension_of(p@) is None,
{
    match Path::new(p).extension() {
        Some(e) => Some(e.to_string_lossy().into_owned()),
        None => None,
    }
}

/// Relies on `PathBuf::set_extension`: the path with its extension set. It
/// panics on an extension that holds a path separator.
#[verifier::external_body]
pub(crate) fn path_with_extension(p: &str, ext: &str) -> (r: String)
    requires
        forall|i: int| 0 <= i < ext@.len() ==> ext@[i] != '/',
    ensures
        r@ == with_extension(p@, ext@),
{
    let mut buf = PathBuf::from(p);
    buf.set_extension(ext);
    buf.to_string_lossy().into_owned()
}

} // verus!
