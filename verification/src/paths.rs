//! Paths as strings. What `std::path` computes is named here; the functions
//! below make the calls.

use vstd::prelude::*;

verus! {

/// What `Path::join` makes of `base` and `rel`.
pub uninterp spec fn path_join(base: Seq<char>, rel: Seq<char>) -> Seq<char>;

/// What `Path::strip_prefix` leaves of `path` below `base`, if `path` starts
/// with `base`.
pub uninterp spec fn path_strip_prefix(path: Seq<char>, base: Seq<char>) -> Option<Seq<char>>;

/// What `Path::parent` gives for `path`.
pub uninterp spec fn path_parent(path: Seq<char>) -> Option<Seq<char>>;

/// What `Path::file_name` gives for `path`.
pub uninterp spec fn path_file_name(path: Seq<char>) -> Option<Seq<char>>;

/// What `Path::with_file_name` makes of `path` and `name`.
pub uninterp spec fn path_with_file_name(path: Seq<char>, name: Seq<char>) -> Seq<char>;

/// What `Path::has_root` says of `path`.
pub uninterp spec fn path_has_root(path: Seq<char>) -> bool;

/// The suffix that marks the copy kept while a file is being linked.
pub open spec fn backup_suffix() -> Seq<char> {
    ".backup"@
}

/// The name of the stored index inside the base directory.
pub open spec fn index_file_name() -> Seq<char> {
    ".index_file.csv"@
}

/// The sibling of `rel` that holds its bytes during a link: the same
/// directory, the file name followed by `.backup`. None where the path has
/// no file name.
pub open spec fn backup_of(rel: Seq<char>) -> Option<Seq<char>> {
    match path_file_name(rel) {
        Some(name) => Some(path_with_file_name(rel, name + backup_suffix())),
        None => None,
    }
}

/// Whether the walk leaves a file out: the stored index itself, and every
/// file whose name ends in `.backup`.
pub open spec fn skipped(path: Seq<char>) -> bool {
    match path_file_name(path) {
        Some(name) => name == index_file_name() || ends_with(name, backup_suffix()),
        None => false,
    }
}

/// `s` ends with `suffix`.
pub open spec fn ends_with(s: Seq<char>, suffix: Seq<char>) -> bool {
    suffix.len() <= s.len() && s.subrange(s.len() - suffix.len(), s.len() as int) == suffix
}

/// Calls `Path::join`. The result is the joined path as text.
#[verifier::external_body]
pub(crate) fn join(base: &str, rel: &str) -> (r: String)
    ensures
        r@ == path_join(base@, rel@),
{
    std::path::Path::new(base).join(rel).to_string_lossy().into_owned()
}

/// Calls `Path::strip_prefix`. None is its error, that `path` does not start
/// with `base`.
#[verifier::external_body]
pub(crate) fn strip_prefix(path: &str, base: &str) -> (r: Option<String>)
    ensures
        r matches Some(s) ==> path_strip_prefix(path@, base@) == Some(s@),
        r is None ==> path_strip_prefix(path@, base@) is None,
{
    match std::path::Path::new(path).strip_prefix(base) {
        Ok(p) => Some(p.to_string_lossy().into_owned()),
        Err(_) => None,
    }
}

/// Calls `Path::parent`.
#[verifier::external_body]
pub(crate) fn parent(path: &str) -> (r: Option<String>)
    ensures
        r matches Some(s) ==> path_parent(path@) == Some(s@),
        r is None ==> path_parent(path@) is None,
{
    std::path::Path::new(path).parent().map(|p| p.to_string_lossy().into_owned())
}

/// Calls `Path::file_name`.
#[verifier::external_body]
pub(crate) fn file_name(path: &str) -> (r: Option<String>)
    ensures
        r matches Some(s) ==> path_file_name(path@) == Some(s@),
        r is None ==> path_file_name(path@) is None,
{
    std::path::Path::new(path).file_name().map(|p| p.to_string_lossy().into_owned())
}

/// Calls `Path::with_file_name`.
#[verifier::external_body]
pub(crate) fn with_file_name(path: &str, name: &str) -> (r: String)
    ensures
        r@ == path_with_file_name(path@, name@),
{
    std::path::Path::new(path).with_file_name(name).to_string_lossy().into_owned()
}

/// Calls `Path::has_root`.
#[verifier::external_body]
pub(crate) fn has_root(path: &str) -> (r: bool)
    ensures
        r == path_has_root(path@),
{
    std::path::Path::new(path).has_root()
}

/// Whether `s` ends with `suffix`.
fn has_suffix(s: &str, suffix: &str) -> (r: bool)
    ensures
        r == ends_with(s@, suffix@),
{
    let n = s.unicode_len();
    let m = suffix.unicode_len();
    if m > n {
        return false;
    }
    let mut i: usize = 0;
    while i < m
        invariant
            i <= m <= n,
            n == s@.len(),
            m == suffix@.len(),
            forall|j: int| 0 <= j < i ==> s@[n - m + j] == #[trigger] suffix@[j],
        decreases m - i,
    {
        if s.get_char(n - m + i) != suffix.get_char(i) {
            proof {
                let tail = s@.subrange(n - m, n as int);
                assert(tail[i as int] != suffix@[i as int]);
            }
            return false;
        }
        i += 1;
    }
    proof {
        assert(s@.subrange(n - m, n as int) =~= suffix@);
    }
    true
}

/// The absolute path of the stored index of a base directory.
pub fn index_file_path(base_path: &str) -> (r: String)
    ensures
        r@ == path_join(base_path@, index_file_name()),
{
    join(base_path, ".index_file.csv")
}

/// The backup sibling of a relative path.
pub fn backup_path(rel: &str) -> (r: Option<String>)
    ensures
        r matches Some(s) ==> backup_of(rel@) == Some(s@),
        r is None ==> backup_of(rel@) is None,
{
    match file_name(rel) {
        Some(name) => {
            let backup_name = name.concat(".backup");
            Some(with_file_name(rel, backup_name.as_str()))
        },
        None => None,
    }
}

/// Whether the walk leaves `path` out.
pub fn is_skipped(path: &str) -> (r: bool)
    ensures
        r == skipped(path@),
{
    match file_name(path) {
        Some(name) => {
            let index_name = ".index_file.csv".to_owned();
            name == index_name || has_suffix(name.as_str(), ".backup")
        },
        None => false,
    }
}

} // verus!
