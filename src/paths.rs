//! Paths of the trust-state directory, as `/`-separated strings.
use vstd::prelude::*;

use crate::error::CliStateError;

verus! {

/// `name` under `base`: one `/` between them, none added when `base` is empty
/// or already ends with one.
pub open spec fn join(base: Seq<char>, name: Seq<char>) -> Seq<char> {
    if base.len() == 0 {
        name
    } else if base.last() == '/' {
        base + name
    } else {
        base + seq!['/'] + name
    }
}

/// The last component of a path as std's `Path::file_name` gives it (not
/// for a path that ends in `..` or is a root), as text.
pub uninterp spec fn path_file_name(p: Seq<char>) -> Option<Seq<char>>;

/// The path without its last component, as std's `Path::parent` gives it
/// (not for a root or an empty path), as text.
pub uninterp spec fn path_parent(p: Seq<char>) -> Option<Seq<char>>;

/// The last component without its extension, as std's `Path::file_stem`
/// gives it, as text.
pub uninterp spec fn path_file_stem(p: Seq<char>) -> Option<Seq<char>>;

/// Relies on std's `Path::file_name`: it depends on the path alone. A
/// component of a `str` path is itself valid text.
#[verifier::external_body]
pub(crate) fn std_file_name(p: &str) -> (r: Option<String>)
    ensures
        r is Some <==> path_file_name(p@) is Some,
        r matches Some(n) ==> n@ == path_file_name(p@)->0,
{
    std::path::Path::new(p).file_name().and_then(|n| n.to_str()).map(|n| n.to_string())
}

/// Relies on std's `Path::parent`: it depends on the path alone. A prefix of
/// a `str` path is itself valid text.
#[verifier::external_body]
pub(crate) fn std_parent(p: &str) -> (r: Option<String>)
    ensures
        r is Some <==> path_parent(p@) is Some,
        r matches Some(n) ==> n@ == path_parent(p@)->0,
{
    std::path::Path::new(p).parent().and_then(|n| n.to_str()).map(|n| n.to_string())
}

/// Relies on std's `Path::file_stem`: it depends on the path alone.
#[verifier::external_body]
fn std_file_stem(p: &str) -> (r: Option<String>)
    ensures
        r is Some <==> path_file_stem(p@) is Some,
        r matches Some(n) ==> n@ == path_file_stem(p@)->0,
{
    std::path::Path::new(p).file_stem().and_then(|n| n.to_str()).map(|n| n.to_string())
}

/// The stem of the last component of `path`; `InvalidPath` carrying the
/// path when it has none.
pub fn file_stem(path: &str) -> (r: Result<String, CliStateError>)
    ensures
        r is Ok <==> path_file_stem(path@) is Some,
        r matches Ok(s) ==> s@ == path_file_stem(path@)->0,
        r matches Err(e) ==> e matches CliStateError::InvalidPath(p) && p@ == path@,
{
    match std_file_stem(path) {
        Some(stem) => Ok(stem),
        None => Err(CliStateError::InvalidPath(path.to_string())),
    }
}

/// `name` under `base`.
pub fn join_path(base: &str, name: &str) -> (r: String)
    ensures
        r@ == join(base@, name@),
{
    let n = base.unicode_len();
    let b = base.to_string();
    if n == 0 {
        name.to_string()
    } else if base.get_char(n - 1) == '/' {
        b.concat(name)
    } else {
        let with_sep = b.concat("/");
        proof { reveal_strlit("/"); }
        with_sep.concat(name)
    }
}

} // verus!
