//! File paths and file URIs: converting between them and making paths relative to the
//! workspace mount directory.
use vstd::prelude::*;

verus! {

/// The view of an optional string.
pub open spec fn opt_view(o: Option<String>) -> Option<Seq<char>> {
    match o {
        Some(s) => Some(s@),
        None => None,
    }
}

/// What `Path::strip_prefix` gives for `path` and `base`: the rest of the path when `base`
/// is a prefix of it, component by component.
pub uninterp spec fn spec_strip_path_prefix(path: Seq<char>, base: Seq<char>) -> Option<Seq<char>>;

/// What `Path::extension` gives for `path`.
pub uninterp spec fn spec_path_extension(path: Seq<char>) -> Option<Seq<char>>;

/// What `Path::join` gives for `base` and `rest`.
pub uninterp spec fn spec_join_path(base: Seq<char>, rest: Seq<char>) -> Seq<char>;

/// What `Path::file_name` gives for `path`.
pub uninterp spec fn spec_path_file_name(path: Seq<char>) -> Option<Seq<char>>;

/// What `Path::parent` gives for `path`.
pub uninterp spec fn spec_path_parent(path: Seq<char>) -> Option<Seq<char>>;

/// The file path that `url::Url::to_file_path` decodes from a URI, when it parses and is a
/// local file URL.
pub uninterp spec fn spec_uri_file_path(uri: Seq<char>) -> Option<Seq<char>>;

/// The (percent-encoded) path component that `url::Url::path` gives, when the URI parses.
pub uninterp spec fn spec_uri_path(uri: Seq<char>) -> Option<Seq<char>>;

/// The `file://` URI that `url::Url::from_file_path` builds for an absolute path.
pub uninterp spec fn spec_file_uri(path: Seq<char>) -> Option<Seq<char>>;

/// Calls `std::path::Path::strip_prefix` and gives the remaining path when `base` is a
/// prefix of `path`. Claimed: the result is a function of the two paths alone.
#[verifier::external_body]
pub(crate) fn strip_path_prefix(path: &str, base: &str) -> (r: Option<String>)
    ensures
        opt_view(r) == spec_strip_path_prefix(path@, base@),
{
    std::path::Path::new(path).strip_prefix(base).ok().map(|p| p.to_string_lossy().into_owned())
}

/// Calls `std::path::Path::extension`. Claimed: the result is a function of the path alone.
#[verifier::external_body]
pub(crate) fn path_extension(path: &str) -> (r: Option<String>)
    ensures
        opt_view(r) == spec_path_extension(path@),
{
    std::path::Path::new(path).extension().map(|e| e.to_string_lossy().into_owned())
}

/// A path that starts at the root: `Path::is_absolute` on Unix.
pub open spec fn is_absolute_path(p: Seq<char>) -> bool {
    p.len() > 0 && p[0] == '/'
}

/// Calls `std::path::Path::join`. Claimed, as its documentation says: the result is a
/// function of the two paths alone; an absolute `rest` replaces the base; a relative one
/// extends it, so the base is kept as a prefix, and when the base is not empty and ends in
/// no separator, a non-empty `rest` follows after a `/`.
#[verifier::external_body]
pub(crate) fn join_path(base: &str, rest: &str) -> (r: String)
    ensures
        r@ == spec_join_path(base@, rest@),
        is_absolute_path(rest@) ==> r@ == rest@,
        !is_absolute_path(rest@) ==> base@.is_prefix_of(r@),
        !is_absolute_path(rest@) && rest@.len() > 0 && base@.len() > 0 && base@.last() != '/' ==> r@ == base@
            + seq!['/'] + rest@,
{
    std::path::Path::new(base).join(rest).to_string_lossy().into_owned()
}

/// Calls `std::path::Path::file_name`. Claimed: the result is a function of the path alone.
#[verifier::external_body]
pub(crate) fn path_file_name(path: &str) -> (r: Option<String>)
    ensures
        opt_view(r) == spec_path_file_name(path@),
{
    std::path::Path::new(path).file_name().map(|n| n.to_string_lossy().into_owned())
}

/// Calls `std::path::Path::parent`. Claimed: the result is a function of the path alone.
#[verifier::external_body]
pub(crate) fn path_parent(path: &str) -> (r: Option<String>)
    ensures
        opt_view(r) == spec_path_parent(path@),
{
    std::path::Path::new(path).parent().map(|p| p.to_string_lossy().into_owned())
}

/// Parses the URI with `url::Url::parse` and decodes it with `Url::to_file_path`.
/// Claimed: the result is a function of the URI text alone.
#[verifier::external_body]
pub(crate) fn uri_file_path(uri: &str) -> (r: Option<String>)
    ensures
        opt_view(r) == spec_uri_file_path(uri@),
{
    match url::Url::parse(uri) {
        Ok(u) => match u.to_file_path() {
            Ok(p) => Some(p.to_string_lossy().into_owned()),
            Err(_) => None,
        },
        Err(_) => None,
    }
}

/// Parses the URI with `url::Url::parse` and gives `Url::path`. Claimed: the result is a
/// function of the URI text alone.
#[verifier::external_body]
pub(crate) fn uri_path(uri: &str) -> (r: Option<String>)
    ensures
        opt_view(r) == spec_uri_path(uri@),
{
    match url::Url::parse(uri) {
        Ok(u) => Some(u.path().to_string()),
        Err(_) => None,
    }
}

/// Calls `url::Url::from_file_path`, which on Unix fails exactly for a path that is not
/// absolute. Claimed: the result is a function of the path alone, and there is one exactly
/// for an absolute path.
#[verifier::external_body]
pub(crate) fn file_uri(path: &str) -> (r: Option<String>)
    ensures
        opt_view(r) == spec_file_uri(path@),
        r is Some <==> is_absolute_path(path@),
{
    match url::Url::from_file_path(path) {
        Ok(u) => Some(u.as_str().to_string()),
        Err(_) => None,
    }
}

/// A path relative to the mount directory: the path with the mount directory stripped when
/// it lies under it, the path itself otherwise.
pub open spec fn relative_path_spec(path: Seq<char>, mount_dir: Seq<char>) -> Seq<char> {
    match spec_strip_path_prefix(path, mount_dir) {
        Some(rest) => rest,
        None => path,
    }
}

/// Makes an absolute path relative to the mount directory.
pub fn absolute_path_to_relative_path_string(path: &str, mount_dir: &str) -> (r: String)
    ensures
        r@ == relative_path_spec(path@, mount_dir@),
{
    match strip_path_prefix(path, mount_dir) {
        Some(rest) => rest,
        None => path.to_owned(),
    }
}

/// The file path a URI names: its decoded file path, or else its path component, or else
/// (for text that does not parse as a URI) the text itself.
pub open spec fn uri_path_spec(uri: Seq<char>) -> Seq<char> {
    match spec_uri_file_path(uri) {
        Some(p) => p,
        None => match spec_uri_path(uri) {
            Some(p) => p,
            None => uri,
        },
    }
}

/// The path of a URI relative to the mount directory.
pub open spec fn uri_relative_spec(uri: Seq<char>, mount_dir: Seq<char>) -> Seq<char> {
    relative_path_spec(uri_path_spec(uri), mount_dir)
}

/// The path that a file URI names, relative to the mount directory.
pub fn uri_to_relative_path_string(uri: &str, mount_dir: &str) -> (r: String)
    ensures
        r@ == uri_relative_spec(uri@, mount_dir@),
{
    let path = match uri_file_path(uri) {
        Some(p) => p,
        None => match uri_path(uri) {
            Some(p) => p,
            None => uri.to_owned(),
        },
    };
    absolute_path_to_relative_path_string(path.as_str(), mount_dir)
}

/// The absolute path of a workspace file: the mount directory joined with the relative path.
pub fn full_path(mount_dir: &str, relative: &str) -> (r: String)
    ensures
        r@ == spec_join_path(mount_dir@, relative@),
{
    join_path(mount_dir, relative)
}

} // verus!
