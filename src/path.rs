//! What the engine reads of a path: its extension, for the filter, and its final
//! component, for the name shown beside new content.

use vstd::prelude::*;

verus! {

/// The extension of the final component of a path, as `std::path::Path` reads it.
pub uninterp spec fn path_extension(p: Seq<char>) -> Option<Seq<char>>;

/// The final component of a path, as `std::path::Path` reads it.
pub uninterp spec fn path_file_name(p: Seq<char>) -> Option<Seq<char>>;

/// Relies on `std::path::Path::extension`: the text after the last dot of the
/// final component, when that component has one that does not open it.
#[verifier::external_body]
fn extension_of(path: &str) -> (r: Option<String>)
    ensures
        r matches Some(e) ==> path_extension(path@) == Some(e@),
        r is None ==> path_extension(path@) is None,
{
    match std::path::Path::new(path).extension() {
        Some(e) => e.to_str().map(String::from),
        None => None,
    }
}

/// Relies on `std::path::Path::file_name`: the final component of the path,
/// unless the path ends in `..`.
#[verifier::external_body]
fn file_name_of(path: &str) -> (r: Option<String>)
    ensures
        r matches Some(n) ==> path_file_name(path@) == Some(n@),
        r is None ==> path_file_name(path@) is None,
{
    match std::path::Path::new(path).file_name() {
        Some(n) => n.to_str().map(String::from),
        None => None,
    }
}

/// The filter: a path is tracked iff its extension is exactly `ext`.
pub open spec fn passes_filter(p: Seq<char>, ext: Seq<char>) -> bool {
    path_extension(p) == Some(ext)
}

/// The name shown for a tracked file: its final component, or `unknown`.
pub open spec fn display_name(p: Seq<char>) -> Seq<char> {
    match path_file_name(p) {
        Some(n) => n,
        None => "unknown"@,
    }
}

/// Whether `path` is one that the engine tracks, given the extension `ext`.
pub fn matches_extension(path: &str, ext: &String) -> (r: bool)
    ensures
        r == passes_filter(path@, ext@),
{
    match extension_of(path) {
        Some(e) => e == *ext,
        None => false,
    }
}

/// The name shown beside the content read from `path`.
pub fn name_for(path: &str) -> (r: String)
    ensures
        r@ == display_name(path@),
{
    match file_name_of(path) {
        Some(n) => n,
        None => {
            let u = String::from_str("unknown");
            proof {
                reveal_strlit("unknown");
            }
            u
        },
    }
}

} // verus!
