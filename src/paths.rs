//! Path operations taken from `std::path`, each behind a wrapper whose
//! result is named by a spec function of the path text alone.
use vstd::prelude::*;

verus! {

pub uninterp spec fn stem_of(path: Seq<char>) -> Option<Seq<char>>;

pub uninterp spec fn with_file_name_of(path: Seq<char>, name: Seq<char>) -> Seq<char>;

pub uninterp spec fn with_extension_of(path: Seq<char>, ext: Seq<char>) -> Seq<char>;

/// Relies on `std::path::Path::file_stem`: the stem of a path depends on the
/// path text alone, and is absent where the path has no file name.
#[verifier::external_body]
pub(crate) fn file_stem(path: &str) -> (r: Option<String>)
    ensures
        match r {
            Some(s) => stem_of(path@) == Some(s@),
            None => stem_of(path@) is None,
        },
{
    std::path::Path::new(path).file_stem().map(|s| s.to_string_lossy().into_owned())
}

/// Relies on `std::path::Path::with_file_name`: the sibling path with file
/// name `name`, a function of the two texts alone.
#[verifier::external_body]
pub(crate) fn with_file_name(path: &str, name: &str) -> (r: String)
    ensures
        r@ == with_file_name_of(path@, name@),
{
    std::path::Path::new(path).with_file_name(name).to_string_lossy().into_owned()
}

/// Relies on `std::path::Path::with_extension`: the path with its extension
/// set to `ext`, a function of the two texts alone. It panics on an
/// extension that holds a path separator, which `requires` leaves out.
#[verifier::external_body]
pub(crate) fn with_extension(path: &str, ext: &str) -> (r: String)
    requires
        forall|i: int| 0 <= i < ext@.len() ==> ext@[i] != '/' && ext@[i] != '\\',
    ensures
        r@ == with_extension_of(path@, ext@),
{
    std::path::Path::new(path).with_extension(ext).to_string_lossy().into_owned()
}

} // verus!
