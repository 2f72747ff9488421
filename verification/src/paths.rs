//! Filesystem paths, held as text. Joining two paths follows the path
//! rules of the platform the code is built for; the library names that
//! result rather than spelling the rules out.
use vstd::prelude::*;

verus! {

#[verifier::external_type_specification]
#[verifier::external_body]
pub struct ExPath(std::path::Path);

#[verifier::external_type_specification]
#[verifier::external_body]
pub struct ExPathBuf(std::path::PathBuf);

/// The text of `Path::new(base).join(name)`.
pub uninterp spec fn path_joined(base: Seq<char>, name: Seq<char>) -> Seq<char>;

/// `Path::join` on two paths given as text, the result read back as text
/// (it is valid UTF-8, being made of the two texts and separators).
/// Trusted: the result is named by `path_joined`.
#[verifier::external_body]
pub(crate) fn join_text(base: &str, name: &str) -> (r: String)
    ensures
        r@ == path_joined(base@, name@),
{
    std::path::Path::new(base).join(name).to_string_lossy().into_owned()
}

} // verus!
