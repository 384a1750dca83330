//! File-system paths, as strings.

use vstd::prelude::*;

verus! {

/// What `Path::join` gives for a base and a part.
pub uninterp spec fn path_join(base: Seq<char>, part: Seq<char>) -> Seq<char>;

/// `Path::new(base).join(part)`, as a string. `Path::join` follows the
/// platform's path rules, so the result is only named: the same base and
/// part give the same path.
#[verifier::external_body]
pub fn join_path(base: &str, part: &str) -> (r: String)
    ensures
        r@ == path_join(base@, part@),
{
    std::path::Path::new(base).join(part).to_string_lossy().into_owned()
}

} // verus!
