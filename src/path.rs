use vstd::prelude::*;

verus! {

/// The canonical form that netidx gives a path string.
pub uninterp spec fn canonical_path(s: Seq<char>) -> Seq<char>;

/// Relies on `netidx_core::path::Path::from_str`: the canonical path depends
/// on the characters of `s` alone.
#[verifier::external_body]
pub(crate) fn canonicalize(s: &str) -> (r: String)
    ensures
        r@ == canonical_path(s@),
{
    String::from(netidx_core::path::Path::from_str(s).as_ref())
}

} // verus!
