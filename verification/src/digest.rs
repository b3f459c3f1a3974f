//! The MD5 digest, computed by the `md5` crate.

use vstd::prelude::*;

verus! {

/// The MD5 digest of `data`. The archive's chain rule is stated over this
/// name; no function of this library says what it is on given bytes.
pub uninterp spec fn md5_digest(data: Seq<u8>) -> Seq<u8>;

/// `md5::compute`: the 16 bytes of the digest of `data`. That the call is a
/// function of the bytes alone is taken on trust.
#[verifier::external_body]
pub(crate) fn md5_of(data: &[u8]) -> (digest: [u8; 16])
    ensures
        digest@ == md5_digest(data@),
{
    md5::compute(data).0
}

} // verus!
