//! Content digests. The hash itself comes from an outside crate; the
//! library only names its result.

use vstd::prelude::*;
use crypto::digest::Digest;
use crypto::sha2::Sha256;

verus! {

/// The SHA-256 digest of a byte sequence, written as lowercase hex digits.
pub uninterp spec fn digest_of(bytes: Seq<u8>) -> Seq<char>;

/// Relies on crypto's `Sha256` (`Digest::input`, `Digest::result_str`): the
/// hex digest is a function of the input bytes alone, two digits for each
/// of the 32 result bytes.
#[verifier::external_body]
pub(crate) fn sha256_hex(bytes: &[u8]) -> (r: String)
    ensures
        r@ == digest_of(bytes@),
        r@.len() == 64,
{
    let mut hasher = Sha256::new();
    hasher.input(bytes);
    hasher.result_str()
}

} // verus!
