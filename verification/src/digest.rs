use vstd::prelude::*;
use sha2::Digest;

verus! {

/// What the configured digest returns for a salt and a byte string. The
/// value depends on the two arguments alone; stating it in full is not
/// this library's business.
pub uninterp spec fn digest_of(salt: Seq<u8>, data: Seq<u8>) -> Seq<u8>;

/// `digest_of`, pinned to its documented 32-byte length: the same bytes
/// where the digest is 32 bytes long, which it always is at run time.
/// Written this way so that every length in the tree model is a plain
/// arithmetic fact.
pub open spec fn digest32(salt: Seq<u8>, data: Seq<u8>) -> Seq<u8> {
    Seq::new(
        32,
        |i: int|
            if i < digest_of(salt, data).len() {
                digest_of(salt, data)[i]
            } else {
                0u8
            },
    )
}

/// Relies on sha2's SHA-256: the digest of `salt` followed by `data` is
/// a function of those bytes alone, and is 32 bytes long.
#[verifier::external_body]
pub(crate) fn sha256_digest(salt: &Vec<u8>, data: &Vec<u8>) -> (r: Vec<u8>)
    ensures
        r@ == digest_of(salt@, data@),
        r@.len() == 32,
        r@ == digest32(salt@, data@),
{
    let mut h = sha2::Sha256::new();
    h.update(salt.as_slice());
    h.update(data.as_slice());
    h.finalize().as_slice().to_vec()
}

} // verus!
