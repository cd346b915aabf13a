//! The hash function of the search: SHA-256, computed by the `crypto` crate.
//!
//! Nothing here is proved about SHA-256 itself. The digest is a named
//! function of the message bytes, and the search is specified over that name.

use crypto::digest::Digest;
use crypto::sha2::Sha256;
use vstd::prelude::*;

verus! {

/// Number of bytes in a digest.
pub const DIGEST_LEN: usize = 32;

/// The longest message, in bytes, that the hasher takes: its length in bits
/// has to fit in 64 bits.
pub const MAX_MESSAGE_LEN: u64 = 0x1FFF_FFFF_FFFF_FFFF;

/// The SHA-256 digest of `message`: a function of the message bytes alone.
pub uninterp spec fn sha256(message: Seq<u8>) -> Seq<u8>;

/// Trusted: feeds `message` to a fresh `crypto::sha2::Sha256` with
/// `Digest::input` and reads the digest with `Digest::result`.
///
/// The contract claims that the 32 bytes written depend on the bytes of
/// `message` and on nothing else, and leaves out the messages of `2^61` bytes
/// or more, on which `input` panics because the bit count overflows.
#[verifier::external_body]
pub(crate) fn sha256_raw(message: &[u8]) -> (out: [u8; 32])
    requires
        message@.len() <= MAX_MESSAGE_LEN,
    ensures
        out@ == sha256(message@),
{
    let mut hasher = Sha256::new();
    let mut out = [0u8; 32];
    hasher.input(message);
    hasher.result(&mut out);
    out
}

/// The SHA-256 digest of `message`, or `None` when the message is too long
/// for the hasher.
pub fn digest_of(message: &[u8]) -> (out: Option<[u8; DIGEST_LEN]>)
    ensures
        match out {
            Some(digest) => message@.len() <= MAX_MESSAGE_LEN && digest@ == sha256(message@),
            None => message@.len() > MAX_MESSAGE_LEN,
        },
{
    if message.len() as u64 <= MAX_MESSAGE_LEN {
        Some(sha256_raw(message))
    } else {
        None
    }
}

/// Hashing is pure: messages with the same bytes have the same digest, so
/// hashing one buffer twice gives one digest.
pub proof fn law_digest_is_pure(first: Seq<u8>, second: Seq<u8>)
    requires
        first =~= second,
    ensures
        sha256(first) == sha256(second),
{
}

} // verus!
