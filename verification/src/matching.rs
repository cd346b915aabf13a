//! Comparing the leading bytes of a digest with a target pattern.
//!
//! The comparison is exact byte equality, position by position from the
//! start, and stops at the first position that disagrees.

use vstd::prelude::*;

verus! {

/// `digest` begins with `pattern`: it is at least as long, and agrees with it
/// at every position of the pattern.
pub open spec fn has_prefix(digest: Seq<u8>, pattern: Seq<u8>) -> bool {
    &&& pattern.len() <= digest.len()
    &&& forall|i: int| 0 <= i < pattern.len() ==> digest[i] == pattern[i]
}

/// `digest` and `pattern` agree at each of their first `n` positions.
pub open spec fn agree_upto(digest: Seq<u8>, pattern: Seq<u8>, n: nat) -> bool {
    &&& n <= digest.len()
    &&& n <= pattern.len()
    &&& forall|i: int| 0 <= i < n ==> digest[i] == pattern[i]
}

/// How a digest stands against a target pattern of which the first
/// `partial_len` bytes count as a partial match.
#[derive(Clone, Copy, Debug, PartialEq, Eq, Structural)]
pub enum Verdict {
    /// The digest disagrees with the pattern within its first `partial_len` bytes.
    Miss,
    /// The digest begins with the first `partial_len` bytes of the pattern,
    /// but not with the whole pattern.
    Partial,
    /// The digest begins with the whole pattern.
    Full,
}

/// The verdict on `digest`, for `partial_len <= pattern.len()`.
pub open spec fn verdict_on(digest: Seq<u8>, pattern: Seq<u8>, partial_len: nat) -> Verdict
    recommends
        partial_len <= pattern.len(),
{
    if has_prefix(digest, pattern) {
        Verdict::Full
    } else if has_prefix(digest, pattern.take(partial_len as int)) {
        Verdict::Partial
    } else {
        Verdict::Miss
    }
}

/// Match detection is exact: one differing byte among the positions of the
/// pattern, or a digest shorter than the pattern, rules the match out.
pub proof fn law_one_difference_rejects(digest: Seq<u8>, pattern: Seq<u8>, at: int)
    requires
        0 <= at < pattern.len(),
        at >= digest.len() || digest[at] != pattern[at],
    ensures
        !has_prefix(digest, pattern),
{
}

/// The number of leading positions at which `digest` and `pattern` agree:
/// the index of the first mismatch, or the length of the shorter of the two
/// when there is none.
pub fn common_prefix_len(digest: &[u8], pattern: &[u8]) -> (n: usize)
    ensures
        agree_upto(digest@, pattern@, n as nat),
        n < digest@.len() && n < pattern@.len() ==> digest@[n as int] != pattern@[n as int],
{
    let mut n: usize = 0;
    while n < pattern.len() && n < digest.len() && digest[n] == pattern[n]
        invariant
            agree_upto(digest@, pattern@, n as nat),
        decreases pattern@.len() - n,
    {
        n += 1;
    }
    n
}

/// Whether the leading bytes of `digest` equal `pattern` exactly.
pub fn matches_pattern(digest: &[u8], pattern: &[u8]) -> (hit: bool)
    ensures
        hit == has_prefix(digest@, pattern@),
{
    common_prefix_len(digest, pattern) == pattern.len()
}

/// Judges `digest` against `pattern`, of which the first `partial_len` bytes
/// count as a partial match.
pub fn judge(digest: &[u8], pattern: &[u8], partial_len: usize) -> (verdict: Verdict)
    requires
        partial_len <= pattern@.len(),
    ensures
        verdict == verdict_on(digest@, pattern@, partial_len as nat),
{
    let n = common_prefix_len(digest, pattern);
    if n == pattern.len() {
        Verdict::Full
    } else if n >= partial_len {
        Verdict::Partial
    } else {
        proof {
            let head = pattern@.take(partial_len as int);
            assert(head[n as int] == pattern@[n as int]);
        }
        Verdict::Miss
    }
}

} // verus!
