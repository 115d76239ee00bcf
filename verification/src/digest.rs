//! BLAKE2b digests of text, used to detect whether a document still
//! serializes to the text it was read from.

use blake2::{Blake2b, Digest};
use vstd::prelude::*;
use vstd::utf8::encode_utf8;

verus! {

/// The 64-byte BLAKE2b digest of `data`, as the `blake2` crate computes it
/// for an unkeyed hasher that was fed `data` in one piece.
pub uninterp spec fn blake2b(data: Seq<u8>) -> Seq<u8>;

/// Runs `Blake2b::new()`, `input` and `result` of the `blake2` crate on
/// `data`. The digest depends on the bytes alone, so it is named by
/// [`blake2b`]; its length is 64, the output size that the crate gives
/// `Blake2b`, and nothing else is claimed of it. The hasher counts the bytes it
/// was fed in 64 bits, which one slice cannot exceed, so the call returns for
/// every input.
#[verifier::external_body]
fn blake2b_of(data: &[u8]) -> (out: Vec<u8>)
    ensures
        out@ == blake2b(data@),
        out@.len() == 64,
{
    let mut hasher = Blake2b::new();
    hasher.input(data);
    hasher.result().to_vec()
}

/// The digest of a text: that of its UTF-8 encoding.
pub open spec fn digest_of(text: Seq<char>) -> Seq<u8> {
    blake2b(encode_utf8(text))
}

/// The digest of `text`.
pub fn hashit(text: &str) -> (out: Vec<u8>)
    ensures
        out@ == digest_of(text@),
        out@.len() == 64,
{
    blake2b_of(text.as_bytes())
}

/// Whether two digests hold the same bytes.
pub fn same_digest(a: &Vec<u8>, b: &Vec<u8>) -> (same: bool)
    ensures
        same == (a@ == b@),
{
    if a.len() != b.len() {
        return false;
    }
    let mut i: usize = 0;
    while i < a.len()
        invariant
            a.len() == b.len(),
            i <= a.len(),
            forall|j: int| 0 <= j < i ==> a@[j] == b@[j],
        decreases a.len() - i,
    {
        if a[i] != b[i] {
            return false;
        }
        i += 1;
    }
    assert(a@ =~= b@);
    true
}

} // verus!
