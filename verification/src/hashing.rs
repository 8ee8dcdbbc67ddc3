//! Content hashing for change detection, through the `blake2` crate.
//! Digests are only ever compared with each other; nothing reads into
//! them.

use vstd::prelude::*;

verus! {

/// The digest of a text.
pub uninterp spec fn hash_of(s: Seq<char>) -> Seq<u8>;

/// Relies on blake2::Blake2b512 through the Digest trait: the digest
/// of a text depends on the text alone.
#[verifier::external_body]
pub(crate) fn hash_text(s: &str) -> (r: Vec<u8>)
    ensures
        r@ == hash_of(s@),
{
    <blake2::Blake2b512 as blake2::Digest>::digest(s.as_bytes()).to_vec()
}

/// Whether two digests are the same bytes.
pub(crate) fn bytes_equal(a: &Vec<u8>, b: &Vec<u8>) -> (r: bool)
    ensures
        r == (a@ == b@),
{
    if a.len() != b.len() {
        return false;
    }
    let n = a.len();
    let mut i: usize = 0;
    while i < n
        invariant
            n == a@.len(),
            n == b@.len(),
            i <= n,
            forall|j: int| 0 <= j < i ==> a@[j] == b@[j],
        decreases n - i,
    {
        if a[i] != b[i] {
            return false;
        }
        i += 1;
    }
    proof {
        assert(a@ =~= b@);
    }
    true
}

} // verus!
