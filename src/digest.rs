//! Content digests: the 128-bit MD5 of a byte sequence.
use vstd::prelude::*;

verus! {

/// The MD5 digest of `data`, as sixteen bytes.
pub uninterp spec fn md5_of(data: Seq<u8>) -> Seq<u8>;

/// Relies on `md5::compute`: the 16-byte MD5 digest of the bytes given,
/// a function of those bytes alone.
#[verifier::external_body]
pub fn md5_digest(data: &[u8]) -> (r: [u8; 16])
    ensures
        r@ == md5_of(data@),
{
    md5::compute(data).0
}

/// Whether two digests hold the same bytes.
pub fn digests_equal(a: &[u8; 16], b: &[u8; 16]) -> (r: bool)
    ensures
        r == (a@ == b@),
{
    let mut i: usize = 0;
    while i < 16
        invariant
            i <= 16,
            a@.len() == 16,
            b@.len() == 16,
            forall|k: int| 0 <= k < i ==> a@[k] == b@[k],
        decreases 16 - i,
    {
        if a[i] != b[i] {
            assert(a@[i as int] != b@[i as int]);
            return false;
        }
        i = i + 1;
    }
    assert(a@ =~= b@);
    true
}

/// Whether two contents match: equal length and equal digest.
pub fn files_match(a: &[u8], b: &[u8]) -> (r: bool)
    ensures
        r == (a@.len() == b@.len() && md5_of(a@) == md5_of(b@)),
{
    if a.len() != b.len() {
        return false;
    }
    let da = md5_digest(a);
    let db = md5_digest(b);
    digests_equal(&da, &db)
}

} // verus!
