//! Small helpers shared across the crate: string comparison and the
//! credential hashing and constant-time comparison primitives.

use vstd::prelude::*;

verus! {

/// String equality as equality of the character sequences.
pub fn str_eq(a: &str, b: &str) -> (r: bool)
    ensures
        r == (a@ == b@),
{
    let sa: String = a.to_owned();
    let sb: String = b.to_owned();
    sa == sb
}

/// The SHA-256 digest of a string's UTF-8 bytes, named only: the digest is a
/// function of the input alone, computed by the outside crate.
pub uninterp spec fn sha256_of(s: Seq<char>) -> Seq<u8>;

/// Relies on secret_toolkit::crypto::sha_256: the SHA-256 digest of the
/// input bytes, 32 bytes long, depending on the input alone.
#[verifier::external_body]
pub fn create_hashed_password(s1: &str) -> (r: [u8; 32])
    ensures
        r@ == sha256_of(s1@),
        r@.len() == 32,
{
    secret_toolkit::crypto::sha_256(s1.as_bytes())
}

/// Compares two byte strings in a way whose control flow and running time do
/// not depend on where the first mismatching byte occurs: the comparison
/// always walks all bytes and accumulates the mismatches bitwise.
pub fn ct_slice_compare(s1: &[u8], s2: &[u8]) -> (r: bool)
    ensures
        r == (s1@ == s2@),
{
    if s1.len() != s2.len() {
        proof {
            assert(s1@ != s2@);
        }
        return false;
    }
    let n = s1.len();
    let mut acc: u8 = 0;
    let mut i: usize = 0;
    while i < n
        invariant
            0 <= i <= n,
            n == s1@.len(),
            n == s2@.len(),
            (acc == 0) <==> (forall|j: int| 0 <= j < i ==> s1@[j] == s2@[j]),
        decreases n - i,
    {
        let a = s1[i];
        let b = s2[i];
        proof {
            assert(((acc | (a ^ b)) == 0) == (acc == 0 && a == b)) by (bit_vector);
        }
        acc = acc | (a ^ b);
        i += 1;
    }
    if acc == 0 {
        proof {
            assert(s1@ =~= s2@);
        }
        true
    } else {
        proof {
            assert(s1@ != s2@);
        }
        false
    }
}

} // verus!
