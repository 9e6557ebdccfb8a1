//! Random value generation for fuzz-style round-trip checks.
//!
//! The protocol types offer `rand` constructors that draw arbitrary valid
//! instances; this module holds the one outside call they rest on and the
//! verified helpers built over it.

use vstd::prelude::*;

verus! {

/// Relies on rand::random: draws one `u64` from the thread-local generator.
/// Nothing can be promised of a random value.
#[verifier::external_body]
pub(crate) fn random_u64() -> u64 {
    rand::random::<u64>()
}

/// Relies on rand::random: draws one `bool` from the thread-local generator.
/// Nothing can be promised of a random value.
#[verifier::external_body]
pub(crate) fn random_bool() -> bool {
    rand::random::<bool>()
}

/// A value in `lo .. hi` derived from one random draw. The generators only
/// need the bounds, not uniformity.
pub fn random_in_range(lo: u64, hi: u64) -> (r: u64)
    requires
        lo < hi,
    ensures
        lo <= r < hi,
{
    lo + random_u64() % (hi - lo)
}

/// Whether `b` is an ASCII alphanumeric byte.
pub open spec fn is_alphanumeric_byte(b: u8) -> bool {
    (48 <= b <= 57) || (65 <= b <= 90) || (97 <= b <= 122)
}

/// A buffer of `len` random ASCII alphanumeric bytes.
pub fn random_alphanumeric(len: usize) -> (r: Vec<u8>)
    ensures
        r@.len() == len as nat,
        forall|i: int| 0 <= i < r@.len() ==> is_alphanumeric_byte(r@[i]),
{
    let mut out: Vec<u8> = Vec::new();
    let mut i: usize = 0;
    while i < len
        invariant
            i <= len,
            out@.len() == i as nat,
            forall|j: int| 0 <= j < out@.len() ==> is_alphanumeric_byte(out@[j]),
        decreases len - i,
    {
        let d = (random_u64() % 62) as u8;
        let c: u8 = if d < 10 {
            48 + d
        } else if d < 36 {
            65 + (d - 10)
        } else {
            97 + (d - 36)
        };
        out.push(c);
        i = i + 1;
    }
    out
}

} // verus!
