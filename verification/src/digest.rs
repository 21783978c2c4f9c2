use vstd::prelude::*;

verus! {

/// What the digest primitive returns for a given byte string.
///
/// The output of a cryptographic hash has no shorter description than the
/// algorithm itself, so contracts refer to it only through this name: the
/// same input always yields the same 32 bytes.
pub uninterp spec fn digest32_of(data: Seq<u8>) -> Seq<u8>;

/// Relies on `blake2b_simd::Params::hash`: a 32-byte digest that is a
/// function of the input bytes alone (`hash_length(32)` fixes the output
/// length).
#[verifier::external_body]
pub(crate) fn digest32(data: &Vec<u8>) -> (r: Vec<u8>)
    ensures
        r@ == digest32_of(data@),
        r@.len() == 32,
{
    let hash = blake2b_simd::Params::new().hash_length(32).hash(data.as_slice());
    hash.as_bytes().to_vec()
}

/// Relies on `rand::random`: 32 bytes drawn from the thread-local
/// generator.  Nothing can be promised of a random value beyond its
/// length.
#[verifier::external_body]
pub(crate) fn fresh_randomness() -> (r: Vec<u8>)
    ensures
        r@.len() == 32,
{
    let bytes: [u8; 32] = rand::random();
    bytes.to_vec()
}

} // verus!
