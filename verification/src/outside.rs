use rayon::iter::{IntoParallelRefMutIterator, ParallelIterator};
use std::collections::hash_map::DefaultHasher;
use std::hash::{BuildHasher, BuildHasherDefault};
use vstd::prelude::*;

verus! {

/// Sets one byte to zero.
pub fn clear_byte(byte: &mut u8)
    ensures
        *final(byte) == 0,
{
    *byte = 0;
}

/// Calls rayon's `par_iter_mut` and `for_each` on the bytes, with
/// `clear_byte` as the operation. Believed of rayon, not proved: `for_each`
/// runs the operation on every item once, so every byte is zero afterwards
/// and there are as many bytes as before.
#[verifier::external_body]
pub(crate) fn clear_bytes(bytes: &mut Vec<u8>)
    ensures
        final(bytes)@.len() == old(bytes)@.len(),
        forall|i: int| 0 <= i < final(bytes)@.len() ==> final(bytes)@[i] == 0,
{
    bytes.par_iter_mut().for_each(|byte| clear_byte(byte));
}

/// Calls `rand::random` for a 32-bit word. Nothing is claimed of the word:
/// it comes from the thread's random generator.
#[verifier::external_body]
pub(crate) fn random_word() -> u32 {
    rand::random::<u32>()
}

/// The 64-bit hash that the standard library's `DefaultHasher`, freshly made,
/// gives to a string.
pub uninterp spec fn name_hash(name: Seq<char>) -> u64;

/// Calls `hash_one` of the standard library on a `DefaultHasher` that is
/// freshly made. Believed of the standard library, not proved: such a hasher
/// carries no seed, so the hash is a function of the characters of the
/// string alone.
#[verifier::external_body]
pub(crate) fn hash_name(name: &str) -> (hash: u64)
    ensures
        hash == name_hash(name@),
{
    BuildHasherDefault::<DefaultHasher>::default().hash_one(name)
}

} // verus!
