//! Random keys.

use vstd::prelude::*;

use crate::bytes::bytes_of;

verus! {

/// Calls `rand::random` for an array of bytes. Nothing is claimed of the bytes.
#[verifier::external_body]
pub(crate) fn random_bytes<const N: usize>() -> [u8; N] {
    rand::random()
}

/// Generates a random 32-byte encryption key for object-level encryption. Upload workers that
/// share an object share a single data key.
pub fn generate_data_key() -> (key: Vec<u8>)
    ensures
        key@.len() == 32,
{
    let key: [u8; 32] = random_bytes::<32>();
    bytes_of(key.as_slice())
}

} // verus!
