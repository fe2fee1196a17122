//! Copies of byte strings.

use vstd::prelude::*;
use vstd::string::*;

verus! {

/// Copies 32 bytes into an array.
pub fn array_of_32(bytes: &[u8]) -> (a: [u8; 32])
    requires
        bytes.len() == 32,
    ensures
        a@ == bytes@,
{
    let mut a: [u8; 32] = [0u8; 32];
    let mut i: usize = 0;
    while i < 32
        invariant
            i <= 32,
            bytes.len() == 32,
            forall|k: int| 0 <= k < i ==> a[k] == bytes[k],
        decreases 32 - i,
    {
        a[i] = bytes[i];
        i = i + 1;
    }
    assert(a@ =~= bytes@);
    a
}

/// Copies 64 bytes into an array.
pub fn array_of_64(bytes: &[u8]) -> (a: [u8; 64])
    requires
        bytes.len() == 64,
    ensures
        a@ == bytes@,
{
    let mut a: [u8; 64] = [0u8; 64];
    let mut i: usize = 0;
    while i < 64
        invariant
            i <= 64,
            bytes.len() == 64,
            forall|k: int| 0 <= k < i ==> a[k] == bytes[k],
        decreases 64 - i,
    {
        a[i] = bytes[i];
        i = i + 1;
    }
    assert(a@ =~= bytes@);
    a
}

/// Copies a slice into a vector.
pub fn bytes_of(bytes: &[u8]) -> (v: Vec<u8>)
    ensures
        v@ == bytes@,
{
    let mut v: Vec<u8> = Vec::new();
    v.extend_from_slice(bytes);
    assert(v@ =~= bytes@);
    v
}

/// The bytes in an option.
pub open spec fn option_bytes(v: Option<Vec<u8>>) -> Option<Seq<u8>> {
    match v {
        Some(v) => Some(v@),
        None => None,
    }
}

/// Reads an encryption key, which has 32 bytes.
pub fn encryption_key(bytes: &[u8]) -> (result: Result<[u8; 32], String>)
    ensures
        result is Ok <==> bytes@.len() == 32,
        result matches Ok(key) ==> key@ == bytes@,
        result matches Err(e) ==> e@ == "invalid key length"@,
{
    if bytes.len() != 32 {
        return Err("invalid key length".to_string());
    }
    Ok(array_of_32(bytes))
}

} // verus!
