//! Encryption of shards.

use vstd::prelude::*;

verus! {

/// Bytes of keystream that a shard's cipher can give out.
pub const KEYSTREAM_SIZE: u64 = 274877906880;

/// The keystream of shard `index` under `key`, as `sia::encryption::encrypt_shard` applies it:
/// the byte for position `pos` of the shard.
pub uninterp spec fn shard_keystream(key: Seq<u8>, index: u8, pos: int) -> u8;

/// What encryption makes of `data`, the part of shard `index` that begins at `offset`, under
/// `key`. Decryption is the same.
pub open spec fn shard_cipher(key: Seq<u8>, index: u8, offset: int, data: Seq<u8>) -> Seq<u8> {
    Seq::new(data.len(), |k: int| data[k] ^ shard_keystream(key, index, offset + k))
}

/// Calls `sia::encryption::encrypt_shard`. The contract claims that it applies, in place, a
/// keystream in which the byte for a position of the shard depends on the key, the shard index
/// and that position alone. The keystream is finite: the call panics beyond its end.
#[verifier::external_body]
pub(crate) fn encrypt_shard(key: &[u8; 32], index: u8, offset: usize, data: &mut Vec<u8>)
    requires
        offset + old(data)@.len() <= KEYSTREAM_SIZE,
    ensures
        final(data)@.len() == old(data)@.len(),
        forall|k: int|
            0 <= k < old(data)@.len() ==> (#[trigger] final(data)@[k]) == old(data)@[k]
                ^ shard_keystream(key@, index, offset + k),
{
    let key = sia::encryption::EncryptionKey::from(*key);
    sia::encryption::encrypt_shard(&key, index, offset, data);
}

/// Decrypts a part of a shard.
pub fn decrypt_shard(key: &[u8; 32], index: u8, offset: usize, data: Vec<u8>) -> (plain: Vec<u8>)
    requires
        offset + data@.len() <= KEYSTREAM_SIZE,
    ensures
        plain@ == shard_cipher(key@, index, offset as int, data@),
        plain@.len() == data@.len(),
        forall|k: int|
            0 <= k < data@.len() ==> (#[trigger] plain@[k]) == data@[k] ^ shard_keystream(
                key@,
                index,
                offset + k,
            ),
{
    let mut plain = data;
    encrypt_shard(key, index, offset, &mut plain);
    assert(plain@ =~= shard_cipher(key@, index, offset as int, data@));
    plain
}

/// Decrypting what was encrypted gives the data back, and the other way round.
pub proof fn lemma_cipher_undoes_itself(key: Seq<u8>, index: u8, offset: int, data: Seq<u8>)
    ensures
        shard_cipher(key, index, offset, shard_cipher(key, index, offset, data)) == data,
{
    let twice = shard_cipher(key, index, offset, shard_cipher(key, index, offset, data));
    assert forall|k: int| 0 <= k < data.len() implies twice[k] == data[k] by {
        let b = data[k];
        let s = shard_keystream(key, index, offset + k);
        assert((b ^ s) ^ s == b) by (bit_vector);
    }
    assert(twice =~= data);
}

/// A part of an encrypted shard can be decrypted without the rest: it gives that part of the
/// shard.
pub proof fn lemma_cipher_of_part(key: Seq<u8>, index: u8, shard: Seq<u8>, from: int, to: int)
    requires
        0 <= from <= to <= shard.len(),
    ensures
        shard_cipher(key, index, from, shard_cipher(key, index, 0, shard).subrange(from, to))
            == shard.subrange(from, to),
{
    let part = shard.subrange(from, to);
    let stored = shard_cipher(key, index, 0, shard).subrange(from, to);
    assert(stored =~= shard_cipher(key, index, from, part));
    lemma_cipher_undoes_itself(key, index, from, part);
}

} // verus!
