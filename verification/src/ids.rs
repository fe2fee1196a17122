//! The text forms of object IDs, sector roots and public keys.

use vstd::prelude::*;
use vstd::string::*;

use crate::text::has_prefix;

verus! {

/// The lower-case hexadecimal digit of value `d`.
pub open spec fn hex_digit(d: int) -> char {
    if d < 10 {
        (48 + d) as char
    } else {
        (87 + d) as char
    }
}

/// The lower-case hexadecimal form of `bytes`.
pub open spec fn hex(bytes: Seq<u8>) -> Seq<char> {
    Seq::new(
        2 * bytes.len(),
        |i: int|
            hex_digit(
                if i % 2 == 0 {
                    bytes[i / 2] as int / 16
                } else {
                    bytes[i / 2] as int % 16
                },
            ),
    )
}

/// The value of a hexadecimal digit of either case.
pub open spec fn hex_value(c: char) -> Option<int> {
    if '0' <= c <= '9' {
        Some(c as int - 48)
    } else if 'a' <= c <= 'f' {
        Some(c as int - 87)
    } else if 'A' <= c <= 'F' {
        Some(c as int - 55)
    } else {
        None
    }
}

/// The bytes whose hexadecimal form is `s`.
pub open spec fn unhex(s: Seq<char>) -> Option<Seq<u8>> {
    if s.len() % 2 == 0 && forall|i: int| 0 <= i < s.len() ==> hex_value(#[trigger] s[i]) is Some {
        Some(
            Seq::new(
                s.len() / 2,
                |i: int| (16 * hex_value(s[2 * i])->0 + hex_value(s[2 * i + 1])->0) as u8,
            ),
        )
    } else {
        None
    }
}

/// Reading a hexadecimal form gives the bytes back.
pub proof fn lemma_unhex_hex(bytes: Seq<u8>)
    ensures
        unhex(hex(bytes)) == Some(bytes),
{
    let s = hex(bytes);
    assert forall|i: int| 0 <= i < s.len() implies hex_value(#[trigger] s[i]) is Some by {}
    let back = unhex(s)->0;
    assert forall|i: int| 0 <= i < bytes.len() implies #[trigger] back[i] == bytes[i] by {
        let b = bytes[i] as int;
        assert(s[2 * i] == hex_digit(b / 16));
        assert(s[2 * i + 1] == hex_digit(b % 16));
    }
    assert(back =~= bytes);
}

/// The part of a hash's text that holds the digits: what follows the first colon, or all of it.
pub open spec fn hash_digits(s: Seq<char>) -> Seq<char> {
    match s.index_of_first(':') {
        Some(i) => s.skip(i + 1),
        None => s,
    }
}

/// The hash that a text stands for: 64 hexadecimal digits, after a prefix with a colon or
/// without one.
pub open spec fn hash_value(s: Seq<char>) -> Option<Seq<u8>> {
    if hash_digits(s).len() == 64 {
        unhex(hash_digits(s))
    } else {
        None
    }
}

/// The text of a hash.
pub open spec fn hash_text(hash: Seq<u8>) -> Seq<char> {
    hex(hash)
}

/// The public key that a text stands for: 64 hexadecimal digits after `ed25519:`.
pub open spec fn key_value(s: Seq<char>) -> Option<Seq<u8>> {
    if has_prefix(s, "ed25519:"@) && s.len() == "ed25519:"@.len() + 64 {
        unhex(s.skip("ed25519:"@.len() as int))
    } else {
        None
    }
}

/// The text of a public key.
pub open spec fn key_text(key: Seq<u8>) -> Seq<char> {
    "ed25519:"@ + hex(key)
}

/// A hash is read back from its text.
pub proof fn lemma_hash_text(hash: Seq<u8>)
    requires
        hash.len() == 32,
    ensures
        hash_value(hash_text(hash)) == Some(hash),
{
    let s = hex(hash);
    lemma_unhex_hex(hash);
    s.index_of_first_ensures(':');
    assert forall|i: int| 0 <= i < s.len() implies s[i] != ':' by {
        assert(s[i] == hex_digit(hash[i / 2] as int / 16) || s[i] == hex_digit(
            hash[i / 2] as int % 16,
        ));
    }
}

/// A public key is read back from its text.
pub proof fn lemma_key_text(key: Seq<u8>)
    requires
        key.len() == 32,
    ensures
        key_value(key_text(key)) == Some(key),
{
    lemma_unhex_hex(key);
    let prefix = "ed25519:"@;
    assert(key_text(key).take(prefix.len() as int) =~= prefix);
    assert(key_text(key).skip(prefix.len() as int) =~= hex(key));
}

/// What `sia::types::Hash256::from_str` reports of a text that is no hash.
pub uninterp spec fn hash_error(s: Seq<char>) -> Seq<char>;

/// What `sia::signing::PublicKey::from_str` reports of a text that is no public key.
pub uninterp spec fn key_error(s: Seq<char>) -> Seq<char>;

/// Calls `to_string` on a `sia::types::Hash256`: the lower-case hexadecimal form of its bytes.
#[verifier::external_body]
pub(crate) fn format_hash(hash: &[u8; 32]) -> (s: String)
    ensures
        s@ == hash_text(hash@),
{
    sia::types::Hash256::from(*hash).to_string()
}

/// Calls `from_str` of `sia::types::Hash256`. The contract states which texts are hashes, and
/// of which bytes. The words of the error are those of a function of the text.
#[verifier::external_body]
pub(crate) fn parse_hash(s: &str) -> (result: Result<[u8; 32], String>)
    ensures
        result is Ok <==> hash_value(s@) is Some,
        result matches Ok(hash) ==> hash_value(s@) == Some(hash@),
        result matches Err(e) ==> e@ == hash_error(s@),
{
    match s.parse::<sia::types::Hash256>() {
        Ok(hash) => Ok(hash.into()),
        Err(e) => Err(e.to_string()),
    }
}

/// Calls `to_string` on a `sia::signing::PublicKey`: `ed25519:` and the lower-case hexadecimal
/// form of its bytes.
#[verifier::external_body]
pub(crate) fn format_key(key: &[u8; 32]) -> (s: String)
    ensures
        s@ == key_text(key@),
{
    sia::signing::PublicKey::new(*key).to_string()
}

/// Calls `from_str` of `sia::signing::PublicKey`. The contract states which texts are public
/// keys, and of which bytes. The words of the error are those of a function of the text; a
/// missing prefix is reported as such.
#[verifier::external_body]
pub(crate) fn parse_key(s: &str) -> (result: Result<[u8; 32], String>)
    ensures
        result is Ok <==> key_value(s@) is Some,
        result matches Ok(key) ==> key_value(s@) == Some(key@),
        result matches Err(e) ==> e@ == key_error(s@),
        result is Err && !has_prefix(s@, "ed25519:"@) ==> result->Err_0@ == "Missing prefix"@,
{
    match s.parse::<sia::signing::PublicKey>() {
        Ok(key) => Ok(key.into()),
        Err(e) => Err(e.to_string()),
    }
}

/// The text of a hash, such as the ID of an object.
pub fn hash_to_text(hash: &[u8; 32]) -> (s: String)
    ensures
        s@ == hash_text(hash@),
{
    format_hash(hash)
}

/// The text of a public key, such as that of a host.
pub fn key_to_text(key: &[u8; 32]) -> (s: String)
    ensures
        s@ == key_text(key@),
{
    format_key(key)
}

/// The text of a hash has two digits for each byte, the high one first; that of a public key is the
/// same behind `ed25519:`.
pub proof fn lemma_texts(bytes: Seq<u8>)
    ensures
        hash_text(bytes).len() == 2 * bytes.len(),
        forall|i: int|
            0 <= i < bytes.len() ==> (#[trigger] hash_text(bytes)[2 * i])
                == "0123456789abcdef"@[bytes[i] as int / 16] && hash_text(bytes)[2 * i + 1]
                == "0123456789abcdef"@[bytes[i] as int % 16],
        key_text(bytes) == "ed25519:"@ + hash_text(bytes),
{
    reveal_strlit("0123456789abcdef");
    let digits = "0123456789abcdef"@;
    assert forall|i: int| 0 <= i < bytes.len() implies (#[trigger] hash_text(bytes)[2 * i])
        == digits[bytes[i] as int / 16] && hash_text(bytes)[2 * i + 1] == digits[bytes[i] as int
        % 16] by {
        lemma_hex_digit(bytes[i] as int / 16);
        lemma_hex_digit(bytes[i] as int % 16);
    }
}

proof fn lemma_hex_digit(d: int)
    requires
        0 <= d < 16,
    ensures
        hex_digit(d) == "0123456789abcdef"@[d],
{
    reveal_strlit("0123456789abcdef");
}

} // verus!
