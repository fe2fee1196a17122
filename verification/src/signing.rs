//! App keys and their signatures.

use vstd::prelude::*;
use vstd::string::*;

use crate::bytes::{array_of_32, array_of_64, bytes_of};
use crate::ids::{format_key, key_text};

verus! {

/// The 64-byte ed25519 keypair of a seed, as `sia::signing::PrivateKey::from_seed` makes it:
/// the seed and the public key.
pub uninterp spec fn ed25519_keypair(seed: Seq<u8>) -> Seq<u8>;

/// The signature of a message by the key of a seed, as `sia::signing::PrivateKey::sign` makes
/// it.
pub uninterp spec fn ed25519_signature(seed: Seq<u8>, message: Seq<u8>) -> Seq<u8>;

/// Whether `sia::signing::PublicKey::verify` accepts a signature.
pub uninterp spec fn ed25519_accepts(
    public_key: Seq<u8>,
    message: Seq<u8>,
    signature: Seq<u8>,
) -> bool;

/// Whether 32 bytes are a public key, as `ed25519_dalek::VerifyingKey::from_bytes` tells.
pub uninterp spec fn ed25519_point(public_key: Seq<u8>) -> bool;

/// Calls `sia::signing::PrivateKey::from_seed`. The contract claims that the keypair is a
/// function of the seed, that it begins with the seed, and that its second half is a public
/// key.
#[verifier::external_body]
fn keypair_from_seed(seed: &[u8; 32]) -> (keypair: [u8; 64])
    ensures
        keypair@ == ed25519_keypair(seed@),
        keypair@.take(32) == seed@,
        ed25519_point(keypair@.skip(32)),
{
    let key = sia::signing::PrivateKey::from_seed(seed);
    let mut keypair = [0u8; 64];
    keypair.copy_from_slice(key.as_ref());
    keypair
}

/// Calls `sia::signing::PrivateKey::sign`, which reads the seed in the first half of the
/// keypair and not the public key behind it. The contract claims that the signature is a
/// function of the seed and the message, and that the public key of the seed accepts it.
#[verifier::external_body]
fn sign_message(keypair: &[u8; 64], message: &[u8]) -> (signature: [u8; 64])
    ensures
        signature@ == ed25519_signature(keypair@.take(32), message@),
        ed25519_accepts(ed25519_keypair(keypair@.take(32)).skip(32), message@, signature@),
{
    let signature = sia::signing::PrivateKey::from(*keypair).sign(message);
    *signature.as_ref()
}

/// Calls `sia::signing::PublicKey::verify`, which panics on bytes that are no public key. The
/// contract claims that the answer is a function of the arguments.
#[verifier::external_body]
fn verify_message(public_key: &[u8; 32], message: &[u8], signature: &[u8; 64]) -> (b: bool)
    requires
        ed25519_point(public_key@),
    ensures
        b == ed25519_accepts(public_key@, message@, signature@),
{
    let signature = sia::signing::Signature::from(*signature);
    sia::signing::PublicKey::new(*public_key).verify(message, &signature)
}

/// Calls `ed25519_dalek::VerifyingKey::from_bytes` and tells whether it succeeded, which is a
/// function of the bytes.
#[verifier::external_body]
fn is_public_key(public_key: &[u8; 32]) -> (b: bool)
    ensures
        b == ed25519_point(public_key@),
{
    ed25519_dalek::VerifyingKey::from_bytes(public_key).is_ok()
}

/// The keypair that imported bytes stand for: a keypair as it is, a seed by its keypair.
pub open spec fn imported(bytes: Seq<u8>) -> Option<Seq<u8>> {
    if bytes.len() == 64 {
        Some(bytes)
    } else if bytes.len() == 32 {
        Some(ed25519_keypair(bytes))
    } else {
        None
    }
}

/// An ed25519 keypair that an app signs with.
pub struct AppKey {
    keypair: [u8; 64],
}

impl View for AppKey {
    type V = Seq<u8>;

    closed spec fn view(&self) -> Seq<u8> {
        self.keypair@
    }
}

impl Clone for AppKey {
    fn clone(&self) -> (copy: AppKey)
        ensures
            copy@ == self@,
    {
        AppKey { keypair: self.keypair }
    }
}

impl AppKey {
    /// The public half of the keypair.
    pub open spec fn public_half(self) -> Seq<u8> {
        self@.skip(32)
    }

    /// Whether the public half belongs to the secret half. A keypair that was imported whole is
    /// taken as it is, and need not be consistent.
    pub open spec fn is_consistent(self) -> bool {
        self@ == ed25519_keypair(self@.take(32))
    }

    /// Imports an app key from a 64-byte ed25519 keypair or a 32-byte seed.
    pub fn new(key: &[u8]) -> (result: Result<AppKey, String>)
        ensures
            result is Ok <==> imported(key@) is Some,
            result matches Ok(app_key) ==> {
                &&& imported(key@) == Some(app_key@)
                &&& app_key@.len() == 64
                &&& key@.len() == 32 ==> app_key.is_consistent() && ed25519_point(
                    app_key.public_half(),
                )
            },
            result matches Err(e) ==> e@
                == "app key must be 64 bytes (keypair) or 32 bytes (seed)"@,
            result is Ok <==> key@.len() == 64 || key@.len() == 32,
            key@.len() == 64 ==> result->Ok_0@ == key@,
            key@.len() == 32 ==> result->Ok_0@ == ed25519_keypair(key@),
    {
        if key.len() == 64 {
            Ok(AppKey { keypair: array_of_64(key) })
        } else if key.len() == 32 {
            let seed = array_of_32(key);
            Ok(AppKey { keypair: keypair_from_seed(&seed) })
        } else {
            Err("app key must be 64 bytes (keypair) or 32 bytes (seed)".to_string())
        }
    }

    /// Exports the full 64-byte ed25519 keypair.
    pub fn export(&self) -> (bytes: Vec<u8>)
        ensures
            bytes@ == self@,
            bytes@.len() == 64,
    {
        bytes_of(self.keypair.as_slice())
    }

    fn public_bytes(&self) -> (bytes: [u8; 32])
        ensures
            bytes@ == self.public_half(),
    {
        let mut a: [u8; 32] = [0u8; 32];
        let mut i: usize = 0;
        while i < 32
            invariant
                i <= 32,
                forall|k: int| 0 <= k < i ==> a[k] == self.keypair[k + 32],
            decreases 32 - i,
        {
            a[i] = self.keypair[i + 32];
            i = i + 1;
        }
        assert(a@ =~= self.public_half());
        a
    }

    /// Returns the hex-encoded public key.
    pub fn public_key(&self) -> (s: String)
        ensures
            s@ == key_text(self.public_half()),
            s@ == key_text(self@.subrange(32, 64)),
    {
        proof {
            assert(self@.subrange(32, 64) =~= self.public_half());
        }
        format_key(&self.public_bytes())
    }

    /// Signs a message, returning the 64-byte signature. The key itself accepts it, unless a
    /// keypair was imported whose halves do not belong together.
    pub fn sign(&self, message: &[u8]) -> (signature: Vec<u8>)
        ensures
            signature@ == ed25519_signature(self@.take(32), message@),
            signature@ == ed25519_signature(self@.subrange(0, 32), message@),
            signature@.len() == 64,
            self.is_consistent() ==> ed25519_accepts(
                self.public_half(),
                message@,
                signature@,
            ),
    {
        proof {
            assert(self@.subrange(0, 32) =~= self@.take(32));
        }
        let signature = sign_message(&self.keypair, message);
        bytes_of(signature.as_slice())
    }

    /// Verifies a signature against a message.
    pub fn verify_signature(&self, message: &[u8], signature: &[u8]) -> (result: Result<
        bool,
        String,
    >)
        requires
            signature@.len() == 64 ==> ed25519_point(self.public_half()),
        ensures
            result is Ok <==> signature@.len() == 64,
            result matches Ok(b) ==> b == ed25519_accepts(
                self.public_half(),
                message@,
                signature@,
            ),
            result matches Err(e) ==> e@ == "signatures must be 64 bytes"@,
            result matches Ok(b) ==> b == ed25519_accepts(
                self@.subrange(32, 64),
                message@,
                signature@,
            ),
    {
        proof {
            assert(self@.subrange(32, 64) =~= self.public_half());
        }
        if signature.len() != 64 {
            return Err("signatures must be 64 bytes".to_string());
        }
        let signature = array_of_64(signature);
        Ok(verify_message(&self.public_bytes(), message, &signature))
    }

    /// Verifies a signature against a message, or returns nothing where the public half of the
    /// keypair is no public key.
    pub fn try_verify_signature(&self, message: &[u8], signature: &[u8]) -> (result: Option<
        Result<bool, String>,
    >)
        ensures
            result is None <==> signature@.len() == 64 && !ed25519_point(self.public_half()),
            result matches Some(r) ==> {
                &&& r is Ok <==> signature@.len() == 64
                &&& r matches Ok(b) ==> b == ed25519_accepts(
                    self.public_half(),
                    message@,
                    signature@,
                )
                &&& r matches Err(e) ==> e@ == "signatures must be 64 bytes"@
                &&& r matches Ok(b) ==> b == ed25519_accepts(
                    self@.subrange(32, 64),
                    message@,
                    signature@,
                )
            },
            result is None <==> signature@.len() == 64 && !ed25519_point(self@.subrange(32, 64)),
    {
        proof {
            assert(self@.subrange(32, 64) =~= self.public_half());
        }
        if signature.len() != 64 || is_public_key(&self.public_bytes()) {
            Some(self.verify_signature(message, signature))
        } else {
            None
        }
    }
}

/// An exported key imports as the same key.
pub proof fn lemma_export_imports(key: AppKey)
    ensures
        imported(key@) == Some(key@),
{
}

} // verus!
