//! Ed25519 keys and signatures, the stand-in for any signature scheme that is
//! hard to forge.
use vstd::prelude::*;

use crate::backend;

verus! {

/// The key that signs.
#[derive(Clone)]
pub struct SigningKey {
    pub secret: [u8; 32],
}

/// The key that signatures are checked against.
#[derive(Clone, Copy, Debug)]
pub struct VerifyingKey {
    pub bytes: [u8; 32],
}

/// A signature.
#[derive(Clone, Copy, Debug)]
pub struct Signature {
    pub bytes: [u8; 64],
}

impl SigningKey {
    /// The verifying key that belongs to this key.
    pub open spec fn public(&self) -> VerifyingKey {
        VerifyingKey { bytes: backend::ed25519_public_key(self.secret@) }
    }

    /// A fresh key. Any 32 bytes are a secret; which ones is left to chance.
    pub fn generate() -> SigningKey {
        SigningKey { secret: backend::ed25519_generate() }
    }

    /// The verifying key that belongs to this key.
    pub fn verifying_key(&self) -> (r: VerifyingKey)
        ensures
            r == self.public(),
    {
        VerifyingKey { bytes: backend::ed25519_public(&self.secret) }
    }

    /// Signs a message. The signature verifies under the verifying key.
    pub fn sign(&self, message: &[u8]) -> (r: Signature)
        ensures
            r.bytes == backend::ed25519_signature(self.secret@, message@),
            self.public().accepts(message@, r),
    {
        Signature { bytes: backend::ed25519_sign(&self.secret, message) }
    }
}

impl VerifyingKey {
    /// The signature verifies for the message.
    pub open spec fn accepts(&self, message: Seq<u8>, signature: Signature) -> bool {
        backend::ed25519_verifies(self.bytes@, message, signature.bytes@)
    }

    /// Checks a signature.
    pub fn verify(&self, message: &[u8], signature: &Signature) -> (r: bool)
        ensures
            r == self.accepts(message@, *signature),
    {
        backend::ed25519_verify(&self.bytes, message, &signature.bytes)
    }
}

} // verus!
