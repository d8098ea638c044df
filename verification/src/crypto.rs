//! Identity keys: ed25519 signing keys, their public keys and signatures, and
//! the random bytes that new keys and process identifiers are made from.

use vstd::prelude::*;

verus! {

/// The ed25519 public key of a 32-byte secret key (RFC 8032), as 32 bytes.
pub uninterp spec fn spec_ed25519_public_key(secret: Seq<u8>) -> Seq<u8>;

/// The ed25519 signature of `msg` under a 32-byte secret key (RFC 8032), as
/// 64 bytes. Ed25519 signing is deterministic: the signature depends on the
/// key and the message alone.
pub uninterp spec fn spec_ed25519_signature(secret: Seq<u8>, msg: Seq<u8>) -> Seq<u8>;

/// `ed25519_dalek::SigningKey::from_bytes`, then `verifying_key` and
/// `VerifyingKey::to_bytes`: the public key of the secret key. Claimed: the
/// result is the key's public key, a function of the secret bytes alone.
#[verifier::external_body]
fn ed25519_public_key(secret: &[u8; 32]) -> (r: [u8; 32])
    ensures
        r@ == spec_ed25519_public_key(secret@),
{
    ed25519_dalek::SigningKey::from_bytes(secret).verifying_key().to_bytes()
}

/// `ed25519_dalek::Signer::sign` on the `SigningKey` of `secret`, then
/// `Signature::to_bytes`. Claimed: the result is the signature of `msg` under
/// the key, a function of the secret bytes and the message alone (the crate
/// signs by RFC 8032, with no randomness).
#[verifier::external_body]
fn ed25519_sign(secret: &[u8; 32], msg: &[u8]) -> (r: [u8; 64])
    ensures
        r@ == spec_ed25519_signature(secret@, msg@),
{
    ed25519_dalek::Signer::sign(&ed25519_dalek::SigningKey::from_bytes(secret), msg).to_bytes()
}

/// `rand::RngCore::fill_bytes` on the operating system's generator
/// (`rand::rngs::OsRng`, unwrapping errors). Claimed: `n` bytes; what they
/// are is left open, since they are random.
#[verifier::external_body]
pub(crate) fn random_bytes(n: usize) -> (r: Vec<u8>)
    ensures
        r@.len() == n,
{
    let mut v = vec![0u8; n];
    rand::RngCore::fill_bytes(&mut rand::TryRngCore::unwrap_err(rand::rngs::OsRng), &mut v);
    v
}

/// An ed25519 signing key, held as its 32 secret bytes.
pub struct SigningKey {
    secret: [u8; 32],
}

impl View for SigningKey {
    type V = Seq<u8>;

    /// The secret bytes.
    closed spec fn view(&self) -> Seq<u8> {
        self.secret@
    }
}

impl SigningKey {
    /// The key with these secret bytes.
    pub fn from_bytes(bytes: &[u8; 32]) -> (r: Self)
        ensures
            r@ == bytes@,
    {
        SigningKey { secret: *bytes }
    }

    /// The secret bytes.
    pub fn to_bytes(&self) -> (r: [u8; 32])
        ensures
            r@ == self@,
    {
        self.secret
    }

    /// The secret has 32 bytes.
    pub proof fn lemma_len(&self)
        ensures
            self@.len() == 32,
    {
    }

    /// The bytes of the key's public key.
    pub fn verifying_key_bytes(&self) -> (r: [u8; 32])
        ensures
            r@ == spec_ed25519_public_key(self@),
    {
        ed25519_public_key(&self.secret)
    }

    /// The signature of `msg` under this key.
    pub fn sign(&self, msg: &[u8]) -> (r: [u8; 64])
        ensures
            r@ == spec_ed25519_signature(self@, msg@),
    {
        ed25519_sign(&self.secret, msg)
    }

    /// A copy.
    pub fn duplicate(&self) -> (r: Self)
        ensures
            r@ == self@,
    {
        SigningKey { secret: self.secret }
    }
}

/// A signing key from 32 secret bytes; `None` for any other length.
pub fn signing_key_from_slice(bytes: &[u8]) -> (r: Option<SigningKey>)
    ensures
        match r {
            Some(k) => bytes@.len() == 32 && k@ == bytes@,
            None => bytes@.len() != 32,
        },
{
    if bytes.len() != 32 {
        return None;
    }
    let mut a = [0u8; 32];
    let mut i: usize = 0;
    while i < 32
        invariant
            bytes@.len() == 32,
            0 <= i <= 32,
            a@.len() == 32,
            forall|j: int| 0 <= j < i ==> a@[j] == bytes@[j],
        decreases 32 - i,
    {
        a.set(i, bytes[i]);
        i = i + 1;
    }
    assert(a@ =~= bytes@);
    Some(SigningKey::from_bytes(&a))
}

} // verus!
