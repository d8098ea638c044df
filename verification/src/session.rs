//! The identity that the client posts as: a signing key, its public key, a
//! process, and the logical clock of the next event.

use vstd::prelude::*;

use crate::api::{generate_identity, generate_process, spec_identity_public_key, PROCESS_ID_LEN};
use crate::crypto::SigningKey;
use crate::keys::{Process, PublicKey, SpecProcess, SpecPublicKey};
use crate::storage::{spec_identity_of_stored, spec_stored_identity, SpecStoredIdentity, StoredIdentity, fault_message};

verus! {

/// An identity: the keys and process that sign and carry events, and the
/// logical clock that the next event gets.
pub struct Identity {
    pub signing_key: SigningKey,
    pub public_key: PublicKey,
    pub process: Process,
    pub logical_clock: u64,
}

/// The value of an [`Identity`]: the signing key as its secret bytes.
pub struct SpecIdentity {
    pub secret: Seq<u8>,
    pub public_key: SpecPublicKey,
    pub process: SpecProcess,
    pub logical_clock: u64,
}

impl View for Identity {
    type V = SpecIdentity;

    open spec fn view(&self) -> SpecIdentity {
        SpecIdentity {
            secret: self.signing_key@,
            public_key: self.public_key@,
            process: self.process@,
            logical_clock: self.logical_clock,
        }
    }
}

/// The stored form of an identity.
pub open spec fn spec_stored(id: SpecIdentity) -> SpecStoredIdentity {
    spec_stored_identity(id.secret, id.public_key, id.process, id.logical_clock)
}

/// The identity with another logical clock.
pub open spec fn spec_with_clock(id: SpecIdentity, logical_clock: u64) -> SpecIdentity {
    SpecIdentity { logical_clock, ..id }
}

/// Whether `id` is a freshly made identity: a 32-byte secret with its ed25519
/// public key, a 16-byte process, and logical clock 1.
pub open spec fn spec_is_fresh(id: SpecIdentity) -> bool {
    &&& id.secret.len() == 32
    &&& id.public_key == spec_identity_public_key(id.secret)
    &&& id.process.process.len() == PROCESS_ID_LEN
    &&& id.logical_clock == 1
}

impl Identity {
    /// A copy.
    pub fn duplicate(&self) -> (r: Self)
        ensures
            r@ == self@,
    {
        Identity {
            signing_key: self.signing_key.duplicate(),
            public_key: self.public_key.duplicate(),
            process: self.process.duplicate(),
            logical_clock: self.logical_clock,
        }
    }

    /// A new identity: a new random key, a new random process, and logical
    /// clock 1.
    pub fn generate() -> (r: Self)
        ensures
            spec_is_fresh(r@),
    {
        let (signing_key, public_key) = generate_identity();
        let process = generate_process();
        Identity { signing_key, public_key, process, logical_clock: 1 }
    }

    /// The same identity with another logical clock.
    pub fn with_clock(&self, logical_clock: u64) -> (r: Self)
        ensures
            r@ == spec_with_clock(self@, logical_clock),
    {
        let mut r = self.duplicate();
        r.logical_clock = logical_clock;
        r
    }

    /// The stored form of the identity.
    pub fn stored(&self) -> (r: StoredIdentity)
        ensures
            r@ == spec_stored(self@),
    {
        StoredIdentity::from_identity(&self.signing_key, &self.public_key, &self.process, self.logical_clock)
    }

    /// The identity that a stored record holds; an error message where it
    /// cannot be read back.
    pub fn from_stored(stored: &StoredIdentity) -> (r: Result<Self, String>)
        ensures
            match spec_identity_of_stored(stored@) {
                Ok(t) => r matches Ok(id) && id@ == (SpecIdentity {
                    secret: t.0,
                    public_key: t.1,
                    process: t.2,
                    logical_clock: t.3,
                }),
                Err(fault) => r matches Err(e) && fault_message(fault, e@),
            },
    {
        match stored.to_identity() {
            Ok((signing_key, public_key, process, logical_clock)) => Ok(
                Identity { signing_key, public_key, process, logical_clock },
            ),
            Err(e) => Err(e),
        }
    }
}

} // verus!
