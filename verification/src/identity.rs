//! Identity keys, the registration data that holds the account's own key
//! pairs, and the rule by which a stored identity is trusted.

use vstd::prelude::*;

verus! {

/// A public identity key, in its serialized form.
#[derive(Debug, PartialEq, Eq)]
pub struct IdentityKey {
    pub serialized: Vec<u8>,
}

/// An identity key pair, in its serialized form.
#[derive(Debug, PartialEq, Eq)]
pub struct IdentityKeyPair {
    pub serialized: Vec<u8>,
}

/// What registration left in the store: the registration ID and the key
/// pairs of the account's ACI and, once it has one, PNI identity.
pub struct RegistrationData {
    pub registration_id: u32,
    pub aci_identity_keypair: IdentityKeyPair,
    pub pni_identity_keypair: Option<IdentityKeyPair>,
}

/// What to do when a contact's identity key changes.
#[derive(Debug, Clone, Copy, PartialEq, Eq)]
pub enum OnNewIdentity {
    /// Refuse the changed key.
    Reject,
    /// Trust the changed key.
    Trust,
}

/// The verification state recorded for a saved identity.
#[derive(Debug, Clone, Copy, PartialEq, Eq)]
pub enum VerifiedState {
    /// A first identity for the address.
    Default,
    /// An identity that replaced an earlier one.
    Unverified,
}

/// The direction of the message for which an identity is checked.
#[derive(Debug, Clone, Copy, PartialEq, Eq)]
pub enum Direction {
    Sending,
    Receiving,
}

/// Whether an identity is trusted, given the key stored for its address (if
/// any): a new address is trusted, an unchanged key is trusted, and a changed
/// key is trusted only where the policy says so.
pub open spec fn trusted(stored: Option<Seq<u8>>, offered: Seq<u8>, policy: OnNewIdentity) -> bool {
    match stored {
        None => true,
        Some(known) => known == offered || policy == OnNewIdentity::Trust,
    }
}

/// The state recorded for an identity that was saved, by whether the address
/// had one before.
pub open spec fn verified_state(existed_before: bool) -> VerifiedState {
    if existed_before {
        VerifiedState::Unverified
    } else {
        VerifiedState::Default
    }
}

/// The byte that stands for a verification state in a stored record.
pub open spec fn state_byte(state: VerifiedState) -> u8 {
    match state {
        VerifiedState::Default => 0u8,
        VerifiedState::Unverified => 1u8,
    }
}

/// The record of a saved identity's verification state: the state's byte,
/// then the serialized identity key.
pub open spec fn verification_record(state: VerifiedState, identity: Seq<u8>) -> Seq<u8> {
    seq![state_byte(state)] + identity
}

/// The record of a saved identity's verification state, as bytes.
pub fn verification_record_bytes(state: VerifiedState, identity: &[u8]) -> (r: Vec<u8>)
    ensures
        r@ == verification_record(state, identity@),
{
    let mut out: Vec<u8> = Vec::new();
    match state {
        VerifiedState::Default => out.push(0u8),
        VerifiedState::Unverified => out.push(1u8),
    }
    crate::encoding::append_bytes(&mut out, identity);
    out
}

/// Decides whether an identity is trusted, from the key stored for its
/// address.
pub fn trust_decision(stored: Option<&[u8]>, offered: &[u8], policy: OnNewIdentity) -> (r: bool)
    ensures
        r == trusted(
            match stored {
                Some(s) => Some(s@),
                None => None,
            },
            offered@,
            policy,
        ),
{
    match stored {
        None => true,
        Some(known) => {
            if crate::encoding::bytes_equal(known, offered) {
                true
            } else {
                match policy {
                    OnNewIdentity::Trust => true,
                    OnNewIdentity::Reject => false,
                }
            }
        },
    }
}

/// The state to record for a saved identity.
pub fn verified_state_for(existed_before: bool) -> (r: VerifiedState)
    ensures
        r == verified_state(existed_before),
{
    if existed_before {
        VerifiedState::Unverified
    } else {
        VerifiedState::Default
    }
}

} // verus!
