//! The errors that the protocol stores report.

use vstd::prelude::*;

use crate::encoding::ProtocolAddress;

verus! {

/// The operation whose failure left the store in an unexpected state.
#[derive(Debug, Clone, Copy, PartialEq, Eq)]
pub enum StateContext {
    /// Saving a signed pre-key failed.
    SaveSignedPreKey,
    /// Saving a Kyber pre-key failed.
    SaveKyberPreKey,
    /// Removing a used Kyber pre-key failed.
    MarkKyberPreKeyUsed,
    /// Saving a last-resort Kyber pre-key failed.
    StoreLastResortKyberPreKey,
    /// Opening the tree of last-resort Kyber pre-keys failed.
    LoadLastResortKyberPreKeys,
    /// No identity key pair could be loaded: no registration data, or none
    /// for this identity.
    LoadIdentityKeyPair,
    /// No registration data to take the registration ID from.
    LoadRegistrationId,
}

/// An error of a protocol store.
#[derive(Debug, PartialEq, Eq)]
pub enum ProtocolError {
    /// No pre-key under the requested ID, or the pre-key counter could not be
    /// read or written.
    InvalidPreKeyId,
    /// No signed pre-key under the requested ID, or its counter could not be
    /// read or written.
    InvalidSignedPreKeyId,
    /// No Kyber pre-key under the requested ID, or its counter could not be
    /// read or written.
    InvalidKyberPreKeyId,
    /// An operation failed and left the store in an unexpected state.
    InvalidState(StateContext),
    /// The session of this address could not be removed.
    SessionNotFound(ProtocolAddress),
    /// The sled database failed.
    Store(sled::Error),
    /// The SQLite database failed; the text is the database's message.
    Database(String),
}

} // verus!
