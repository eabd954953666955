//! The names of the sled trees that each identity of the account keeps its
//! protocol state in.

use vstd::prelude::*;

use crate::error::{ProtocolError, StateContext};
use crate::identity::{IdentityKeyPair, RegistrationData};
use crate::sled_db::default_tree;

verus! {

/// The names of the nine trees of one identity, in the order identities,
/// state, pre-keys, signed pre-keys, Kyber pre-keys, last-resort Kyber
/// pre-keys, sender keys, sessions, identity verifications.
pub open spec fn tree_list<T: SledTrees>() -> Seq<Seq<char>> {
    seq![
        T::identities_tree(),
        T::state_tree(),
        T::pre_keys_tree(),
        T::signed_pre_keys_tree(),
        T::kyber_pre_keys_tree(),
        T::kyber_pre_keys_last_resort_tree(),
        T::sender_keys_tree(),
        T::sessions_tree(),
        T::identity_verifications_tree(),
    ]
}

/// Whether no two names of `names` are equal and none is the default tree.
pub open spec fn distinct_names(names: Seq<Seq<char>>) -> bool {
    &&& forall|i: int, j: int| 0 <= i < j < names.len() ==> #[trigger] names[i] != #[trigger] names[j]
    &&& forall|i: int| 0 <= i < names.len() ==> #[trigger] names[i] != default_tree()
}

/// The key pair of an identity, as registration left it.
pub open spec fn keypair_view(k: Option<IdentityKeyPair>) -> Option<Seq<u8>> {
    match k {
        Some(pair) => Some(pair.serialized@),
        None => None,
    }
}

/// Where one identity of the account keeps its protocol state.
pub trait SledTrees: Clone {
    /// The name of the tree of the identity keys of contacts.
    spec fn identities_tree() -> Seq<char>;

    /// The name of the tree of the pre-key counters.
    spec fn state_tree() -> Seq<char>;

    /// The name of the tree of one-time pre-keys.
    spec fn pre_keys_tree() -> Seq<char>;

    /// The name of the tree of signed pre-keys.
    spec fn signed_pre_keys_tree() -> Seq<char>;

    /// The name of the tree of one-time Kyber pre-keys.
    spec fn kyber_pre_keys_tree() -> Seq<char>;

    /// The name of the tree of last-resort Kyber pre-keys.
    spec fn kyber_pre_keys_last_resort_tree() -> Seq<char>;

    /// The name of the tree of sender keys.
    spec fn sender_keys_tree() -> Seq<char>;

    /// The name of the tree of sessions.
    spec fn sessions_tree() -> Seq<char>;

    /// The name of the tree of the verification states recorded for saved identities.
    spec fn identity_verifications_tree() -> Seq<char>;

    /// The tree of the identity keys of contacts.
    fn identities() -> (name: &'static str)
        ensures
            name@ == Self::identities_tree(),
    ;

    /// The tree of the pre-key counters.
    fn state() -> (name: &'static str)
        ensures
            name@ == Self::state_tree(),
    ;

    /// The tree of one-time pre-keys.
    fn pre_keys() -> (name: &'static str)
        ensures
            name@ == Self::pre_keys_tree(),
    ;

    /// The tree of signed pre-keys.
    fn signed_pre_keys() -> (name: &'static str)
        ensures
            name@ == Self::signed_pre_keys_tree(),
    ;

    /// The tree of one-time Kyber pre-keys.
    fn kyber_pre_keys() -> (name: &'static str)
        ensures
            name@ == Self::kyber_pre_keys_tree(),
    ;

    /// The tree of last-resort Kyber pre-keys.
    fn kyber_pre_keys_last_resort() -> (name: &'static str)
        ensures
            name@ == Self::kyber_pre_keys_last_resort_tree(),
    ;

    /// The tree of sender keys.
    fn sender_keys() -> (name: &'static str)
        ensures
            name@ == Self::sender_keys_tree(),
    ;

    /// The tree of sessions.
    fn sessions() -> (name: &'static str)
        ensures
            name@ == Self::sessions_tree(),
    ;

    /// The tree of the verification states recorded for saved identities.
    fn identity_verifications() -> (name: &'static str)
        ensures
            name@ == Self::identity_verifications_tree(),
    ;

    /// The key pair of this identity in the registration data, if it has one.
    spec fn keypair_of(data: RegistrationData) -> Option<Seq<u8>>;

    /// The key pair of this identity, or an error where registration left
    /// none.
    fn identity_keypair(data: &RegistrationData) -> (r: Result<IdentityKeyPair, ProtocolError>)
        ensures
            match r {
                Ok(pair) => Self::keypair_of(*data) == Some(pair.serialized@),
                Err(e) => Self::keypair_of(*data) is None && e == ProtocolError::InvalidState(StateContext::LoadIdentityKeyPair),
            },
    ;

    /// The trees of one identity are nine different trees, none of them
    /// sled's default tree.
    proof fn lemma_trees_distinct()
        ensures
            distinct_names(
                seq![
                    Self::identities_tree(),
                    Self::state_tree(),
                    Self::pre_keys_tree(),
                    Self::signed_pre_keys_tree(),
                    Self::kyber_pre_keys_tree(),
                    Self::kyber_pre_keys_last_resort_tree(),
                    Self::sender_keys_tree(),
                    Self::sessions_tree(),
                    Self::identity_verifications_tree(),
                ],
            ),
    ;
}

/// The account's ACI identity.
#[derive(Clone, Copy)]
pub struct AciSledStore;

impl SledTrees for AciSledStore {
    open spec fn identities_tree() -> Seq<char> {
        "identities"@
    }

    open spec fn state_tree() -> Seq<char> {
        "state"@
    }

    open spec fn pre_keys_tree() -> Seq<char> {
        "pre_keys"@
    }

    open spec fn signed_pre_keys_tree() -> Seq<char> {
        "sender_keys"@
    }

    open spec fn kyber_pre_keys_tree() -> Seq<char> {
        "signed_pre_keys"@
    }

    open spec fn kyber_pre_keys_last_resort_tree() -> Seq<char> {
        "kyber_pre_keys_last_resort"@
    }

    open spec fn sender_keys_tree() -> Seq<char> {
        "kyber_pre_keys"@
    }

    open spec fn sessions_tree() -> Seq<char> {
        "sessions"@
    }

    open spec fn identity_verifications_tree() -> Seq<char> {
        "identity_verifications"@
    }

    fn identities() -> (name: &'static str) {
        "identities"
    }

    fn state() -> (name: &'static str) {
        "state"
    }

    fn pre_keys() -> (name: &'static str) {
        "pre_keys"
    }

    fn signed_pre_keys() -> (name: &'static str) {
        "sender_keys"
    }

    fn kyber_pre_keys() -> (name: &'static str) {
        "signed_pre_keys"
    }

    fn kyber_pre_keys_last_resort() -> (name: &'static str) {
        "kyber_pre_keys_last_resort"
    }

    fn sender_keys() -> (name: &'static str) {
        "kyber_pre_keys"
    }

    fn sessions() -> (name: &'static str) {
        "sessions"
    }

    fn identity_verifications() -> (name: &'static str) {
        "identity_verifications"
    }

    open spec fn keypair_of(data: RegistrationData) -> Option<Seq<u8>> {
        Some(data.aci_identity_keypair.serialized@)
    }

    fn identity_keypair(data: &RegistrationData) -> (r: Result<IdentityKeyPair, ProtocolError>) {
        Ok(IdentityKeyPair { serialized: crate::encoding::copy_bytes(data.aci_identity_keypair.serialized.as_slice()) })
    }

    proof fn lemma_trees_distinct() {
        reveal_strlit("identities");
        reveal_strlit("identity_verifications");
        reveal_strlit("kyber_pre_keys");
        reveal_strlit("kyber_pre_keys_last_resort");
        reveal_strlit("pre_keys");
        reveal_strlit("sender_keys");
        reveal_strlit("sessions");
        reveal_strlit("signed_pre_keys");
        reveal_strlit("state");
        reveal_strlit("__sled__default");
        assert("identities"@.len() != "identity_verifications"@.len());
        assert("identities"@.len() != "kyber_pre_keys"@.len());
        assert("identities"@.len() != "kyber_pre_keys_last_resort"@.len());
        assert("identities"@.len() != "pre_keys"@.len());
        assert("identities"@.len() != "sender_keys"@.len());
        assert("identities"@.len() != "sessions"@.len());
        assert("identities"@.len() != "signed_pre_keys"@.len());
        assert("identities"@.len() != "state"@.len());
        assert("identities"@.len() != "__sled__default"@.len());
        assert("identity_verifications"@.len() != "kyber_pre_keys"@.len());
        assert("identity_verifications"@.len() != "kyber_pre_keys_last_resort"@.len());
        assert("identity_verifications"@.len() != "pre_keys"@.len());
        assert("identity_verifications"@.len() != "sender_keys"@.len());
        assert("identity_verifications"@.len() != "sessions"@.len());
        assert("identity_verifications"@.len() != "signed_pre_keys"@.len());
        assert("identity_verifications"@.len() != "state"@.len());
        assert("identity_verifications"@.len() != "__sled__default"@.len());
        assert("kyber_pre_keys"@.len() != "kyber_pre_keys_last_resort"@.len());
        assert("kyber_pre_keys"@.len() != "pre_keys"@.len());
        assert("kyber_pre_keys"@.len() != "sender_keys"@.len());
        assert("kyber_pre_keys"@.len() != "sessions"@.len());
        assert("kyber_pre_keys"@.len() != "signed_pre_keys"@.len());
        assert("kyber_pre_keys"@.len() != "state"@.len());
        assert("kyber_pre_keys"@.len() != "__sled__default"@.len());
        assert("kyber_pre_keys_last_resort"@.len() != "pre_keys"@.len());
        assert("kyber_pre_keys_last_resort"@.len() != "sender_keys"@.len());
        assert("kyber_pre_keys_last_resort"@.len() != "sessions"@.len());
        assert("kyber_pre_keys_last_resort"@.len() != "signed_pre_keys"@.len());
        assert("kyber_pre_keys_last_resort"@.len() != "state"@.len());
        assert("kyber_pre_keys_last_resort"@.len() != "__sled__default"@.len());
        assert("pre_keys"@.len() != "sender_keys"@.len());
        assert("pre_keys"@[0] != "sessions"@[0]);
        assert("pre_keys"@.len() != "signed_pre_keys"@.len());
        assert("pre_keys"@.len() != "state"@.len());
        assert("pre_keys"@.len() != "__sled__default"@.len());
        assert("sender_keys"@.len() != "sessions"@.len());
        assert("sender_keys"@.len() != "signed_pre_keys"@.len());
        assert("sender_keys"@.len() != "state"@.len());
        assert("sender_keys"@.len() != "__sled__default"@.len());
        assert("sessions"@.len() != "signed_pre_keys"@.len());
        assert("sessions"@.len() != "state"@.len());
        assert("sessions"@.len() != "__sled__default"@.len());
        assert("signed_pre_keys"@.len() != "state"@.len());
        assert("signed_pre_keys"@[0] != "__sled__default"@[0]);
        assert("state"@.len() != "__sled__default"@.len());
        let s = seq![Self::identities_tree(), Self::state_tree(), Self::pre_keys_tree(), Self::signed_pre_keys_tree(), Self::kyber_pre_keys_tree(), Self::kyber_pre_keys_last_resort_tree(), Self::sender_keys_tree(), Self::sessions_tree(), Self::identity_verifications_tree()];
        assert forall|i: int, j: int| 0 <= i < j < s.len() implies #[trigger] s[i] != #[trigger] s[j] by {
            assert(i == 0 || i == 1 || i == 2 || i == 3 || i == 4 || i == 5 || i == 6 || i == 7);
            assert(j == 1 || j == 2 || j == 3 || j == 4 || j == 5 || j == 6 || j == 7 || j == 8);
        }
        assert forall|i: int| 0 <= i < s.len() implies #[trigger] s[i] != default_tree() by {
            assert(i == 0 || i == 1 || i == 2 || i == 3 || i == 4 || i == 5 || i == 6 || i == 7 || i == 8);
        }
    }
}

/// The account's PNI identity.
#[derive(Clone, Copy)]
pub struct PniSledStore;

impl SledTrees for PniSledStore {
    open spec fn identities_tree() -> Seq<char> {
        "identities"@
    }

    open spec fn state_tree() -> Seq<char> {
        "pni_state"@
    }

    open spec fn pre_keys_tree() -> Seq<char> {
        "pni_pre_keys"@
    }

    open spec fn signed_pre_keys_tree() -> Seq<char> {
        "pni_sender_keys"@
    }

    open spec fn kyber_pre_keys_tree() -> Seq<char> {
        "pni_signed_pre_keys"@
    }

    open spec fn kyber_pre_keys_last_resort_tree() -> Seq<char> {
        "pni_kyber_pre_keys_last_resort"@
    }

    open spec fn sender_keys_tree() -> Seq<char> {
        "pni_kyber_pre_keys"@
    }

    open spec fn sessions_tree() -> Seq<char> {
        "pni_sessions"@
    }

    open spec fn identity_verifications_tree() -> Seq<char> {
        "identity_verifications"@
    }

    fn identities() -> (name: &'static str) {
        "identities"
    }

    fn state() -> (name: &'static str) {
        "pni_state"
    }

    fn pre_keys() -> (name: &'static str) {
        "pni_pre_keys"
    }

    fn signed_pre_keys() -> (name: &'static str) {
        "pni_sender_keys"
    }

    fn kyber_pre_keys() -> (name: &'static str) {
        "pni_signed_pre_keys"
    }

    fn kyber_pre_keys_last_resort() -> (name: &'static str) {
        "pni_kyber_pre_keys_last_resort"
    }

    fn sender_keys() -> (name: &'static str) {
        "pni_kyber_pre_keys"
    }

    fn sessions() -> (name: &'static str) {
        "pni_sessions"
    }

    fn identity_verifications() -> (name: &'static str) {
        "identity_verifications"
    }

    open spec fn keypair_of(data: RegistrationData) -> Option<Seq<u8>> {
        keypair_view(data.pni_identity_keypair)
    }

    fn identity_keypair(data: &RegistrationData) -> (r: Result<IdentityKeyPair, ProtocolError>) {
        match &data.pni_identity_keypair {
            Some(pair) => Ok(IdentityKeyPair { serialized: crate::encoding::copy_bytes(pair.serialized.as_slice()) }),
            None => Err(ProtocolError::InvalidState(StateContext::LoadIdentityKeyPair)),
        }
    }

    proof fn lemma_trees_distinct() {
        reveal_strlit("identities");
        reveal_strlit("identity_verifications");
        reveal_strlit("pni_kyber_pre_keys");
        reveal_strlit("pni_kyber_pre_keys_last_resort");
        reveal_strlit("pni_pre_keys");
        reveal_strlit("pni_sender_keys");
        reveal_strlit("pni_sessions");
        reveal_strlit("pni_signed_pre_keys");
        reveal_strlit("pni_state");
        reveal_strlit("__sled__default");
        assert("identities"@.len() != "identity_verifications"@.len());
        assert("identities"@.len() != "pni_kyber_pre_keys"@.len());
        assert("identities"@.len() != "pni_kyber_pre_keys_last_resort"@.len());
        assert("identities"@.len() != "pni_pre_keys"@.len());
        assert("identities"@.len() != "pni_sender_keys"@.len());
        assert("identities"@.len() != "pni_sessions"@.len());
        assert("identities"@.len() != "pni_signed_pre_keys"@.len());
        assert("identities"@.len() != "pni_state"@.len());
        assert("identities"@.len() != "__sled__default"@.len());
        assert("identity_verifications"@.len() != "pni_kyber_pre_keys"@.len());
        assert("identity_verifications"@.len() != "pni_kyber_pre_keys_last_resort"@.len());
        assert("identity_verifications"@.len() != "pni_pre_keys"@.len());
        assert("identity_verifications"@.len() != "pni_sender_keys"@.len());
        assert("identity_verifications"@.len() != "pni_sessions"@.len());
        assert("identity_verifications"@.len() != "pni_signed_pre_keys"@.len());
        assert("identity_verifications"@.len() != "pni_state"@.len());
        assert("identity_verifications"@.len() != "__sled__default"@.len());
        assert("pni_kyber_pre_keys"@.len() != "pni_kyber_pre_keys_last_resort"@.len());
        assert("pni_kyber_pre_keys"@.len() != "pni_pre_keys"@.len());
        assert("pni_kyber_pre_keys"@.len() != "pni_sender_keys"@.len());
        assert("pni_kyber_pre_keys"@.len() != "pni_sessions"@.len());
        assert("pni_kyber_pre_keys"@.len() != "pni_signed_pre_keys"@.len());
        assert("pni_kyber_pre_keys"@.len() != "pni_state"@.len());
        assert("pni_kyber_pre_keys"@.len() != "__sled__default"@.len());
        assert("pni_kyber_pre_keys_last_resort"@.len() != "pni_pre_keys"@.len());
        assert("pni_kyber_pre_keys_last_resort"@.len() != "pni_sender_keys"@.len());
        assert("pni_kyber_pre_keys_last_resort"@.len() != "pni_sessions"@.len());
        assert("pni_kyber_pre_keys_last_resort"@.len() != "pni_signed_pre_keys"@.len());
        assert("pni_kyber_pre_keys_last_resort"@.len() != "pni_state"@.len());
        assert("pni_kyber_pre_keys_last_resort"@.len() != "__sled__default"@.len());
        assert("pni_pre_keys"@.len() != "pni_sender_keys"@.len());
        assert("pni_pre_keys"@[4] != "pni_sessions"@[4]);
        assert("pni_pre_keys"@.len() != "pni_signed_pre_keys"@.len());
        assert("pni_pre_keys"@.len() != "pni_state"@.len());
        assert("pni_pre_keys"@.len() != "__sled__default"@.len());
        assert("pni_sender_keys"@.len() != "pni_sessions"@.len());
        assert("pni_sender_keys"@.len() != "pni_signed_pre_keys"@.len());
        assert("pni_sender_keys"@.len() != "pni_state"@.len());
        assert("pni_sender_keys"@[0] != "__sled__default"@[0]);
        assert("pni_sessions"@.len() != "pni_signed_pre_keys"@.len());
        assert("pni_sessions"@.len() != "pni_state"@.len());
        assert("pni_sessions"@.len() != "__sled__default"@.len());
        assert("pni_signed_pre_keys"@.len() != "pni_state"@.len());
        assert("pni_signed_pre_keys"@.len() != "__sled__default"@.len());
        assert("pni_state"@.len() != "__sled__default"@.len());
        let s = seq![Self::identities_tree(), Self::state_tree(), Self::pre_keys_tree(), Self::signed_pre_keys_tree(), Self::kyber_pre_keys_tree(), Self::kyber_pre_keys_last_resort_tree(), Self::sender_keys_tree(), Self::sessions_tree(), Self::identity_verifications_tree()];
        assert forall|i: int, j: int| 0 <= i < j < s.len() implies #[trigger] s[i] != #[trigger] s[j] by {
            assert(i == 0 || i == 1 || i == 2 || i == 3 || i == 4 || i == 5 || i == 6 || i == 7);
            assert(j == 1 || j == 2 || j == 3 || j == 4 || j == 5 || j == 6 || j == 7 || j == 8);
        }
        assert forall|i: int| 0 <= i < s.len() implies #[trigger] s[i] != default_tree() by {
            assert(i == 0 || i == 1 || i == 2 || i == 3 || i == 4 || i == 5 || i == 6 || i == 7 || i == 8);
        }
    }
}

/// The facts of `SledTrees::lemma_trees_distinct`, one by one.
pub proof fn lemma_tree_facts<T: SledTrees>()
    ensures
        T::identities_tree() != default_tree(),
        T::state_tree() != default_tree(),
        T::pre_keys_tree() != default_tree(),
        T::signed_pre_keys_tree() != default_tree(),
        T::kyber_pre_keys_tree() != default_tree(),
        T::kyber_pre_keys_last_resort_tree() != default_tree(),
        T::sender_keys_tree() != default_tree(),
        T::sessions_tree() != default_tree(),
        T::identity_verifications_tree() != default_tree(),
        T::identities_tree() != T::state_tree(),
        T::identities_tree() != T::pre_keys_tree(),
        T::identities_tree() != T::signed_pre_keys_tree(),
        T::identities_tree() != T::kyber_pre_keys_tree(),
        T::identities_tree() != T::kyber_pre_keys_last_resort_tree(),
        T::identities_tree() != T::sender_keys_tree(),
        T::identities_tree() != T::sessions_tree(),
        T::identities_tree() != T::identity_verifications_tree(),
        T::state_tree() != T::pre_keys_tree(),
        T::state_tree() != T::signed_pre_keys_tree(),
        T::state_tree() != T::kyber_pre_keys_tree(),
        T::state_tree() != T::kyber_pre_keys_last_resort_tree(),
        T::state_tree() != T::sender_keys_tree(),
        T::state_tree() != T::sessions_tree(),
        T::state_tree() != T::identity_verifications_tree(),
        T::pre_keys_tree() != T::signed_pre_keys_tree(),
        T::pre_keys_tree() != T::kyber_pre_keys_tree(),
        T::pre_keys_tree() != T::kyber_pre_keys_last_resort_tree(),
        T::pre_keys_tree() != T::sender_keys_tree(),
        T::pre_keys_tree() != T::sessions_tree(),
        T::pre_keys_tree() != T::identity_verifications_tree(),
        T::signed_pre_keys_tree() != T::kyber_pre_keys_tree(),
        T::signed_pre_keys_tree() != T::kyber_pre_keys_last_resort_tree(),
        T::signed_pre_keys_tree() != T::sender_keys_tree(),
        T::signed_pre_keys_tree() != T::sessions_tree(),
        T::signed_pre_keys_tree() != T::identity_verifications_tree(),
        T::kyber_pre_keys_tree() != T::kyber_pre_keys_last_resort_tree(),
        T::kyber_pre_keys_tree() != T::sender_keys_tree(),
        T::kyber_pre_keys_tree() != T::sessions_tree(),
        T::kyber_pre_keys_tree() != T::identity_verifications_tree(),
        T::kyber_pre_keys_last_resort_tree() != T::sender_keys_tree(),
        T::kyber_pre_keys_last_resort_tree() != T::sessions_tree(),
        T::kyber_pre_keys_last_resort_tree() != T::identity_verifications_tree(),
        T::sender_keys_tree() != T::sessions_tree(),
        T::sender_keys_tree() != T::identity_verifications_tree(),
        T::sessions_tree() != T::identity_verifications_tree(),
{
    T::lemma_trees_distinct();
    let s = tree_list::<T>();
    assert(s[0] != default_tree());
    assert(s[1] != default_tree());
    assert(s[2] != default_tree());
    assert(s[3] != default_tree());
    assert(s[4] != default_tree());
    assert(s[5] != default_tree());
    assert(s[6] != default_tree());
    assert(s[7] != default_tree());
    assert(s[8] != default_tree());
    assert(s[0] != s[1]);
    assert(s[0] != s[2]);
    assert(s[0] != s[3]);
    assert(s[0] != s[4]);
    assert(s[0] != s[5]);
    assert(s[0] != s[6]);
    assert(s[0] != s[7]);
    assert(s[0] != s[8]);
    assert(s[1] != s[2]);
    assert(s[1] != s[3]);
    assert(s[1] != s[4]);
    assert(s[1] != s[5]);
    assert(s[1] != s[6]);
    assert(s[1] != s[7]);
    assert(s[1] != s[8]);
    assert(s[2] != s[3]);
    assert(s[2] != s[4]);
    assert(s[2] != s[5]);
    assert(s[2] != s[6]);
    assert(s[2] != s[7]);
    assert(s[2] != s[8]);
    assert(s[3] != s[4]);
    assert(s[3] != s[5]);
    assert(s[3] != s[6]);
    assert(s[3] != s[7]);
    assert(s[3] != s[8]);
    assert(s[4] != s[5]);
    assert(s[4] != s[6]);
    assert(s[4] != s[7]);
    assert(s[4] != s[8]);
    assert(s[5] != s[6]);
    assert(s[5] != s[7]);
    assert(s[5] != s[8]);
    assert(s[6] != s[7]);
    assert(s[6] != s[8]);
    assert(s[7] != s[8]);
}

/// The ACI and PNI identities share the tree of contacts' identity keys and
/// the tree of their verification states, and keep all their other state in
/// different trees.
pub proof fn lemma_aci_pni_share_only_identities()
    ensures
        AciSledStore::identities_tree() == PniSledStore::identities_tree(),
        AciSledStore::identity_verifications_tree() == PniSledStore::identity_verifications_tree(),
        forall|i: int, j: int|
            0 <= i < 9 && 0 <= j < 9 && !((i == 0 && j == 0) || (i == 8 && j == 8)) ==> #[trigger] tree_list::<AciSledStore>()[i]
                != #[trigger] tree_list::<PniSledStore>()[j],
{
    reveal_strlit("identities");
    reveal_strlit("identity_verifications");
    reveal_strlit("kyber_pre_keys");
    reveal_strlit("kyber_pre_keys_last_resort");
    reveal_strlit("pni_kyber_pre_keys");
    reveal_strlit("pni_kyber_pre_keys_last_resort");
    reveal_strlit("pni_pre_keys");
    reveal_strlit("pni_sender_keys");
    reveal_strlit("pni_sessions");
    reveal_strlit("pni_signed_pre_keys");
    reveal_strlit("pni_state");
    reveal_strlit("pre_keys");
    reveal_strlit("sender_keys");
    reveal_strlit("sessions");
    reveal_strlit("signed_pre_keys");
    reveal_strlit("state");
    assert("identities"@.len() != "identity_verifications"@.len());
    assert("identities"@.len() != "pni_kyber_pre_keys"@.len());
    assert("identities"@.len() != "pni_kyber_pre_keys_last_resort"@.len());
    assert("identities"@.len() != "pni_pre_keys"@.len());
    assert("identities"@.len() != "pni_sender_keys"@.len());
    assert("identities"@.len() != "pni_sessions"@.len());
    assert("identities"@.len() != "pni_signed_pre_keys"@.len());
    assert("identities"@.len() != "pni_state"@.len());
    assert("identity_verifications"@.len() != "identities"@.len());
    assert("identity_verifications"@.len() != "pni_kyber_pre_keys"@.len());
    assert("identity_verifications"@.len() != "pni_kyber_pre_keys_last_resort"@.len());
    assert("identity_verifications"@.len() != "pni_pre_keys"@.len());
    assert("identity_verifications"@.len() != "pni_sender_keys"@.len());
    assert("identity_verifications"@.len() != "pni_sessions"@.len());
    assert("identity_verifications"@.len() != "pni_signed_pre_keys"@.len());
    assert("identity_verifications"@.len() != "pni_state"@.len());
    assert("kyber_pre_keys"@.len() != "identities"@.len());
    assert("kyber_pre_keys"@.len() != "identity_verifications"@.len());
    assert("kyber_pre_keys"@.len() != "pni_kyber_pre_keys"@.len());
    assert("kyber_pre_keys"@.len() != "pni_kyber_pre_keys_last_resort"@.len());
    assert("kyber_pre_keys"@.len() != "pni_pre_keys"@.len());
    assert("kyber_pre_keys"@.len() != "pni_sender_keys"@.len());
    assert("kyber_pre_keys"@.len() != "pni_sessions"@.len());
    assert("kyber_pre_keys"@.len() != "pni_signed_pre_keys"@.len());
    assert("kyber_pre_keys"@.len() != "pni_state"@.len());
    assert("kyber_pre_keys_last_resort"@.len() != "identities"@.len());
    assert("kyber_pre_keys_last_resort"@.len() != "identity_verifications"@.len());
    assert("kyber_pre_keys_last_resort"@.len() != "pni_kyber_pre_keys"@.len());
    assert("kyber_pre_keys_last_resort"@.len() != "pni_kyber_pre_keys_last_resort"@.len());
    assert("kyber_pre_keys_last_resort"@.len() != "pni_pre_keys"@.len());
    assert("kyber_pre_keys_last_resort"@.len() != "pni_sender_keys"@.len());
    assert("kyber_pre_keys_last_resort"@.len() != "pni_sessions"@.len());
    assert("kyber_pre_keys_last_resort"@.len() != "pni_signed_pre_keys"@.len());
    assert("kyber_pre_keys_last_resort"@.len() != "pni_state"@.len());
    assert("pre_keys"@.len() != "identities"@.len());
    assert("pre_keys"@.len() != "identity_verifications"@.len());
    assert("pre_keys"@.len() != "pni_kyber_pre_keys"@.len());
    assert("pre_keys"@.len() != "pni_kyber_pre_keys_last_resort"@.len());
    assert("pre_keys"@.len() != "pni_pre_keys"@.len());
    assert("pre_keys"@.len() != "pni_sender_keys"@.len());
    assert("pre_keys"@.len() != "pni_sessions"@.len());
    assert("pre_keys"@.len() != "pni_signed_pre_keys"@.len());
    assert("pre_keys"@.len() != "pni_state"@.len());
    assert("sender_keys"@.len() != "identities"@.len());
    assert("sender_keys"@.len() != "identity_verifications"@.len());
    assert("sender_keys"@.len() != "pni_kyber_pre_keys"@.len());
    assert("sender_keys"@.len() != "pni_kyber_pre_keys_last_resort"@.len());
    assert("sender_keys"@.len() != "pni_pre_keys"@.len());
    assert("sender_keys"@.len() != "pni_sender_keys"@.len());
    assert("sender_keys"@.len() != "pni_sessions"@.len());
    assert("sender_keys"@.len() != "pni_signed_pre_keys"@.len());
    assert("sender_keys"@.len() != "pni_state"@.len());
    assert("sessions"@.len() != "identities"@.len());
    assert("sessions"@.len() != "identity_verifications"@.len());
    assert("sessions"@.len() != "pni_kyber_pre_keys"@.len());
    assert("sessions"@.len() != "pni_kyber_pre_keys_last_resort"@.len());
    assert("sessions"@.len() != "pni_pre_keys"@.len());
    assert("sessions"@.len() != "pni_sender_keys"@.len());
    assert("sessions"@.len() != "pni_sessions"@.len());
    assert("sessions"@.len() != "pni_signed_pre_keys"@.len());
    assert("sessions"@.len() != "pni_state"@.len());
    assert("signed_pre_keys"@.len() != "identities"@.len());
    assert("signed_pre_keys"@.len() != "identity_verifications"@.len());
    assert("signed_pre_keys"@.len() != "pni_kyber_pre_keys"@.len());
    assert("signed_pre_keys"@.len() != "pni_kyber_pre_keys_last_resort"@.len());
    assert("signed_pre_keys"@.len() != "pni_pre_keys"@.len());
    assert("signed_pre_keys"@[0] != "pni_sender_keys"@[0]);
    assert("signed_pre_keys"@.len() != "pni_sessions"@.len());
    assert("signed_pre_keys"@.len() != "pni_signed_pre_keys"@.len());
    assert("signed_pre_keys"@.len() != "pni_state"@.len());
    assert("state"@.len() != "identities"@.len());
    assert("state"@.len() != "identity_verifications"@.len());
    assert("state"@.len() != "pni_kyber_pre_keys"@.len());
    assert("state"@.len() != "pni_kyber_pre_keys_last_resort"@.len());
    assert("state"@.len() != "pni_pre_keys"@.len());
    assert("state"@.len() != "pni_sender_keys"@.len());
    assert("state"@.len() != "pni_sessions"@.len());
    assert("state"@.len() != "pni_signed_pre_keys"@.len());
    assert("state"@.len() != "pni_state"@.len());
    let a = tree_list::<AciSledStore>();
    let p = tree_list::<PniSledStore>();
    assert forall|i: int, j: int| 0 <= i < 9 && 0 <= j < 9 && !((i == 0 && j == 0) || (i == 8 && j == 8)) implies #[trigger] a[i] != #[trigger] p[j] by {
        assert(i == 0 || i == 1 || i == 2 || i == 3 || i == 4 || i == 5 || i == 6 || i == 7 || i == 8);
        assert(j == 0 || j == 1 || j == 2 || j == 3 || j == 4 || j == 5 || j == 6 || j == 7 || j == 8);
    }
}

} // verus!
