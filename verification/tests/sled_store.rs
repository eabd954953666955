use std::time::{SystemTime, UNIX_EPOCH};

use protocol_store::encoding::{ProtocolAddress, ServiceAddress, Uuid};
use protocol_store::error::{ProtocolError, StateContext};
use protocol_store::identity::{
    Direction, IdentityKey, IdentityKeyPair, OnNewIdentity, RegistrationData, VerifiedState,
};
use protocol_store::protocol::{SledProtocolStore, SledStore};
use protocol_store::trees::{AciSledStore, PniSledStore, SledTrees};

fn fresh_path(name: &str) -> String {
    let nanos = SystemTime::now().duration_since(UNIX_EPOCH).unwrap().as_nanos();
    format!("/tmp/protocol_store_test_{}_{}", name, nanos)
}

fn open(path: &str, policy: OnNewIdentity) -> SledStore {
    SledStore::open(path, policy).unwrap()
}

/// Reads an entry with sled itself, once the store has let the database go.
fn raw_get(path: &str, tree: &str, key: &str) -> Option<Vec<u8>> {
    let db = sled::open(path).unwrap();
    let value = db.open_tree(tree).unwrap().get(key).unwrap().map(|v| v.to_vec());
    value
}

fn uuid(last: u8) -> Uuid {
    let mut bytes = [0x11u8; 16];
    bytes[15] = last;
    Uuid { bytes }
}

fn uuid_name(u: &Uuid) -> String {
    String::from_utf8(protocol_store::encoding::uuid_bytes(u)).unwrap()
}

fn address(name: &str, device_id: u32) -> ProtocolAddress {
    ProtocolAddress { name: name.to_string(), device_id }
}


fn aci() -> SledProtocolStore<AciSledStore> {
    SledProtocolStore::aci_protocol_store()
}

fn pni() -> SledProtocolStore<PniSledStore> {
    SledProtocolStore::pni_protocol_store()
}

#[test]
fn pre_key_round_trip_and_removal() {
    let path = fresh_path("pre_key");
    let mut store = open(&path, OnNewIdentity::Trust);
    let s = aci();
    assert_eq!(s.get_pre_key(&store, 5), Err(ProtocolError::InvalidPreKeyId));
    s.save_pre_key(&mut store, 5, b"record five").unwrap();
    assert_eq!(s.get_pre_key(&store, 5), Ok(b"record five".to_vec()));
    s.save_pre_key(&mut store, 5, b"replaced").unwrap();
    assert_eq!(s.get_pre_key(&store, 5), Ok(b"replaced".to_vec()));
    s.save_pre_key(&mut store, 6, b"six").unwrap();
    s.remove_pre_key(&mut store, 5).unwrap();
    assert_eq!(s.get_pre_key(&store, 5), Err(ProtocolError::InvalidPreKeyId));
    drop(store);
    assert_eq!(raw_get(&path, "pre_keys", "6"), Some(b"six".to_vec()));
}

#[test]
fn counters_start_at_zero_and_read_back() {
    let path = fresh_path("counters");
    let mut store = open(&path, OnNewIdentity::Trust);
    let s = aci();
    assert_eq!(s.next_pre_key_id(&store), Ok(0));
    assert_eq!(s.next_signed_pre_key_id(&store), Ok(0));
    assert_eq!(s.next_pq_pre_key_id(&store), Ok(0));
    s.set_next_pre_key_id(&mut store, 17).unwrap();
    s.set_next_signed_pre_key_id(&mut store, 4_000_000_000).unwrap();
    s.set_next_pq_pre_key_id(&mut store, 3).unwrap();
    assert_eq!(s.next_pre_key_id(&store), Ok(17));
    assert_eq!(s.next_signed_pre_key_id(&store), Ok(4_000_000_000));
    assert_eq!(s.next_pq_pre_key_id(&store), Ok(3));
    assert_eq!(pni().next_pre_key_id(&store), Ok(0));
    drop(store);
    assert_eq!(raw_get(&path, "state", "pre_keys_offset_id"), Some(b"17".to_vec()));
}

#[test]
fn unreadable_counter_is_an_error() {
    let path = fresh_path("bad_counter");
    {
        let db = sled::open(&path).unwrap();
        db.open_tree("state").unwrap().insert("next_pq_pre_key_id", "not a number").unwrap();
        db.flush().unwrap();
    }
    let store = open(&path, OnNewIdentity::Trust);
    assert_eq!(aci().next_pq_pre_key_id(&store), Err(ProtocolError::InvalidKyberPreKeyId));
}

#[test]
fn signed_and_kyber_pre_keys_use_their_trees() {
    let path = fresh_path("signed_kyber");
    let mut store = open(&path, OnNewIdentity::Trust);
    let s = aci();
    assert_eq!(s.get_signed_pre_key(&store, 1), Err(ProtocolError::InvalidSignedPreKeyId));
    assert_eq!(s.get_kyber_pre_key(&store, 1), Err(ProtocolError::InvalidKyberPreKeyId));
    s.save_signed_pre_key(&mut store, 1, b"signed").unwrap();
    s.save_kyber_pre_key(&mut store, 1, b"kyber").unwrap();
    assert_eq!(s.get_signed_pre_key(&store, 1), Ok(b"signed".to_vec()));
    assert_eq!(s.get_kyber_pre_key(&store, 1), Ok(b"kyber".to_vec()));
    assert_eq!(s.get_pre_key(&store, 1), Err(ProtocolError::InvalidPreKeyId));
    s.save_kyber_pre_key(&mut store, 2, b"kept").unwrap();
    s.mark_kyber_pre_key_used(&mut store, 1).unwrap();
    assert_eq!(s.get_kyber_pre_key(&store, 1), Err(ProtocolError::InvalidKyberPreKeyId));
    s.mark_kyber_pre_key_used(&mut store, 1).unwrap();
    drop(store);
    // The ACI trees keep their historical names.
    assert_eq!(raw_get(&path, "sender_keys", "1"), Some(b"signed".to_vec()));
    assert_eq!(raw_get(&path, "signed_pre_keys", "2"), Some(b"kept".to_vec()));
}

#[test]
fn last_resort_kyber_pre_keys() {
    let path = fresh_path("last_resort");
    let mut store = open(&path, OnNewIdentity::Trust);
    let s = aci();
    assert_eq!(s.load_last_resort_kyber_pre_keys(&store), Ok(vec![]));
    s.store_last_resort_kyber_pre_key(&mut store, 20, b"twenty").unwrap();
    s.store_last_resort_kyber_pre_key(&mut store, 3, b"three").unwrap();
    // In the order of the IDs' text: "20" before "3".
    assert_eq!(
        s.load_last_resort_kyber_pre_keys(&store),
        Ok(vec![b"twenty".to_vec(), b"three".to_vec()])
    );
    s.remove_kyber_pre_key(&mut store, 20).unwrap();
    assert_eq!(s.load_last_resort_kyber_pre_keys(&store), Ok(vec![b"three".to_vec()]));
    assert_eq!(s.get_kyber_pre_key(&store, 3), Err(ProtocolError::InvalidKyberPreKeyId));
    s.mark_kyber_pre_key_used(&mut store, 3).unwrap();
    assert_eq!(s.load_last_resort_kyber_pre_keys(&store), Ok(vec![b"three".to_vec()]));
}

#[test]
fn sessions_round_trip() {
    let path = fresh_path("sessions");
    let mut store = open(&path, OnNewIdentity::Trust);
    let s = aci();
    let bob = address("bob", 2);
    assert_eq!(s.load_session(&store, &bob), Ok(None));
    s.store_session(&mut store, &bob, b"session").unwrap();
    assert_eq!(s.load_session(&store, &bob), Ok(Some(b"session".to_vec())));
    assert_eq!(s.load_session(&store, &address("bob", 3)), Ok(None));
    assert_eq!(pni().load_session(&store, &bob), Ok(None));
    s.delete_session(&mut store, &bob).unwrap();
    assert_eq!(s.load_session(&store, &bob), Ok(None));
    s.delete_session(&mut store, &bob).unwrap();
}

#[test]
fn sub_device_sessions_skip_the_primary_device() {
    let path = fresh_path("sub_devices");
    {
        let db = sled::open(&path).unwrap();
        let name = uuid_name(&uuid(0x22));
        db.open_tree("sessions").unwrap().insert(format!("{}.junk", name), "s").unwrap();
        db.flush().unwrap();
    }
    let mut store = open(&path, OnNewIdentity::Trust);
    let s = aci();
    let account = ServiceAddress { uuid: uuid(0x22) };
    let other = ServiceAddress { uuid: uuid(0x33) };
    let name = uuid_name(&account.uuid);
    for device in [1u32, 2, 14, 3] {
        s.store_session(&mut store, &address(&name, device), b"s").unwrap();
    }
    s.store_session(&mut store, &address(&uuid_name(&other.uuid), 4), b"s").unwrap();
    // In the order of the session names: "14" before "2" before "3".
    assert_eq!(s.get_sub_device_sessions(&store, &account), Ok(vec![14, 2, 3]));
    assert_eq!(s.get_sub_device_sessions(&store, &other), Ok(vec![4]));
    assert_eq!(
        s.get_sub_device_sessions(&store, &ServiceAddress { uuid: uuid(0x44) }),
        Ok(vec![])
    );
}

#[test]
fn delete_all_sessions_removes_one_account() {
    let path = fresh_path("delete_all");
    let mut store = open(&path, OnNewIdentity::Trust);
    let s = aci();
    let account = ServiceAddress { uuid: uuid(0x22) };
    let name = uuid_name(&account.uuid);
    let other_name = uuid_name(&uuid(0x33));
    s.store_session(&mut store, &address(&name, 1), b"a").unwrap();
    s.store_session(&mut store, &address(&name, 2), b"b").unwrap();
    s.store_session(&mut store, &address(&other_name, 1), b"c").unwrap();
    s.store_session(&mut store, &address("carol", 1), b"d").unwrap();
    assert_eq!(s.delete_all_sessions(&mut store, &account), Ok(2));
    assert_eq!(s.load_session(&store, &address(&name, 1)), Ok(None));
    assert_eq!(s.load_session(&store, &address(&name, 2)), Ok(None));
    assert_eq!(s.load_session(&store, &address(&other_name, 1)), Ok(Some(b"c".to_vec())));
    assert_eq!(s.load_session(&store, &address("carol", 1)), Ok(Some(b"d".to_vec())));
    assert_eq!(s.delete_all_sessions(&mut store, &account), Ok(0));
}

#[test]
fn identities_and_trust() {
    let path = fresh_path("identities");
    let mut store = open(&path, OnNewIdentity::Reject);
    let s = aci();
    let bob = address("bob", 1);
    let first = IdentityKey { serialized: vec![5, 1, 2, 3] };
    let second = IdentityKey { serialized: vec![5, 9, 9, 9] };
    assert_eq!(s.get_identity(&store, &bob), Ok(None));
    assert_eq!(s.is_trusted_identity(&store, &bob, &first, Direction::Sending), Ok(true));
    assert_eq!(s.save_identity(&mut store, &bob, &first), Ok((false, VerifiedState::Default)));
    assert_eq!(s.get_identity(&store, &bob), Ok(Some(IdentityKey { serialized: vec![5, 1, 2, 3] })));
    assert_eq!(s.save_identity(&mut store, &bob, &first), Ok((false, VerifiedState::Unverified)));
    assert_eq!(s.is_trusted_identity(&store, &bob, &first, Direction::Receiving), Ok(true));
    assert_eq!(s.is_trusted_identity(&store, &bob, &second, Direction::Receiving), Ok(false));
    assert_eq!(s.save_identity(&mut store, &bob, &second), Ok((true, VerifiedState::Unverified)));
    assert_eq!(s.is_trusted_identity(&store, &bob, &second, Direction::Sending), Ok(true));
    assert_eq!(s.is_trusted_identity(&store, &bob, &first, Direction::Sending), Ok(false));
}

#[test]
fn changed_identity_trusted_under_trust_policy() {
    let path = fresh_path("trust_policy");
    let mut store = open(&path, OnNewIdentity::Trust);
    let s = aci();
    let bob = address("bob", 1);
    s.save_identity(&mut store, &bob, &IdentityKey { serialized: vec![1] }).unwrap();
    assert_eq!(
        s.is_trusted_identity(&store, &bob, &IdentityKey { serialized: vec![2] }, Direction::Sending),
        Ok(true)
    );
}

#[test]
fn sender_keys_round_trip() {
    let path = fresh_path("sender_keys");
    let mut store = open(&path, OnNewIdentity::Trust);
    let s = aci();
    let alice = address("alice", 2);
    let distribution = uuid(0x01);
    assert_eq!(s.load_sender_key(&store, &alice, &distribution), Ok(None));
    s.store_sender_key(&mut store, &alice, &distribution, b"sender key").unwrap();
    assert_eq!(s.load_sender_key(&store, &alice, &distribution), Ok(Some(b"sender key".to_vec())));
    assert_eq!(s.load_sender_key(&store, &alice, &uuid(0x02)), Ok(None));
    drop(store);
    let name = format!("alice.2/{}", uuid_name(&distribution));
    // The ACI sender keys live in the tree named "kyber_pre_keys".
    assert_eq!(raw_get(&path, "kyber_pre_keys", &name), Some(b"sender key".to_vec()));
}

#[test]
fn registration_data() {
    let without_pni = RegistrationData {
        registration_id: 4242,
        aci_identity_keypair: IdentityKeyPair { serialized: vec![1, 2] },
        pni_identity_keypair: None,
    };
    let with_pni = RegistrationData {
        registration_id: 7,
        aci_identity_keypair: IdentityKeyPair { serialized: vec![1, 2] },
        pni_identity_keypair: Some(IdentityKeyPair { serialized: vec![3, 4] }),
    };
    let missing = ProtocolError::InvalidState(StateContext::LoadIdentityKeyPair);
    assert_eq!(aci().get_identity_key_pair(None), Err(ProtocolError::InvalidState(StateContext::LoadIdentityKeyPair)));
    assert_eq!(aci().get_identity_key_pair(Some(&without_pni)), Ok(IdentityKeyPair { serialized: vec![1, 2] }));
    assert_eq!(pni().get_identity_key_pair(Some(&without_pni)), Err(missing));
    assert_eq!(pni().get_identity_key_pair(Some(&with_pni)), Ok(IdentityKeyPair { serialized: vec![3, 4] }));
    assert_eq!(aci().get_local_registration_id(Some(&without_pni)), Ok(4242));
    assert_eq!(
        pni().get_local_registration_id(None),
        Err(ProtocolError::InvalidState(StateContext::LoadRegistrationId))
    );
}

#[test]
fn clear_keeps_identities_counters_verifications_and_last_resort_keys() {
    let path = fresh_path("clear");
    let mut store = open(&path, OnNewIdentity::Trust);
    let s = aci();
    let bob = address("bob", 1);
    s.save_pre_key(&mut store, 1, b"p").unwrap();
    s.save_signed_pre_key(&mut store, 1, b"s").unwrap();
    s.save_kyber_pre_key(&mut store, 1, b"k").unwrap();
    s.store_last_resort_kyber_pre_key(&mut store, 1, b"l").unwrap();
    s.store_session(&mut store, &bob, b"session").unwrap();
    s.store_sender_key(&mut store, &bob, &uuid(1), b"sender").unwrap();
    s.save_identity(&mut store, &bob, &IdentityKey { serialized: vec![7] }).unwrap();
    s.set_next_pre_key_id(&mut store, 9).unwrap();
    pni().save_pre_key(&mut store, 1, b"pni").unwrap();
    s.clear(&mut store).unwrap();
    assert_eq!(s.get_pre_key(&store, 1), Err(ProtocolError::InvalidPreKeyId));
    assert_eq!(s.get_signed_pre_key(&store, 1), Err(ProtocolError::InvalidSignedPreKeyId));
    assert_eq!(s.get_kyber_pre_key(&store, 1), Err(ProtocolError::InvalidKyberPreKeyId));
    assert_eq!(s.load_session(&store, &bob), Ok(None));
    assert_eq!(s.load_sender_key(&store, &bob, &uuid(1)), Ok(None));
    assert_eq!(s.get_identity(&store, &bob), Ok(Some(IdentityKey { serialized: vec![7] })));
    assert_eq!(s.next_pre_key_id(&store), Ok(9));
    assert_eq!(s.load_last_resort_kyber_pre_keys(&store), Ok(vec![b"l".to_vec()]));
    assert_eq!(pni().get_pre_key(&store, 1), Ok(b"pni".to_vec()));
    drop(store);
    assert_eq!(raw_get(&path, "identity_verifications", "bob.1"), Some(vec![0, 7]));
}

#[test]
fn aci_and_pni_share_only_identities() {
    let path = fresh_path("aci_pni");
    let mut store = open(&path, OnNewIdentity::Trust);
    aci().save_pre_key(&mut store, 1, b"aci").unwrap();
    assert_eq!(pni().get_pre_key(&store, 1), Err(ProtocolError::InvalidPreKeyId));
    pni().save_pre_key(&mut store, 1, b"pni").unwrap();
    assert_eq!(aci().get_pre_key(&store, 1), Ok(b"aci".to_vec()));
    let bob = address("bob", 1);
    aci().save_identity(&mut store, &bob, &IdentityKey { serialized: vec![1] }).unwrap();
    assert_eq!(pni().get_identity(&store, &bob), Ok(Some(IdentityKey { serialized: vec![1] })));
    assert_eq!(
        pni().save_identity(&mut store, &bob, &IdentityKey { serialized: vec![1] }),
        Ok((false, VerifiedState::Unverified))
    );
}

#[test]
fn second_open_of_a_database_fails() {
    let path = fresh_path("locked");
    let _store = open(&path, OnNewIdentity::Trust);
    assert!(SledStore::open(&path, OnNewIdentity::Trust).is_err());
}

#[test]
fn tree_names() {
    assert_eq!(AciSledStore::identities(), "identities");
    assert_eq!(AciSledStore::state(), "state");
    assert_eq!(AciSledStore::pre_keys(), "pre_keys");
    assert_eq!(AciSledStore::signed_pre_keys(), "sender_keys");
    assert_eq!(AciSledStore::kyber_pre_keys(), "signed_pre_keys");
    assert_eq!(AciSledStore::kyber_pre_keys_last_resort(), "kyber_pre_keys_last_resort");
    assert_eq!(AciSledStore::sender_keys(), "kyber_pre_keys");
    assert_eq!(AciSledStore::sessions(), "sessions");
    assert_eq!(PniSledStore::identities(), "identities");
    assert_eq!(PniSledStore::state(), "pni_state");
    assert_eq!(PniSledStore::pre_keys(), "pni_pre_keys");
    assert_eq!(PniSledStore::signed_pre_keys(), "pni_sender_keys");
    assert_eq!(PniSledStore::kyber_pre_keys(), "pni_signed_pre_keys");
    assert_eq!(PniSledStore::kyber_pre_keys_last_resort(), "pni_kyber_pre_keys_last_resort");
    assert_eq!(PniSledStore::sender_keys(), "pni_kyber_pre_keys");
    assert_eq!(PniSledStore::sessions(), "pni_sessions");
    assert_eq!(AciSledStore::identity_verifications(), "identity_verifications");
    assert_eq!(PniSledStore::identity_verifications(), "identity_verifications");
}

#[test]
fn saved_identities_record_their_verification_state() {
    let path = fresh_path("verifications");
    let mut store = open(&path, OnNewIdentity::Trust);
    let bob = address("bob", 1);
    aci().save_identity(&mut store, &bob, &IdentityKey { serialized: vec![5, 1, 2] }).unwrap();
    drop(store);
    assert_eq!(raw_get(&path, "identity_verifications", "bob.1"), Some(vec![0, 5, 1, 2]));
    let mut store = open(&path, OnNewIdentity::Trust);
    aci().save_identity(&mut store, &bob, &IdentityKey { serialized: vec![5, 7] }).unwrap();
    drop(store);
    assert_eq!(raw_get(&path, "identity_verifications", "bob.1"), Some(vec![1, 5, 7]));
    assert_eq!(raw_get(&path, "identities", "bob.1"), Some(vec![5, 7]));
}

#[test]
fn sessions_of_other_names_leave_sub_devices() {
    let path = fresh_path("other_names");
    let mut store = open(&path, OnNewIdentity::Trust);
    let s = aci();
    let account = ServiceAddress { uuid: uuid(0x22) };
    let name = uuid_name(&account.uuid);
    s.store_session(&mut store, &address(&name, 2), b"s").unwrap();
    assert_eq!(s.get_sub_device_sessions(&store, &account), Ok(vec![2]));
    // A name that begins with the account's UUID and a dot is listed by the
    // scan, yet gives no device.
    let longer = format!("{}.7", name);
    s.store_session(&mut store, &address(&longer, 5), b"s").unwrap();
    s.store_session(&mut store, &address("carol", 3), b"s").unwrap();
    s.store_session(&mut store, &address(&name[..10], 4), b"s").unwrap();
    assert_eq!(s.get_sub_device_sessions(&store, &account), Ok(vec![2]));
    s.delete_session(&mut store, &address(&longer, 5)).unwrap();
    s.delete_session(&mut store, &address("carol", 3)).unwrap();
    assert_eq!(s.get_sub_device_sessions(&store, &account), Ok(vec![2]));
}
