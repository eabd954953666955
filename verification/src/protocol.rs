//! The protocol store of one identity of the account, kept in the trees of a
//! sled database that `SledTrees` names.

use std::marker::PhantomData;

use vstd::prelude::*;

use crate::encoding::{
    address_bytes, bytes_equal, copy_bytes, decimal, decimal_bytes, device_prefix, device_prefix_bytes, parse_u32,
    parse_u32_bytes, sender_key_bytes, sender_key_text, uuid_bytes, ProtocolAddress,
    ServiceAddress, Uuid,
};
use crate::error::{ProtocolError, StateContext};
use crate::identity::{
    trust_decision, trusted, verification_record, verification_record_bytes, verified_state,
    verified_state_for, Direction, IdentityKey,
    IdentityKeyPair, OnNewIdentity, RegistrationData, VerifiedState,
};
use crate::sled_db::{
    db_open,
    batch_new, batch_remove, batch_writes, db_apply_batch, db_contents,
    db_drop_tree, db_get, db_insert, db_open_tree, db_remove, db_scan_prefix_keys,
    db_tree_values, has_prefix, keys_with_prefix, lemma_listing_len, outside_writes, lex_lt, lists_in_order, lookup, ok_items,
    opt_view, tree_keys, with_writes, without_tree,
};
use crate::trees::{lemma_tree_facts, AciSledStore, PniSledStore, SledTrees};

verus! {

/// The key in the state tree of the next one-time pre-key ID.
pub const PRE_KEYS_OFFSET_ID: &'static str = "pre_keys_offset_id";

/// The key in the state tree of the next signed pre-key ID.
pub const NEXT_SIGNED_PRE_KEY_ID: &'static str = "next_signed_pre_key_id";

/// The key in the state tree of the next Kyber pre-key ID.
pub const NEXT_PQ_PRE_KEY_ID: &'static str = "next_pq_pre_key_id";

/// The device ID of an account's primary device.
pub const DEFAULT_DEVICE_ID: u32 = 1;

/// The value of a counter stored under a key: absent means zero, and a
/// stored value is the decimal text of the number.
pub open spec fn counter_value(stored: Option<Seq<u8>>) -> Option<u32> {
    match stored {
        None => Some(0u32),
        Some(text) => parse_u32(text),
    }
}

/// The result of reading a record that must exist: the record, or `missing`
/// where the key holds nothing or the read failed.
pub open spec fn record_result(read: Result<Option<Vec<u8>>, sled::Error>, missing: ProtocolError) -> Result<Vec<u8>, ProtocolError> {
    match read {
        Ok(Some(record)) => Ok(record),
        _ => Err(missing),
    }
}

/// The result of reading a counter: its value, or `failed` where the read
/// failed or the stored value is no number.
pub open spec fn counter_result(read: Result<Option<Vec<u8>>, sled::Error>, failed: ProtocolError) -> Result<u32, ProtocolError> {
    match read {
        Ok(stored) => match counter_value(opt_view(stored)) {
            Some(n) => Ok(n),
            None => Err(failed),
        },
        Err(_) => Err(failed),
    }
}

/// A record that must exist, from what reading it gave.
pub fn stored_record(read: Result<Option<Vec<u8>>, sled::Error>, missing: ProtocolError) -> (r: Result<Vec<u8>, ProtocolError>)
    ensures
        r == record_result(read, missing),
{
    match read {
        Ok(Some(record)) => Ok(record),
        _ => Err(missing),
    }
}

/// A counter, from what reading it gave.
pub fn stored_counter(read: Result<Option<Vec<u8>>, sled::Error>, failed: ProtocolError) -> (r: Result<u32, ProtocolError>)
    ensures
        r == counter_result(read, failed),
{
    match read {
        Ok(None) => Ok(0),
        Ok(Some(text)) => match parse_u32_bytes(text.as_slice()) {
            Some(n) => Ok(n),
            None => Err(failed),
        },
        Err(_) => Err(failed),
    }
}

/// The outcome of a write whose failure is passed on as a database error.
pub fn write_passed_on(done: Result<Option<Vec<u8>>, sled::Error>) -> (r: Result<(), ProtocolError>)
    ensures
        r == match done {
            Ok(_) => Ok::<(), ProtocolError>(()),
            Err(e) => Err(ProtocolError::Store(e)),
        },
{
    match done {
        Ok(_) => Ok(()),
        Err(e) => Err(ProtocolError::Store(e)),
    }
}

/// The outcome of a write whose failure is reported as `failed`.
pub fn write_or(done: Result<Option<Vec<u8>>, sled::Error>, failed: ProtocolError) -> (r: Result<(), ProtocolError>)
    ensures
        r == match done {
            Ok(_) => Ok::<(), ProtocolError>(()),
            Err(_) => Err(failed),
        },
{
    match done {
        Ok(_) => Ok(()),
        Err(_) => Err(failed),
    }
}

/// The device ID that a session name gives: the number after the prefix
/// `<uuid>.`.
pub open spec fn device_id_of(key: Seq<u8>, prefix: Seq<u8>) -> Option<u32> {
    if has_prefix(key, prefix) {
        parse_u32(key.subrange(prefix.len() as int, key.len() as int))
    } else {
        None
    }
}

/// The device IDs, other than the primary device's, that the session names
/// `keys` give, in the order of the names.
pub open spec fn sub_device_ids(keys: Seq<Seq<u8>>, prefix: Seq<u8>) -> Seq<u32>
    decreases keys.len(),
{
    if keys.len() == 0 {
        seq![]
    } else {
        let rest = sub_device_ids(keys.drop_last(), prefix);
        match device_id_of(keys.last(), prefix) {
            Some(d) => if d != DEFAULT_DEVICE_ID {
                rest.push(d)
            } else {
                rest
            },
            None => rest,
        }
    }
}

/// The views of a list of byte strings.
pub open spec fn views(v: Seq<Vec<u8>>) -> Seq<Seq<u8>> {
    v.map_values(|b: Vec<u8>| b@)
}

/// The device ID that a session name gives, if it begins with `prefix`.
pub fn device_id_from_key(key: &[u8], prefix: &[u8]) -> (r: Option<u32>)
    ensures
        r == device_id_of(key@, prefix@),
{
    if key.len() < prefix.len() {
        return None;
    }
    let head = vstd::slice::slice_subrange(key, 0, prefix.len());
    if !bytes_equal(head, prefix) {
        return None;
    }
    let tail = vstd::slice::slice_subrange(key, prefix.len(), key.len());
    parse_u32_bytes(tail)
}

/// The device IDs, other than the primary device's, in the session names that
/// a scan listed; the failed items of the scan are skipped.
pub fn sub_devices_from_scan(items: &Vec<Result<Vec<u8>, sled::Error>>, prefix: &[u8]) -> (r: Vec<u32>)
    ensures
        r@ == sub_device_ids(ok_items(items@), prefix@),
{
    let mut ids: Vec<u32> = Vec::new();
    let mut i: usize = 0;
    while i < items.len()
        invariant
            i <= items@.len(),
            ids@ == sub_device_ids(ok_items(items@.subrange(0, i as int)), prefix@),
        decreases items@.len() - i,
    {
        let ghost before = items@.subrange(0, i as int);
        let ghost after = items@.subrange(0, i + 1);
        assert(after.drop_last() == before);
        match &items[i] {
            Ok(key) => {
                assert(ok_items(after) == ok_items(before).push(key@));
                assert(ok_items(after).drop_last() == ok_items(before));
                match device_id_from_key(key.as_slice(), prefix) {
                    Some(d) => {
                        if d != DEFAULT_DEVICE_ID {
                            ids.push(d);
                        }
                    },
                    None => {},
                }
            },
            Err(_) => {
                assert(ok_items(after) == ok_items(before));
            },
        }
        i = i + 1;
    }
    assert(items@.subrange(0, items@.len() as int) == items@);
    ids
}

/// The values that a listing gave, the failed items skipped.
pub fn values_from_listing(items: &Vec<Result<Vec<u8>, sled::Error>>) -> (r: Vec<Vec<u8>>)
    ensures
        views(r@) == ok_items(items@),
{
    let mut values: Vec<Vec<u8>> = Vec::new();
    let mut i: usize = 0;
    while i < items.len()
        invariant
            i <= items@.len(),
            views(values@) == ok_items(items@.subrange(0, i as int)),
        decreases items@.len() - i,
    {
        let ghost before = items@.subrange(0, i as int);
        let ghost after = items@.subrange(0, i + 1);
        assert(after.drop_last() == before);
        match &items[i] {
            Ok(value) => {
                let copy = copy_bytes(value.as_slice());
                values.push(copy);
                assert(views(values@) == ok_items(after));
            },
            Err(_) => {
                assert(ok_items(after) == ok_items(before));
            },
        }
        i = i + 1;
    }
    assert(items@.subrange(0, items@.len() as int) == items@);
    values
}

/// The contents without the trees that `clear` drops: pre-keys, sender
/// keys, sessions, signed pre-keys and Kyber pre-keys.
pub open spec fn cleared<T: SledTrees>(c: Map<(Seq<char>, Seq<u8>), Seq<u8>>) -> Map<(Seq<char>, Seq<u8>), Seq<u8>> {
    Map::new(
        |p: (Seq<char>, Seq<u8>)|
            c.contains_key(p) && p.0 != T::pre_keys_tree() && p.0 != T::sender_keys_tree() && p.0 != T::sessions_tree()
                && p.0 != T::signed_pre_keys_tree() && p.0 != T::kyber_pre_keys_tree(),
        |p: (Seq<char>, Seq<u8>)| c[p],
    )
}

/// Whether two contents hold the same entries outside the tree `tree`.
pub open spec fn agree_outside(a: Map<(Seq<char>, Seq<u8>), Seq<u8>>, b: Map<(Seq<char>, Seq<u8>), Seq<u8>>, tree: Seq<char>) -> bool {
    forall|p: (Seq<char>, Seq<u8>)|
        #![trigger a.contains_key(p)]
        #![trigger b.contains_key(p)]
        p.0 != tree ==> (a.contains_key(p) == b.contains_key(p) && (a.contains_key(p) ==> a[p] == b[p]))
}

/// Contents that are equal once a tree is dropped agree outside it.
pub proof fn lemma_agree_outside(a: Map<(Seq<char>, Seq<u8>), Seq<u8>>, b: Map<(Seq<char>, Seq<u8>), Seq<u8>>, tree: Seq<char>)
    requires
        without_tree(a, tree) == without_tree(b, tree),
    ensures
        agree_outside(a, b, tree),
{
    assert forall|p: (Seq<char>, Seq<u8>)|
        #![trigger a.contains_key(p)]
        #![trigger b.contains_key(p)]
        p.0 != tree implies (a.contains_key(p) == b.contains_key(p) && (a.contains_key(p) ==> a[p] == b[p])) by {
        assert(without_tree(a, tree).contains_key(p) == a.contains_key(p));
        assert(without_tree(b, tree).contains_key(p) == b.contains_key(p));
        if a.contains_key(p) {
            assert(without_tree(a, tree)[p] == a[p]);
            assert(without_tree(b, tree)[p] == b[p]);
        }
    }
}

/// Contents that agree outside trees that `clear` drops agree once those
/// trees are dropped.
pub proof fn lemma_cleared_agree<T: SledTrees>(a: Map<(Seq<char>, Seq<u8>), Seq<u8>>, b: Map<(Seq<char>, Seq<u8>), Seq<u8>>, tree: Seq<char>)
    requires
        agree_outside(a, b, tree),
        tree == T::pre_keys_tree() || tree == T::sender_keys_tree() || tree == T::sessions_tree()
            || tree == T::signed_pre_keys_tree() || tree == T::kyber_pre_keys_tree(),
    ensures
        cleared::<T>(a) == cleared::<T>(b),
{
    let ca = cleared::<T>(a);
    let cb = cleared::<T>(b);
    assert forall|p: (Seq<char>, Seq<u8>)| ca.dom().contains(p) <==> cb.dom().contains(p) by {
        if p.0 != tree {
            assert(a.contains_key(p) == b.contains_key(p));
        }
    }
    assert(ca.dom() =~= cb.dom());
    assert forall|p: (Seq<char>, Seq<u8>)| #[trigger] ca.contains_key(p) implies ca[p] == cb[p] by {
        assert(p.0 != tree);
        assert(a[p] == b[p]);
    }
    assert(ca =~= cb);
}

/// The writes that remove each of `keys`.
pub open spec fn removals(keys: Seq<Seq<u8>>) -> Map<Seq<u8>, Option<Seq<u8>>> {
    Map::new(|k: Seq<u8>| keys.contains(k), |k: Seq<u8>| None::<Seq<u8>>)
}

/// Listing one more key to remove adds its removal.
pub proof fn lemma_removals_push(keys: Seq<Seq<u8>>, k: Seq<u8>)
    ensures
        removals(keys.push(k)) == removals(keys).insert(k, None),
{
    assert forall|x: Seq<u8>| keys.push(k).contains(x) <==> keys.contains(x) || x == k by {
        if keys.contains(x) {
            let i = choose|i: int| 0 <= i < keys.len() && keys[i] == x;
            assert(keys.push(k)[i] == x);
        }
        if x == k {
            assert(keys.push(k)[keys.len() as int] == x);
        }
        if keys.push(k).contains(x) && x != k {
            let i = choose|i: int| 0 <= i < keys.push(k).len() && keys.push(k)[i] == x;
            assert(keys[i] == x);
        }
    }
    let a = removals(keys.push(k));
    let b = removals(keys).insert(k, None);
    assert forall|x: Seq<u8>| a.dom().contains(x) <==> b.dom().contains(x) by {
        assert(a.dom().contains(x) == keys.push(k).contains(x));
        assert(removals(keys).dom().contains(x) == keys.contains(x));
    }
    assert(a.dom() =~= b.dom());
    assert forall|x: Seq<u8>| #[trigger] a.contains_key(x) implies a[x] == b[x] by {}
    assert(a =~= b);
}

/// The contents with every key of the tree `tree` that begins with `prefix`
/// removed.
pub open spec fn without_prefix(c: Map<(Seq<char>, Seq<u8>), Seq<u8>>, tree: Seq<char>, prefix: Seq<u8>) -> Map<(Seq<char>, Seq<u8>), Seq<u8>> {
    Map::new(
        |p: (Seq<char>, Seq<u8>)| c.contains_key(p) && !(p.0 == tree && has_prefix(p.1, prefix)),
        |p: (Seq<char>, Seq<u8>)| c[p],
    )
}

/// Removing the keys that a listing of the keys with a prefix gives removes
/// every key with that prefix, and nothing else.
pub proof fn lemma_removals_without_prefix(
    c: Map<(Seq<char>, Seq<u8>), Seq<u8>>,
    tree: Seq<char>,
    prefix: Seq<u8>,
    listed: Seq<Seq<u8>>,
)
    requires
        lists_in_order(listed, keys_with_prefix(c, tree, prefix)),
    ensures
        with_writes(c, tree, removals(listed)) == without_prefix(c, tree, prefix),
{
    let a = with_writes(c, tree, removals(listed));
    let b = without_prefix(c, tree, prefix);
    assert forall|p: (Seq<char>, Seq<u8>)| a.dom().contains(p) <==> b.dom().contains(p) by {
        assert(removals(listed).dom().contains(p.1) == listed.contains(p.1));
        assert(keys_with_prefix(c, tree, prefix).contains(p.1) == (c.contains_key((tree, p.1)) && has_prefix(p.1, prefix)));
        if p.0 == tree {
            assert(p == (tree, p.1));
        }
    }
    assert(a.dom() =~= b.dom());
    assert forall|p: (Seq<char>, Seq<u8>)| #[trigger] a.contains_key(p) implies a[p] == b[p] by {
        assert(removals(listed).dom().contains(p.1) == listed.contains(p.1));
    }
    assert(a =~= b);
}

/// Where removing the listed keys with a prefix failed, the entries without
/// that prefix are as they were.
pub proof fn lemma_outside_removals(
    c: Map<(Seq<char>, Seq<u8>), Seq<u8>>,
    d: Map<(Seq<char>, Seq<u8>), Seq<u8>>,
    tree: Seq<char>,
    prefix: Seq<u8>,
    listed: Seq<Seq<u8>>,
)
    requires
        lists_in_order(listed, keys_with_prefix(c, tree, prefix)),
        outside_writes(d, tree, removals(listed)) == outside_writes(c, tree, removals(listed)),
    ensures
        without_prefix(d, tree, prefix) == without_prefix(c, tree, prefix),
{
    let a = without_prefix(d, tree, prefix);
    let b = without_prefix(c, tree, prefix);
    assert forall|p: (Seq<char>, Seq<u8>)| a.dom().contains(p) <==> b.dom().contains(p) by {
        if !(p.0 == tree && has_prefix(p.1, prefix)) {
            lemma_outside_removals_at(c, d, tree, prefix, listed, p);
        }
    }
    assert(a.dom() =~= b.dom());
    assert forall|p: (Seq<char>, Seq<u8>)| #[trigger] a.contains_key(p) implies a[p] == b[p] by {
        lemma_outside_removals_at(c, d, tree, prefix, listed, p);
    }
    assert(a =~= b);
}

proof fn lemma_outside_removals_at(
    c: Map<(Seq<char>, Seq<u8>), Seq<u8>>,
    d: Map<(Seq<char>, Seq<u8>), Seq<u8>>,
    tree: Seq<char>,
    prefix: Seq<u8>,
    listed: Seq<Seq<u8>>,
    p: (Seq<char>, Seq<u8>),
)
    requires
        lists_in_order(listed, keys_with_prefix(c, tree, prefix)),
        outside_writes(d, tree, removals(listed)) == outside_writes(c, tree, removals(listed)),
        !(p.0 == tree && has_prefix(p.1, prefix)),
    ensures
        d.contains_key(p) == c.contains_key(p),
        d.contains_key(p) ==> d[p] == c[p],
{
    let w = removals(listed);
    assert(w.dom().contains(p.1) == listed.contains(p.1));
    if p.0 == tree {
        assert(keys_with_prefix(c, tree, prefix).contains(p.1) == (c.contains_key((tree, p.1)) && has_prefix(p.1, prefix)));
        assert(p == (tree, p.1));
        assert(!listed.contains(p.1));
    }
    assert(outside_writes(d, tree, w).contains_key(p) == d.contains_key(p));
    assert(outside_writes(c, tree, w).contains_key(p) == c.contains_key(p));
    if d.contains_key(p) {
        assert(outside_writes(d, tree, w)[p] == d[p]);
        assert(outside_writes(c, tree, w)[p] == c[p]);
    }
}

/// The batch that removes each key that a scan listed, and the number of
/// those keys.
pub fn removal_batch(items: &Vec<Result<Vec<u8>, sled::Error>>) -> (r: (sled::Batch, usize))
    ensures
        batch_writes(r.0) == removals(ok_items(items@)),
        r.1 == ok_items(items@).len(),
{
    let mut batch = batch_new();
    let mut count: usize = 0;
    let mut i: usize = 0;
    assert(removals(ok_items(items@.subrange(0, 0))) =~= batch_writes(batch)) by {
        assert(items@.subrange(0, 0) == Seq::<Result<Vec<u8>, sled::Error>>::empty());
        assert forall|k: Seq<u8>| !removals(Seq::<Seq<u8>>::empty()).dom().contains(k) by {}
    }
    while i < items.len()
        invariant
            i <= items@.len(),
            count <= i,
            count == ok_items(items@.subrange(0, i as int)).len(),
            batch_writes(batch) == removals(ok_items(items@.subrange(0, i as int))),
        decreases items@.len() - i,
    {
        let ghost before = items@.subrange(0, i as int);
        let ghost after = items@.subrange(0, i + 1);
        assert(after.drop_last() == before);
        match &items[i] {
            Ok(key) => {
                batch_remove(&mut batch, key.as_slice());
                count = count + 1;
                assert(ok_items(after) == ok_items(before).push(key@));
                proof {
                    lemma_removals_push(ok_items(before), key@);
                }
            },
            Err(_) => {
                assert(ok_items(after) == ok_items(before));
            },
        }
        i = i + 1;
    }
    assert(items@.subrange(0, items@.len() as int) == items@);
    (batch, count)
}

/// The sled database that holds the protocol state of both identities of
/// the account, with the policy for changed identity keys. It holds the only
/// handle onto the database, which it opened itself and never clones.
pub struct SledStore {
    db: sled::Db,
    trust_new_identities: OnNewIdentity,
}

impl View for SledStore {
    type V = Map<(Seq<char>, Seq<u8>), Seq<u8>>;

    /// The contents of the database.
    closed spec fn view(&self) -> Map<(Seq<char>, Seq<u8>), Seq<u8>> {
        db_contents(self.db)
    }
}

impl SledStore {
    /// Opens the database at `path`.
    pub fn open(path: &str, trust_new_identities: OnNewIdentity) -> (r: Result<SledStore, sled::Error>)
        ensures
            r matches Ok(store) ==> store.policy() == trust_new_identities,
    {
        let db = db_open(path)?;
        Ok(SledStore { db, trust_new_identities })
    }

    /// What to do when a contact's identity key changes.
    pub closed spec fn policy(&self) -> OnNewIdentity {
        self.trust_new_identities
    }
}

/// The protocol state of one identity of the account (its ACI or its PNI
/// identity, as `T` says), kept in its trees of a `SledStore`.
pub struct SledProtocolStore<T: SledTrees> {
    trees: PhantomData<T>,
}

impl SledProtocolStore<AciSledStore> {
    /// The store of the account's ACI identity.
    pub fn aci_protocol_store() -> (r: Self) {
        SledProtocolStore { trees: PhantomData }
    }
}

impl SledProtocolStore<PniSledStore> {
    /// The store of the account's PNI identity.
    pub fn pni_protocol_store() -> (r: Self) {
        SledProtocolStore { trees: PhantomData }
    }
}

impl<T: SledTrees> SledProtocolStore<T> {
    /// Drops the trees of pre-keys, sender keys, sessions, signed pre-keys
    /// and Kyber pre-keys. The identities, the counters, the last-resort
    /// Kyber pre-keys and the verification states stay, also after a failure.
    pub fn clear(&self, store: &mut SledStore) -> (r: Result<(), sled::Error>)
        ensures
            r is Ok ==> final(store)@ == cleared::<T>(old(store)@),
            r is Err ==> cleared::<T>(final(store)@) == cleared::<T>(old(store)@),
            final(store).policy() == old(store).policy(),
    {
        proof {
            lemma_tree_facts::<T>();
        }
        let ghost start = store@;
        let ghost step0 = store@;
        let dropped = db_drop_tree(&mut store.db, T::pre_keys());
        let ghost step1 = store@;
        proof {
            if dropped is Err {
                lemma_agree_outside(step1, step0, T::pre_keys_tree());
            } else {
                assert(agree_outside(step1, step0, T::pre_keys_tree()));
            }
        }
        if let Err(e) = dropped {
            proof {
                lemma_cleared_agree::<T>(step1, step0, T::pre_keys_tree());
            }
            return Err(e);
        }
        let dropped = db_drop_tree(&mut store.db, T::sender_keys());
        let ghost step2 = store@;
        proof {
            if dropped is Err {
                lemma_agree_outside(step2, step1, T::sender_keys_tree());
            } else {
                assert(agree_outside(step2, step1, T::sender_keys_tree()));
            }
        }
        if let Err(e) = dropped {
            proof {
                lemma_cleared_agree::<T>(step2, step1, T::sender_keys_tree());
                lemma_cleared_agree::<T>(step1, step0, T::pre_keys_tree());
            }
            return Err(e);
        }
        let dropped = db_drop_tree(&mut store.db, T::sessions());
        let ghost step3 = store@;
        proof {
            if dropped is Err {
                lemma_agree_outside(step3, step2, T::sessions_tree());
            } else {
                assert(agree_outside(step3, step2, T::sessions_tree()));
            }
        }
        if let Err(e) = dropped {
            proof {
                lemma_cleared_agree::<T>(step3, step2, T::sessions_tree());
                lemma_cleared_agree::<T>(step2, step1, T::sender_keys_tree());
                lemma_cleared_agree::<T>(step1, step0, T::pre_keys_tree());
            }
            return Err(e);
        }
        let dropped = db_drop_tree(&mut store.db, T::signed_pre_keys());
        let ghost step4 = store@;
        proof {
            if dropped is Err {
                lemma_agree_outside(step4, step3, T::signed_pre_keys_tree());
            } else {
                assert(agree_outside(step4, step3, T::signed_pre_keys_tree()));
            }
        }
        if let Err(e) = dropped {
            proof {
                lemma_cleared_agree::<T>(step4, step3, T::signed_pre_keys_tree());
                lemma_cleared_agree::<T>(step3, step2, T::sessions_tree());
                lemma_cleared_agree::<T>(step2, step1, T::sender_keys_tree());
                lemma_cleared_agree::<T>(step1, step0, T::pre_keys_tree());
            }
            return Err(e);
        }
        let dropped = db_drop_tree(&mut store.db, T::kyber_pre_keys());
        let ghost step5 = store@;
        proof {
            if dropped is Err {
                lemma_agree_outside(step5, step4, T::kyber_pre_keys_tree());
            } else {
                assert(agree_outside(step5, step4, T::kyber_pre_keys_tree()));
            }
        }
        if let Err(e) = dropped {
            proof {
                lemma_cleared_agree::<T>(step5, step4, T::kyber_pre_keys_tree());
                lemma_cleared_agree::<T>(step4, step3, T::signed_pre_keys_tree());
                lemma_cleared_agree::<T>(step3, step2, T::sessions_tree());
                lemma_cleared_agree::<T>(step2, step1, T::sender_keys_tree());
                lemma_cleared_agree::<T>(step1, step0, T::pre_keys_tree());
            }
            return Err(e);
        }
        assert(store@ =~= cleared::<T>(start));
        Ok(())
    }

    /// The one-time pre-key `id`.
    pub fn get_pre_key(&self, store: &SledStore, id: u32) -> (r: Result<Vec<u8>, ProtocolError>)
        ensures
            r matches Ok(record) ==> lookup(store@, T::pre_keys_tree(), decimal(id as nat)) == Some(record@),
            r matches Err(e) ==> e == ProtocolError::InvalidPreKeyId,
            lookup(store@, T::pre_keys_tree(), decimal(id as nat)) is None ==> r is Err,
    {
        proof {
            lemma_tree_facts::<T>();
        }
        let key = decimal_bytes(id);
        let read = db_get(&store.db, T::pre_keys(), key.as_slice());
        stored_record(read, ProtocolError::InvalidPreKeyId)
    }

    /// Stores the one-time pre-key `id`.
    pub fn save_pre_key(&self, store: &mut SledStore, id: u32, record: &[u8]) -> (r: Result<(), ProtocolError>)
        ensures
            r is Ok ==> final(store)@ == old(store)@.insert((T::pre_keys_tree(), decimal(id as nat)), record@),
            r is Err ==> final(store)@.remove((T::pre_keys_tree(), decimal(id as nat))) == old(store)@.remove((T::pre_keys_tree(), decimal(id as nat))),
            r matches Err(e) ==> e is Store,
            final(store).policy() == old(store).policy(),
    {
        proof {
            lemma_tree_facts::<T>();
        }
        let key = decimal_bytes(id);
        write_passed_on(db_insert(&mut store.db, T::pre_keys(), key.as_slice(), record))
    }

    /// Removes the one-time pre-key `id`.
    pub fn remove_pre_key(&self, store: &mut SledStore, id: u32) -> (r: Result<(), ProtocolError>)
        ensures
            r is Ok ==> final(store)@ == old(store)@.remove((T::pre_keys_tree(), decimal(id as nat))),
            r is Err ==> final(store)@.remove((T::pre_keys_tree(), decimal(id as nat))) == old(store)@.remove((T::pre_keys_tree(), decimal(id as nat))),
            r matches Err(e) ==> e is Store,
            final(store).policy() == old(store).policy(),
    {
        proof {
            lemma_tree_facts::<T>();
        }
        let key = decimal_bytes(id);
        write_passed_on(db_remove(&mut store.db, T::pre_keys(), key.as_slice()))
    }

    /// The ID of the next one-time pre-key: zero until one is stored.
    pub fn next_pre_key_id(&self, store: &SledStore) -> (r: Result<u32, ProtocolError>)
        ensures
            r matches Ok(n) ==> counter_value(lookup(store@, T::state_tree(), vstd::utf8::encode_utf8(PRE_KEYS_OFFSET_ID@))) == Some(n),
            r matches Err(e) ==> e == ProtocolError::InvalidPreKeyId,
            counter_value(lookup(store@, T::state_tree(), vstd::utf8::encode_utf8(PRE_KEYS_OFFSET_ID@))) is None ==> r is Err,
    {
        proof {
            lemma_tree_facts::<T>();
        }
        let read = db_get(&store.db, T::state(), PRE_KEYS_OFFSET_ID.as_bytes());
        stored_counter(read, ProtocolError::InvalidPreKeyId)
    }

    /// Stores the ID of the next one-time pre-key.
    pub fn set_next_pre_key_id(&self, store: &mut SledStore, id: u32) -> (r: Result<(), ProtocolError>)
        ensures
            r is Ok ==> final(store)@ == old(store)@.insert((T::state_tree(), vstd::utf8::encode_utf8(PRE_KEYS_OFFSET_ID@)), decimal(id as nat)),
            r is Err ==> final(store)@.remove((T::state_tree(), vstd::utf8::encode_utf8(PRE_KEYS_OFFSET_ID@))) == old(store)@.remove((T::state_tree(), vstd::utf8::encode_utf8(PRE_KEYS_OFFSET_ID@))),
            r matches Err(e) ==> e == ProtocolError::InvalidPreKeyId,
            final(store).policy() == old(store).policy(),
    {
        proof {
            lemma_tree_facts::<T>();
        }
        let text = decimal_bytes(id);
        write_or(db_insert(&mut store.db, T::state(), PRE_KEYS_OFFSET_ID.as_bytes(), text.as_slice()), ProtocolError::InvalidPreKeyId)
    }

    /// The ID of the next signed pre-key: zero until one is stored.
    pub fn next_signed_pre_key_id(&self, store: &SledStore) -> (r: Result<u32, ProtocolError>)
        ensures
            r matches Ok(n) ==> counter_value(lookup(store@, T::state_tree(), vstd::utf8::encode_utf8(NEXT_SIGNED_PRE_KEY_ID@))) == Some(n),
            r matches Err(e) ==> e == ProtocolError::InvalidSignedPreKeyId,
            counter_value(lookup(store@, T::state_tree(), vstd::utf8::encode_utf8(NEXT_SIGNED_PRE_KEY_ID@))) is None ==> r is Err,
    {
        proof {
            lemma_tree_facts::<T>();
        }
        let read = db_get(&store.db, T::state(), NEXT_SIGNED_PRE_KEY_ID.as_bytes());
        stored_counter(read, ProtocolError::InvalidSignedPreKeyId)
    }

    /// Stores the ID of the next signed pre-key.
    pub fn set_next_signed_pre_key_id(&self, store: &mut SledStore, id: u32) -> (r: Result<(), ProtocolError>)
        ensures
            r is Ok ==> final(store)@ == old(store)@.insert((T::state_tree(), vstd::utf8::encode_utf8(NEXT_SIGNED_PRE_KEY_ID@)), decimal(id as nat)),
            r is Err ==> final(store)@.remove((T::state_tree(), vstd::utf8::encode_utf8(NEXT_SIGNED_PRE_KEY_ID@))) == old(store)@.remove((T::state_tree(), vstd::utf8::encode_utf8(NEXT_SIGNED_PRE_KEY_ID@))),
            r matches Err(e) ==> e == ProtocolError::InvalidSignedPreKeyId,
            final(store).policy() == old(store).policy(),
    {
        proof {
            lemma_tree_facts::<T>();
        }
        let text = decimal_bytes(id);
        write_or(db_insert(&mut store.db, T::state(), NEXT_SIGNED_PRE_KEY_ID.as_bytes(), text.as_slice()), ProtocolError::InvalidSignedPreKeyId)
    }

    /// The ID of the next Kyber pre-key: zero until one is stored.
    pub fn next_pq_pre_key_id(&self, store: &SledStore) -> (r: Result<u32, ProtocolError>)
        ensures
            r matches Ok(n) ==> counter_value(lookup(store@, T::state_tree(), vstd::utf8::encode_utf8(NEXT_PQ_PRE_KEY_ID@))) == Some(n),
            r matches Err(e) ==> e == ProtocolError::InvalidKyberPreKeyId,
            counter_value(lookup(store@, T::state_tree(), vstd::utf8::encode_utf8(NEXT_PQ_PRE_KEY_ID@))) is None ==> r is Err,
    {
        proof {
            lemma_tree_facts::<T>();
        }
        let read = db_get(&store.db, T::state(), NEXT_PQ_PRE_KEY_ID.as_bytes());
        stored_counter(read, ProtocolError::InvalidKyberPreKeyId)
    }

    /// Stores the ID of the next Kyber pre-key.
    pub fn set_next_pq_pre_key_id(&self, store: &mut SledStore, id: u32) -> (r: Result<(), ProtocolError>)
        ensures
            r is Ok ==> final(store)@ == old(store)@.insert((T::state_tree(), vstd::utf8::encode_utf8(NEXT_PQ_PRE_KEY_ID@)), decimal(id as nat)),
            r is Err ==> final(store)@.remove((T::state_tree(), vstd::utf8::encode_utf8(NEXT_PQ_PRE_KEY_ID@))) == old(store)@.remove((T::state_tree(), vstd::utf8::encode_utf8(NEXT_PQ_PRE_KEY_ID@))),
            r matches Err(e) ==> e == ProtocolError::InvalidKyberPreKeyId,
            final(store).policy() == old(store).policy(),
    {
        proof {
            lemma_tree_facts::<T>();
        }
        let text = decimal_bytes(id);
        write_or(db_insert(&mut store.db, T::state(), NEXT_PQ_PRE_KEY_ID.as_bytes(), text.as_slice()), ProtocolError::InvalidKyberPreKeyId)
    }

    /// The signed pre-key `id`.
    pub fn get_signed_pre_key(&self, store: &SledStore, id: u32) -> (r: Result<Vec<u8>, ProtocolError>)
        ensures
            r matches Ok(record) ==> lookup(store@, T::signed_pre_keys_tree(), decimal(id as nat)) == Some(record@),
            r matches Err(e) ==> e == ProtocolError::InvalidSignedPreKeyId,
            lookup(store@, T::signed_pre_keys_tree(), decimal(id as nat)) is None ==> r is Err,
    {
        proof {
            lemma_tree_facts::<T>();
        }
        let key = decimal_bytes(id);
        let read = db_get(&store.db, T::signed_pre_keys(), key.as_slice());
        stored_record(read, ProtocolError::InvalidSignedPreKeyId)
    }

    /// Stores the signed pre-key `id`.
    pub fn save_signed_pre_key(&self, store: &mut SledStore, id: u32, record: &[u8]) -> (r: Result<(), ProtocolError>)
        ensures
            r is Ok ==> final(store)@ == old(store)@.insert((T::signed_pre_keys_tree(), decimal(id as nat)), record@),
            r is Err ==> final(store)@.remove((T::signed_pre_keys_tree(), decimal(id as nat))) == old(store)@.remove((T::signed_pre_keys_tree(), decimal(id as nat))),
            r matches Err(e) ==> e == ProtocolError::InvalidState(StateContext::SaveSignedPreKey),
            final(store).policy() == old(store).policy(),
    {
        proof {
            lemma_tree_facts::<T>();
        }
        let key = decimal_bytes(id);
        write_or(db_insert(&mut store.db, T::signed_pre_keys(), key.as_slice(), record), ProtocolError::InvalidState(StateContext::SaveSignedPreKey))
    }

    /// The one-time Kyber pre-key `id`.
    pub fn get_kyber_pre_key(&self, store: &SledStore, id: u32) -> (r: Result<Vec<u8>, ProtocolError>)
        ensures
            r matches Ok(record) ==> lookup(store@, T::kyber_pre_keys_tree(), decimal(id as nat)) == Some(record@),
            r matches Err(e) ==> e == ProtocolError::InvalidKyberPreKeyId,
            lookup(store@, T::kyber_pre_keys_tree(), decimal(id as nat)) is None ==> r is Err,
    {
        proof {
            lemma_tree_facts::<T>();
        }
        let key = decimal_bytes(id);
        let read = db_get(&store.db, T::kyber_pre_keys(), key.as_slice());
        stored_record(read, ProtocolError::InvalidKyberPreKeyId)
    }

    /// Stores the one-time Kyber pre-key `id`.
    pub fn save_kyber_pre_key(&self, store: &mut SledStore, id: u32, record: &[u8]) -> (r: Result<(), ProtocolError>)
        ensures
            r is Ok ==> final(store)@ == old(store)@.insert((T::kyber_pre_keys_tree(), decimal(id as nat)), record@),
            r is Err ==> final(store)@.remove((T::kyber_pre_keys_tree(), decimal(id as nat))) == old(store)@.remove((T::kyber_pre_keys_tree(), decimal(id as nat))),
            r matches Err(e) ==> e == ProtocolError::InvalidState(StateContext::SaveKyberPreKey),
            final(store).policy() == old(store).policy(),
    {
        proof {
            lemma_tree_facts::<T>();
        }
        let key = decimal_bytes(id);
        write_or(db_insert(&mut store.db, T::kyber_pre_keys(), key.as_slice(), record), ProtocolError::InvalidState(StateContext::SaveKyberPreKey))
    }

    /// Marks the one-time Kyber pre-key `id` used, by removing it.
    pub fn mark_kyber_pre_key_used(&self, store: &mut SledStore, id: u32) -> (r: Result<(), ProtocolError>)
        ensures
            r is Ok ==> final(store)@ == old(store)@.remove((T::kyber_pre_keys_tree(), decimal(id as nat))),
            r is Err ==> final(store)@.remove((T::kyber_pre_keys_tree(), decimal(id as nat))) == old(store)@.remove((T::kyber_pre_keys_tree(), decimal(id as nat))),
            r matches Err(e) ==> e == ProtocolError::InvalidState(StateContext::MarkKyberPreKeyUsed),
            final(store).policy() == old(store).policy(),
    {
        proof {
            lemma_tree_facts::<T>();
        }
        let key = decimal_bytes(id);
        write_or(db_remove(&mut store.db, T::kyber_pre_keys(), key.as_slice()), ProtocolError::InvalidState(StateContext::MarkKyberPreKeyUsed))
    }

    /// Stores the last-resort Kyber pre-key `id`.
    pub fn store_last_resort_kyber_pre_key(&self, store: &mut SledStore, id: u32, record: &[u8]) -> (r: Result<(), ProtocolError>)
        ensures
            r is Ok ==> final(store)@ == old(store)@.insert((T::kyber_pre_keys_last_resort_tree(), decimal(id as nat)), record@),
            r is Err ==> final(store)@.remove((T::kyber_pre_keys_last_resort_tree(), decimal(id as nat))) == old(store)@.remove((T::kyber_pre_keys_last_resort_tree(), decimal(id as nat))),
            r matches Err(e) ==> e == ProtocolError::InvalidState(StateContext::StoreLastResortKyberPreKey),
            final(store).policy() == old(store).policy(),
    {
        proof {
            lemma_tree_facts::<T>();
        }
        let key = decimal_bytes(id);
        write_or(db_insert(&mut store.db, T::kyber_pre_keys_last_resort(), key.as_slice(), record), ProtocolError::InvalidState(StateContext::StoreLastResortKyberPreKey))
    }

    /// The last-resort Kyber pre-keys: the values of their tree, one for each
    /// ID, in the order of the IDs' text.
    pub fn load_last_resort_kyber_pre_keys(&self, store: &SledStore) -> (r: Result<Vec<Vec<u8>>, ProtocolError>)
        ensures
            r matches Ok(records) ==> exists|keys: Seq<Seq<u8>>| {
                &&& lists_in_order(keys, tree_keys(store@, T::kyber_pre_keys_last_resort_tree()))
                &&& keys.len() == records@.len()
                &&& forall|i: int| 0 <= i < keys.len() ==> (#[trigger] records@[i])@ == store@[(T::kyber_pre_keys_last_resort_tree(), keys[i])]
            },
            r matches Err(e) ==> e == ProtocolError::InvalidState(StateContext::LoadLastResortKyberPreKeys),
    {
        proof {
            lemma_tree_facts::<T>();
        }
        match db_tree_values(&store.db, T::kyber_pre_keys_last_resort()) {
            Ok(items) => {
                let records = values_from_listing(&items);
                proof {
                    let tree = T::kyber_pre_keys_last_resort_tree();
                    let keys = choose|keys: Seq<Seq<u8>>| {
                        &&& lists_in_order(keys, tree_keys(db_contents(store.db), tree))
                        &&& keys.len() == ok_items(items@).len()
                        &&& forall|i: int| 0 <= i < keys.len() ==> #[trigger] ok_items(items@)[i] == db_contents(store.db)[(tree, keys[i])]
                    };
                    assert forall|i: int| 0 <= i < keys.len() implies (#[trigger] records@[i])@ == store@[(tree, keys[i])] by {
                        assert(views(records@)[i] == records@[i]@);
                        assert(ok_items(items@)[i] == db_contents(store.db)[(tree, keys[i])]);
                    }
                    assert(tree_keys(store@, tree) == tree_keys(db_contents(store.db), tree));
                }
                Ok(records)
            },
            Err(_) => Err(ProtocolError::InvalidState(StateContext::LoadLastResortKyberPreKeys)),
        }
    }

    /// Removes the last-resort Kyber pre-key `id`.
    pub fn remove_kyber_pre_key(&self, store: &mut SledStore, id: u32) -> (r: Result<(), ProtocolError>)
        ensures
            r is Ok ==> final(store)@ == old(store)@.remove((T::kyber_pre_keys_last_resort_tree(), decimal(id as nat))),
            r is Err ==> final(store)@.remove((T::kyber_pre_keys_last_resort_tree(), decimal(id as nat))) == old(store)@.remove((T::kyber_pre_keys_last_resort_tree(), decimal(id as nat))),
            r matches Err(e) ==> e is Store,
            final(store).policy() == old(store).policy(),
    {
        proof {
            lemma_tree_facts::<T>();
        }
        let key = decimal_bytes(id);
        if let Err(e) = db_remove(&mut store.db, T::kyber_pre_keys_last_resort(), key.as_slice()) {
            return Err(ProtocolError::Store(e));
        }
        if let Err(e) = db_remove(&mut store.db, T::kyber_pre_keys_last_resort(), key.as_slice()) {
            return Err(ProtocolError::Store(e));
        }
        Ok(())
    }

    /// The session with `address`, if there is one.
    pub fn load_session(&self, store: &SledStore, address: &ProtocolAddress) -> (r: Result<Option<Vec<u8>>, ProtocolError>)
        ensures
            r matches Ok(record) ==> opt_view(record) == lookup(store@, T::sessions_tree(), address.text()),
            r matches Err(e) ==> e is Store,
    {
        proof {
            lemma_tree_facts::<T>();
        }
        let key = address_bytes(address);
        match db_get(&store.db, T::sessions(), key.as_slice()) {
            Ok(record) => Ok(record),
            Err(e) => Err(ProtocolError::Store(e)),
        }
    }

    /// Stores the session with `address`.
    pub fn store_session(&self, store: &mut SledStore, address: &ProtocolAddress, record: &[u8]) -> (r: Result<(), ProtocolError>)
        ensures
            r is Ok ==> final(store)@ == old(store)@.insert((T::sessions_tree(), address.text()), record@),
            r is Err ==> final(store)@.remove((T::sessions_tree(), address.text())) == old(store)@.remove((T::sessions_tree(), address.text())),
            r matches Err(e) ==> e is Store,
            final(store).policy() == old(store).policy(),
    {
        proof {
            lemma_tree_facts::<T>();
        }
        let key = address_bytes(address);
        write_passed_on(db_insert(&mut store.db, T::sessions(), key.as_slice(), record))
    }

    /// The device IDs, other than the primary device's, with which `account`
    /// has a session, in the order of their session names.
    pub fn get_sub_device_sessions(&self, store: &SledStore, account: &ServiceAddress) -> (r: Result<Vec<u32>, ProtocolError>)
        ensures
            r matches Ok(ids) ==> exists|listed: Seq<Seq<u8>>| {
                &&& lists_in_order(listed, keys_with_prefix(store@, T::sessions_tree(), device_prefix(*account)))
                &&& ids@ == sub_device_ids(listed, device_prefix(*account))
            },
            r matches Ok(ids) ==> forall|k: Seq<u8>|
                #[trigger] keys_with_prefix(store@, T::sessions_tree(), device_prefix(*account)).contains(k)
                    && device_id_of(k, device_prefix(*account)) is Some
                    && device_id_of(k, device_prefix(*account)).unwrap() != DEFAULT_DEVICE_ID
                    ==> ids@.contains(device_id_of(k, device_prefix(*account)).unwrap()),
            r matches Ok(ids) ==> forall|d: u32| #[trigger] ids@.contains(d) ==> d != DEFAULT_DEVICE_ID && exists|k: Seq<u8>|
                #[trigger] keys_with_prefix(store@, T::sessions_tree(), device_prefix(*account)).contains(k)
                    && device_id_of(k, device_prefix(*account)) == Some(d),
            r matches Ok(ids) ==> ids@.len() == keys_with_prefix(store@, T::sessions_tree(), device_prefix(*account))
                .filter(|k: Seq<u8>| crate::laws::gives_sub_device(k, device_prefix(*account))).len(),
            r matches Err(e) ==> e is Store,
    {
        proof {
            lemma_tree_facts::<T>();
        }
        let prefix = device_prefix_bytes(account);
        match db_scan_prefix_keys(&store.db, T::sessions(), prefix.as_slice()) {
            Ok(items) => {
                let ids = sub_devices_from_scan(&items, prefix.as_slice());
                proof {
                    let keys = ok_items(items@);
                    let prefix_text = device_prefix(*account);
                    lemma_sub_device_ids_sound(keys, prefix_text);
                    crate::laws::law_sub_device_count(keys, keys_with_prefix(store@, T::sessions_tree(), prefix_text), prefix_text);
                    assert forall|d: u32| #[trigger] ids@.contains(d) implies d != DEFAULT_DEVICE_ID && exists|k: Seq<u8>|
                        #[trigger] keys_with_prefix(store@, T::sessions_tree(), prefix_text).contains(k)
                            && device_id_of(k, prefix_text) == Some(d) by {
                        assert(sub_device_ids(keys, prefix_text).contains(d));
                        let i = choose|i: int| 0 <= i < keys.len() && device_id_of(#[trigger] keys[i], prefix_text) == Some(d);
                        assert(keys.contains(keys[i]));
                        assert(keys_with_prefix(db_contents(store.db), T::sessions_tree(), prefix_text).contains(keys[i]));
                        assert(keys_with_prefix(store@, T::sessions_tree(), prefix_text).contains(keys[i]));
                    }
                    assert forall|k: Seq<u8>|
                        #[trigger] keys_with_prefix(store@, T::sessions_tree(), prefix_text).contains(k)
                            && device_id_of(k, prefix_text) is Some
                            && device_id_of(k, prefix_text).unwrap() != DEFAULT_DEVICE_ID
                        implies ids@.contains(device_id_of(k, prefix_text).unwrap()) by {
                        assert(keys_with_prefix(db_contents(store.db), T::sessions_tree(), prefix_text).contains(k));
                        let i = choose|i: int| 0 <= i < keys.len() && keys[i] == k;
                        crate::laws::law_sub_devices_complete(keys, prefix_text, i);
                    }
                }
                Ok(ids)
            },
            Err(e) => Err(ProtocolError::Store(e)),
        }
    }

    /// Removes the session with `address`.
    pub fn delete_session(&self, store: &mut SledStore, address: &ProtocolAddress) -> (r: Result<(), ProtocolError>)
        ensures
            r is Ok ==> final(store)@ == old(store)@.remove((T::sessions_tree(), address.text())),
            r is Err ==> final(store)@.remove((T::sessions_tree(), address.text())) == old(store)@.remove((T::sessions_tree(), address.text())),
            r matches Err(e) ==> e is Store || (e matches ProtocolError::SessionNotFound(a) && a.name@ == address.name@ && a.device_id == address.device_id),
            final(store).policy() == old(store).policy(),
    {
        proof {
            lemma_tree_facts::<T>();
        }
        if let Err(e) = db_open_tree(&store.db, T::sessions()) {
            return Err(ProtocolError::Store(e));
        }
        let key = address_bytes(address);
        match db_remove(&mut store.db, T::sessions(), key.as_slice()) {
            Ok(_) => Ok(()),
            Err(_) => Err(ProtocolError::SessionNotFound(address.duplicate())),
        }
    }

    /// Removes the session records of all devices of `account`: every
    /// session name that begins with the text of the account's UUID. The
    /// answer is the number of sessions removed.
    pub fn delete_all_sessions(&self, store: &mut SledStore, account: &ServiceAddress) -> (r: Result<usize, ProtocolError>)
        ensures
            r matches Ok(n) ==> {
                &&& final(store)@ == without_prefix(old(store)@, T::sessions_tree(), account.uuid.text())
                &&& n == keys_with_prefix(old(store)@, T::sessions_tree(), account.uuid.text()).len()
            },
            r is Err ==> without_prefix(final(store)@, T::sessions_tree(), account.uuid.text())
                == without_prefix(old(store)@, T::sessions_tree(), account.uuid.text()),
            r matches Err(e) ==> e is Store,
            final(store).policy() == old(store).policy(),
    {
        proof {
            lemma_tree_facts::<T>();
        }
        let prefix = uuid_bytes(&account.uuid);
        let items = match db_scan_prefix_keys(&store.db, T::sessions(), prefix.as_slice()) {
            Ok(items) => items,
            Err(e) => return Err(ProtocolError::Store(e)),
        };
        let (batch, count) = removal_batch(&items);
        let ghost start = store@;
        let ghost listed = ok_items(items@);
        match db_apply_batch(&mut store.db, T::sessions(), batch) {
            Ok(()) => {
                proof {
                    let set = keys_with_prefix(start, T::sessions_tree(), account.uuid.text());
                    lemma_listing_len(listed, set);
                    lemma_removals_without_prefix(start, T::sessions_tree(), account.uuid.text(), listed);
                }
                Ok(count)
            },
            Err(e) => {
                proof {
                    lemma_outside_removals(start, store@, T::sessions_tree(), account.uuid.text(), listed);
                }
                Err(ProtocolError::Store(e))
            },
        }
    }

    /// The key pair of this identity, from the registration data.
    pub fn get_identity_key_pair(&self, registration: Option<&RegistrationData>) -> (r: Result<IdentityKeyPair, ProtocolError>)
        ensures
            match registration {
                None => r == Err::<IdentityKeyPair, ProtocolError>(ProtocolError::InvalidState(StateContext::LoadIdentityKeyPair)),
                Some(data) => match r {
                    Ok(pair) => T::keypair_of(*data) == Some(pair.serialized@),
                    Err(e) => T::keypair_of(*data) is None && e == ProtocolError::InvalidState(StateContext::LoadIdentityKeyPair),
                },
            },
    {
        match registration {
            None => Err(ProtocolError::InvalidState(StateContext::LoadIdentityKeyPair)),
            Some(data) => T::identity_keypair(data),
        }
    }

    /// The registration ID, from the registration data.
    pub fn get_local_registration_id(&self, registration: Option<&RegistrationData>) -> (r: Result<u32, ProtocolError>)
        ensures
            match registration {
                None => r == Err::<u32, ProtocolError>(ProtocolError::InvalidState(StateContext::LoadRegistrationId)),
                Some(data) => r == Ok::<u32, ProtocolError>(data.registration_id),
            },
    {
        match registration {
            None => Err(ProtocolError::InvalidState(StateContext::LoadRegistrationId)),
            Some(data) => Ok(data.registration_id),
        }
    }

    /// Records `identity` as the identity key of `address`, and records its
    /// verification state: `Default` for a first identity, `Unverified`
    /// where the address had one before. The answer says whether an
    /// existing, different identity was replaced (`false` for a new or
    /// unchanged one), with the state that was recorded.
    pub fn save_identity(&self, store: &mut SledStore, address: &ProtocolAddress, identity: &IdentityKey) -> (r: Result<(bool, VerifiedState), ProtocolError>)
        ensures
            r matches Ok((replaced, state)) ==> {
                &&& replaced == (lookup(old(store)@, T::identities_tree(), address.text()) is Some
                    && lookup(old(store)@, T::identities_tree(), address.text()) != Some(identity.serialized@))
                &&& state == verified_state(lookup(old(store)@, T::identities_tree(), address.text()) is Some)
                &&& final(store)@ == old(store)@
                    .insert((T::identities_tree(), address.text()), identity.serialized@)
                    .insert((T::identity_verifications_tree(), address.text()), verification_record(state, identity.serialized@))
                &&& lookup(final(store)@, T::identity_verifications_tree(), address.text())
                    == Some(seq![if state == VerifiedState::Unverified { 1u8 } else { 0u8 }] + identity.serialized@)
            },
            r is Err ==> final(store)@.remove((T::identities_tree(), address.text())).remove((T::identity_verifications_tree(), address.text()))
                == old(store)@.remove((T::identities_tree(), address.text())).remove((T::identity_verifications_tree(), address.text())),
            r matches Err(e) ==> e is Store,
            final(store).policy() == old(store).policy(),
    {
        proof {
            lemma_tree_facts::<T>();
        }
        let key = address_bytes(address);
        let ghost start = store@;
        let ghost entry = (T::identities_tree(), address.text());
        let ghost record_entry = (T::identity_verifications_tree(), address.text());
        let previous = match db_insert(&mut store.db, T::identities(), key.as_slice(), identity.serialized.as_slice()) {
            Ok(previous) => previous,
            Err(e) => {
                assert(store@.remove(entry).remove(record_entry) =~= start.remove(entry).remove(record_entry));
                return Err(ProtocolError::Store(e));
            },
        };
        let ghost middle = store@;
        let existed_before = previous.is_some();
        let replaced = match &previous {
            Some(known) => !bytes_equal(known.as_slice(), identity.serialized.as_slice()),
            None => false,
        };
        let state = verified_state_for(existed_before);
        proof {
            crate::laws::law_verification_record_bytes(existed_before, identity.serialized@);
        }
        let record = verification_record_bytes(state, identity.serialized.as_slice());
        match db_insert(&mut store.db, T::identity_verifications(), key.as_slice(), record.as_slice()) {
            Ok(_) => Ok((replaced, state)),
            Err(e) => {
                assert(store@.remove(entry).remove(record_entry) =~= start.remove(entry).remove(record_entry)) by {
                    assert(store@.remove(record_entry) == middle.remove(record_entry));
                    assert(store@.remove(record_entry).remove(entry) =~= store@.remove(entry).remove(record_entry));
                    assert(middle.remove(record_entry).remove(entry) =~= start.remove(entry).remove(record_entry));
                }
                Err(ProtocolError::Store(e))
            },
        }
    }

    /// Whether `identity` is trusted for `address`: a new address is trusted,
    /// the key already stored for it is trusted, and another key is trusted
    /// only where the policy trusts new identities. The direction plays no
    /// part.
    pub fn is_trusted_identity(&self, store: &SledStore, address: &ProtocolAddress, identity: &IdentityKey, direction: Direction) -> (r: Result<bool, ProtocolError>)
        ensures
            r matches Ok(t) ==> t == trusted(lookup(store@, T::identities_tree(), address.text()), identity.serialized@, store.policy()),
            r matches Err(e) ==> e is Store,
    {
        proof {
            lemma_tree_facts::<T>();
        }
        let key = address_bytes(address);
        match db_get(&store.db, T::identities(), key.as_slice()) {
            Ok(Some(known)) => Ok(trust_decision(Some(known.as_slice()), identity.serialized.as_slice(), store.trust_new_identities)),
            Ok(None) => Ok(trust_decision(None, identity.serialized.as_slice(), store.trust_new_identities)),
            Err(e) => Err(ProtocolError::Store(e)),
        }
    }

    /// The identity key stored for `address`, if any.
    pub fn get_identity(&self, store: &SledStore, address: &ProtocolAddress) -> (r: Result<Option<IdentityKey>, ProtocolError>)
        ensures
            r matches Ok(found) ==> match found {
                Some(key) => lookup(store@, T::identities_tree(), address.text()) == Some(key.serialized@),
                None => lookup(store@, T::identities_tree(), address.text()) is None,
            },
            r matches Err(e) ==> e is Store,
    {
        proof {
            lemma_tree_facts::<T>();
        }
        let key = address_bytes(address);
        match db_get(&store.db, T::identities(), key.as_slice()) {
            Ok(Some(serialized)) => Ok(Some(IdentityKey { serialized })),
            Ok(None) => Ok(None),
            Err(e) => Err(ProtocolError::Store(e)),
        }
    }

    /// Stores the sender key that `sender` uses in the distribution
    /// `distribution_id`.
    pub fn store_sender_key(&self, store: &mut SledStore, sender: &ProtocolAddress, distribution_id: &Uuid, record: &[u8]) -> (r: Result<(), ProtocolError>)
        ensures
            r is Ok ==> final(store)@ == old(store)@.insert((T::sender_keys_tree(), sender_key_text(*sender, *distribution_id)), record@),
            r is Err ==> final(store)@.remove((T::sender_keys_tree(), sender_key_text(*sender, *distribution_id))) == old(store)@.remove((T::sender_keys_tree(), sender_key_text(*sender, *distribution_id))),
            r matches Err(e) ==> e is Store,
            final(store).policy() == old(store).policy(),
    {
        proof {
            lemma_tree_facts::<T>();
        }
        let key = sender_key_bytes(sender, distribution_id);
        write_passed_on(db_insert(&mut store.db, T::sender_keys(), key.as_slice(), record))
    }

    /// The sender key that `sender` uses in the distribution
    /// `distribution_id`, if there is one.
    pub fn load_sender_key(&self, store: &SledStore, sender: &ProtocolAddress, distribution_id: &Uuid) -> (r: Result<Option<Vec<u8>>, ProtocolError>)
        ensures
            r matches Ok(record) ==> opt_view(record) == lookup(store@, T::sender_keys_tree(), sender_key_text(*sender, *distribution_id)),
            r matches Err(e) ==> e is Store,
    {
        proof {
            lemma_tree_facts::<T>();
        }
        let key = sender_key_bytes(sender, distribution_id);
        match db_get(&store.db, T::sender_keys(), key.as_slice()) {
            Ok(record) => Ok(record),
            Err(e) => Err(ProtocolError::Store(e)),
        }
    }
}

/// Every device ID that the session names give is the device ID of one of
/// the names, and is not the primary device's.
pub proof fn lemma_sub_device_ids_sound(keys: Seq<Seq<u8>>, prefix: Seq<u8>)
    ensures
        forall|d: u32| #[trigger] sub_device_ids(keys, prefix).contains(d) ==> d != DEFAULT_DEVICE_ID && exists|i: int|
            0 <= i < keys.len() && device_id_of(#[trigger] keys[i], prefix) == Some(d),
    decreases keys.len(),
{
    if keys.len() > 0 {
        lemma_sub_device_ids_sound(keys.drop_last(), prefix);
        let rest = sub_device_ids(keys.drop_last(), prefix);
        assert forall|d: u32| #[trigger] sub_device_ids(keys, prefix).contains(d) implies d != DEFAULT_DEVICE_ID && exists|i: int|
            0 <= i < keys.len() && device_id_of(#[trigger] keys[i], prefix) == Some(d) by {
            if rest.contains(d) {
                let i = choose|i: int| 0 <= i < keys.drop_last().len() && device_id_of(#[trigger] keys.drop_last()[i], prefix) == Some(d);
                assert(keys[i] == keys.drop_last()[i]);
            } else {
                let n = sub_device_ids(keys, prefix);
                let j = choose|j: int| 0 <= j < n.len() && n[j] == d;
                assert(n != rest);
                assert(n == rest.push(d));
                assert(keys[keys.len() - 1] == keys.last());
            }
        }
    }
}

} // verus!
