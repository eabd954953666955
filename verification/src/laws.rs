//! What holds of the store across its operations, stated over the contents
//! that the operations' contracts speak of.

use vstd::prelude::*;

use crate::encoding::{
    address_text, decimal, device_prefix, hex_byte, is_digit, lemma_decimal_digits,
    lemma_parse_decimal, sender_key_text, uuid_text_upto, ProtocolAddress, ServiceAddress, Uuid,
};
use crate::identity::{trusted, verification_record, verified_state, OnNewIdentity, RegistrationData, VerifiedState};
use crate::sqlite::{next_id_after, next_id_after_u32};
use crate::protocol::{
    cleared, counter_value, device_id_of, sub_device_ids, without_prefix, DEFAULT_DEVICE_ID,
};
use crate::sled_db::{
    has_prefix, keys_with_prefix, lemma_listing_unique, lists_in_order, lookup,
};
use crate::trees::{lemma_tree_facts, tree_list, AciSledStore, PniSledStore, SledTrees};

verus! {

/// A read gives back what the last write stored under the same tree and key.
pub proof fn law_read_after_write(c: Map<(Seq<char>, Seq<u8>), Seq<u8>>, tree: Seq<char>, key: Seq<u8>, value: Seq<u8>)
    ensures
        lookup(c.insert((tree, key), value), tree, key) == Some(value),
{
}

/// A read after a removal finds nothing.
pub proof fn law_read_after_remove(c: Map<(Seq<char>, Seq<u8>), Seq<u8>>, tree: Seq<char>, key: Seq<u8>)
    ensures
        lookup(c.remove((tree, key)), tree, key) is None,
{
}

/// A write or a removal changes no other key of the same tree, and nothing
/// in any other tree.
pub proof fn law_write_touches_one_entry(
    c: Map<(Seq<char>, Seq<u8>), Seq<u8>>,
    tree: Seq<char>,
    key: Seq<u8>,
    value: Seq<u8>,
    other_tree: Seq<char>,
    other_key: Seq<u8>,
)
    requires
        tree != other_tree || key != other_key,
    ensures
        lookup(c.insert((tree, key), value), other_tree, other_key) == lookup(c, other_tree, other_key),
        lookup(c.remove((tree, key)), other_tree, other_key) == lookup(c, other_tree, other_key),
{
}

/// The nine trees of a store are different, so a write to one of them
/// leaves the others as they were: pre-keys, signed pre-keys, Kyber
/// pre-keys, last-resort Kyber pre-keys, sender keys, sessions, identities,
/// counters and identity verification records never overwrite one another.
pub proof fn law_trees_independent<T: SledTrees>(
    c: Map<(Seq<char>, Seq<u8>), Seq<u8>>,
    i: int,
    j: int,
    key: Seq<u8>,
    value: Seq<u8>,
    other_key: Seq<u8>,
)
    requires
        0 <= i < 9,
        0 <= j < 9,
        i != j,
    ensures
        lookup(c.insert((tree_list::<T>()[i], key), value), tree_list::<T>()[j], other_key) == lookup(c, tree_list::<T>()[j], other_key),
        lookup(c.remove((tree_list::<T>()[i], key)), tree_list::<T>()[j], other_key) == lookup(c, tree_list::<T>()[j], other_key),
{
    T::lemma_trees_distinct();
    let s = tree_list::<T>();
    assert(s[i] != s[j]);
}

/// A counter reads back the ID that was last stored in it.
pub proof fn law_counter_round_trip(c: Map<(Seq<char>, Seq<u8>), Seq<u8>>, tree: Seq<char>, key: Seq<u8>, id: u32)
    ensures
        counter_value(lookup(c.insert((tree, key), decimal(id as nat)), tree, key)) == Some(id),
{
    lemma_parse_decimal(id);
}

/// A counter that was never stored reads as zero.
pub proof fn law_counter_starts_at_zero(c: Map<(Seq<char>, Seq<u8>), Seq<u8>>, tree: Seq<char>, key: Seq<u8>)
    requires
        !c.contains_key((tree, key)),
    ensures
        counter_value(lookup(c, tree, key)) == Some(0u32),
{
}

/// Different IDs are stored under different keys, so two pre-keys never
/// share an entry.
pub proof fn law_ids_have_distinct_keys(a: u32, b: u32)
    requires
        a != b,
    ensures
        decimal(a as nat) != decimal(b as nat),
{
    lemma_parse_decimal(a);
    lemma_parse_decimal(b);
}

/// The session with a device of an account is named after the account's
/// UUID, and its name gives the device back.
pub proof fn law_session_name_gives_device(account: ServiceAddress, address: ProtocolAddress)
    requires
        vstd::utf8::encode_utf8(address.name@) == account.uuid.text(),
    ensures
        has_prefix(address.text(), device_prefix(account)),
        device_id_of(address.text(), device_prefix(account)) == Some(address.device_id),
{
    let p = device_prefix(account);
    let t = address.text();
    assert(t == p + decimal(address.device_id as nat));
    assert(t.subrange(0, p.len() as int) == p);
    assert(t.subrange(p.len() as int, t.len() as int) == decimal(address.device_id as nat));
    lemma_parse_decimal(address.device_id);
}

/// Every device other than the primary one whose session name is listed is
/// among the sub-device sessions.
pub proof fn law_sub_devices_complete(keys: Seq<Seq<u8>>, prefix: Seq<u8>, i: int)
    requires
        0 <= i < keys.len(),
        device_id_of(keys[i], prefix) is Some,
        device_id_of(keys[i], prefix).unwrap() != DEFAULT_DEVICE_ID,
    ensures
        sub_device_ids(keys, prefix).contains(device_id_of(keys[i], prefix).unwrap()),
    decreases keys.len(),
{
    let d = device_id_of(keys[i], prefix).unwrap();
    let rest = sub_device_ids(keys.drop_last(), prefix);
    if i < keys.len() - 1 {
        assert(keys.drop_last()[i] == keys[i]);
        law_sub_devices_complete(keys.drop_last(), prefix, i);
        let j = choose|j: int| 0 <= j < rest.len() && rest[j] == d;
        let n = sub_device_ids(keys, prefix);
        assert(n[j] == d);
    } else {
        assert(keys.last() == keys[i]);
        let n = sub_device_ids(keys, prefix);
        assert(n == rest.push(d));
        assert(n[rest.len() as int] == d);
    }
}

/// The primary device is never among the sub-device sessions.
pub proof fn law_primary_device_excluded(keys: Seq<Seq<u8>>, prefix: Seq<u8>)
    ensures
        !sub_device_ids(keys, prefix).contains(DEFAULT_DEVICE_ID),
{
    crate::protocol::lemma_sub_device_ids_sound(keys, prefix);
}

/// An identity is trusted right after it was saved for its address,
/// whatever the policy.
pub proof fn law_saved_identity_trusted(
    c: Map<(Seq<char>, Seq<u8>), Seq<u8>>,
    tree: Seq<char>,
    key: Seq<u8>,
    identity: Seq<u8>,
    policy: OnNewIdentity,
)
    ensures
        trusted(lookup(c.insert((tree, key), identity), tree, key), identity, policy),
{
}

/// An address with no stored identity trusts the first identity offered.
pub proof fn law_new_identity_trusted(c: Map<(Seq<char>, Seq<u8>), Seq<u8>>, tree: Seq<char>, key: Seq<u8>, identity: Seq<u8>, policy: OnNewIdentity)
    requires
        !c.contains_key((tree, key)),
    ensures
        trusted(lookup(c, tree, key), identity, policy),
{
}

/// Under the policy that rejects new identities, a key other than the one
/// stored is not trusted; under the policy that trusts them, it is.
pub proof fn law_changed_identity(known: Seq<u8>, offered: Seq<u8>)
    requires
        known != offered,
    ensures
        !trusted(Some(known), offered, OnNewIdentity::Reject),
        trusted(Some(known), offered, OnNewIdentity::Trust),
{
}

/// The first identity saved for an address is recorded as `Default`, and
/// one saved after it as `Unverified`.
pub proof fn law_saved_identity_states(
    c: Map<(Seq<char>, Seq<u8>), Seq<u8>>,
    tree: Seq<char>,
    key: Seq<u8>,
    first: Seq<u8>,
)
    requires
        !c.contains_key((tree, key)),
    ensures
        verified_state(lookup(c, tree, key) is Some) == VerifiedState::Default,
        verified_state(lookup(c.insert((tree, key), first), tree, key) is Some) == VerifiedState::Unverified,
{
}

/// Clearing a store empties its trees of pre-keys, sender keys, sessions,
/// signed pre-keys and Kyber pre-keys, and keeps its identities, counters,
/// identity verification records and last-resort Kyber pre-keys.
pub proof fn law_clear<T: SledTrees>(c: Map<(Seq<char>, Seq<u8>), Seq<u8>>, key: Seq<u8>)
    ensures
        lookup(cleared::<T>(c), T::pre_keys_tree(), key) is None,
        lookup(cleared::<T>(c), T::sender_keys_tree(), key) is None,
        lookup(cleared::<T>(c), T::sessions_tree(), key) is None,
        lookup(cleared::<T>(c), T::signed_pre_keys_tree(), key) is None,
        lookup(cleared::<T>(c), T::kyber_pre_keys_tree(), key) is None,
        lookup(cleared::<T>(c), T::identities_tree(), key) == lookup(c, T::identities_tree(), key),
        lookup(cleared::<T>(c), T::state_tree(), key) == lookup(c, T::state_tree(), key),
        lookup(cleared::<T>(c), T::identity_verifications_tree(), key) == lookup(c, T::identity_verifications_tree(), key),
        lookup(cleared::<T>(c), T::kyber_pre_keys_last_resort_tree(), key) == lookup(c, T::kyber_pre_keys_last_resort_tree(), key),
{
    lemma_tree_facts::<T>();
}

/// Deleting all sessions of an account leaves none of its session names,
/// and leaves every other entry (other accounts' sessions and every other
/// tree) as it was.
pub proof fn law_delete_all_sessions(
    c: Map<(Seq<char>, Seq<u8>), Seq<u8>>,
    sessions: Seq<char>,
    prefix: Seq<u8>,
    tree: Seq<char>,
    key: Seq<u8>,
)
    ensures
        has_prefix(key, prefix) ==> lookup(without_prefix(c, sessions, prefix), sessions, key) is None,
        (tree != sessions || !has_prefix(key, prefix)) ==> lookup(without_prefix(c, sessions, prefix), tree, key) == lookup(c, tree, key),
{
}

/// No '.' occurs in a decimal text.
proof fn lemma_decimal_has_no_dot(n: nat, i: int)
    requires
        0 <= i < decimal(n).len(),
    ensures
        decimal(n)[i] != 46u8,
{
    lemma_decimal_digits(n);
    assert(is_digit(decimal(n)[i]));
}

/// Two devices have the same text `<name>.<device>` only if they are the
/// same device of the same account: sessions and identities of different
/// devices never share an entry.
pub proof fn law_address_text_injective(name1: Seq<char>, device1: u32, name2: Seq<char>, device2: u32)
    requires
        address_text(name1, device1) == address_text(name2, device2),
    ensures
        name1 == name2,
        device1 == device2,
{
    let e1 = vstd::utf8::encode_utf8(name1);
    let e2 = vstd::utf8::encode_utf8(name2);
    let t = address_text(name1, device1);
    assert(t == address_text(name2, device2));
    lemma_decimal_digits(device1 as nat);
    lemma_decimal_digits(device2 as nat);
    assert(t.len() == e1.len() + 1 + decimal(device1 as nat).len());
    assert(t.len() == e2.len() + 1 + decimal(device2 as nat).len());
    if e1.len() < e2.len() {
        assert(t[e2.len() as int] == 46u8);
        lemma_decimal_has_no_dot(device1 as nat, e2.len() - e1.len() - 1);
        assert(t[e2.len() as int] == decimal(device1 as nat)[e2.len() - e1.len() - 1]);
    } else if e2.len() < e1.len() {
        assert(t[e1.len() as int] == 46u8);
        lemma_decimal_has_no_dot(device2 as nat, e1.len() - e2.len() - 1);
        assert(t[e1.len() as int] == decimal(device2 as nat)[e1.len() - e2.len() - 1]);
    }
    assert(e1.len() == e2.len());
    assert(e1 == t.subrange(0, e1.len() as int));
    assert(e2 == t.subrange(0, e2.len() as int));
    vstd::utf8::encode_utf8_decode_utf8(name1);
    vstd::utf8::encode_utf8_decode_utf8(name2);
    assert(decimal(device1 as nat) == t.subrange(e1.len() + 1int, t.len() as int));
    assert(decimal(device2 as nat) == t.subrange(e2.len() + 1int, t.len() as int));
    lemma_parse_decimal(device1);
    lemma_parse_decimal(device2);
}

/// The texts of the first `n` bytes of two UUIDs have the same length.
proof fn lemma_uuid_text_len(a: Seq<u8>, b: Seq<u8>, n: nat)
    ensures
        uuid_text_upto(a, n).len() == uuid_text_upto(b, n).len(),
    decreases n,
{
    if n > 0 {
        lemma_uuid_text_len(a, b, (n - 1) as nat);
    }
}

/// Equal texts of the first `n` bytes come from equal bytes.
proof fn lemma_uuid_text_injective(a: Seq<u8>, b: Seq<u8>, n: nat)
    requires
        n <= a.len(),
        n <= b.len(),
        uuid_text_upto(a, n) == uuid_text_upto(b, n),
    ensures
        a.subrange(0, n as int) == b.subrange(0, n as int),
    decreases n,
{
    if n > 0 {
        let i = (n - 1) as nat;
        lemma_uuid_text_len(a, b, i);
        let ta = uuid_text_upto(a, n);
        let pa = uuid_text_upto(a, i);
        let pb = uuid_text_upto(b, i);
        assert(pa == ta.subrange(0, pa.len() as int));
        assert(pb == ta.subrange(0, pb.len() as int));
        lemma_uuid_text_injective(a, b, i);
        let x = a[i as int];
        let y = b[i as int];
        assert(ta[ta.len() - 2] == hex_byte(x as nat / 16));
        assert(ta[ta.len() - 2] == hex_byte(y as nat / 16));
        assert(ta[ta.len() - 1] == hex_byte(x as nat % 16));
        assert(ta[ta.len() - 1] == hex_byte(y as nat % 16));
        assert(x as nat / 16 == y as nat / 16);
        assert(x as nat % 16 == y as nat % 16);
        assert(x == y);
        assert(a.subrange(0, n as int) == a.subrange(0, i as int).push(x));
        assert(b.subrange(0, n as int) == b.subrange(0, i as int).push(y));
    }
}

/// A UUID's text is 36 bytes long.
pub proof fn law_uuid_text_len(u: Uuid)
    ensures
        u.text().len() == 36,
{
    reveal_with_fuel(uuid_text_upto, 17);
}

/// Two UUIDs with the same text are the same UUID.
pub proof fn law_uuid_text_injective(u: Uuid, v: Uuid)
    requires
        u.text() == v.text(),
    ensures
        u.bytes@ == v.bytes@,
{
    lemma_uuid_text_injective(u.bytes@, v.bytes@, 16);
    assert(u.bytes@.subrange(0, 16) == u.bytes@);
    assert(v.bytes@.subrange(0, 16) == v.bytes@);
}

/// Two sender keys share a name only if they belong to the same device and
/// the same distribution.
pub proof fn law_sender_key_names_distinct(s1: ProtocolAddress, u1: Uuid, s2: ProtocolAddress, u2: Uuid)
    requires
        sender_key_text(s1, u1) == sender_key_text(s2, u2),
    ensures
        s1.name@ == s2.name@,
        s1.device_id == s2.device_id,
        u1.bytes@ == u2.bytes@,
{
    law_uuid_text_len(u1);
    law_uuid_text_len(u2);
    let t = sender_key_text(s1, u1);
    let a1 = s1.text();
    let a2 = s2.text();
    assert(t.len() == a1.len() + 1 + u1.text().len());
    assert(t == sender_key_text(s2, u2));
    assert(t.len() == a2.len() + 1 + u2.text().len());
    assert(a1.len() == a2.len());
    assert(a1 == t.subrange(0, a1.len() as int));
    assert(a2 == t.subrange(0, a2.len() as int));
    assert(u1.text() == t.subrange(a1.len() + 1int, t.len() as int));
    assert(u2.text() == t.subrange(a2.len() + 1int, t.len() as int));
    law_address_text_injective(s1.name@, s1.device_id, s2.name@, s2.device_id);
    law_uuid_text_injective(u1, u2);
}

/// The sub-device sessions are fixed by the contents: any two answers
/// computed from listings of the session names with the prefix are equal.
pub proof fn law_sub_device_sessions_determined(
    c: Map<(Seq<char>, Seq<u8>), Seq<u8>>,
    sessions: Seq<char>,
    prefix: Seq<u8>,
    listed1: Seq<Seq<u8>>,
    listed2: Seq<Seq<u8>>,
)
    requires
        lists_in_order(listed1, keys_with_prefix(c, sessions, prefix)),
        lists_in_order(listed2, keys_with_prefix(c, sessions, prefix)),
    ensures
        sub_device_ids(listed1, prefix) == sub_device_ids(listed2, prefix),
{
    lemma_listing_unique(listed1, listed2, keys_with_prefix(c, sessions, prefix));
}

/// The ACI and PNI identities read and write one tree of identities, so
/// what one of them saves the other finds.
pub proof fn law_identities_shared(c: Map<(Seq<char>, Seq<u8>), Seq<u8>>, key: Seq<u8>, identity: Seq<u8>)
    ensures
        lookup(c, AciSledStore::identities_tree(), key) == lookup(c, PniSledStore::identities_tree(), key),
        lookup(c.insert((AciSledStore::identities_tree(), key), identity), PniSledStore::identities_tree(), key) == Some(identity),
        lookup(c.insert((PniSledStore::identities_tree(), key), identity), AciSledStore::identities_tree(), key) == Some(identity),
{
    crate::trees::lemma_aci_pni_share_only_identities();
}

/// Saving the identity that is already stored for an address replaces
/// nothing.
pub proof fn law_resaving_replaces_nothing(c: Map<(Seq<char>, Seq<u8>), Seq<u8>>, tree: Seq<char>, key: Seq<u8>, identity: Seq<u8>)
    ensures
        !(lookup(c.insert((tree, key), identity), tree, key) is Some
            && lookup(c.insert((tree, key), identity), tree, key) != Some(identity)),
{
}

/// No '.' occurs in the text of a UUID.
proof fn lemma_uuid_text_has_no_dot(bytes: Seq<u8>, n: nat, i: int)
    requires
        0 <= i < uuid_text_upto(bytes, n).len(),
    ensures
        uuid_text_upto(bytes, n)[i] != 46u8,
    decreases n,
{
    if n > 0 {
        let before = uuid_text_upto(bytes, (n - 1) as nat);
        if i < before.len() {
            lemma_uuid_text_has_no_dot(bytes, (n - 1) as nat, i);
            assert(uuid_text_upto(bytes, n)[i] == before[i]);
        }
    }
}

/// A session name `<name>.<device>` whose name is not the account's UUID
/// gives no device of that account: no session of another name is ever taken
/// for one of the account's devices.
pub proof fn law_other_names_give_no_device(account: ServiceAddress, name: Seq<char>, device: u32)
    requires
        vstd::utf8::encode_utf8(name) != account.uuid.text(),
    ensures
        device_id_of(address_text(name, device), device_prefix(account)) is None,
{
    let e = vstd::utf8::encode_utf8(name);
    let u = account.uuid.text();
    let p = device_prefix(account);
    let t = address_text(name, device);
    law_uuid_text_len(account.uuid);
    assert(t[e.len() as int] == 46u8);
    if has_prefix(t, p) {
        let head = t.subrange(0, p.len() as int);
        assert(head == p);
        if e.len() < u.len() {
            lemma_uuid_text_has_no_dot(account.uuid.bytes@, 16, e.len() as int);
            assert(head[e.len() as int] == t[e.len() as int]);
            assert(p[e.len() as int] == u[e.len() as int]);
        } else if e.len() == u.len() {
            assert(e == t.subrange(0, u.len() as int));
            assert(u == p.subrange(0, u.len() as int));
            assert(t.subrange(0, u.len() as int) == head.subrange(0, u.len() as int));
        } else {
            let rest = t.subrange(p.len() as int, t.len() as int);
            let at = e.len() - p.len();
            assert(rest[at] == 46u8);
            if rest.len() >= 2 && rest[0] == 43u8 {
                assert(at >= 1);
                assert(rest.drop_first()[at - 1] == 46u8);
                assert(!is_digit(rest.drop_first()[at - 1]));
            } else {
                assert(!is_digit(rest[at]));
            }
        }
    }
}

/// `keys` without the key `k`.
spec fn without_key(keys: Seq<Seq<u8>>, k: Seq<u8>) -> Seq<Seq<u8>>
    decreases keys.len(),
{
    if keys.len() == 0 {
        keys
    } else if keys.last() == k {
        without_key(keys.drop_last(), k)
    } else {
        without_key(keys.drop_last(), k).push(keys.last())
    }
}

/// Taking one key out of a listing in order lists the set without it.
proof fn lemma_without_key_lists(keys: Seq<Seq<u8>>, set: Set<Seq<u8>>, k: Seq<u8>)
    requires
        lists_in_order(keys, set),
    ensures
        lists_in_order(without_key(keys, k), set.remove(k)),
    decreases keys.len(),
{
    if keys.len() > 0 {
        let front = keys.drop_last();
        let last = keys.last();
        let front_set = set.remove(last);
        lemma_listing_drop_last(keys, set);
        lemma_without_key_lists(front, front_set, k);
        let w = without_key(front, k);
        if last == k {
            assert(front_set.remove(k) =~= set.remove(k));
        } else {
            let out = w.push(last);
            assert forall|x: Seq<u8>| set.remove(k).contains(x) <==> out.contains(x) by {
                if out.contains(x) && x != last {
                    let i = choose|i: int| 0 <= i < out.len() && out[i] == x;
                    assert(w[i] == x);
                    assert(w.contains(x));
                }
                if set.remove(k).contains(x) && x != last {
                    assert(front_set.remove(k).contains(x));
                    assert(w.contains(x));
                    let i = choose|i: int| 0 <= i < w.len() && w[i] == x;
                    assert(out[i] == x);
                }
                if x == last {
                    assert(out[w.len() as int] == last);
                }
            }
            assert forall|i: int, j: int| 0 <= i < j < out.len() implies crate::sled_db::lex_lt(#[trigger] out[i], #[trigger] out[j]) by {
                if j == out.len() - 1 {
                    assert(out[i] == w[i]);
                    assert(w.contains(w[i]));
                    assert(front_set.contains(w[i]));
                    assert(front.contains(w[i]));
                    let a = choose|a: int| 0 <= a < front.len() && front[a] == w[i];
                    assert(keys[a] == w[i]);
                    assert(crate::sled_db::lex_lt(keys[a], keys[keys.len() - 1]));
                } else {
                    assert(out[i] == w[i] && out[j] == w[j]);
                }
            }
        }
    }
}

/// Taking out a key that gives no device leaves the sub-devices as they were.
proof fn lemma_without_key_sub_devices(keys: Seq<Seq<u8>>, k: Seq<u8>, prefix: Seq<u8>)
    requires
        device_id_of(k, prefix) is None,
    ensures
        sub_device_ids(without_key(keys, k), prefix) == sub_device_ids(keys, prefix),
    decreases keys.len(),
{
    if keys.len() > 0 {
        lemma_without_key_sub_devices(keys.drop_last(), k, prefix);
        if keys.last() != k {
            let w = without_key(keys.drop_last(), k);
            assert(w.push(keys.last()).drop_last() == w);
        }
    }
}

/// Storing or deleting the session of an address whose name is not the
/// account's UUID, or a failed attempt to, never changes the account's
/// sub-device sessions: listings of the session names with the account's
/// prefix, before and after, give the same devices.
pub proof fn law_other_sessions_keep_sub_devices(
    c: Map<(Seq<char>, Seq<u8>), Seq<u8>>,
    changed: Map<(Seq<char>, Seq<u8>), Seq<u8>>,
    sessions: Seq<char>,
    account: ServiceAddress,
    other: ProtocolAddress,
    listed_before: Seq<Seq<u8>>,
    listed_after: Seq<Seq<u8>>,
)
    requires
        vstd::utf8::encode_utf8(other.name@) != account.uuid.text(),
        changed.remove((sessions, other.text())) == c.remove((sessions, other.text())),
        lists_in_order(listed_before, keys_with_prefix(c, sessions, device_prefix(account))),
        lists_in_order(listed_after, keys_with_prefix(changed, sessions, device_prefix(account))),
    ensures
        sub_device_ids(listed_before, device_prefix(account)) == sub_device_ids(listed_after, device_prefix(account)),
{
    let k = other.text();
    let p = device_prefix(account);
    law_other_names_give_no_device(account, other.name@, other.device_id);
    let before = keys_with_prefix(c, sessions, p);
    let after = keys_with_prefix(changed, sessions, p);
    assert forall|x: Seq<u8>| before.remove(k).contains(x) <==> after.remove(k).contains(x) by {
        if x != k {
            assert((sessions, x) != (sessions, k));
            assert(c.remove((sessions, k)).contains_key((sessions, x)) == c.contains_key((sessions, x)));
            assert(changed.remove((sessions, k)).contains_key((sessions, x)) == changed.contains_key((sessions, x)));
        }
    }
    assert(before.remove(k) =~= after.remove(k));
    lemma_without_key_lists(listed_before, before, k);
    lemma_without_key_lists(listed_after, after, k);
    lemma_listing_unique(without_key(listed_before, k), without_key(listed_after, k), before.remove(k));
    lemma_without_key_sub_devices(listed_before, k, p);
    lemma_without_key_sub_devices(listed_after, k, p);
}

/// A listing in order without its last key lists the set without that key.
proof fn lemma_listing_drop_last(keys: Seq<Seq<u8>>, set: Set<Seq<u8>>)
    requires
        lists_in_order(keys, set),
        keys.len() > 0,
    ensures
        lists_in_order(keys.drop_last(), set.remove(keys.last())),
        set.contains(keys.last()),
{
    let front = keys.drop_last();
    let last = keys.last();
    let front_set = set.remove(last);
    crate::sled_db::lemma_listing_len(keys, set);
    assert(keys.contains(keys[keys.len() - 1]));
    assert forall|x: Seq<u8>| front_set.contains(x) <==> front.contains(x) by {
        if front.contains(x) {
            let i = choose|i: int| 0 <= i < front.len() && front[i] == x;
            assert(keys[i] == x);
            assert(crate::sled_db::lex_lt(keys[i], keys[keys.len() - 1]));
            crate::sled_db::lemma_lex_lt_irreflexive(x);
            assert(keys.contains(x));
        }
        if front_set.contains(x) {
            assert(keys.contains(x));
            let i = choose|i: int| 0 <= i < keys.len() && keys[i] == x;
            assert(i != keys.len() - 1);
            assert(front[i] == x);
        }
    }
    assert forall|i: int, j: int| 0 <= i < j < front.len() implies crate::sled_db::lex_lt(#[trigger] front[i], #[trigger] front[j]) by {
        assert(front[i] == keys[i] && front[j] == keys[j]);
    }
}

/// Whether the session name `k` gives a device of the account with prefix
/// `prefix` other than its primary device.
pub open spec fn gives_sub_device(k: Seq<u8>, prefix: Seq<u8>) -> bool {
    device_id_of(k, prefix) is Some && device_id_of(k, prefix).unwrap() != DEFAULT_DEVICE_ID
}

/// The sub-device sessions hold one ID per session name that gives a device
/// other than the primary one, and no more: from a listing in order of the
/// session names, the number of IDs is the number of such names, so no
/// device is listed twice for one session.
pub proof fn law_sub_device_count(keys: Seq<Seq<u8>>, set: Set<Seq<u8>>, prefix: Seq<u8>)
    requires
        lists_in_order(keys, set),
    ensures
        set.filter(|k: Seq<u8>| gives_sub_device(k, prefix)).finite(),
        sub_device_ids(keys, prefix).len() == set.filter(|k: Seq<u8>| gives_sub_device(k, prefix)).len(),
    decreases keys.len(),
{
    let f = |k: Seq<u8>| gives_sub_device(k, prefix);
    crate::sled_db::lemma_listing_len(keys, set);
    if keys.len() == 0 {
        assert(set.filter(f) =~= Set::<Seq<u8>>::empty());
    } else {
        let last = keys.last();
        lemma_listing_drop_last(keys, set);
        law_sub_device_count(keys.drop_last(), set.remove(last), prefix);
        let front = set.remove(last).filter(f);
        if gives_sub_device(last, prefix) {
            assert(set.filter(f) =~= front.insert(last));
            assert(!front.contains(last));
        } else {
            assert(set.filter(f) =~= front);
        }
    }
}

/// The lower-case hexadecimal digits, `0` to `9` then `a` to `f`.
pub open spec fn lower_hex_digits() -> Seq<u8> {
    seq![48u8, 49u8, 50u8, 51u8, 52u8, 53u8, 54u8, 55u8, 56u8, 57u8, 97u8, 98u8, 99u8, 100u8, 101u8, 102u8]
}

/// Where the two digits of byte `i` of a UUID stand in its text: two digits
/// per byte, after a hyphen before bytes 4, 6, 8 and 10.
pub open spec fn uuid_digit_position(i: int) -> int {
    2 * i + if i >= 10 {
        4int
    } else if i >= 8 {
        3int
    } else if i >= 6 {
        2int
    } else if i >= 4 {
        1int
    } else {
        0int
    }
}

proof fn lemma_hex_byte_is_lower_digit(d: nat)
    requires
        d < 16,
    ensures
        hex_byte(d) == lower_hex_digits()[d as int],
{
    let t = lower_hex_digits();
    if d == 0 { assert(t[0] == 48u8); }
    else if d == 1 { assert(t[1] == 49u8); }
    else if d == 2 { assert(t[2] == 50u8); }
    else if d == 3 { assert(t[3] == 51u8); }
    else if d == 4 { assert(t[4] == 52u8); }
    else if d == 5 { assert(t[5] == 53u8); }
    else if d == 6 { assert(t[6] == 54u8); }
    else if d == 7 { assert(t[7] == 55u8); }
    else if d == 8 { assert(t[8] == 56u8); }
    else if d == 9 { assert(t[9] == 57u8); }
    else if d == 10 { assert(t[10] == 97u8); }
    else if d == 11 { assert(t[11] == 98u8); }
    else if d == 12 { assert(t[12] == 99u8); }
    else if d == 13 { assert(t[13] == 100u8); }
    else if d == 14 { assert(t[14] == 101u8); }
    else { assert(t[15] == 102u8); }
}

/// The shape of the text of the first `n` bytes of a UUID.
proof fn lemma_uuid_text_shape(bytes: Seq<u8>, n: nat)
    requires
        n <= 16,
        n <= bytes.len(),
    ensures
        uuid_text_upto(bytes, n).len() == if n == 0 { 0 } else { uuid_digit_position(n - 1) + 2 },
        forall|i: int| 0 <= i < n ==> {
            &&& #[trigger] uuid_text_upto(bytes, n)[uuid_digit_position(i)] == lower_hex_digits()[bytes[i] as int / 16]
            &&& uuid_text_upto(bytes, n)[uuid_digit_position(i) + 1] == lower_hex_digits()[bytes[i] as int % 16]
        },
        n > 4 ==> uuid_text_upto(bytes, n)[8] == 45u8,
        n > 6 ==> uuid_text_upto(bytes, n)[13] == 45u8,
        n > 8 ==> uuid_text_upto(bytes, n)[18] == 45u8,
        n > 10 ==> uuid_text_upto(bytes, n)[23] == 45u8,
    decreases n,
{
    if n > 0 {
        let m = (n - 1) as nat;
        lemma_uuid_text_shape(bytes, m);
        let before = uuid_text_upto(bytes, m);
        let t = uuid_text_upto(bytes, n);
        let b = bytes[m as int];
        lemma_hex_byte_is_lower_digit(b as nat / 16);
        lemma_hex_byte_is_lower_digit(b as nat % 16);
        assert forall|idx: int| 0 <= idx < before.len() implies t[idx] == before[idx] by {}
        assert(t[uuid_digit_position(m as int)] == hex_byte(b as nat / 16));
        assert(t[uuid_digit_position(m as int) + 1] == hex_byte(b as nat % 16));
        assert forall|i: int| 0 <= i < n implies {
            &&& #[trigger] t[uuid_digit_position(i)] == lower_hex_digits()[bytes[i] as int / 16]
            &&& t[uuid_digit_position(i) + 1] == lower_hex_digits()[bytes[i] as int % 16]
        } by {
            if i < m {
                assert(before[uuid_digit_position(i)] == lower_hex_digits()[bytes[i] as int / 16]);
            }
        }
    }
}

/// A UUID's text is its lower-case hyphenated form: 36 bytes, a hyphen at
/// 8, 13, 18 and 23, and for each byte `b` the digits of `b / 16` and
/// `b % 16`, taken from `0123456789abcdef`.
pub proof fn law_uuid_text_lower_hex(u: Uuid, i: int)
    requires
        0 <= i < 16,
    ensures
        u.text().len() == 36,
        u.text()[8] == 45u8,
        u.text()[13] == 45u8,
        u.text()[18] == 45u8,
        u.text()[23] == 45u8,
        u.text()[uuid_digit_position(i)] == lower_hex_digits()[u.bytes@[i] as int / 16],
        u.text()[uuid_digit_position(i) + 1] == lower_hex_digits()[u.bytes@[i] as int % 16],
{
    lemma_uuid_text_shape(u.bytes@, 16);
    assert(u.text()[uuid_digit_position(i)] == lower_hex_digits()[u.bytes@[i] as int / 16]);
}

/// The record of a saved identity's verification state is the byte 1 for an
/// identity saved over an earlier one and 0 for a first one, followed by the
/// key, whatever the key's length.
pub proof fn law_verification_record_bytes(existed_before: bool, identity: Seq<u8>)
    ensures
        verification_record(verified_state(existed_before), identity)
            == seq![if existed_before { 1u8 } else { 0u8 }] + identity,
        verification_record(VerifiedState::Unverified, identity) == seq![1u8] + identity,
        verification_record(VerifiedState::Default, identity) == seq![0u8] + identity,
{
}

/// The next ID after the highest one in a SQLite table is one more than it,
/// so it is above every ID the table holds; an empty table starts at zero.
pub proof fn law_next_id_above_max(max: i64, max_u32: u32)
    requires
        0 <= max < u32::MAX,
        max_u32 < u32::MAX,
    ensures
        next_id_after(Some(max)) == max + 1,
        next_id_after(Some(max)) > max,
        next_id_after_u32(Some(max_u32)) == max_u32 + 1,
        next_id_after(None) == 0,
        next_id_after_u32(None) == 0,
{
}

/// The ACI store's key pair is the registration data's ACI key pair,
/// whatever the PNI key pair is; the PNI store's is the PNI key pair, and
/// there is none before the account has one.
pub proof fn law_identity_key_pairs(data: RegistrationData)
    ensures
        AciSledStore::keypair_of(data) == Some(data.aci_identity_keypair.serialized@),
        PniSledStore::keypair_of(data) == match data.pni_identity_keypair {
            Some(pair) => Some(pair.serialized@),
            None => None::<Seq<u8>>,
        },
{
}

/// The sub-device IDs are, in the order of the listed session names, the
/// device of each name that gives a device other than the primary one.
pub proof fn law_sub_devices_in_listing_order(keys: Seq<Seq<u8>>, prefix: Seq<u8>)
    ensures
        sub_device_ids(keys, prefix) == keys.filter(|k: Seq<u8>| gives_sub_device(k, prefix)).map_values(
            |k: Seq<u8>| device_id_of(k, prefix).unwrap(),
        ),
    decreases keys.len(),
{
    let f = |k: Seq<u8>| gives_sub_device(k, prefix);
    let g = |k: Seq<u8>| device_id_of(k, prefix).unwrap();
    reveal(Seq::filter);
    if keys.len() > 0 {
        law_sub_devices_in_listing_order(keys.drop_last(), prefix);
        let front = keys.drop_last().filter(f);
        if f(keys.last()) {
            assert(keys.filter(f) == front.push(keys.last()));
            assert(front.push(keys.last()).map_values(g) =~= front.map_values(g).push(g(keys.last())));
        } else {
            assert(keys.filter(f) == front);
        }
    } else {
        assert(keys.filter(f).map_values(g) =~= Seq::<u32>::empty());
    }
}

} // verus!
