//! The sled database that holds the store's trees, seen through the
//! operations that the store makes on it.
//!
//! The contents of a database are modelled as one map from a tree's name and
//! a key to the value stored under that key. A tree that was never written
//! and an empty tree look the same. The model describes the database as it is
//! seen through the one handle that opened it. The library opens the
//! database itself and never clones the handle, and every operation that
//! writes takes the handle by `&mut`, so no write escapes the model.

use vstd::prelude::*;

verus! {

#[verifier::external_type_specification]
#[verifier::external_body]
pub struct ExDb(sled::Db);

#[verifier::external_type_specification]
#[verifier::external_body]
pub struct ExSledError(sled::Error);

#[verifier::external_type_specification]
#[verifier::external_body]
pub struct ExBatch(sled::Batch);

/// What a sled database holds: for each tree name and key, the value stored.
pub uninterp spec fn db_contents(db: sled::Db) -> Map<(Seq<char>, Seq<u8>), Seq<u8>>;

/// The writes that a batch holds: `Some(value)` to store a value under a key,
/// `None` to remove the key.
pub uninterp spec fn batch_writes(batch: sled::Batch) -> Map<Seq<u8>, Option<Seq<u8>>>;

/// The name under which sled keeps the database's default tree.
pub open spec fn default_tree() -> Seq<char> {
    "__sled__default"@
}

/// The value stored under `key` in the tree `tree`, if any.
pub open spec fn lookup(c: Map<(Seq<char>, Seq<u8>), Seq<u8>>, tree: Seq<char>, key: Seq<u8>) -> Option<Seq<u8>> {
    if c.contains_key((tree, key)) {
        Some(c[(tree, key)])
    } else {
        None
    }
}

/// The keys of the tree `tree`.
pub open spec fn tree_keys(c: Map<(Seq<char>, Seq<u8>), Seq<u8>>, tree: Seq<char>) -> Set<Seq<u8>> {
    Set::new(|k: Seq<u8>| c.contains_key((tree, k)))
}

/// The contents with every entry of the tree `tree` removed.
pub open spec fn without_tree(c: Map<(Seq<char>, Seq<u8>), Seq<u8>>, tree: Seq<char>) -> Map<(Seq<char>, Seq<u8>), Seq<u8>> {
    Map::new(|p: (Seq<char>, Seq<u8>)| c.contains_key(p) && p.0 != tree, |p: (Seq<char>, Seq<u8>)| c[p])
}

/// The contents after the writes `w` were made to the tree `tree`.
pub open spec fn with_writes(
    c: Map<(Seq<char>, Seq<u8>), Seq<u8>>,
    tree: Seq<char>,
    w: Map<Seq<u8>, Option<Seq<u8>>>,
) -> Map<(Seq<char>, Seq<u8>), Seq<u8>> {
    Map::new(
        |p: (Seq<char>, Seq<u8>)|
            if p.0 == tree && w.contains_key(p.1) {
                w[p.1] is Some
            } else {
                c.contains_key(p)
            },
        |p: (Seq<char>, Seq<u8>)|
            if p.0 == tree && w.contains_key(p.1) {
                w[p.1].unwrap()
            } else {
                c[p]
            },
    )
}

/// The contents outside the keys of the tree `tree` that the writes `w`
/// name.
pub open spec fn outside_writes(
    c: Map<(Seq<char>, Seq<u8>), Seq<u8>>,
    tree: Seq<char>,
    w: Map<Seq<u8>, Option<Seq<u8>>>,
) -> Map<(Seq<char>, Seq<u8>), Seq<u8>> {
    Map::new(|p: (Seq<char>, Seq<u8>)| c.contains_key(p) && !(p.0 == tree && w.contains_key(p.1)), |p: (Seq<char>, Seq<u8>)| c[p])
}

/// Whether `a` comes before `b` in the byte-wise lexicographic order in which
/// sled keeps keys.
pub open spec fn lex_lt(a: Seq<u8>, b: Seq<u8>) -> bool
    decreases a.len(),
{
    if a.len() == 0 {
        b.len() > 0
    } else if b.len() == 0 {
        false
    } else if a[0] != b[0] {
        a[0] < b[0]
    } else {
        lex_lt(a.drop_first(), b.drop_first())
    }
}

/// No key comes before itself.
pub proof fn lemma_lex_lt_irreflexive(a: Seq<u8>)
    ensures
        !lex_lt(a, a),
    decreases a.len(),
{
    if a.len() > 0 {
        lemma_lex_lt_irreflexive(a.drop_first());
    }
}

/// Of two keys, at most one comes before the other.
pub proof fn lemma_lex_lt_asymmetric(a: Seq<u8>, b: Seq<u8>)
    ensures
        !(lex_lt(a, b) && lex_lt(b, a)),
    decreases a.len(),
{
    if a.len() > 0 && b.len() > 0 && a[0] == b[0] {
        lemma_lex_lt_asymmetric(a.drop_first(), b.drop_first());
    }
}

/// Whether `p` is a prefix of `k`.
pub open spec fn has_prefix(k: Seq<u8>, p: Seq<u8>) -> bool {
    p.len() <= k.len() && k.subrange(0, p.len() as int) == p
}

/// Whether `keys` lists, in increasing order and once each, exactly the
/// members of `set`.
pub open spec fn lists_in_order(keys: Seq<Seq<u8>>, set: Set<Seq<u8>>) -> bool {
    &&& forall|i: int, j: int| 0 <= i < j < keys.len() ==> lex_lt(#[trigger] keys[i], #[trigger] keys[j])
    &&& forall|k: Seq<u8>| set.contains(k) <==> keys.contains(k)
}

/// A listing in order has no key twice, and as many keys as the set it
/// lists.
pub proof fn lemma_listing_len(keys: Seq<Seq<u8>>, set: Set<Seq<u8>>)
    requires
        lists_in_order(keys, set),
    ensures
        keys.no_duplicates(),
        set.finite(),
        set.len() == keys.len(),
{
    assert forall|i: int, j: int| 0 <= i < keys.len() && 0 <= j < keys.len() && i != j implies keys[i] != keys[j] by {
        if i < j {
            assert(lex_lt(keys[i], keys[j]));
        } else {
            assert(lex_lt(keys[j], keys[i]));
        }
        lemma_lex_lt_irreflexive(keys[i]);
    }
    assert(set =~= keys.to_set());
    keys.unique_seq_to_set();
}

/// Two listings in order of the same set are the same listing.
pub proof fn lemma_listing_unique(a: Seq<Seq<u8>>, b: Seq<Seq<u8>>, set: Set<Seq<u8>>)
    requires
        lists_in_order(a, set),
        lists_in_order(b, set),
    ensures
        a == b,
    decreases a.len(),
{
    lemma_listing_len(a, set);
    lemma_listing_len(b, set);
    if a.len() > 0 {
        assert(set.contains(a[0]));
        assert(set.contains(b[0]));
        let i = choose|i: int| 0 <= i < a.len() && a[i] == b[0];
        let j = choose|j: int| 0 <= j < b.len() && b[j] == a[0];
        if i > 0 && j > 0 {
            assert(lex_lt(a[0], a[i]));
            assert(lex_lt(b[0], b[j]));
            lemma_lex_lt_asymmetric(a[0], b[0]);
        } else if i == 0 {
        } else {
            assert(j == 0);
        }
        assert(a[0] == b[0]);
        let rest = set.remove(a[0]);
        let a1 = a.drop_first();
        let b1 = b.drop_first();
        assert forall|k: Seq<u8>| rest.contains(k) <==> a1.contains(k) by {
            if a1.contains(k) {
                let x = choose|x: int| 0 <= x < a1.len() && a1[x] == k;
                assert(a[x + 1] == k);
                assert(a[0] != a[x + 1]);
            }
            if rest.contains(k) {
                let x = choose|x: int| 0 <= x < a.len() && a[x] == k;
                assert(x != 0);
                assert(a1[x - 1] == k);
            }
        }
        assert forall|k: Seq<u8>| rest.contains(k) <==> b1.contains(k) by {
            if b1.contains(k) {
                let x = choose|x: int| 0 <= x < b1.len() && b1[x] == k;
                assert(b[x + 1] == k);
                assert(b[0] != b[x + 1]);
            }
            if rest.contains(k) {
                let x = choose|x: int| 0 <= x < b.len() && b[x] == k;
                assert(x != 0);
                assert(b1[x - 1] == k);
            }
        }
        assert forall|x: int, y: int| 0 <= x < y < a1.len() implies lex_lt(#[trigger] a1[x], #[trigger] a1[y]) by {
            assert(lex_lt(a[x + 1], a[y + 1]));
        }
        assert forall|x: int, y: int| 0 <= x < y < b1.len() implies lex_lt(#[trigger] b1[x], #[trigger] b1[y]) by {
            assert(lex_lt(b[x + 1], b[y + 1]));
        }
        lemma_listing_unique(a1, b1, rest);
        assert(a == seq![a[0]] + a1);
        assert(b == seq![b[0]] + b1);
    } else {
        assert(b.len() == 0);
        assert(a =~= b);
    }
}

/// The view of an optional value read from the database.
pub open spec fn opt_view(o: Option<Vec<u8>>) -> Option<Seq<u8>> {
    match o {
        Some(v) => Some(v@),
        None => None,
    }
}

/// The successful items of a listing, in order.
pub open spec fn ok_items(items: Seq<Result<Vec<u8>, sled::Error>>) -> Seq<Seq<u8>>
    decreases items.len(),
{
    if items.len() == 0 {
        seq![]
    } else {
        let rest = ok_items(items.drop_last());
        match items.last() {
            Ok(k) => rest.push(k@),
            Err(_) => rest,
        }
    }
}

/// The keys of the tree `tree` that begin with `prefix`.
pub open spec fn keys_with_prefix(c: Map<(Seq<char>, Seq<u8>), Seq<u8>>, tree: Seq<char>, prefix: Seq<u8>) -> Set<Seq<u8>> {
    Set::new(|k: Seq<u8>| c.contains_key((tree, k)) && has_prefix(k, prefix))
}

/// Opens the database at `path` with `sled::open`. What the database holds
/// is whatever was stored there before, so nothing is claimed of it; sled
/// locks the files, so the handle is the only one onto them.
#[verifier::external_body]
pub fn db_open(path: &str) -> (r: Result<sled::Db, sled::Error>)
{
    sled::open(path)
}

/// Opens the tree `tree` with `sled::Db::open_tree`, creating it empty where
/// it does not exist yet, and lets the handle go. Opening changes no
/// contents, and the database is only read.
#[verifier::external_body]
pub fn db_open_tree(db: &sled::Db, tree: &str) -> (r: Result<(), sled::Error>)
    requires
        tree@ != default_tree(),
{
    db.open_tree(tree).map(|_tree| ())
}

/// Reads the value under `key` in the tree `tree`: `sled::Db::open_tree`
/// opens the tree (creating it empty where it does not exist yet) and
/// `sled::Tree::get` reads the key. Claimed: a value read is the one stored.
/// A read that fails with an I/O error is left unsaid.
#[verifier::external_body]
pub fn db_get(db: &sled::Db, tree: &str, key: &[u8]) -> (r: Result<Option<Vec<u8>>, sled::Error>)
    requires
        tree@ != default_tree(),
    ensures
        r matches Ok(v) ==> opt_view(v) == lookup(db_contents(*db), tree@, key@),
{
    db.open_tree(tree)?.get(key).map(|found| found.map(|value| value.to_vec()))
}

/// Stores `value` under `key` in the tree `tree`: `sled::Db::open_tree` then
/// `sled::Tree::insert`. Claimed: on success the key holds `value` and
/// nothing else changed, and the value that was replaced comes back. A
/// failure leaves the key's value unknown, but touches no other entry.
#[verifier::external_body]
pub fn db_insert(db: &mut sled::Db, tree: &str, key: &[u8], value: &[u8]) -> (r: Result<Option<Vec<u8>>, sled::Error>)
    requires
        tree@ != default_tree(),
    ensures
        r matches Ok(previous) ==> {
            &&& opt_view(previous) == lookup(db_contents(*old(db)), tree@, key@)
            &&& db_contents(*final(db)) == db_contents(*old(db)).insert((tree@, key@), value@)
        },
        r is Err ==> db_contents(*final(db)).remove((tree@, key@)) == db_contents(*old(db)).remove((tree@, key@)),
{
    db.open_tree(tree)?.insert(key, value).map(|found| found.map(|old_value| old_value.to_vec()))
}

/// Removes `key` from the tree `tree`: `sled::Db::open_tree` then
/// `sled::Tree::remove`. Claimed: on success the key is gone, nothing else
/// changed, and the value that was removed comes back. A failure leaves the
/// key's value unknown, but touches no other entry.
#[verifier::external_body]
pub fn db_remove(db: &mut sled::Db, tree: &str, key: &[u8]) -> (r: Result<Option<Vec<u8>>, sled::Error>)
    requires
        tree@ != default_tree(),
    ensures
        r matches Ok(previous) ==> {
            &&& opt_view(previous) == lookup(db_contents(*old(db)), tree@, key@)
            &&& db_contents(*final(db)) == db_contents(*old(db)).remove((tree@, key@))
        },
        r is Err ==> db_contents(*final(db)).remove((tree@, key@)) == db_contents(*old(db)).remove((tree@, key@)),
{
    db.open_tree(tree)?.remove(key).map(|found| found.map(|old_value| old_value.to_vec()))
}

/// Drops the tree `tree` with `sled::Db::drop_tree`. Claimed: on success the
/// tree holds nothing and the other trees are unchanged; a failure leaves
/// what the tree holds unknown, but touches no other tree. The `bool` says
/// whether the tree had been opened before, which the model does not track,
/// so nothing is claimed of it.
#[verifier::external_body]
pub fn db_drop_tree(db: &mut sled::Db, tree: &str) -> (r: Result<bool, sled::Error>)
    requires
        tree@ != default_tree(),
    ensures
        r is Ok ==> db_contents(*final(db)) == without_tree(db_contents(*old(db)), tree@),
        r is Err ==> without_tree(db_contents(*final(db)), tree@) == without_tree(db_contents(*old(db)), tree@),
{
    db.drop_tree(tree)
}

/// Lists the keys of the tree `tree` that begin with `prefix`:
/// `sled::Db::open_tree` then `sled::Tree::scan_prefix`, each item reduced to
/// its key. Claimed: the successful items are the keys of the tree that begin
/// with `prefix`, each once, in increasing order. An item that fails does not
/// move the scan on (the iterator yields the error before advancing past any
/// key, and the next item resumes at the same place), so the successful items
/// miss no key, whatever failed in between.
#[verifier::external_body]
pub fn db_scan_prefix_keys(db: &sled::Db, tree: &str, prefix: &[u8]) -> (r: Result<Vec<Result<Vec<u8>, sled::Error>>, sled::Error>)
    requires
        tree@ != default_tree(),
    ensures
        r matches Ok(items) ==> lists_in_order(ok_items(items@), keys_with_prefix(db_contents(*db), tree@, prefix@)),
{
    Ok(db.open_tree(tree)?.scan_prefix(prefix).map(|item| item.map(|(key, _value)| key.to_vec())).collect())
}

/// Lists the values of the tree `tree`: `sled::Db::open_tree` then
/// `sled::Tree::iter` with `values`. Claimed: the successful items are the
/// values of the tree, one for each key, in the order of the keys. An item
/// that fails does not move the scan on (the iterator yields the error before
/// advancing past any key, and the next item resumes at the same place), so
/// the successful items miss no entry, whatever failed in between.
#[verifier::external_body]
pub fn db_tree_values(db: &sled::Db, tree: &str) -> (r: Result<Vec<Result<Vec<u8>, sled::Error>>, sled::Error>)
    requires
        tree@ != default_tree(),
    ensures
        r matches Ok(items) ==> exists|keys: Seq<Seq<u8>>| {
            &&& lists_in_order(keys, tree_keys(db_contents(*db), tree@))
            &&& keys.len() == ok_items(items@).len()
            &&& forall|i: int| 0 <= i < keys.len() ==> #[trigger] ok_items(items@)[i] == db_contents(*db)[(tree@, keys[i])]
        },
{
    Ok(db.open_tree(tree)?.iter().values().map(|item| item.map(|value| value.to_vec())).collect())
}

/// An empty batch, from `sled::Batch::default`.
#[verifier::external_body]
pub fn batch_new() -> (empty: sled::Batch)
    ensures
        batch_writes(empty).dom().is_empty(),
{
    sled::Batch::default()
}

/// Adds the removal of `key` to a batch, with `sled::Batch::remove`: the
/// batch then removes `key`, whatever it held for `key` before.
#[verifier::external_body]
pub fn batch_remove(batch: &mut sled::Batch, key: &[u8])
    ensures
        batch_writes(*final(batch)) == batch_writes(*old(batch)).insert(key@, None),
{
    batch.remove(key)
}

/// Applies a batch to the tree `tree`: `sled::Db::open_tree` then
/// `sled::Tree::apply_batch`. Claimed: on success the tree holds the batch's
/// writes and nothing else changed; a failure leaves the keys that the batch
/// names unknown, but touches no other entry.
#[verifier::external_body]
pub fn db_apply_batch(db: &mut sled::Db, tree: &str, batch: sled::Batch) -> (r: Result<(), sled::Error>)
    requires
        tree@ != default_tree(),
    ensures
        r is Ok ==> db_contents(*final(db)) == with_writes(db_contents(*old(db)), tree@, batch_writes(batch)),
        r is Err ==> outside_writes(db_contents(*final(db)), tree@, batch_writes(batch))
            == outside_writes(db_contents(*old(db)), tree@, batch_writes(batch)),
{
    db.open_tree(tree)?.apply_batch(batch)
}

} // verus!
