//! A key/value protocol store for Signal sessions, pre-keys, identities and
//! sender keys, kept in the named trees of a sled database, together with the
//! decisions that the SQLite-backed store takes on the results of its queries.

pub mod encoding;
pub mod sled_db;
pub mod error;
pub mod identity;
pub mod trees;
pub mod protocol;
pub mod laws;
pub mod sqlite;
