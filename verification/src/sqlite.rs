//! The decisions of the SQLite-backed protocol store. The queries run
//! outside the library; what they return is handed to these functions, which
//! compute the store's answers from it, and the rows to insert are built
//! here.

use vstd::prelude::*;

use crate::error::ProtocolError;

verus! {

/// A row of one of the tables of pre-keys.
pub struct KeyRow {
    pub id: u32,
    pub record: Vec<u8>,
    pub is_last_resort: bool,
    pub identity: &'static str,
}

/// The error of a failed query, with the database's message.
pub open spec fn query_error(message: String) -> ProtocolError {
    ProtocolError::Database(message)
}

/// The next ID after the highest one in a table whose IDs are read as
/// 64-bit integers: the highest, cut to 32 bits, plus one; zero for an empty
/// table.
pub open spec fn next_id_after(max_id: Option<i64>) -> u32 {
    match max_id {
        Some(i) => ((i as u32) + 1) as u32,
        None => 0u32,
    }
}

/// The next ID after the highest one in a table whose IDs are read as `u32`.
pub open spec fn next_id_after_u32(max_id: Option<u32>) -> u32 {
    match max_id {
        Some(i) => (i + 1) as u32,
        None => 0u32,
    }
}

/// The store of one identity of the account in the SQLite database.
pub struct SqliteProtocolStore {
    identity_type: &'static str,
}

impl SqliteProtocolStore {
    /// The store of the identity that `identity_type` names in the tables.
    pub fn new(identity_type: &'static str) -> (r: Self)
        ensures
            r.identity()@ == identity_type@,
    {
        SqliteProtocolStore { identity_type }
    }

    /// The name of the identity in the tables.
    pub closed spec fn identity(&self) -> &'static str {
        self.identity_type
    }

    /// The name of the identity in the tables.
    pub fn identity_type(&self) -> (r: &'static str)
        ensures
            r@ == self.identity()@,
    {
        self.identity_type
    }

    /// The record of a row that the query of a pre-key found.
    pub fn record_from_query(&self, found: Result<Vec<u8>, String>) -> (r: Result<Vec<u8>, ProtocolError>)
        ensures
            match found {
                Ok(record) => r == Ok::<Vec<u8>, ProtocolError>(record),
                Err(message) => r == Err::<Vec<u8>, ProtocolError>(query_error(message)),
            },
    {
        match found {
            Ok(record) => Ok(record),
            Err(message) => Err(ProtocolError::Database(message)),
        }
    }

    /// The outcome of a statement that writes.
    pub fn write_outcome(&self, done: Result<(), String>) -> (r: Result<(), ProtocolError>)
        ensures
            match done {
                Ok(()) => r is Ok,
                Err(message) => r == Err::<(), ProtocolError>(query_error(message)),
            },
    {
        match done {
            Ok(()) => Ok(()),
            Err(message) => Err(ProtocolError::Database(message)),
        }
    }

    /// The row that saves a one-time or signed pre-key, or a one-time Kyber
    /// pre-key, of this identity.
    pub fn key_row(&self, id: u32, record: &[u8]) -> (r: KeyRow)
        ensures
            r.id == id,
            r.record@ == record@,
            !r.is_last_resort,
            r.identity@ == self.identity()@,
    {
        KeyRow { id, record: crate::encoding::copy_bytes(record), is_last_resort: false, identity: self.identity_type }
    }

    /// The row that saves a last-resort Kyber pre-key of this identity.
    pub fn last_resort_key_row(&self, id: u32, record: &[u8]) -> (r: KeyRow)
        ensures
            r.id == id,
            r.record@ == record@,
            r.is_last_resort,
            r.identity@ == self.identity()@,
    {
        KeyRow { id, record: crate::encoding::copy_bytes(record), is_last_resort: true, identity: self.identity_type }
    }

    /// The ID of the next one-time pre-key, from the highest ID in the table.
    pub fn next_pre_key_id(&self, max_id: Result<Option<i64>, String>) -> (r: Result<u32, ProtocolError>)
        requires
            max_id matches Ok(Some(i)) ==> (i as u32) < u32::MAX,
        ensures
            match max_id {
                Ok(m) => r == Ok::<u32, ProtocolError>(next_id_after(m)),
                Err(message) => r == Err::<u32, ProtocolError>(query_error(message)),
            },
    {
        next_id_from_max(max_id)
    }

    /// The ID of the next signed pre-key, from the highest ID in the table.
    pub fn next_signed_pre_key_id(&self, max_id: Result<Option<i64>, String>) -> (r: Result<u32, ProtocolError>)
        requires
            max_id matches Ok(Some(i)) ==> (i as u32) < u32::MAX,
        ensures
            match max_id {
                Ok(m) => r == Ok::<u32, ProtocolError>(next_id_after(m)),
                Err(message) => r == Err::<u32, ProtocolError>(query_error(message)),
            },
    {
        next_id_from_max(max_id)
    }

    /// The ID of the next Kyber pre-key, from the highest ID in the table.
    pub fn next_pq_pre_key_id(&self, max_id: Result<Option<u32>, String>) -> (r: Result<u32, ProtocolError>)
        requires
            max_id matches Ok(Some(i)) ==> i < u32::MAX,
        ensures
            match max_id {
                Ok(m) => r == Ok::<u32, ProtocolError>(next_id_after_u32(m)),
                Err(message) => r == Err::<u32, ProtocolError>(query_error(message)),
            },
    {
        match max_id {
            Ok(Some(i)) => Ok(i + 1),
            Ok(None) => Ok(0),
            Err(message) => Err(ProtocolError::Database(message)),
        }
    }

    /// The number of signed pre-keys, from the count of the table.
    pub fn signed_pre_keys_count(&self, count: Result<i64, String>) -> (r: Result<usize, ProtocolError>)
        ensures
            match count {
                Ok(n) => r == Ok::<usize, ProtocolError>(n as usize),
                Err(message) => r == Err::<usize, ProtocolError>(query_error(message)),
            },
    {
        count_from_query(count)
    }

    /// The number of Kyber pre-keys, from the count of the table; one-time
    /// and last-resort keys are counted alike, whatever `last_resort` says.
    pub fn kyber_pre_keys_count(&self, last_resort: bool, count: Result<i64, String>) -> (r: Result<usize, ProtocolError>)
        ensures
            match count {
                Ok(n) => r == Ok::<usize, ProtocolError>(n as usize),
                Err(message) => r == Err::<usize, ProtocolError>(query_error(message)),
            },
    {
        count_from_query(count)
    }

    /// The last-resort Kyber pre-keys of this identity, from the records that
    /// the query of its last-resort rows found.
    pub fn last_resort_records(&self, found: Result<Vec<Vec<u8>>, String>) -> (r: Result<Vec<Vec<u8>>, ProtocolError>)
        ensures
            match found {
                Ok(records) => r == Ok::<Vec<Vec<u8>>, ProtocolError>(records),
                Err(message) => r == Err::<Vec<Vec<u8>>, ProtocolError>(query_error(message)),
            },
    {
        match found {
            Ok(records) => Ok(records),
            Err(message) => Err(ProtocolError::Database(message)),
        }
    }
}

/// The next ID after the highest one read as a 64-bit integer.
fn next_id_from_max(max_id: Result<Option<i64>, String>) -> (r: Result<u32, ProtocolError>)
    requires
        max_id matches Ok(Some(i)) ==> (i as u32) < u32::MAX,
    ensures
        match max_id {
            Ok(m) => r == Ok::<u32, ProtocolError>(next_id_after(m)),
            Err(message) => r == Err::<u32, ProtocolError>(query_error(message)),
        },
{
    match max_id {
        Ok(Some(i)) => {
            let low: u32 = i as u32;
            Ok(low + 1)
        },
        Ok(None) => Ok(0),
        Err(message) => Err(ProtocolError::Database(message)),
    }
}

/// A count read as a 64-bit integer, as a `usize`.
fn count_from_query(count: Result<i64, String>) -> (r: Result<usize, ProtocolError>)
    ensures
        match count {
            Ok(n) => r == Ok::<usize, ProtocolError>(n as usize),
            Err(message) => r == Err::<usize, ProtocolError>(query_error(message)),
        },
{
    match count {
        Ok(n) => Ok(n as usize),
        Err(message) => Err(ProtocolError::Database(message)),
    }
}

} // verus!
