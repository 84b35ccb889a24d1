//! The persistent cross-reference index store.
//!
//! The index is a single key-value database with binary keys and values (see
//! [`crate::codec`]). The nexus reads and writes it inside one write
//! transaction per `pass1` request; the store allows one writer at a time, so
//! those transactions are serialized. A write transaction spans the whole
//! environment, and each named sub-database within it is a separate keyspace,
//! so the contents a transaction sees are modelled by [`txn_map`] indexed by
//! both: whatever snapshot the transaction opened on, every read and write is
//! exact relative to it and to the database handle it goes through.

use vstd::prelude::*;

use crate::metadata::no_nul;

use lmdb::Database;
use lmdb::Environment;
use lmdb::RwTransaction;
use lmdb::Transaction;

verus! {

#[verifier::external_type_specification]
#[verifier::external_body]
pub struct ExEnvironment(Environment);

#[verifier::external_type_specification]
#[verifier::external_body]
pub struct ExDatabase(Database);

#[verifier::external_type_specification]
#[verifier::external_body]
pub struct ExRwTransaction<'env>(RwTransaction<'env>);

#[verifier::external_type_specification]
#[verifier::external_body]
pub struct ExLmdbError(lmdb::Error);

/// The key-value pairs of one named sub-database, as visible to (and staged
/// in) a write transaction. The model speaks of databases as `open_index_db`
/// opens them, with no flags: a database configured for duplicate keys would
/// append where this model says replace, and no handle to one exists here.
pub uninterp spec fn txn_map(t: RwTransaction, db: Database) -> Map<Seq<u8>, Seq<u8>>;

/// Relies on `Environment::create_db`: it opens (creating it if needed) the
/// named sub-database of the environment. The call builds a C string from the
/// name and does not return when the name holds a NUL character, so such
/// names are excluded.
#[verifier::external_body]
pub fn open_index_db(env: &Environment, name: &str) -> (r: Result<Database, lmdb::Error>)
    requires
        no_nul(name@),
{
    env.create_db(Some(name), lmdb::DatabaseFlags::empty())
}

/// Relies on `Environment::begin_rw_txn`: it starts the (single) write
/// transaction on a consistent snapshot. Nothing is known of the snapshot's
/// contents; callers work relative to `txn_map` of the returned transaction.
#[verifier::external_body]
pub fn begin_rw<'e>(env: &'e Environment) -> (r: Result<RwTransaction<'e>, lmdb::Error>) {
    env.begin_rw_txn()
}

/// Relies on `Transaction::get`: it returns the value stored under the key in
/// the given database, or `Error::NotFound` when that database lacks the key.
#[verifier::external_body]
pub fn txn_get(txn: &RwTransaction, db: Database, key: &Vec<u8>) -> (r: Result<
    Option<Vec<u8>>,
    lmdb::Error,
>)
    ensures
        r matches Ok(v) ==> match v {
            Some(bytes) => txn_map(*txn, db).dom().contains(key@) && bytes@ == txn_map(
                *txn,
                db,
            )[key@],
            None => !txn_map(*txn, db).dom().contains(key@),
        },
{
    match txn.get(db, key) {
        Ok(bytes) => Ok(Some(bytes.to_vec())),
        Err(lmdb::Error::NotFound) => Ok(None),
        Err(e) => Err(e),
    }
}

/// Relies on `RwTransaction::put`: on success the key now maps to the value
/// in the given database, and every other database is untouched.
#[verifier::external_body]
pub fn txn_put(txn: &mut RwTransaction, db: Database, key: &Vec<u8>, value: &Vec<u8>) -> (r:
    Result<(), lmdb::Error>)
    ensures
        r is Ok ==> txn_map(*final(txn), db) == txn_map(*old(txn), db).insert(key@, value@),
        r is Ok ==> forall|d: Database|
            d != db ==> #[trigger] txn_map(*final(txn), d) == txn_map(*old(txn), d),
{
    txn.put(db, key, value, lmdb::WriteFlags::empty())
}

/// Relies on `Transaction::commit`: it atomically publishes the transaction's
/// writes, or fails leaving the store unchanged.
#[verifier::external_body]
pub fn txn_commit(txn: RwTransaction) -> (r: Result<(), lmdb::Error>) {
    txn.commit()
}

} // verus!
