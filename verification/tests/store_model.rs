//! The store boundary: reads and writes are exact per named sub-database, and
//! the sub-databases are separate keyspaces.

use ttpedia_backend::store::{begin_rw, open_index_db, txn_commit, txn_get, txn_put};

#[test]
fn databases_are_separate_keyspaces() {
    let dir = tempfile::tempdir().expect("tempdir");
    let env = lmdb::Environment::new()
        .set_max_dbs(4)
        .set_map_size(16 * 1024 * 1024)
        .open(dir.path())
        .expect("open lmdb environment");

    let db_a = open_index_db(&env, "a").expect("open db a");
    let db_b = open_index_db(&env, "b").expect("open db b");

    let key = vec![0x80u8, b'k'];
    let value = vec![1u8, 2, 3];

    let mut txn = begin_rw(&env).expect("begin txn");
    txn_put(&mut txn, db_a, &key, &value).expect("put through a");
    // The write through `a` is invisible through `b`, within the same
    // transaction and after the commit.
    assert_eq!(txn_get(&txn, db_b, &key).expect("get through b"), None);
    assert_eq!(
        txn_get(&txn, db_a, &key).expect("get through a"),
        Some(value.clone())
    );
    txn_commit(txn).expect("commit");

    let mut txn = begin_rw(&env).expect("begin second txn");
    assert_eq!(txn_get(&txn, db_b, &key).expect("get through b"), None);
    assert_eq!(txn_get(&txn, db_a, &key).expect("get through a"), Some(value));
    // Writing the same key through `b` leaves `a`'s binding alone.
    let other = vec![9u8];
    txn_put(&mut txn, db_b, &key, &other).expect("put through b");
    assert_eq!(txn_get(&txn, db_a, &key).expect("get through a"), Some(vec![1u8, 2, 3]));
    assert_eq!(txn_get(&txn, db_b, &key).expect("get through b"), Some(other));
    txn_commit(txn).expect("commit");
}
