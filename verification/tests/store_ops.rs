use polytable::error::Error;
use polytable::flags::{DbFlagSet, DbFlags, PutFlagSet};
use polytable::table::{AssocPolyTable, MdbValExt};
use polytable::txn::{txn_get, txn_stat, Env};

fn plain_env() -> (Env, usize) {
    let mut env = Env::env_create(4, 100);
    let dbi = env.dbi_open(DbFlagSet::empty()).unwrap();
    (env, dbi)
}

#[test]
fn round_trip_same_transaction() {
    let (mut env, dbi) = plain_env();
    let mut tx = env.begin_rw().unwrap();
    tx.put(dbi, &b"alpha"[..], &b"one"[..], &PutFlagSet::empty())
        .unwrap();
    assert_eq!(txn_get(&tx, dbi, &b"alpha"[..]).unwrap(), Some(b"one".to_vec()));
    env.commit(tx).unwrap();
}

#[test]
fn round_trip_later_transaction() {
    let (mut env, dbi) = plain_env();
    let mut tx = env.begin_rw().unwrap();
    tx.put(dbi, &b"alpha"[..], &b"one"[..], &PutFlagSet::empty())
        .unwrap();
    env.commit(tx).unwrap();
    let ro = env.begin_ro();
    assert_eq!(txn_get(&ro, dbi, &b"alpha"[..]).unwrap(), Some(b"one".to_vec()));
}

#[test]
fn plain_put_overwrites() {
    let (mut env, dbi) = plain_env();
    let mut tx = env.begin_rw().unwrap();
    tx.put(dbi, &b"k"[..], &b"v1"[..], &PutFlagSet::empty()).unwrap();
    tx.put(dbi, &b"k"[..], &b"v2"[..], &PutFlagSet::empty()).unwrap();
    assert_eq!(txn_get(&tx, dbi, &b"k"[..]).unwrap(), Some(b"v2".to_vec()));
    assert_eq!(txn_stat(&tx, dbi).unwrap(), 1);
    env.abort(tx);
}

#[test]
fn no_overwrite_fails_and_keeps_value() {
    let (mut env, dbi) = plain_env();
    let mut tx = env.begin_rw().unwrap();
    let no = PutFlagSet::empty().with(polytable::flags::PutFlags::NoOverwrite);
    tx.put(dbi, &b"k"[..], &b"v1"[..], &no).unwrap();
    let r = tx.put(dbi, &b"k"[..], &b"v2"[..], &no);
    assert_eq!(r, Err(Error::KeyExists));
    assert_eq!(txn_get(&tx, dbi, &b"k"[..]).unwrap(), Some(b"v1".to_vec()));
    env.abort(tx);
}

#[test]
fn append_requires_strictly_ascending_keys() {
    let (mut env, dbi) = plain_env();
    let mut tx = env.begin_rw().unwrap();
    let ap = PutFlagSet::empty().with(polytable::flags::PutFlags::Append);
    tx.put(dbi, &b"a"[..], &b"1"[..], &ap).unwrap();
    tx.put(dbi, &b"c"[..], &b"2"[..], &ap).unwrap();
    assert_eq!(tx.put(dbi, &b"b"[..], &b"3"[..], &ap), Err(Error::KeyExists));
    assert_eq!(tx.put(dbi, &b"c"[..], &b"4"[..], &ap), Err(Error::KeyExists));
    env.abort(tx);
}

#[test]
fn no_dup_data_rejects_present_pair() {
    let mut env = Env::env_create(1, 10);
    let dbi = env.dbi_open(DbFlagSet::empty().with(DbFlags::DupSort)).unwrap();
    let mut tx = env.begin_rw().unwrap();
    let nd = PutFlagSet::empty().with(polytable::flags::PutFlags::NoDupData);
    tx.put(dbi, &b"k"[..], &b"v"[..], &nd).unwrap();
    tx.put(dbi, &b"k"[..], &b"w"[..], &nd).unwrap();
    assert_eq!(tx.put(dbi, &b"k"[..], &b"v"[..], &nd), Err(Error::KeyExists));
    // Without the flag, re-entering the exact pair is a harmless success.
    tx.put(dbi, &b"k"[..], &b"v"[..], &PutFlagSet::empty()).unwrap();
    assert_eq!(txn_stat(&tx, dbi).unwrap(), 2);
    env.abort(tx);
}

#[test]
fn no_overwrite_accepts_distinct_duplicates() {
    let mut env = Env::env_create(1, 10);
    let dbi = env.dbi_open(DbFlagSet::empty().with(DbFlags::DupSort)).unwrap();
    let mut tx = env.begin_rw().unwrap();
    let no = PutFlagSet::empty().with(polytable::flags::PutFlags::NoOverwrite);
    tx.put(dbi, &b"k"[..], &b"v1"[..], &no).unwrap();
    // A distinct value under a present key enters as a new duplicate.
    tx.put(dbi, &b"k"[..], &b"v2"[..], &no).unwrap();
    assert_eq!(txn_stat(&tx, dbi).unwrap(), 2);
    // The exact pair is refused.
    assert_eq!(tx.put(dbi, &b"k"[..], &b"v1"[..], &no), Err(Error::KeyExists));
    // Combined with no-duplicate-data, the present key is refused outright.
    let nond = no.with(polytable::flags::PutFlags::NoDupData);
    assert_eq!(tx.put(dbi, &b"k"[..], &b"v3"[..], &nond), Err(Error::KeyExists));
    assert_eq!(txn_stat(&tx, dbi).unwrap(), 2);
    env.abort(tx);
}

#[test]
fn delete_reports_presence() {
    let (mut env, dbi) = plain_env();
    let mut tx = env.begin_rw().unwrap();
    tx.put(dbi, &b"k"[..], &b"v"[..], &PutFlagSet::empty()).unwrap();
    assert_eq!(tx.del(dbi, &b"k"[..]).unwrap(), true);
    assert_eq!(txn_get(&tx, dbi, &b"k"[..]).unwrap(), None);
    assert_eq!(tx.del(dbi, &b"k"[..]).unwrap(), false);
    env.abort(tx);
}

#[test]
fn clear_removes_everything() {
    let (mut env, dbi) = plain_env();
    let mut tx = env.begin_rw().unwrap();
    tx.put(dbi, &b"a"[..], &b"1"[..], &PutFlagSet::empty()).unwrap();
    tx.put(dbi, &b"b"[..], &b"2"[..], &PutFlagSet::empty()).unwrap();
    tx.put(dbi, &b"c"[..], &b"3"[..], &PutFlagSet::empty()).unwrap();
    tx.clear(dbi).unwrap();
    assert_eq!(txn_get(&tx, dbi, &b"a"[..]).unwrap(), None);
    assert_eq!(txn_get(&tx, dbi, &b"b"[..]).unwrap(), None);
    assert_eq!(txn_get(&tx, dbi, &b"c"[..]).unwrap(), None);
    assert_eq!(txn_stat(&tx, dbi).unwrap(), 0);
    env.commit(tx).unwrap();
}

#[test]
fn map_capacity_is_enforced() {
    let mut env = Env::env_create(1, 2);
    let dbi = env.dbi_open(DbFlagSet::empty()).unwrap();
    let mut tx = env.begin_rw().unwrap();
    tx.put(dbi, &b"a"[..], &b"1"[..], &PutFlagSet::empty()).unwrap();
    tx.put(dbi, &b"b"[..], &b"2"[..], &PutFlagSet::empty()).unwrap();
    let r = tx.put(dbi, &b"c"[..], &b"3"[..], &PutFlagSet::empty());
    assert_eq!(r, Err(Error::ResourceExhausted));
    // Overwriting needs no new slot.
    tx.put(dbi, &b"a"[..], &b"9"[..], &PutFlagSet::empty()).unwrap();
    env.abort(tx);
}

#[test]
fn database_slots_are_limited() {
    let mut env = Env::env_create(1, 10);
    env.dbi_open(DbFlagSet::empty()).unwrap();
    assert_eq!(env.dbi_open(DbFlagSet::empty()), Err(Error::ResourceExhausted));
}

#[test]
fn duplicate_submodes_need_duplicate_support() {
    let mut env = Env::env_create(2, 10);
    let r = env.dbi_open(DbFlagSet::empty().with(DbFlags::DupFixed));
    assert_eq!(r, Err(Error::InvalidArgument));
    env.dbi_open(DbFlagSet::empty().with(DbFlags::DupSort).with(DbFlags::DupFixed))
        .unwrap();
}

#[test]
fn unknown_database_is_invalid_argument() {
    let (mut env, dbi) = plain_env();
    let mut tx = env.begin_rw().unwrap();
    assert_eq!(
        tx.put(dbi + 7, &b"k"[..], &b"v"[..], &PutFlagSet::empty()),
        Err(Error::InvalidArgument)
    );
    assert_eq!(txn_get(&tx, dbi + 7, &b"k"[..]), Err(Error::InvalidArgument));
    env.abort(tx);
}

#[test]
fn single_writer_is_enforced() {
    let (mut env, _dbi) = plain_env();
    let tx = env.begin_rw().unwrap();
    assert!(matches!(env.begin_rw(), Err(Error::ResourceExhausted)));
    env.abort(tx);
    let tx2 = env.begin_rw().unwrap();
    env.commit(tx2).unwrap();
}

#[test]
fn readers_keep_their_snapshot() {
    let (mut env, dbi) = plain_env();
    let ro_before = env.begin_ro();
    let mut tx = env.begin_rw().unwrap();
    tx.put(dbi, &b"k"[..], &b"v"[..], &PutFlagSet::empty()).unwrap();
    env.commit(tx).unwrap();
    // The reader begun before the commit never observes the write.
    assert_eq!(txn_get(&ro_before, dbi, &b"k"[..]).unwrap(), None);
    let ro_after = env.begin_ro();
    assert_eq!(txn_get(&ro_after, dbi, &b"k"[..]).unwrap(), Some(b"v".to_vec()));
    // And the old reader still does not.
    assert_eq!(txn_get(&ro_before, dbi, &b"k"[..]).unwrap(), None);
}

#[test]
fn abort_discards_mutations() {
    let (mut env, dbi) = plain_env();
    let mut tx = env.begin_rw().unwrap();
    tx.put(dbi, &b"k"[..], &b"v"[..], &PutFlagSet::empty()).unwrap();
    env.abort(tx);
    let ro = env.begin_ro();
    assert_eq!(txn_get(&ro, dbi, &b"k"[..]).unwrap(), None);
}

#[test]
fn typed_round_trip() {
    let (mut env, dbi) = plain_env();
    let table = AssocPolyTable::build(dbi);
    let mut tx = env.begin_rw().unwrap();
    table.put(&mut tx, 42, &String::from("hello")).unwrap();
    assert_eq!(table.get_unrkyv(&tx, 42).unwrap(), Some(String::from("hello")));
    assert_eq!(table.get_unrkyv(&tx, 43).unwrap(), None);
    env.commit(tx).unwrap();
    let ro = env.begin_ro();
    assert_eq!(table.get_unrkyv(&ro, 42).unwrap(), Some(String::from("hello")));
}

#[test]
fn typed_no_overwrite_keeps_first_value() {
    let (mut env, dbi) = plain_env();
    let table = AssocPolyTable::build(dbi);
    let mut tx = env.begin_rw().unwrap();
    table.put_no_overwrite(&mut tx, 7, &String::from("v1")).unwrap();
    assert_eq!(
        table.put_no_overwrite(&mut tx, 7, &String::from("v2")),
        Err(Error::KeyExists)
    );
    assert_eq!(table.get_unrkyv(&tx, 7).unwrap(), Some(String::from("v1")));
    env.abort(tx);
}

#[test]
fn typed_delete_and_clear() {
    let (mut env, dbi) = plain_env();
    let table = AssocPolyTable::build(dbi);
    let mut tx = env.begin_rw().unwrap();
    table.put(&mut tx, 1, &String::from("a")).unwrap();
    table.put(&mut tx, 2, &String::from("b")).unwrap();
    assert_eq!(table.delete(&mut tx, 1).unwrap(), true);
    assert_eq!(table.get_unrkyv(&tx, 1).unwrap(), None);
    assert_eq!(table.delete(&mut tx, 1).unwrap(), false);
    table.clear(&mut tx).unwrap();
    assert_eq!(table.get_unrkyv(&tx, 2).unwrap(), None);
    assert_eq!(txn_stat(&tx, dbi).unwrap(), 0);
    env.abort(tx);
}

#[test]
fn corrupted_value_is_an_error_not_an_absence() {
    let (mut env, dbi) = plain_env();
    let table = AssocPolyTable::build(dbi);
    let mut tx = env.begin_rw().unwrap();
    // Store garbage bytes under the encoded key, bypassing the codec.
    let key = polytable::codec::u64_to_be(5);
    tx.put(dbi, key.as_slice(), &[0xff, 0x01, 0x02][..], &PutFlagSet::empty())
        .unwrap();
    assert_eq!(table.get_unrkyv(&tx, 5), Err(Error::Corrupted));
    assert_eq!(table.get(&tx, 5).err(), Some(Error::Corrupted));
    env.abort(tx);
}

#[test]
fn archived_view_decodes() {
    let (mut env, dbi) = plain_env();
    let table = AssocPolyTable::build(dbi);
    let mut tx = env.begin_rw().unwrap();
    table.put(&mut tx, 9, &String::from("view")).unwrap();
    let view = table.get(&tx, 9).unwrap().unwrap();
    assert!(!view.as_slice().is_empty());
    assert_eq!(view.deserialize(), Some(String::from("view")));
    env.abort(tx);
}

#[test]
fn error_descriptions_are_distinct() {
    let all = [
        Error::KeyExists,
        Error::Corrupted,
        Error::ResourceExhausted,
        Error::InvalidArgument,
        Error::EngineInternal,
    ];
    for (i, a) in all.iter().enumerate() {
        assert!(!a.describe().is_empty());
        for b in all.iter().skip(i + 1) {
            assert_ne!(a.describe(), b.describe());
        }
    }
}
