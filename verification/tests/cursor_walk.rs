use polytable::cursor::Cursor;
use polytable::flags::{CursorOpFlags, DbFlagSet, DbFlags, PutFlagSet};
use polytable::table::AssocPolyTable;
use polytable::txn::Env;

fn env_with(flags: DbFlagSet) -> (Env, usize) {
    let mut env = Env::env_create(4, 100);
    let dbi = env.dbi_open(flags).unwrap();
    (env, dbi)
}

#[test]
fn integer_scenario_first_next_exhausted() {
    let (mut env, dbi) = env_with(DbFlagSet::empty().with(DbFlags::IntegerKey));
    let table = AssocPolyTable::build(dbi);
    let mut tx = env.begin_rw().unwrap();
    table.put(&mut tx, 2, &String::from("b")).unwrap();
    table.put(&mut tx, 1, &String::from("a")).unwrap();
    table.put(&mut tx, 3, &String::from("c")).unwrap();
    let mut cur = Cursor::open(&tx, dbi).unwrap();
    let expect = [(1u64, "a"), (2, "b"), (3, "c")];
    for (step, (want_key, want_val)) in expect.iter().enumerate() {
        let op = if step == 0 { CursorOpFlags::First } else { CursorOpFlags::Next };
        let (k, v) = cur.get_with_u64_key(&tx, op).unwrap();
        assert_eq!(k, *want_key);
        let view = polytable::table::ArchivedVal { bytes: v };
        assert_eq!(view.deserialize().as_deref(), Some(*want_val));
    }
    assert!(cur.get_with_u64_key(&tx, CursorOpFlags::Next).is_none());
    env.abort(tx);
}

#[test]
fn keys_come_out_sorted_both_ways() {
    let (mut env, dbi) = env_with(DbFlagSet::empty());
    let mut tx = env.begin_rw().unwrap();
    for key in [&b"pear"[..], &b"apple"[..], &b"quince"[..], &b"fig"[..]] {
        tx.put(dbi, key, &b"x"[..], &PutFlagSet::empty()).unwrap();
    }
    let mut cur = Cursor::open(&tx, dbi).unwrap();
    let mut forward: Vec<Vec<u8>> = Vec::new();
    let mut item = cur.first(&tx);
    while let Some((k, _v)) = item {
        forward.push(k);
        item = cur.next(&tx);
    }
    assert_eq!(
        forward,
        vec![b"apple".to_vec(), b"fig".to_vec(), b"pear".to_vec(), b"quince".to_vec()]
    );
    let mut backward: Vec<Vec<u8>> = Vec::new();
    let mut item = cur.last(&tx);
    while let Some((k, _v)) = item {
        backward.push(k);
        item = cur.prev(&tx);
    }
    let mut reversed = forward.clone();
    reversed.reverse();
    assert_eq!(backward, reversed);
    env.abort(tx);
}

#[test]
fn reverse_key_database_sorts_descending() {
    let (mut env, dbi) = env_with(DbFlagSet::empty().with(DbFlags::ReverseKey));
    let mut tx = env.begin_rw().unwrap();
    for key in [&b"a"[..], &b"c"[..], &b"b"[..]] {
        tx.put(dbi, key, &b"x"[..], &PutFlagSet::empty()).unwrap();
    }
    let mut cur = Cursor::open(&tx, dbi).unwrap();
    let mut keys: Vec<Vec<u8>> = Vec::new();
    let mut item = cur.first(&tx);
    while let Some((k, _v)) = item {
        keys.push(k);
        item = cur.next(&tx);
    }
    assert_eq!(keys, vec![b"c".to_vec(), b"b".to_vec(), b"a".to_vec()]);
    env.abort(tx);
}

#[test]
fn duplicates_come_out_sorted() {
    let (mut env, dbi) = env_with(DbFlagSet::empty().with(DbFlags::DupSort));
    let mut tx = env.begin_rw().unwrap();
    for val in [&b"v2"[..], &b"v3"[..], &b"v1"[..]] {
        tx.put(dbi, &b"k"[..], val, &PutFlagSet::empty()).unwrap();
    }
    tx.put(dbi, &b"z"[..], &b"w"[..], &PutFlagSet::empty()).unwrap();
    let mut cur = Cursor::open(&tx, dbi).unwrap();
    let (k, v) = cur.seek(&tx, &b"k"[..]).unwrap();
    assert_eq!((k, v), (b"k".to_vec(), b"v1".to_vec()));
    let (_, v) = cur.get(&tx, CursorOpFlags::NextDup).unwrap();
    assert_eq!(v, b"v2".to_vec());
    let (_, v) = cur.get(&tx, CursorOpFlags::NextDup).unwrap();
    assert_eq!(v, b"v3".to_vec());
    assert!(cur.get(&tx, CursorOpFlags::NextDup).is_none());
    // From inside the run, first-dup and last-dup bracket it.
    cur.seek(&tx, &b"k"[..]).unwrap();
    cur.get(&tx, CursorOpFlags::NextDup).unwrap();
    let (_, v) = cur.get(&tx, CursorOpFlags::FirstDup).unwrap();
    assert_eq!(v, b"v1".to_vec());
    let (_, v) = cur.get(&tx, CursorOpFlags::LastDup).unwrap();
    assert_eq!(v, b"v3".to_vec());
    // next-no-duplicate skips the rest of the run.
    cur.seek(&tx, &b"k"[..]).unwrap();
    let (k, v) = cur.get(&tx, CursorOpFlags::NextNodup).unwrap();
    assert_eq!((k, v), (b"z".to_vec(), b"w".to_vec()));
    let (k, _) = cur.get(&tx, CursorOpFlags::PrevNodup).unwrap();
    assert_eq!(k, b"k".to_vec());
    env.abort(tx);
}

#[test]
fn seek_exact_and_range() {
    let (mut env, dbi) = env_with(DbFlagSet::empty());
    let mut tx = env.begin_rw().unwrap();
    tx.put(dbi, &b"b"[..], &b"1"[..], &PutFlagSet::empty()).unwrap();
    tx.put(dbi, &b"d"[..], &b"2"[..], &PutFlagSet::empty()).unwrap();
    let mut cur = Cursor::open(&tx, dbi).unwrap();
    assert!(cur.get_with_key(&tx, &b"c"[..], CursorOpFlags::SetKey).is_none());
    let (k, v) = cur.get_with_key(&tx, &b"c"[..], CursorOpFlags::SetRange).unwrap();
    assert_eq!((k, v), (b"d".to_vec(), b"2".to_vec()));
    let (k, v) = cur.get_with_key(&tx, &b"b"[..], CursorOpFlags::SetExact).unwrap();
    assert_eq!((k, v), (b"b".to_vec(), b"1".to_vec()));
    assert!(cur.get_with_key(&tx, &b"e"[..], CursorOpFlags::SetRange).is_none());
    env.abort(tx);
}

#[test]
fn get_both_and_get_both_range() {
    let (mut env, dbi) = env_with(DbFlagSet::empty().with(DbFlags::DupSort));
    let mut tx = env.begin_rw().unwrap();
    for val in [&b"v1"[..], &b"v3"[..]] {
        tx.put(dbi, &b"k"[..], val, &PutFlagSet::empty()).unwrap();
    }
    let mut cur = Cursor::open(&tx, dbi).unwrap();
    let (k, v) = cur.get_both(&tx, &b"k"[..], &b"v3"[..]).unwrap();
    assert_eq!((k, v), (b"k".to_vec(), b"v3".to_vec()));
    assert!(cur.get_both(&tx, &b"k"[..], &b"v2"[..]).is_none());
    let (_, v) = cur.get_both_range(&tx, &b"k"[..], &b"v2"[..]).unwrap();
    assert_eq!(v, b"v3".to_vec());
    assert!(cur.get_both_range(&tx, &b"k"[..], &b"v4"[..]).is_none());
    env.abort(tx);
}

#[test]
fn bulk_pages_cover_the_run() {
    let (mut env, dbi) = env_with(
        DbFlagSet::empty().with(DbFlags::DupSort).with(DbFlags::DupFixed),
    );
    let mut tx = env.begin_rw().unwrap();
    for val in [&b"bb"[..], &b"aa"[..], &b"cc"[..]] {
        tx.put(dbi, &b"k"[..], val, &PutFlagSet::empty()).unwrap();
    }
    let mut cur = Cursor::open(&tx, dbi).unwrap();
    cur.seek(&tx, &b"k"[..]).unwrap();
    let (k, page) = cur.get(&tx, CursorOpFlags::GetMultiple).unwrap();
    assert_eq!(k, b"k".to_vec());
    assert_eq!(page, b"aabbcc".to_vec());
    // The cursor now stands on the last value of the run.
    assert!(cur.get(&tx, CursorOpFlags::NextMultiple).is_none());
    // From the middle of the run, the next page holds the rest.
    cur.seek(&tx, &b"k"[..]).unwrap();
    let (_, page) = cur.get(&tx, CursorOpFlags::NextMultiple).unwrap();
    assert_eq!(page, b"bbcc".to_vec());
    env.abort(tx);
}

#[test]
fn get_current_rereads_without_moving() {
    let (mut env, dbi) = env_with(DbFlagSet::empty());
    let mut tx = env.begin_rw().unwrap();
    tx.put(dbi, &b"a"[..], &b"1"[..], &PutFlagSet::empty()).unwrap();
    tx.put(dbi, &b"b"[..], &b"2"[..], &PutFlagSet::empty()).unwrap();
    let mut cur = Cursor::open(&tx, dbi).unwrap();
    cur.first(&tx).unwrap();
    let (k1, _) = cur.get(&tx, CursorOpFlags::GetCurrent).unwrap();
    let (k2, _) = cur.get(&tx, CursorOpFlags::GetCurrent).unwrap();
    assert_eq!(k1, k2);
    assert_eq!(k1, b"a".to_vec());
    env.abort(tx);
}

#[test]
fn cursor_flag_compatibility() {
    let plain = DbFlagSet::empty();
    let dup = DbFlagSet::empty().with(DbFlags::DupSort);
    let dup_fixed = dup.with(DbFlags::DupFixed);
    assert!(CursorOpFlags::Next.allowed(&plain));
    assert!(!CursorOpFlags::NextDup.allowed(&plain));
    assert!(CursorOpFlags::NextDup.allowed(&dup));
    assert!(!CursorOpFlags::GetMultiple.allowed(&dup));
    assert!(CursorOpFlags::GetMultiple.allowed(&dup_fixed));
    let no_dup = PutFlagSet::empty().with(polytable::flags::PutFlags::NoDupData);
    assert!(!no_dup.allowed(&plain));
    assert!(no_dup.allowed(&dup));
    let reserve = PutFlagSet::empty().with(polytable::flags::PutFlags::Reserve);
    assert!(reserve.allowed(&plain));
    assert!(!reserve.allowed(&dup));
}

#[test]
fn integer_key_codec_round_trips() {
    for k in [0u64, 1, 255, 256, u64::MAX, 1 << 40] {
        let b = polytable::codec::u64_to_be(k);
        assert_eq!(b.len(), 8);
        assert_eq!(polytable::codec::u64_from_be(b.as_slice()), k);
    }
    // Byte order is numeric order.
    let a = polytable::codec::u64_to_be(300);
    let b = polytable::codec::u64_to_be(70000);
    assert!(a.as_slice() < b.as_slice());
}
