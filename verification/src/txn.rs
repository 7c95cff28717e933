//! The environment and its transactions: read-only transactions see a
//! snapshot of the committed state; the single read-write transaction works
//! on its own copy that commit publishes and abort discards.

use vstd::prelude::*;

use crate::error::Error;
use crate::flags::{DbFlagSet, PutFlagSet};
use crate::store::{dup_vals, key_present, put_err, spec_get, Database, Entry};

verus! {

/// Copies one database, entries and all.
fn clone_db(db: &Database) -> (r: Database)
    ensures
        r.flags == db.flags,
        r.cap == db.cap,
        r@ == db@,
{
    let mut entries: Vec<Entry> = Vec::new();
    let mut i: usize = 0;
    while i < db.entries.len()
        invariant
            i <= db.entries@.len(),
            entries@.len() == i,
            forall|j: int| 0 <= j < i ==> (#[trigger] entries@[j])@ == db.entries@[j]@,
        decreases db.entries@.len() - i,
    {
        let key = vstd::slice::slice_to_vec(db.entries[i].key.as_slice());
        let val = vstd::slice::slice_to_vec(db.entries[i].val.as_slice());
        entries.push(Entry { key, val });
        i = i + 1;
    }
    let r = Database { flags: db.flags, cap: db.cap, entries };
    proof {
        assert forall|m: int| 0 <= m < r@.len() implies r@[m] == db@[m] by {
            assert(r@[m] == r.entries@[m]@);
            assert(db@[m] == db.entries@[m]@);
        }
        assert(r@ =~= db@);
    }
    r
}

/// Copies a whole set of databases.
fn clone_dbs(v: &Vec<Database>) -> (r: Vec<Database>)
    ensures
        r@.len() == v@.len(),
        forall|i: int|
            0 <= i < v@.len() ==> (#[trigger] r@[i])@ == v@[i]@ && r@[i].flags == v@[i].flags
                && r@[i].cap == v@[i].cap,
{
    let mut out: Vec<Database> = Vec::new();
    let mut i: usize = 0;
    while i < v.len()
        invariant
            i <= v@.len(),
            out@.len() == i,
            forall|j: int|
                0 <= j < i ==> (#[trigger] out@[j])@ == v@[j]@ && out@[j].flags == v@[j].flags
                    && out@[j].cap == v@[j].cap,
        decreases v@.len() - i,
    {
        let db = clone_db(&v[i]);
        out.push(db);
        i = i + 1;
    }
    out
}

/// Read access a table or cursor needs from a transaction, offered by both
/// transaction kinds; mutation exists only on the read-write kind.
pub trait Transaction {
    /// The databases this transaction sees.
    spec fn dbs(&self) -> Seq<Database>;

    fn db_count(&self) -> (n: usize)
        ensures
            n == self.dbs().len(),
    ;

    fn db_ref(&self, dbi: usize) -> (r: &Database)
        requires
            dbi < self.dbs().len(),
        ensures
            *r == self.dbs()[dbi as int],
    ;
}

/// Every database a transaction sees is well formed.
pub open spec fn txn_inv<TX: Transaction>(tx: TX) -> bool {
    forall|i: int| 0 <= i < tx.dbs().len() ==> (#[trigger] tx.dbs()[i]).wf()
}

/// A read-only transaction: a consistent snapshot taken when it began,
/// never changed afterwards.
pub struct RoTxn {
    pub dbs: Vec<Database>,
}

impl Transaction for RoTxn {
    open spec fn dbs(&self) -> Seq<Database> {
        self.dbs@
    }

    fn db_count(&self) -> usize {
        self.dbs.len()
    }

    fn db_ref(&self, dbi: usize) -> &Database {
        &self.dbs[dbi]
    }
}

/// A read-write transaction: a private copy of the committed state, with
/// every mutation applied to it; commit publishes the copy.
pub struct RwTxn {
    pub dbs: Vec<Database>,
}

impl Transaction for RwTxn {
    open spec fn dbs(&self) -> Seq<Database> {
        self.dbs@
    }

    fn db_count(&self) -> usize {
        self.dbs.len()
    }

    fn db_ref(&self, dbi: usize) -> &Database {
        &self.dbs[dbi]
    }
}

/// A point lookup through any transaction kind.
pub fn txn_get<TX: Transaction>(tx: &TX, dbi: usize, key: &[u8]) -> (r: Result<
    Option<Vec<u8>>,
    Error,
>)
    requires
        txn_inv(*tx),
    ensures
        match r {
            Ok(v) => dbi < tx.dbs().len() && (match v {
                Some(b) => spec_get(tx.dbs()[dbi as int]@, key@) == Some(b@),
                None => spec_get(tx.dbs()[dbi as int]@, key@) is None,
            }),
            Err(e) => e == Error::InvalidArgument && dbi >= tx.dbs().len(),
        },
{
    if dbi >= tx.db_count() {
        return Err(Error::InvalidArgument);
    }
    proof {
        assert(tx.dbs()[dbi as int].wf());
    }
    Ok(tx.db_ref(dbi).get(key))
}

/// The entry count of one database, as the statistics query reports it.
pub fn txn_stat<TX: Transaction>(tx: &TX, dbi: usize) -> (r: Result<usize, Error>)
    requires
        txn_inv(*tx),
    ensures
        match r {
            Ok(n) => dbi < tx.dbs().len() && n == tx.dbs()[dbi as int]@.len(),
            Err(e) => e == Error::InvalidArgument && dbi >= tx.dbs().len(),
        },
{
    if dbi >= tx.db_count() {
        return Err(Error::InvalidArgument);
    }
    proof {
        assert(tx.dbs()[dbi as int].wf());
    }
    Ok(tx.db_ref(dbi).stat())
}

impl RwTxn {
    /// Stores a pair in one database; the outcome is `Database::put`'s,
    /// after rejecting an unknown database identifier.
    pub fn put(&mut self, dbi: usize, key: &[u8], val: &[u8], pf: &PutFlagSet) -> (r: Result<
        (),
        Error,
    >)
        requires
            txn_inv(*old(self)),
        ensures
            txn_inv(*final(self)),
            final(self).dbs@.len() == old(self).dbs@.len(),
            forall|j: int|
                0 <= j < old(self).dbs@.len() && j != dbi ==> #[trigger] final(self).dbs@[j]
                    == old(self).dbs@[j],
            r is Err ==> final(self).dbs@ == old(self).dbs@,
            dbi >= old(self).dbs@.len() ==> r == Err::<(), Error>(Error::InvalidArgument)
                && final(self).dbs@ == old(self).dbs@,
            dbi < old(self).dbs@.len() ==> {
                let db0 = old(self).dbs@[dbi as int];
                let db1 = final(self).dbs@[dbi as int];
                &&& db1.flags == db0.flags
                &&& db1.cap == db0.cap
                &&& match r {
                    Err(e) => Some(e) == put_err(
                        db0.flags,
                        db0.cap as int,
                        db0@,
                        key@,
                        val@,
                        *pf,
                    ) && db1@ == db0@,
                    Ok(u) => put_err(db0.flags, db0.cap as int, db0@, key@, val@, *pf) is None && ({
                        if db0.flags.dup_sort {
                            if dup_vals(db0@, key@).contains(val@) {
                                db1@ == db0@
                            } else {
                                &&& dup_vals(db1@, key@).to_multiset() == dup_vals(
                                    db0@,
                                    key@,
                                ).to_multiset().insert(val@)
                                &&& db1@.len() == db0@.len() + 1
                                &&& forall|k2: Seq<u8>|
                                    k2 != key@ ==> #[trigger] dup_vals(db1@, k2) == dup_vals(
                                        db0@,
                                        k2,
                                    )
                            }
                        } else {
                            &&& dup_vals(db1@, key@) == seq![val@]
                            &&& spec_get(db1@, key@) == Some(val@)
                            &&& forall|k2: Seq<u8>|
                                k2 != key@ ==> #[trigger] dup_vals(db1@, k2) == dup_vals(db0@, k2)
                        }
                    }),
                }
            },
    {
        if dbi >= self.dbs.len() {
            return Err(Error::InvalidArgument);
        }
        proof {
            assert(self.dbs()[dbi as int].wf());
        }
        let db = &mut self.dbs[dbi];
        let r = db.put(key, val, pf);
        proof {
            assert forall|j: int| 0 <= j < self.dbs@.len() implies (
            #[trigger] self.dbs@[j]).wf() by {
                if j != dbi {
                    assert(self.dbs@[j] == old(self).dbs@[j]);
                }
            }
            if r is Err {
                assert(self.dbs@ =~= old(self).dbs@);
            }
        }
        r
    }

    /// Removes a key and all its values from one database.
    pub fn del(&mut self, dbi: usize, key: &[u8]) -> (r: Result<bool, Error>)
        requires
            txn_inv(*old(self)),
        ensures
            txn_inv(*final(self)),
            final(self).dbs@.len() == old(self).dbs@.len(),
            forall|j: int|
                0 <= j < old(self).dbs@.len() && j != dbi ==> #[trigger] final(self).dbs@[j]
                    == old(self).dbs@[j],
            match r {
                Err(e) => e == Error::InvalidArgument && dbi >= old(self).dbs@.len() && final(self).dbs@ == old(self).dbs@,
                Ok(hit) => dbi < old(self).dbs@.len() && {
                    let db0 = old(self).dbs@[dbi as int];
                    let db1 = final(self).dbs@[dbi as int];
                    &&& db1.flags == db0.flags
                    &&& db1.cap == db0.cap
                    &&& hit == key_present(db0@, key@)
                    &&& !key_present(db1@, key@)
                    &&& forall|k2: Seq<u8>|
                        k2 != key@ ==> #[trigger] dup_vals(db1@, k2) == dup_vals(db0@, k2)
                    &&& db1@.len() == db0@.len() - dup_vals(db0@, key@).len()
                },
            },
    {
        if dbi >= self.dbs.len() {
            return Err(Error::InvalidArgument);
        }
        proof {
            assert(self.dbs()[dbi as int].wf());
        }
        let db = &mut self.dbs[dbi];
        let r = db.del(key);
        proof {
            assert forall|j: int| 0 <= j < self.dbs@.len() implies (
            #[trigger] self.dbs@[j]).wf() by {
                if j != dbi {
                    assert(self.dbs@[j] == old(self).dbs@[j]);
                }
            }
        }
        Ok(r)
    }

    /// Removes every entry of one database.
    pub fn clear(&mut self, dbi: usize) -> (r: Result<(), Error>)
        requires
            txn_inv(*old(self)),
        ensures
            txn_inv(*final(self)),
            final(self).dbs@.len() == old(self).dbs@.len(),
            forall|j: int|
                0 <= j < old(self).dbs@.len() && j != dbi ==> #[trigger] final(self).dbs@[j]
                    == old(self).dbs@[j],
            match r {
                Err(e) => e == Error::InvalidArgument && dbi >= old(self).dbs@.len() && final(self).dbs@ == old(self).dbs@,
                Ok(u) => dbi < old(self).dbs@.len() && {
                    let db0 = old(self).dbs@[dbi as int];
                    let db1 = final(self).dbs@[dbi as int];
                    &&& db1.flags == db0.flags
                    &&& db1.cap == db0.cap
                    &&& db1@ == Seq::<(Seq<u8>, Seq<u8>)>::empty()
                },
            },
    {
        if dbi >= self.dbs.len() {
            return Err(Error::InvalidArgument);
        }
        proof {
            assert(self.dbs()[dbi as int].wf());
        }
        let db = &mut self.dbs[dbi];
        db.clear();
        proof {
            assert forall|j: int| 0 <= j < self.dbs@.len() implies (
            #[trigger] self.dbs@[j]).wf() by {
                if j != dbi {
                    assert(self.dbs@[j] == old(self).dbs@[j]);
                }
            }
        }
        Ok(())
    }
}

/// The environment: the committed databases, the capacity each database is
/// given, the limit on named databases, and whether a writer is active.
pub struct Env {
    pub map_cap: usize,
    pub max_dbs: usize,
    pub dbs: Vec<Database>,
    pub writer_active: bool,
}

impl Env {
    /// Every committed database is well formed, within the database limit.
    pub open spec fn wf(self) -> bool {
        &&& self.dbs@.len() <= self.max_dbs
        &&& forall|i: int| 0 <= i < self.dbs@.len() ==> (#[trigger] self.dbs@[i]).wf()
    }

    /// A fresh environment with the given limits and no databases yet.
    pub fn env_create(max_dbs: usize, map_cap: usize) -> (r: Env)
        ensures
            r.wf(),
            r.max_dbs == max_dbs,
            r.map_cap == map_cap,
            r.dbs@.len() == 0,
            !r.writer_active,
    {
        Env { map_cap, max_dbs, dbs: Vec::new(), writer_active: false }
    }

    /// Opens one more named database and hands back its identifier, the
    /// index every transaction addresses it by. Fails on an illegal flag
    /// combination, or when all database slots are taken.
    pub fn dbi_open(&mut self, flags: DbFlagSet) -> (r: Result<usize, Error>)
        requires
            old(self).wf(),
        ensures
            final(self).wf(),
            final(self).map_cap == old(self).map_cap,
            final(self).max_dbs == old(self).max_dbs,
            final(self).writer_active == old(self).writer_active,
            match r {
                Err(e) => final(self).dbs@ == old(self).dbs@ && (if !flags.spec_valid() {
                    e == Error::InvalidArgument
                } else {
                    e == Error::ResourceExhausted && old(self).dbs@.len() >= old(self).max_dbs
                }),
                Ok(dbi) => {
                    &&& flags.spec_valid()
                    &&& old(self).dbs@.len() < old(self).max_dbs
                    &&& dbi == old(self).dbs@.len()
                    &&& final(self).dbs@.len() == old(self).dbs@.len() + 1
                    &&& forall|j: int|
                        0 <= j < old(self).dbs@.len() ==> #[trigger] final(self).dbs@[j] == old(
                            self,
                        ).dbs@[j]
                    &&& final(self).dbs@[dbi as int].flags == flags
                    &&& final(self).dbs@[dbi as int].cap == old(self).map_cap
                    &&& final(self).dbs@[dbi as int]@ == Seq::<(Seq<u8>, Seq<u8>)>::empty()
                },
            },
    {
        if self.dbs.len() >= self.max_dbs {
            if !flags.valid() {
                return Err(Error::InvalidArgument);
            }
            return Err(Error::ResourceExhausted);
        }
        let db = match Database::create(flags, self.map_cap) {
            Ok(db) => db,
            Err(e) => {
                return Err(e);
            },
        };
        let dbi = self.dbs.len();
        self.dbs.push(db);
        proof {
            assert(final(self).dbs@[dbi as int]@ =~= Seq::<(Seq<u8>, Seq<u8>)>::empty());
        }
        Ok(dbi)
    }

    /// Begins a read-only transaction: a snapshot of the committed state.
    /// Any number may be active at once.
    pub fn begin_ro(&self) -> (r: RoTxn)
        requires
            self.wf(),
        ensures
            txn_inv(r),
            r.dbs().len() == self.dbs@.len(),
            forall|i: int|
                0 <= i < self.dbs@.len() ==> (#[trigger] r.dbs()[i])@ == self.dbs@[i]@
                    && r.dbs()[i].flags == self.dbs@[i].flags,
    {
        RoTxn { dbs: clone_dbs(&self.dbs) }
    }

    /// Begins the read-write transaction, on a private copy of the
    /// committed state. Fails while another writer is active: the engine
    /// serializes writers.
    pub fn begin_rw(&mut self) -> (r: Result<RwTxn, Error>)
        requires
            old(self).wf(),
        ensures
            final(self).wf(),
            final(self).dbs@ == old(self).dbs@,
            final(self).map_cap == old(self).map_cap,
            final(self).max_dbs == old(self).max_dbs,
            match r {
                Err(e) => e == Error::ResourceExhausted && old(self).writer_active && final(self).writer_active,
                Ok(tx) => {
                    &&& !old(self).writer_active
                    &&& final(self).writer_active
                    &&& txn_inv(tx)
                    &&& tx.dbs().len() == old(self).dbs@.len()
                    &&& forall|i: int|
                        0 <= i < old(self).dbs@.len() ==> (#[trigger] tx.dbs()[i])@ == old(
                            self,
                        ).dbs@[i]@ && tx.dbs()[i].flags == old(self).dbs@[i].flags && tx.dbs()[i].cap
                            == old(self).dbs@[i].cap
                },
            },
    {
        if self.writer_active {
            return Err(Error::ResourceExhausted);
        }
        self.writer_active = true;
        Ok(RwTxn { dbs: clone_dbs(&self.dbs) })
    }

    /// Commits the read-write transaction: its state becomes the committed
    /// state, visible to transactions begun afterwards. This model charges
    /// map capacity at put time, so commit itself has nothing left to
    /// refuse; it stays fallible for callers written against an engine
    /// whose commit can fail.
    pub fn commit(&mut self, tx: RwTxn) -> (r: Result<(), Error>)
        requires
            old(self).wf(),
            old(self).writer_active,
            txn_inv(tx),
            tx.dbs@.len() <= old(self).max_dbs,
        ensures
            r is Ok,
            final(self).wf(),
            !final(self).writer_active,
            final(self).map_cap == old(self).map_cap,
            final(self).max_dbs == old(self).max_dbs,
            final(self).dbs@ == tx.dbs@,
    {
        proof {
            assert forall|i: int| 0 <= i < tx.dbs@.len() implies (#[trigger] tx.dbs@[i]).wf() by {
                assert(tx.dbs()[i] == tx.dbs@[i]);
            }
        }
        self.dbs = tx.dbs;
        self.writer_active = false;
        Ok(())
    }

    /// Aborts the read-write transaction, discarding every mutation made
    /// through it. Never fails.
    pub fn abort(&mut self, tx: RwTxn)
        requires
            old(self).wf(),
        ensures
            final(self).wf(),
            !final(self).writer_active,
            final(self).dbs@ == old(self).dbs@,
            final(self).map_cap == old(self).map_cap,
            final(self).max_dbs == old(self).max_dbs,
    {
        let _discarded = tx;
        self.writer_active = false;
    }
}

} // verus!
