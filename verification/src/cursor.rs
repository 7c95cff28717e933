//! Cursors: stateful positional iterators over one database's sorted
//! entries, with absolute, key-directed and duplicate-aware positioning.
//! A failed positioning returns nothing and leaves the position unchanged.

use vstd::prelude::*;

use crate::codec::{u64_be_bytes, u64_from_be};
use crate::error::Error;
use crate::flags::CursorOpFlags;
use crate::store::{key_lt, key_cmp, lemma_key_lt_trichotomy, lemma_sorted_tail_misses, Database};
use crate::txn::{txn_inv, Transaction};

verus! {

/// Where a cursor stands: nowhere yet, or at one entry.
#[derive(Clone, Copy, PartialEq, Eq, Structural, Debug)]
pub enum CursorPos {
    Unset,
    At(usize),
}

/// A cursor over one database of a transaction. Every operation takes the
/// transaction it was opened from, and a ghost image of the databases as
/// they stood at opening binds the two: using the cursor with another
/// transaction, or after the transaction ended or changed its state, no
/// longer meets the cursor's validity precondition, so a stale position
/// can never be read through.
pub struct Cursor {
    pub dbi: usize,
    pub pos: CursorPos,
    pub opened_on: Ghost<Seq<Database>>,
}

/// What a positioning call hands back for the entry at index `j`.
pub open spec fn entry_out(r: Option<(Vec<u8>, Vec<u8>)>, e: (Seq<u8>, Seq<u8>)) -> bool {
    match r {
        Some(p) => p.0@ == e.0 && p.1@ == e.1,
        None => false,
    }
}

/// The values of the entries in `[lo, hi)`, concatenated into one page.
pub open spec fn vals_concat(s: Seq<(Seq<u8>, Seq<u8>)>, lo: int, hi: int) -> Seq<u8>
    decreases hi - lo,
{
    if lo >= hi {
        Seq::empty()
    } else {
        s[lo].1 + vals_concat(s, lo + 1, hi)
    }
}

/// Extending a page by one entry appends that entry's value.
pub proof fn lemma_vals_concat_snoc(s: Seq<(Seq<u8>, Seq<u8>)>, lo: int, hi: int)
    requires
        0 <= lo <= hi < s.len(),
    ensures
        vals_concat(s, lo, hi + 1) == vals_concat(s, lo, hi) + s[hi].1,
    decreases hi - lo,
{
    if lo < hi {
        lemma_vals_concat_snoc(s, lo + 1, hi);
        assert(s[lo].1 + (vals_concat(s, lo + 1, hi) + s[hi].1) =~= (s[lo].1 + vals_concat(
            s,
            lo + 1,
            hi,
        )) + s[hi].1);
    } else {
        assert(vals_concat(s, lo, lo) == Seq::<u8>::empty());
        assert(vals_concat(s, lo + 1, lo + 1) == Seq::<u8>::empty());
        assert(vals_concat(s, lo, lo + 1) == s[lo].1 + vals_concat(s, lo + 1, lo + 1));
        assert(s[lo].1 + Seq::<u8>::empty() =~= s[lo].1);
        assert(Seq::<u8>::empty() + s[lo].1 =~= s[lo].1);
    }
}

/// What a keyless positioning operator leaves behind: the entries `s`, the
/// old and new position, and the returned pair, for each operator.
pub open spec fn cursor_op_post(
    op: CursorOpFlags,
    s: Seq<(Seq<u8>, Seq<u8>)>,
    p0: CursorPos,
    p1: CursorPos,
    r: Option<(Vec<u8>, Vec<u8>)>,
) -> bool {
    match op {
        CursorOpFlags::GetCurrent => p1 == p0 && match p0 {
            CursorPos::At(i) => entry_out(r, s[i as int]),
            CursorPos::Unset => false,
        },
        CursorOpFlags::First => if s.len() > 0 {
            p1 == CursorPos::At(0usize) && entry_out(r, s[0])
        } else {
            r is None && p1 == p0
        },
        CursorOpFlags::Last => if s.len() > 0 {
            p1 == CursorPos::At((s.len() - 1) as usize) && entry_out(r, s.last())
        } else {
            r is None && p1 == p0
        },
        CursorOpFlags::Next => match p0 {
            CursorPos::Unset => if s.len() > 0 {
                p1 == CursorPos::At(0usize) && entry_out(r, s[0])
            } else {
                r is None && p1 == p0
            },
            CursorPos::At(i) => if i + 1 < s.len() {
                p1 == CursorPos::At((i + 1) as usize) && entry_out(r, s[i + 1])
            } else {
                r is None && p1 == p0
            },
        },
        CursorOpFlags::Prev => match p0 {
            CursorPos::Unset => if s.len() > 0 {
                p1 == CursorPos::At((s.len() - 1) as usize) && entry_out(r, s.last())
            } else {
                r is None && p1 == p0
            },
            CursorPos::At(i) => if i >= 1 {
                p1 == CursorPos::At((i - 1) as usize) && entry_out(r, s[i - 1])
            } else {
                r is None && p1 == p0
            },
        },
        CursorOpFlags::FirstDup => match (p0, p1) {
            (CursorPos::At(i), CursorPos::At(j)) => {
                &&& j <= i
                &&& s[j as int].0 == s[i as int].0
                &&& forall|m: int| 0 <= m < j ==> #[trigger] s[m].0 != s[i as int].0
                &&& entry_out(r, s[j as int])
            },
            _ => false,
        },
        CursorOpFlags::LastDup => match (p0, p1) {
            (CursorPos::At(i), CursorPos::At(j)) => {
                &&& i <= j < s.len()
                &&& s[j as int].0 == s[i as int].0
                &&& (j + 1 == s.len() || s[j + 1].0 != s[i as int].0)
                &&& entry_out(r, s[j as int])
            },
            _ => false,
        },
        CursorOpFlags::NextDup => match p0 {
            CursorPos::At(i) => if i + 1 < s.len() && s[i + 1].0 == s[i as int].0 {
                p1 == CursorPos::At((i + 1) as usize) && entry_out(r, s[i + 1])
            } else {
                r is None && p1 == p0
            },
            CursorPos::Unset => false,
        },
        CursorOpFlags::PrevDup => match p0 {
            CursorPos::At(i) => if i >= 1 && s[i - 1].0 == s[i as int].0 {
                p1 == CursorPos::At((i - 1) as usize) && entry_out(r, s[i - 1])
            } else {
                r is None && p1 == p0
            },
            CursorPos::Unset => false,
        },
        CursorOpFlags::NextNodup => match p0 {
            CursorPos::At(i) => match r {
                Some(p) => match p1 {
                    CursorPos::At(j) => {
                        &&& i < j < s.len()
                        &&& s[j as int].0 != s[i as int].0
                        &&& forall|m: int| i < m < j ==> #[trigger] s[m].0 == s[i as int].0
                        &&& p.0@ == s[j as int].0 && p.1@ == s[j as int].1
                    },
                    CursorPos::Unset => false,
                },
                None => p1 == p0 && forall|m: int|
                    i < m < s.len() ==> #[trigger] s[m].0 == s[i as int].0,
            },
            CursorPos::Unset => false,
        },
        CursorOpFlags::PrevNodup => match p0 {
            CursorPos::At(i) => match r {
                Some(p) => match p1 {
                    CursorPos::At(j) => {
                        &&& j < i
                        &&& s[j as int].0 != s[i as int].0
                        &&& forall|m: int| j < m <= i ==> #[trigger] s[m].0 == s[i as int].0
                        &&& p.0@ == s[j as int].0 && p.1@ == s[j as int].1
                    },
                    CursorPos::Unset => false,
                },
                None => p1 == p0 && forall|m: int|
                    0 <= m <= i ==> #[trigger] s[m].0 == s[i as int].0,
            },
            CursorPos::Unset => false,
        },
        CursorOpFlags::GetMultiple => match (p0, p1) {
            (CursorPos::At(i), CursorPos::At(j)) => {
                &&& i <= j < s.len()
                &&& s[j as int].0 == s[i as int].0
                &&& (j + 1 == s.len() || s[j + 1].0 != s[i as int].0)
                &&& match r {
                    Some(p) => p.0@ == s[i as int].0 && p.1@ == vals_concat(s, i as int, j + 1),
                    None => false,
                }
            },
            _ => false,
        },
        CursorOpFlags::NextMultiple => match p0 {
            CursorPos::At(i) => if i + 1 < s.len() && s[i + 1].0 == s[i as int].0 {
                match (r, p1) {
                    (Some(p), CursorPos::At(j)) => {
                        &&& i + 1 <= j < s.len()
                        &&& s[j as int].0 == s[i as int].0
                        &&& (j + 1 == s.len() || s[j + 1].0 != s[i as int].0)
                        &&& p.0@ == s[i as int].0 && p.1@ == vals_concat(s, i + 1, j + 1)
                    },
                    _ => false,
                }
            } else {
                r is None && p1 == p0
            },
            CursorPos::Unset => false,
        },
        _ => false,
    }
}

impl Cursor {
    /// The database this cursor walks, within the given transaction.
    pub open spec fn db_of<TX: Transaction>(self, tx: TX) -> Database {
        tx.dbs()[self.dbi as int]
    }

    /// The cursor belongs to this transaction state: the databases are
    /// those it was opened on, it addresses one of them, and its position,
    /// if set, addresses an entry.
    pub open spec fn valid<TX: Transaction>(self, tx: TX) -> bool {
        &&& self.opened_on@ == tx.dbs()
        &&& self.dbi < tx.dbs().len()
        &&& match self.pos {
            CursorPos::Unset => true,
            CursorPos::At(i) => i < self.db_of(tx)@.len(),
        }
    }

    /// Opens a cursor on one database, positioned nowhere.
    pub fn open<TX: Transaction>(tx: &TX, dbi: usize) -> (r: Result<Cursor, Error>)
        requires
            txn_inv(*tx),
        ensures
            match r {
                Ok(c) => dbi < tx.dbs().len() && c.dbi == dbi && c.pos == CursorPos::Unset
                    && c.valid(*tx),
                Err(e) => e == Error::InvalidArgument && dbi >= tx.dbs().len(),
            },
    {
        if dbi >= tx.db_count() {
            return Err(Error::InvalidArgument);
        }
        Ok(Cursor { dbi, pos: CursorPos::Unset, opened_on: Ghost(tx.dbs()) })
    }

    /// Positions at the first entry, or reports an empty database.
    pub fn first<TX: Transaction>(&mut self, tx: &TX) -> (r: Option<(Vec<u8>, Vec<u8>)>)
        requires
            txn_inv(*tx),
            old(self).valid(*tx),
        ensures
            final(self).dbi == old(self).dbi,
            final(self).valid(*tx),
            ({
                let s = old(self).db_of(*tx)@;
                if s.len() > 0 {
                    final(self).pos == CursorPos::At(0usize) && entry_out(r, s[0])
                } else {
                    r is None && final(self).pos == old(self).pos
                }
            }),
    {
        proof {
            assert(tx.dbs()[self.dbi as int].wf());
        }
        let db = tx.db_ref(self.dbi);
        if db.entries.len() == 0 {
            return None;
        }
        self.pos = CursorPos::At(0);
        proof {
            assert(db@[0] == db.entries@[0]@);
        }
        Some(
            (
                vstd::slice::slice_to_vec(db.entries[0].key.as_slice()),
                vstd::slice::slice_to_vec(db.entries[0].val.as_slice()),
            ),
        )
    }

    /// Positions at the last entry, or reports an empty database.
    pub fn last<TX: Transaction>(&mut self, tx: &TX) -> (r: Option<(Vec<u8>, Vec<u8>)>)
        requires
            txn_inv(*tx),
            old(self).valid(*tx),
        ensures
            final(self).dbi == old(self).dbi,
            final(self).valid(*tx),
            ({
                let s = old(self).db_of(*tx)@;
                if s.len() > 0 {
                    final(self).pos == CursorPos::At((s.len() - 1) as usize) && entry_out(
                        r,
                        s.last(),
                    )
                } else {
                    r is None && final(self).pos == old(self).pos
                }
            }),
    {
        proof {
            assert(tx.dbs()[self.dbi as int].wf());
        }
        let db = tx.db_ref(self.dbi);
        let n = db.entries.len();
        if n == 0 {
            return None;
        }
        self.pos = CursorPos::At(n - 1);
        proof {
            assert(db@[n - 1] == db.entries@[n - 1]@);
        }
        Some(
            (
                vstd::slice::slice_to_vec(db.entries[n - 1].key.as_slice()),
                vstd::slice::slice_to_vec(db.entries[n - 1].val.as_slice()),
            ),
        )
    }

    /// Re-reads the current entry without moving.
    pub fn get_current<TX: Transaction>(&mut self, tx: &TX) -> (r: Option<(Vec<u8>, Vec<u8>)>)
        requires
            txn_inv(*tx),
            old(self).valid(*tx),
            old(self).pos is At,
        ensures
            *final(self) == *old(self),
            ({
                let s = old(self).db_of(*tx)@;
                match old(self).pos {
                    CursorPos::At(i) => entry_out(r, s[i as int]),
                    CursorPos::Unset => false,
                }
            }),
    {
        proof {
            assert(tx.dbs()[self.dbi as int].wf());
        }
        let db = tx.db_ref(self.dbi);
        let i = match self.pos {
            CursorPos::At(i) => i,
            CursorPos::Unset => {
                return None;
            },
        };
        proof {
            assert(db@[i as int] == db.entries@[i as int]@);
        }
        Some(
            (
                vstd::slice::slice_to_vec(db.entries[i].key.as_slice()),
                vstd::slice::slice_to_vec(db.entries[i].val.as_slice()),
            ),
        )
    }

    /// Steps to the following entry; from an unset position it behaves as
    /// `first`. Past the last entry it reports exhaustion and stays put.
    pub fn next<TX: Transaction>(&mut self, tx: &TX) -> (r: Option<(Vec<u8>, Vec<u8>)>)
        requires
            txn_inv(*tx),
            old(self).valid(*tx),
        ensures
            final(self).dbi == old(self).dbi,
            final(self).valid(*tx),
            ({
                let s = old(self).db_of(*tx)@;
                match old(self).pos {
                    CursorPos::Unset => if s.len() > 0 {
                        final(self).pos == CursorPos::At(0usize) && entry_out(r, s[0])
                    } else {
                        r is None && final(self).pos == old(self).pos
                    },
                    CursorPos::At(i) => if i + 1 < s.len() {
                        final(self).pos == CursorPos::At((i + 1) as usize) && entry_out(
                            r,
                            s[i + 1],
                        )
                    } else {
                        r is None && final(self).pos == old(self).pos
                    },
                }
            }),
    {
        proof {
            assert(tx.dbs()[self.dbi as int].wf());
        }
        let db = tx.db_ref(self.dbi);
        let i = match self.pos {
            CursorPos::At(i) => i,
            CursorPos::Unset => {
                return self.first(tx);
            },
        };
        if i + 1 >= db.entries.len() {
            return None;
        }
        self.pos = CursorPos::At(i + 1);
        proof {
            assert(db@[i + 1] == db.entries@[i + 1]@);
        }
        Some(
            (
                vstd::slice::slice_to_vec(db.entries[i + 1].key.as_slice()),
                vstd::slice::slice_to_vec(db.entries[i + 1].val.as_slice()),
            ),
        )
    }

    /// Steps to the preceding entry; from an unset position it behaves as
    /// `last`. Before the first entry it reports exhaustion and stays put.
    pub fn prev<TX: Transaction>(&mut self, tx: &TX) -> (r: Option<(Vec<u8>, Vec<u8>)>)
        requires
            txn_inv(*tx),
            old(self).valid(*tx),
        ensures
            final(self).dbi == old(self).dbi,
            final(self).valid(*tx),
            ({
                let s = old(self).db_of(*tx)@;
                match old(self).pos {
                    CursorPos::Unset => if s.len() > 0 {
                        final(self).pos == CursorPos::At((s.len() - 1) as usize) && entry_out(
                            r,
                            s.last(),
                        )
                    } else {
                        r is None && final(self).pos == old(self).pos
                    },
                    CursorPos::At(i) => if i >= 1 {
                        final(self).pos == CursorPos::At((i - 1) as usize) && entry_out(
                            r,
                            s[i - 1],
                        )
                    } else {
                        r is None && final(self).pos == old(self).pos
                    },
                }
            }),
    {
        proof {
            assert(tx.dbs()[self.dbi as int].wf());
        }
        let db = tx.db_ref(self.dbi);
        let i = match self.pos {
            CursorPos::At(i) => i,
            CursorPos::Unset => {
                return self.last(tx);
            },
        };
        if i == 0 {
            return None;
        }
        self.pos = CursorPos::At(i - 1);
        proof {
            assert(db@[i - 1] == db.entries@[i - 1]@);
        }
        Some(
            (
                vstd::slice::slice_to_vec(db.entries[i - 1].key.as_slice()),
                vstd::slice::slice_to_vec(db.entries[i - 1].val.as_slice()),
            ),
        )
    }

    /// Positions at the first value of the current key.
    pub fn first_dup<TX: Transaction>(&mut self, tx: &TX) -> (r: Option<(Vec<u8>, Vec<u8>)>)
        requires
            txn_inv(*tx),
            old(self).valid(*tx),
            old(self).db_of(*tx).flags.dup_sort,
            old(self).pos is At,
        ensures
            final(self).dbi == old(self).dbi,
            final(self).valid(*tx),
            ({
                let s = old(self).db_of(*tx)@;
                match (old(self).pos, final(self).pos) {
                    (CursorPos::At(i), CursorPos::At(j)) => {
                        &&& j <= i
                        &&& s[j as int].0 == s[i as int].0
                        &&& forall|m: int| 0 <= m < j ==> #[trigger] s[m].0 != s[i as int].0
                        &&& entry_out(r, s[j as int])
                    },
                    _ => false,
                }
            }),
    {
        proof {
            assert(tx.dbs()[self.dbi as int].wf());
        }
        let db = tx.db_ref(self.dbi);
        let i = match self.pos {
            CursorPos::At(i) => i,
            CursorPos::Unset => {
                return None;
            },
        };
        proof {
            assert(db@[i as int] == db.entries@[i as int]@);
        }
        let lo = db.key_lower_bound(db.entries[i].key.as_slice());
        proof {
            let s = db@;
            let k = s[i as int].0;
            if lo > i {
                assert(key_lt(db.flags, s[i as int].0, k));
                lemma_key_lt_trichotomy(db.flags, k, k);
            }
            assert(lo <= i);
            if s[lo as int].0 != k {
                lemma_sorted_tail_misses(db.flags, s, k, lo as int);
            }
            assert(s[lo as int].0 == k);
            assert forall|m: int| 0 <= m < lo implies #[trigger] s[m].0 != k by {
                lemma_key_lt_trichotomy(db.flags, s[m].0, k);
            }
            assert(db@[lo as int] == db.entries@[lo as int]@);
        }
        self.pos = CursorPos::At(lo);
        Some(
            (
                vstd::slice::slice_to_vec(db.entries[lo].key.as_slice()),
                vstd::slice::slice_to_vec(db.entries[lo].val.as_slice()),
            ),
        )
    }

    /// Positions at the last value of the current key.
    pub fn last_dup<TX: Transaction>(&mut self, tx: &TX) -> (r: Option<(Vec<u8>, Vec<u8>)>)
        requires
            txn_inv(*tx),
            old(self).valid(*tx),
            old(self).db_of(*tx).flags.dup_sort,
            old(self).pos is At,
        ensures
            final(self).dbi == old(self).dbi,
            final(self).valid(*tx),
            ({
                let s = old(self).db_of(*tx)@;
                match (old(self).pos, final(self).pos) {
                    (CursorPos::At(i), CursorPos::At(j)) => {
                        &&& i <= j < s.len()
                        &&& s[j as int].0 == s[i as int].0
                        &&& (j + 1 == s.len() || s[j + 1].0 != s[i as int].0)
                        &&& entry_out(r, s[j as int])
                    },
                    _ => false,
                }
            }),
    {
        proof {
            assert(tx.dbs()[self.dbi as int].wf());
        }
        let db = tx.db_ref(self.dbi);
        let i = match self.pos {
            CursorPos::At(i) => i,
            CursorPos::Unset => {
                return None;
            },
        };
        let mut j = i;
        while j + 1 < db.entries.len() && matches!(
            key_cmp(&db.flags, db.entries[j + 1].key.as_slice(), db.entries[i].key.as_slice()),
            crate::order::Cmp::Eq,
        )
            invariant
                txn_inv(*tx),
                self.dbi < tx.dbs().len(),
                db == tx.dbs()[self.dbi as int],
                i <= j < db@.len(),
                db@.len() == db.entries@.len(),
                db@[j as int].0 == db@[i as int].0,
            decreases db@.len() - j,
        {
            proof {
                assert(db@[j + 1] == db.entries@[j + 1]@);
                assert(db@[i as int] == db.entries@[i as int]@);
            }
            j = j + 1;
        }
        proof {
            if j + 1 < db.entries.len() {
                assert(db@[j + 1] == db.entries@[j + 1]@);
                assert(db@[i as int] == db.entries@[i as int]@);
            }
            assert(db@[j as int] == db.entries@[j as int]@);
        }
        self.pos = CursorPos::At(j);
        Some(
            (
                vstd::slice::slice_to_vec(db.entries[j].key.as_slice()),
                vstd::slice::slice_to_vec(db.entries[j].val.as_slice()),
            ),
        )
    }

    /// Steps to the next value of the current key, or reports that the
    /// current key has no further value.
    pub fn next_dup<TX: Transaction>(&mut self, tx: &TX) -> (r: Option<(Vec<u8>, Vec<u8>)>)
        requires
            txn_inv(*tx),
            old(self).valid(*tx),
            old(self).db_of(*tx).flags.dup_sort,
            old(self).pos is At,
        ensures
            final(self).dbi == old(self).dbi,
            final(self).valid(*tx),
            ({
                let s = old(self).db_of(*tx)@;
                match old(self).pos {
                    CursorPos::At(i) => if i + 1 < s.len() && s[i + 1].0 == s[i as int].0 {
                        final(self).pos == CursorPos::At((i + 1) as usize) && entry_out(
                            r,
                            s[i + 1],
                        )
                    } else {
                        r is None && final(self).pos == old(self).pos
                    },
                    CursorPos::Unset => false,
                }
            }),
    {
        proof {
            assert(tx.dbs()[self.dbi as int].wf());
        }
        let db = tx.db_ref(self.dbi);
        let i = match self.pos {
            CursorPos::At(i) => i,
            CursorPos::Unset => {
                return None;
            },
        };
        if i + 1 >= db.entries.len() {
            return None;
        }
        proof {
            assert(db@[i as int] == db.entries@[i as int]@);
            assert(db@[i + 1] == db.entries@[i + 1]@);
        }
        if !matches!(
            key_cmp(&db.flags, db.entries[i + 1].key.as_slice(), db.entries[i].key.as_slice()),
            crate::order::Cmp::Eq,
        ) {
            return None;
        }
        self.pos = CursorPos::At(i + 1);
        Some(
            (
                vstd::slice::slice_to_vec(db.entries[i + 1].key.as_slice()),
                vstd::slice::slice_to_vec(db.entries[i + 1].val.as_slice()),
            ),
        )
    }

    /// Steps to the previous value of the current key, or reports that the
    /// current key has no earlier value.
    pub fn prev_dup<TX: Transaction>(&mut self, tx: &TX) -> (r: Option<(Vec<u8>, Vec<u8>)>)
        requires
            txn_inv(*tx),
            old(self).valid(*tx),
            old(self).db_of(*tx).flags.dup_sort,
            old(self).pos is At,
        ensures
            final(self).dbi == old(self).dbi,
            final(self).valid(*tx),
            ({
                let s = old(self).db_of(*tx)@;
                match old(self).pos {
                    CursorPos::At(i) => if i >= 1 && s[i - 1].0 == s[i as int].0 {
                        final(self).pos == CursorPos::At((i - 1) as usize) && entry_out(
                            r,
                            s[i - 1],
                        )
                    } else {
                        r is None && final(self).pos == old(self).pos
                    },
                    CursorPos::Unset => false,
                }
            }),
    {
        proof {
            assert(tx.dbs()[self.dbi as int].wf());
        }
        let db = tx.db_ref(self.dbi);
        let i = match self.pos {
            CursorPos::At(i) => i,
            CursorPos::Unset => {
                return None;
            },
        };
        if i == 0 {
            return None;
        }
        proof {
            assert(db@[i as int] == db.entries@[i as int]@);
            assert(db@[i - 1] == db.entries@[i - 1]@);
        }
        if !matches!(
            key_cmp(&db.flags, db.entries[i - 1].key.as_slice(), db.entries[i].key.as_slice()),
            crate::order::Cmp::Eq,
        ) {
            return None;
        }
        self.pos = CursorPos::At(i - 1);
        Some(
            (
                vstd::slice::slice_to_vec(db.entries[i - 1].key.as_slice()),
                vstd::slice::slice_to_vec(db.entries[i - 1].val.as_slice()),
            ),
        )
    }

    /// Skips to the first value of the next distinct key, or reports that
    /// no later key exists.
    pub fn next_nodup<TX: Transaction>(&mut self, tx: &TX) -> (r: Option<(Vec<u8>, Vec<u8>)>)
        requires
            txn_inv(*tx),
            old(self).valid(*tx),
            old(self).db_of(*tx).flags.dup_sort,
            old(self).pos is At,
        ensures
            final(self).dbi == old(self).dbi,
            final(self).valid(*tx),
            ({
                let s = old(self).db_of(*tx)@;
                match old(self).pos {
                    CursorPos::At(i) => match r {
                        Some(p) => match final(self).pos {
                            CursorPos::At(j) => {
                                &&& i < j < s.len()
                                &&& s[j as int].0 != s[i as int].0
                                &&& forall|m: int|
                                    i < m < j ==> #[trigger] s[m].0 == s[i as int].0
                                &&& p.0@ == s[j as int].0 && p.1@ == s[j as int].1
                            },
                            CursorPos::Unset => false,
                        },
                        None => final(self).pos == old(self).pos && forall|m: int|
                            i < m < s.len() ==> #[trigger] s[m].0 == s[i as int].0,
                    },
                    CursorPos::Unset => false,
                }
            }),
    {
        proof {
            assert(tx.dbs()[self.dbi as int].wf());
        }
        let db = tx.db_ref(self.dbi);
        let i = match self.pos {
            CursorPos::At(i) => i,
            CursorPos::Unset => {
                return None;
            },
        };
        let mut j = i + 1;
        while j < db.entries.len() && matches!(
            key_cmp(&db.flags, db.entries[j].key.as_slice(), db.entries[i].key.as_slice()),
            crate::order::Cmp::Eq,
        )
            invariant
                txn_inv(*tx),
                self.dbi < tx.dbs().len(),
                db == tx.dbs()[self.dbi as int],
                i < db@.len(),
                i < j <= db@.len(),
                db@.len() == db.entries@.len(),
                forall|m: int| i < m < j ==> #[trigger] db@[m].0 == db@[i as int].0,
            decreases db@.len() - j,
        {
            proof {
                assert(db@[j as int] == db.entries@[j as int]@);
                assert(db@[i as int] == db.entries@[i as int]@);
            }
            j = j + 1;
        }
        if j >= db.entries.len() {
            return None;
        }
        proof {
            assert(db@[j as int] == db.entries@[j as int]@);
            assert(db@[i as int] == db.entries@[i as int]@);
        }
        self.pos = CursorPos::At(j);
        Some(
            (
                vstd::slice::slice_to_vec(db.entries[j].key.as_slice()),
                vstd::slice::slice_to_vec(db.entries[j].val.as_slice()),
            ),
        )
    }

    /// Skips to the last value of the previous distinct key, or reports
    /// that no earlier key exists.
    pub fn prev_nodup<TX: Transaction>(&mut self, tx: &TX) -> (r: Option<(Vec<u8>, Vec<u8>)>)
        requires
            txn_inv(*tx),
            old(self).valid(*tx),
            old(self).db_of(*tx).flags.dup_sort,
            old(self).pos is At,
        ensures
            final(self).dbi == old(self).dbi,
            final(self).valid(*tx),
            ({
                let s = old(self).db_of(*tx)@;
                match old(self).pos {
                    CursorPos::At(i) => match r {
                        Some(p) => match final(self).pos {
                            CursorPos::At(j) => {
                                &&& j < i
                                &&& s[j as int].0 != s[i as int].0
                                &&& forall|m: int|
                                    j < m <= i ==> #[trigger] s[m].0 == s[i as int].0
                                &&& p.0@ == s[j as int].0 && p.1@ == s[j as int].1
                            },
                            CursorPos::Unset => false,
                        },
                        None => final(self).pos == old(self).pos && forall|m: int|
                            0 <= m <= i ==> #[trigger] s[m].0 == s[i as int].0,
                    },
                    CursorPos::Unset => false,
                }
            }),
    {
        proof {
            assert(tx.dbs()[self.dbi as int].wf());
        }
        let db = tx.db_ref(self.dbi);
        let i = match self.pos {
            CursorPos::At(i) => i,
            CursorPos::Unset => {
                return None;
            },
        };
        let mut j = i;
        while j > 0 && matches!(
            key_cmp(&db.flags, db.entries[j - 1].key.as_slice(), db.entries[i].key.as_slice()),
            crate::order::Cmp::Eq,
        )
            invariant
                txn_inv(*tx),
                self.dbi < tx.dbs().len(),
                db == tx.dbs()[self.dbi as int],
                i < db@.len(),
                j <= i,
                db@.len() == db.entries@.len(),
                forall|m: int| j <= m <= i ==> #[trigger] db@[m].0 == db@[i as int].0,
            decreases j,
        {
            proof {
                assert(db@[j - 1] == db.entries@[j - 1]@);
                assert(db@[i as int] == db.entries@[i as int]@);
            }
            j = j - 1;
        }
        if j == 0 {
            return None;
        }
        proof {
            assert(db@[j - 1] == db.entries@[j - 1]@);
            assert(db@[i as int] == db.entries@[i as int]@);
        }
        self.pos = CursorPos::At(j - 1);
        Some(
            (
                vstd::slice::slice_to_vec(db.entries[j - 1].key.as_slice()),
                vstd::slice::slice_to_vec(db.entries[j - 1].val.as_slice()),
            ),
        )
    }

    /// Positions at the given key exactly, at its first value.
    pub fn seek<TX: Transaction>(&mut self, tx: &TX, key: &[u8]) -> (r: Option<(Vec<u8>, Vec<u8>)>)
        requires
            txn_inv(*tx),
            old(self).valid(*tx),
        ensures
            final(self).dbi == old(self).dbi,
            final(self).valid(*tx),
            ({
                let s = old(self).db_of(*tx)@;
                match r {
                    Some(p) => match final(self).pos {
                        CursorPos::At(j) => {
                            &&& j < s.len()
                            &&& s[j as int].0 == key@
                            &&& forall|m: int| 0 <= m < j ==> #[trigger] s[m].0 != key@
                            &&& p.0@ == s[j as int].0 && p.1@ == s[j as int].1
                        },
                        CursorPos::Unset => false,
                    },
                    None => final(self).pos == old(self).pos && !crate::store::key_present(
                        s,
                        key@,
                    ),
                }
            }),
    {
        proof {
            assert(tx.dbs()[self.dbi as int].wf());
        }
        let db = tx.db_ref(self.dbi);
        let lo = db.key_lower_bound(key);
        proof {
            if lo < db.entries.len() {
                assert(db@[lo as int] == db.entries@[lo as int]@);
            }
        }
        if lo >= db.entries.len() || !matches!(
            key_cmp(&db.flags, db.entries[lo].key.as_slice(), key),
            crate::order::Cmp::Eq,
        ) {
            proof {
                lemma_sorted_tail_misses(db.flags, db@, key@, lo as int);
            }
            return None;
        }
        proof {
            assert forall|m: int| 0 <= m < lo implies #[trigger] db@[m].0 != key@ by {
                lemma_key_lt_trichotomy(db.flags, db@[m].0, key@);
            }
        }
        self.pos = CursorPos::At(lo);
        Some(
            (
                vstd::slice::slice_to_vec(db.entries[lo].key.as_slice()),
                vstd::slice::slice_to_vec(db.entries[lo].val.as_slice()),
            ),
        )
    }

    /// Positions at the first entry whose key is at or past the given key.
    pub fn seek_range<TX: Transaction>(&mut self, tx: &TX, key: &[u8]) -> (r: Option<
        (Vec<u8>, Vec<u8>),
    >)
        requires
            txn_inv(*tx),
            old(self).valid(*tx),
        ensures
            final(self).dbi == old(self).dbi,
            final(self).valid(*tx),
            ({
                let s = old(self).db_of(*tx)@;
                let f = old(self).db_of(*tx).flags;
                match r {
                    Some(p) => match final(self).pos {
                        CursorPos::At(j) => {
                            &&& j < s.len()
                            &&& !key_lt(f, s[j as int].0, key@)
                            &&& forall|m: int| 0 <= m < j ==> key_lt(f, #[trigger] s[m].0, key@)
                            &&& p.0@ == s[j as int].0 && p.1@ == s[j as int].1
                        },
                        CursorPos::Unset => false,
                    },
                    None => final(self).pos == old(self).pos && forall|m: int|
                        0 <= m < s.len() ==> key_lt(f, #[trigger] s[m].0, key@),
                }
            }),
    {
        proof {
            assert(tx.dbs()[self.dbi as int].wf());
        }
        let db = tx.db_ref(self.dbi);
        let lo = db.key_lower_bound(key);
        if lo >= db.entries.len() {
            return None;
        }
        proof {
            assert(db@[lo as int] == db.entries@[lo as int]@);
        }
        self.pos = CursorPos::At(lo);
        Some(
            (
                vstd::slice::slice_to_vec(db.entries[lo].key.as_slice()),
                vstd::slice::slice_to_vec(db.entries[lo].val.as_slice()),
            ),
        )
    }

    /// Scans for the first entry of `key` whose value is at or past `val`:
    /// every earlier entry misses the key or holds a smaller value.
    fn pair_scan<TX: Transaction>(&self, tx: &TX, key: &[u8], val: &[u8]) -> (r: (bool, usize))
        requires
            txn_inv(*tx),
            self.valid(*tx),
            self.db_of(*tx).flags.dup_sort,
        ensures
            ({
                let s = self.db_of(*tx)@;
                let f = self.db_of(*tx).flags;
                &&& r.1 <= s.len()
                &&& forall|m: int|
                    0 <= m < r.1 ==> #[trigger] s[m].0 != key@ || crate::store::val_lt(
                        f,
                        s[m].1,
                        val@,
                    )
                &&& r.0 ==> r.1 < s.len() && s[r.1 as int].0 == key@ && !crate::store::val_lt(
                    f,
                    s[r.1 as int].1,
                    val@,
                )
                &&& !r.0 ==> forall|m: int|
                    0 <= m < s.len() ==> #[trigger] s[m].0 != key@ || crate::store::val_lt(
                        f,
                        s[m].1,
                        val@,
                    )
            }),
    {
        proof {
            assert(tx.dbs()[self.dbi as int].wf());
        }
        let db = tx.db_ref(self.dbi);
        let ghost s = db@;
        let ghost f = db.flags;
        let lo = db.key_lower_bound(key);
        let ghost flo = lo as int;
        let mut i = lo;
        while i < db.entries.len() && matches!(
            key_cmp(&db.flags, db.entries[i].key.as_slice(), key),
            crate::order::Cmp::Eq,
        ) && matches!(
            crate::store::val_cmp(&db.flags, db.entries[i].val.as_slice(), val),
            crate::order::Cmp::Lt,
        )
            invariant
                txn_inv(*tx),
                self.dbi < tx.dbs().len(),
                db == tx.dbs()[self.dbi as int],
                s == db@,
                f == db.flags,
                s.len() == db.entries@.len(),
                flo <= i <= s.len(),
                forall|j: int| 0 <= j < flo ==> key_lt(f, #[trigger] s[j].0, key@),
                flo < s.len() ==> !key_lt(f, s[flo].0, key@),
                forall|j: int| flo <= j < i ==> #[trigger] s[j].0 == key@,
                forall|j: int|
                    flo <= j < i ==> crate::store::val_lt(f, #[trigger] s[j].1, val@),
            decreases s.len() - i,
        {
            proof {
                assert(db@[i as int] == db.entries@[i as int]@);
            }
            i = i + 1;
        }
        proof {
            if i < db.entries.len() {
                assert(db@[i as int] == db.entries@[i as int]@);
            }
        }
        let found = i < db.entries.len() && matches!(
            key_cmp(&db.flags, db.entries[i].key.as_slice(), key),
            crate::order::Cmp::Eq,
        );
        proof {
            assert forall|m: int| 0 <= m < i implies #[trigger] s[m].0 != key@
                || crate::store::val_lt(f, s[m].1, val@) by {
                if m < flo {
                    lemma_key_lt_trichotomy(f, s[m].0, key@);
                }
            }
            if !found {
                assert forall|m: int| 0 <= m < s.len() implies #[trigger] s[m].0 != key@
                    || crate::store::val_lt(f, s[m].1, val@) by {
                    if m >= i && i < s.len() {
                        if i as int > flo {
                            assert(crate::store::entry_lt(f, s[i - 1], s[i as int]));
                        }
                        lemma_key_lt_trichotomy(f, s[i as int].0, key@);
                        lemma_key_lt_trichotomy(f, key@, s[i as int].0);
                        assert(key_lt(f, key@, s[i as int].0));
                        if m > i {
                            assert(crate::store::entry_lt(f, s[i as int], s[m]));
                            if s[m].0 != s[i as int].0 {
                                crate::store::lemma_key_lt_transitive(
                                    f,
                                    key@,
                                    s[i as int].0,
                                    s[m].0,
                                );
                            }
                        }
                        lemma_key_lt_trichotomy(f, key@, s[m].0);
                    }
                }
            }
        }
        (found, i)
    }

    /// Positions at an exact key/value pair of a duplicate-sorting
    /// database.
    pub fn get_both<TX: Transaction>(&mut self, tx: &TX, key: &[u8], val: &[u8]) -> (r: Option<
        (Vec<u8>, Vec<u8>),
    >)
        requires
            txn_inv(*tx),
            old(self).valid(*tx),
            old(self).db_of(*tx).flags.dup_sort,
        ensures
            final(self).dbi == old(self).dbi,
            final(self).valid(*tx),
            ({
                let s = old(self).db_of(*tx)@;
                match r {
                    Some(p) => match final(self).pos {
                        CursorPos::At(j) => j < s.len() && s[j as int] == (key@, val@) && p.0@
                            == key@ && p.1@ == val@,
                        CursorPos::Unset => false,
                    },
                    None => final(self).pos == old(self).pos && !crate::store::dup_vals(
                        s,
                        key@,
                    ).contains(val@),
                }
            }),
    {
        let (found, j) = self.pair_scan(tx, key, val);
        proof {
            assert(tx.dbs()[self.dbi as int].wf());
        }
        let db = tx.db_ref(self.dbi);
        let ghost s = db@;
        let ghost f = db.flags;
        if !found {
            proof {
                crate::store::lemma_dup_vals_contains(s, key@, val@);
                assert forall|m: int| 0 <= m < s.len() implies s[m] != (key@, val@) by {
                    crate::store::lemma_val_lt_trichotomy(f, s[m].1, val@);
                }
            }
            return None;
        }
        proof {
            assert(db@[j as int] == db.entries@[j as int]@);
        }
        if !matches!(
            crate::store::val_cmp(&db.flags, db.entries[j].val.as_slice(), val),
            crate::order::Cmp::Eq,
        ) {
            proof {
                crate::store::lemma_dup_vals_contains(s, key@, val@);
                assert forall|m: int| 0 <= m < s.len() implies s[m] != (key@, val@) by {
                    if m < j {
                        crate::store::lemma_val_lt_trichotomy(f, s[m].1, val@);
                    } else if m > j {
                        assert(crate::store::entry_lt(f, s[j as int], s[m]));
                        lemma_key_lt_trichotomy(f, s[j as int].0, key@);
                        crate::store::lemma_val_lt_trichotomy(f, s[j as int].1, val@);
                    }
                }
            }
            return None;
        }
        self.pos = CursorPos::At(j);
        proof {
            crate::store::lemma_dup_vals_contains(db@, key@, val@);
        }
        Some(
            (
                vstd::slice::slice_to_vec(db.entries[j].key.as_slice()),
                vstd::slice::slice_to_vec(db.entries[j].val.as_slice()),
            ),
        )
    }

    /// Positions at the given key, at its first value at or past the given
    /// value.
    pub fn get_both_range<TX: Transaction>(&mut self, tx: &TX, key: &[u8], val: &[u8]) -> (r:
        Option<(Vec<u8>, Vec<u8>)>)
        requires
            txn_inv(*tx),
            old(self).valid(*tx),
            old(self).db_of(*tx).flags.dup_sort,
        ensures
            final(self).dbi == old(self).dbi,
            final(self).valid(*tx),
            ({
                let s = old(self).db_of(*tx)@;
                let f = old(self).db_of(*tx).flags;
                match r {
                    Some(p) => match final(self).pos {
                        CursorPos::At(j) => {
                            &&& j < s.len()
                            &&& s[j as int].0 == key@
                            &&& !crate::store::val_lt(f, s[j as int].1, val@)
                            &&& forall|m: int|
                                0 <= m < j ==> #[trigger] s[m].0 != key@ || crate::store::val_lt(
                                    f,
                                    s[m].1,
                                    val@,
                                )
                            &&& p.0@ == s[j as int].0 && p.1@ == s[j as int].1
                        },
                        CursorPos::Unset => false,
                    },
                    None => final(self).pos == old(self).pos && forall|m: int|
                        0 <= m < s.len() ==> #[trigger] s[m].0 != key@ || crate::store::val_lt(
                            f,
                            s[m].1,
                            val@,
                        ),
                }
            }),
    {
        let (found, j) = self.pair_scan(tx, key, val);
        if !found {
            return None;
        }
        proof {
            assert(tx.dbs()[self.dbi as int].wf());
            let db = self.db_of(*tx);
            assert(db@[j as int] == db.entries@[j as int]@);
        }
        let db = tx.db_ref(self.dbi);
        self.pos = CursorPos::At(j);
        Some(
            (
                vstd::slice::slice_to_vec(db.entries[j].key.as_slice()),
                vstd::slice::slice_to_vec(db.entries[j].val.as_slice()),
            ),
        )
    }

    /// Returns the page of duplicate values of the current key from the
    /// current position to the end of its run, moving there; for
    /// fixed-size-duplicate databases, where the caller can split the page.
    pub fn get_multiple<TX: Transaction>(&mut self, tx: &TX) -> (r: Option<(Vec<u8>, Vec<u8>)>)
        requires
            txn_inv(*tx),
            old(self).valid(*tx),
            old(self).db_of(*tx).flags.dup_sort,
            old(self).db_of(*tx).flags.dup_fixed,
            old(self).pos is At,
        ensures
            final(self).dbi == old(self).dbi,
            final(self).valid(*tx),
            cursor_op_post(
                CursorOpFlags::GetMultiple,
                old(self).db_of(*tx)@,
                old(self).pos,
                final(self).pos,
                r,
            ),
    {
        proof {
            assert(tx.dbs()[self.dbi as int].wf());
        }
        let db = tx.db_ref(self.dbi);
        let i = match self.pos {
            CursorPos::At(i) => i,
            CursorPos::Unset => {
                return None;
            },
        };
        let (page, j) = collect_run(db, i);
        self.pos = CursorPos::At(j);
        proof {
            assert(db@[i as int] == db.entries@[i as int]@);
        }
        Some((vstd::slice::slice_to_vec(db.entries[i].key.as_slice()), page))
    }

    /// Returns the page of duplicate values following the current position
    /// within the current key, or reports that the key's run is exhausted.
    pub fn next_multiple<TX: Transaction>(&mut self, tx: &TX) -> (r: Option<(Vec<u8>, Vec<u8>)>)
        requires
            txn_inv(*tx),
            old(self).valid(*tx),
            old(self).db_of(*tx).flags.dup_sort,
            old(self).db_of(*tx).flags.dup_fixed,
            old(self).pos is At,
        ensures
            final(self).dbi == old(self).dbi,
            final(self).valid(*tx),
            cursor_op_post(
                CursorOpFlags::NextMultiple,
                old(self).db_of(*tx)@,
                old(self).pos,
                final(self).pos,
                r,
            ),
    {
        proof {
            assert(tx.dbs()[self.dbi as int].wf());
        }
        let db = tx.db_ref(self.dbi);
        let i = match self.pos {
            CursorPos::At(i) => i,
            CursorPos::Unset => {
                return None;
            },
        };
        if i + 1 >= db.entries.len() {
            return None;
        }
        proof {
            assert(db@[i as int] == db.entries@[i as int]@);
            assert(db@[i + 1] == db.entries@[i + 1]@);
        }
        if !matches!(
            key_cmp(&db.flags, db.entries[i + 1].key.as_slice(), db.entries[i].key.as_slice()),
            crate::order::Cmp::Eq,
        ) {
            return None;
        }
        let (page, j) = collect_run(db, i + 1);
        self.pos = CursorPos::At(j);
        Some((vstd::slice::slice_to_vec(db.entries[i].key.as_slice()), page))
    }

    /// Performs one keyless positioning operator, chosen by flag. The
    /// duplicate-aware operators are only legal on a duplicate-sorting
    /// database, and the current-position operators need a set position.
    pub fn get<TX: Transaction>(&mut self, tx: &TX, flags: CursorOpFlags) -> (r: Option<
        (Vec<u8>, Vec<u8>),
    >)
        requires
            txn_inv(*tx),
            old(self).valid(*tx),
            flags.spec_allowed(old(self).db_of(*tx).flags),
            matches!(
                flags,
                CursorOpFlags::GetCurrent
                | CursorOpFlags::First
                | CursorOpFlags::Last
                | CursorOpFlags::Next
                | CursorOpFlags::Prev
                | CursorOpFlags::FirstDup
                | CursorOpFlags::LastDup
                | CursorOpFlags::NextDup
                | CursorOpFlags::NextNodup
                | CursorOpFlags::PrevDup
                | CursorOpFlags::PrevNodup
                | CursorOpFlags::GetMultiple
                | CursorOpFlags::NextMultiple
            ),
            matches!(
                flags,
                CursorOpFlags::GetCurrent
                | CursorOpFlags::FirstDup
                | CursorOpFlags::LastDup
                | CursorOpFlags::NextDup
                | CursorOpFlags::NextNodup
                | CursorOpFlags::PrevDup
                | CursorOpFlags::PrevNodup
                | CursorOpFlags::GetMultiple
                | CursorOpFlags::NextMultiple
            ) ==> old(self).pos is At,
        ensures
            final(self).dbi == old(self).dbi,
            final(self).valid(*tx),
            cursor_op_post(flags, old(self).db_of(*tx)@, old(self).pos, final(self).pos, r),
    {
        match flags {
            CursorOpFlags::GetCurrent => self.get_current(tx),
            CursorOpFlags::First => self.first(tx),
            CursorOpFlags::Last => self.last(tx),
            CursorOpFlags::Next => self.next(tx),
            CursorOpFlags::Prev => self.prev(tx),
            CursorOpFlags::FirstDup => self.first_dup(tx),
            CursorOpFlags::LastDup => self.last_dup(tx),
            CursorOpFlags::NextDup => self.next_dup(tx),
            CursorOpFlags::NextNodup => self.next_nodup(tx),
            CursorOpFlags::PrevDup => self.prev_dup(tx),
            CursorOpFlags::PrevNodup => self.prev_nodup(tx),
            CursorOpFlags::GetMultiple => self.get_multiple(tx),
            CursorOpFlags::NextMultiple => self.next_multiple(tx),
            _ => None,
        }
    }

    /// Performs one key-directed positioning operator: at the key exactly,
    /// or at the first key at or past it.
    pub fn get_with_key<TX: Transaction>(
        &mut self,
        tx: &TX,
        key_in: &[u8],
        flags: CursorOpFlags,
    ) -> (r: Option<(Vec<u8>, Vec<u8>)>)
        requires
            txn_inv(*tx),
            old(self).valid(*tx),
            matches!(
                flags,
                CursorOpFlags::SetExact | CursorOpFlags::SetKey | CursorOpFlags::SetRange
            ),
        ensures
            final(self).dbi == old(self).dbi,
            final(self).valid(*tx),
            ({
                let s = old(self).db_of(*tx)@;
                let f = old(self).db_of(*tx).flags;
                match flags {
                    CursorOpFlags::SetExact | CursorOpFlags::SetKey => match r {
                        Some(p) => match final(self).pos {
                            CursorPos::At(j) => {
                                &&& j < s.len()
                                &&& s[j as int].0 == key_in@
                                &&& forall|m: int| 0 <= m < j ==> #[trigger] s[m].0 != key_in@
                                &&& p.0@ == s[j as int].0 && p.1@ == s[j as int].1
                            },
                            CursorPos::Unset => false,
                        },
                        None => final(self).pos == old(self).pos && !crate::store::key_present(
                            s,
                            key_in@,
                        ),
                    },
                    CursorOpFlags::SetRange => match r {
                        Some(p) => match final(self).pos {
                            CursorPos::At(j) => {
                                &&& j < s.len()
                                &&& !key_lt(f, s[j as int].0, key_in@)
                                &&& forall|m: int|
                                    0 <= m < j ==> key_lt(f, #[trigger] s[m].0, key_in@)
                                &&& p.0@ == s[j as int].0 && p.1@ == s[j as int].1
                            },
                            CursorPos::Unset => false,
                        },
                        None => final(self).pos == old(self).pos && forall|m: int|
                            0 <= m < s.len() ==> key_lt(f, #[trigger] s[m].0, key_in@),
                    },
                    _ => true,
                }
            }),
    {
        match flags {
            CursorOpFlags::SetRange => self.seek_range(tx, key_in),
            _ => self.seek(tx, key_in),
        }
    }

    /// As `get`, on a database whose keys are eight-byte encoded integers:
    /// the returned key comes pre-decoded.
    pub fn get_with_u64_key<TX: Transaction>(&mut self, tx: &TX, flags: CursorOpFlags) -> (r:
        Option<(u64, Vec<u8>)>)
        requires
            txn_inv(*tx),
            old(self).valid(*tx),
            old(self).db_of(*tx).flags.integer_key,
            forall|m: int|
                0 <= m < old(self).db_of(*tx)@.len() ==> (#[trigger] old(self).db_of(
                    *tx,
                )@[m].0).len() == 8,
            matches!(
                flags,
                CursorOpFlags::GetCurrent
                | CursorOpFlags::First
                | CursorOpFlags::Last
                | CursorOpFlags::Next
                | CursorOpFlags::Prev
            ),
            flags is GetCurrent ==> old(self).pos is At,
        ensures
            final(self).dbi == old(self).dbi,
            final(self).valid(*tx),
            cursor_op_u64_post(flags, old(self).db_of(*tx)@, old(self).pos, final(self).pos, r),
    {
        let inner = self.get(tx, flags);
        match inner {
            None => None,
            Some(p) => {
                let (kb, vb) = p;
                let k = u64_from_be(kb.as_slice());
                Some((k, vb))
            },
        }
    }
}

/// Appends the bytes of `src` to `dst`.
fn append_bytes(dst: &mut Vec<u8>, src: &[u8])
    ensures
        final(dst)@ == old(dst)@ + src@,
{
    let mut i: usize = 0;
    while i < src.len()
        invariant
            i <= src@.len(),
            dst@ == old(dst)@ + src@.take(i as int),
        decreases src@.len() - i,
    {
        let b = src[i];
        dst.push(b);
        proof {
            assert(old(dst)@ + src@.take(i + 1) =~= (old(dst)@ + src@.take(i as int)).push(
                src@[i as int],
            ));
        }
        i = i + 1;
    }
    proof {
        assert(src@.take(src@.len() as int) =~= src@);
    }
}

/// Walks from `start` to the end of its key's run, concatenating the
/// values on the way into one page.
fn collect_run(db: &Database, start: usize) -> (r: (Vec<u8>, usize))
    requires
        db.wf(),
        start < db@.len(),
    ensures
        start <= r.1 < db@.len(),
        db@[r.1 as int].0 == db@[start as int].0,
        r.1 + 1 == db@.len() || db@[r.1 + 1].0 != db@[start as int].0,
        r.0@ == vals_concat(db@, start as int, r.1 + 1),
{
    proof {
        assert(db@[start as int] == db.entries@[start as int]@);
    }
    let mut page: Vec<u8> = Vec::new();
    append_bytes(&mut page, db.entries[start].val.as_slice());
    proof {
        assert(vals_concat(db@, start + 1, start + 1) == Seq::<u8>::empty());
        assert(vals_concat(db@, start as int, start + 1) == db@[start as int].1 + vals_concat(
            db@,
            start + 1,
            start + 1,
        ));
        assert(Seq::<u8>::empty() + db@[start as int].1 =~= db@[start as int].1);
        assert(db@[start as int].1 + Seq::<u8>::empty() =~= db@[start as int].1);
    }
    let mut j = start;
    while j + 1 < db.entries.len() && matches!(
        key_cmp(&db.flags, db.entries[j + 1].key.as_slice(), db.entries[start].key.as_slice()),
        crate::order::Cmp::Eq,
    )
        invariant
            db.wf(),
            start <= j < db@.len(),
            db@.len() == db.entries@.len(),
            db@[j as int].0 == db@[start as int].0,
            page@ == vals_concat(db@, start as int, j + 1),
        decreases db@.len() - j,
    {
        proof {
            assert(db@[j + 1] == db.entries@[j + 1]@);
            assert(db@[start as int] == db.entries@[start as int]@);
        }
        append_bytes(&mut page, db.entries[j + 1].val.as_slice());
        proof {
            lemma_vals_concat_snoc(db@, start as int, j + 1);
        }
        j = j + 1;
    }
    proof {
        if j + 1 < db.entries.len() {
            assert(db@[j + 1] == db.entries@[j + 1]@);
            assert(db@[start as int] == db.entries@[start as int]@);
        }
    }
    (page, j)
}

/// As `cursor_op_post`, with the entry key handed back as the integer its
/// eight bytes encode.
pub open spec fn cursor_op_u64_post(
    op: CursorOpFlags,
    s: Seq<(Seq<u8>, Seq<u8>)>,
    p0: CursorPos,
    p1: CursorPos,
    r: Option<(u64, Vec<u8>)>,
) -> bool {
    match op {
        CursorOpFlags::GetCurrent => p1 == p0 && match p0 {
            CursorPos::At(i) => entry_out_u64(r, s[i as int]),
            CursorPos::Unset => false,
        },
        CursorOpFlags::First => if s.len() > 0 {
            p1 == CursorPos::At(0usize) && entry_out_u64(r, s[0])
        } else {
            r is None && p1 == p0
        },
        CursorOpFlags::Last => if s.len() > 0 {
            p1 == CursorPos::At((s.len() - 1) as usize) && entry_out_u64(r, s.last())
        } else {
            r is None && p1 == p0
        },
        CursorOpFlags::Next => match p0 {
            CursorPos::Unset => if s.len() > 0 {
                p1 == CursorPos::At(0usize) && entry_out_u64(r, s[0])
            } else {
                r is None && p1 == p0
            },
            CursorPos::At(i) => if i + 1 < s.len() {
                p1 == CursorPos::At((i + 1) as usize) && entry_out_u64(r, s[i + 1])
            } else {
                r is None && p1 == p0
            },
        },
        CursorOpFlags::Prev => match p0 {
            CursorPos::Unset => if s.len() > 0 {
                p1 == CursorPos::At((s.len() - 1) as usize) && entry_out_u64(r, s.last())
            } else {
                r is None && p1 == p0
            },
            CursorPos::At(i) => if i >= 1 {
                p1 == CursorPos::At((i - 1) as usize) && entry_out_u64(r, s[i - 1])
            } else {
                r is None && p1 == p0
            },
        },
        _ => false,
    }
}

/// What the integer fast path hands back for one entry.
pub open spec fn entry_out_u64(r: Option<(u64, Vec<u8>)>, e: (Seq<u8>, Seq<u8>)) -> bool {
    match r {
        Some(p) => u64_be_bytes(p.0) == e.0 && p.1@ == e.1,
        None => false,
    }
}

} // verus!
