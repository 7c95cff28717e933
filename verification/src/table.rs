//! The typed table: integer keys bound to archived string values. Keys are
//! encoded so their byte order is their numeric order; values go through
//! the archival codec, whose encoding is validated again on every read.

use vstd::prelude::*;

use crate::codec::{u64_be_bytes, u64_to_be};
use crate::error::Error;
use crate::flags::PutFlagSet;
use crate::store::{dup_vals, key_present, no_overwrite_hit, put_err, spec_get};
use crate::txn::{txn_inv, RwTxn, Transaction};

verus! {

/// The bytes the archival codec produces for a string; they depend on the
/// string alone.
pub uninterp spec fn archived_string(v: Seq<char>) -> Seq<u8>;

/// The string a byte slice decodes to, or nothing when the bytes are not a
/// well-formed archived string; it depends on the bytes alone.
pub uninterp spec fn string_of_archived(b: Seq<u8>) -> Option<Seq<char>>;

/// The encoded size of one character in UTF-8.
pub open spec fn char_utf8_len(c: char) -> int {
    if (c as u32) < 0x80 {
        1
    } else if (c as u32) < 0x800 {
        2
    } else if (c as u32) < 0x10000 {
        3
    } else {
        4
    }
}

/// The UTF-8 byte length of a string: what the archival format measures
/// a string by.
pub open spec fn utf8_len(s: Seq<char>) -> int
    decreases s.len(),
{
    if s.len() == 0 {
        0
    } else {
        char_utf8_len(s[0]) + utf8_len(s.skip(1))
    }
}

/// The longest string the archival format can carry, measured in UTF-8
/// bytes: its out-of-line representation records the byte length in 32
/// bits, two of which tag the representation.
pub open spec fn max_archived_string_bytes() -> int {
    0x3fff_ffff
}

/// The flag set of a plain typed put: no modes chosen.
pub open spec fn plain_put_flags() -> PutFlagSet {
    PutFlagSet {
        no_dup_data: false,
        no_overwrite: false,
        reserve: false,
        append: false,
        append_dup: false,
    }
}

/// The flag set of a no-overwrite typed put.
pub open spec fn no_overwrite_put_flags() -> PutFlagSet {
    PutFlagSet {
        no_dup_data: false,
        no_overwrite: true,
        reserve: false,
        append: false,
        append_dup: false,
    }
}

/// The flag set of a no-overwrite put that refuses duplicate data too.
pub open spec fn no_overwrite_no_dup_flags() -> PutFlagSet {
    PutFlagSet {
        no_dup_data: true,
        no_overwrite: true,
        reserve: false,
        append: false,
        append_dup: false,
    }
}

/// Relies on rkyv::to_bytes: serializing a string of representable size
/// succeeds, its archived bytes depend on the string alone, and
/// rkyv::from_bytes decodes them back to an equal string. Strings whose
/// UTF-8 byte length is past the format's capacity are excluded by the
/// precondition: the format could not record their length, and the call
/// reports the overlong string as an error instead.
#[verifier::external_body]
fn rkyv_encode_string(v: &String) -> (r: Vec<u8>)
    requires
        utf8_len(v@) <= max_archived_string_bytes(),
    ensures
        r@ == archived_string(v@),
        string_of_archived(r@) == Some(v@),
{
    rkyv::to_bytes::<rkyv::rancor::Error>(v).unwrap().into_vec()
}

/// Relies on rkyv::from_bytes: validation and decoding of an archived
/// string depend on the bytes alone; ill-formed bytes are rejected. The
/// bytes are copied into an aligned buffer first, so the outcome does not
/// depend on where the caller's slice happens to sit in memory.
#[verifier::external_body]
fn rkyv_decode_string(b: &[u8]) -> (r: Option<String>)
    ensures
        match r {
            Some(s) => string_of_archived(b@) == Some(s@),
            None => string_of_archived(b@) is None,
        },
{
    let mut av = rkyv::util::AlignedVec::<16>::new();
    av.extend_from_slice(b);
    rkyv::api::high::from_bytes::<String, rkyv::rancor::Error>(av.as_slice()).ok()
}

/// Byte-slice access to a stored value, as the engine's raw value type
/// offers it.
pub trait MdbValExt {
    /// The bytes behind the value.
    spec fn byte_view(&self) -> Seq<u8>;

    fn as_slice(&self) -> (r: &[u8])
        ensures
            r@ == self.byte_view(),
    ;
}

/// A validated archived value: the stored bytes of one lookup, known to
/// decode as a well-formed string, copied out of the store so they cannot
/// outlive it.
pub struct ArchivedVal {
    pub bytes: Vec<u8>,
}

impl ArchivedVal {
    /// The bytes always hold a well-formed archived string.
    pub open spec fn wf(self) -> bool {
        string_of_archived(self.bytes@) is Some
    }

    /// Decodes the owned value out of the view.
    pub fn deserialize(&self) -> (r: Option<String>)
        ensures
            match r {
                Some(s) => string_of_archived(self.bytes@) == Some(s@),
                None => string_of_archived(self.bytes@) is None,
            },
            self.wf() ==> r is Some,
    {
        rkyv_decode_string(self.bytes.as_slice())
    }
}

impl MdbValExt for ArchivedVal {
    open spec fn byte_view(&self) -> Seq<u8> {
        self.bytes@
    }

    fn as_slice(&self) -> &[u8] {
        self.bytes.as_slice()
    }
}

/// A typed table: a handle onto one database of a transaction, keyed by
/// integers, holding archived strings.
pub struct AssocPolyTable {
    pub dbi: usize,
}

/// What a typed put of `value` under `key` does to the table's database:
/// the outcome of the byte-level put of the encoded pair under `pf`.
pub open spec fn typed_put_err(db: crate::store::Database, key: u64, v: Seq<char>, pf: PutFlagSet) -> Option<
    Error,
> {
    put_err(db.flags, db.cap as int, db@, u64_be_bytes(key), archived_string(v), pf)
}

impl AssocPolyTable {
    /// Binds a table handle to a database identifier.
    pub fn build(dbi: usize) -> (r: AssocPolyTable)
        ensures
            r.dbi == dbi,
    {
        AssocPolyTable { dbi }
    }

    /// The database identifier this table addresses.
    pub fn dbi(&self) -> (r: usize)
        ensures
            r == self.dbi,
    {
        self.dbi
    }

    /// Stores `value` under `key` with the put flags `pf`: this fails
    /// exactly when the database identifier is unknown or the byte-level
    /// put reports a failure, with that failure, and otherwise updates the
    /// database as the byte-level put does.
    fn put_with(&self, tx: &mut RwTxn, key: u64, value: &String, pf: &PutFlagSet) -> (r: Result<
        (),
        Error,
    >)
        requires
            txn_inv(*old(tx)),
            utf8_len(value@) <= max_archived_string_bytes(),
        ensures
            txn_inv(*final(tx)),
            final(tx).dbs@.len() == old(tx).dbs@.len(),
            forall|j: int|
                0 <= j < old(tx).dbs@.len() && j != self.dbi ==> #[trigger] final(tx).dbs@[j]
                    == old(tx).dbs@[j],
            string_of_archived(archived_string(value@)) == Some(value@),
            match r {
                Err(e) => final(tx).dbs@ == old(tx).dbs@ && ((e == Error::InvalidArgument
                    && self.dbi >= old(tx).dbs@.len()) || (self.dbi < old(tx).dbs@.len() && Some(e)
                    == typed_put_err(old(tx).dbs@[self.dbi as int], key, value@, *pf))),
                Ok(u) => self.dbi < old(tx).dbs@.len() && typed_put_err(
                    old(tx).dbs@[self.dbi as int],
                    key,
                    value@,
                    *pf,
                ) is None && ({
                    let db0 = old(tx).dbs@[self.dbi as int];
                    let db1 = final(tx).dbs@[self.dbi as int];
                    let kb = u64_be_bytes(key);
                    let av = archived_string(value@);
                    &&& db1.flags == db0.flags
                    &&& db1.cap == db0.cap
                    &&& ({
                        if db0.flags.dup_sort {
                            if dup_vals(db0@, kb).contains(av) {
                                db1@ == db0@
                            } else {
                                &&& dup_vals(db1@, kb).to_multiset() == dup_vals(
                                    db0@,
                                    kb,
                                ).to_multiset().insert(av)
                                &&& db1@.len() == db0@.len() + 1
                                &&& forall|k2: Seq<u8>|
                                    k2 != kb ==> #[trigger] dup_vals(db1@, k2) == dup_vals(
                                        db0@,
                                        k2,
                                    )
                            }
                        } else {
                            &&& dup_vals(db1@, kb) == seq![av]
                            &&& spec_get(db1@, kb) == Some(av)
                            &&& forall|k2: Seq<u8>|
                                k2 != kb ==> #[trigger] dup_vals(db1@, k2) == dup_vals(db0@, k2)
                        }
                    })
                }),
            },
    {
        let vb = rkyv_encode_string(value);
        let kb = u64_to_be(key);
        let r = tx.put(self.dbi, kb.as_slice(), vb.as_slice(), pf);
        r
    }

    /// Stores `value` under `key`: overwrites a present key in a database
    /// without duplicate support, enters a new duplicate with it. Succeeds
    /// exactly when the database identifier is known and the byte-level put
    /// accepts the encoded pair.
    pub fn put(&self, tx: &mut RwTxn, key: u64, value: &String) -> (r: Result<(), Error>)
        requires
            txn_inv(*old(tx)),
            utf8_len(value@) <= max_archived_string_bytes(),
        ensures
            txn_inv(*final(tx)),
            final(tx).dbs@.len() == old(tx).dbs@.len(),
            forall|j: int|
                0 <= j < old(tx).dbs@.len() && j != self.dbi ==> #[trigger] final(tx).dbs@[j]
                    == old(tx).dbs@[j],
            string_of_archived(archived_string(value@)) == Some(value@),
            match r {
                Err(e) => final(tx).dbs@ == old(tx).dbs@ && ((e == Error::InvalidArgument
                    && self.dbi >= old(tx).dbs@.len()) || (self.dbi < old(tx).dbs@.len() && Some(e)
                    == typed_put_err(
                    old(tx).dbs@[self.dbi as int],
                    key,
                    value@,
                    plain_put_flags(),
                ))),
                Ok(u) => self.dbi < old(tx).dbs@.len() && typed_put_err(
                    old(tx).dbs@[self.dbi as int],
                    key,
                    value@,
                    plain_put_flags(),
                ) is None && ({
                    let db0 = old(tx).dbs@[self.dbi as int];
                    let db1 = final(tx).dbs@[self.dbi as int];
                    let kb = u64_be_bytes(key);
                    let av = archived_string(value@);
                    &&& db1.flags == db0.flags
                    &&& db1.cap == db0.cap
                    &&& (!db0.flags.dup_sort ==> spec_get(db1@, kb) == Some(av) && dup_vals(
                        db1@,
                        kb,
                    ) == seq![av])
                    &&& (db0.flags.dup_sort && !dup_vals(db0@, kb).contains(av) ==> dup_vals(
                        db1@,
                        kb,
                    ).to_multiset() == dup_vals(db0@, kb).to_multiset().insert(av))
                    &&& (db0.flags.dup_sort && dup_vals(db0@, kb).contains(av) ==> db1@ == db0@)
                    &&& forall|k2: Seq<u8>|
                        k2 != kb ==> #[trigger] dup_vals(db1@, k2) == dup_vals(db0@, k2)
                }),
            },
    {
        let pf = PutFlagSet {
            no_dup_data: false,
            no_overwrite: false,
            reserve: false,
            append: false,
            append_dup: false,
        };
        self.put_with(tx, key, value, &pf)
    }

    /// As `put`, but refusing to overwrite: a present key fails with the
    /// key-exists condition — except that a duplicate-supporting database
    /// still accepts a distinct value under a present key as a new
    /// duplicate, refusing only the exact pair.
    pub fn put_no_overwrite(&self, tx: &mut RwTxn, key: u64, value: &String) -> (r: Result<
        (),
        Error,
    >)
        requires
            txn_inv(*old(tx)),
            utf8_len(value@) <= max_archived_string_bytes(),
        ensures
            txn_inv(*final(tx)),
            final(tx).dbs@.len() == old(tx).dbs@.len(),
            forall|j: int|
                0 <= j < old(tx).dbs@.len() && j != self.dbi ==> #[trigger] final(tx).dbs@[j]
                    == old(tx).dbs@[j],
            string_of_archived(archived_string(value@)) == Some(value@),
            match r {
                Err(e) => final(tx).dbs@ == old(tx).dbs@ && ((e == Error::InvalidArgument
                    && self.dbi >= old(tx).dbs@.len()) || (self.dbi < old(tx).dbs@.len() && Some(e)
                    == typed_put_err(
                    old(tx).dbs@[self.dbi as int],
                    key,
                    value@,
                    no_overwrite_put_flags(),
                ))),
                Ok(u) => self.dbi < old(tx).dbs@.len() && typed_put_err(
                    old(tx).dbs@[self.dbi as int],
                    key,
                    value@,
                    no_overwrite_put_flags(),
                ) is None && !no_overwrite_hit(
                    old(tx).dbs@[self.dbi as int].flags,
                    no_overwrite_put_flags(),
                    old(tx).dbs@[self.dbi as int]@,
                    u64_be_bytes(key),
                    archived_string(value@),
                ) && ({
                    let db0 = old(tx).dbs@[self.dbi as int];
                    let db1 = final(tx).dbs@[self.dbi as int];
                    let kb = u64_be_bytes(key);
                    let av = archived_string(value@);
                    &&& db1.flags == db0.flags
                    &&& db1.cap == db0.cap
                    &&& (!db0.flags.dup_sort ==> spec_get(db1@, kb) == Some(av) && dup_vals(
                        db1@,
                        kb,
                    ) == seq![av])
                    &&& (db0.flags.dup_sort ==> dup_vals(db1@, kb).to_multiset() == dup_vals(
                        db0@,
                        kb,
                    ).to_multiset().insert(av))
                    &&& forall|k2: Seq<u8>|
                        k2 != kb ==> #[trigger] dup_vals(db1@, k2) == dup_vals(db0@, k2)
                }),
            },
    {
        let pf = PutFlagSet {
            no_dup_data: false,
            no_overwrite: true,
            reserve: false,
            append: false,
            append_dup: false,
        };
        self.put_with(tx, key, value, &pf)
    }

    /// Removes `key` and reports whether it was present.
    pub fn delete(&self, tx: &mut RwTxn, key: u64) -> (r: Result<bool, Error>)
        requires
            txn_inv(*old(tx)),
        ensures
            txn_inv(*final(tx)),
            final(tx).dbs@.len() == old(tx).dbs@.len(),
            forall|j: int|
                0 <= j < old(tx).dbs@.len() && j != self.dbi ==> #[trigger] final(tx).dbs@[j]
                    == old(tx).dbs@[j],
            match r {
                Err(e) => e == Error::InvalidArgument && self.dbi >= old(tx).dbs@.len() && final(tx).dbs@ == old(tx).dbs@,
                Ok(hit) => self.dbi < old(tx).dbs@.len() && ({
                    let db0 = old(tx).dbs@[self.dbi as int];
                    let db1 = final(tx).dbs@[self.dbi as int];
                    &&& db1.flags == db0.flags
                    &&& db1.cap == db0.cap
                    &&& hit == key_present(db0@, u64_be_bytes(key))
                    &&& !key_present(db1@, u64_be_bytes(key))
                    &&& forall|k2: Seq<u8>|
                        k2 != u64_be_bytes(key) ==> #[trigger] dup_vals(db1@, k2) == dup_vals(
                            db0@,
                            k2,
                        )
                }),
            },
    {
        let kb = u64_to_be(key);
        tx.del(self.dbi, kb.as_slice())
    }

    /// Removes every entry of the table's database.
    pub fn clear(&self, tx: &mut RwTxn) -> (r: Result<(), Error>)
        requires
            txn_inv(*old(tx)),
        ensures
            txn_inv(*final(tx)),
            final(tx).dbs@.len() == old(tx).dbs@.len(),
            forall|j: int|
                0 <= j < old(tx).dbs@.len() && j != self.dbi ==> #[trigger] final(tx).dbs@[j]
                    == old(tx).dbs@[j],
            match r {
                Err(e) => e == Error::InvalidArgument && self.dbi >= old(tx).dbs@.len() && final(tx).dbs@ == old(tx).dbs@,
                Ok(u) => self.dbi < old(tx).dbs@.len() && ({
                    let db0 = old(tx).dbs@[self.dbi as int];
                    let db1 = final(tx).dbs@[self.dbi as int];
                    &&& db1.flags == db0.flags
                    &&& db1.cap == db0.cap
                    &&& db1@ == Seq::<(Seq<u8>, Seq<u8>)>::empty()
                }),
            },
    {
        tx.clear(self.dbi)
    }

    /// A typed point lookup: the validated archived view of the value
    /// stored under `key`, or nothing when the key is absent. Stored bytes
    /// that fail validation are a corruption, never an absence.
    pub fn get<TX: Transaction>(&self, tx: &TX, key: u64) -> (r: Result<Option<ArchivedVal>, Error>)
        requires
            txn_inv(*tx),
        ensures
            match r {
                Ok(v) => self.dbi < tx.dbs().len() && (match v {
                    Some(av) => av.wf() && spec_get(tx.dbs()[self.dbi as int]@, u64_be_bytes(key))
                        == Some(av.bytes@),
                    None => spec_get(tx.dbs()[self.dbi as int]@, u64_be_bytes(key)) is None,
                }),
                Err(e) => (e == Error::InvalidArgument && self.dbi >= tx.dbs().len()) || (e
                    == Error::Corrupted && self.dbi < tx.dbs().len() && match spec_get(
                    tx.dbs()[self.dbi as int]@,
                    u64_be_bytes(key),
                ) {
                    Some(b) => string_of_archived(b) is None,
                    None => false,
                }),
            },
    {
        let kb = u64_to_be(key);
        let got = match crate::txn::txn_get(tx, self.dbi, kb.as_slice()) {
            Ok(got) => got,
            Err(e) => {
                return Err(e);
            },
        };
        let bytes = match got {
            Some(bytes) => bytes,
            None => {
                return Ok(None);
            },
        };
        match rkyv_decode_string(bytes.as_slice()) {
            Some(_decoded) => Ok(Some(ArchivedVal { bytes })),
            None => Err(Error::Corrupted),
        }
    }

    /// As `get`, decoding the archived view into an owned string that may
    /// outlive the lookup.
    pub fn get_unrkyv<TX: Transaction>(&self, tx: &TX, key: u64) -> (r: Result<
        Option<String>,
        Error,
    >)
        requires
            txn_inv(*tx),
        ensures
            match r {
                Ok(v) => self.dbi < tx.dbs().len() && (match v {
                    Some(s) => match spec_get(tx.dbs()[self.dbi as int]@, u64_be_bytes(key)) {
                        Some(b) => string_of_archived(b) == Some(s@),
                        None => false,
                    },
                    None => spec_get(tx.dbs()[self.dbi as int]@, u64_be_bytes(key)) is None,
                }),
                Err(e) => (e == Error::InvalidArgument && self.dbi >= tx.dbs().len()) || (e
                    == Error::Corrupted && self.dbi < tx.dbs().len() && match spec_get(
                    tx.dbs()[self.dbi as int]@,
                    u64_be_bytes(key),
                ) {
                    Some(b) => string_of_archived(b) is None,
                    None => false,
                }),
            },
    {
        let av = match self.get(tx, key) {
            Ok(Some(av)) => av,
            Ok(None) => {
                return Ok(None);
            },
            Err(e) => {
                return Err(e);
            },
        };
        match av.deserialize() {
            Some(s) => Ok(Some(s)),
            None => Err(Error::Corrupted),
        }
    }
}

} // verus!
