//! Flag model: database configuration, put modes and cursor positioning
//! operators, with the compatibility rules between them.

use vstd::prelude::*;

verus! {

/// One database configuration option, chosen at database-open time.
#[derive(Clone, Copy, PartialEq, Eq, Structural, Debug)]
pub enum DbFlags {
    /// Keys are compared in reverse lexicographic order.
    ReverseKey,
    /// Keys are fixed-size integers encoded so that byte order equals
    /// numeric order.
    IntegerKey,
    /// Create the database if it does not exist.
    Create,
    /// Allow several values per key, kept in sorted order.
    DupSort,
    /// All duplicate values of a key have the same size.
    DupFixed,
    /// Duplicate values are fixed-size integers.
    IntegerDup,
    /// Duplicate values are compared in reverse order.
    ReverseDup,
}

/// The set of database flags a database was opened with.
#[derive(Clone, Copy, PartialEq, Eq, Structural, Debug)]
pub struct DbFlagSet {
    pub reverse_key: bool,
    pub integer_key: bool,
    pub create: bool,
    pub dup_sort: bool,
    pub dup_fixed: bool,
    pub integer_dup: bool,
    pub reverse_dup: bool,
}

impl DbFlagSet {
    pub open spec fn spec_has(self, f: DbFlags) -> bool {
        match f {
            DbFlags::ReverseKey => self.reverse_key,
            DbFlags::IntegerKey => self.integer_key,
            DbFlags::Create => self.create,
            DbFlags::DupSort => self.dup_sort,
            DbFlags::DupFixed => self.dup_fixed,
            DbFlags::IntegerDup => self.integer_dup,
            DbFlags::ReverseDup => self.reverse_dup,
        }
    }

    /// The empty flag set: plain ordering, unique keys.
    pub fn empty() -> (r: DbFlagSet)
        ensures
            forall|f: DbFlags| !r.spec_has(f),
    {
        DbFlagSet {
            reverse_key: false,
            integer_key: false,
            create: false,
            dup_sort: false,
            dup_fixed: false,
            integer_dup: false,
            reverse_dup: false,
        }
    }

    pub fn has(&self, f: DbFlags) -> (r: bool)
        ensures
            r == self.spec_has(f),
    {
        match f {
            DbFlags::ReverseKey => self.reverse_key,
            DbFlags::IntegerKey => self.integer_key,
            DbFlags::Create => self.create,
            DbFlags::DupSort => self.dup_sort,
            DbFlags::DupFixed => self.dup_fixed,
            DbFlags::IntegerDup => self.integer_dup,
            DbFlags::ReverseDup => self.reverse_dup,
        }
    }

    pub fn with(self, f: DbFlags) -> (r: DbFlagSet)
        ensures
            r.spec_has(f),
            forall|g: DbFlags| g != f ==> r.spec_has(g) == self.spec_has(g),
    {
        match f {
            DbFlags::ReverseKey => DbFlagSet { reverse_key: true, ..self },
            DbFlags::IntegerKey => DbFlagSet { integer_key: true, ..self },
            DbFlags::Create => DbFlagSet { create: true, ..self },
            DbFlags::DupSort => DbFlagSet { dup_sort: true, ..self },
            DbFlags::DupFixed => DbFlagSet { dup_fixed: true, ..self },
            DbFlags::IntegerDup => DbFlagSet { integer_dup: true, ..self },
            DbFlags::ReverseDup => DbFlagSet { reverse_dup: true, ..self },
        }
    }

    /// The duplicate sub-modes are only meaningful on a duplicate-sorting
    /// database.
    pub open spec fn spec_valid(self) -> bool {
        (self.dup_fixed || self.integer_dup || self.reverse_dup) ==> self.dup_sort
    }

    pub fn valid(&self) -> (r: bool)
        ensures
            r == self.spec_valid(),
    {
        !(self.dup_fixed || self.integer_dup || self.reverse_dup) || self.dup_sort
    }
}

/// One put mode, chosen per call.
#[derive(Clone, Copy, PartialEq, Eq, Structural, Debug)]
pub enum PutFlags {
    /// Do not enter the pair if the exact key/value pair is already present;
    /// only for duplicate-sorting databases.
    NoDupData,
    /// Do not overwrite: fail with a key-exists condition when the key is
    /// already present.
    NoOverwrite,
    /// Reserve space for the value without writing it.
    Reserve,
    /// Append a key known to sort after every present key; out-of-order
    /// appends fail with a key-exists condition.
    Append,
    /// As append, within the duplicates of a key.
    AppendDup,
}

/// The set of put flags handed to one put call.
#[derive(Clone, Copy, PartialEq, Eq, Structural, Debug)]
pub struct PutFlagSet {
    pub no_dup_data: bool,
    pub no_overwrite: bool,
    pub reserve: bool,
    pub append: bool,
    pub append_dup: bool,
}

impl PutFlagSet {
    pub open spec fn spec_has(self, f: PutFlags) -> bool {
        match f {
            PutFlags::NoDupData => self.no_dup_data,
            PutFlags::NoOverwrite => self.no_overwrite,
            PutFlags::Reserve => self.reserve,
            PutFlags::Append => self.append,
            PutFlags::AppendDup => self.append_dup,
        }
    }

    pub fn empty() -> (r: PutFlagSet)
        ensures
            forall|f: PutFlags| !r.spec_has(f),
    {
        PutFlagSet {
            no_dup_data: false,
            no_overwrite: false,
            reserve: false,
            append: false,
            append_dup: false,
        }
    }

    pub fn with(self, f: PutFlags) -> (r: PutFlagSet)
        ensures
            r.spec_has(f),
            forall|g: PutFlags| g != f ==> r.spec_has(g) == self.spec_has(g),
    {
        match f {
            PutFlags::NoDupData => PutFlagSet { no_dup_data: true, ..self },
            PutFlags::NoOverwrite => PutFlagSet { no_overwrite: true, ..self },
            PutFlags::Reserve => PutFlagSet { reserve: true, ..self },
            PutFlags::Append => PutFlagSet { append: true, ..self },
            PutFlags::AppendDup => PutFlagSet { append_dup: true, ..self },
        }
    }

    /// Whether this set of put flags is legal against a database opened with
    /// `db`: the duplicate-only modes need duplicate support, and a reserved
    /// value slot cannot be combined with duplicate sorting.
    pub open spec fn spec_allowed(self, db: DbFlagSet) -> bool {
        &&& (self.no_dup_data ==> db.dup_sort)
        &&& (self.append_dup ==> db.dup_sort)
        &&& (self.reserve ==> !db.dup_sort)
    }

    pub fn allowed(&self, db: &DbFlagSet) -> (r: bool)
        ensures
            r == self.spec_allowed(*db),
    {
        (!self.no_dup_data || db.dup_sort) && (!self.append_dup || db.dup_sort) && (!self.reserve
            || !db.dup_sort)
    }
}

/// One cursor positioning operator.
#[derive(Clone, Copy, PartialEq, Eq, Structural, Debug)]
pub enum CursorOpFlags {
    /// Return the key/value at the current position without moving.
    GetCurrent,
    /// Position at the first entry.
    First,
    /// Position at the last entry.
    Last,
    /// Position at the next entry.
    Next,
    /// Position at the previous entry.
    Prev,
    /// Position at the given key exactly, returning only the value.
    SetExact,
    /// Position at the given key exactly, returning key and value.
    SetKey,
    /// Position at the first entry whose key is at or after the given key.
    SetRange,
    /// Return a page of duplicate values from the current position.
    GetMultiple,
    /// Return a page of duplicate values from the next key.
    NextMultiple,
    /// Position at the first value of the current key.
    FirstDup,
    /// Position at the last value of the current key.
    LastDup,
    /// Position at the next value of the current key.
    NextDup,
    /// Position at the first value of the next distinct key.
    NextNodup,
    /// Position at the previous value of the current key.
    PrevDup,
    /// Position at the last value of the previous distinct key.
    PrevNodup,
    /// Position at an exact key/value pair.
    GetBoth,
    /// Position at the given key, at its first value at or past the given
    /// value.
    GetBothRange,
}

impl CursorOpFlags {
    /// Operators that are only meaningful on a duplicate-sorting database.
    pub open spec fn spec_needs_dup_sort(self) -> bool {
        match self {
            CursorOpFlags::FirstDup
            | CursorOpFlags::LastDup
            | CursorOpFlags::NextDup
            | CursorOpFlags::NextNodup
            | CursorOpFlags::PrevDup
            | CursorOpFlags::PrevNodup
            | CursorOpFlags::GetBoth
            | CursorOpFlags::GetBothRange
            | CursorOpFlags::GetMultiple
            | CursorOpFlags::NextMultiple => true,
            _ => false,
        }
    }

    /// Operators that are only meaningful when duplicates have a fixed size.
    pub open spec fn spec_needs_dup_fixed(self) -> bool {
        match self {
            CursorOpFlags::GetMultiple | CursorOpFlags::NextMultiple => true,
            _ => false,
        }
    }

    /// Whether this operator is legal against a database opened with `db`.
    pub open spec fn spec_allowed(self, db: DbFlagSet) -> bool {
        &&& (self.spec_needs_dup_sort() ==> db.dup_sort)
        &&& (self.spec_needs_dup_fixed() ==> db.dup_fixed)
    }

    pub fn allowed(&self, db: &DbFlagSet) -> (r: bool)
        ensures
            r == self.spec_allowed(*db),
    {
        let needs_dup = match self {
            CursorOpFlags::FirstDup
            | CursorOpFlags::LastDup
            | CursorOpFlags::NextDup
            | CursorOpFlags::NextNodup
            | CursorOpFlags::PrevDup
            | CursorOpFlags::PrevNodup
            | CursorOpFlags::GetBoth
            | CursorOpFlags::GetBothRange
            | CursorOpFlags::GetMultiple
            | CursorOpFlags::NextMultiple => true,
            _ => false,
        };
        let needs_fixed = match self {
            CursorOpFlags::GetMultiple | CursorOpFlags::NextMultiple => true,
            _ => false,
        };
        (!needs_dup || db.dup_sort) && (!needs_fixed || db.dup_fixed)
    }
}

} // verus!
