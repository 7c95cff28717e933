//! The sorted key-value store model: one database is a sequence of
//! key/value byte-string entries kept in strictly increasing entry order,
//! where the order of keys and of duplicate values follows the database
//! flags.

use vstd::multiset::Multiset;
use vstd::prelude::*;

use crate::error::Error;
use crate::flags::{DbFlagSet, PutFlagSet};
use crate::order::{bytes_cmp, lex_lt, lemma_lex_transitive, lemma_lex_trichotomy, Cmp};

verus! {

/// One stored key/value pair.
pub struct Entry {
    pub key: Vec<u8>,
    pub val: Vec<u8>,
}

impl View for Entry {
    type V = (Seq<u8>, Seq<u8>);

    open spec fn view(&self) -> (Seq<u8>, Seq<u8>) {
        (self.key@, self.val@)
    }
}

/// Key order under the database flags: reverse-key databases compare keys
/// in reverse lexicographic order.
pub open spec fn key_lt(f: DbFlagSet, a: Seq<u8>, b: Seq<u8>) -> bool {
    if f.reverse_key {
        lex_lt(b, a)
    } else {
        lex_lt(a, b)
    }
}

/// Duplicate-value order under the database flags.
pub open spec fn val_lt(f: DbFlagSet, a: Seq<u8>, b: Seq<u8>) -> bool {
    if f.reverse_dup {
        lex_lt(b, a)
    } else {
        lex_lt(a, b)
    }
}

/// The entry order a database is sorted by: keys first; among equal keys,
/// a duplicate-sorting database orders the values. In a database without
/// duplicate support two entries with equal keys are unordered, so a
/// strictly sorted sequence can hold a key at most once.
pub open spec fn entry_lt(f: DbFlagSet, a: (Seq<u8>, Seq<u8>), b: (Seq<u8>, Seq<u8>)) -> bool {
    key_lt(f, a.0, b.0) || (a.0 == b.0 && f.dup_sort && val_lt(f, a.1, b.1))
}

pub proof fn lemma_key_lt_trichotomy(f: DbFlagSet, a: Seq<u8>, b: Seq<u8>)
    ensures
        key_lt(f, a, b) || a == b || key_lt(f, b, a),
        key_lt(f, a, b) ==> a != b && !key_lt(f, b, a),
        a == b ==> !key_lt(f, a, b),
{
    lemma_lex_trichotomy(a, b);
    lemma_lex_trichotomy(b, a);
}

pub proof fn lemma_key_lt_transitive(f: DbFlagSet, a: Seq<u8>, b: Seq<u8>, c: Seq<u8>)
    requires
        key_lt(f, a, b),
        key_lt(f, b, c),
    ensures
        key_lt(f, a, c),
{
    if f.reverse_key {
        lemma_lex_transitive(c, b, a);
    } else {
        lemma_lex_transitive(a, b, c);
    }
}

pub proof fn lemma_val_lt_trichotomy(f: DbFlagSet, a: Seq<u8>, b: Seq<u8>)
    ensures
        val_lt(f, a, b) || a == b || val_lt(f, b, a),
        val_lt(f, a, b) ==> a != b && !val_lt(f, b, a),
        a == b ==> !val_lt(f, a, b),
{
    lemma_lex_trichotomy(a, b);
    lemma_lex_trichotomy(b, a);
}

pub proof fn lemma_val_lt_transitive(f: DbFlagSet, a: Seq<u8>, b: Seq<u8>, c: Seq<u8>)
    requires
        val_lt(f, a, b),
        val_lt(f, b, c),
    ensures
        val_lt(f, a, c),
{
    if f.reverse_dup {
        lemma_lex_transitive(c, b, a);
    } else {
        lemma_lex_transitive(a, b, c);
    }
}

pub proof fn lemma_entry_lt_transitive(
    f: DbFlagSet,
    a: (Seq<u8>, Seq<u8>),
    b: (Seq<u8>, Seq<u8>),
    c: (Seq<u8>, Seq<u8>),
)
    requires
        entry_lt(f, a, b),
        entry_lt(f, b, c),
    ensures
        entry_lt(f, a, c),
{
    lemma_key_lt_trichotomy(f, a.0, b.0);
    lemma_key_lt_trichotomy(f, b.0, c.0);
    if key_lt(f, a.0, b.0) && key_lt(f, b.0, c.0) {
        lemma_key_lt_transitive(f, a.0, b.0, c.0);
    } else if a.0 == b.0 && b.0 == c.0 {
        lemma_val_lt_transitive(f, a.1, b.1, c.1);
    }
}

/// The values stored under key `k`, in entry order.
pub open spec fn dup_vals(s: Seq<(Seq<u8>, Seq<u8>)>, k: Seq<u8>) -> Seq<Seq<u8>>
    decreases s.len(),
{
    if s.len() == 0 {
        Seq::empty()
    } else if s[0].0 == k {
        seq![s[0].1] + dup_vals(s.skip(1), k)
    } else {
        dup_vals(s.skip(1), k)
    }
}

/// Whether key `k` is present.
pub open spec fn key_present(s: Seq<(Seq<u8>, Seq<u8>)>, k: Seq<u8>) -> bool {
    dup_vals(s, k).len() > 0
}

/// The value a point lookup of `k` returns: the first stored value of `k`.
pub open spec fn spec_get(s: Seq<(Seq<u8>, Seq<u8>)>, k: Seq<u8>) -> Option<Seq<u8>> {
    if key_present(s, k) {
        Some(dup_vals(s, k)[0])
    } else {
        None
    }
}

/// `dup_vals` distributes over concatenation.
pub proof fn lemma_dup_vals_concat(s: Seq<(Seq<u8>, Seq<u8>)>, t: Seq<(Seq<u8>, Seq<u8>)>, k: Seq<
    u8,
>)
    ensures
        dup_vals(s + t, k) == dup_vals(s, k) + dup_vals(t, k),
    decreases s.len(),
{
    if s.len() == 0 {
        assert(s + t =~= t);
        assert(dup_vals(s, k) + dup_vals(t, k) =~= dup_vals(t, k));
    } else {
        lemma_dup_vals_concat(s.skip(1), t, k);
        assert((s + t).skip(1) =~= s.skip(1) + t);
        assert((s + t)[0] == s[0]);
        if s[0].0 == k {
            assert(seq![s[0].1] + (dup_vals(s.skip(1), k) + dup_vals(t, k)) =~= (seq![s[0].1]
                + dup_vals(s.skip(1), k)) + dup_vals(t, k));
        }
    }
}

/// A key absent from every entry of `s` has no values in `s`.
pub proof fn lemma_dup_vals_absent(s: Seq<(Seq<u8>, Seq<u8>)>, k: Seq<u8>)
    requires
        forall|j: int| 0 <= j < s.len() ==> #[trigger] s[j].0 != k,
    ensures
        dup_vals(s, k) == Seq::<Seq<u8>>::empty(),
    decreases s.len(),
{
    if s.len() > 0 {
        assert(forall|j: int| 0 <= j < s.skip(1).len() ==> #[trigger] s.skip(1)[j].0 != k);
        lemma_dup_vals_absent(s.skip(1), k);
    }
}

/// The values of key `k` in `s`, read off the indices whose entry holds `k`:
/// in particular, if the entries of `k` are exactly those in `[lo, hi)`,
/// then `dup_vals(s, k)` is the sequence of their values.
pub proof fn lemma_dup_vals_run(s: Seq<(Seq<u8>, Seq<u8>)>, k: Seq<u8>, lo: int, hi: int)
    requires
        0 <= lo <= hi <= s.len(),
        forall|j: int| lo <= j < hi ==> #[trigger] s[j].0 == k,
        forall|j: int| 0 <= j < s.len() && !(lo <= j < hi) ==> #[trigger] s[j].0 != k,
    ensures
        dup_vals(s, k).len() == hi - lo,
        forall|j: int| lo <= j < hi ==> #[trigger] dup_vals(s, k)[j - lo] == s[j].1,
{
    let pre = s.subrange(0, lo);
    let mid = s.subrange(lo, hi);
    let post = s.subrange(hi, s.len() as int);
    assert(s =~= (pre + mid) + post);
    lemma_dup_vals_concat(pre + mid, post, k);
    lemma_dup_vals_concat(pre, mid, k);
    lemma_dup_vals_absent(pre, k);
    lemma_dup_vals_absent(post, k);
    lemma_dup_vals_all(mid, k);
    assert(dup_vals(s, k) =~= dup_vals(mid, k));
}

/// If `i` is the first index holding key `k`, a point lookup of `k`
/// returns the value at `i`.
pub proof fn lemma_dup_vals_first(s: Seq<(Seq<u8>, Seq<u8>)>, k: Seq<u8>, i: int)
    requires
        0 <= i < s.len(),
        s[i].0 == k,
        forall|j: int| 0 <= j < i ==> #[trigger] s[j].0 != k,
    ensures
        key_present(s, k),
        spec_get(s, k) == Some(s[i].1),
    decreases i,
{
    let pre = s.subrange(0, i);
    let post = s.subrange(i, s.len() as int);
    assert(s =~= pre + post);
    lemma_dup_vals_concat(pre, post, k);
    lemma_dup_vals_absent(pre, k);
    assert(post[0] == s[i]);
    assert(dup_vals(post, k) == seq![s[i].1] + dup_vals(post.skip(1), k));
    assert(dup_vals(s, k)[0] == s[i].1);
}

/// `v` is among the values of `k` exactly when some entry is the pair
/// `(k, v)`.
pub proof fn lemma_dup_vals_contains(s: Seq<(Seq<u8>, Seq<u8>)>, k: Seq<u8>, v: Seq<u8>)
    ensures
        dup_vals(s, k).contains(v) <==> exists|j: int| 0 <= j < s.len() && s[j] == (k, v),
    decreases s.len(),
{
    if s.len() > 0 {
        lemma_dup_vals_contains(s.skip(1), k, v);
        if exists|j: int| 0 <= j < s.skip(1).len() && s.skip(1)[j] == (k, v) {
            let j = choose|j: int| 0 <= j < s.skip(1).len() && s.skip(1)[j] == (k, v);
            assert(s[j + 1] == (k, v));
        }
        if exists|j: int| 0 <= j < s.len() && s[j] == (k, v) {
            let j = choose|j: int| 0 <= j < s.len() && s[j] == (k, v);
            if j == 0 {
                assert(s[0] == (k, v));
                assert(dup_vals(s, k)[0] == v);
            } else {
                assert(s.skip(1)[j - 1] == (k, v));
                if s[0].0 == k {
                    let w = choose|w: int|
                        0 <= w < dup_vals(s.skip(1), k).len() && dup_vals(s.skip(1), k)[w] == v;
                    assert(dup_vals(s, k)[w + 1] == v);
                }
            }
        }
        if dup_vals(s, k).contains(v) {
            let w = choose|w: int| 0 <= w < dup_vals(s, k).len() && dup_vals(s, k)[w] == v;
            if s[0].0 == k {
                if w == 0 {
                    assert(s[0] == (k, v));
                } else {
                    assert(dup_vals(s.skip(1), k)[w - 1] == v);
                    assert(dup_vals(s.skip(1), k).contains(v));
                }
            } else {
                assert(dup_vals(s.skip(1), k).contains(v));
            }
        }
    }
}

/// In a sequence all of whose entries hold key `k`, the values of `k` are
/// exactly the values column.
pub proof fn lemma_dup_vals_all(s: Seq<(Seq<u8>, Seq<u8>)>, k: Seq<u8>)
    requires
        forall|j: int| 0 <= j < s.len() ==> #[trigger] s[j].0 == k,
    ensures
        dup_vals(s, k).len() == s.len(),
        forall|j: int| 0 <= j < s.len() ==> #[trigger] dup_vals(s, k)[j] == s[j].1,
    decreases s.len(),
{
    if s.len() > 0 {
        assert(forall|j: int| 0 <= j < s.skip(1).len() ==> #[trigger] s.skip(1)[j].0 == k);
        lemma_dup_vals_all(s.skip(1), k);
        assert(forall|j: int| 1 <= j < s.len() ==> s.skip(1)[j - 1] == s[j]);
    }
}

/// A sorted sequence of entries under the flags' entry order.
pub open spec fn sorted(f: DbFlagSet, s: Seq<(Seq<u8>, Seq<u8>)>) -> bool {
    forall|i: int, j: int|
        0 <= i < j < s.len() ==> entry_lt(f, #[trigger] s[i], #[trigger] s[j])
}

/// In a sorted sequence, once an index holds a key at or past `k` without
/// being `k`, no later index holds `k` either.
pub proof fn lemma_sorted_tail_misses(f: DbFlagSet, s: Seq<(Seq<u8>, Seq<u8>)>, k: Seq<u8>, m: int)
    requires
        sorted(f, s),
        0 <= m <= s.len(),
        forall|j: int| 0 <= j < m ==> key_lt(f, #[trigger] s[j].0, k),
        m < s.len() ==> s[m].0 != k && !key_lt(f, s[m].0, k),
    ensures
        forall|j: int| 0 <= j < s.len() ==> #[trigger] s[j].0 != k,
        !key_present(s, k),
    decreases s.len(),
{
    assert forall|j: int| 0 <= j < s.len() implies #[trigger] s[j].0 != k by {
        if j < m {
            lemma_key_lt_trichotomy(f, s[j].0, k);
        } else if j > m {
            assert(entry_lt(f, s[m], s[j]));
            if s[j].0 == k {
                assert(key_lt(f, s[m].0, k) || s[m].0 == k);
            }
        }
    }
    lemma_dup_vals_absent(s, k);
}

/// The values of `k` in a one-entry sequence.
pub proof fn lemma_dup_vals_single(p: (Seq<u8>, Seq<u8>), k: Seq<u8>)
    ensures
        p.0 == k ==> dup_vals(seq![p], k) == seq![p.1],
        p.0 != k ==> dup_vals(seq![p], k) == Seq::<Seq<u8>>::empty(),
{
    reveal_with_fuel(dup_vals, 2);
    let s = seq![p];
    assert(s[0] == p);
    assert(s.skip(1) =~= Seq::<(Seq<u8>, Seq<u8>)>::empty());
    if p.0 == k {
        assert(dup_vals(s, k) == seq![s[0].1] + dup_vals(s.skip(1), k));
        assert(seq![p.1] + Seq::<Seq<u8>>::empty() =~= seq![p.1]);
    }
}

/// Inserting a pair between its neighbours keeps the sequence sorted,
/// leaves every other key's values alone, and adds the value to its key's
/// values.
pub proof fn lemma_insert_effects(f: DbFlagSet, s: Seq<(Seq<u8>, Seq<u8>)>, i: int, p: (
    Seq<u8>,
    Seq<u8>,
))
    requires
        0 <= i <= s.len(),
        sorted(f, s),
        forall|j: int| 0 <= j < i ==> entry_lt(f, #[trigger] s[j], p),
        forall|j: int| i <= j < s.len() ==> entry_lt(f, p, #[trigger] s[j]),
    ensures
        sorted(f, s.insert(i, p)),
        s.insert(i, p).len() == s.len() + 1,
        forall|k2: Seq<u8>|
            k2 != p.0 ==> #[trigger] dup_vals(s.insert(i, p), k2) == dup_vals(s, k2),
        dup_vals(s.insert(i, p), p.0).to_multiset() == dup_vals(s, p.0).to_multiset().insert(p.1),
{
    broadcast use vstd::seq_lib::group_to_multiset_ensures;

    let t = s.insert(i, p);
    let pre = s.subrange(0, i);
    let post = s.subrange(i, s.len() as int);
    s.insert_ensures(i, p);
    assert(t =~= (pre + seq![p]) + post);
    assert(s =~= pre + post);
    assert(seq![p].skip(1) =~= Seq::<(Seq<u8>, Seq<u8>)>::empty());
    assert forall|i1: int, j1: int| 0 <= i1 < j1 < t.len() implies entry_lt(
        f,
        #[trigger] t[i1],
        #[trigger] t[j1],
    ) by {
        if i1 < i && j1 > i {
            assert(t[i1] == s[i1] && t[j1] == s[j1 - 1]);
        }
    }
    lemma_dup_vals_concat(pre + seq![p], post, p.0);
    lemma_dup_vals_concat(pre, seq![p], p.0);
    lemma_dup_vals_concat(pre, post, p.0);
    lemma_dup_vals_single(p, p.0);
    vstd::seq_lib::lemma_multiset_commutative(dup_vals(pre + seq![p], p.0), dup_vals(post, p.0));
    vstd::seq_lib::lemma_multiset_commutative(dup_vals(pre, p.0), dup_vals(seq![p], p.0));
    vstd::seq_lib::lemma_multiset_commutative(dup_vals(pre, p.0), dup_vals(post, p.0));
    assert(seq![p.1] =~= Seq::<Seq<u8>>::empty().push(p.1));
    assert(seq![p.1].to_multiset() == Multiset::<Seq<u8>>::empty().insert(p.1));
    assert(dup_vals(t, p.0).to_multiset() =~= dup_vals(s, p.0).to_multiset().insert(p.1));
    assert forall|k2: Seq<u8>| k2 != p.0 implies #[trigger] dup_vals(t, k2) == dup_vals(
        s,
        k2,
    ) by {
        lemma_dup_vals_concat(pre + seq![p], post, k2);
        lemma_dup_vals_concat(pre, seq![p], k2);
        lemma_dup_vals_concat(pre, post, k2);
        lemma_dup_vals_single(p, k2);
        assert(dup_vals(t, k2) =~= dup_vals(s, k2));
    }
}

/// Overwriting the value at the only index holding key `k` in a database
/// without duplicate support keeps the sequence sorted and replaces the
/// values of `k` by the new value alone.
pub proof fn lemma_overwrite_effects(f: DbFlagSet, s: Seq<(Seq<u8>, Seq<u8>)>, i: int, v: Seq<u8>)
    requires
        0 <= i < s.len(),
        sorted(f, s),
        !f.dup_sort,
    ensures
        sorted(f, s.update(i, (s[i].0, v))),
        dup_vals(s.update(i, (s[i].0, v)), s[i].0) =~= seq![v],
        forall|k2: Seq<u8>|
            k2 != s[i].0 ==> #[trigger] dup_vals(s.update(i, (s[i].0, v)), k2) == dup_vals(s, k2),
{
    let k = s[i].0;
    let p = (k, v);
    let t = s.update(i, p);
    assert forall|j: int| 0 <= j < s.len() && j != i implies #[trigger] s[j].0 != k by {
        if j < i {
            assert(entry_lt(f, s[j], s[i]));
        } else {
            assert(entry_lt(f, s[i], s[j]));
        }
        lemma_key_lt_trichotomy(f, s[j].0, k);
        lemma_key_lt_trichotomy(f, k, s[j].0);
    }
    assert forall|i1: int, j1: int| 0 <= i1 < j1 < t.len() implies entry_lt(
        f,
        #[trigger] t[i1],
        #[trigger] t[j1],
    ) by {
        assert(entry_lt(f, s[i1], s[j1]));
    }
    let pre = s.subrange(0, i);
    let post = s.subrange(i + 1, s.len() as int);
    assert(t =~= (pre + seq![p]) + post);
    assert(s =~= (pre + seq![s[i]]) + post);
    assert(seq![p].skip(1) =~= Seq::<(Seq<u8>, Seq<u8>)>::empty());
    assert forall|j: int| 0 <= j < pre.len() implies #[trigger] pre[j].0 != k by {}
    assert forall|j: int| 0 <= j < post.len() implies #[trigger] post[j].0 != k by {}
    lemma_dup_vals_absent(pre, k);
    lemma_dup_vals_absent(post, k);
    lemma_dup_vals_concat(pre + seq![p], post, k);
    lemma_dup_vals_concat(pre, seq![p], k);
    lemma_dup_vals_single(p, k);
    assert forall|k2: Seq<u8>| k2 != k implies #[trigger] dup_vals(t, k2) == dup_vals(s, k2) by {
        lemma_dup_vals_concat(pre + seq![p], post, k2);
        lemma_dup_vals_concat(pre, seq![p], k2);
        lemma_dup_vals_concat(pre + seq![s[i]], post, k2);
        lemma_dup_vals_concat(pre, seq![s[i]], k2);
        lemma_dup_vals_single(p, k2);
        lemma_dup_vals_single(s[i], k2);
        assert(dup_vals(t, k2) =~= dup_vals(s, k2));
    }
}

/// What a no-overwrite put collides with. Without duplicate support it is
/// the key being present. With duplicate support a distinct value is still
/// accepted as a new duplicate, so only the exact pair collides — unless
/// no-duplicate-data is chosen too, which again refuses the key outright.
pub open spec fn no_overwrite_hit(
    f: DbFlagSet,
    pf: PutFlagSet,
    s: Seq<(Seq<u8>, Seq<u8>)>,
    k: Seq<u8>,
    v: Seq<u8>,
) -> bool {
    if !f.dup_sort {
        key_present(s, k)
    } else if pf.no_dup_data {
        key_present(s, k)
    } else {
        dup_vals(s, k).contains(v)
    }
}

/// The failure a put call reports, checked in this order, or `None` when
/// the call succeeds: an illegal flag combination; a no-overwrite put that
/// collides (see `no_overwrite_hit`); an append whose key does not sort
/// strictly after every present key; a no-duplicate-data put on a present
/// pair; a duplicate append whose pair does not sort strictly last; then —
/// succeeding without a change — a put of an exact pair a duplicate-sorting
/// database already holds; an overwrite of a present key without duplicate
/// support; and finally a put that would grow a database past its capacity.
pub open spec fn put_err(
    f: DbFlagSet,
    cap: int,
    s: Seq<(Seq<u8>, Seq<u8>)>,
    k: Seq<u8>,
    v: Seq<u8>,
    pf: PutFlagSet,
) -> Option<Error> {
    if !pf.spec_allowed(f) {
        Some(Error::InvalidArgument)
    } else if pf.no_overwrite && no_overwrite_hit(f, pf, s, k, v) {
        Some(Error::KeyExists)
    } else if pf.append && s.len() > 0 && !key_lt(f, s.last().0, k) {
        Some(Error::KeyExists)
    } else if f.dup_sort && pf.no_dup_data && dup_vals(s, k).contains(v) {
        Some(Error::KeyExists)
    } else if f.dup_sort && pf.append_dup && s.len() > 0 && !entry_lt(f, s.last(), (k, v)) {
        Some(Error::KeyExists)
    } else if f.dup_sort && dup_vals(s, k).contains(v) {
        None
    } else if !f.dup_sort && key_present(s, k) {
        None
    } else if s.len() >= cap {
        Some(Error::ResourceExhausted)
    } else {
        None
    }
}

/// One database of the store: its open-time flags, a capacity standing for
/// the space the environment's map gives it, and its sorted entries.
pub struct Database {
    pub flags: DbFlagSet,
    pub cap: usize,
    pub entries: Vec<Entry>,
}

impl View for Database {
    type V = Seq<(Seq<u8>, Seq<u8>)>;

    open spec fn view(&self) -> Seq<(Seq<u8>, Seq<u8>)> {
        self.entries@.map_values(|e: Entry| e@)
    }
}

/// Compares two keys under the database flags.
pub fn key_cmp(f: &DbFlagSet, a: &[u8], b: &[u8]) -> (r: Cmp)
    ensures
        r == Cmp::Lt <==> key_lt(*f, a@, b@),
        r == Cmp::Eq <==> a@ == b@,
        r == Cmp::Gt <==> key_lt(*f, b@, a@),
{
    if f.reverse_key {
        bytes_cmp(b, a)
    } else {
        bytes_cmp(a, b)
    }
}

/// Compares two duplicate values under the database flags.
pub fn val_cmp(f: &DbFlagSet, a: &[u8], b: &[u8]) -> (r: Cmp)
    ensures
        r == Cmp::Lt <==> val_lt(*f, a@, b@),
        r == Cmp::Eq <==> a@ == b@,
        r == Cmp::Gt <==> val_lt(*f, b@, a@),
{
    if f.reverse_dup {
        bytes_cmp(b, a)
    } else {
        bytes_cmp(a, b)
    }
}

impl Database {
    /// The database invariant: legal flags, entries within capacity, and
    /// strictly sorted entries (so a key is unique unless duplicates are
    /// enabled, and duplicate values of one key are unique and sorted).
    pub open spec fn wf(self) -> bool {
        &&& self.flags.spec_valid()
        &&& self@.len() <= self.cap
        &&& sorted(self.flags, self@)
    }

    /// An empty database with the given flags and capacity.
    pub fn create(flags: DbFlagSet, cap: usize) -> (r: Result<Database, Error>)
        ensures
            match r {
                Ok(db) => flags.spec_valid() && db.wf() && db.flags == flags && db.cap == cap
                    && db@.len() == 0,
                Err(e) => e == Error::InvalidArgument && !flags.spec_valid(),
            },
    {
        if !flags.valid() {
            return Err(Error::InvalidArgument);
        }
        Ok(Database { flags, cap, entries: Vec::new() })
    }

    /// The number of stored entries, as a statistics query reports it.
    pub fn stat(&self) -> (r: usize)
        ensures
            r == self@.len(),
    {
        self.entries.len()
    }

    /// Removes every entry.
    pub fn clear(&mut self)
        ensures
            final(self).flags == old(self).flags,
            final(self).cap == old(self).cap,
            final(self)@ == Seq::<(Seq<u8>, Seq<u8>)>::empty(),
            old(self).wf() ==> final(self).wf(),
    {
        self.entries = Vec::new();
        proof {
            assert(self@ =~= Seq::<(Seq<u8>, Seq<u8>)>::empty());
        }
    }

    /// The first index whose key is at or past `key`; every earlier index
    /// holds a smaller key.
    pub(crate) fn key_lower_bound(&self, key: &[u8]) -> (lo: usize)
        requires
            self.wf(),
        ensures
            lo <= self@.len(),
            forall|j: int| 0 <= j < lo ==> key_lt(self.flags, #[trigger] self@[j].0, key@),
            lo < self@.len() ==> !key_lt(self.flags, self@[lo as int].0, key@),
    {
        let mut lo: usize = 0;
        while lo < self.entries.len() && matches!(
            key_cmp(&self.flags, self.entries[lo].key.as_slice(), key),
            Cmp::Lt,
        )
            invariant
                lo <= self@.len(),
                self@.len() == self.entries@.len(),
                forall|j: int| 0 <= j < lo ==> key_lt(self.flags, #[trigger] self@[j].0, key@),
            decreases self@.len() - lo,
        {
            proof {
                assert(self@[lo as int] == self.entries@[lo as int]@);
            }
            lo = lo + 1;
        }
        proof {
            if lo < self.entries.len() {
                assert(self@[lo as int] == self.entries@[lo as int]@);
            }
        }
        lo
    }

    /// A point lookup: the first value stored under `key`, copied out, or
    /// nothing when the key is absent.
    pub fn get(&self, key: &[u8]) -> (r: Option<Vec<u8>>)
        requires
            self.wf(),
        ensures
            match r {
                Some(v) => spec_get(self@, key@) == Some(v@),
                None => spec_get(self@, key@) is None,
            },
    {
        let lo = self.key_lower_bound(key);
        if lo < self.entries.len() {
            proof {
                assert(self@[lo as int] == self.entries@[lo as int]@);
            }
            if matches!(key_cmp(&self.flags, self.entries[lo].key.as_slice(), key), Cmp::Eq) {
                proof {
                    assert forall|j: int| 0 <= j < lo implies #[trigger] self@[j].0 != key@ by {
                        lemma_key_lt_trichotomy(self.flags, self@[j].0, key@);
                    }
                    lemma_dup_vals_first(self@, key@, lo as int);
                }
                return Some(vstd::slice::slice_to_vec(self.entries[lo].val.as_slice()));
            }
            proof {
                lemma_sorted_tail_misses(self.flags, self@, key@, lo as int);
            }
            return None;
        }
        proof {
            lemma_sorted_tail_misses(self.flags, self@, key@, lo as int);
        }
        None
    }

    /// Removes the key and every duplicate value stored under it, and
    /// reports whether the key was present.
    pub fn del(&mut self, key: &[u8]) -> (r: bool)
        requires
            old(self).wf(),
        ensures
            final(self).flags == old(self).flags,
            final(self).cap == old(self).cap,
            final(self).wf(),
            r == key_present(old(self)@, key@),
            !key_present(final(self)@, key@),
            forall|k2: Seq<u8>|
                k2 != key@ ==> #[trigger] dup_vals(final(self)@, k2) == dup_vals(old(self)@, k2),
            final(self)@.len() == old(self)@.len() - dup_vals(old(self)@, key@).len(),
    {
        let ghost s0 = self@;
        let ghost f = self.flags;
        let lo = self.key_lower_bound(key);
        let ghost hi = lo as int;
        let mut found: bool = false;
        while lo < self.entries.len() && matches!(
            key_cmp(&self.flags, self.entries[lo].key.as_slice(), key),
            Cmp::Eq,
        )
            invariant
                self.flags == f,
                self.cap == old(self).cap,
                sorted(f, s0),
                s0.len() <= self.cap,
                lo <= hi <= s0.len(),
                self@ =~= s0.subrange(0, lo as int) + s0.subrange(hi, s0.len() as int),
                self@.len() == self.entries@.len(),
                forall|j: int| 0 <= j < lo ==> key_lt(f, #[trigger] s0[j].0, key@),
                forall|j: int| lo <= j < hi ==> #[trigger] s0[j].0 == key@,
                found <==> hi > lo,
            decreases self@.len() - lo,
        {
            proof {
                assert(self@[lo as int] == self.entries@[lo as int]@);
                assert(self@[lo as int] == s0[hi]);
            }
            found = true;
            let ghost prev_view = self@;
            let ghost prev_entries = self.entries@;
            self.entries.remove(lo);
            proof {
                assert(self.entries@ == prev_entries.remove(lo as int));
                prev_entries.remove_ensures(lo as int);
                assert forall|m: int| 0 <= m < self@.len() implies self@[m] == (s0.subrange(
                    0,
                    lo as int,
                ) + s0.subrange(hi + 1, s0.len() as int))[m] by {
                    assert(self@[m] == self.entries@[m]@);
                    if m < lo {
                        assert(self.entries@[m] == prev_entries[m]);
                        assert(prev_view[m] == prev_entries[m]@);
                    } else {
                        assert(self.entries@[m] == prev_entries[m + 1]);
                        assert(prev_view[m + 1] == prev_entries[m + 1]@);
                    }
                }
                assert(self@ =~= s0.subrange(0, lo as int) + s0.subrange(hi + 1, s0.len() as int));
                hi = hi + 1;
            }
        }
        proof {
            if lo < self.entries.len() {
                assert(self@[lo as int] == self.entries@[lo as int]@);
                assert(self@[lo as int] == s0[hi]);
            }
            // The entries of `key` in the starting sequence are exactly
            // those of the removed range.
            assert forall|j: int| 0 <= j < s0.len() && !(lo <= j < hi) implies #[trigger] s0[j].0
                != key@ by {
                if j < lo {
                    lemma_key_lt_trichotomy(f, s0[j].0, key@);
                } else {
                    if hi > lo {
                        assert(entry_lt(f, s0[hi - 1], s0[j]));
                        if s0[j].0 == key@ {
                            lemma_key_lt_trichotomy(f, key@, s0[j].0);
                        }
                    } else {
                        if j > hi && s0[j].0 == key@ {
                            assert(entry_lt(f, s0[hi], s0[j]));
                            lemma_key_lt_trichotomy(f, s0[hi].0, key@);
                            lemma_key_lt_trichotomy(f, key@, s0[hi].0);
                        }
                    }
                }
            }
            lemma_dup_vals_run(s0, key@, lo as int, hi);
            let pre = s0.subrange(0, lo as int);
            let mid = s0.subrange(lo as int, hi);
            let post = s0.subrange(hi, s0.len() as int);
            assert(s0 =~= (pre + mid) + post);
            lemma_dup_vals_concat(pre + mid, post, key@);
            lemma_dup_vals_concat(pre, mid, key@);
            lemma_dup_vals_concat(pre, post, key@);
            assert forall|k2: Seq<u8>| k2 != key@ implies #[trigger] dup_vals(self@, k2)
                == dup_vals(s0, k2) by {
                lemma_dup_vals_concat(pre + mid, post, k2);
                lemma_dup_vals_concat(pre, mid, k2);
                lemma_dup_vals_concat(pre, post, k2);
                assert forall|j: int| 0 <= j < mid.len() implies #[trigger] mid[j].0 != k2 by {}
                lemma_dup_vals_absent(mid, k2);
                assert(dup_vals(pre, k2) + dup_vals(post, k2) =~= (dup_vals(pre, k2) + dup_vals(
                    mid,
                    k2,
                )) + dup_vals(post, k2));
            }
            lemma_dup_vals_absent(pre, key@);
            lemma_dup_vals_absent(post, key@);
            assert(dup_vals(self@, key@) =~= Seq::<Seq<u8>>::empty());
            // Sortedness of the remaining entries.
            assert forall|i: int, j: int| 0 <= i < j < self@.len() implies entry_lt(
                f,
                #[trigger] self@[i],
                #[trigger] self@[j],
            ) by {
                let i0 = if i < lo {
                    i
                } else {
                    i + (hi - lo)
                };
                let j0 = if j < lo {
                    j
                } else {
                    j + (hi - lo)
                };
                assert(self@[i] == s0[i0]);
                assert(self@[j] == s0[j0]);
            }
        }
        found
    }

    /// Stores `key` to `val` under the put flags: without duplicate support
    /// a plain put overwrites a present key; with it, the pair is entered at
    /// its place in the duplicate order. The reported failure, and when the
    /// call succeeds, is exactly `put_err`.
    #[verifier::rlimit(50)]
    pub fn put(&mut self, key: &[u8], val: &[u8], pf: &PutFlagSet) -> (r: Result<(), Error>)
        requires
            old(self).wf(),
        ensures
            final(self).flags == old(self).flags,
            final(self).cap == old(self).cap,
            final(self).wf(),
            match r {
                Err(e) => Some(e) == put_err(
                    old(self).flags,
                    old(self).cap as int,
                    old(self)@,
                    key@,
                    val@,
                    *pf,
                ) && *final(self) == *old(self),
                Ok(u) => put_err(
                    old(self).flags,
                    old(self).cap as int,
                    old(self)@,
                    key@,
                    val@,
                    *pf,
                ) is None && ({
                    if old(self).flags.dup_sort {
                        if dup_vals(old(self)@, key@).contains(val@) {
                            final(self)@ == old(self)@
                        } else {
                            &&& dup_vals(final(self)@, key@).to_multiset() == dup_vals(
                                old(self)@,
                                key@,
                            ).to_multiset().insert(val@)
                            &&& final(self)@.len() == old(self)@.len() + 1
                            &&& forall|k2: Seq<u8>|
                                k2 != key@ ==> #[trigger] dup_vals(final(self)@, k2) == dup_vals(
                                    old(self)@,
                                    k2,
                                )
                        }
                    } else {
                        &&& dup_vals(final(self)@, key@) == seq![val@]
                        &&& spec_get(final(self)@, key@) == Some(val@)
                        &&& forall|k2: Seq<u8>|
                            k2 != key@ ==> #[trigger] dup_vals(final(self)@, k2) == dup_vals(
                                old(self)@,
                                k2,
                            )
                        &&& final(self)@.len() == old(self)@.len() + (if key_present(
                            old(self)@,
                            key@,
                        ) {
                            0int
                        } else {
                            1int
                        })
                    }
                }),
            },
    {
        let ghost s0 = self@;
        let ghost f = self.flags;
        if !pf.allowed(&self.flags) {
            return Err(Error::InvalidArgument);
        }
        let lo = self.key_lower_bound(key);
        let ghost flo = lo as int;
        let present = lo < self.entries.len() && matches!(
            key_cmp(&self.flags, self.entries[lo].key.as_slice(), key),
            Cmp::Eq,
        );
        proof {
            if lo < self.entries@.len() {
                assert(self@[flo] == self.entries@[flo]@);
            }
            if present {
                assert forall|j: int| 0 <= j < flo implies #[trigger] s0[j].0 != key@ by {
                    lemma_key_lt_trichotomy(f, s0[j].0, key@);
                }
                lemma_dup_vals_first(s0, key@, flo);
            } else {
                lemma_sorted_tail_misses(f, s0, key@, flo);
            }
        }
        if !self.flags.dup_sort && pf.no_overwrite && present {
            return Err(Error::KeyExists);
        }
        if self.flags.dup_sort {
            let mut i = lo;
            while i < self.entries.len() && matches!(
                key_cmp(&self.flags, self.entries[i].key.as_slice(), key),
                Cmp::Eq,
            ) && matches!(val_cmp(&self.flags, self.entries[i].val.as_slice(), val), Cmp::Lt)
                invariant
                    self@ == s0,
                    self.flags == f,
                    self.entries@.len() == s0.len(),
                    flo <= i <= s0.len(),
                    sorted(f, s0),
                    forall|j: int| 0 <= j < flo ==> key_lt(f, #[trigger] s0[j].0, key@),
                    flo < s0.len() ==> !key_lt(f, s0[flo].0, key@),
                    forall|j: int| flo <= j < i ==> #[trigger] s0[j].0 == key@,
                    forall|j: int| flo <= j < i ==> val_lt(f, #[trigger] s0[j].1, val@),
                decreases s0.len() - i,
            {
                proof {
                    assert(self@[i as int] == self.entries@[i as int]@);
                    assert(s0[i as int].0 == key@);
                    assert(val_lt(f, s0[i as int].1, val@));
                }
                i = i + 1;
            }
            let ghost fi = i as int;
            proof {
                if i < self.entries.len() {
                    assert(self@[fi] == self.entries@[fi]@);
                }
            }
            let pair = i < self.entries.len() && matches!(
                key_cmp(&self.flags, self.entries[i].key.as_slice(), key),
                Cmp::Eq,
            ) && matches!(val_cmp(&self.flags, self.entries[i].val.as_slice(), val), Cmp::Eq);
            proof {
                lemma_dup_vals_contains(s0, key@, val@);
                if pair {
                    assert(s0[fi] == (key@, val@));
                } else {
                    assert forall|j: int| 0 <= j < s0.len() implies s0[j] != (key@, val@) by {
                        if j < flo {
                            lemma_key_lt_trichotomy(f, s0[j].0, key@);
                        } else if j < fi {
                            lemma_val_lt_trichotomy(f, s0[j].1, val@);
                        } else if j == fi {
                            lemma_val_lt_trichotomy(f, s0[fi].1, val@);
                        } else {
                            assert(entry_lt(f, s0[fi], s0[j]));
                            if s0[j] == (key@, val@) {
                                if fi > flo {
                                    assert(entry_lt(f, s0[fi - 1], s0[fi]));
                                }
                                lemma_key_lt_trichotomy(f, s0[fi].0, key@);
                                lemma_key_lt_trichotomy(f, key@, s0[fi].0);
                                lemma_val_lt_trichotomy(f, s0[fi].1, val@);
                            }
                        }
                    }
                }
            }
            let hit = if pf.no_dup_data {
                present
            } else {
                pair
            };
            if pf.no_overwrite && hit {
                return Err(Error::KeyExists);
            }
            if pf.append && self.entries.len() > 0 {
                let li = self.entries.len() - 1;
                proof {
                    assert(self@[li as int] == self.entries@[li as int]@);
                }
                if !matches!(key_cmp(&self.flags, self.entries[li].key.as_slice(), key), Cmp::Lt) {
                    return Err(Error::KeyExists);
                }
            }
            if pf.no_dup_data && pair {
                return Err(Error::KeyExists);
            }
            if pf.append_dup && self.entries.len() > 0 {
                let li = self.entries.len() - 1;
                proof {
                    assert(self@[li as int] == self.entries@[li as int]@);
                }
                let last_after = matches!(
                    key_cmp(&self.flags, self.entries[li].key.as_slice(), key),
                    Cmp::Lt,
                ) || (matches!(
                    key_cmp(&self.flags, self.entries[li].key.as_slice(), key),
                    Cmp::Eq,
                ) && matches!(val_cmp(&self.flags, self.entries[li].val.as_slice(), val), Cmp::Lt));
                if !last_after {
                    return Err(Error::KeyExists);
                }
            }
            if pair {
                return Ok(());
            }
            if self.entries.len() >= self.cap {
                return Err(Error::ResourceExhausted);
            }
            proof {
                // The new pair sorts strictly between its neighbours.
                assert forall|j: int| 0 <= j < fi implies entry_lt(
                    f,
                    #[trigger] s0[j],
                    (key@, val@),
                ) by {}
                assert forall|j: int| fi <= j < s0.len() implies entry_lt(
                    f,
                    (key@, val@),
                    #[trigger] s0[j],
                ) by {
                    if fi > flo {
                        assert(entry_lt(f, s0[fi - 1], s0[fi]));
                    }
                    lemma_key_lt_trichotomy(f, s0[fi].0, key@);
                    lemma_key_lt_trichotomy(f, key@, s0[fi].0);
                    lemma_val_lt_trichotomy(f, s0[fi].1, val@);
                    if j > fi {
                        assert(entry_lt(f, s0[fi], s0[j]));
                        lemma_entry_lt_transitive(f, (key@, val@), s0[fi], s0[j]);
                    }
                }
                lemma_insert_effects(f, s0, fi, (key@, val@));
            }
            let e = Entry {
                key: vstd::slice::slice_to_vec(key),
                val: vstd::slice::slice_to_vec(val),
            };
            let ghost prev_entries = self.entries@;
            self.entries.insert(i, e);
            proof {
                prev_entries.insert_ensures(fi, e);
                s0.insert_ensures(fi, (key@, val@));
                assert forall|m: int| 0 <= m < self@.len() implies self@[m] == s0.insert(
                    fi,
                    (key@, val@),
                )[m] by {
                    assert(self@[m] == self.entries@[m]@);
                    if m < fi {
                        assert(self.entries@[m] == prev_entries[m]);
                    } else if m > fi {
                        assert(self.entries@[m] == prev_entries[m - 1]);
                    }
                }
                assert(self@ =~= s0.insert(fi, (key@, val@)));
            }
            Ok(())
        } else {
            if pf.append && self.entries.len() > 0 {
                let li = self.entries.len() - 1;
                proof {
                    assert(self@[li as int] == self.entries@[li as int]@);
                }
                if !matches!(key_cmp(&self.flags, self.entries[li].key.as_slice(), key), Cmp::Lt) {
                    return Err(Error::KeyExists);
                }
            }
            if present {
                proof {
                    lemma_overwrite_effects(f, s0, flo, val@);
                }
                let e = Entry {
                    key: vstd::slice::slice_to_vec(key),
                    val: vstd::slice::slice_to_vec(val),
                };
                let ghost prev_entries = self.entries@;
                self.entries.remove(lo);
                let ghost mid_entries = self.entries@;
                self.entries.insert(lo, e);
                proof {
                    prev_entries.remove_ensures(flo);
                    mid_entries.insert_ensures(flo, e);
                    assert forall|m: int| 0 <= m < self@.len() implies self@[m] == s0.update(
                        flo,
                        (key@, val@),
                    )[m] by {
                        assert(self@[m] == self.entries@[m]@);
                        if m < flo {
                            assert(self.entries@[m] == mid_entries[m]);
                            assert(mid_entries[m] == prev_entries[m]);
                        } else if m > flo {
                            assert(self.entries@[m] == mid_entries[m - 1]);
                            assert(mid_entries[m - 1] == prev_entries[m]);
                        }
                    }
                    assert(self@ =~= s0.update(flo, (key@, val@)));
                    assert((key@, val@) == (s0[flo].0, val@));
                }
                return Ok(());
            }
            if self.entries.len() >= self.cap {
                return Err(Error::ResourceExhausted);
            }
            proof {
                assert forall|j: int| 0 <= j < flo implies entry_lt(
                    f,
                    #[trigger] s0[j],
                    (key@, val@),
                ) by {}
                assert forall|j: int| flo <= j < s0.len() implies entry_lt(
                    f,
                    (key@, val@),
                    #[trigger] s0[j],
                ) by {
                    lemma_key_lt_trichotomy(f, s0[flo].0, key@);
                    lemma_key_lt_trichotomy(f, key@, s0[flo].0);
                    if j > flo {
                        assert(entry_lt(f, s0[flo], s0[j]));
                        lemma_entry_lt_transitive(f, (key@, val@), s0[flo], s0[j]);
                    }
                }
                lemma_insert_effects(f, s0, flo, (key@, val@));
            }
            let e = Entry {
                key: vstd::slice::slice_to_vec(key),
                val: vstd::slice::slice_to_vec(val),
            };
            let ghost prev_entries = self.entries@;
            self.entries.insert(lo, e);
            proof {
                prev_entries.insert_ensures(flo, e);
                s0.insert_ensures(flo, (key@, val@));
                assert forall|m: int| 0 <= m < self@.len() implies self@[m] == s0.insert(
                    flo,
                    (key@, val@),
                )[m] by {
                    assert(self@[m] == self.entries@[m]@);
                    if m < flo {
                        assert(self.entries@[m] == prev_entries[m]);
                    } else if m > flo {
                        assert(self.entries@[m] == prev_entries[m - 1]);
                    }
                }
                assert(self@ =~= s0.insert(flo, (key@, val@)));
                // A fresh key holds exactly the one value.
                broadcast use vstd::seq_lib::group_to_multiset_ensures;
                broadcast use vstd::multiset::group_multiset_axioms;

                lemma_dup_vals_absent(s0, key@);
                let dv = dup_vals(self@, key@);
                vstd::multiset::lemma_insert_len(
                    dup_vals(s0, key@).to_multiset(),
                    val@,
                );
                vstd::multiset::lemma_insert_increases_count_by_1(
                    dup_vals(s0, key@).to_multiset(),
                    val@,
                );
                assert(dup_vals(s0, key@).to_multiset().len() == 0);
                assert(dv.to_multiset().len() == 1);
                assert(dv.to_multiset().contains(val@));
                assert(dv.contains(val@));
                assert(dv.len() == 1);
                assert(dv =~= seq![val@]);
            }
            Ok(())
        }
    }
}

} // verus!
