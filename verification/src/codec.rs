//! Fixed-size integer keys: an eight-byte big-endian encoding, so that the
//! byte order the store sorts by is the numeric order of the keys.

use vstd::prelude::*;

verus! {

/// The eight big-endian bytes of `k`.
pub open spec fn u64_be_bytes(k: u64) -> Seq<u8> {
    seq![
        ((k >> 56) & 0xff) as u8,
        ((k >> 48) & 0xff) as u8,
        ((k >> 40) & 0xff) as u8,
        ((k >> 32) & 0xff) as u8,
        ((k >> 24) & 0xff) as u8,
        ((k >> 16) & 0xff) as u8,
        ((k >> 8) & 0xff) as u8,
        (k & 0xff) as u8,
    ]
}

/// Two integers with the same big-endian bytes are the same integer.
pub proof fn lemma_u64_be_injective(a: u64, b: u64)
    requires
        u64_be_bytes(a) == u64_be_bytes(b),
    ensures
        a == b,
{
    assert(u64_be_bytes(a)[0] == u64_be_bytes(b)[0]);
    assert(u64_be_bytes(a)[1] == u64_be_bytes(b)[1]);
    assert(u64_be_bytes(a)[2] == u64_be_bytes(b)[2]);
    assert(u64_be_bytes(a)[3] == u64_be_bytes(b)[3]);
    assert(u64_be_bytes(a)[4] == u64_be_bytes(b)[4]);
    assert(u64_be_bytes(a)[5] == u64_be_bytes(b)[5]);
    assert(u64_be_bytes(a)[6] == u64_be_bytes(b)[6]);
    assert(u64_be_bytes(a)[7] == u64_be_bytes(b)[7]);
    assert((((a >> 56) & 0xff) as u8 == ((b >> 56) & 0xff) as u8 && ((a >> 48) & 0xff) as u8 == ((b
        >> 48) & 0xff) as u8 && ((a >> 40) & 0xff) as u8 == ((b >> 40) & 0xff) as u8 && ((a >> 32)
        & 0xff) as u8 == ((b >> 32) & 0xff) as u8 && ((a >> 24) & 0xff) as u8 == ((b >> 24)
        & 0xff) as u8 && ((a >> 16) & 0xff) as u8 == ((b >> 16) & 0xff) as u8 && ((a >> 8)
        & 0xff) as u8 == ((b >> 8) & 0xff) as u8 && (a & 0xff) as u8 == (b & 0xff) as u8) ==> a
        == b) by (bit_vector);
}

/// Encodes an integer key.
pub fn u64_to_be(k: u64) -> (r: Vec<u8>)
    ensures
        r@ == u64_be_bytes(k),
        r@.len() == 8,
{
    let mut r: Vec<u8> = Vec::new();
    r.push(((k >> 56) & 0xff) as u8);
    r.push(((k >> 48) & 0xff) as u8);
    r.push(((k >> 40) & 0xff) as u8);
    r.push(((k >> 32) & 0xff) as u8);
    r.push(((k >> 24) & 0xff) as u8);
    r.push(((k >> 16) & 0xff) as u8);
    r.push(((k >> 8) & 0xff) as u8);
    r.push((k & 0xff) as u8);
    proof {
        assert(r@ =~= u64_be_bytes(k));
    }
    r
}

/// Decodes an eight-byte big-endian key: the unique integer those bytes
/// encode.
pub fn u64_from_be(b: &[u8]) -> (r: u64)
    requires
        b@.len() == 8,
    ensures
        u64_be_bytes(r) == b@,
{
    let x0 = b[0] as u64;
    let x1 = b[1] as u64;
    let x2 = b[2] as u64;
    let x3 = b[3] as u64;
    let x4 = b[4] as u64;
    let x5 = b[5] as u64;
    let x6 = b[6] as u64;
    let x7 = b[7] as u64;
    let r = (x0 << 56) | (x1 << 48) | (x2 << 40) | (x3 << 32) | (x4 << 24) | (x5 << 16) | (x6 << 8)
        | x7;
    proof {
        assert((x0 < 256 && x1 < 256 && x2 < 256 && x3 < 256 && x4 < 256 && x5 < 256 && x6 < 256
            && x7 < 256) ==> (((((x0 << 56) | (x1 << 48) | (x2 << 40) | (x3 << 32) | (x4 << 24) | (
        x5 << 16) | (x6 << 8) | x7) >> 56) & 0xff) == x0 && ((((x0 << 56) | (x1 << 48) | (x2 << 40)
            | (x3 << 32) | (x4 << 24) | (x5 << 16) | (x6 << 8) | x7) >> 48) & 0xff) == x1 && ((((x0
            << 56) | (x1 << 48) | (x2 << 40) | (x3 << 32) | (x4 << 24) | (x5 << 16) | (x6 << 8)
            | x7) >> 40) & 0xff) == x2 && ((((x0 << 56) | (x1 << 48) | (x2 << 40) | (x3 << 32) | (
        x4 << 24) | (x5 << 16) | (x6 << 8) | x7) >> 32) & 0xff) == x3 && ((((x0 << 56) | (x1 << 48)
            | (x2 << 40) | (x3 << 32) | (x4 << 24) | (x5 << 16) | (x6 << 8) | x7) >> 24) & 0xff)
            == x4 && ((((x0 << 56) | (x1 << 48) | (x2 << 40) | (x3 << 32) | (x4 << 24) | (x5 << 16)
            | (x6 << 8) | x7) >> 16) & 0xff) == x5 && ((((x0 << 56) | (x1 << 48) | (x2 << 40) | (x3
            << 32) | (x4 << 24) | (x5 << 16) | (x6 << 8) | x7) >> 8) & 0xff) == x6 && (((x0 << 56)
            | (x1 << 48) | (x2 << 40) | (x3 << 32) | (x4 << 24) | (x5 << 16) | (x6 << 8) | x7)
            & 0xff) == x7)) by (bit_vector);
        let y0 = b@[0];
        let y1 = b@[1];
        let y2 = b@[2];
        let y3 = b@[3];
        let y4 = b@[4];
        let y5 = b@[5];
        let y6 = b@[6];
        let y7 = b@[7];
        assert(((y0 as u64) as u8) == y0 && ((y1 as u64) as u8) == y1 && ((y2 as u64) as u8) == y2
            && ((y3 as u64) as u8) == y3 && ((y4 as u64) as u8) == y4 && ((y5 as u64) as u8) == y5
            && ((y6 as u64) as u8) == y6 && ((y7 as u64) as u8) == y7) by (bit_vector);
        assert(u64_be_bytes(r) =~= b@);
    }
    r
}

/// The byte order of the encodings is the numeric order of the keys: the
/// order an integer-keyed database sorts by is the numeric one.
pub proof fn lemma_u64_be_order(a: u64, b: u64)
    ensures
        crate::order::lex_lt(u64_be_bytes(a), u64_be_bytes(b)) <==> a < b,
{
    reveal_with_fuel(crate::order::lex_lt, 10);
    let sa = u64_be_bytes(a);
    let sb = u64_be_bytes(b);
    assert(sa.skip(1) =~= seq![sa[1], sa[2], sa[3], sa[4], sa[5], sa[6], sa[7]]);
    assert(sb.skip(1) =~= seq![sb[1], sb[2], sb[3], sb[4], sb[5], sb[6], sb[7]]);
    assert(sa.skip(1).skip(1) =~= seq![sa[2], sa[3], sa[4], sa[5], sa[6], sa[7]]);
    assert(sb.skip(1).skip(1) =~= seq![sb[2], sb[3], sb[4], sb[5], sb[6], sb[7]]);
    assert(sa.skip(1).skip(1).skip(1) =~= seq![sa[3], sa[4], sa[5], sa[6], sa[7]]);
    assert(sb.skip(1).skip(1).skip(1) =~= seq![sb[3], sb[4], sb[5], sb[6], sb[7]]);
    assert(sa.skip(1).skip(1).skip(1).skip(1) =~= seq![sa[4], sa[5], sa[6], sa[7]]);
    assert(sb.skip(1).skip(1).skip(1).skip(1) =~= seq![sb[4], sb[5], sb[6], sb[7]]);
    assert(sa.skip(1).skip(1).skip(1).skip(1).skip(1) =~= seq![sa[5], sa[6], sa[7]]);
    assert(sb.skip(1).skip(1).skip(1).skip(1).skip(1) =~= seq![sb[5], sb[6], sb[7]]);
    assert(sa.skip(1).skip(1).skip(1).skip(1).skip(1).skip(1) =~= seq![sa[6], sa[7]]);
    assert(sb.skip(1).skip(1).skip(1).skip(1).skip(1).skip(1) =~= seq![sb[6], sb[7]]);
    assert(sa.skip(1).skip(1).skip(1).skip(1).skip(1).skip(1).skip(1) =~= seq![sa[7]]);
    assert(sb.skip(1).skip(1).skip(1).skip(1).skip(1).skip(1).skip(1) =~= seq![sb[7]]);
    assert(seq![sa[7]].skip(1) =~= Seq::<u8>::empty());
    assert(seq![sb[7]].skip(1) =~= Seq::<u8>::empty());
    let c = crate::order::lex_lt(sa, sb);
    assert(c == ((sa[0] < sb[0]) || (sa[0] == sb[0] && sa[1] < sb[1]) || (sa[0] == sb[0] && sa[1] == sb[1] && sa[2] < sb[2]) || (sa[0] == sb[0] && sa[1] == sb[1] && sa[2] == sb[2] && sa[3] < sb[3]) || (sa[0] == sb[0] && sa[1] == sb[1] && sa[2] == sb[2] && sa[3] == sb[3] && sa[4] < sb[4]) || (sa[0] == sb[0] && sa[1] == sb[1] && sa[2] == sb[2] && sa[3] == sb[3] && sa[4] == sb[4] && sa[5] < sb[5]) || (sa[0] == sb[0] && sa[1] == sb[1] && sa[2] == sb[2] && sa[3] == sb[3] && sa[4] == sb[4] && sa[5] == sb[5] && sa[6] < sb[6]) || (sa[0] == sb[0] && sa[1] == sb[1] && sa[2] == sb[2] && sa[3] == sb[3] && sa[4] == sb[4] && sa[5] == sb[5] && sa[6] == sb[6] && sa[7] < sb[7])));
    assert((a < b) <==> (((((a >> 56) & 0xff) as u8) < (((b >> 56) & 0xff) as u8)) || ((((a >> 56) & 0xff) as u8) == (((b >> 56) & 0xff) as u8) && (((a >> 48) & 0xff) as u8) < (((b >> 48) & 0xff) as u8)) || ((((a >> 56) & 0xff) as u8) == (((b >> 56) & 0xff) as u8) && (((a >> 48) & 0xff) as u8) == (((b >> 48) & 0xff) as u8) && (((a >> 40) & 0xff) as u8) < (((b >> 40) & 0xff) as u8)) || ((((a >> 56) & 0xff) as u8) == (((b >> 56) & 0xff) as u8) && (((a >> 48) & 0xff) as u8) == (((b >> 48) & 0xff) as u8) && (((a >> 40) & 0xff) as u8) == (((b >> 40) & 0xff) as u8) && (((a >> 32) & 0xff) as u8) < (((b >> 32) & 0xff) as u8)) || ((((a >> 56) & 0xff) as u8) == (((b >> 56) & 0xff) as u8) && (((a >> 48) & 0xff) as u8) == (((b >> 48) & 0xff) as u8) && (((a >> 40) & 0xff) as u8) == (((b >> 40) & 0xff) as u8) && (((a >> 32) & 0xff) as u8) == (((b >> 32) & 0xff) as u8) && (((a >> 24) & 0xff) as u8) < (((b >> 24) & 0xff) as u8)) || ((((a >> 56) & 0xff) as u8) == (((b >> 56) & 0xff) as u8) && (((a >> 48) & 0xff) as u8) == (((b >> 48) & 0xff) as u8) && (((a >> 40) & 0xff) as u8) == (((b >> 40) & 0xff) as u8) && (((a >> 32) & 0xff) as u8) == (((b >> 32) & 0xff) as u8) && (((a >> 24) & 0xff) as u8) == (((b >> 24) & 0xff) as u8) && (((a >> 16) & 0xff) as u8) < (((b >> 16) & 0xff) as u8)) || ((((a >> 56) & 0xff) as u8) == (((b >> 56) & 0xff) as u8) && (((a >> 48) & 0xff) as u8) == (((b >> 48) & 0xff) as u8) && (((a >> 40) & 0xff) as u8) == (((b >> 40) & 0xff) as u8) && (((a >> 32) & 0xff) as u8) == (((b >> 32) & 0xff) as u8) && (((a >> 24) & 0xff) as u8) == (((b >> 24) & 0xff) as u8) && (((a >> 16) & 0xff) as u8) == (((b >> 16) & 0xff) as u8) && (((a >> 8) & 0xff) as u8) < (((b >> 8) & 0xff) as u8)) || ((((a >> 56) & 0xff) as u8) == (((b >> 56) & 0xff) as u8) && (((a >> 48) & 0xff) as u8) == (((b >> 48) & 0xff) as u8) && (((a >> 40) & 0xff) as u8) == (((b >> 40) & 0xff) as u8) && (((a >> 32) & 0xff) as u8) == (((b >> 32) & 0xff) as u8) && (((a >> 24) & 0xff) as u8) == (((b >> 24) & 0xff) as u8) && (((a >> 16) & 0xff) as u8) == (((b >> 16) & 0xff) as u8) && (((a >> 8) & 0xff) as u8) == (((b >> 8) & 0xff) as u8) && ((a & 0xff) as u8) < ((b & 0xff) as u8)))) by (bit_vector);
}

/// Encoding then decoding an integer key hands back the key.
pub proof fn lemma_u64_be_round_trip(k: u64, r: u64)
    requires
        u64_be_bytes(r) == u64_be_bytes(k),
    ensures
        r == k,
{
    lemma_u64_be_injective(r, k);
}

} // verus!
