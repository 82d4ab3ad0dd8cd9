//! Numbers in network byte order.

use vstd::prelude::*;

verus! {

/// The two bytes of `x`, highest first.
pub open spec fn be16(x: u16) -> Seq<u8> {
    seq![(x >> 8) as u8, x as u8]
}

/// The four bytes of `x`, highest first.
pub open spec fn be32(x: u32) -> Seq<u8> {
    seq![(x >> 24) as u8, (x >> 16) as u8, (x >> 8) as u8, x as u8]
}

/// The eight bytes of `x`, highest first.
pub open spec fn be64(x: u64) -> Seq<u8> {
    seq![
        (x >> 56) as u8,
        (x >> 48) as u8,
        (x >> 40) as u8,
        (x >> 32) as u8,
        (x >> 24) as u8,
        (x >> 16) as u8,
        (x >> 8) as u8,
        x as u8,
    ]
}

/// The sixteen bytes of `x`, highest first.
pub open spec fn be128(x: u128) -> Seq<u8> {
    be64((x >> 64) as u64) + be64(x as u64)
}

/// The number that the first eight bytes of `s` spell, highest first.
pub open spec fn read_be64(s: Seq<u8>) -> u64 {
    (s[0] as u64) << 56 | (s[1] as u64) << 48 | (s[2] as u64) << 40 | (s[3] as u64) << 32 | (
    s[4] as u64) << 24 | (s[5] as u64) << 16 | (s[6] as u64) << 8 | (s[7] as u64)
}

/// Reading back what was written gives the number again.
pub proof fn law_be64_round_trip(x: u64)
    ensures
        be64(x).len() == 8,
        read_be64(be64(x)) == x,
{
    assert((((x >> 56) as u8) as u64) << 56 | (((x >> 48) as u8) as u64) << 48 | (((x
        >> 40) as u8) as u64) << 40 | (((x >> 32) as u8) as u64) << 32 | (((x >> 24) as u8) as u64)
        << 24 | (((x >> 16) as u8) as u64) << 16 | (((x >> 8) as u8) as u64) << 8 | ((
    x as u8) as u64) == x) by (bit_vector);
}

/// Writing back what was read gives the bytes again.
pub proof fn law_read_then_write(s: Seq<u8>)
    requires
        s.len() >= 8,
    ensures
        be64(read_be64(s)) == s.take(8),
{
    let (a, b, c, d, e, f, g, h) = (s[0], s[1], s[2], s[3], s[4], s[5], s[6], s[7]);
    let x = (a as u64) << 56 | (b as u64) << 48 | (c as u64) << 40 | (d as u64) << 32 | (e as u64)
        << 24 | (f as u64) << 16 | (g as u64) << 8 | (h as u64);
    assert((x >> 56) as u8 == a && (x >> 48) as u8 == b && (x >> 40) as u8 == c && (x >> 32) as u8
        == d && (x >> 24) as u8 == e && (x >> 16) as u8 == f && (x >> 8) as u8 == g && x as u8 == h)
        by (bit_vector)
        requires
            x == (a as u64) << 56 | (b as u64) << 48 | (c as u64) << 40 | (d as u64) << 32 | (
            e as u64) << 24 | (f as u64) << 16 | (g as u64) << 8 | (h as u64),
    ;
    assert(be64(read_be64(s)) =~= s.take(8));
}

/// Appends the bytes of `x`.
pub fn put_u16(out: &mut Vec<u8>, x: u16)
    ensures
        final(out)@ == old(out)@ + be16(x),
{
    out.push((x >> 8) as u8);
    out.push(x as u8);
    assert(out@ =~= old(out)@ + be16(x));
}

/// Appends the bytes of `x`.
pub fn put_u32(out: &mut Vec<u8>, x: u32)
    ensures
        final(out)@ == old(out)@ + be32(x),
{
    out.push((x >> 24) as u8);
    out.push((x >> 16) as u8);
    out.push((x >> 8) as u8);
    out.push(x as u8);
    assert(out@ =~= old(out)@ + be32(x));
}

/// Appends the bytes of `x`.
pub fn put_u64(out: &mut Vec<u8>, x: u64)
    ensures
        final(out)@ == old(out)@ + be64(x),
{
    out.push((x >> 56) as u8);
    out.push((x >> 48) as u8);
    out.push((x >> 40) as u8);
    out.push((x >> 32) as u8);
    out.push((x >> 24) as u8);
    out.push((x >> 16) as u8);
    out.push((x >> 8) as u8);
    out.push(x as u8);
    assert(out@ =~= old(out)@ + be64(x));
}

/// Appends the bytes of `x`.
pub fn put_u128(out: &mut Vec<u8>, x: u128)
    ensures
        final(out)@ == old(out)@ + be128(x),
{
    put_u64(out, (x >> 64) as u64);
    put_u64(out, x as u64);
    assert(out@ =~= old(out)@ + be128(x));
}

/// Appends a slice.
pub fn put_slice(out: &mut Vec<u8>, data: &[u8])
    ensures
        final(out)@ == old(out)@ + data@,
{
    let mut i: usize = 0;
    let ghost before = out@;
    assert(data@.take(0) =~= Seq::<u8>::empty());
    while i < data.len()
        invariant
            i <= data@.len(),
            out@ == before + data@.take(i as int),
        decreases data@.len() - i,
    {
        out.push(data[i]);
        assert(data@.take(i + 1) =~= data@.take(i as int).push(data@[i as int]));
        i = i + 1;
    }
    assert(data@.take(data@.len() as int) =~= data@);
}

/// Reads the number that the first eight bytes of `s` spell.
pub fn get_u64(s: &[u8]) -> (r: u64)
    requires
        s@.len() >= 8,
    ensures
        r == read_be64(s@),
{
    (s[0] as u64) << 56 | (s[1] as u64) << 48 | (s[2] as u64) << 40 | (s[3] as u64) << 32 | (
    s[4] as u64) << 24 | (s[5] as u64) << 16 | (s[6] as u64) << 8 | (s[7] as u64)
}

/// Whether two byte strings are the same.
pub fn same_bytes(a: &[u8], b: &[u8]) -> (r: bool)
    ensures
        r <==> a@ == b@,
{
    if a.len() != b.len() {
        return false;
    }
    let mut i: usize = 0;
    while i < a.len()
        invariant
            i <= a@.len(),
            a@.len() == b@.len(),
            forall|j: int| 0 <= j < i ==> a@[j] == b@[j],
        decreases a@.len() - i,
    {
        if a[i] != b[i] {
            assert(a@[i as int] != b@[i as int]);
            return false;
        }
        i = i + 1;
    }
    assert(a@ =~= b@);
    true
}

/// A copy of a byte string.
pub fn copy_bytes(a: &[u8]) -> (r: Vec<u8>)
    ensures
        r@ == a@,
{
    let mut r: Vec<u8> = Vec::new();
    put_slice(&mut r, a);
    assert(r@ =~= a@);
    r
}

/// Numbers are spelled in network byte order: the byte at each place is the
/// number's digit to the base 256 there, the highest first.
pub proof fn law_highest_byte_first(a: u16, b: u32, c: u64, d: u128)
    ensures
        be16(a).len() == 2,
        be16(a)[0] == a / 256,
        be16(a)[1] == a % 256,
        be32(b).len() == 4,
        be32(b)[0] == b / 16_777_216,
        be32(b)[1] == b / 65_536 % 256,
        be32(b)[2] == b / 256 % 256,
        be32(b)[3] == b % 256,
        be64(c).len() == 8,
        be64(c)[0] == c / 72_057_594_037_927_936,
        be64(c)[1] == c / 281_474_976_710_656 % 256,
        be64(c)[2] == c / 1_099_511_627_776 % 256,
        be64(c)[3] == c / 4_294_967_296 % 256,
        be64(c)[4] == c / 16_777_216 % 256,
        be64(c)[5] == c / 65_536 % 256,
        be64(c)[6] == c / 256 % 256,
        be64(c)[7] == c % 256,
        be128(d).len() == 16,
        be128(d).take(8) == be64((d / 18_446_744_073_709_551_616) as u64),
        be128(d).skip(8) == be64((d % 18_446_744_073_709_551_616) as u64),
{
    assert((a >> 8) as u8 == a / 256 && a as u8 == a % 256) by (bit_vector);
    assert((b >> 24) as u8 == b / 16_777_216 && (b >> 16) as u8 == b / 65_536 % 256 && (b
        >> 8) as u8 == b / 256 % 256 && b as u8 == b % 256) by (bit_vector);
    assert((c >> 56) as u8 == c / 72_057_594_037_927_936 && (c >> 48) as u8 == c
        / 281_474_976_710_656 % 256 && (c >> 40) as u8 == c / 1_099_511_627_776 % 256 && (c
        >> 32) as u8 == c / 4_294_967_296 % 256 && (c >> 24) as u8 == c / 16_777_216 % 256 && (c
        >> 16) as u8 == c / 65_536 % 256 && (c >> 8) as u8 == c / 256 % 256 && c as u8 == c % 256)
        by (bit_vector);
    assert((d >> 64) as u64 == (d / 18_446_744_073_709_551_616) as u64 && d as u64 == (d
        % 18_446_744_073_709_551_616) as u64) by (bit_vector);
    assert(be128(d).take(8) =~= be64((d >> 64) as u64));
    assert(be128(d).skip(8) =~= be64(d as u64));
}

} // verus!
