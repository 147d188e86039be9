//! Fixed-width big-endian integers on the wire.
//!
//! Decoding functions take the whole input and a position and hand back the value
//! together with the position just behind it.  Encoding functions append to an
//! output buffer.  The byte order itself is delegated to the `byteorder` crate.

use crate::error::Error;
use vstd::prelude::*;
use vstd::slice::slice_subrange;

verus! {

/// The unsigned 16-bit value whose big-endian form starts at `p`.
pub open spec fn spec_u16_at(s: Seq<u8>, p: int) -> u16 {
    (s[p] as int * 0x100 + s[p + 1] as int) as u16
}

/// The unsigned 32-bit value whose big-endian form starts at `p`.
pub open spec fn spec_u32_at(s: Seq<u8>, p: int) -> u32 {
    (s[p] as int * 0x100_0000 + s[p + 1] as int * 0x1_0000 + s[p + 2] as int * 0x100 + s[p + 3] as int) as u32
}

/// The unsigned 64-bit value whose big-endian form starts at `p`.
pub open spec fn spec_u64_at(s: Seq<u8>, p: int) -> u64 {
    (spec_u32_at(s, p) as int * 0x1_0000_0000 + spec_u32_at(s, p + 4) as int) as u64
}

/// Big-endian form of an unsigned 16-bit value.
pub open spec fn spec_u16_bytes(n: u16) -> Seq<u8> {
    seq![(n / 0x100) as u8, (n % 0x100) as u8]
}

/// Big-endian form of an unsigned 32-bit value.
pub open spec fn spec_u32_bytes(n: u32) -> Seq<u8> {
    seq![
        (n / 0x100_0000) as u8,
        (n / 0x1_0000 % 0x100) as u8,
        (n / 0x100 % 0x100) as u8,
        (n % 0x100) as u8,
    ]
}

/// Big-endian form of an unsigned 64-bit value.
pub open spec fn spec_u64_bytes(n: u64) -> Seq<u8> {
    spec_u32_bytes((n / 0x1_0000_0000) as u32) + spec_u32_bytes((n % 0x1_0000_0000) as u32)
}

/// Two's complement reading of 16 bits.
pub open spec fn spec_i16_of(u: u16) -> i16 {
    if u >= 0x8000 {
        (u - 0x1_0000) as i16
    } else {
        u as i16
    }
}

/// Two's complement reading of 32 bits.
pub open spec fn spec_i32_of(u: u32) -> i32 {
    if u >= 0x8000_0000 {
        (u - 0x1_0000_0000) as i32
    } else {
        u as i32
    }
}

/// Two's complement reading of 64 bits.
pub open spec fn spec_i64_of(u: u64) -> i64 {
    if u >= 0x8000_0000_0000_0000 {
        (u - 0x1_0000_0000_0000_0000) as i64
    } else {
        u as i64
    }
}

/// The 16 bits that represent `i` in two's complement.
pub open spec fn spec_u16_of(i: i16) -> u16 {
    if i < 0 {
        (i + 0x1_0000) as u16
    } else {
        i as u16
    }
}

/// The 32 bits that represent `i` in two's complement.
pub open spec fn spec_u32_of(i: i32) -> u32 {
    if i < 0 {
        (i + 0x1_0000_0000) as u32
    } else {
        i as u32
    }
}

/// The 64 bits that represent `i` in two's complement.
pub open spec fn spec_u64_of(i: i64) -> u64 {
    if i < 0 {
        (i + 0x1_0000_0000_0000_0000) as u64
    } else {
        i as u64
    }
}

/// Whether `n` bytes are available at position `p` of `s`.
pub open spec fn spec_available(s: Seq<u8>, p: int, n: int) -> bool {
    0 <= p && 0 <= n && p + n <= s.len()
}

pub open spec fn spec_read_u8(s: Seq<u8>, p: int) -> Result<(u8, int), Error> {
    if spec_available(s, p, 1) {
        Ok((s[p], p + 1))
    } else {
        Err(Error::UnexpectedEof)
    }
}

pub open spec fn spec_read_u16(s: Seq<u8>, p: int) -> Result<(u16, int), Error> {
    if spec_available(s, p, 2) {
        Ok((spec_u16_at(s, p), p + 2))
    } else {
        Err(Error::UnexpectedEof)
    }
}

pub open spec fn spec_read_u32(s: Seq<u8>, p: int) -> Result<(u32, int), Error> {
    if spec_available(s, p, 4) {
        Ok((spec_u32_at(s, p), p + 4))
    } else {
        Err(Error::UnexpectedEof)
    }
}

pub open spec fn spec_read_u64(s: Seq<u8>, p: int) -> Result<(u64, int), Error> {
    if spec_available(s, p, 8) {
        Ok((spec_u64_at(s, p), p + 8))
    } else {
        Err(Error::UnexpectedEof)
    }
}

pub open spec fn spec_read_i16(s: Seq<u8>, p: int) -> Result<(i16, int), Error> {
    if spec_available(s, p, 2) {
        Ok((spec_i16_of(spec_u16_at(s, p)), p + 2))
    } else {
        Err(Error::UnexpectedEof)
    }
}

pub open spec fn spec_read_i32(s: Seq<u8>, p: int) -> Result<(i32, int), Error> {
    if spec_available(s, p, 4) {
        Ok((spec_i32_of(spec_u32_at(s, p)), p + 4))
    } else {
        Err(Error::UnexpectedEof)
    }
}

pub open spec fn spec_read_i64(s: Seq<u8>, p: int) -> Result<(i64, int), Error> {
    if spec_available(s, p, 8) {
        Ok((spec_i64_of(spec_u64_at(s, p)), p + 8))
    } else {
        Err(Error::UnexpectedEof)
    }
}

/// The `n` bytes at position `p`, or an end-of-input error.
pub open spec fn spec_read_bytes(s: Seq<u8>, p: int, n: int) -> Result<(Seq<u8>, int), Error> {
    if spec_available(s, p, n) {
        Ok((s.subrange(p, p + n), p + n))
    } else {
        Err(Error::UnexpectedEof)
    }
}

/// What a decoding function owes: on success a value whose view is the expected one and
/// the expected end position, on failure the expected error.
pub open spec fn decoded<T: View>(r: Result<(T, usize), Error>, expected: Result<(T::V, int), Error>) -> bool {
    match expected {
        Ok((v, p)) => r matches Ok((rv, rp)) && rv@ == v && rp as int == p,
        Err(e) => r == Err::<(T, usize), Error>(e),
    }
}

/// `e` is what stands in `s` from position `p` on.
pub open spec fn occurs_at(s: Seq<u8>, p: int, e: Seq<u8>) -> bool {
    0 <= p && p + e.len() <= s.len() && s.subrange(p, p + e.len()) == e
}

/// Where a concatenation occurs, both halves occur, one behind the other.
pub proof fn lemma_occurs_split(s: Seq<u8>, p: int, a: Seq<u8>, b: Seq<u8>)
    requires
        occurs_at(s, p, a + b),
    ensures
        occurs_at(s, p, a),
        occurs_at(s, p + a.len(), b),
{
    let ab = a + b;
    assert(s.subrange(p, p + a.len()) =~= ab.subrange(0, a.len() as int));
    assert(ab.subrange(0, a.len() as int) =~= a);
    assert(s.subrange(p + a.len(), p + a.len() + b.len()) =~= ab.subrange(a.len() as int, ab.len() as int));
    assert(ab.subrange(a.len() as int, ab.len() as int) =~= b);
}

/// A byte of an occurrence is the byte of the input at the shifted position.
pub proof fn lemma_occurs_index(s: Seq<u8>, p: int, e: Seq<u8>, i: int)
    requires
        occurs_at(s, p, e),
        0 <= i < e.len(),
    ensures
        s[p + i] == e[i],
{
    assert(s.subrange(p, p + e.len())[i] == s[p + i]);
}

/// Reads an unsigned 16 bit integer from the first two bytes of `buf` with
/// `byteorder::BigEndian::read_u16`: the first byte is the more significant one.
#[verifier::external_body]
fn be_u16(buf: &[u8]) -> (r: u16)
    requires
        buf@.len() >= 2,
    ensures
        r == spec_u16_at(buf@, 0),
{
    <byteorder::BigEndian as byteorder::ByteOrder>::read_u16(buf)
}

/// Reads an unsigned 32 bit integer from the first four bytes of `buf` with
/// `byteorder::BigEndian::read_u32`: the first byte is the most significant one.
#[verifier::external_body]
fn be_u32(buf: &[u8]) -> (r: u32)
    requires
        buf@.len() >= 4,
    ensures
        r == spec_u32_at(buf@, 0),
{
    <byteorder::BigEndian as byteorder::ByteOrder>::read_u32(buf)
}

/// Reads an unsigned 64 bit integer from the first eight bytes of `buf` with
/// `byteorder::BigEndian::read_u64`: the first byte is the most significant one.
#[verifier::external_body]
fn be_u64(buf: &[u8]) -> (r: u64)
    requires
        buf@.len() >= 8,
    ensures
        r == spec_u64_at(buf@, 0),
{
    <byteorder::BigEndian as byteorder::ByteOrder>::read_u64(buf)
}

/// The two bytes that `byteorder::BigEndian::write_u16` stores for `n`, most
/// significant byte first.
#[verifier::external_body]
fn u16_be(n: u16) -> (r: [u8; 2])
    ensures
        r@ == spec_u16_bytes(n),
{
    let mut buf = [0u8; 2];
    <byteorder::BigEndian as byteorder::ByteOrder>::write_u16(&mut buf, n);
    buf
}

/// The four bytes that `byteorder::BigEndian::write_u32` stores for `n`, most
/// significant byte first.
#[verifier::external_body]
fn u32_be(n: u32) -> (r: [u8; 4])
    ensures
        r@ == spec_u32_bytes(n),
{
    let mut buf = [0u8; 4];
    <byteorder::BigEndian as byteorder::ByteOrder>::write_u32(&mut buf, n);
    buf
}

/// The eight bytes that `byteorder::BigEndian::write_u64` stores for `n`, most
/// significant byte first.
#[verifier::external_body]
fn u64_be(n: u64) -> (r: [u8; 8])
    ensures
        r@ == spec_u64_bytes(n),
{
    let mut buf = [0u8; 8];
    <byteorder::BigEndian as byteorder::ByteOrder>::write_u64(&mut buf, n);
    buf
}

pub fn i16_of(u: u16) -> (r: i16)
    ensures
        r == spec_i16_of(u),
{
    if u >= 0x8000 {
        ((u - 0x8000) as i16) - 0x7FFF - 1
    } else {
        u as i16
    }
}

pub fn i32_of(u: u32) -> (r: i32)
    ensures
        r == spec_i32_of(u),
{
    if u >= 0x8000_0000 {
        ((u - 0x8000_0000) as i32) - 0x7FFF_FFFF - 1
    } else {
        u as i32
    }
}

pub fn i64_of(u: u64) -> (r: i64)
    ensures
        r == spec_i64_of(u),
{
    if u >= 0x8000_0000_0000_0000 {
        ((u - 0x8000_0000_0000_0000) as i64) - 0x7FFF_FFFF_FFFF_FFFF - 1
    } else {
        u as i64
    }
}

pub fn u16_of(i: i16) -> (r: u16)
    ensures
        r == spec_u16_of(i),
{
    if i < 0 {
        ((i + 0x7FFF + 1) as u16) + 0x8000
    } else {
        i as u16
    }
}

pub fn u32_of(i: i32) -> (r: u32)
    ensures
        r == spec_u32_of(i),
{
    if i < 0 {
        ((i + 0x7FFF_FFFF + 1) as u32) + 0x8000_0000
    } else {
        i as u32
    }
}

pub fn u64_of(i: i64) -> (r: u64)
    ensures
        r == spec_u64_of(i),
{
    if i < 0 {
        ((i + 0x7FFF_FFFF_FFFF_FFFF + 1) as u64) + 0x8000_0000_0000_0000
    } else {
        i as u64
    }
}

/// Whether `n` bytes can be read at `pos`.
pub fn available(data: &[u8], pos: usize, n: usize) -> (r: bool)
    ensures
        r == spec_available(data@, pos as int, n as int),
        r ==> pos + n <= data.len(),
{
    pos <= data.len() && n <= data.len() - pos
}

pub fn read_u8(data: &[u8], pos: usize) -> (r: Result<(u8, usize), Error>)
    ensures
        decoded(r, spec_read_u8(data@, pos as int)),
        advanced(r, data@, pos),
{
    if !available(data, pos, 1) {
        return Err(Error::UnexpectedEof);
    }
    Ok((data[pos], pos + 1))
}

pub fn read_u16(data: &[u8], pos: usize) -> (r: Result<(u16, usize), Error>)
    ensures
        decoded(r, spec_read_u16(data@, pos as int)),
        advanced(r, data@, pos),
{
    if !available(data, pos, 2) {
        return Err(Error::UnexpectedEof);
    }
    let v = be_u16(slice_subrange(data, pos, pos + 2));
    Ok((v, pos + 2))
}

pub fn read_u32(data: &[u8], pos: usize) -> (r: Result<(u32, usize), Error>)
    ensures
        decoded(r, spec_read_u32(data@, pos as int)),
        advanced(r, data@, pos),
{
    if !available(data, pos, 4) {
        return Err(Error::UnexpectedEof);
    }
    let v = be_u32(slice_subrange(data, pos, pos + 4));
    Ok((v, pos + 4))
}

pub fn read_u64(data: &[u8], pos: usize) -> (r: Result<(u64, usize), Error>)
    ensures
        decoded(r, spec_read_u64(data@, pos as int)),
        advanced(r, data@, pos),
{
    if !available(data, pos, 8) {
        return Err(Error::UnexpectedEof);
    }
    let v = be_u64(slice_subrange(data, pos, pos + 8));
    Ok((v, pos + 8))
}

pub fn read_i16(data: &[u8], pos: usize) -> (r: Result<(i16, usize), Error>)
    ensures
        decoded(r, spec_read_i16(data@, pos as int)),
        advanced(r, data@, pos),
{
    match read_u16(data, pos) {
        Ok((v, p)) => Ok((i16_of(v), p)),
        Err(e) => Err(e),
    }
}

pub fn read_i32(data: &[u8], pos: usize) -> (r: Result<(i32, usize), Error>)
    ensures
        decoded(r, spec_read_i32(data@, pos as int)),
        advanced(r, data@, pos),
{
    match read_u32(data, pos) {
        Ok((v, p)) => Ok((i32_of(v), p)),
        Err(e) => Err(e),
    }
}

pub fn read_i64(data: &[u8], pos: usize) -> (r: Result<(i64, usize), Error>)
    ensures
        decoded(r, spec_read_i64(data@, pos as int)),
        advanced(r, data@, pos),
{
    match read_u64(data, pos) {
        Ok((v, p)) => Ok((i64_of(v), p)),
        Err(e) => Err(e),
    }
}

/// Copies the `n` bytes at `pos` out of the input.
pub fn read_bytes(data: &[u8], pos: usize, n: usize) -> (r: Result<(Vec<u8>, usize), Error>)
    ensures
        decoded(r, spec_read_bytes(data@, pos as int, n as int)),
        advanced(r, data@, pos),
{
    if !available(data, pos, n) {
        return Err(Error::UnexpectedEof);
    }
    let v = vstd::slice::slice_to_vec(slice_subrange(data, pos, pos + n));
    Ok((v, pos + n))
}

pub fn write_u8(out: &mut Vec<u8>, v: u8)
    ensures
        final(out)@ == old(out)@ + seq![v],
{
    out.push(v);
    assert(out@ =~= old(out)@ + seq![v]);
}

pub fn write_u16(out: &mut Vec<u8>, v: u16)
    ensures
        final(out)@ == old(out)@ + spec_u16_bytes(v),
{
    let b = u16_be(v);
    out.extend_from_slice(b.as_slice());
}

pub fn write_u32(out: &mut Vec<u8>, v: u32)
    ensures
        final(out)@ == old(out)@ + spec_u32_bytes(v),
{
    let b = u32_be(v);
    out.extend_from_slice(b.as_slice());
}

pub fn write_u64(out: &mut Vec<u8>, v: u64)
    ensures
        final(out)@ == old(out)@ + spec_u64_bytes(v),
{
    let b = u64_be(v);
    out.extend_from_slice(b.as_slice());
}

pub fn write_i16(out: &mut Vec<u8>, v: i16)
    ensures
        final(out)@ == old(out)@ + spec_u16_bytes(spec_u16_of(v)),
{
    write_u16(out, u16_of(v));
}

pub fn write_i32(out: &mut Vec<u8>, v: i32)
    ensures
        final(out)@ == old(out)@ + spec_u32_bytes(spec_u32_of(v)),
{
    write_u32(out, u32_of(v));
}

pub fn write_i64(out: &mut Vec<u8>, v: i64)
    ensures
        final(out)@ == old(out)@ + spec_u64_bytes(spec_u64_of(v)),
{
    write_u64(out, u64_of(v));
}

/// Appends `bytes` unchanged.
pub fn write_bytes(out: &mut Vec<u8>, bytes: &[u8])
    ensures
        final(out)@ == old(out)@ + bytes@,
{
    out.extend_from_slice(bytes);
}

/// The views of the elements of a sequence.
pub open spec fn views<T: View>(v: Seq<T>) -> Seq<T::V> {
    Seq::new(v.len(), |i: int| v[i]@)
}

/// A successful read that starts inside the input ends inside it, and not before its start.
pub open spec fn advanced<T>(r: Result<(T, usize), Error>, data: Seq<u8>, pos: usize) -> bool {
    pos <= data.len() ==> (r matches Ok((_, rp)) ==> pos <= rp <= data.len())
}

proof fn lemma_u32_at(s: Seq<u8>, p: int, b: u32)
    requires
        occurs_at(s, p, spec_u32_bytes(b)),
    ensures
        spec_u32_at(s, p) == b,
{
    lemma_occurs_index(s, p, spec_u32_bytes(b), 0);
    lemma_occurs_index(s, p, spec_u32_bytes(b), 1);
    lemma_occurs_index(s, p, spec_u32_bytes(b), 2);
    lemma_occurs_index(s, p, spec_u32_bytes(b), 3);
}

proof fn lemma_u64_at(s: Seq<u8>, p: int, c: u64)
    requires
        occurs_at(s, p, spec_u64_bytes(c)),
    ensures
        spec_u64_at(s, p) == c,
{
    let hi = (c / 0x1_0000_0000) as u32;
    let lo = (c % 0x1_0000_0000) as u32;
    lemma_occurs_split(s, p, spec_u32_bytes(hi), spec_u32_bytes(lo));
    lemma_u32_at(s, p, hi);
    lemma_u32_at(s, p + 4, lo);
}

/// Reading back the byte that was written gives the byte.
pub proof fn lemma_round_trip_u8(v: u8, s: Seq<u8>, p: int)
    requires
        occurs_at(s, p, seq![v]),
    ensures
        spec_read_u8(s, p) == Ok::<(u8, int), Error>((v, p + 1)),
{
    lemma_occurs_index(s, p, seq![v], 0);
}

/// Reading back the two bytes written for `v` gives `v`.
pub proof fn lemma_round_trip_u16(v: u16, s: Seq<u8>, p: int)
    requires
        occurs_at(s, p, spec_u16_bytes(v)),
    ensures
        spec_read_u16(s, p) == Ok::<(u16, int), Error>((v, p + 2)),
{
    lemma_occurs_index(s, p, spec_u16_bytes(v), 0);
    lemma_occurs_index(s, p, spec_u16_bytes(v), 1);
}

/// Reading back the four bytes written for `v` gives `v`.
pub proof fn lemma_round_trip_u32(v: u32, s: Seq<u8>, p: int)
    requires
        occurs_at(s, p, spec_u32_bytes(v)),
    ensures
        spec_read_u32(s, p) == Ok::<(u32, int), Error>((v, p + 4)),
{
    lemma_u32_at(s, p, v);
}

/// Reading back the eight bytes written for `v` gives `v`.
pub proof fn lemma_round_trip_u64(v: u64, s: Seq<u8>, p: int)
    requires
        occurs_at(s, p, spec_u64_bytes(v)),
    ensures
        spec_read_u64(s, p) == Ok::<(u64, int), Error>((v, p + 8)),
{
    lemma_u64_at(s, p, v);
}

/// Reading back the two bytes written for the signed `v` gives `v`.
pub proof fn lemma_round_trip_i16(v: i16, s: Seq<u8>, p: int)
    requires
        occurs_at(s, p, spec_u16_bytes(spec_u16_of(v))),
    ensures
        spec_read_i16(s, p) == Ok::<(i16, int), Error>((v, p + 2)),
{
    lemma_round_trip_u16(spec_u16_of(v), s, p);
}

/// Reading back the four bytes written for the signed `v` gives `v`.
pub proof fn lemma_round_trip_i32(v: i32, s: Seq<u8>, p: int)
    requires
        occurs_at(s, p, spec_u32_bytes(spec_u32_of(v))),
    ensures
        spec_read_i32(s, p) == Ok::<(i32, int), Error>((v, p + 4)),
{
    lemma_round_trip_u32(spec_u32_of(v), s, p);
}

/// Reading back the eight bytes written for the signed `v` gives `v`.
pub proof fn lemma_round_trip_i64(v: i64, s: Seq<u8>, p: int)
    requires
        occurs_at(s, p, spec_u64_bytes(spec_u64_of(v))),
    ensures
        spec_read_i64(s, p) == Ok::<(i64, int), Error>((v, p + 8)),
{
    lemma_round_trip_u64(spec_u64_of(v), s, p);
}

} // verus!
