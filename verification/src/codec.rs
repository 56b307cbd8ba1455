//! The canonical byte form of integers and byte strings.
//!
//! Integers are written little-endian at their full width. A byte string of
//! variable length is written as its length, a 64-bit integer, followed by
//! its bytes. Every record and message is built from these two forms, so each
//! value has exactly one encoding.

use byteorder::ByteOrder;
use vstd::bytes::*;
use vstd::prelude::*;

verus! {

/// The encoding of a 16-bit integer: two bytes, low byte first.
pub open spec fn enc_u16(x: u16) -> Seq<u8> {
    spec_u16_to_le_bytes(x)
}

/// The encoding of a 32-bit integer: four bytes, low byte first.
pub open spec fn enc_u32(x: u32) -> Seq<u8> {
    spec_u32_to_le_bytes(x)
}

/// The encoding of a 64-bit integer: eight bytes, low byte first.
pub open spec fn enc_u64(x: u64) -> Seq<u8> {
    spec_u64_to_le_bytes(x)
}

/// The encoding of a signed 32-bit integer: its two's complement, low byte first.
pub open spec fn enc_i32(x: i32) -> Seq<u8> {
    spec_u32_to_le_bytes(x as u32)
}

/// The encoding of a signed 64-bit integer: its two's complement, low byte first.
pub open spec fn enc_i64(x: i64) -> Seq<u8> {
    spec_u64_to_le_bytes(x as u64)
}

/// The encoding of a byte string of variable length: its length, then its bytes.
pub open spec fn enc_bytes(s: Seq<u8>) -> Seq<u8> {
    enc_u64(s.len() as u64) + s
}

/// Calls `byteorder::LittleEndian::write_u16` on a two-byte buffer, which the
/// crate documents to store the integer low byte first.
#[verifier::external_body]
fn le_u16(x: u16) -> (b: [u8; 2])
    ensures
        b@ == spec_u16_to_le_bytes(x),
{
    let mut b = [0u8; 2];
    byteorder::LittleEndian::write_u16(&mut b, x);
    b
}

/// Calls `byteorder::LittleEndian::write_u32` on a four-byte buffer, which the
/// crate documents to store the integer low byte first.
#[verifier::external_body]
fn le_u32(x: u32) -> (b: [u8; 4])
    ensures
        b@ == spec_u32_to_le_bytes(x),
{
    let mut b = [0u8; 4];
    byteorder::LittleEndian::write_u32(&mut b, x);
    b
}

/// Calls `byteorder::LittleEndian::write_u64` on an eight-byte buffer, which
/// the crate documents to store the integer low byte first.
#[verifier::external_body]
fn le_u64(x: u64) -> (b: [u8; 8])
    ensures
        b@ == spec_u64_to_le_bytes(x),
{
    let mut b = [0u8; 8];
    byteorder::LittleEndian::write_u64(&mut b, x);
    b
}

/// Calls `byteorder::LittleEndian::write_i32` on a four-byte buffer, which the
/// crate defines as `write_u32` of the integer cast to `u32`.
#[verifier::external_body]
fn le_i32(x: i32) -> (b: [u8; 4])
    ensures
        b@ == spec_u32_to_le_bytes(x as u32),
{
    let mut b = [0u8; 4];
    byteorder::LittleEndian::write_i32(&mut b, x);
    b
}

/// Calls `byteorder::LittleEndian::write_i64` on an eight-byte buffer, which
/// the crate defines as `write_u64` of the integer cast to `u64`.
#[verifier::external_body]
fn le_i64(x: i64) -> (b: [u8; 8])
    ensures
        b@ == spec_u64_to_le_bytes(x as u64),
{
    let mut b = [0u8; 8];
    byteorder::LittleEndian::write_i64(&mut b, x);
    b
}

/// Calls `byteorder::LittleEndian::read_u16`, which reads the first two bytes
/// of the buffer as an integer stored low byte first. The buffer must hold
/// exactly two bytes: the outside function panics on a shorter one.
#[verifier::external_body]
fn le_read_u16(b: &[u8]) -> (x: u16)
    requires
        b@.len() == 2,
    ensures
        x == spec_u16_from_le_bytes(b@),
{
    byteorder::LittleEndian::read_u16(b)
}

/// Calls `byteorder::LittleEndian::read_u32` on a buffer of exactly four
/// bytes, read as an integer stored low byte first.
#[verifier::external_body]
fn le_read_u32(b: &[u8]) -> (x: u32)
    requires
        b@.len() == 4,
    ensures
        x == spec_u32_from_le_bytes(b@),
{
    byteorder::LittleEndian::read_u32(b)
}

/// Calls `byteorder::LittleEndian::read_u64` on a buffer of exactly eight
/// bytes, read as an integer stored low byte first.
#[verifier::external_body]
fn le_read_u64(b: &[u8]) -> (x: u64)
    requires
        b@.len() == 8,
    ensures
        x == spec_u64_from_le_bytes(b@),
{
    byteorder::LittleEndian::read_u64(b)
}

/// Calls `byteorder::LittleEndian::read_i32` on a buffer of exactly four
/// bytes, which the crate defines as `read_u32` cast to `i32`.
#[verifier::external_body]
fn le_read_i32(b: &[u8]) -> (x: i32)
    requires
        b@.len() == 4,
    ensures
        x == spec_u32_from_le_bytes(b@) as i32,
{
    byteorder::LittleEndian::read_i32(b)
}

/// Calls `byteorder::LittleEndian::read_i64` on a buffer of exactly eight
/// bytes, which the crate defines as `read_u64` cast to `i64`.
#[verifier::external_body]
fn le_read_i64(b: &[u8]) -> (x: i64)
    requires
        b@.len() == 8,
    ensures
        x == spec_u64_from_le_bytes(b@) as i64,
{
    byteorder::LittleEndian::read_i64(b)
}

/// Reads the 16-bit integer at `pos`.
pub fn get_u16(data: &[u8], pos: usize) -> (x: u16)
    requires
        pos + 2 <= data@.len(),
    ensures
        x == spec_u16_from_le_bytes(data@.subrange(pos as int, pos + 2)),
{
    let total = data.len();
    assert(pos + 2 <= total);
    le_read_u16(vstd::slice::slice_subrange(data, pos, pos + 2))
}

/// Reads the 32-bit integer at `pos`.
pub fn get_u32(data: &[u8], pos: usize) -> (x: u32)
    requires
        pos + 4 <= data@.len(),
    ensures
        x == spec_u32_from_le_bytes(data@.subrange(pos as int, pos + 4)),
{
    let total = data.len();
    assert(pos + 4 <= total);
    le_read_u32(vstd::slice::slice_subrange(data, pos, pos + 4))
}

/// Reads the 64-bit integer at `pos`.
pub fn get_u64(data: &[u8], pos: usize) -> (x: u64)
    requires
        pos + 8 <= data@.len(),
    ensures
        x == spec_u64_from_le_bytes(data@.subrange(pos as int, pos + 8)),
{
    let total = data.len();
    assert(pos + 8 <= total);
    le_read_u64(vstd::slice::slice_subrange(data, pos, pos + 8))
}

/// Reads the signed 32-bit integer at `pos`.
pub fn get_i32(data: &[u8], pos: usize) -> (x: i32)
    requires
        pos + 4 <= data@.len(),
    ensures
        x == spec_u32_from_le_bytes(data@.subrange(pos as int, pos + 4)) as i32,
{
    let total = data.len();
    assert(pos + 4 <= total);
    le_read_i32(vstd::slice::slice_subrange(data, pos, pos + 4))
}

/// Reads the signed 64-bit integer at `pos`.
pub fn get_i64(data: &[u8], pos: usize) -> (x: i64)
    requires
        pos + 8 <= data@.len(),
    ensures
        x == spec_u64_from_le_bytes(data@.subrange(pos as int, pos + 8)) as i64,
{
    let total = data.len();
    assert(pos + 8 <= total);
    le_read_i64(vstd::slice::slice_subrange(data, pos, pos + 8))
}

/// Copies the 32 bytes at `pos`.
pub fn get_32(data: &[u8], pos: usize) -> (out: [u8; 32])
    requires
        pos + 32 <= data@.len(),
    ensures
        out@ == data@.subrange(pos as int, pos + 32),
{
    let total = data.len();
    let mut out = [0u8; 32];
    let mut i: usize = 0;
    while i < 32
        invariant
            i <= 32,
            pos + 32 <= data@.len(),
            data@.len() == total,
            forall|j: int| 0 <= j < i ==> out@[j] == data@[pos + j],
        decreases 32 - i,
    {
        out[i] = data[pos + i];
        i += 1;
    }
    assert(out@ =~= data@.subrange(pos as int, pos + 32));
    out
}

/// Copies the 64 bytes at `pos`.
pub fn get_64(data: &[u8], pos: usize) -> (out: [u8; 64])
    requires
        pos + 64 <= data@.len(),
    ensures
        out@ == data@.subrange(pos as int, pos + 64),
{
    let total = data.len();
    let mut out = [0u8; 64];
    let mut i: usize = 0;
    while i < 64
        invariant
            i <= 64,
            pos + 64 <= data@.len(),
            data@.len() == total,
            forall|j: int| 0 <= j < i ==> out@[j] == data@[pos + j],
        decreases 64 - i,
    {
        out[i] = data[pos + i];
        i += 1;
    }
    assert(out@ =~= data@.subrange(pos as int, pos + 64));
    out
}

/// Copies the `len` bytes at `pos`.
pub fn get_bytes(data: &[u8], pos: usize, len: usize) -> (out: Vec<u8>)
    requires
        pos + len <= data@.len(),
    ensures
        out@ == data@.subrange(pos as int, pos + len),
{
    let total = data.len();
    assert(pos + len <= total);
    let mut out: Vec<u8> = Vec::new();
    put_raw(&mut out, vstd::slice::slice_subrange(data, pos, pos + len));
    assert(out@ =~= data@.subrange(pos as int, pos + len));
    out
}

/// Appends raw bytes to a buffer.
pub fn put_raw(buf: &mut Vec<u8>, s: &[u8])
    ensures
        final(buf)@ == old(buf)@ + s@,
{
    let n = s.len();
    let mut i: usize = 0;
    while i < n
        invariant
            i <= n,
            n == s@.len(),
            buf@ == old(buf)@ + s@.take(i as int),
        decreases n - i,
    {
        buf.push(s[i]);
        assert(s@.take(i + 1) =~= s@.take(i as int).push(s@[i as int]));
        i += 1;
    }
    assert(s@.take(n as int) =~= s@);
}

/// Appends one byte.
pub fn put_u8(buf: &mut Vec<u8>, x: u8)
    ensures
        final(buf)@ == old(buf)@ + seq![x],
{
    buf.push(x);
    assert(buf@ =~= old(buf)@ + seq![x]);
}

/// Appends a 16-bit integer.
pub fn put_u16(buf: &mut Vec<u8>, x: u16)
    ensures
        final(buf)@ == old(buf)@ + enc_u16(x),
{
    let b = le_u16(x);
    put_raw(buf, b.as_slice());
}

/// Appends a 32-bit integer.
pub fn put_u32(buf: &mut Vec<u8>, x: u32)
    ensures
        final(buf)@ == old(buf)@ + enc_u32(x),
{
    let b = le_u32(x);
    put_raw(buf, b.as_slice());
}

/// Appends a 64-bit integer.
pub fn put_u64(buf: &mut Vec<u8>, x: u64)
    ensures
        final(buf)@ == old(buf)@ + enc_u64(x),
{
    let b = le_u64(x);
    put_raw(buf, b.as_slice());
}

/// Appends a signed 32-bit integer.
pub fn put_i32(buf: &mut Vec<u8>, x: i32)
    ensures
        final(buf)@ == old(buf)@ + enc_i32(x),
{
    let b = le_i32(x);
    put_raw(buf, b.as_slice());
}

/// Appends a signed 64-bit integer.
pub fn put_i64(buf: &mut Vec<u8>, x: i64)
    ensures
        final(buf)@ == old(buf)@ + enc_i64(x),
{
    let b = le_i64(x);
    put_raw(buf, b.as_slice());
}

/// Appends a byte string of variable length, its length first.
pub fn put_bytes(buf: &mut Vec<u8>, s: &[u8])
    ensures
        final(buf)@ == old(buf)@ + enc_bytes(s@),
{
    put_u64(buf, s.len() as u64);
    put_raw(buf, s);
    assert(buf@ =~= old(buf)@ + enc_bytes(s@));
}

} // verus!
