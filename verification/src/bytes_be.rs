//! Big-endian integers on the wire: the mathematical reading of a byte
//! sequence, executable readers over a buffer, and executable writers that
//! append to a growing output vector. Every multi-byte integer of the
//! protocol goes through these.

use vstd::prelude::*;

use crate::types::Error;

verus! {

/// The unsigned value of two big-endian bytes.
pub open spec fn be16(b: Seq<u8>) -> int
    recommends
        b.len() == 2,
{
    b[0] * 0x100 + b[1]
}

/// The unsigned value of four big-endian bytes.
pub open spec fn be32(b: Seq<u8>) -> int
    recommends
        b.len() == 4,
{
    b[0] * 0x1000000 + b[1] * 0x10000 + b[2] * 0x100 + b[3]
}

/// The unsigned value of eight big-endian bytes.
pub open spec fn be64(b: Seq<u8>) -> int
    recommends
        b.len() == 8,
{
    b[0] * 0x100000000000000 + b[1] * 0x1000000000000 + b[2] * 0x10000000000
        + b[3] * 0x100000000 + b[4] * 0x1000000 + b[5] * 0x10000 + b[6] * 0x100 + b[7]
}

/// The two big-endian bytes of an unsigned 16-bit value.
pub open spec fn u16_bytes(v: u16) -> Seq<u8> {
    seq![(v / 0x100) as u8, (v % 0x100) as u8]
}

/// The four big-endian bytes of an unsigned 32-bit value.
pub open spec fn u32_bytes(v: u32) -> Seq<u8> {
    seq![
        (v / 0x1000000) as u8,
        ((v / 0x10000) % 0x100) as u8,
        ((v / 0x100) % 0x100) as u8,
        (v % 0x100) as u8,
    ]
}

/// The eight big-endian bytes of an unsigned 64-bit value.
pub open spec fn u64_bytes(v: u64) -> Seq<u8> {
    seq![
        (v / 0x100000000000000) as u8,
        ((v / 0x1000000000000) % 0x100) as u8,
        ((v / 0x10000000000) % 0x100) as u8,
        ((v / 0x100000000) % 0x100) as u8,
        ((v / 0x1000000) % 0x100) as u8,
        ((v / 0x10000) % 0x100) as u8,
        ((v / 0x100) % 0x100) as u8,
        (v % 0x100) as u8,
    ]
}

/// The signed reading of an unsigned 16-bit value, as two's complement.
pub open spec fn as_i16(n: int) -> int
    recommends
        0 <= n < 0x10000,
{
    if n >= 0x8000 {
        n - 0x10000
    } else {
        n
    }
}

/// The signed reading of an unsigned 32-bit value, as two's complement.
pub open spec fn as_i32(n: int) -> int
    recommends
        0 <= n < 0x100000000,
{
    if n >= 0x80000000 {
        n - 0x100000000
    } else {
        n
    }
}

/// The signed reading of an unsigned 64-bit value, as two's complement.
pub open spec fn as_i64(n: int) -> int
    recommends
        0 <= n < 0x10000000000000000,
{
    if n >= 0x8000000000000000 {
        n - 0x10000000000000000
    } else {
        n
    }
}

/// The unsigned 32-bit value that carries a signed one in two's complement.
pub open spec fn wrap32(v: int) -> int
    recommends
        -0x80000000 <= v < 0x80000000,
{
    if v < 0 {
        v + 0x100000000
    } else {
        v
    }
}

/// The unsigned 64-bit value that carries a signed one in two's complement.
pub open spec fn wrap64(v: int) -> int
    recommends
        -0x8000000000000000 <= v < 0x8000000000000000,
{
    if v < 0 {
        v + 0x10000000000000000
    } else {
        v
    }
}

/// The two big-endian bytes of a signed 16-bit value, as two's complement.
pub open spec fn i16_bytes(v: i16) -> Seq<u8> {
    u16_bytes((if v < 0 { v + 0x10000 } else { v as int }) as u16)
}

/// The four big-endian bytes of a signed 32-bit value, as two's complement.
pub open spec fn i32_bytes(v: i32) -> Seq<u8> {
    u32_bytes(wrap32(v as int) as u32)
}

/// The eight big-endian bytes of a signed 64-bit value, as two's complement.
pub open spec fn i64_bytes(v: i64) -> Seq<u8> {
    u64_bytes(wrap64(v as int) as u64)
}

/// Reading the two bytes of an encoded 16-bit value gives the value back.
pub proof fn lemma_be16_of_u16(v: u16)
    ensures
        be16(u16_bytes(v)) == v,
        u16_bytes(v).len() == 2,
{
}

/// Reading the four bytes of an encoded 32-bit value gives the value back.
pub proof fn lemma_be32_of_u32(v: u32)
    ensures
        be32(u32_bytes(v)) == v,
        u32_bytes(v).len() == 4,
{
}

/// Reading the eight bytes of an encoded 64-bit value gives the value back.
pub proof fn lemma_be64_of_u64(v: u64)
    ensures
        be64(u64_bytes(v)) == v,
        u64_bytes(v).len() == 8,
{
    let x0 = v as int;
    let x1 = x0 / 0x100;
    let x2 = x1 / 0x100;
    let x3 = x2 / 0x100;
    let x4 = x3 / 0x100;
    let x5 = x4 / 0x100;
    let x6 = x5 / 0x100;
    let x7 = x6 / 0x100;
    vstd::arithmetic::div_mod::lemma_div_denominator(x0, 0x100, 0x100);
    vstd::arithmetic::div_mod::lemma_div_denominator(x0, 0x10000, 0x100);
    vstd::arithmetic::div_mod::lemma_div_denominator(x0, 0x1000000, 0x100);
    vstd::arithmetic::div_mod::lemma_div_denominator(x0, 0x100000000, 0x100);
    vstd::arithmetic::div_mod::lemma_div_denominator(x0, 0x10000000000, 0x100);
    vstd::arithmetic::div_mod::lemma_div_denominator(x0, 0x1000000000000, 0x100);
    assert(x2 == x0 / 0x10000);
    assert(x3 == x0 / 0x1000000);
    assert(x4 == x0 / 0x100000000);
    assert(x5 == x0 / 0x10000000000);
    assert(x6 == x0 / 0x1000000000000);
    assert(x7 == x0 / 0x100000000000000);
    assert(x7 < 0x100);
    assert(x0 == 0x100 * x1 + x0 % 0x100);
    assert(x1 == 0x100 * x2 + x1 % 0x100);
    assert(x2 == 0x100 * x3 + x2 % 0x100);
    assert(x3 == 0x100 * x4 + x3 % 0x100);
    assert(x4 == 0x100 * x5 + x4 % 0x100);
    assert(x5 == 0x100 * x6 + x5 % 0x100);
    assert(x6 == 0x100 * x7 + x6 % 0x100);
}

/// Reads one byte.
pub fn read_u8(buf: &[u8], pos: usize) -> (r: Result<(u8, usize), Error>)
    ensures
        pos < buf@.len() ==> (r matches Ok((v, p)) && v == buf@[pos as int] && p == pos + 1),
        pos >= buf@.len() ==> r == Err::<(u8, usize), _>(Error::UnexpectedEOF),
{
    if pos < buf.len() {
        Ok((buf[pos], pos + 1))
    } else {
        Err(Error::UnexpectedEOF)
    }
}

/// Reads an unsigned 16-bit big-endian value.
pub fn read_u16(buf: &[u8], pos: usize) -> (r: Result<(u16, usize), Error>)
    ensures
        pos + 2 <= buf@.len() ==> (r matches Ok((v, p)) && v == be16(
            buf@.subrange(pos as int, pos + 2),
        ) && p == pos + 2),
        pos + 2 > buf@.len() ==> r == Err::<(u16, usize), _>(Error::UnexpectedEOF),
{
    if pos < buf.len() && 2 <= buf.len() - pos {
        let v: u16 = (buf[pos] as u16) * 0x100 + (buf[pos + 1] as u16);
        assert(v == be16(buf@.subrange(pos as int, pos + 2)));
        Ok((v, pos + 2))
    } else {
        Err(Error::UnexpectedEOF)
    }
}

/// Reads an unsigned 32-bit big-endian value.
pub fn read_u32(buf: &[u8], pos: usize) -> (r: Result<(u32, usize), Error>)
    ensures
        pos + 4 <= buf@.len() ==> (r matches Ok((v, p)) && v == be32(
            buf@.subrange(pos as int, pos + 4),
        ) && p == pos + 4),
        pos + 4 > buf@.len() ==> r == Err::<(u32, usize), _>(Error::UnexpectedEOF),
{
    if pos < buf.len() && 4 <= buf.len() - pos {
        let v: u32 = (buf[pos] as u32) * 0x1000000 + (buf[pos + 1] as u32) * 0x10000 + (buf[pos
            + 2] as u32) * 0x100 + (buf[pos + 3] as u32);
        assert(v == be32(buf@.subrange(pos as int, pos + 4)));
        Ok((v, pos + 4))
    } else {
        Err(Error::UnexpectedEOF)
    }
}

/// Reads an unsigned 64-bit big-endian value.
pub fn read_u64(buf: &[u8], pos: usize) -> (r: Result<(u64, usize), Error>)
    ensures
        pos + 8 <= buf@.len() ==> (r matches Ok((v, p)) && v == be64(
            buf@.subrange(pos as int, pos + 8),
        ) && p == pos + 8),
        pos + 8 > buf@.len() ==> r == Err::<(u64, usize), _>(Error::UnexpectedEOF),
{
    if pos < buf.len() && 8 <= buf.len() - pos {
        let v: u64 = (buf[pos] as u64) * 0x100000000000000 + (buf[pos + 1] as u64)
            * 0x1000000000000 + (buf[pos + 2] as u64) * 0x10000000000 + (buf[pos + 3] as u64)
            * 0x100000000 + (buf[pos + 4] as u64) * 0x1000000 + (buf[pos + 5] as u64) * 0x10000 + (
        buf[pos + 6] as u64) * 0x100 + (buf[pos + 7] as u64);
        assert(v == be64(buf@.subrange(pos as int, pos + 8)));
        Ok((v, pos + 8))
    } else {
        Err(Error::UnexpectedEOF)
    }
}

/// Reads a signed 16-bit big-endian value.
pub fn read_i16(buf: &[u8], pos: usize) -> (r: Result<(i16, usize), Error>)
    ensures
        pos + 2 <= buf@.len() ==> (r matches Ok((v, p)) && v == as_i16(
            be16(buf@.subrange(pos as int, pos + 2)),
        ) && p == pos + 2),
        pos + 2 > buf@.len() ==> r == Err::<(i16, usize), _>(Error::UnexpectedEOF),
{
    match read_u16(buf, pos) {
        Ok((v, p)) => {
            let s: i16 = if v >= 0x8000 {
                -((u16::MAX - v) as i16) - 1
            } else {
                v as i16
            };
            assert(s == as_i16(v as int));
            Ok((s, p))
        },
        Err(e) => Err(e),
    }
}

/// Reads a signed 32-bit big-endian value.
pub fn read_i32(buf: &[u8], pos: usize) -> (r: Result<(i32, usize), Error>)
    ensures
        pos + 4 <= buf@.len() ==> (r matches Ok((v, p)) && v == as_i32(
            be32(buf@.subrange(pos as int, pos + 4)),
        ) && p == pos + 4),
        pos + 4 > buf@.len() ==> r == Err::<(i32, usize), _>(Error::UnexpectedEOF),
{
    match read_u32(buf, pos) {
        Ok((v, p)) => {
            let s: i32 = if v >= 0x80000000 {
                -((u32::MAX - v) as i32) - 1
            } else {
                v as i32
            };
            assert(s == as_i32(v as int));
            Ok((s, p))
        },
        Err(e) => Err(e),
    }
}

/// Reads a signed 64-bit big-endian value.
pub fn read_i64(buf: &[u8], pos: usize) -> (r: Result<(i64, usize), Error>)
    ensures
        pos + 8 <= buf@.len() ==> (r matches Ok((v, p)) && v == as_i64(
            be64(buf@.subrange(pos as int, pos + 8)),
        ) && p == pos + 8),
        pos + 8 > buf@.len() ==> r == Err::<(i64, usize), _>(Error::UnexpectedEOF),
{
    match read_u64(buf, pos) {
        Ok((v, p)) => {
            let s: i64 = if v >= 0x8000000000000000 {
                -((u64::MAX - v) as i64) - 1
            } else {
                v as i64
            };
            assert(s == as_i64(v as int));
            Ok((s, p))
        },
        Err(e) => Err(e),
    }
}

/// Appends one byte.
pub fn write_u8(out: &mut Vec<u8>, v: u8)
    ensures
        final(out)@ == old(out)@ + seq![v],
{
    out.push(v);
    assert(out@ == old(out)@ + seq![v]);
}

/// Appends an unsigned 16-bit value in big-endian order.
pub fn write_u16(out: &mut Vec<u8>, v: u16)
    ensures
        final(out)@ == old(out)@ + u16_bytes(v),
{
    out.push((v / 0x100) as u8);
    out.push((v % 0x100) as u8);
    assert(out@ == old(out)@ + u16_bytes(v));
}

/// Appends an unsigned 32-bit value in big-endian order.
pub fn write_u32(out: &mut Vec<u8>, v: u32)
    ensures
        final(out)@ == old(out)@ + u32_bytes(v),
{
    out.push((v / 0x1000000) as u8);
    out.push(((v / 0x10000) % 0x100) as u8);
    out.push(((v / 0x100) % 0x100) as u8);
    out.push((v % 0x100) as u8);
    assert(out@ == old(out)@ + u32_bytes(v));
}

/// Appends an unsigned 64-bit value in big-endian order.
pub fn write_u64(out: &mut Vec<u8>, v: u64)
    ensures
        final(out)@ == old(out)@ + u64_bytes(v),
{
    out.push((v / 0x100000000000000) as u8);
    out.push(((v / 0x1000000000000) % 0x100) as u8);
    out.push(((v / 0x10000000000) % 0x100) as u8);
    out.push(((v / 0x100000000) % 0x100) as u8);
    out.push(((v / 0x1000000) % 0x100) as u8);
    out.push(((v / 0x10000) % 0x100) as u8);
    out.push(((v / 0x100) % 0x100) as u8);
    out.push((v % 0x100) as u8);
    assert(out@ == old(out)@ + u64_bytes(v));
}

/// Appends a signed 16-bit value in big-endian two's complement.
pub fn write_i16(out: &mut Vec<u8>, v: i16)
    ensures
        final(out)@ == old(out)@ + i16_bytes(v),
{
    let u: u16 = if v >= 0 {
        v as u16
    } else {
        ((v as i32) + 0x10000) as u16
    };
    assert(u as int == (if v < 0 { v + 0x10000 } else { v as int }));
    write_u16(out, u);
}

/// Appends a signed 32-bit value in big-endian two's complement.
pub fn write_i32(out: &mut Vec<u8>, v: i32)
    ensures
        final(out)@ == old(out)@ + i32_bytes(v),
{
    let u: u32 = if v >= 0 {
        v as u32
    } else {
        ((v as i64) + 0x100000000) as u32
    };
    assert(u == wrap32(v as int));
    write_u32(out, u);
}

/// Appends a signed 64-bit value in big-endian two's complement.
pub fn write_i64(out: &mut Vec<u8>, v: i64)
    ensures
        final(out)@ == old(out)@ + i64_bytes(v),
{
    let u: u64 = if v >= 0 {
        v as u64
    } else {
        u64::MAX - ((-(v + 1)) as u64)
    };
    assert(u == wrap64(v as int));
    write_u64(out, u);
}

} // verus!
