//! Decoding of value cells, driven by a column type descriptor. Every cell
//! is framed as a signed 32-bit length followed by that many body bytes;
//! `-1` stands for `Null`, and no decoder beneath the frame ever sees a
//! negative length.

use vstd::prelude::*;

use crate::bytes_be::{as_i32, as_i64, be32, be64, read_i32, read_i64, read_u32, read_u64};
use crate::descr::{descr_view, descrs_view, CqlColDescr, DescrView};
use crate::primitives::read_bytes;
use crate::types::{ColumnType, Error};
use crate::value::{Value, ValueView, value_view, values_view, pairs_view, lemma_values_view_push,
    lemma_pairs_view_push};
use crate::varint::varint_val;
use crate::value::InetAddr;
use vstd::utf8::{decode_utf8, valid_utf8};

verus! {

/// The decoding of a leaf cell's body: `len` bytes at `pos`, read as the
/// leaf type `ty` dictates. Fixed-width types reject any other length
/// before reading; `UDT` and unknown ids consume the body unread; a
/// structural id in leaf position violates the protocol.
pub open spec fn dec_leaf(ty: ColumnType, b: Seq<u8>, pos: int, len: int) -> Result<
    (ValueView, int),
    Error,
>
    recommends
        0 <= len,
        0 <= pos,
{
    match ty {
        ColumnType::Ascii => {
            if pos + len > b.len() {
                Err(Error::UnexpectedEOF)
            } else if valid_utf8(b.subrange(pos, pos + len)) {
                Ok((ValueView::CqlAscii(decode_utf8(b.subrange(pos, pos + len))), pos + len))
            } else {
                Err(Error::Utf8)
            }
        },
        ColumnType::Bigint => {
            if len != 8 {
                Err(Error::Protocol)
            } else if pos + 8 > b.len() {
                Err(Error::UnexpectedEOF)
            } else {
                Ok((ValueView::CqlBigint(as_i64(be64(b.subrange(pos, pos + 8))) as i64), pos + 8))
            }
        },
        ColumnType::Blob => {
            if pos + len > b.len() {
                Err(Error::UnexpectedEOF)
            } else {
                Ok((ValueView::CqlBlob(b.subrange(pos, pos + len)), pos + len))
            }
        },
        ColumnType::Boolean => {
            if len != 1 {
                Err(Error::Protocol)
            } else if pos + 1 > b.len() {
                Err(Error::UnexpectedEOF)
            } else {
                Ok((ValueView::CqlBoolean(b[pos] != 0), pos + 1))
            }
        },
        ColumnType::Counter => Err(Error::Unimplemented),
        ColumnType::Decimal => {
            if len < 5 {
                Err(Error::Protocol)
            } else if len - 4 > 8 {
                Err(Error::Unimplemented)
            } else if pos + len > b.len() {
                Err(Error::UnexpectedEOF)
            } else {
                Ok((
                    ValueView::CqlDecimal(
                        as_i32(be32(b.subrange(pos, pos + 4))) as i32,
                        varint_val(b.subrange(pos + 4, pos + len)) as i64,
                    ),
                    pos + len,
                ))
            }
        },
        ColumnType::Double => {
            if len != 8 {
                Err(Error::Protocol)
            } else if pos + 8 > b.len() {
                Err(Error::UnexpectedEOF)
            } else {
                Ok((ValueView::CqlDouble(be64(b.subrange(pos, pos + 8)) as u64), pos + 8))
            }
        },
        ColumnType::Float => {
            if len != 4 {
                Err(Error::Protocol)
            } else if pos + 4 > b.len() {
                Err(Error::UnexpectedEOF)
            } else {
                Ok((ValueView::CqlFloat(be32(b.subrange(pos, pos + 4)) as u32), pos + 4))
            }
        },
        ColumnType::Int => {
            if len != 4 {
                Err(Error::Protocol)
            } else if pos + 4 > b.len() {
                Err(Error::UnexpectedEOF)
            } else {
                Ok((ValueView::CqlInt(as_i32(be32(b.subrange(pos, pos + 4))) as i32), pos + 4))
            }
        },
        ColumnType::Text => {
            if pos + len > b.len() {
                Err(Error::UnexpectedEOF)
            } else if valid_utf8(b.subrange(pos, pos + len)) {
                Ok((ValueView::CqlText(decode_utf8(b.subrange(pos, pos + len))), pos + len))
            } else {
                Err(Error::Utf8)
            }
        },
        ColumnType::Timestamp => {
            if len != 8 {
                Err(Error::Protocol)
            } else if pos + 8 > b.len() {
                Err(Error::UnexpectedEOF)
            } else {
                Ok((
                    ValueView::CqlTimestamp(as_i64(be64(b.subrange(pos, pos + 8))) as i64),
                    pos + 8,
                ))
            }
        },
        ColumnType::UUID => {
            if len != 16 {
                Err(Error::Protocol)
            } else if pos + 16 > b.len() {
                Err(Error::UnexpectedEOF)
            } else {
                Ok((ValueView::CqlUUID(b.subrange(pos, pos + 16)), pos + 16))
            }
        },
        ColumnType::VarChar => {
            if pos + len > b.len() {
                Err(Error::UnexpectedEOF)
            } else if valid_utf8(b.subrange(pos, pos + len)) {
                Ok((ValueView::CqlVarChar(decode_utf8(b.subrange(pos, pos + len))), pos + len))
            } else {
                Err(Error::Utf8)
            }
        },
        ColumnType::VarInt => {
            if len == 0 {
                Err(Error::Protocol)
            } else if len > 8 {
                Err(Error::Unimplemented)
            } else if pos + len > b.len() {
                Err(Error::UnexpectedEOF)
            } else {
                Ok((ValueView::CqlVarInt(varint_val(b.subrange(pos, pos + len)) as i64), pos + len))
            }
        },
        ColumnType::TimeUUID => {
            if len != 16 {
                Err(Error::Protocol)
            } else if pos + 16 > b.len() {
                Err(Error::UnexpectedEOF)
            } else {
                Ok((ValueView::CqlTimeUUID(b.subrange(pos, pos + 16)), pos + 16))
            }
        },
        ColumnType::Inet => {
            if len != 4 && len != 16 {
                Err(Error::Protocol)
            } else if pos + len > b.len() {
                Err(Error::UnexpectedEOF)
            } else {
                Ok((ValueView::CqlInet(b.subrange(pos, pos + len)), pos + len))
            }
        },
        ColumnType::UDT => {
            if pos + len > b.len() {
                Err(Error::UnexpectedEOF)
            } else {
                Ok((ValueView::CqlUnknown, pos + len))
            }
        },
        ColumnType::Unknown => {
            if pos + len > b.len() {
                Err(Error::UnexpectedEOF)
            } else {
                Ok((ValueView::CqlUnknown, pos + len))
            }
        },
        _ => Err(Error::Protocol),
    }
}

/// The decoding of one cell at `pos`, driven by descriptor `d`: a signed
/// 32-bit length — `-1` gives `Null`, any other negative length violates
/// the protocol — then the body the descriptor dictates.
pub open spec fn dec_value(d: DescrView, b: Seq<u8>, pos: int) -> Result<(ValueView, int), Error>
    decreases d, 2nat, 0nat,
{
    if pos + 4 > b.len() {
        Err(Error::UnexpectedEOF)
    } else {
        let len = as_i32(be32(b.subrange(pos, pos + 4)));
        if len == -1 {
            Ok((ValueView::CqlNull, pos + 4))
        } else if len < 0 {
            Err(Error::Protocol)
        } else {
            let start = pos + 4;
            match d {
                DescrView::Custom(name) => {
                    if start + len > b.len() {
                        Err(Error::UnexpectedEOF)
                    } else {
                        Ok((
                            ValueView::CqlCustom(name, b.subrange(start, start + len)),
                            start + len,
                        ))
                    }
                },
                DescrView::Single(ty) => dec_leaf(ty, b, start, len),
                DescrView::List(inner) => {
                    if start + 4 > b.len() {
                        Err(Error::UnexpectedEOF)
                    } else {
                        let n = as_i32(be32(b.subrange(start, start + 4)));
                        if n < 0 {
                            Err(Error::Protocol)
                        } else {
                            match dec_values(*inner, b, start + 4, n as nat) {
                                Ok((items, end)) => Ok((ValueView::CqlList(items), end)),
                                Err(e) => Err(e),
                            }
                        }
                    }
                },
                DescrView::SetOf(inner) => {
                    if start + 4 > b.len() {
                        Err(Error::UnexpectedEOF)
                    } else {
                        let n = as_i32(be32(b.subrange(start, start + 4)));
                        if n < 0 {
                            Err(Error::Protocol)
                        } else {
                            match dec_values(*inner, b, start + 4, n as nat) {
                                Ok((items, end)) => Ok((ValueView::CqlSet(items), end)),
                                Err(e) => Err(e),
                            }
                        }
                    }
                },
                DescrView::MapOf(_, _) => {
                    if start + 4 > b.len() {
                        Err(Error::UnexpectedEOF)
                    } else {
                        let n = as_i32(be32(b.subrange(start, start + 4)));
                        if n < 0 {
                            Err(Error::Protocol)
                        } else {
                            match dec_pairs(d, b, start + 4, n as nat) {
                                Ok((ps, end)) => Ok((ValueView::CqlMap(ps), end)),
                                Err(e) => Err(e),
                            }
                        }
                    }
                },
                DescrView::Tuple(inners) => match dec_tuple(inners, b, start) {
                    Ok((items, end)) => Ok((ValueView::CqlTuple(items), end)),
                    Err(e) => Err(e),
                },
            }
        }
    }
}

/// The decoding of `n` consecutive cells of element type `t`.
pub open spec fn dec_values(t: DescrView, b: Seq<u8>, pos: int, n: nat) -> Result<
    (Seq<ValueView>, int),
    Error,
>
    decreases t, 2nat, n,
{
    if n == 0 {
        Ok((Seq::empty(), pos))
    } else {
        match dec_value(t, b, pos) {
            Ok((v, p)) => match dec_values(t, b, p, (n - 1) as nat) {
                Ok((rest, end)) => Ok((seq![v] + rest, end)),
                Err(e) => Err(e),
            },
            Err(e) => Err(e),
        }
    }
}

/// The decoding of `n` consecutive key/value pairs of a map descriptor.
pub open spec fn dec_pairs(d: DescrView, b: Seq<u8>, pos: int, n: nat) -> Result<
    (Seq<(ValueView, ValueView)>, int),
    Error,
>
    recommends
        d is MapOf,
    decreases d, 1nat, n,
{
    if n == 0 {
        Ok((Seq::empty(), pos))
    } else if !(d is MapOf) {
        Err(Error::Protocol)
    } else {
        match dec_value(*d->MapOf_0, b, pos) {
            Ok((k, p1)) => match dec_value(*d->MapOf_1, b, p1) {
                Ok((w, p2)) => match dec_pairs(d, b, p2, (n - 1) as nat) {
                    Ok((rest, end)) => Ok((seq![(k, w)] + rest, end)),
                    Err(e) => Err(e),
                },
                Err(e) => Err(e),
            },
            Err(e) => Err(e),
        }
    }
}

/// The decoding of a tuple body: one cell per element descriptor, in order,
/// with no leading count.
pub open spec fn dec_tuple(ts: Seq<DescrView>, b: Seq<u8>, pos: int) -> Result<
    (Seq<ValueView>, int),
    Error,
>
    decreases ts, 2nat, 0nat,
{
    if ts.len() == 0 {
        Ok((Seq::empty(), pos))
    } else {
        match dec_value(ts[0], b, pos) {
            Ok((v, p)) => match dec_tuple(ts.drop_first(), b, p) {
                Ok((rest, end)) => Ok((seq![v] + rest, end)),
                Err(e) => Err(e),
            },
            Err(e) => Err(e),
        }
    }
}

/// Reads a leaf cell's body of `len` bytes.
#[verifier::rlimit(100)]
#[verifier::spinoff_prover]
pub fn read_cql_col_ty(ty: ColumnType, buf: &[u8], pos: usize, len: usize) -> (r: Result<
    (Value, usize),
    Error,
>)
    requires
        len <= 0x7FFFFFFF,
    ensures
        (match r {
            Ok((v, p)) => dec_leaf(ty, buf@, pos as int, len as int) == Ok::<_, Error>((
                value_view(v),
                p as int,
            )),
            Err(e) => dec_leaf(ty, buf@, pos as int, len as int) == Err::<(ValueView, int), _>(e),
        }),
{
    match ty {
        ColumnType::Ascii => match crate::primitives::read_str_body(buf, pos, len) {
            Ok((s, p)) => Ok((Value::CqlAscii(s), p)),
            Err(e) => Err(e),
        },
        ColumnType::Bigint => {
            if len != 8 {
                return Err(Error::Protocol);
            }
            match read_i64(buf, pos) {
                Ok((x, p)) => Ok((Value::CqlBigint(x), p)),
                Err(e) => Err(e),
            }
        },
        ColumnType::Blob => match read_bytes(buf, pos, len) {
            Ok((data, p)) => Ok((Value::CqlBlob(data), p)),
            Err(e) => Err(e),
        },
        ColumnType::Boolean => {
            if len != 1 {
                return Err(Error::Protocol);
            }
            match crate::bytes_be::read_u8(buf, pos) {
                Ok((x, p)) => Ok((Value::CqlBoolean(x != 0), p)),
                Err(e) => Err(e),
            }
        },
        ColumnType::Counter => Err(Error::Unimplemented),
        ColumnType::Decimal => {
            if len < 5 {
                return Err(Error::Protocol);
            }
            if len - 4 > 8 {
                return Err(Error::Unimplemented);
            }
            if pos > buf.len() || len > buf.len() - pos {
                return Err(Error::UnexpectedEOF);
            }
            let (scale, p1) = match read_i32(buf, pos) {
                Ok(x) => x,
                Err(e) => {
                    return Err(e);
                },
            };
            let window = vstd::slice::slice_subrange(buf, p1, pos + len);
            let unscaled = crate::varint::parse_varint(window);
            Ok((Value::CqlDecimal(scale, unscaled), pos + len))
        },
        ColumnType::Double => {
            if len != 8 {
                return Err(Error::Protocol);
            }
            match read_u64(buf, pos) {
                Ok((x, p)) => Ok((Value::CqlDouble(x), p)),
                Err(e) => Err(e),
            }
        },
        ColumnType::Float => {
            if len != 4 {
                return Err(Error::Protocol);
            }
            match read_u32(buf, pos) {
                Ok((x, p)) => Ok((Value::CqlFloat(x), p)),
                Err(e) => Err(e),
            }
        },
        ColumnType::Int => {
            if len != 4 {
                return Err(Error::Protocol);
            }
            match read_i32(buf, pos) {
                Ok((x, p)) => Ok((Value::CqlInt(x), p)),
                Err(e) => Err(e),
            }
        },
        ColumnType::Text => match crate::primitives::read_str_body(buf, pos, len) {
            Ok((s, p)) => Ok((Value::CqlText(s), p)),
            Err(e) => Err(e),
        },
        ColumnType::Timestamp => {
            if len != 8 {
                return Err(Error::Protocol);
            }
            match read_i64(buf, pos) {
                Ok((x, p)) => Ok((Value::CqlTimestamp(x), p)),
                Err(e) => Err(e),
            }
        },
        ColumnType::UUID => {
            if len != 16 {
                return Err(Error::Protocol);
            }
            match read_octets16(buf, pos) {
                Ok((a, p)) => Ok((Value::CqlUUID(a), p)),
                Err(e) => Err(e),
            }
        },
        ColumnType::VarChar => match crate::primitives::read_str_body(buf, pos, len) {
            Ok((s, p)) => Ok((Value::CqlVarChar(s), p)),
            Err(e) => Err(e),
        },
        ColumnType::VarInt => match crate::varint::read_varint(buf, pos, len) {
            Ok((x, p)) => Ok((Value::CqlVarInt(x), p)),
            Err(e) => Err(e),
        },
        ColumnType::TimeUUID => {
            if len != 16 {
                return Err(Error::Protocol);
            }
            match read_octets16(buf, pos) {
                Ok((a, p)) => Ok((Value::CqlTimeUUID(a), p)),
                Err(e) => Err(e),
            }
        },
        ColumnType::Inet => {
            if len == 4 {
                match read_octets4(buf, pos) {
                    Ok((a, p)) => Ok((Value::CqlInet(InetAddr::V4(a)), p)),
                    Err(e) => Err(e),
                }
            } else if len == 16 {
                match read_octets16(buf, pos) {
                    Ok((a, p)) => Ok((Value::CqlInet(InetAddr::V6(a)), p)),
                    Err(e) => Err(e),
                }
            } else {
                Err(Error::Protocol)
            }
        },
        ColumnType::UDT => match read_bytes(buf, pos, len) {
            Ok((_, p)) => Ok((Value::CqlUnknown, p)),
            Err(e) => Err(e),
        },
        ColumnType::Unknown => match read_bytes(buf, pos, len) {
            Ok((_, p)) => Ok((Value::CqlUnknown, p)),
            Err(e) => Err(e),
        },
        _ => Err(Error::Protocol),
    }
}

/// Reads four raw octets into an array.
fn read_octets4(buf: &[u8], pos: usize) -> (r: Result<([u8; 4], usize), Error>)
    ensures
        pos + 4 <= buf@.len() ==> (r matches Ok((a, p)) && a@ == buf@.subrange(pos as int, pos + 4)
            && p == pos + 4),
        pos + 4 > buf@.len() ==> r == Err::<([u8; 4], usize), _>(Error::UnexpectedEOF),
{
    if pos < buf.len() && 4 <= buf.len() - pos {
        let a: [u8; 4] = [buf[pos], buf[pos + 1], buf[pos + 2], buf[pos + 3]];
        assert(a@ =~= buf@.subrange(pos as int, pos + 4));
        Ok((a, pos + 4))
    } else {
        Err(Error::UnexpectedEOF)
    }
}

/// Reads sixteen raw octets into an array.
fn read_octets16(buf: &[u8], pos: usize) -> (r: Result<([u8; 16], usize), Error>)
    ensures
        pos + 16 <= buf@.len() ==> (r matches Ok((a, p)) && a@ == buf@.subrange(
            pos as int,
            pos + 16,
        ) && p == pos + 16),
        pos + 16 > buf@.len() ==> r == Err::<([u8; 16], usize), _>(Error::UnexpectedEOF),
{
    if pos < buf.len() && 16 <= buf.len() - pos {
        let a: [u8; 16] = [
            buf[pos],
            buf[pos + 1],
            buf[pos + 2],
            buf[pos + 3],
            buf[pos + 4],
            buf[pos + 5],
            buf[pos + 6],
            buf[pos + 7],
            buf[pos + 8],
            buf[pos + 9],
            buf[pos + 10],
            buf[pos + 11],
            buf[pos + 12],
            buf[pos + 13],
            buf[pos + 14],
            buf[pos + 15],
        ];
        assert(a@ =~= buf@.subrange(pos as int, pos + 16));
        Ok((a, pos + 16))
    } else {
        Err(Error::UnexpectedEOF)
    }
}

/// The view of an indexed element of a descriptor sequence.
pub proof fn lemma_descrs_view_index(ds: Seq<CqlColDescr>, i: int)
    requires
        0 <= i < ds.len(),
    ensures
        descrs_view(ds).len() == ds.len(),
        descrs_view(ds)[i] == descr_view(ds[i]),
    decreases ds.len(),
{
    crate::descr::lemma_descrs_view_len(ds);
    if i > 0 {
        lemma_descrs_view_index(ds.drop_first(), i - 1);
    }
}

/// Reads one value cell, driven by the descriptor `d`.
pub fn read_cql_col(d: &CqlColDescr, buf: &[u8], pos: usize) -> (r: Result<(Value, usize), Error>)
    ensures
        (match r {
            Ok((v, p)) => dec_value(descr_view(*d), buf@, pos as int) == Ok::<_, Error>((
                value_view(v),
                p as int,
            )),
            Err(e) => dec_value(descr_view(*d), buf@, pos as int) == Err::<(ValueView, int), _>(e),
        }),
    decreases *d, 2nat,
{
    let (len_i, p0) = match read_i32(buf, pos) {
        Ok(x) => x,
        Err(e) => {
            return Err(e);
        },
    };
    if len_i == -1 {
        return Ok((Value::CqlNull, p0));
    }
    if len_i < 0 {
        return Err(Error::Protocol);
    }
    let len = len_i as usize;
    match d {
        CqlColDescr::Custom(name) => match read_bytes(buf, p0, len) {
            Ok((data, p)) => Ok((Value::CqlCustom(name.clone(), data), p)),
            Err(e) => Err(e),
        },
        CqlColDescr::Single(ty) => read_cql_col_ty(*ty, buf, p0, len),
        CqlColDescr::List(inner) => {
            let (n_i, p1) = match read_i32(buf, p0) {
                Ok(x) => x,
                Err(e) => {
                    return Err(e);
                },
            };
            if n_i < 0 {
                return Err(Error::Protocol);
            }
            match read_values(inner, buf, p1, n_i as usize) {
                Ok((items, p)) => Ok((Value::CqlList(items), p)),
                Err(e) => Err(e),
            }
        },
        CqlColDescr::SetOf(inner) => {
            let (n_i, p1) = match read_i32(buf, p0) {
                Ok(x) => x,
                Err(e) => {
                    return Err(e);
                },
            };
            if n_i < 0 {
                return Err(Error::Protocol);
            }
            match read_values(inner, buf, p1, n_i as usize) {
                Ok((items, p)) => Ok((Value::CqlSet(items), p)),
                Err(e) => Err(e),
            }
        },
        CqlColDescr::MapOf(_, _) => {
            let (n_i, p1) = match read_i32(buf, p0) {
                Ok(x) => x,
                Err(e) => {
                    return Err(e);
                },
            };
            if n_i < 0 {
                return Err(Error::Protocol);
            }
            match read_pairs(d, buf, p1, n_i as usize) {
                Ok((ps, p)) => Ok((Value::CqlMap(ps), p)),
                Err(e) => Err(e),
            }
        },
        CqlColDescr::Tuple(ts) => match read_tuple_items(ts, buf, p0) {
            Ok((items, p)) => Ok((Value::CqlTuple(items), p)),
            Err(e) => Err(e),
        },
    }
}

/// Reads `n` consecutive cells of one element type.
fn read_values(t: &Box<CqlColDescr>, buf: &[u8], pos: usize, n: usize) -> (r: Result<
    (Vec<Value>, usize),
    Error,
>)
    ensures
        (match r {
            Ok((items, p)) => dec_values(descr_view(**t), buf@, pos as int, n as nat) == Ok::<
                _,
                Error,
            >((values_view(items@), p as int)),
            Err(e) => dec_values(descr_view(**t), buf@, pos as int, n as nat) == Err::<
                (Seq<ValueView>, int),
                _,
            >(e),
        }),
    decreases **t, 3nat,
{
    let mut items: Vec<Value> = Vec::new();
    let mut p = pos;
    let mut i: usize = 0;
    while i < n
        invariant
            0 <= i <= n,
            items@.len() == i as int,
            (match dec_values(descr_view(**t), buf@, pos as int, n as nat) {
                Ok((all, end)) => dec_values(descr_view(**t), buf@, p as int, (n - i) as nat)
                    matches Ok((rest, e2)) && all == values_view(items@) + rest && end == e2,
                Err(e) => dec_values(descr_view(**t), buf@, p as int, (n - i) as nat) == Err::<
                    (Seq<ValueView>, int),
                    _,
                >(e),
            }),
        decreases n - i,
    {
        let (v, p2) = match read_cql_col(t, buf, p) {
            Ok(x) => x,
            Err(e) => {
                proof {
                    assert(dec_values(descr_view(**t), buf@, p as int, (n - i) as nat) == Err::<
                        (Seq<ValueView>, int),
                        _,
                    >(e));
                }
                return Err(e);
            },
        };
        let ghost old_items = items@;
        items.push(v);
        proof {
            lemma_values_view_push(old_items, v);
            if dec_values(descr_view(**t), buf@, pos as int, n as nat) is Ok {
                let (rest, e2) = dec_values(descr_view(**t), buf@, p as int, (n - i) as nat)->Ok_0;
                assert(values_view(old_items) + rest =~= values_view(items@) + dec_values(
                    descr_view(**t),
                    buf@,
                    p2 as int,
                    (n - i - 1) as nat,
                )->Ok_0.0);
            }
        }
        p = p2;
        i = i + 1;
    }
    proof {
        assert(dec_values(descr_view(**t), buf@, p as int, 0nat) == Ok::<_, Error>((
            Seq::<ValueView>::empty(),
            p as int,
        )));
        assert(values_view(items@) + Seq::<ValueView>::empty() =~= values_view(items@));
    }
    Ok((items, p))
}

/// Reads `n` consecutive key/value pairs of a map descriptor.
fn read_pairs(d: &CqlColDescr, buf: &[u8], pos: usize, n: usize) -> (r: Result<
    (Vec<(Value, Value)>, usize),
    Error,
>)
    requires
        (*d) is MapOf,
    ensures
        (match r {
            Ok((ps, p)) => dec_pairs(descr_view(*d), buf@, pos as int, n as nat) == Ok::<_, Error>(
                (pairs_view(ps@), p as int),
            ),
            Err(e) => dec_pairs(descr_view(*d), buf@, pos as int, n as nat) == Err::<
                (Seq<(ValueView, ValueView)>, int),
                _,
            >(e),
        }),
    decreases *d, 1nat,
{
    let (kd, wd) = match d {
        CqlColDescr::MapOf(k, w) => (&**k, &**w),
        _ => {
            return Err(Error::Protocol);
        },
    };
    let mut ps: Vec<(Value, Value)> = Vec::new();
    let mut p = pos;
    let mut i: usize = 0;
    while i < n
        invariant
            0 <= i <= n,
            ps@.len() == i as int,
            (*d) is MapOf,
            kd == &(*d)->MapOf_0,
            wd == &(*d)->MapOf_1,
            descr_view(*d) is MapOf,
            descr_view(*d)->MapOf_0 == Box::new(descr_view(*kd)),
            descr_view(*d)->MapOf_1 == Box::new(descr_view(*wd)),
            (match dec_pairs(descr_view(*d), buf@, pos as int, n as nat) {
                Ok((all, end)) => dec_pairs(descr_view(*d), buf@, p as int, (n - i) as nat)
                    matches Ok((rest, e2)) && all == pairs_view(ps@) + rest && end == e2,
                Err(e) => dec_pairs(descr_view(*d), buf@, p as int, (n - i) as nat) == Err::<
                    (Seq<(ValueView, ValueView)>, int),
                    _,
                >(e),
            }),
        decreases n - i,
    {
        let (kv, p1) = match read_cql_col(kd, buf, p) {
            Ok(x) => x,
            Err(e) => {
                proof {
                    assert(dec_pairs(descr_view(*d), buf@, p as int, (n - i) as nat) == Err::<
                        (Seq<(ValueView, ValueView)>, int),
                        _,
                    >(e));
                }
                return Err(e);
            },
        };
        let (wv, p2) = match read_cql_col(wd, buf, p1) {
            Ok(x) => x,
            Err(e) => {
                proof {
                    assert(dec_pairs(descr_view(*d), buf@, p as int, (n - i) as nat) == Err::<
                        (Seq<(ValueView, ValueView)>, int),
                        _,
                    >(e));
                }
                return Err(e);
            },
        };
        let ghost old_ps = ps@;
        ps.push((kv, wv));
        proof {
            lemma_pairs_view_push(old_ps, (kv, wv));
            if dec_pairs(descr_view(*d), buf@, pos as int, n as nat) is Ok {
                let (rest, e2) = dec_pairs(descr_view(*d), buf@, p as int, (n - i) as nat)->Ok_0;
                assert(pairs_view(old_ps) + rest =~= pairs_view(ps@) + dec_pairs(
                    descr_view(*d),
                    buf@,
                    p2 as int,
                    (n - i - 1) as nat,
                )->Ok_0.0);
            }
        }
        p = p2;
        i = i + 1;
    }
    proof {
        assert(dec_pairs(descr_view(*d), buf@, p as int, 0nat) == Ok::<_, Error>((
            Seq::<(ValueView, ValueView)>::empty(),
            p as int,
        )));
        assert(pairs_view(ps@) + Seq::<(ValueView, ValueView)>::empty() =~= pairs_view(ps@));
    }
    Ok((ps, p))
}

/// Reads a tuple body: one cell per element descriptor, in order.
pub fn read_tuple_items(ts: &Vec<CqlColDescr>, buf: &[u8], pos: usize) -> (r: Result<
    (Vec<Value>, usize),
    Error,
>)
    ensures
        (match r {
            Ok((items, p)) => dec_tuple(descrs_view(ts@), buf@, pos as int) == Ok::<_, Error>((
                values_view(items@),
                p as int,
            )),
            Err(e) => dec_tuple(descrs_view(ts@), buf@, pos as int) == Err::<
                (Seq<ValueView>, int),
                _,
            >(e),
        }),
    decreases *ts, 0nat,
{
    let ghost dv = descrs_view(ts@);
    proof {
        crate::descr::lemma_descrs_view_len(ts@);
    }
    let mut items: Vec<Value> = Vec::new();
    let mut p = pos;
    let mut i: usize = 0;
    proof {
        assert(dv.skip(0) =~= dv);
        assert(values_view(items@) =~= Seq::<ValueView>::empty());
        match dec_tuple(dv, buf@, pos as int) {
            Ok((all, end)) => {
                assert(values_view(items@) + all =~= all);
            },
            Err(_) => {},
        }
    }
    while i < ts.len()
        invariant
            0 <= i <= ts@.len(),
            dv == descrs_view(ts@),
            dv.len() == ts@.len(),
            items@.len() == i as int,
            (match dec_tuple(dv, buf@, pos as int) {
                Ok((all, end)) => dec_tuple(dv.skip(i as int), buf@, p as int) matches Ok(
                    (rest, e2),
                ) && all == values_view(items@) + rest && end == e2,
                Err(e) => dec_tuple(dv.skip(i as int), buf@, p as int) == Err::<
                    (Seq<ValueView>, int),
                    _,
                >(e),
            }),
        decreases ts@.len() - i,
    {
        proof {
            lemma_descrs_view_index(ts@, i as int);
            assert(dv.skip(i as int).len() == dv.len() - i);
            assert(dv.skip(i as int)[0] == dv[i as int]);
        }
        let (v, p2) = match read_cql_col(&ts[i], buf, p) {
            Ok(x) => x,
            Err(e) => {
                proof {
                    assert(dec_tuple(dv.skip(i as int), buf@, p as int) == Err::<
                        (Seq<ValueView>, int),
                        _,
                    >(e));
                }
                return Err(e);
            },
        };
        let ghost old_items = items@;
        items.push(v);
        proof {
            lemma_values_view_push(old_items, v);
            assert(dv.skip(i as int).drop_first() =~= dv.skip(i + 1));
            if dec_tuple(dv, buf@, pos as int) is Ok {
                let (rest, e2) = dec_tuple(dv.skip(i as int), buf@, p as int)->Ok_0;
                assert(values_view(old_items) + rest =~= values_view(items@) + dec_tuple(
                    dv.skip(i + 1),
                    buf@,
                    p2 as int,
                )->Ok_0.0);
            }
        }
        p = p2;
        i = i + 1;
    }
    proof {
        assert(dv.skip(ts@.len() as int).len() == 0);
        assert(dec_tuple(dv.skip(ts@.len() as int), buf@, p as int) == Ok::<_, Error>((
            Seq::<ValueView>::empty(),
            p as int,
        )));
        assert(values_view(items@) + Seq::<ValueView>::empty() =~= values_view(items@));
    }
    Ok((items, p))
}

} // verus!
