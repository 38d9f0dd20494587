//! The typed value model: the tagged sum of CQL column values, its
//! mathematical view, the wire form of every value — a 32-bit length prefix
//! followed by the value's body, with `-1` standing for `Null` — and the
//! encoder, proved to emit exactly that wire form whenever it succeeds.
//!
//! `Float` and `Double` cells carry their IEEE-754 bit patterns as unsigned
//! integers: the wire holds exactly those bits, and reinterpreting them as a
//! floating value is left to the caller.

use vstd::prelude::*;

use crate::bytes_be::{i32_bytes, i64_bytes, u32_bytes, u64_bytes, write_i32, write_i64, write_u32,
    write_u64};
use crate::primitives::append_bytes;
use crate::types::Error;
use vstd::utf8::encode_utf8;

verus! {

/// An internet address as a value cell carries it: four or sixteen raw
/// octets.
#[derive(Debug, PartialEq, Eq, Clone, Copy)]
pub enum InetAddr {
    V4([u8; 4]),
    V6([u8; 16]),
}

/// A CQL column value. Each variant carries the native representation of
/// its type; `CqlNull` stands for the protocol's `-1` length marker.
#[derive(Debug, PartialEq)]
pub enum Value {
    CqlNull,
    /// A custom-typed cell: the server-supplied class name and the raw body.
    CqlCustom(String, Vec<u8>),
    CqlAscii(String),
    CqlBigint(i64),
    CqlBlob(Vec<u8>),
    CqlBoolean(bool),
    CqlCounter(u64),
    /// A decimal: scale, then the unscaled value.
    CqlDecimal(i32, i64),
    /// An IEEE-754 double, carried as its bit pattern.
    CqlDouble(u64),
    /// An IEEE-754 float, carried as its bit pattern.
    CqlFloat(u32),
    CqlInt(i32),
    CqlText(String),
    CqlTimestamp(i64),
    CqlUUID([u8; 16]),
    CqlVarChar(String),
    CqlVarInt(i64),
    CqlTimeUUID([u8; 16]),
    CqlInet(InetAddr),
    CqlList(Vec<Value>),
    CqlMap(Vec<(Value, Value)>),
    CqlSet(Vec<Value>),
    CqlUDT,
    CqlTuple(Vec<Value>),
    CqlUnknown,
}

/// The mathematical form of a value: strings as character sequences, byte
/// containers as byte sequences, collections as sequences of views.
pub enum ValueView {
    CqlNull,
    CqlCustom(Seq<char>, Seq<u8>),
    CqlAscii(Seq<char>),
    CqlBigint(i64),
    CqlBlob(Seq<u8>),
    CqlBoolean(bool),
    CqlCounter(u64),
    CqlDecimal(i32, i64),
    CqlDouble(u64),
    CqlFloat(u32),
    CqlInt(i32),
    CqlText(Seq<char>),
    CqlTimestamp(i64),
    CqlUUID(Seq<u8>),
    CqlVarChar(Seq<char>),
    CqlVarInt(i64),
    CqlTimeUUID(Seq<u8>),
    CqlInet(Seq<u8>),
    CqlList(Seq<ValueView>),
    CqlMap(Seq<(ValueView, ValueView)>),
    CqlSet(Seq<ValueView>),
    CqlUDT,
    CqlTuple(Seq<ValueView>),
    CqlUnknown,
}

/// The octets of an address.
pub open spec fn inet_octets(a: InetAddr) -> Seq<u8> {
    match a {
        InetAddr::V4(o) => o@,
        InetAddr::V6(o) => o@,
    }
}

/// The mathematical form of a value.
pub open spec fn value_view(v: Value) -> ValueView
    decreases v,
{
    match v {
        Value::CqlNull => ValueView::CqlNull,
        Value::CqlCustom(name, data) => ValueView::CqlCustom(name@, data@),
        Value::CqlAscii(s) => ValueView::CqlAscii(s@),
        Value::CqlBigint(x) => ValueView::CqlBigint(x),
        Value::CqlBlob(data) => ValueView::CqlBlob(data@),
        Value::CqlBoolean(b) => ValueView::CqlBoolean(b),
        Value::CqlCounter(x) => ValueView::CqlCounter(x),
        Value::CqlDecimal(scale, unscaled) => ValueView::CqlDecimal(scale, unscaled),
        Value::CqlDouble(bits) => ValueView::CqlDouble(bits),
        Value::CqlFloat(bits) => ValueView::CqlFloat(bits),
        Value::CqlInt(x) => ValueView::CqlInt(x),
        Value::CqlText(s) => ValueView::CqlText(s@),
        Value::CqlTimestamp(x) => ValueView::CqlTimestamp(x),
        Value::CqlUUID(a) => ValueView::CqlUUID(a@),
        Value::CqlVarChar(s) => ValueView::CqlVarChar(s@),
        Value::CqlVarInt(x) => ValueView::CqlVarInt(x),
        Value::CqlTimeUUID(a) => ValueView::CqlTimeUUID(a@),
        Value::CqlInet(a) => ValueView::CqlInet(inet_octets(a)),
        Value::CqlList(items) => ValueView::CqlList(values_view(items@)),
        Value::CqlMap(ps) => ValueView::CqlMap(pairs_view(ps@)),
        Value::CqlSet(items) => ValueView::CqlSet(values_view(items@)),
        Value::CqlUDT => ValueView::CqlUDT,
        Value::CqlTuple(items) => ValueView::CqlTuple(values_view(items@)),
        Value::CqlUnknown => ValueView::CqlUnknown,
    }
}

/// The mathematical form of a sequence of values.
pub open spec fn values_view(vs: Seq<Value>) -> Seq<ValueView>
    decreases vs,
{
    if vs.len() == 0 {
        Seq::empty()
    } else {
        seq![value_view(vs[0])] + values_view(vs.drop_first())
    }
}

/// The mathematical form of a sequence of key/value pairs.
pub open spec fn pairs_view(ps: Seq<(Value, Value)>) -> Seq<(ValueView, ValueView)>
    decreases ps,
{
    if ps.len() == 0 {
        Seq::empty()
    } else {
        seq![(value_view(ps[0].0), value_view(ps[0].1))] + pairs_view(ps.drop_first())
    }
}

/// Views distribute over appending one value at the back.
pub proof fn lemma_values_view_push(vs: Seq<Value>, v: Value)
    ensures
        values_view(vs.push(v)) == values_view(vs) + seq![value_view(v)],
        values_view(vs).len() == vs.len(),
    decreases vs.len(),
{
    if vs.len() == 0 {
        assert(vs.push(v)[0] == v);
        assert(vs.push(v).drop_first() =~= Seq::<Value>::empty());
        assert(values_view(vs.push(v).drop_first()) =~= Seq::<ValueView>::empty());
        assert(values_view(vs) =~= Seq::<ValueView>::empty());
        assert(values_view(vs.push(v)) =~= values_view(vs) + seq![value_view(v)]);
    } else {
        lemma_values_view_push(vs.drop_first(), v);
        assert(vs.push(v).drop_first() =~= vs.drop_first().push(v));
        assert(vs.push(v)[0] == vs[0]);
        assert(values_view(vs.push(v)) =~= values_view(vs) + seq![value_view(v)]);
    }
}

/// Views distribute over appending one pair at the back.
pub proof fn lemma_pairs_view_push(ps: Seq<(Value, Value)>, p: (Value, Value))
    ensures
        pairs_view(ps.push(p)) == pairs_view(ps) + seq![(value_view(p.0), value_view(p.1))],
        pairs_view(ps).len() == ps.len(),
    decreases ps.len(),
{
    if ps.len() == 0 {
        assert(ps.push(p)[0] == p);
        assert(ps.push(p).drop_first() =~= Seq::<(Value, Value)>::empty());
        assert(pairs_view(ps.push(p).drop_first()) =~= Seq::<(ValueView, ValueView)>::empty());
        assert(pairs_view(ps) =~= Seq::<(ValueView, ValueView)>::empty());
        assert(pairs_view(ps.push(p)) =~= pairs_view(ps) + seq![(value_view(p.0), value_view(
            p.1,
        ))]);
    } else {
        lemma_pairs_view_push(ps.drop_first(), p);
        assert(ps.push(p).drop_first() =~= ps.drop_first().push(p));
        assert(ps.push(p)[0] == ps[0]);
        assert(pairs_view(ps.push(p)) =~= pairs_view(ps) + seq![(value_view(p.0), value_view(
            p.1,
        ))]);
    }
}

/// Whether this codec can write the value: `Counter`, `Decimal`, UDT and
/// `Unknown` cells — and any collection holding one — cannot be encoded.
pub open spec fn val_encodable(v: ValueView) -> bool
    decreases v,
{
    match v {
        ValueView::CqlCounter(_) => false,
        ValueView::CqlDecimal(_, _) => false,
        ValueView::CqlUDT => false,
        ValueView::CqlUnknown => false,
        ValueView::CqlList(items) => vals_encodable(items),
        ValueView::CqlMap(ps) => pairs_encodable(ps),
        ValueView::CqlSet(items) => vals_encodable(items),
        ValueView::CqlTuple(items) => vals_encodable(items),
        _ => true,
    }
}

/// Whether every value of a sequence can be encoded.
pub open spec fn vals_encodable(vs: Seq<ValueView>) -> bool
    decreases vs,
{
    if vs.len() == 0 {
        true
    } else {
        val_encodable(vs[0]) && vals_encodable(vs.drop_first())
    }
}

/// Whether every key and value of a sequence of pairs can be encoded.
pub open spec fn pairs_encodable(ps: Seq<(ValueView, ValueView)>) -> bool
    decreases ps,
{
    if ps.len() == 0 {
        true
    } else {
        val_encodable(ps[0].0) && val_encodable(ps[0].1) && pairs_encodable(ps.drop_first())
    }
}

/// The body bytes of a value — what follows its 32-bit length prefix.
/// Unencodable variants are given an empty body; nothing writes them.
pub open spec fn val_body(v: ValueView) -> Seq<u8>
    decreases v, 0nat,
{
    match v {
        ValueView::CqlNull => Seq::empty(),
        ValueView::CqlCustom(_, data) => data,
        ValueView::CqlAscii(s) => encode_utf8(s),
        ValueView::CqlBigint(x) => i64_bytes(x),
        ValueView::CqlBlob(data) => data,
        ValueView::CqlBoolean(b) => seq![
            if b {
                1u8
            } else {
                0u8
            },
        ],
        ValueView::CqlCounter(_) => Seq::empty(),
        ValueView::CqlDecimal(_, _) => Seq::empty(),
        ValueView::CqlDouble(bits) => u64_bytes(bits),
        ValueView::CqlFloat(bits) => u32_bytes(bits),
        ValueView::CqlInt(x) => i32_bytes(x),
        ValueView::CqlText(s) => encode_utf8(s),
        ValueView::CqlTimestamp(x) => i64_bytes(x),
        ValueView::CqlUUID(d) => d,
        ValueView::CqlVarChar(s) => encode_utf8(s),
        ValueView::CqlVarInt(x) => i64_bytes(x),
        ValueView::CqlTimeUUID(d) => d,
        ValueView::CqlInet(d) => d,
        ValueView::CqlList(items) => u32_bytes(items.len() as u32) + vals_wire(items),
        ValueView::CqlMap(ps) => u32_bytes(ps.len() as u32) + pairs_wire(ps),
        ValueView::CqlSet(items) => u32_bytes(items.len() as u32) + vals_wire(items),
        ValueView::CqlUDT => Seq::empty(),
        ValueView::CqlTuple(items) => vals_wire(items),
        ValueView::CqlUnknown => Seq::empty(),
    }
}

/// The full wire form of a value: `-1` for `Null`, otherwise the body's
/// length as a 32-bit big-endian prefix, then the body.
pub open spec fn val_wire(v: ValueView) -> Seq<u8>
    decreases v, 1nat,
{
    match v {
        ValueView::CqlNull => i32_bytes(-1i32),
        _ => u32_bytes(val_body(v).len() as u32) + val_body(v),
    }
}

/// The concatenated wire forms of a sequence of values.
pub open spec fn vals_wire(vs: Seq<ValueView>) -> Seq<u8>
    decreases vs, 2nat,
{
    if vs.len() == 0 {
        Seq::empty()
    } else {
        val_wire(vs[0]) + vals_wire(vs.drop_first())
    }
}

/// The concatenated wire forms of a sequence of pairs, key before value.
pub open spec fn pairs_wire(ps: Seq<(ValueView, ValueView)>) -> Seq<u8>
    decreases ps, 2nat,
{
    if ps.len() == 0 {
        Seq::empty()
    } else {
        val_wire(ps[0].0) + val_wire(ps[0].1) + pairs_wire(ps.drop_first())
    }
}

/// Whether every length this value's wire form carries fits its field: each
/// body within a signed 32-bit length, each collection count within an
/// unsigned 32-bit count.
pub open spec fn val_size_ok(v: ValueView) -> bool
    decreases v, 1nat,
{
    val_body(v).len() <= 0x7FFFFFFF && val_nested_ok(v)
}

/// The size conditions of a value's parts, without its own body bound.
pub open spec fn val_nested_ok(v: ValueView) -> bool
    decreases v, 0nat,
{
    match v {
        ValueView::CqlList(items) => items.len() <= 0xFFFFFFFFu64 && vals_size_ok(items),
        ValueView::CqlMap(ps) => ps.len() <= 0xFFFFFFFFu64 && pairs_size_ok(ps),
        ValueView::CqlSet(items) => items.len() <= 0xFFFFFFFFu64 && vals_size_ok(items),
        ValueView::CqlTuple(items) => vals_size_ok(items),
        _ => true,
    }
}

/// Whether every value of a sequence satisfies the size conditions.
pub open spec fn vals_size_ok(vs: Seq<ValueView>) -> bool
    decreases vs, 2nat,
{
    if vs.len() == 0 {
        true
    } else {
        val_size_ok(vs[0]) && vals_size_ok(vs.drop_first())
    }
}

/// Whether every key and value of a sequence of pairs satisfies the size
/// conditions.
pub open spec fn pairs_size_ok(ps: Seq<(ValueView, ValueView)>) -> bool
    decreases ps, 2nat,
{
    if ps.len() == 0 {
        true
    } else {
        val_size_ok(ps[0].0) && val_size_ok(ps[0].1) && pairs_size_ok(ps.drop_first())
    }
}

/// The wire bytes of a sequence distribute over appending one value.
pub proof fn lemma_vals_wire_push(vs: Seq<ValueView>, v: ValueView)
    ensures
        vals_wire(vs.push(v)) == vals_wire(vs) + val_wire(v),
    decreases vs.len(),
{
    if vs.len() == 0 {
        assert(vs.push(v)[0] == v);
        assert(vs.push(v).drop_first() =~= Seq::<ValueView>::empty());
        assert(vals_wire(vs.push(v).drop_first()) =~= Seq::<u8>::empty());
        assert(vals_wire(vs) =~= Seq::<u8>::empty());
        assert(vals_wire(vs.push(v)) =~= vals_wire(vs) + val_wire(v));
    } else {
        lemma_vals_wire_push(vs.drop_first(), v);
        assert(vs.push(v).drop_first() =~= vs.drop_first().push(v));
        assert(vs.push(v)[0] == vs[0]);
        assert(vals_wire(vs.push(v)) =~= vals_wire(vs) + val_wire(v));
    }
}

/// The wire bytes of a pair sequence distribute over appending one pair.
pub proof fn lemma_pairs_wire_push(ps: Seq<(ValueView, ValueView)>, p: (ValueView, ValueView))
    ensures
        pairs_wire(ps.push(p)) == pairs_wire(ps) + val_wire(p.0) + val_wire(p.1),
    decreases ps.len(),
{
    if ps.len() == 0 {
        assert(ps.push(p)[0] == p);
        assert(ps.push(p).drop_first() =~= Seq::<(ValueView, ValueView)>::empty());
        assert(pairs_wire(ps.push(p).drop_first()) =~= Seq::<u8>::empty());
        assert(pairs_wire(ps) =~= Seq::<u8>::empty());
        assert(pairs_wire(ps.push(p)) =~= pairs_wire(ps) + val_wire(p.0) + val_wire(p.1));
    } else {
        lemma_pairs_wire_push(ps.drop_first(), p);
        assert(ps.push(p).drop_first() =~= ps.drop_first().push(p));
        assert(ps.push(p)[0] == ps[0]);
        assert(pairs_wire(ps.push(p)) =~= pairs_wire(ps) + val_wire(p.0) + val_wire(p.1));
    }
}

/// Encodability of a sequence is encodability of each element.
pub proof fn lemma_vals_encodable_char(vs: Seq<ValueView>)
    ensures
        vals_encodable(vs) <==> (forall|i: int| 0 <= i < vs.len() ==> val_encodable(vs[i])),
    decreases vs.len(),
{
    if vs.len() > 0 {
        lemma_vals_encodable_char(vs.drop_first());
        assert(forall|i: int|
            0 < i < vs.len() ==> vs[i] == vs.drop_first()[i - 1] && (0 <= i - 1
                < vs.drop_first().len()));
    }
}

/// Encodability of a pair sequence is encodability of each key and value.
pub proof fn lemma_pairs_encodable_char(ps: Seq<(ValueView, ValueView)>)
    ensures
        pairs_encodable(ps) <==> (forall|i: int|
            0 <= i < ps.len() ==> val_encodable(ps[i].0) && val_encodable(ps[i].1)),
    decreases ps.len(),
{
    if ps.len() > 0 {
        lemma_pairs_encodable_char(ps.drop_first());
        assert(forall|i: int|
            0 < i < ps.len() ==> ps[i] == ps.drop_first()[i - 1] && (0 <= i - 1
                < ps.drop_first().len()));
    }
}

/// Size conditions of a sequence hold exactly when they hold of each element.
pub proof fn lemma_vals_size_char(vs: Seq<ValueView>)
    ensures
        vals_size_ok(vs) <==> (forall|i: int| 0 <= i < vs.len() ==> val_size_ok(vs[i])),
    decreases vs.len(),
{
    if vs.len() > 0 {
        lemma_vals_size_char(vs.drop_first());
        assert(forall|i: int|
            0 < i < vs.len() ==> vs[i] == vs.drop_first()[i - 1] && (0 <= i - 1
                < vs.drop_first().len()));
    }
}

/// Size conditions of a pair sequence hold exactly when they hold of each
/// key and value.
pub proof fn lemma_pairs_size_char(ps: Seq<(ValueView, ValueView)>)
    ensures
        pairs_size_ok(ps) <==> (forall|i: int|
            0 <= i < ps.len() ==> val_size_ok(ps[i].0) && val_size_ok(ps[i].1)),
    decreases ps.len(),
{
    if ps.len() > 0 {
        lemma_pairs_size_char(ps.drop_first());
        assert(forall|i: int|
            0 < i < ps.len() ==> ps[i] == ps.drop_first()[i - 1] && (0 <= i - 1
                < ps.drop_first().len()));
    }
}

/// Appends a value's full wire form: its length prefix, then its body.
/// Succeeds exactly on values this codec can write whose lengths fit their
/// fields; on failure the output is left untouched.
pub fn write_value(v: &Value, out: &mut Vec<u8>) -> (r: Result<(), Error>)
    ensures
        (val_encodable(value_view(*v)) && val_size_ok(value_view(*v))) <==> r is Ok,
        r is Ok ==> final(out)@ == old(out)@ + val_wire(value_view(*v)),
        r is Err ==> final(out)@ == old(out)@,
        r is Err && val_encodable(value_view(*v)) ==> r == Err::<(), Error>(Error::Protocol),
        r is Err && val_size_ok(value_view(*v)) ==> r == Err::<(), Error>(Error::Unimplemented),
    decreases *v, 3nat,
{
    match v {
        Value::CqlNull => {
            write_i32(out, -1);
            Ok(())
        },
        _ => {
            let mut body: Vec<u8> = Vec::new();
            match write_value_body(v, &mut body) {
                Err(e) => Err(e),
                Ok(()) => {
                    if body.len() > 0x7FFFFFFF {
                        Err(Error::Protocol)
                    } else {
                        write_u32(out, body.len() as u32);
                        append_bytes(out, body.as_slice());
                        Ok(())
                    }
                },
            }
        },
    }
}

/// Appends a value's body bytes, without the length prefix. On failure the
/// output may hold a partial body; callers buffer and discard it.
fn write_value_body(v: &Value, out: &mut Vec<u8>) -> (r: Result<(), Error>)
    ensures
        (val_encodable(value_view(*v)) && val_nested_ok(value_view(*v))) <==> r is Ok,
        r is Ok ==> final(out)@ == old(out)@ + val_body(value_view(*v)),
        r is Err && val_encodable(value_view(*v)) ==> r == Err::<(), Error>(Error::Protocol),
        r is Err && val_nested_ok(value_view(*v)) ==> r == Err::<(), Error>(Error::Unimplemented),
    decreases *v, 2nat,
{
    match v {
        Value::CqlList(items) => {
            proof {
                lemma_values_view_len(items@);
            }
            write_collection(items, out)
        },
        Value::CqlSet(items) => {
            proof {
                lemma_values_view_len(items@);
            }
            write_collection(items, out)
        },
        Value::CqlMap(ps) => {
            proof {
                lemma_pairs_view_len(ps@);
            }
            write_pairs(ps, out)
        },
        Value::CqlTuple(items) => write_vals(items, out),
        _ => write_value_leaf(v, out),
    }
}

/// Appends the body of a leaf value — one that holds no nested values.
#[verifier::rlimit(100)]
#[verifier::spinoff_prover]
fn write_value_leaf(v: &Value, out: &mut Vec<u8>) -> (r: Result<(), Error>)
    requires
        !((*v) is CqlList),
        !((*v) is CqlSet),
        !((*v) is CqlMap),
        !((*v) is CqlTuple),
    ensures
        (val_encodable(value_view(*v)) && val_nested_ok(value_view(*v))) <==> r is Ok,
        r is Ok ==> final(out)@ == old(out)@ + val_body(value_view(*v)),
        r is Err && val_encodable(value_view(*v)) ==> r == Err::<(), Error>(Error::Protocol),
        r is Err && val_nested_ok(value_view(*v)) ==> r == Err::<(), Error>(Error::Unimplemented),
{
    match v {
        Value::CqlNull => Ok(()),
        Value::CqlCustom(_, data) => {
            append_bytes(out, data.as_slice());
            Ok(())
        },
        Value::CqlAscii(s) => {
            let bv = s.as_str().as_bytes_vec();
            append_bytes(out, bv.as_slice());
            Ok(())
        },
        Value::CqlBigint(x) => {
            write_i64(out, *x);
            Ok(())
        },
        Value::CqlBlob(data) => {
            append_bytes(out, data.as_slice());
            Ok(())
        },
        Value::CqlBoolean(b) => {
            let byte: u8 = if *b {
                1
            } else {
                0
            };
            out.push(byte);
            assert(out@ =~= old(out)@ + val_body(value_view(*v)));
            Ok(())
        },
        Value::CqlCounter(_) => Err(Error::Unimplemented),
        Value::CqlDecimal(_, _) => Err(Error::Unimplemented),
        Value::CqlDouble(bits) => {
            write_u64(out, *bits);
            Ok(())
        },
        Value::CqlFloat(bits) => {
            write_u32(out, *bits);
            Ok(())
        },
        Value::CqlInt(x) => {
            write_i32(out, *x);
            Ok(())
        },
        Value::CqlText(s) => {
            let bv = s.as_str().as_bytes_vec();
            append_bytes(out, bv.as_slice());
            Ok(())
        },
        Value::CqlTimestamp(x) => {
            write_i64(out, *x);
            Ok(())
        },
        Value::CqlUUID(a) => {
            append_bytes(out, a.as_slice());
            Ok(())
        },
        Value::CqlVarChar(s) => {
            let bv = s.as_str().as_bytes_vec();
            append_bytes(out, bv.as_slice());
            Ok(())
        },
        Value::CqlVarInt(x) => {
            write_i64(out, *x);
            Ok(())
        },
        Value::CqlTimeUUID(a) => {
            append_bytes(out, a.as_slice());
            Ok(())
        },
        Value::CqlInet(addr) => {
            match addr {
                InetAddr::V4(o) => append_bytes(out, o.as_slice()),
                InetAddr::V6(o) => append_bytes(out, o.as_slice()),
            }
            Ok(())
        },
        Value::CqlUDT => Err(Error::Unimplemented),
        Value::CqlUnknown => Err(Error::Unimplemented),
        _ => Err(Error::Protocol),
    }
}

/// Appends a list or set body: the element count, then each element's wire
/// form. The two collection kinds share one body layout.
fn write_collection(items: &Vec<Value>, out: &mut Vec<u8>) -> (r: Result<(), Error>)
    ensures
        (vals_encodable(values_view(items@)) && items@.len() <= 0xFFFFFFFFu64 && vals_size_ok(
            values_view(items@),
        )) <==> r is Ok,
        r is Ok ==> final(out)@ == old(out)@ + u32_bytes(values_view(items@).len() as u32)
            + vals_wire(values_view(items@)),
        r is Err && vals_encodable(values_view(items@)) ==> r == Err::<(), Error>(Error::Protocol),
        r is Err && (items@.len() <= 0xFFFFFFFFu64 && vals_size_ok(values_view(items@))) ==> r
            == Err::<(), Error>(Error::Unimplemented),
    decreases *items, 1nat,
{
    proof {
        lemma_values_view_len(items@);
    }
    if items.len() > 0xFFFFFFFF {
        return Err(Error::Protocol);
    }
    write_u32(out, items.len() as u32);
    match write_vals(items, out) {
        Ok(()) => Ok(()),
        Err(e) => Err(e),
    }
}

/// Appends the wire forms of a run of values, one after the other.
#[verifier::rlimit(60)]
pub(crate) fn write_vals(items: &Vec<Value>, out: &mut Vec<u8>) -> (r: Result<(), Error>)
    ensures
        (vals_encodable(values_view(items@)) && vals_size_ok(values_view(items@))) <==> r is Ok,
        r is Ok ==> final(out)@ == old(out)@ + vals_wire(values_view(items@)),
        r is Err && vals_encodable(values_view(items@)) ==> r == Err::<(), Error>(Error::Protocol),
        r is Err && vals_size_ok(values_view(items@)) ==> r == Err::<(), Error>(
            Error::Unimplemented,
        ),
    decreases *items, 0nat,
{
    let ghost entry = out@;
    let mut i: usize = 0;
    while i < items.len()
        invariant
            i <= items@.len(),
            entry == old(out)@,
            out@ == entry + vals_wire(values_view(items@.subrange(0, i as int))),
            vals_encodable(values_view(items@.subrange(0, i as int))),
            vals_size_ok(values_view(items@.subrange(0, i as int))),
        decreases items@.len() - i,
    {
        let ghost prefix = items@.subrange(0, i as int);
        match write_value(&items[i], out) {
            Ok(()) => {},
            Err(e) => {
                proof {
                    lemma_seq_member_bad(items@, i as int);
                }
                return Err(e);
            },
        }
        proof {
            lemma_values_view_push(prefix, items@[i as int]);
            assert(prefix.push(items@[i as int]) =~= items@.subrange(0, i + 1));
            lemma_vals_wire_push(values_view(prefix), value_view(items@[i as int]));
            lemma_vals_encodable_snoc(values_view(prefix), value_view(items@[i as int]));
            assert(values_view(prefix).push(value_view(items@[i as int])) =~= values_view(prefix)
                + seq![value_view(items@[i as int])]);
            assert(out@ =~= entry + vals_wire(values_view(items@.subrange(0, i + 1))));
        }
        i = i + 1;
    }
    proof {
        assert(items@.subrange(0, items@.len() as int) =~= items@);
    }
    Ok(())
}

/// Appends a map body: the pair count, then each key's and each value's
/// wire form in turn.
#[verifier::rlimit(60)]
fn write_pairs(ps: &Vec<(Value, Value)>, out: &mut Vec<u8>) -> (r: Result<(), Error>)
    ensures
        (pairs_encodable(pairs_view(ps@)) && ps@.len() <= 0xFFFFFFFFu64 && pairs_size_ok(
            pairs_view(ps@),
        )) <==> r is Ok,
        r is Ok ==> final(out)@ == old(out)@ + u32_bytes(pairs_view(ps@).len() as u32)
            + pairs_wire(pairs_view(ps@)),
        r is Err && pairs_encodable(pairs_view(ps@)) ==> r == Err::<(), Error>(Error::Protocol),
        r is Err && (ps@.len() <= 0xFFFFFFFFu64 && pairs_size_ok(pairs_view(ps@))) ==> r == Err::<
            (),
            Error,
        >(Error::Unimplemented),
    decreases *ps, 0nat,
{
    proof {
        lemma_pairs_view_len(ps@);
    }
    if ps.len() > 0xFFFFFFFF {
        return Err(Error::Protocol);
    }
    write_u32(out, ps.len() as u32);
    let ghost entry = out@;
    let mut i: usize = 0;
    while i < ps.len()
        invariant
            i <= ps@.len(),
            ps@.len() <= 0xFFFFFFFFu64,
            out@ == entry + pairs_wire(pairs_view(ps@.subrange(0, i as int))),
            pairs_encodable(pairs_view(ps@.subrange(0, i as int))),
            pairs_size_ok(pairs_view(ps@.subrange(0, i as int))),
        decreases ps@.len() - i,
    {
        let ghost prefix = ps@.subrange(0, i as int);
        proof {
            assert(decreases_to!(*ps => ps@));
            assert(decreases_to!(ps@ => ps@[i as int]));
            assert(decreases_to!(ps@[i as int] => ps@[i as int].0));
            assert(decreases_to!(ps@[i as int] => ps@[i as int].1));
        }
        let pair = &ps[i];
        match write_value(&pair.0, out) {
            Ok(()) => {},
            Err(e) => {
                proof {
                    lemma_map_member_bad(ps@, i as int, true);
                }
                return Err(e);
            },
        }
        match write_value(&pair.1, out) {
            Ok(()) => {},
            Err(e) => {
                proof {
                    lemma_map_member_bad(ps@, i as int, false);
                }
                return Err(e);
            },
        }
        proof {
            lemma_pairs_view_push(prefix, ps@[i as int]);
            assert(prefix.push(ps@[i as int]) =~= ps@.subrange(0, i + 1));
            lemma_pairs_wire_push(
                pairs_view(prefix),
                (value_view(ps@[i as int].0), value_view(ps@[i as int].1)),
            );
            lemma_pairs_encodable_snoc(
                pairs_view(prefix),
                (value_view(ps@[i as int].0), value_view(ps@[i as int].1)),
            );
            assert(pairs_view(prefix).push((value_view(ps@[i as int].0), value_view(
                ps@[i as int].1,
            ))) =~= pairs_view(prefix) + seq![(value_view(ps@[i as int].0), value_view(
                ps@[i as int].1,
            ))]);
            assert(out@ =~= entry + pairs_wire(pairs_view(ps@.subrange(0, i + 1))));
        }
        i = i + 1;
    }
    proof {
        assert(ps@.subrange(0, ps@.len() as int) =~= ps@);
    }
    Ok(())
}

/// The length of a viewed sequence of values.
pub proof fn lemma_values_view_len(vs: Seq<Value>)
    ensures
        values_view(vs).len() == vs.len(),
    decreases vs.len(),
{
    if vs.len() > 0 {
        lemma_values_view_len(vs.drop_first());
    }
}

/// The length of a viewed sequence of pairs.
pub proof fn lemma_pairs_view_len(ps: Seq<(Value, Value)>)
    ensures
        pairs_view(ps).len() == ps.len(),
    decreases ps.len(),
{
    if ps.len() > 0 {
        lemma_pairs_view_len(ps.drop_first());
    }
}

/// Appending a good element keeps a sequence encodable and sized.
proof fn lemma_vals_encodable_snoc(vs: Seq<ValueView>, v: ValueView)
    ensures
        (vals_encodable(vs) && val_encodable(v)) == vals_encodable(vs.push(v)),
        (vals_size_ok(vs) && val_size_ok(v)) == vals_size_ok(vs.push(v)),
{
    lemma_vals_encodable_char(vs);
    lemma_vals_encodable_char(vs.push(v));
    lemma_vals_size_char(vs);
    lemma_vals_size_char(vs.push(v));
    assert(forall|i: int| 0 <= i < vs.len() ==> vs.push(v)[i] == vs[i]);
    assert(vs.push(v)[vs.len() as int] == v);
}

/// Appending a good pair keeps a pair sequence encodable and sized.
proof fn lemma_pairs_encodable_snoc(ps: Seq<(ValueView, ValueView)>, p: (ValueView, ValueView))
    ensures
        (pairs_encodable(ps) && val_encodable(p.0) && val_encodable(p.1)) == pairs_encodable(
            ps.push(p),
        ),
        (pairs_size_ok(ps) && val_size_ok(p.0) && val_size_ok(p.1)) == pairs_size_ok(ps.push(p)),
{
    lemma_pairs_encodable_char(ps);
    lemma_pairs_encodable_char(ps.push(p));
    lemma_pairs_size_char(ps);
    lemma_pairs_size_char(ps.push(p));
    assert(forall|i: int| 0 <= i < ps.len() ==> ps.push(p)[i] == ps[i]);
    assert(ps.push(p)[ps.len() as int] == p);
}

/// One bad element makes the whole sequence bad.
proof fn lemma_seq_member_bad(vs: Seq<Value>, i: int)
    requires
        0 <= i < vs.len(),
    ensures
        !val_encodable(value_view(vs[i])) ==> !vals_encodable(values_view(vs)),
        !val_size_ok(value_view(vs[i])) ==> !vals_size_ok(values_view(vs)),
{
    lemma_values_view_len(vs);
    lemma_values_view_index(vs, i);
    lemma_vals_encodable_char(values_view(vs));
    lemma_vals_size_char(values_view(vs));
}

/// One bad key or value makes the whole pair sequence bad.
proof fn lemma_map_member_bad(ps: Seq<(Value, Value)>, i: int, key: bool)
    requires
        0 <= i < ps.len(),
    ensures
        key && !val_encodable(value_view(ps[i].0)) ==> !pairs_encodable(pairs_view(ps)),
        key && !val_size_ok(value_view(ps[i].0)) ==> !pairs_size_ok(pairs_view(ps)),
        !key && !val_encodable(value_view(ps[i].1)) ==> !pairs_encodable(pairs_view(ps)),
        !key && !val_size_ok(value_view(ps[i].1)) ==> !pairs_size_ok(pairs_view(ps)),
{
    lemma_pairs_view_index(ps, i);
    lemma_pairs_encodable_char(pairs_view(ps));
    lemma_pairs_size_char(pairs_view(ps));
}

/// The view of a sequence element.
pub proof fn lemma_values_view_index(vs: Seq<Value>, i: int)
    requires
        0 <= i < vs.len(),
    ensures
        values_view(vs).len() == vs.len(),
        values_view(vs)[i] == value_view(vs[i]),
    decreases vs.len(),
{
    lemma_values_view_len(vs);
    if i > 0 {
        lemma_values_view_index(vs.drop_first(), i - 1);
    }
}

/// The view of a pair sequence element.
pub proof fn lemma_pairs_view_index(ps: Seq<(Value, Value)>, i: int)
    requires
        0 <= i < ps.len(),
    ensures
        pairs_view(ps).len() == ps.len(),
        pairs_view(ps)[i] == (value_view(ps[i].0), value_view(ps[i].1)),
    decreases ps.len(),
{
    lemma_pairs_view_len(ps);
    if i > 0 {
        lemma_pairs_view_index(ps.drop_first(), i - 1);
    }
}

} // verus!
