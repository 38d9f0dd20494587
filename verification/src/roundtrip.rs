//! The laws that tie the two directions of the value codec together: a
//! value that fits a descriptor, once encoded, decodes under that
//! descriptor back to itself and consumes exactly its wire bytes; and `-1`
//! in the length field marks `Null` and nothing else.

use vstd::prelude::*;

use crate::bytes_be::{as_i32, be32, u32_bytes};
use crate::descr::DescrView;
use crate::types::{ColumnType, Error};
use crate::value::{pairs_encodable, pairs_size_ok, pairs_wire, val_body, val_encodable,
    val_size_ok, val_wire, vals_encodable, vals_size_ok, vals_wire, ValueView};
use crate::value_read::{dec_leaf, dec_pairs, dec_tuple, dec_value, dec_values};

verus! {

broadcast use vstd::utf8::encode_utf8_valid_utf8, vstd::utf8::encode_utf8_decode_utf8;

/// Whether a leaf type describes a value: the variant the type id calls
/// for, with the fixed widths the wire demands.
pub open spec fn leaf_matches(ty: ColumnType, v: ValueView) -> bool {
    match ty {
        ColumnType::Ascii => v is CqlAscii,
        ColumnType::Bigint => v is CqlBigint,
        ColumnType::Blob => v is CqlBlob,
        ColumnType::Boolean => v is CqlBoolean,
        ColumnType::Counter => v is CqlCounter,
        ColumnType::Decimal => v is CqlDecimal,
        ColumnType::Double => v is CqlDouble,
        ColumnType::Float => v is CqlFloat,
        ColumnType::Int => v is CqlInt,
        ColumnType::Text => v is CqlText,
        ColumnType::Timestamp => v is CqlTimestamp,
        ColumnType::UUID => v matches ValueView::CqlUUID(d) && d.len() == 16,
        ColumnType::VarChar => v is CqlVarChar,
        ColumnType::VarInt => v is CqlVarInt,
        ColumnType::TimeUUID => v matches ValueView::CqlTimeUUID(d) && d.len() == 16,
        ColumnType::Inet => v matches ValueView::CqlInet(d) && (d.len() == 4 || d.len() == 16),
        _ => false,
    }
}

/// Whether a descriptor describes a value. `Null` fits every descriptor;
/// any other value must carry the variant and nesting the descriptor calls
/// for.
pub open spec fn val_matches(d: DescrView, v: ValueView) -> bool
    decreases d, 2nat, 0nat,
{
    v is CqlNull || (match d {
        DescrView::Custom(name) => v matches ValueView::CqlCustom(n2, _) && n2 == name,
        DescrView::Single(ty) => leaf_matches(ty, v),
        DescrView::List(t) => v matches ValueView::CqlList(items) && vals_match(*t, items),
        DescrView::SetOf(t) => v matches ValueView::CqlSet(items) && vals_match(*t, items),
        DescrView::MapOf(_, _) => v matches ValueView::CqlMap(ps) && pairs_match(d, ps),
        DescrView::Tuple(ts) => v matches ValueView::CqlTuple(items) && tuple_match(ts, items),
    })
}

/// Whether one element type describes every value of a sequence.
pub open spec fn vals_match(t: DescrView, items: Seq<ValueView>) -> bool
    decreases t, 3nat, items.len(),
{
    if items.len() == 0 {
        true
    } else {
        val_matches(t, items[0]) && vals_match(t, items.drop_first())
    }
}

/// Whether a map descriptor describes every key and value of a pair
/// sequence.
pub open spec fn pairs_match(d: DescrView, ps: Seq<(ValueView, ValueView)>) -> bool
    recommends
        d is MapOf,
    decreases d, 1nat, ps.len(),
{
    if ps.len() == 0 {
        true
    } else if !(d is MapOf) {
        false
    } else {
        val_matches(*d->MapOf_0, ps[0].0) && val_matches(*d->MapOf_1, ps[0].1) && pairs_match(
            d,
            ps.drop_first(),
        )
    }
}

/// Whether a tuple's element descriptors describe a value sequence, one
/// each, in order.
pub open spec fn tuple_match(ts: Seq<DescrView>, items: Seq<ValueView>) -> bool
    decreases ts, 3nat, 0nat,
{
    if ts.len() != items.len() {
        false
    } else if ts.len() == 0 {
        true
    } else {
        val_matches(ts[0], items[0]) && tuple_match(ts.drop_first(), items.drop_first())
    }
}

/// A window of a matched region matches the same window of the pattern.
pub proof fn lemma_sub_split(b: Seq<u8>, pos: int, w: Seq<u8>, off: int, end: int)
    requires
        0 <= pos,
        pos + w.len() <= b.len(),
        b.subrange(pos, pos + w.len() as int) == w,
        0 <= off <= end <= w.len(),
    ensures
        b.subrange(pos + off, pos + end) =~= w.subrange(off, end),
{
    assert(b.subrange(pos + off, pos + end) =~= b.subrange(pos, pos + w.len() as int).subrange(
        off,
        end,
    ));
}

/// Every value's wire form starts with its four length bytes.
pub proof fn lemma_val_wire_min_len(v: ValueView)
    ensures
        val_wire(v).len() >= 4,
        !(v is CqlNull) ==> val_wire(v).len() == 4 + val_body(v).len(),
{
}

/// A run of values occupies at least four bytes per value.
pub proof fn lemma_vals_wire_min_len(items: Seq<ValueView>)
    ensures
        vals_wire(items).len() >= 4 * items.len(),
    decreases items.len(),
{
    if items.len() > 0 {
        lemma_val_wire_min_len(items[0]);
        lemma_vals_wire_min_len(items.drop_first());
    }
}

/// A run of pairs occupies at least eight bytes per pair.
pub proof fn lemma_pairs_wire_min_len(ps: Seq<(ValueView, ValueView)>)
    ensures
        pairs_wire(ps).len() >= 8 * ps.len(),
    decreases ps.len(),
{
    if ps.len() > 0 {
        lemma_val_wire_min_len(ps[0].0);
        lemma_val_wire_min_len(ps[0].1);
        lemma_pairs_wire_min_len(ps.drop_first());
    }
}

/// `Null` is the only value whose wire form carries a negative length: the
/// length field of every other writable value reads back as its body
/// length, which is never negative.
pub proof fn lemma_null_wire(v: ValueView)
    requires
        val_encodable(v),
        val_size_ok(v),
    ensures
        val_wire(v).len() >= 4,
        as_i32(be32(val_wire(v).subrange(0, 4))) == -1 <==> v is CqlNull,
        !(v is CqlNull) ==> as_i32(be32(val_wire(v).subrange(0, 4))) == val_body(v).len(),
{
    if v is CqlNull {
        assert(val_wire(v) == crate::bytes_be::i32_bytes(-1i32));
        crate::bytes_be::lemma_be32_of_u32(crate::bytes_be::wrap32(-1) as u32);
        assert(val_wire(v).subrange(0, 4) =~= u32_bytes(0xFFFFFFFFu32));
    } else {
        let len = val_body(v).len();
        crate::bytes_be::lemma_be32_of_u32(len as u32);
        assert(val_wire(v).subrange(0, 4) =~= u32_bytes(len as u32));
    }
}

/// A decoded cell is `Null` exactly when its length field is `-1`.
pub proof fn lemma_dec_null_iff(d: DescrView, b: Seq<u8>, pos: int)
    ensures
        dec_value(d, b, pos) matches Ok((v, p)) ==> (v is CqlNull <==> as_i32(
            be32(b.subrange(pos, pos + 4)),
        ) == -1),
{
}

/// Decoding the wire form of a writable value that fits the descriptor
/// yields that value back and ends exactly after its wire bytes.
#[verifier::rlimit(100)]
#[verifier::spinoff_prover]
pub proof fn lemma_value_round_trip(d: DescrView, v: ValueView, b: Seq<u8>, pos: int)
    requires
        val_matches(d, v),
        val_encodable(v),
        val_size_ok(v),
        0 <= pos,
        pos + val_wire(v).len() <= b.len(),
        b.subrange(pos, pos + val_wire(v).len() as int) == val_wire(v),
    ensures
        dec_value(d, b, pos) == Ok::<_, Error>((v, pos + val_wire(v).len())),
    decreases d, 2nat, 0nat,
{
    let w = val_wire(v);
    if v is CqlNull {
        crate::bytes_be::lemma_be32_of_u32(crate::bytes_be::wrap32(-1) as u32);
        lemma_sub_split(b, pos, w, 0, 4);
        assert(w.subrange(0, 4) =~= u32_bytes(0xFFFFFFFFu32));
        assert(as_i32(be32(b.subrange(pos, pos + 4))) == -1);
    } else {
        let body = val_body(v);
        let len = body.len() as int;
        crate::bytes_be::lemma_be32_of_u32(len as u32);
        lemma_sub_split(b, pos, w, 0, 4);
        assert(w.subrange(0, 4) =~= u32_bytes(len as u32));
        assert(as_i32(be32(b.subrange(pos, pos + 4))) == len);
        let start = pos + 4;
        lemma_sub_split(b, pos, w, 4, 4 + len);
        assert(w.subrange(4, 4 + len) =~= body);
        assert(b.subrange(start, start + len) =~= body);
        match d {
            DescrView::Custom(name) => {
                assert(dec_value(d, b, pos) == Ok::<_, Error>((v, start + len)));
            },
            DescrView::Single(ty) => {
                lemma_leaf_round_trip(ty, v, b, start);
            },
            DescrView::List(t) => {
                let items = v->CqlList_0;
                lemma_vals_wire_min_len(items);
                assert(items.len() <= len / 4);
                crate::bytes_be::lemma_be32_of_u32(items.len() as u32);
                lemma_sub_split(b, start, body, 0, 4);
                assert(body.subrange(0, 4) =~= u32_bytes(items.len() as u32));
                assert(as_i32(be32(b.subrange(start, start + 4))) == items.len());
                lemma_sub_split(b, start, body, 4, len);
                assert(body.subrange(4, len) =~= vals_wire(items));
                lemma_vals_round_trip(*t, items, b, start + 4);
            },
            DescrView::SetOf(t) => {
                let items = v->CqlSet_0;
                lemma_vals_wire_min_len(items);
                assert(items.len() <= len / 4);
                crate::bytes_be::lemma_be32_of_u32(items.len() as u32);
                lemma_sub_split(b, start, body, 0, 4);
                assert(body.subrange(0, 4) =~= u32_bytes(items.len() as u32));
                assert(as_i32(be32(b.subrange(start, start + 4))) == items.len());
                lemma_sub_split(b, start, body, 4, len);
                assert(body.subrange(4, len) =~= vals_wire(items));
                lemma_vals_round_trip(*t, items, b, start + 4);
            },
            DescrView::MapOf(_, _) => {
                let ps = v->CqlMap_0;
                lemma_pairs_wire_min_len(ps);
                assert(ps.len() <= len / 8);
                crate::bytes_be::lemma_be32_of_u32(ps.len() as u32);
                lemma_sub_split(b, start, body, 0, 4);
                assert(body.subrange(0, 4) =~= u32_bytes(ps.len() as u32));
                assert(as_i32(be32(b.subrange(start, start + 4))) == ps.len());
                lemma_sub_split(b, start, body, 4, len);
                assert(body.subrange(4, len) =~= pairs_wire(ps));
                lemma_pairs_round_trip(d, ps, b, start + 4);
            },
            DescrView::Tuple(ts) => {
                let items = v->CqlTuple_0;
                lemma_tuple_round_trip(ts, items, b, start);
            },
        }
    }
}

/// Decoding the body of a writable leaf value yields it back.
proof fn lemma_leaf_round_trip(ty: ColumnType, v: ValueView, b: Seq<u8>, pos: int)
    requires
        leaf_matches(ty, v),
        val_encodable(v),
        val_size_ok(v),
        !(v is CqlNull),
        0 <= pos,
        pos + val_body(v).len() <= b.len(),
        b.subrange(pos, pos + val_body(v).len() as int) == val_body(v),
    ensures
        dec_leaf(ty, b, pos, val_body(v).len() as int) == Ok::<_, Error>((
            v,
            pos + val_body(v).len(),
        )),
{
    let body = val_body(v);
    let len = body.len() as int;
    match ty {
        ColumnType::Ascii => {
            let s = v->CqlAscii_0;
            assert(b.subrange(pos, pos + len) == vstd::utf8::encode_utf8(s));
        },
        ColumnType::Text => {
            let s = v->CqlText_0;
            assert(b.subrange(pos, pos + len) == vstd::utf8::encode_utf8(s));
        },
        ColumnType::VarChar => {
            let s = v->CqlVarChar_0;
            assert(b.subrange(pos, pos + len) == vstd::utf8::encode_utf8(s));
        },
        ColumnType::Bigint => {
            let x = v->CqlBigint_0;
            crate::bytes_be::lemma_be64_of_u64(crate::bytes_be::wrap64(x as int) as u64);
            assert(b.subrange(pos, pos + 8) =~= crate::bytes_be::i64_bytes(x));
        },
        ColumnType::Timestamp => {
            let x = v->CqlTimestamp_0;
            crate::bytes_be::lemma_be64_of_u64(crate::bytes_be::wrap64(x as int) as u64);
            assert(b.subrange(pos, pos + 8) =~= crate::bytes_be::i64_bytes(x));
        },
        ColumnType::Blob => {
            assert(b.subrange(pos, pos + len) == v->CqlBlob_0);
        },
        ColumnType::Boolean => {
            assert(len == 1);
            assert(b.subrange(pos, pos + 1)[0] == b[pos]);
            if v->CqlBoolean_0 {
                assert(b[pos] == 1);
            } else {
                assert(b[pos] == 0);
            }
        },
        ColumnType::Double => {
            let bits = v->CqlDouble_0;
            crate::bytes_be::lemma_be64_of_u64(bits);
            assert(b.subrange(pos, pos + 8) =~= crate::bytes_be::u64_bytes(bits));
        },
        ColumnType::Float => {
            let bits = v->CqlFloat_0;
            crate::bytes_be::lemma_be32_of_u32(bits);
            assert(b.subrange(pos, pos + 4) =~= u32_bytes(bits));
        },
        ColumnType::Int => {
            let x = v->CqlInt_0;
            crate::bytes_be::lemma_be32_of_u32(crate::bytes_be::wrap32(x as int) as u32);
            assert(b.subrange(pos, pos + 4) =~= crate::bytes_be::i32_bytes(x));
        },
        ColumnType::UUID => {
            assert(b.subrange(pos, pos + 16) == v->CqlUUID_0);
        },
        ColumnType::TimeUUID => {
            assert(b.subrange(pos, pos + 16) == v->CqlTimeUUID_0);
        },
        ColumnType::VarInt => {
            let x = v->CqlVarInt_0;
            crate::varint::lemma_varint_round_trip(x);
            assert(b.subrange(pos, pos + 8) =~= crate::bytes_be::i64_bytes(x));
        },
        ColumnType::Inet => {
            assert(b.subrange(pos, pos + len) == v->CqlInet_0);
        },
        _ => {},
    }
}

/// Decoding the concatenated wire forms of a writable run of values yields
/// them all back, in order.
proof fn lemma_vals_round_trip(t: DescrView, items: Seq<ValueView>, b: Seq<u8>, pos: int)
    requires
        vals_match(t, items),
        vals_encodable(items),
        vals_size_ok(items),
        0 <= pos,
        pos + vals_wire(items).len() <= b.len(),
        b.subrange(pos, pos + vals_wire(items).len() as int) == vals_wire(items),
    ensures
        dec_values(t, b, pos, items.len()) == Ok::<_, Error>((
            items,
            pos + vals_wire(items).len(),
        )),
    decreases t, 3nat, items.len(),
{
    if items.len() == 0 {
        assert(dec_values(t, b, pos, 0) == Ok::<_, Error>((Seq::<ValueView>::empty(), pos)));
        assert(items =~= Seq::<ValueView>::empty());
    } else {
        let v0 = items[0];
        let w0 = val_wire(v0);
        let rest = items.drop_first();
        let all = vals_wire(items);
        assert(all == w0 + vals_wire(rest));
        lemma_sub_split(b, pos, all, 0, w0.len() as int);
        assert(all.subrange(0, w0.len() as int) =~= w0);
        lemma_value_round_trip(t, v0, b, pos);
        let p1 = pos + w0.len() as int;
        lemma_sub_split(b, pos, all, w0.len() as int, all.len() as int);
        assert(all.subrange(w0.len() as int, all.len() as int) =~= vals_wire(rest));
        lemma_vals_round_trip(t, rest, b, p1);
        assert(seq![v0] + rest =~= items);
    }
}

/// Decoding the concatenated wire forms of a writable run of pairs yields
/// them all back, keys before values.
proof fn lemma_pairs_round_trip(
    d: DescrView,
    ps: Seq<(ValueView, ValueView)>,
    b: Seq<u8>,
    pos: int,
)
    requires
        d is MapOf,
        pairs_match(d, ps),
        pairs_encodable(ps),
        pairs_size_ok(ps),
        0 <= pos,
        pos + pairs_wire(ps).len() <= b.len(),
        b.subrange(pos, pos + pairs_wire(ps).len() as int) == pairs_wire(ps),
    ensures
        dec_pairs(d, b, pos, ps.len()) == Ok::<_, Error>((ps, pos + pairs_wire(ps).len())),
    decreases d, 1nat, ps.len(),
{
    if ps.len() == 0 {
        assert(ps =~= Seq::<(ValueView, ValueView)>::empty());
    } else {
        let k0 = ps[0].0;
        let v0 = ps[0].1;
        let wk = val_wire(k0);
        let wv = val_wire(v0);
        let rest = ps.drop_first();
        let all = pairs_wire(ps);
        assert(all == wk + wv + pairs_wire(rest));
        lemma_sub_split(b, pos, all, 0, wk.len() as int);
        assert(all.subrange(0, wk.len() as int) =~= wk);
        lemma_value_round_trip(*d->MapOf_0, k0, b, pos);
        let p1 = pos + wk.len() as int;
        lemma_sub_split(b, pos, all, wk.len() as int, (wk.len() + wv.len()) as int);
        assert(all.subrange(wk.len() as int, (wk.len() + wv.len()) as int) =~= wv);
        lemma_value_round_trip(*d->MapOf_1, v0, b, p1);
        let p2 = p1 + wv.len() as int;
        lemma_sub_split(b, pos, all, (wk.len() + wv.len()) as int, all.len() as int);
        assert(all.subrange((wk.len() + wv.len()) as int, all.len() as int) =~= pairs_wire(rest));
        lemma_pairs_round_trip(d, rest, b, p2);
        assert(seq![(k0, v0)] + rest =~= ps);
    }
}

/// Decoding a tuple body under its element descriptors yields the elements
/// back, one per descriptor.
proof fn lemma_tuple_round_trip(ts: Seq<DescrView>, items: Seq<ValueView>, b: Seq<u8>, pos: int)
    requires
        tuple_match(ts, items),
        vals_encodable(items),
        vals_size_ok(items),
        0 <= pos,
        pos + vals_wire(items).len() <= b.len(),
        b.subrange(pos, pos + vals_wire(items).len() as int) == vals_wire(items),
    ensures
        dec_tuple(ts, b, pos) == Ok::<_, Error>((items, pos + vals_wire(items).len())),
    decreases ts, 3nat, 0nat,
{
    if ts.len() == 0 {
        assert(items.len() == 0);
        assert(items =~= Seq::<ValueView>::empty());
    } else {
        let v0 = items[0];
        let w0 = val_wire(v0);
        let rest = items.drop_first();
        let all = vals_wire(items);
        assert(all == w0 + vals_wire(rest));
        lemma_sub_split(b, pos, all, 0, w0.len() as int);
        assert(all.subrange(0, w0.len() as int) =~= w0);
        lemma_value_round_trip(ts[0], v0, b, pos);
        let p1 = pos + w0.len() as int;
        lemma_sub_split(b, pos, all, w0.len() as int, all.len() as int);
        assert(all.subrange(w0.len() as int, all.len() as int) =~= vals_wire(rest));
        lemma_tuple_round_trip(ts.drop_first(), rest, b, p1);
        assert(seq![v0] + rest =~= items);
    }
}

/// The round trip on a buffer that holds exactly one encoded value: what
/// `write_value` emits, `read_cql_col` — through its mathematical decoder —
/// gives back unchanged.
pub proof fn lemma_round_trip_exact(d: DescrView, v: ValueView)
    requires
        val_matches(d, v),
        val_encodable(v),
        val_size_ok(v),
    ensures
        dec_value(d, val_wire(v), 0) == Ok::<_, Error>((v, val_wire(v).len() as int)),
{
    let w = val_wire(v);
    assert(w.subrange(0, w.len() as int) =~= w);
    lemma_value_round_trip(d, v, w, 0);
}

} // verus!
