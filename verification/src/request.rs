//! Request frames: the STARTUP option map, query parameters, and the
//! builders for the five requests this client sends. Every builder returns
//! the complete frame bytes, and its body length always equals the 32-bit
//! length field written in the header.

use vstd::prelude::*;

use crate::bytes_be::{be32, i16_bytes, u16_bytes, u32_bytes, write_i16, write_u16, write_u32,
    write_u8};
use crate::primitives::{append_bytes, long_string_bytes, short_string_bytes, write_long_string,
    write_short_string};
use crate::response::FrameHeader;
use crate::types::{consistency_value, consistency_value_of, opcode_value, opcode_value_of,
    Consistency, Error, Opcode};
use crate::value::{vals_encodable, vals_size_ok, vals_wire, values_view, Value};
use vstd::utf8::encode_utf8;

verus! {

/// One STARTUP option: a key and its value.
#[derive(Debug)]
pub struct Pair {
    pub key: String,
    pub value: String,
}

/// A `[string map]`, as the STARTUP body carries it.
#[derive(Debug)]
pub struct StringMap {
    pub pairs: Vec<Pair>,
}

/// The view of a string map: its key/value pairs as character sequences.
pub open spec fn string_map_view(m: StringMap) -> Seq<(Seq<char>, Seq<char>)> {
    Seq::new(m.pairs@.len(), |i: int| (m.pairs@[i].key@, m.pairs@[i].value@))
}

/// The wire form of one key/value pair: two `[string]`s.
pub open spec fn pair_bytes(p: (Seq<char>, Seq<char>)) -> Seq<u8> {
    short_string_bytes(p.0) + short_string_bytes(p.1)
}

/// The wire form of a run of pairs.
pub open spec fn map_pairs_bytes(ps: Seq<(Seq<char>, Seq<char>)>) -> Seq<u8>
    decreases ps.len(),
{
    if ps.len() == 0 {
        Seq::empty()
    } else {
        pair_bytes(ps[0]) + map_pairs_bytes(ps.drop_first())
    }
}

/// The wire form of a `[string map]`: a 16-bit pair count, then each pair.
pub open spec fn string_map_bytes(ps: Seq<(Seq<char>, Seq<char>)>) -> Seq<u8> {
    u16_bytes(ps.len() as u16) + map_pairs_bytes(ps)
}

/// Whether a string map fits its wire fields: each string within a 16-bit
/// byte count, and the pair count itself within 16 bits.
pub open spec fn string_map_fits(ps: Seq<(Seq<char>, Seq<char>)>) -> bool {
    ps.len() <= 0xFFFF && (forall|i: int|
        0 <= i < ps.len() ==> encode_utf8((#[trigger] ps[i]).0).len() <= 0xFFFF && encode_utf8(
            ps[i].1,
        ).len() <= 0xFFFF)
}

/// The wire bytes of a pair run distribute over appending one pair.
proof fn lemma_map_pairs_bytes_push(ps: Seq<(Seq<char>, Seq<char>)>, p: (Seq<char>, Seq<char>))
    ensures
        map_pairs_bytes(ps.push(p)) == map_pairs_bytes(ps) + pair_bytes(p),
    decreases ps.len(),
{
    if ps.len() == 0 {
        assert(ps.push(p)[0] == p);
        assert(ps.push(p).drop_first() =~= Seq::<(Seq<char>, Seq<char>)>::empty());
        assert(map_pairs_bytes(ps.push(p).drop_first()) =~= Seq::<u8>::empty());
        assert(map_pairs_bytes(ps) =~= Seq::<u8>::empty());
        assert(map_pairs_bytes(ps.push(p)) =~= map_pairs_bytes(ps) + pair_bytes(p));
    } else {
        lemma_map_pairs_bytes_push(ps.drop_first(), p);
        assert(ps.push(p).drop_first() =~= ps.drop_first().push(p));
        assert(ps.push(p)[0] == ps[0]);
        assert(map_pairs_bytes(ps.push(p)) =~= map_pairs_bytes(ps) + pair_bytes(p));
    }
}

/// Appends a `[string map]`. Fails, leaving partial output to be discarded,
/// when a string or the pair count overflows its field.
pub fn write_string_map(m: &StringMap, out: &mut Vec<u8>) -> (r: Result<(), Error>)
    ensures
        r is Ok <==> string_map_fits(string_map_view(*m)),
        r is Ok ==> final(out)@ == old(out)@ + string_map_bytes(string_map_view(*m)),
{
    let ghost ps = string_map_view(*m);
    if m.pairs.len() > 0xFFFF {
        return Err(Error::Protocol);
    }
    write_u16(out, m.pairs.len() as u16);
    let ghost entry = out@;
    let mut i: usize = 0;
    while i < m.pairs.len()
        invariant
            0 <= i <= m.pairs@.len(),
            ps == string_map_view(*m),
            ps.len() == m.pairs@.len() <= 0xFFFF,
            out@ == entry + map_pairs_bytes(ps.subrange(0, i as int)),
            forall|j: int|
                0 <= j < i ==> encode_utf8((#[trigger] ps[j]).0).len() <= 0xFFFF && encode_utf8(
                    ps[j].1,
                ).len() <= 0xFFFF,
        decreases m.pairs@.len() - i,
    {
        let pair = &m.pairs[i];
        proof {
            assert(ps[i as int].0 == pair.key@);
            assert(ps[i as int].1 == pair.value@);
        }
        match write_short_string(out, pair.key.as_str()) {
            Ok(()) => {},
            Err(e) => {
                proof {
                    assert(!string_map_fits(ps));
                }
                return Err(e);
            },
        }
        match write_short_string(out, pair.value.as_str()) {
            Ok(()) => {},
            Err(e) => {
                proof {
                    assert(!string_map_fits(ps));
                }
                return Err(e);
            },
        }
        proof {
            lemma_map_pairs_bytes_push(ps.subrange(0, i as int), ps[i as int]);
            assert(ps.subrange(0, i as int).push(ps[i as int]) =~= ps.subrange(0, i + 1));
            assert(out@ =~= entry + map_pairs_bytes(ps.subrange(0, i + 1)));
        }
        i = i + 1;
    }
    proof {
        assert(ps.subrange(0, ps.len() as int) =~= ps);
    }
    Ok(())
}

/// The wire form of the 9-byte frame header, given the body length it
/// announces.
pub open spec fn header_bytes(h: FrameHeader, body_len: int) -> Seq<u8> {
    seq![h.version, h.flags] + i16_bytes(h.stream) + seq![opcode_value_of(h.opcode)] + u32_bytes(
        body_len as u32,
    )
}

/// The wire form of a whole request frame: the header announcing the body's
/// length, then the body.
pub open spec fn request_wire(h: FrameHeader, body: Seq<u8>) -> Seq<u8> {
    header_bytes(h, body.len() as int) + body
}

/// A frame's length field reads back as its body length: the frame is nine
/// header bytes, then exactly as many bytes as the field holds.
pub proof fn lemma_request_framing(h: FrameHeader, body: Seq<u8>)
    requires
        body.len() <= 0xFFFFFFFF,
    ensures
        request_wire(h, body).len() == 9 + body.len(),
        request_wire(h, body).subrange(5, 9) =~= u32_bytes(body.len() as u32),
        be32(request_wire(h, body).subrange(5, 9)) == body.len(),
{
    crate::bytes_be::lemma_be32_of_u32(body.len() as u32);
}

/// Assembles a frame: header, length field, body. Bodies beyond the 32-bit
/// length field cannot be framed.
pub fn encode_request(header: FrameHeader, body: &Vec<u8>) -> (r: Result<Vec<u8>, Error>)
    ensures
        r is Ok <==> body@.len() <= 0xFFFFFFFFu64,
        r matches Ok(v) ==> v@ == request_wire(header, body@) && v@.len() == 9 + body@.len()
            && be32(v@.subrange(5, 9)) == body@.len(),
{
    if body.len() > 0xFFFFFFFF {
        return Err(Error::Protocol);
    }
    let mut out: Vec<u8> = Vec::new();
    write_u8(&mut out, header.version);
    write_u8(&mut out, header.flags);
    write_i16(&mut out, header.stream);
    write_u8(&mut out, opcode_value(header.opcode));
    write_u32(&mut out, body.len() as u32);
    append_bytes(&mut out, body.as_slice());
    proof {
        assert(out@ =~= request_wire(header, body@));
        lemma_request_framing(header, body@);
    }
    Ok(out)
}

/// The body of a STARTUP request: the option map naming the CQL version.
pub open spec fn startup_pairs() -> Seq<(Seq<char>, Seq<char>)> {
    seq![(("CQL_VERSION")@, ("3.0.0")@)]
}

/// Builds the STARTUP frame, sent on stream 1.
pub fn startup() -> (r: Result<Vec<u8>, Error>)
    ensures
        r matches Ok(v) && v@ == request_wire(
            FrameHeader {
                version: crate::types::CQL_VERSION,
                flags: 0u8,
                stream: 1i16,
                opcode: Opcode::Startup,
            },
            string_map_bytes(startup_pairs()),
        ) && v@.len() == 9 + string_map_bytes(startup_pairs()).len() && be32(
            v@.subrange(5, 9),
        ) == string_map_bytes(startup_pairs()).len(),
{
    let key: String = "CQL_VERSION".to_owned();
    let value: String = "3.0.0".to_owned();
    proof {
        reveal_strlit("CQL_VERSION");
        reveal_strlit("3.0.0");
        assert(vstd::utf8::is_ascii_chars(("CQL_VERSION")@));
        assert(vstd::utf8::is_ascii_chars(("3.0.0")@));
        vstd::utf8::is_ascii_chars_encode_utf8(("CQL_VERSION")@);
        vstd::utf8::is_ascii_chars_encode_utf8(("3.0.0")@);
    }
    let map = StringMap { pairs: vec![Pair { key, value }] };
    let mut body: Vec<u8> = Vec::new();
    proof {
        assert(string_map_view(map) =~= startup_pairs());
    }
    proof {
        let ps = startup_pairs();
        assert(ps[0].0 == ("CQL_VERSION")@);
        assert(ps[0].1 == ("3.0.0")@);
        assert(string_map_fits(ps));
        assert(ps.drop_first() =~= Seq::<(Seq<char>, Seq<char>)>::empty());
        assert(map_pairs_bytes(ps.drop_first()) =~= Seq::<u8>::empty());
        assert(map_pairs_bytes(ps) =~= pair_bytes(ps[0]));
        assert(string_map_bytes(ps).len() == 2 + (2 + 11) + (2 + 5));
    }
    match write_string_map(&map, &mut body) {
        Ok(()) => {},
        Err(e) => {
            return Err(e);
        },
    }
    encode_request(FrameHeader::new(1, Opcode::Startup), &body)
}

/// Builds the OPTIONS frame: an empty body, sent on stream 1.
pub fn options() -> (r: Result<Vec<u8>, Error>)
    ensures
        r matches Ok(v) && v@ == request_wire(
            FrameHeader {
                version: crate::types::CQL_VERSION,
                flags: 0u8,
                stream: 1i16,
                opcode: Opcode::Opts,
            },
            Seq::<u8>::empty(),
        ) && v@.len() == 9 && be32(v@.subrange(5, 9)) == 0,
{
    let body: Vec<u8> = Vec::new();
    encode_request(FrameHeader::new(1, Opcode::Opts), &body)
}

/// The wire form of query parameters: the consistency level, the flags byte
/// announcing positional values, their 16-bit count, then each value.
pub open spec fn query_params_bytes(con: Consistency, params: Seq<crate::value::ValueView>) -> Seq<
    u8,
> {
    u16_bytes(consistency_value_of(con)) + seq![0x01u8] + u16_bytes(params.len() as u16)
        + vals_wire(params)
}

/// Whether the query parameters fit the wire: every value encodable and
/// sized, and no more than the 16-bit count can carry.
pub open spec fn query_params_fit(params: Seq<crate::value::ValueView>) -> bool {
    vals_encodable(params) && vals_size_ok(params) && params.len() <= 0xFFFF
}

/// Appends query parameters. Fails, leaving partial output to be discarded,
/// when a value cannot be encoded or a count overflows its field.
pub fn write_query_params(con: Consistency, params: &Vec<Value>, out: &mut Vec<u8>) -> (r: Result<
    (),
    Error,
>)
    ensures
        r is Ok <==> query_params_fit(values_view(params@)),
        r is Ok ==> final(out)@ == old(out)@ + query_params_bytes(con, values_view(params@)),
{
    proof {
        crate::value::lemma_values_view_len(params@);
    }
    if params.len() > 0xFFFF {
        return Err(Error::Protocol);
    }
    write_u16(out, consistency_value(con));
    write_u8(out, 0x01);
    write_u16(out, params.len() as u16);
    match crate::value::write_vals(params, out) {
        Ok(()) => {
            proof {
                assert(out@ =~= old(out)@ + query_params_bytes(con, values_view(params@)));
            }
            Ok(())
        },
        Err(e) => Err(e),
    }
}

/// Builds a QUERY frame: the query text as a `[long string]`, then the
/// parameters. Succeeds exactly when the text and every parameter fit their
/// wire fields.
pub fn query(stream: i16, query_str: &str, con: Consistency, params: &Vec<Value>) -> (r: Result<
    Vec<u8>,
    Error,
>)
    ensures
        r is Ok <==> encode_utf8(query_str@).len() <= 0x7FFFFFFF && query_params_fit(
            values_view(params@),
        ) && (long_string_bytes(query_str@) + query_params_bytes(
            con,
            values_view(params@),
        )).len() <= 0xFFFFFFFFu64,
        r matches Ok(v) ==> v@ == request_wire(
            FrameHeader {
                version: crate::types::CQL_VERSION,
                flags: 0u8,
                stream: stream,
                opcode: Opcode::Query,
            },
            long_string_bytes(query_str@) + query_params_bytes(con, values_view(params@)),
        ) && v@.len() == 9 + be32(v@.subrange(5, 9)),
{
    let mut body: Vec<u8> = Vec::new();
    match write_long_string(&mut body, query_str) {
        Ok(()) => {},
        Err(e) => {
            return Err(e);
        },
    }
    match write_query_params(con, params, &mut body) {
        Ok(()) => {},
        Err(e) => {
            return Err(e);
        },
    }
    encode_request(FrameHeader::new(stream, Opcode::Query), &body)
}

/// Builds a PREPARE frame: the query text as a `[long string]`.
pub fn prepare(stream: i16, query_str: &str) -> (r: Result<Vec<u8>, Error>)
    ensures
        r is Ok <==> encode_utf8(query_str@).len() <= 0x7FFFFFFF,
        r matches Ok(v) ==> v@ == request_wire(
            FrameHeader {
                version: crate::types::CQL_VERSION,
                flags: 0u8,
                stream: stream,
                opcode: Opcode::Prepare,
            },
            long_string_bytes(query_str@),
        ) && v@.len() == 9 + be32(v@.subrange(5, 9)),
{
    let mut body: Vec<u8> = Vec::new();
    match write_long_string(&mut body, query_str) {
        Ok(()) => {},
        Err(e) => {
            return Err(e);
        },
    }
    encode_request(FrameHeader::new(stream, Opcode::Prepare), &body)
}

/// Builds an EXECUTE frame: the prepared statement id as `[short bytes]`,
/// then the parameters.
pub fn execute(stream: i16, id: &Vec<u8>, con: Consistency, params: &Vec<Value>) -> (r: Result<
    Vec<u8>,
    Error,
>)
    ensures
        r is Ok <==> id@.len() <= 0xFFFF && query_params_fit(values_view(params@)) && (u16_bytes(
            id@.len() as u16,
        ) + id@ + query_params_bytes(con, values_view(params@))).len() <= 0xFFFFFFFFu64,
        r matches Ok(v) ==> v@ == request_wire(
            FrameHeader {
                version: crate::types::CQL_VERSION,
                flags: 0u8,
                stream: stream,
                opcode: Opcode::Execute,
            },
            u16_bytes(id@.len() as u16) + id@ + query_params_bytes(con, values_view(params@)),
        ) && v@.len() == 9 + be32(v@.subrange(5, 9)),
{
    if id.len() > 0xFFFF {
        return Err(Error::Protocol);
    }
    let mut body: Vec<u8> = Vec::new();
    write_u16(&mut body, id.len() as u16);
    append_bytes(&mut body, id.as_slice());
    match write_query_params(con, params, &mut body) {
        Ok(()) => {},
        Err(e) => {
            return Err(e);
        },
    }
    encode_request(FrameHeader::new(stream, Opcode::Execute), &body)
}

} // verus!
