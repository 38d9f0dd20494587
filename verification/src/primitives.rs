//! The protocol's length-prefixed primitives: `[string]`, `[long string]`,
//! `[bytes]`, `[short bytes]`, `[string list]` and `[string multimap]`.
//! Each has a mathematical decoder over a byte sequence, and an executable
//! counterpart proved to agree with it byte for byte.

use vstd::prelude::*;

use crate::bytes_be::{be16, read_u16, u16_bytes, u32_bytes, write_u16, write_u32};
use crate::types::Error;
use vstd::utf8::{decode_utf8, encode_utf8, valid_utf8};

verus! {

/// A `[string multimap]` as decoded from a SUPPORTED response: server option
/// names, each with the list of values it may take.
pub type StringMultiMap = Vec<(String, Vec<String>)>;

/// Relies on String::from_utf8: it succeeds exactly on valid UTF-8 input and
/// yields the characters that input encodes, per vstd's UTF-8 model.
#[verifier::external_body]
fn string_from_utf8(v: Vec<u8>) -> (r: Result<String, Error>)
    ensures
        (match r {
            Ok(s) => valid_utf8(v@) && s@ == decode_utf8(v@),
            Err(e) => !valid_utf8(v@) && e == Error::Utf8,
        }),
{
    match String::from_utf8(v) {
        Ok(s) => Ok(s),
        Err(_) => Err(Error::Utf8),
    }
}

/// Appends a copy of `src`.
pub fn append_bytes(out: &mut Vec<u8>, src: &[u8])
    ensures
        final(out)@ == old(out)@ + src@,
{
    let mut i: usize = 0;
    while i < src.len()
        invariant
            0 <= i <= src@.len(),
            out@ == old(out)@ + src@.subrange(0, i as int),
        decreases src@.len() - i,
    {
        out.push(src[i]);
        assert(src@.subrange(0, i as int) + seq![src@[i as int]] =~= src@.subrange(0, i + 1));
        i = i + 1;
    }
    assert(src@.subrange(0, src@.len() as int) =~= src@);
}

/// Reads `n` raw bytes.
pub fn read_bytes(buf: &[u8], pos: usize, n: usize) -> (r: Result<(Vec<u8>, usize), Error>)
    ensures
        pos + n <= buf@.len() ==> (r matches Ok((v, p)) && v@ == buf@.subrange(
            pos as int,
            pos + n,
        ) && p == pos + n),
        pos + n > buf@.len() ==> r == Err::<(Vec<u8>, usize), _>(Error::UnexpectedEOF),
{
    if pos <= buf.len() && n <= buf.len() - pos {
        let window = vstd::slice::slice_subrange(buf, pos, pos + n);
        let v = vstd::slice::slice_to_vec(window);
        Ok((v, pos + n))
    } else {
        Err(Error::UnexpectedEOF)
    }
}

/// Reads `len` bytes of UTF-8 at `pos` into a string.
pub fn read_str_body(buf: &[u8], pos: usize, len: usize) -> (r: Result<(String, usize), Error>)
    ensures
        pos + len > buf@.len() ==> r == Err::<(String, usize), _>(Error::UnexpectedEOF),
        pos + len <= buf@.len() && valid_utf8(buf@.subrange(pos as int, pos + len)) ==> (r matches
            Ok((s, p)) && s@ == decode_utf8(buf@.subrange(pos as int, pos + len)) && p == pos
            + len),
        pos + len <= buf@.len() && !valid_utf8(buf@.subrange(pos as int, pos + len)) ==> r == Err::<
            (String, usize),
            _,
        >(Error::Utf8),
{
    let (bytes, p) = match read_bytes(buf, pos, len) {
        Ok(x) => x,
        Err(e) => {
            return Err(e);
        },
    };
    match string_from_utf8(bytes) {
        Ok(s) => Ok((s, p)),
        Err(e) => Err(e),
    }
}

/// The decoding of a `[string]` at `pos`: a 16-bit byte count, then that many
/// bytes of UTF-8.
pub open spec fn dec_string(b: Seq<u8>, pos: int) -> Result<(Seq<char>, int), Error> {
    if pos + 2 > b.len() {
        Err(Error::UnexpectedEOF)
    } else {
        let n = be16(b.subrange(pos, pos + 2));
        if pos + 2 + n > b.len() {
            Err(Error::UnexpectedEOF)
        } else {
            let bytes = b.subrange(pos + 2, pos + 2 + n);
            if valid_utf8(bytes) {
                Ok((decode_utf8(bytes), pos + 2 + n))
            } else {
                Err(Error::Utf8)
            }
        }
    }
}

/// Reads a `[string]`.
pub fn read_cql_str(buf: &[u8], pos: usize) -> (r: Result<(String, usize), Error>)
    ensures
        (match r {
            Ok((s, p)) => dec_string(buf@, pos as int) == Ok::<_, Error>((s@, p as int)),
            Err(e) => dec_string(buf@, pos as int) == Err::<(Seq<char>, int), _>(e),
        }),
{
    let (n, p) = match read_u16(buf, pos) {
        Ok(x) => x,
        Err(e) => {
            return Err(e);
        },
    };
    let (bytes, p2) = match read_bytes(buf, p, n as usize) {
        Ok(x) => x,
        Err(e) => {
            return Err(e);
        },
    };
    match string_from_utf8(bytes) {
        Ok(s) => Ok((s, p2)),
        Err(e) => Err(e),
    }
}

/// The decoding of a `[string list]` tail: `n` consecutive `[string]`s.
pub open spec fn dec_strings(b: Seq<u8>, pos: int, n: nat) -> Result<
    (Seq<Seq<char>>, int),
    Error,
>
    decreases n,
{
    if n == 0 {
        Ok((Seq::empty(), pos))
    } else {
        match dec_string(b, pos) {
            Ok((s, p)) => match dec_strings(b, p, (n - 1) as nat) {
                Ok((rest, end)) => Ok((seq![s] + rest, end)),
                Err(e) => Err(e),
            },
            Err(e) => Err(e),
        }
    }
}

/// The decoding of a `[string list]` at `pos`: a 16-bit count, then that many
/// `[string]`s.
pub open spec fn dec_string_list(b: Seq<u8>, pos: int) -> Result<(Seq<Seq<char>>, int), Error> {
    if pos + 2 > b.len() {
        Err(Error::UnexpectedEOF)
    } else {
        dec_strings(b, pos + 2, be16(b.subrange(pos, pos + 2)) as nat)
    }
}

/// Reads a `[string list]`.
pub fn read_cql_string_list(buf: &[u8], pos: usize) -> (r: Result<(Vec<String>, usize), Error>)
    ensures
        (match r {
            Ok((v, p)) => dec_string_list(buf@, pos as int) == Ok::<_, Error>((
                v.deep_view(),
                p as int,
            )),
            Err(e) => dec_string_list(buf@, pos as int) == Err::<(Seq<Seq<char>>, int), _>(e),
        }),
{
    let (n, start) = match read_u16(buf, pos) {
        Ok(x) => x,
        Err(e) => {
            return Err(e);
        },
    };
    let mut v: Vec<String> = Vec::new();
    let mut p = start;
    let mut i: u16 = 0;
    while i < n
        invariant
            pos + 2 <= buf@.len(),
            start as int == pos + 2,
            n as int == be16(buf@.subrange(pos as int, pos + 2)),
            0 <= i <= n,
            v.deep_view().len() == i as int,
            (match dec_strings(buf@, start as int, n as nat) {
                Ok((all, end)) => dec_strings(buf@, p as int, (n - i) as nat) matches Ok((rest, e2))
                    && all == v.deep_view() + rest && end == e2,
                Err(e) => dec_strings(buf@, p as int, (n - i) as nat) == Err::<
                    (Seq<Seq<char>>, int),
                    _,
                >(e),
            }),
        decreases n - i,
    {
        let (s, p2) = match read_cql_str(buf, p) {
            Ok(x) => x,
            Err(e) => {
                proof {
                    assert(dec_strings(buf@, p as int, (n - i) as nat) == Err::<
                        (Seq<Seq<char>>, int),
                        Error,
                    >(e));
                }
                return Err(e);
            },
        };
        let ghost old_view = v.deep_view();
        v.push(s);
        proof {
            assert(v.deep_view() =~= old_view + seq![s@]);
            if dec_strings(buf@, start as int, n as nat) is Ok {
                let (all, end) = dec_strings(buf@, start as int, n as nat)->Ok_0;
                let (rest, e2) = dec_strings(buf@, p as int, (n - i) as nat)->Ok_0;
                assert(rest == seq![s@] + dec_strings(buf@, p2 as int, (n - i - 1) as nat)->Ok_0.0);
                assert(old_view + rest =~= (old_view + seq![s@]) + dec_strings(
                    buf@,
                    p2 as int,
                    (n - i - 1) as nat,
                )->Ok_0.0);
            }
        }
        p = p2;
        i = i + 1;
    }
    proof {
        assert(dec_strings(buf@, p as int, 0nat) == Ok::<_, Error>((
            Seq::<Seq<char>>::empty(),
            p as int,
        )));
        assert(v.deep_view() + Seq::<Seq<char>>::empty() =~= v.deep_view());
    }
    Ok((v, p))
}

/// The decoding of a `[string multimap]` tail: `n` pairs of a `[string]` key
/// and a `[string list]` of values.
pub open spec fn dec_multimap_entries(b: Seq<u8>, pos: int, n: nat) -> Result<
    (Seq<(Seq<char>, Seq<Seq<char>>)>, int),
    Error,
>
    decreases n,
{
    if n == 0 {
        Ok((Seq::empty(), pos))
    } else {
        match dec_string(b, pos) {
            Ok((k, p1)) => match dec_string_list(b, p1) {
                Ok((vals, p2)) => match dec_multimap_entries(b, p2, (n - 1) as nat) {
                    Ok((rest, end)) => Ok((seq![(k, vals)] + rest, end)),
                    Err(e) => Err(e),
                },
                Err(e) => Err(e),
            },
            Err(e) => Err(e),
        }
    }
}

/// The decoding of a `[string multimap]` at `pos`: a 16-bit count, then that
/// many key/value-list pairs.
pub open spec fn dec_multimap(b: Seq<u8>, pos: int) -> Result<
    (Seq<(Seq<char>, Seq<Seq<char>>)>, int),
    Error,
> {
    if pos + 2 > b.len() {
        Err(Error::UnexpectedEOF)
    } else {
        dec_multimap_entries(b, pos + 2, be16(b.subrange(pos, pos + 2)) as nat)
    }
}

/// Reads a `[string multimap]`.
pub fn read_cql_string_multimap(buf: &[u8], pos: usize) -> (r: Result<
    (StringMultiMap, usize),
    Error,
>)
    ensures
        (match r {
            Ok((v, p)) => dec_multimap(buf@, pos as int) == Ok::<_, Error>((
                v.deep_view(),
                p as int,
            )),
            Err(e) => dec_multimap(buf@, pos as int) == Err::<
                (Seq<(Seq<char>, Seq<Seq<char>>)>, int),
                _,
            >(e),
        }),
{
    let (n, start) = match read_u16(buf, pos) {
        Ok(x) => x,
        Err(e) => {
            return Err(e);
        },
    };
    let mut v: StringMultiMap = Vec::new();
    let mut p = start;
    let mut i: u16 = 0;
    while i < n
        invariant
            pos + 2 <= buf@.len(),
            start as int == pos + 2,
            n as int == be16(buf@.subrange(pos as int, pos + 2)),
            0 <= i <= n,
            v.deep_view().len() == i as int,
            (match dec_multimap_entries(buf@, start as int, n as nat) {
                Ok((all, end)) => dec_multimap_entries(buf@, p as int, (n - i) as nat) matches Ok(
                    (rest, e2),
                ) && all == v.deep_view() + rest && end == e2,
                Err(e) => dec_multimap_entries(buf@, p as int, (n - i) as nat) == Err::<
                    (Seq<(Seq<char>, Seq<Seq<char>>)>, int),
                    _,
                >(e),
            }),
        decreases n - i,
    {
        let (k, p1) = match read_cql_str(buf, p) {
            Ok(x) => x,
            Err(e) => {
                proof {
                    assert(dec_multimap_entries(buf@, p as int, (n - i) as nat) == Err::<
                        (Seq<(Seq<char>, Seq<Seq<char>>)>, int),
                        Error,
                    >(e));
                }
                return Err(e);
            },
        };
        let (vals, p2) = match read_cql_string_list(buf, p1) {
            Ok(x) => x,
            Err(e) => {
                proof {
                    assert(dec_multimap_entries(buf@, p as int, (n - i) as nat) == Err::<
                        (Seq<(Seq<char>, Seq<Seq<char>>)>, int),
                        Error,
                    >(e));
                }
                return Err(e);
            },
        };
        let ghost old_view = v.deep_view();
        v.push((k, vals));
        proof {
            assert(v.deep_view() =~= old_view + seq![(k@, vals.deep_view())]);
            if dec_multimap_entries(buf@, start as int, n as nat) is Ok {
                let (rest, e2) = dec_multimap_entries(buf@, p as int, (n - i) as nat)->Ok_0;
                assert(old_view + rest =~= (old_view + seq![(k@, vals.deep_view())])
                    + dec_multimap_entries(buf@, p2 as int, (n - i - 1) as nat)->Ok_0.0);
            }
        }
        p = p2;
        i = i + 1;
    }
    proof {
        assert(dec_multimap_entries(buf@, p as int, 0nat) == Ok::<_, Error>((
            Seq::<(Seq<char>, Seq<Seq<char>>)>::empty(),
            p as int,
        )));
        assert(v.deep_view() + Seq::<(Seq<char>, Seq<Seq<char>>)>::empty() =~= v.deep_view());
    }
    Ok((v, p))
}

/// The wire form of a `[string]`: a 16-bit byte count, then the UTF-8 bytes.
pub open spec fn short_string_bytes(s: Seq<char>) -> Seq<u8>
    recommends
        encode_utf8(s).len() <= 0xFFFF,
{
    u16_bytes(encode_utf8(s).len() as u16) + encode_utf8(s)
}

/// The wire form of a `[long string]`: a 32-bit byte count, then the UTF-8
/// bytes.
pub open spec fn long_string_bytes(s: Seq<char>) -> Seq<u8>
    recommends
        encode_utf8(s).len() <= 0x7FFFFFFF,
{
    u32_bytes(encode_utf8(s).len() as u32) + encode_utf8(s)
}

/// Appends a `[string]`. Strings longer than the 16-bit count can carry are
/// rejected unwritten.
pub fn write_short_string(out: &mut Vec<u8>, s: &str) -> (r: Result<(), Error>)
    ensures
        encode_utf8(s@).len() <= 0xFFFF ==> r is Ok && final(out)@ == old(out)@
            + short_string_bytes(s@),
        encode_utf8(s@).len() > 0xFFFF ==> r == Err::<(), _>(Error::Protocol) && final(out)@ == old(
            out,
        )@,
{
    let len = s.unicode_len();
    let bytes = s.as_bytes_vec();
    if bytes.len() > 0xFFFF {
        return Err(Error::Protocol);
    }
    write_u16(out, bytes.len() as u16);
    append_bytes(out, bytes.as_slice());
    Ok(())
}

/// Appends a `[long string]`. Strings longer than a signed 32-bit count can
/// carry are rejected unwritten.
pub fn write_long_string(out: &mut Vec<u8>, s: &str) -> (r: Result<(), Error>)
    ensures
        encode_utf8(s@).len() <= 0x7FFFFFFF ==> r is Ok && final(out)@ == old(out)@
            + long_string_bytes(s@),
        encode_utf8(s@).len() > 0x7FFFFFFF ==> r == Err::<(), _>(Error::Protocol) && final(out)@
            == old(out)@,
{
    let bytes = s.as_bytes_vec();
    if bytes.len() > 0x7FFFFFFF {
        return Err(Error::Protocol);
    }
    write_u32(out, bytes.len() as u32);
    append_bytes(out, bytes.as_slice());
    Ok(())
}

} // verus!
