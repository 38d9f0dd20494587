//! Response frames: the 9-byte header, the opcode-directed body decoders —
//! READY, AUTHENTICATE, SUPPORTED, ERROR, and the five RESULT kinds — and
//! the frame reader that consumes exactly the header plus the announced
//! body length.

use vstd::prelude::*;

use crate::bytes_be::{as_i16, be16, be32, read_i16, read_u32};
use crate::metadata::{dec_metadata, dec_rows, read_cql_metadata, read_cql_rows, Metadata,
    MetadataView, Rows, RowsView};
use crate::primitives::{dec_multimap, dec_string, read_bytes, read_cql_str,
    read_cql_string_multimap, StringMultiMap};
use crate::types::{opcode, opcode_of, Error, Opcode};

verus! {

/// The decoded body of a RESULT frame.
#[derive(Debug)]
pub enum ResponseResult {
    /// A result carrying no information.
    Void,
    /// A page of rows with their metadata.
    Rows(Rows),
    /// The keyspace the connection now uses.
    Keyspace(String),
    /// A prepared statement: its opaque id and parameter metadata.
    Prepared(Vec<u8>, Metadata),
    /// A schema alteration: change type, target kind, keyspace, and — for
    /// targets below a keyspace — the altered object's name.
    SchemaChange(String, String, String, Option<String>),
}

/// The mathematical form of a RESULT body.
pub enum ResponseResultView {
    Void,
    Rows(RowsView),
    Keyspace(Seq<char>),
    Prepared(Seq<u8>, MetadataView),
    SchemaChange(Seq<char>, Seq<char>, Seq<char>, Option<Seq<char>>),
}

/// The decoded body of a response frame.
#[derive(Debug)]
pub enum ResponseBody {
    /// A server-reported error: its code and message, and for the
    /// already-exists code the keyspace and object name it concerns.
    Error(u32, String, Option<(String, String)>),
    Ready,
    /// An authentication challenge, carrying the authenticator class name.
    Auth(String),
    /// The server's supported options.
    Supported(StringMultiMap),
    /// A RESULT body.
    Result(ResponseResult),
}

/// The mathematical form of a response body.
pub enum ResponseBodyView {
    Error(u32, Seq<char>, Option<(Seq<char>, Seq<char>)>),
    Ready,
    Auth(Seq<char>),
    Supported(Seq<(Seq<char>, Seq<Seq<char>>)>),
    Result(ResponseResultView),
}

/// The fixed 9-byte header of a frame.
#[derive(Debug, Clone, Copy, PartialEq, Eq, Structural)]
pub struct FrameHeader {
    pub version: u8,
    pub flags: u8,
    pub stream: i16,
    pub opcode: Opcode,
}

impl FrameHeader {
    /// A request header for this client's protocol version, without flags.
    pub fn new(stream: i16, opcode: Opcode) -> (r: FrameHeader)
        ensures
            r == (FrameHeader {
                version: crate::types::CQL_VERSION,
                flags: 0u8,
                stream: stream,
                opcode: opcode,
            }),
    {
        FrameHeader { version: crate::types::CQL_VERSION, flags: 0x00, stream, opcode }
    }
}

/// A decoded response frame: its header and its body.
#[derive(Debug)]
pub struct Response {
    pub header: FrameHeader,
    pub body: ResponseBody,
}

/// The mathematical form of a response frame.
pub struct ResponseView {
    pub header: FrameHeader,
    pub body: ResponseBodyView,
}

/// The view of a RESULT body.
pub open spec fn result_view(r: ResponseResult) -> ResponseResultView {
    match r {
        ResponseResult::Void => ResponseResultView::Void,
        ResponseResult::Rows(rows) => ResponseResultView::Rows(rows@),
        ResponseResult::Keyspace(s) => ResponseResultView::Keyspace(s@),
        ResponseResult::Prepared(id, m) => ResponseResultView::Prepared(id@, m@),
        ResponseResult::SchemaChange(change, target, ks, name) => ResponseResultView::SchemaChange(
            change@,
            target@,
            ks@,
            crate::metadata::opt_str_view(name),
        ),
    }
}

/// The view of a response body.
pub open spec fn body_view(b: ResponseBody) -> ResponseBodyView {
    match b {
        ResponseBody::Error(code, msg, trailer) => ResponseBodyView::Error(
            code,
            msg@,
            match trailer {
                Some((ks, name)) => Some((ks@, name@)),
                None => None,
            },
        ),
        ResponseBody::Ready => ResponseBodyView::Ready,
        ResponseBody::Auth(s) => ResponseBodyView::Auth(s@),
        ResponseBody::Supported(mm) => ResponseBodyView::Supported(mm.deep_view()),
        ResponseBody::Result(r) => ResponseBodyView::Result(result_view(r)),
    }
}

impl View for Response {
    type V = ResponseView;

    open spec fn view(&self) -> ResponseView {
        ResponseView { header: self.header, body: body_view(self.body) }
    }
}

/// The decoding of `[short bytes]`: a 16-bit count of raw bytes.
pub open spec fn dec_short_bytes(b: Seq<u8>, pos: int) -> Result<(Seq<u8>, int), Error> {
    if pos + 2 > b.len() {
        Err(Error::UnexpectedEOF)
    } else {
        let n = be16(b.subrange(pos, pos + 2));
        if pos + 2 + n > b.len() {
            Err(Error::UnexpectedEOF)
        } else {
            Ok((b.subrange(pos + 2, pos + 2 + n), pos + 2 + n))
        }
    }
}

/// The decoding of a SchemaChange tail after the change type: the target
/// kind, the keyspace, and — unless the target is the keyspace itself — the
/// altered object's name. Any other target violates the protocol.
pub open spec fn dec_schema_change(b: Seq<u8>, pos: int, change: Seq<char>) -> Result<
    (ResponseResultView, int),
    Error,
> {
    match dec_string(b, pos) {
        Ok((target, p1)) => match dec_string(b, p1) {
            Ok((ks, p2)) => {
                if target == "KEYSPACE"@ {
                    Ok((ResponseResultView::SchemaChange(change, target, ks, None), p2))
                } else if target == "TABLE"@ || target == "TYPE"@ {
                    match dec_string(b, p2) {
                        Ok((name, p3)) => Ok((
                            ResponseResultView::SchemaChange(change, target, ks, Some(name)),
                            p3,
                        )),
                        Err(e) => Err(e),
                    }
                } else {
                    Err(Error::Protocol)
                }
            },
            Err(e) => Err(e),
        },
        Err(e) => Err(e),
    }
}

/// The decoding of a RESULT body: a 32-bit kind, then the kind's own
/// layout. Kinds outside the five defined ones violate the protocol.
pub open spec fn dec_result(b: Seq<u8>, pos: int) -> Result<(ResponseResultView, int), Error> {
    if pos + 4 > b.len() {
        Err(Error::UnexpectedEOF)
    } else {
        let kind = be32(b.subrange(pos, pos + 4));
        let p0 = pos + 4;
        if kind == 1 {
            Ok((ResponseResultView::Void, p0))
        } else if kind == 2 {
            match dec_rows(b, p0) {
                Ok((rows, p)) => Ok((ResponseResultView::Rows(rows), p)),
                Err(e) => Err(e),
            }
        } else if kind == 3 {
            match dec_string(b, p0) {
                Ok((ks, p)) => Ok((ResponseResultView::Keyspace(ks), p)),
                Err(e) => Err(e),
            }
        } else if kind == 4 {
            match dec_short_bytes(b, p0) {
                Ok((id, p1)) => match dec_metadata(b, p1) {
                    Ok((m, p)) => Ok((ResponseResultView::Prepared(id, m), p)),
                    Err(e) => Err(e),
                },
                Err(e) => Err(e),
            }
        } else if kind == 5 {
            match dec_string(b, p0) {
                Ok((change, p1)) => dec_schema_change(b, p1, change),
                Err(e) => Err(e),
            }
        } else {
            Err(Error::Protocol)
        }
    }
}

/// The decoding of an ERROR body: a 32-bit code and a message, and for the
/// already-exists code the keyspace and object name that follow.
pub open spec fn dec_error_body(b: Seq<u8>, pos: int) -> Result<(ResponseBodyView, int), Error> {
    if pos + 4 > b.len() {
        Err(Error::UnexpectedEOF)
    } else {
        let code = be32(b.subrange(pos, pos + 4));
        match dec_string(b, pos + 4) {
            Ok((msg, p1)) => {
                if code == 0x2400 {
                    match dec_string(b, p1) {
                        Ok((ks, p2)) => match dec_string(b, p2) {
                            Ok((name, p3)) => Ok((
                                ResponseBodyView::Error(code as u32, msg, Some((ks, name))),
                                p3,
                            )),
                            Err(e) => Err(e),
                        },
                        Err(e) => Err(e),
                    }
                } else {
                    Ok((ResponseBodyView::Error(code as u32, msg, None), p1))
                }
            },
            Err(e) => Err(e),
        }
    }
}

/// The decoding of a response body, directed by the frame's opcode. A
/// request opcode, EVENT, or an undefined opcode byte arriving as a
/// response violates the protocol.
pub open spec fn dec_body(op: Opcode, b: Seq<u8>, pos: int) -> Result<
    (ResponseBodyView, int),
    Error,
> {
    match op {
        Opcode::Ready => Ok((ResponseBodyView::Ready, pos)),
        Opcode::Auth => match dec_string(b, pos) {
            Ok((s, p)) => Ok((ResponseBodyView::Auth(s), p)),
            Err(e) => Err(e),
        },
        Opcode::Error => dec_error_body(b, pos),
        Opcode::Result => match dec_result(b, pos) {
            Ok((r, p)) => Ok((ResponseBodyView::Result(r), p)),
            Err(e) => Err(e),
        },
        Opcode::Supported => match dec_multimap(b, pos) {
            Ok((mm, p)) => Ok((ResponseBodyView::Supported(mm), p)),
            Err(e) => Err(e),
        },
        _ => Err(Error::Protocol),
    }
}

/// The decoding of a whole response frame: the 9-byte header, then exactly
/// `length` body bytes, decoded in isolation. Trailing body bytes after the
/// body decoder finishes are tolerated; the frame still ends at
/// `9 + length`.
pub open spec fn dec_response(b: Seq<u8>) -> Result<(ResponseView, int), Error> {
    if b.len() < 9 {
        Err(Error::UnexpectedEOF)
    } else {
        let version = b[0];
        let flags = b[1];
        let stream = as_i16(be16(b.subrange(2, 4)));
        let op = opcode_of(b[4]);
        let length = be32(b.subrange(5, 9));
        if 9 + length > b.len() {
            Err(Error::UnexpectedEOF)
        } else {
            match dec_body(op, b.subrange(9, 9 + length), 0) {
                Ok((body, _)) => Ok((
                    ResponseView {
                        header: FrameHeader {
                            version,
                            flags,
                            stream: stream as i16,
                            opcode: op,
                        },
                        body,
                    },
                    9 + length,
                )),
                Err(e) => Err(e),
            }
        }
    }
}

/// Reads `[short bytes]`.
pub fn read_short_bytes(buf: &[u8], pos: usize) -> (r: Result<(Vec<u8>, usize), Error>)
    ensures
        (match r {
            Ok((v, p)) => dec_short_bytes(buf@, pos as int) == Ok::<_, Error>((v@, p as int)),
            Err(e) => dec_short_bytes(buf@, pos as int) == Err::<(Seq<u8>, int), _>(e),
        }),
{
    let (n, p0) = match crate::bytes_be::read_u16(buf, pos) {
        Ok(x) => x,
        Err(e) => {
            return Err(e);
        },
    };
    match read_bytes(buf, p0, n as usize) {
        Ok((v, p)) => Ok((v, p)),
        Err(e) => Err(e),
    }
}

/// Reads a RESULT body.
pub fn read_cql_result(buf: &[u8], pos: usize) -> (r: Result<(ResponseResult, usize), Error>)
    ensures
        (match r {
            Ok((res, p)) => dec_result(buf@, pos as int) == Ok::<_, Error>((
                result_view(res),
                p as int,
            )),
            Err(e) => dec_result(buf@, pos as int) == Err::<(ResponseResultView, int), _>(e),
        }),
{
    let (kind, p0) = match read_u32(buf, pos) {
        Ok(x) => x,
        Err(e) => {
            return Err(e);
        },
    };
    if kind == 1 {
        Ok((ResponseResult::Void, p0))
    } else if kind == 2 {
        match read_cql_rows(buf, p0) {
            Ok((rows, p)) => Ok((ResponseResult::Rows(rows), p)),
            Err(e) => Err(e),
        }
    } else if kind == 3 {
        match read_cql_str(buf, p0) {
            Ok((ks, p)) => Ok((ResponseResult::Keyspace(ks), p)),
            Err(e) => Err(e),
        }
    } else if kind == 4 {
        let (id, p1) = match read_short_bytes(buf, p0) {
            Ok(x) => x,
            Err(e) => {
                return Err(e);
            },
        };
        match read_cql_metadata(buf, p1) {
            Ok((m, p)) => Ok((ResponseResult::Prepared(id, m), p)),
            Err(e) => Err(e),
        }
    } else if kind == 5 {
        let (change, p1) = match read_cql_str(buf, p0) {
            Ok(x) => x,
            Err(e) => {
                return Err(e);
            },
        };
        let (target, p2) = match read_cql_str(buf, p1) {
            Ok(x) => x,
            Err(e) => {
                return Err(e);
            },
        };
        let (ks, p3) = match read_cql_str(buf, p2) {
            Ok(x) => x,
            Err(e) => {
                return Err(e);
            },
        };
        if crate::metadata::str_eq(target.as_str(), "KEYSPACE") {
            Ok((ResponseResult::SchemaChange(change, target, ks, None), p3))
        } else if crate::metadata::str_eq(target.as_str(), "TABLE") || crate::metadata::str_eq(
            target.as_str(),
            "TYPE",
        ) {
            match read_cql_str(buf, p3) {
                Ok((name, p4)) => Ok((
                    ResponseResult::SchemaChange(change, target, ks, Some(name)),
                    p4,
                )),
                Err(e) => Err(e),
            }
        } else {
            Err(Error::Protocol)
        }
    } else {
        Err(Error::Protocol)
    }
}

/// Reads a response body, directed by the opcode.
pub fn read_cql_body(buf: &[u8], pos: usize, op: Opcode) -> (r: Result<(ResponseBody, usize), Error>)
    ensures
        (match r {
            Ok((body, p)) => dec_body(op, buf@, pos as int) == Ok::<_, Error>((
                body_view(body),
                p as int,
            )),
            Err(e) => dec_body(op, buf@, pos as int) == Err::<(ResponseBodyView, int), _>(e),
        }),
{
    match op {
        Opcode::Ready => Ok((ResponseBody::Ready, pos)),
        Opcode::Auth => match read_cql_str(buf, pos) {
            Ok((s, p)) => Ok((ResponseBody::Auth(s), p)),
            Err(e) => Err(e),
        },
        Opcode::Error => {
            let (code, p0) = match read_u32(buf, pos) {
                Ok(x) => x,
                Err(e) => {
                    return Err(e);
                },
            };
            let (msg, p1) = match read_cql_str(buf, p0) {
                Ok(x) => x,
                Err(e) => {
                    return Err(e);
                },
            };
            if code == 0x2400 {
                let (ks, p2) = match read_cql_str(buf, p1) {
                    Ok(x) => x,
                    Err(e) => {
                        return Err(e);
                    },
                };
                let (name, p3) = match read_cql_str(buf, p2) {
                    Ok(x) => x,
                    Err(e) => {
                        return Err(e);
                    },
                };
                Ok((ResponseBody::Error(code, msg, Some((ks, name))), p3))
            } else {
                Ok((ResponseBody::Error(code, msg, None), p1))
            }
        },
        Opcode::Result => match read_cql_result(buf, pos) {
            Ok((res, p)) => Ok((ResponseBody::Result(res), p)),
            Err(e) => Err(e),
        },
        Opcode::Supported => match read_cql_string_multimap(buf, pos) {
            Ok((mm, p)) => Ok((ResponseBody::Supported(mm), p)),
            Err(e) => Err(e),
        },
        _ => Err(Error::Protocol),
    }
}

/// Reads one whole response frame from the front of `buf`. On success the
/// frame occupies exactly nine header bytes plus the body length the header
/// announces, and that is the position returned.
pub fn read_cql_response(buf: &[u8]) -> (r: Result<(Response, usize), Error>)
    ensures
        (match r {
            Ok((resp, p)) => dec_response(buf@) == Ok::<_, Error>((resp@, p as int)),
            Err(e) => dec_response(buf@) == Err::<(ResponseView, int), _>(e),
        }),
        r matches Ok((resp, p)) ==> p == 9 + be32(buf@.subrange(5, 9)) && p <= buf@.len(),
{
    if buf.len() < 9 {
        return Err(Error::UnexpectedEOF);
    }
    let version = buf[0];
    let flags = buf[1];
    let (stream, _) = match read_i16(buf, 2) {
        Ok(x) => x,
        Err(e) => {
            return Err(e);
        },
    };
    let op = opcode(buf[4]);
    let (length, _) = match read_u32(buf, 5) {
        Ok(x) => x,
        Err(e) => {
            return Err(e);
        },
    };
    let length = length as usize;
    if length > buf.len() - 9 {
        return Err(Error::UnexpectedEOF);
    }
    let body_data = vstd::slice::slice_subrange(buf, 9, 9 + length);
    match read_cql_body(body_data, 0, op) {
        Ok((body, _)) => {
            let header = FrameHeader { version, flags, stream, opcode: op };
            Ok((Response { header, body }, 9 + length))
        },
        Err(e) => Err(e),
    }
}

} // verus!
