//! The connection's decision logic, free of the transport: what the
//! handshake concludes from the first response, which responses a pending
//! request may accept, and how a prepared-statement id is taken from a
//! response. The loop that writes and reads frames lives with the caller
//! that owns the socket.

use vstd::prelude::*;

use crate::response::{body_view, result_view, Response, ResponseBody, ResponseBodyView,
    ResponseResult, ResponseResultView};
use crate::types::{Error, Opcode};

verus! {

/// Concludes the handshake from the first response's body: READY opens the
/// connection; an AUTHENTICATE challenge is not implemented here; anything
/// else violates the protocol. On any error the connection is to be closed.
pub fn handshake_step(body: &ResponseBody) -> (r: Result<(), Error>)
    ensures
        (match body_view(*body) {
            ResponseBodyView::Ready => r is Ok,
            ResponseBodyView::Auth(_) => r == Err::<(), Error>(Error::Unimplemented),
            _ => r == Err::<(), Error>(Error::Protocol),
        }),
{
    match body {
        ResponseBody::Ready => Ok(()),
        ResponseBody::Auth(_) => Err(Error::Unimplemented),
        _ => Err(Error::Protocol),
    }
}

/// Whether a response may answer the pending request: its stream id must
/// echo the request's, and its opcode must be RESULT, ERROR or SUPPORTED.
pub open spec fn response_acceptable(
    header: crate::response::FrameHeader,
    expected_stream: i16,
) -> bool {
    header.stream == expected_stream && (header.opcode == Opcode::Result || header.opcode
        == Opcode::Error || header.opcode == Opcode::Supported)
}

/// Accepts or rejects a response for the pending request on the given
/// stream; a mismatched stream id or an unexpected opcode violates the
/// protocol.
pub fn accept_response(resp: &Response, expected_stream: i16) -> (r: Result<(), Error>)
    ensures
        r is Ok <==> response_acceptable(resp.header, expected_stream),
        r is Err ==> r == Err::<(), Error>(Error::Protocol),
{
    if resp.header.stream != expected_stream {
        return Err(Error::Protocol);
    }
    match resp.header.opcode {
        Opcode::Result => Ok(()),
        Opcode::Error => Ok(()),
        Opcode::Supported => Ok(()),
        _ => Err(Error::Protocol),
    }
}

/// Takes the opaque prepared-statement id out of a PREPARE response; any
/// response but a Prepared result violates the protocol.
pub fn prepared_id(resp: Response) -> (r: Result<Vec<u8>, Error>)
    ensures
        (match body_view(resp.body) {
            ResponseBodyView::Result(res) => match res {
                ResponseResultView::Prepared(id, _) => r matches Ok(v) && v@ == id,
                _ => r == Err::<Vec<u8>, Error>(Error::Protocol),
            },
            _ => r == Err::<Vec<u8>, Error>(Error::Protocol),
        }),
{
    match resp.body {
        ResponseBody::Result(res) => match res {
            ResponseResult::Prepared(id, _) => Ok(id),
            _ => Err(Error::Protocol),
        },
        _ => Err(Error::Protocol),
    }
}

} // verus!
