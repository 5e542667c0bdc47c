//! The RPC protocol: errors, the frames exchanged between clients and servers, and the
//! decisions taken on each frame received. Transports (TCP, HTTP) and tasks run outside the
//! library and hand the bytes they receive to the functions here.
use vstd::prelude::*;
use vstd::utf8::{decode_utf8, encode_utf8, encode_utf8_decode_utf8, encode_utf8_valid_utf8, valid_utf8};
use vstd::string::{StrSliceExecFns, StringSliceAdditionalSpecFns};

use crate::codec::append_bytes;
use crate::error::DecodeError;
use crate::leb128::{
    decode_leb128_u64, encode_leb128_u64, leb128, leb_error_consumed, lemma_leb128_roundtrip,
    spec_decode_leb128,
};
use crate::text::{push_decimal, spec_decimal, str_eq};
use vstd::arithmetic::power2::pow2;

verus! {

// ============================================================================
// Errors
// ============================================================================
/// Error code: the server has no method with the requested index.
pub const ERR_CODE_UNKNOWN_METHOD: u32 = 1;

/// Error code: a request could not be decoded.
pub const ERR_CODE_DECODE_ERROR: u32 = 2;

/// Error code: the handler failed.
pub const ERR_CODE_HANDLER_ERROR: u32 = 3;

/// An RPC error, as plain values.
pub struct RpcErrorView {
    pub code: u32,
    pub message: Seq<char>,
}

/// RPC error type.
#[derive(Debug, Clone)]
pub struct RpcError {
    pub code: u32,
    pub message: String,
}

impl View for RpcError {
    type V = RpcErrorView;

    open spec fn view(&self) -> RpcErrorView {
        RpcErrorView { code: self.code, message: self.message@ }
    }
}

/// An error with a code and a message.
pub open spec fn rpc_error(code: u32, message: Seq<char>) -> RpcErrorView {
    RpcErrorView { code, message }
}

impl RpcError {
    /// Creates a new RPC error.
    pub fn new(code: u32, message: &str) -> (r: Self)
        ensures
            r@ == rpc_error(code, message@),
    {
        Self { code, message: String::from_str(message) }
    }

    /// Creates an RPC error from a decode error.
    pub fn decode(e: DecodeError) -> (r: Self)
        ensures
            r@ == rpc_error(ERR_CODE_DECODE_ERROR, "decode error: "@ + e.spec_message()),
    {
        let mut message = String::from_str("decode error: ");
        let m = e.message();
        message.append(m.as_str());
        Self { code: ERR_CODE_DECODE_ERROR, message }
    }

    /// Creates an RPC error for stream closed.
    pub fn stream_closed() -> (r: Self)
        ensures
            r@ == rpc_error(0, "stream closed"@),
    {
        Self::new(0, "stream closed")
    }

    /// Returns true if this is a stream closed error.
    pub fn is_stream_closed(&self) -> (r: bool)
        ensures
            r == (self.code == 0 && self.message@ == "stream closed"@),
    {
        self.code == 0 && str_eq(self.message.as_str(), "stream closed")
    }

    /// The text of the error, as displayed: `RPC error {code}: {message}`.
    pub fn to_text(&self) -> (r: String)
        ensures
            r@ == "RPC error "@ + spec_decimal(self.code as nat) + ": "@ + self.message@,
    {
        let mut s = String::from_str("RPC error ");
        push_decimal(&mut s, self.code as u64);
        s.append(": ");
        s.append(self.message.as_str());
        s
    }
}

/// The error every pending call gets when its transport closes.
pub fn transport_closed() -> (r: RpcError)
    ensures
        r@ == rpc_error(0, "transport closed"@),
{
    RpcError::new(0, "transport closed")
}

// ============================================================================
// Frames
// ============================================================================
/// Server to client: the response of a unary call.
pub const RPC_TYPE_RESPONSE: u8 = 0;

/// Server to client: one item of a streamed response.
pub const RPC_TYPE_STREAM_ITEM: u8 = 1;

/// Server to client: the end of a streamed response.
pub const RPC_TYPE_STREAM_END: u8 = 2;

/// Server to client: an error, ending the call.
pub const RPC_TYPE_ERROR: u8 = 3;

/// Client to server: a call.
pub const RPC_TYPE_REQUEST: u8 = 128;

/// Client to server: the cancellation of a call.
pub const RPC_TYPE_CANCEL: u8 = 129;

/// The body of an error: `[code: LEB128] [message length: LEB128] [message: UTF-8]`.
pub open spec fn spec_error_body(code: u32, message: Seq<u8>) -> Seq<u8> {
    leb128(code as u64) + leb128(message.len() as u64) + message
}

/// `[REQUEST] [call id: LEB128] [method index: LEB128] [payload]`.
pub open spec fn spec_request_frame(id: u64, method_index: u32, payload: Seq<u8>) -> Seq<u8> {
    seq![RPC_TYPE_REQUEST] + leb128(id) + leb128(method_index as u64) + payload
}

/// `[CANCEL] [call id: LEB128]`.
pub open spec fn spec_cancel_frame(id: u64) -> Seq<u8> {
    seq![RPC_TYPE_CANCEL] + leb128(id)
}

/// `[RESPONSE] [call id: LEB128] [payload]`.
pub open spec fn spec_response_frame(id: u64, payload: Seq<u8>) -> Seq<u8> {
    seq![RPC_TYPE_RESPONSE] + leb128(id) + payload
}

/// `[ERROR] [call id: LEB128] [error body]`.
pub open spec fn spec_error_frame(id: u64, code: u32, message: Seq<u8>) -> Seq<u8> {
    seq![RPC_TYPE_ERROR] + leb128(id) + spec_error_body(code, message)
}

/// A stream message framed for a packet transport: the call id goes after the type byte.
pub open spec fn spec_framed_stream_message(id: u64, msg: Seq<u8>) -> Seq<u8> {
    seq![msg[0]] + leb128(id) + msg.skip(1)
}

/// `[length: LEB128] [data]`.
pub open spec fn spec_length_prefixed(data: Seq<u8>) -> Seq<u8> {
    leb128(data.len() as u64) + data
}

/// The body of an HTTP call: `[method index: LEB128] [payload]`.
pub open spec fn spec_http_request_body(method_index: u32, payload: Seq<u8>) -> Seq<u8> {
    leb128(method_index as u64) + payload
}

fn push_error_body(buf: &mut Vec<u8>, code: u32, message: &str)
    ensures
        final(buf)@ == old(buf)@ + spec_error_body(code, message.spec_bytes()),
{
    let bytes = message.as_bytes();
    encode_leb128_u64(code as u64, buf);
    encode_leb128_u64(bytes.len() as u64, buf);
    append_bytes(buf, bytes);
    assert(buf@ =~= old(buf)@ + spec_error_body(code, message.spec_bytes()));
}

/// The body of an error, as an HTTP server sends it.
pub fn error_body(code: u32, message: &str) -> (r: Vec<u8>)
    ensures
        r@ == spec_error_body(code, message.spec_bytes()),
{
    let mut buf: Vec<u8> = Vec::new();
    push_error_body(&mut buf, code, message);
    assert(buf@ =~= spec_error_body(code, message.spec_bytes()));
    buf
}

/// The frame of a call.
pub fn request_frame(id: u64, method_index: u32, payload: &[u8]) -> (r: Vec<u8>)
    ensures
        r@ == spec_request_frame(id, method_index, payload@),
{
    let mut buf: Vec<u8> = Vec::new();
    buf.push(RPC_TYPE_REQUEST);
    encode_leb128_u64(id, &mut buf);
    encode_leb128_u64(method_index as u64, &mut buf);
    append_bytes(&mut buf, payload);
    assert(buf@ =~= spec_request_frame(id, method_index, payload@));
    buf
}

/// The frame that cancels a call.
pub fn cancel_frame(id: u64) -> (r: Vec<u8>)
    ensures
        r@ == spec_cancel_frame(id),
{
    let mut buf: Vec<u8> = Vec::new();
    buf.push(RPC_TYPE_CANCEL);
    encode_leb128_u64(id, &mut buf);
    assert(buf@ =~= spec_cancel_frame(id));
    buf
}

/// The frame of a unary response.
pub fn response_frame(id: u64, payload: &[u8]) -> (r: Vec<u8>)
    ensures
        r@ == spec_response_frame(id, payload@),
{
    let mut buf: Vec<u8> = Vec::new();
    buf.push(RPC_TYPE_RESPONSE);
    encode_leb128_u64(id, &mut buf);
    append_bytes(&mut buf, payload);
    assert(buf@ =~= spec_response_frame(id, payload@));
    buf
}

/// The frame of an error response.
pub fn error_frame(id: u64, code: u32, message: &str) -> (r: Vec<u8>)
    ensures
        r@ == spec_error_frame(id, code, message.spec_bytes()),
{
    let mut buf: Vec<u8> = Vec::new();
    buf.push(RPC_TYPE_ERROR);
    encode_leb128_u64(id, &mut buf);
    push_error_body(&mut buf, code, message);
    assert(buf@ =~= spec_error_frame(id, code, message.spec_bytes()));
    buf
}

/// The error frame a server sends for a call whose method index cannot be decoded.
pub fn bad_request_frame(id: u64) -> (r: Vec<u8>)
    ensures
        r@ == spec_error_frame(
            id,
            ERR_CODE_DECODE_ERROR,
            encode_utf8("failed to decode method index"@),
        ),
{
    error_frame(id, ERR_CODE_DECODE_ERROR, "failed to decode method index")
}

/// A stream item message, before framing: `[STREAM_ITEM] [payload]`.
pub fn stream_item_message(payload: &[u8]) -> (r: Vec<u8>)
    ensures
        r@ == seq![RPC_TYPE_STREAM_ITEM] + payload@,
{
    let mut buf: Vec<u8> = Vec::new();
    buf.push(RPC_TYPE_STREAM_ITEM);
    append_bytes(&mut buf, payload);
    buf
}

/// The end of a stream, before framing: `[STREAM_END]`.
pub fn stream_end_message() -> (r: Vec<u8>)
    ensures
        r@ == seq![RPC_TYPE_STREAM_END],
{
    let mut buf: Vec<u8> = Vec::new();
    buf.push(RPC_TYPE_STREAM_END);
    assert(buf@ =~= seq![RPC_TYPE_STREAM_END]);
    buf
}

/// An error ending a stream, before framing: `[ERROR] [error body]`.
pub fn stream_error_message(code: u32, message: &str) -> (r: Vec<u8>)
    ensures
        r@ == seq![RPC_TYPE_ERROR] + spec_error_body(code, message.spec_bytes()),
{
    let mut buf: Vec<u8> = Vec::new();
    buf.push(RPC_TYPE_ERROR);
    push_error_body(&mut buf, code, message);
    buf
}

/// Frames a stream message for a packet transport: the call id goes after the type byte.
pub fn frame_stream_message(id: u64, msg: &[u8]) -> (r: Vec<u8>)
    requires
        msg@.len() > 0,
    ensures
        r@ == spec_framed_stream_message(id, msg@),
{
    let mut buf: Vec<u8> = Vec::new();
    buf.push(msg[0]);
    encode_leb128_u64(id, &mut buf);
    append_bytes(&mut buf, &msg[1..msg.len()]);
    assert(buf@ =~= spec_framed_stream_message(id, msg@));
    buf
}

/// Prefixes data with its length, as TCP frames and HTTP stream bodies do.
pub fn length_prefixed(data: &[u8]) -> (r: Vec<u8>)
    ensures
        r@ == spec_length_prefixed(data@),
{
    let mut buf: Vec<u8> = Vec::new();
    encode_leb128_u64(data.len() as u64, &mut buf);
    append_bytes(&mut buf, data);
    assert(buf@ =~= spec_length_prefixed(data@));
    buf
}

/// The body of an HTTP call.
pub fn http_request_body(method_index: u32, payload: &[u8]) -> (r: Vec<u8>)
    ensures
        r@ == spec_http_request_body(method_index, payload@),
{
    let mut buf: Vec<u8> = Vec::new();
    encode_leb128_u64(method_index as u64, &mut buf);
    append_bytes(&mut buf, payload);
    assert(buf@ =~= spec_http_request_body(method_index, payload@));
    buf
}

// ============================================================================
// Reading frames
// ============================================================================
/// The text of message bytes: valid UTF-8 decoded as it is, anything else as
/// `String::from_utf8_lossy` makes of it.
pub open spec fn message_text(bytes: Seq<u8>) -> Seq<char> {
    if valid_utf8(bytes) {
        decode_utf8(bytes)
    } else {
        utf8_lossy(bytes)
    }
}

/// The text of a message written from `text` is `text`.
pub proof fn lemma_message_text(text: Seq<char>)
    ensures
        message_text(encode_utf8(text)) == text,
{
    encode_utf8_valid_utf8(text);
    encode_utf8_decode_utf8(text);
}

/// What `String::from_utf8_lossy` makes of bytes: their characters, with each invalid
/// sequence replaced by U+FFFD.
pub uninterp spec fn utf8_lossy(bytes: Seq<u8>) -> Seq<char>;

/// `String::from_utf8_lossy`: the text of the bytes, each invalid UTF-8 sequence replaced by
/// U+FFFD; valid UTF-8 is decoded as it is. What it makes of invalid sequences is left to the
/// name [`utf8_lossy`].
#[verifier::external_body]
fn string_from_utf8_lossy(bytes: &[u8]) -> (r: String)
    ensures
        r@ == utf8_lossy(bytes@),
        valid_utf8(bytes@) ==> r@ == decode_utf8(bytes@),
{
    String::from_utf8_lossy(bytes).into_owned()
}

/// What is left of `s` once a LEB128 integer has been read from its front, whether or not it
/// could be read.
pub open spec fn leb_rest(s: Seq<u8>) -> Seq<u8> {
    match spec_decode_leb128(s) {
        Ok((_, n)) => s.skip(n as int),
        Err(e) => s.skip(leb_error_consumed(s, e) as int),
    }
}

/// The LEB128 integer at the front of `s`, or 0 when there is none.
pub open spec fn leb_or_zero(s: Seq<u8>) -> u64 {
    match spec_decode_leb128(s) {
        Ok((v, _)) => v,
        Err(_) => 0,
    }
}

/// The error an error body stands for. The code and the length read as 0 when they cannot be
/// read; the message is "unknown error" when the body is shorter than its length.
pub open spec fn spec_error_from_body(s: Seq<u8>) -> RpcErrorView {
    let code = leb_or_zero(s) as u32;
    let s1 = leb_rest(s);
    let len = leb_or_zero(s1) as usize;
    let s2 = leb_rest(s1);
    rpc_error(
        code,
        if s2.len() >= len {
            message_text(s2.take(len as int))
        } else {
            "unknown error"@
        },
    )
}

/// Reads a LEB128 integer from the front of `buf`, 0 when there is none.
fn read_leb_or_zero(buf: &mut &[u8]) -> (r: u64)
    ensures
        r == leb_or_zero(old(buf)@),
        final(buf)@ == leb_rest(old(buf)@),
{
    match decode_leb128_u64(buf) {
        Ok(v) => v,
        Err(_) => 0,
    }
}

/// The error an error body stands for.
pub fn error_from_body(body: &[u8]) -> (r: RpcError)
    ensures
        r@ == spec_error_from_body(body@),
{
    let mut buf = body;
    let code = read_leb_or_zero(&mut buf) as u32;
    let len = read_leb_or_zero(&mut buf) as usize;
    let message = if buf.len() >= len {
        string_from_utf8_lossy(&buf[0..len])
    } else {
        String::from_str("unknown error")
    };
    proof {
        assert(buf@.len() >= len ==> buf@.subrange(0, len as int) =~= buf@.take(len as int));
    }
    RpcError { code, message }
}

/// A frame from a server, after its call id.
#[derive(Debug)]
pub enum ServerMessage {
    Response(Vec<u8>),
    StreamItem(Vec<u8>),
    StreamEnd,
    Error(RpcError),
}

pub enum ServerMessageView {
    Response(Seq<u8>),
    StreamItem(Seq<u8>),
    StreamEnd,
    Error(RpcErrorView),
}

impl View for ServerMessage {
    type V = ServerMessageView;

    open spec fn view(&self) -> ServerMessageView {
        match self {
            ServerMessage::Response(p) => ServerMessageView::Response(p@),
            ServerMessage::StreamItem(p) => ServerMessageView::StreamItem(p@),
            ServerMessage::StreamEnd => ServerMessageView::StreamEnd,
            ServerMessage::Error(e) => ServerMessageView::Error(e@),
        }
    }
}

/// A frame from a server: its call id and what it says; `None` for a frame that a client
/// ignores (empty, without a readable call id, or of an unknown type).
pub open spec fn spec_server_message(s: Seq<u8>) -> Option<(u64, ServerMessageView)> {
    if s.len() == 0 {
        None
    } else {
        let rest = s.skip(1);
        match spec_decode_leb128(rest) {
            Err(_) => None,
            Ok((id, n)) => {
                let body = rest.skip(n as int);
                if s[0] == RPC_TYPE_RESPONSE {
                    Some((id, ServerMessageView::Response(body)))
                } else if s[0] == RPC_TYPE_STREAM_ITEM {
                    Some((id, ServerMessageView::StreamItem(body)))
                } else if s[0] == RPC_TYPE_STREAM_END {
                    Some((id, ServerMessageView::StreamEnd))
                } else if s[0] == RPC_TYPE_ERROR {
                    Some((id, ServerMessageView::Error(spec_error_from_body(body))))
                } else {
                    None
                }
            },
        }
    }
}

/// Reads a frame from a server.
pub fn parse_server_message(data: &[u8]) -> (r: Option<(u64, ServerMessage)>)
    ensures
        match spec_server_message(data@) {
            None => r is None,
            Some((id, m)) => r matches Some((id2, m2)) && id2 == id && m2@ == m,
        },
{
    if data.len() == 0 {
        return None;
    }
    let msg_type = data[0];
    let mut buf = &data[1..data.len()];
    assert(buf@ =~= data@.skip(1));
    let id = match decode_leb128_u64(&mut buf) {
        Ok(id) => id,
        Err(_) => {
            return None;
        },
    };
    let m = if msg_type == RPC_TYPE_RESPONSE {
        ServerMessage::Response(vstd::slice::slice_to_vec(buf))
    } else if msg_type == RPC_TYPE_STREAM_ITEM {
        ServerMessage::StreamItem(vstd::slice::slice_to_vec(buf))
    } else if msg_type == RPC_TYPE_STREAM_END {
        ServerMessage::StreamEnd
    } else if msg_type == RPC_TYPE_ERROR {
        ServerMessage::Error(error_from_body(buf))
    } else {
        return None;
    };
    Some((id, m))
}

/// What a client waits for on a call.
#[derive(Debug, Clone, Copy, PartialEq, Eq, Structural)]
pub enum PendingKind {
    Unary,
    Stream,
}

/// What a client does with a frame for one of its calls.
#[derive(Debug)]
pub enum ClientAction {
    /// Nothing: the frame does not fit the call, or there is no such call.
    Ignore,
    /// Completes a unary call with its result, and forgets the call.
    Resolve(Result<Vec<u8>, RpcError>),
    /// Hands an item to a streaming call.
    PushItem(Vec<u8>),
    /// Ends a streaming call, and forgets the call.
    EndStream,
    /// Ends a streaming call with an error, and forgets the call.
    FailStream(RpcError),
}

pub enum ClientActionView {
    Ignore,
    Resolve(Result<Seq<u8>, RpcErrorView>),
    PushItem(Seq<u8>),
    EndStream,
    FailStream(RpcErrorView),
}

impl View for ClientAction {
    type V = ClientActionView;

    open spec fn view(&self) -> ClientActionView {
        match self {
            ClientAction::Ignore => ClientActionView::Ignore,
            ClientAction::Resolve(Ok(p)) => ClientActionView::Resolve(Ok(p@)),
            ClientAction::Resolve(Err(e)) => ClientActionView::Resolve(Err(e@)),
            ClientAction::PushItem(p) => ClientActionView::PushItem(p@),
            ClientAction::EndStream => ClientActionView::EndStream,
            ClientAction::FailStream(e) => ClientActionView::FailStream(e@),
        }
    }
}

/// What a client does with a frame, given what it waits for on the frame's call (`None` when
/// it has no such call).
pub open spec fn spec_client_action(m: ServerMessageView, pending: Option<PendingKind>) -> ClientActionView {
    match (pending, m) {
        (Some(PendingKind::Unary), ServerMessageView::Response(p)) => ClientActionView::Resolve(Ok(p)),
        (Some(PendingKind::Unary), ServerMessageView::Error(e)) => ClientActionView::Resolve(Err(e)),
        (Some(PendingKind::Stream), ServerMessageView::StreamItem(p)) => ClientActionView::PushItem(p),
        (Some(PendingKind::Stream), ServerMessageView::StreamEnd) => ClientActionView::EndStream,
        (Some(PendingKind::Stream), ServerMessageView::Error(e)) => ClientActionView::FailStream(e),
        _ => ClientActionView::Ignore,
    }
}

/// Decides what a client does with a frame for one of its calls.
pub fn client_action(m: ServerMessage, pending: Option<PendingKind>) -> (r: ClientAction)
    ensures
        r@ == spec_client_action(m@, pending),
{
    match (pending, m) {
        (Some(PendingKind::Unary), ServerMessage::Response(p)) => ClientAction::Resolve(Ok(p)),
        (Some(PendingKind::Unary), ServerMessage::Error(e)) => ClientAction::Resolve(Err(e)),
        (Some(PendingKind::Stream), ServerMessage::StreamItem(p)) => ClientAction::PushItem(p),
        (Some(PendingKind::Stream), ServerMessage::StreamEnd) => ClientAction::EndStream,
        (Some(PendingKind::Stream), ServerMessage::Error(e)) => ClientAction::FailStream(e),
        _ => ClientAction::Ignore,
    }
}

/// What a client does with a call still waiting when its transport closes: a unary call
/// completes with the "transport closed" error, a streaming call ends with it.
pub open spec fn spec_closed_action(pending: PendingKind) -> ClientActionView {
    match pending {
        PendingKind::Unary => ClientActionView::Resolve(Err(rpc_error(0, "transport closed"@))),
        PendingKind::Stream => ClientActionView::FailStream(rpc_error(0, "transport closed"@)),
    }
}

/// Decides what a client does with a call still waiting when its transport closes.
pub fn closed_action(pending: PendingKind) -> (r: ClientAction)
    ensures
        r@ == spec_closed_action(pending),
{
    match pending {
        PendingKind::Unary => ClientAction::Resolve(Err(transport_closed())),
        PendingKind::Stream => ClientAction::FailStream(transport_closed()),
    }
}

/// The state of the sender of a streamed response: whether it has ended the stream with an
/// error. Its view is that flag.
#[derive(Debug)]
pub struct StreamSenderState {
    finished: bool,
}

impl View for StreamSenderState {
    type V = bool;

    closed spec fn view(&self) -> bool {
        self.finished
    }
}

impl StreamSenderState {
    /// A sender that has not ended its stream.
    pub fn new() -> (r: Self)
        ensures
            !r@,
    {
        StreamSenderState { finished: false }
    }

    /// Ends the stream with an error: the message to send, `[ERROR] [error body]`.
    pub fn error_message(&mut self, code: u32, message: &str) -> (r: Vec<u8>)
        ensures
            final(self)@,
            r@ == seq![RPC_TYPE_ERROR] + spec_error_body(code, message.spec_bytes()),
    {
        self.finished = true;
        stream_error_message(code, message)
    }

    /// What to send when the sender goes away: the end of the stream, `[STREAM_END]`, unless
    /// the stream ended with an error.
    pub fn close_message(&self) -> (r: Option<Vec<u8>>)
        ensures
            self@ ==> r is None,
            !self@ ==> (r matches Some(m) && m@ == seq![RPC_TYPE_STREAM_END]),
    {
        if self.finished {
            None
        } else {
            Some(stream_end_message())
        }
    }
}

/// A frame from a client.
#[derive(Debug)]
pub enum ClientMessage {
    /// A call.
    Request { call_id: u64, method_index: u32, payload: Vec<u8> },
    /// A call whose method index cannot be read.
    BadRequest { call_id: u64 },
    /// The cancellation of a call.
    Cancel { call_id: u64 },
}

pub enum ClientMessageView {
    Request { call_id: u64, method_index: u32, payload: Seq<u8> },
    BadRequest { call_id: u64 },
    Cancel { call_id: u64 },
}

impl View for ClientMessage {
    type V = ClientMessageView;

    open spec fn view(&self) -> ClientMessageView {
        match self {
            ClientMessage::Request { call_id, method_index, payload } => ClientMessageView::Request {
                call_id: *call_id,
                method_index: *method_index,
                payload: payload@,
            },
            ClientMessage::BadRequest { call_id } => ClientMessageView::BadRequest {
                call_id: *call_id,
            },
            ClientMessage::Cancel { call_id } => ClientMessageView::Cancel { call_id: *call_id },
        }
    }
}

/// A frame from a client; `None` for a frame that a server ignores (empty, without a readable
/// call id, or of an unknown type). The method index is the low 32 bits of the number read.
pub open spec fn spec_client_message(s: Seq<u8>) -> Option<ClientMessageView> {
    if s.len() == 0 {
        None
    } else {
        let rest = s.skip(1);
        match spec_decode_leb128(rest) {
            Err(_) => None,
            Ok((id, n)) => {
                let body = rest.skip(n as int);
                if s[0] == RPC_TYPE_REQUEST {
                    match spec_decode_leb128(body) {
                        Ok((m, k)) => Some(
                            ClientMessageView::Request {
                                call_id: id,
                                method_index: m as u32,
                                payload: body.skip(k as int),
                            },
                        ),
                        Err(_) => Some(ClientMessageView::BadRequest { call_id: id }),
                    }
                } else if s[0] == RPC_TYPE_CANCEL {
                    Some(ClientMessageView::Cancel { call_id: id })
                } else {
                    None
                }
            },
        }
    }
}

/// Reads a frame from a client.
pub fn parse_client_message(data: &[u8]) -> (r: Option<ClientMessage>)
    ensures
        match spec_client_message(data@) {
            None => r is None,
            Some(m) => r matches Some(m2) && m2@ == m,
        },
{
    if data.len() == 0 {
        return None;
    }
    let msg_type = data[0];
    let mut buf = &data[1..data.len()];
    assert(buf@ =~= data@.skip(1));
    let call_id = match decode_leb128_u64(&mut buf) {
        Ok(id) => id,
        Err(_) => {
            return None;
        },
    };
    if msg_type == RPC_TYPE_REQUEST {
        match decode_leb128_u64(&mut buf) {
            Ok(m) => Some(
                ClientMessage::Request {
                    call_id,
                    method_index: m as u32,
                    payload: vstd::slice::slice_to_vec(buf),
                },
            ),
            Err(_) => Some(ClientMessage::BadRequest { call_id }),
        }
    } else if msg_type == RPC_TYPE_CANCEL {
        Some(ClientMessage::Cancel { call_id })
    } else {
        None
    }
}

// ============================================================================
// HTTP
// ============================================================================
/// The content type of a unary call and of its response.
pub const CONTENT_TYPE_RPC: &'static str = "application/x-volex-rpc";

/// The content type of a streamed response.
pub const CONTENT_TYPE_RPC_STREAM: &'static str = "application/x-volex-rpc-stream";

/// The content type of an error response.
pub const CONTENT_TYPE_RPC_ERROR: &'static str = "application/x-volex-rpc-error";

/// The HTTP status of an error response: 404 for an unknown method, 400 for a request that
/// cannot be decoded, 500 otherwise.
pub fn http_status_for_error(code: u32) -> (r: u16)
    ensures
        r == (if code == ERR_CODE_UNKNOWN_METHOD {
            404u16
        } else if code == ERR_CODE_DECODE_ERROR {
            400u16
        } else {
            500u16
        }),
{
    if code == ERR_CODE_UNKNOWN_METHOD {
        404
    } else if code == ERR_CODE_DECODE_ERROR {
        400
    } else {
        500
    }
}

/// Reads the body of an HTTP call: its method index (the low 32 bits of the number read) and
/// its payload; `None` when the method index cannot be read.
pub fn parse_http_request(body: &[u8]) -> (r: Option<(u32, Vec<u8>)>)
    ensures
        match spec_decode_leb128(body@) {
            Ok((m, n)) => r matches Some((m2, p)) && m2 == m as u32 && p@ == body@.skip(n as int),
            Err(_) => r is None,
        },
{
    let mut buf = body;
    match decode_leb128_u64(&mut buf) {
        Ok(m) => Some((m as u32, vstd::slice::slice_to_vec(buf))),
        Err(_) => None,
    }
}

/// The error an HTTP error response stands for: the one in its body when it has the error
/// content type and a complete error body; otherwise a handler error, "HTTP error".
pub open spec fn spec_http_error(content_type: Seq<char>, body: Seq<u8>) -> RpcErrorView {
    let fallback = rpc_error(ERR_CODE_HANDLER_ERROR, "HTTP error"@);
    if content_type == CONTENT_TYPE_RPC_ERROR@ && body.len() > 0 {
        match spec_decode_leb128(body) {
            Ok((code, n)) => {
                let s1 = body.skip(n as int);
                match spec_decode_leb128(s1) {
                    Ok((len, k)) => {
                        let s2 = s1.skip(k as int);
                        if s2.len() >= len as usize {
                            rpc_error(code as u32, message_text(s2.take((len as usize) as int)))
                        } else {
                            fallback
                        }
                    },
                    Err(_) => fallback,
                }
            },
            Err(_) => fallback,
        }
    } else {
        fallback
    }
}

/// Reads the error of an HTTP error response.
pub fn parse_http_error(content_type: &str, body: &[u8]) -> (r: RpcError)
    ensures
        r@ == spec_http_error(content_type@, body@),
{
    if str_eq(content_type, CONTENT_TYPE_RPC_ERROR) && body.len() > 0 {
        let mut buf = body;
        if let Ok(code) = decode_leb128_u64(&mut buf) {
            if let Ok(len) = decode_leb128_u64(&mut buf) {
                let len = len as usize;
                if buf.len() >= len {
                    let message = string_from_utf8_lossy(&buf[0..len]);
                    assert(buf@.subrange(0, len as int) =~= buf@.take(len as int));
                    return RpcError { code: code as u32, message };
                }
            }
        }
    }
    RpcError::new(ERR_CODE_HANDLER_ERROR, "HTTP error")
}

/// An event of a streamed response, as a client receives it.
#[derive(Debug)]
pub enum StreamEvent {
    Item(Vec<u8>),
    End,
    Error(RpcError),
}

pub enum StreamEventView {
    Item(Seq<u8>),
    End,
    Error(RpcErrorView),
}

impl View for StreamEvent {
    type V = StreamEventView;

    open spec fn view(&self) -> StreamEventView {
        match self {
            StreamEvent::Item(p) => StreamEventView::Item(p@),
            StreamEvent::End => StreamEventView::End,
            StreamEvent::Error(e) => StreamEventView::Error(e@),
        }
    }
}

pub open spec fn events_view(events: Seq<StreamEvent>) -> Seq<StreamEventView> {
    events.map_values(|e: StreamEvent| e@)
}

/// The events of a streamed HTTP response body, a run of length-prefixed stream messages.
/// Items come one by one; the last event ends the stream: at the end of the body, at a
/// `STREAM_END` or `ERROR` message, or at a body that cannot be read further.
pub open spec fn stream_events(s: Seq<u8>) -> Seq<StreamEventView>
    decreases s.len(),
{
    if s.len() == 0 {
        seq![StreamEventView::End]
    } else {
        match spec_decode_leb128(s) {
            Err(_) => seq![StreamEventView::Error(rpc_error(0, "invalid LEB128 in stream"@))],
            Ok((l, n)) => {
                let rest = s.skip(n as int);
                let len = l as usize;
                if n > s.len() || rest.len() < len || len == 0 {
                    seq![StreamEventView::Error(rpc_error(0, "truncated stream message"@))]
                } else {
                    let msg = rest.take(len as int);
                    let after = rest.skip(len as int);
                    if msg[0] == RPC_TYPE_STREAM_ITEM {
                        seq![StreamEventView::Item(msg.skip(1))] + stream_events(after)
                    } else if msg[0] == RPC_TYPE_STREAM_END {
                        seq![StreamEventView::End]
                    } else if msg[0] == RPC_TYPE_ERROR {
                        seq![StreamEventView::Error(spec_error_from_body(msg.skip(1)))]
                    } else {
                        seq![
                            StreamEventView::Error(rpc_error(0, "unknown stream message type"@)),
                        ]
                    }
                }
            },
        }
    }
}

proof fn lemma_events_push(events: Seq<StreamEvent>, e: StreamEvent)
    ensures
        events_view(events.push(e)) == events_view(events).push(e@),
{
    assert(events_view(events.push(e)) =~= events_view(events).push(e@));
}

/// Reads the events of a streamed HTTP response body.
pub fn parse_stream_events(data: &[u8]) -> (r: Vec<StreamEvent>)
    ensures
        events_view(r@) == stream_events(data@),
{
    let mut events: Vec<StreamEvent> = Vec::new();
    let mut buf = data;
    assert(events_view(events@) =~= Seq::<StreamEventView>::empty());
    loop
        invariant
            events_view(events@) + stream_events(buf@) == stream_events(data@),
        decreases buf@.len(),
    {
        let ghost before = buf@;
        let ghost done = events_view(events@);
        if buf.len() == 0 {
            let e = StreamEvent::End;
            proof {
                lemma_events_push(events@, e);
            }
            events.push(e);
            assert(events_view(events@) =~= done + stream_events(before));
            return events;
        }
        let length = match decode_leb128_u64(&mut buf) {
            Ok(l) => l as usize,
            Err(_) => {
                let e = StreamEvent::Error(RpcError::new(0, "invalid LEB128 in stream"));
                proof {
                    lemma_events_push(events@, e);
                }
                events.push(e);
                assert(events_view(events@) =~= done + stream_events(before));
                return events;
            },
        };
        if buf.len() < length || length == 0 {
            let e = StreamEvent::Error(RpcError::new(0, "truncated stream message"));
            proof {
                lemma_events_push(events@, e);
            }
            events.push(e);
            assert(events_view(events@) =~= done + stream_events(before));
            return events;
        }
        let msg = &buf[0..length];
        buf = &buf[length..buf.len()];
        assert(msg@ =~= before.skip(before.len() - (buf@.len() + length)).take(length as int));
        let msg_type = msg[0];
        let payload = &msg[1..msg.len()];
        assert(payload@ =~= msg@.skip(1));
        if msg_type == RPC_TYPE_STREAM_ITEM {
            let e = StreamEvent::Item(vstd::slice::slice_to_vec(payload));
            proof {
                lemma_events_push(events@, e);
            }
            events.push(e);
            assert(events_view(events@) + stream_events(buf@) =~= done + stream_events(before));
        } else {
            let e = if msg_type == RPC_TYPE_STREAM_END {
                StreamEvent::End
            } else if msg_type == RPC_TYPE_ERROR {
                StreamEvent::Error(error_from_body(payload))
            } else {
                StreamEvent::Error(RpcError::new(0, "unknown stream message type"))
            };
            proof {
                lemma_events_push(events@, e);
            }
            events.push(e);
            assert(events_view(events@) =~= done + stream_events(before));
            return events;
        }
    }
}

/// What a client's receive of a stream gives for the next event (`None` once the stream's
/// channel is closed): the item, or an error; the end of the stream is "stream closed".
pub fn stream_recv_result(event: Option<StreamEvent>) -> (r: Result<Vec<u8>, RpcError>)
    ensures
        match event {
            Some(StreamEvent::Item(d)) => r matches Ok(v) && v@ == d@,
            Some(StreamEvent::Error(e)) => r matches Err(e2) && e2@ == e@,
            _ => r matches Err(e2) && e2@ == rpc_error(0, "stream closed"@),
        },
{
    match event {
        Some(StreamEvent::Item(d)) => Ok(d),
        Some(StreamEvent::Error(e)) => Err(e),
        _ => Err(RpcError::stream_closed()),
    }
}

// ============================================================================
// TCP framing
// ============================================================================
/// The state of reading the LEB128 length prefix of a TCP frame, one byte at a time.
#[derive(Debug, Clone, Copy, PartialEq, Eq, Structural)]
pub struct LengthPrefix {
    /// The bits read so far.
    pub length: u64,
    /// Where the bits of the next byte go.
    pub shift: u32,
}

impl LengthPrefix {
    /// Nothing read yet.
    pub fn new() -> (r: Self)
        ensures
            r.length == 0,
            r.shift == 0,
    {
        LengthPrefix { length: 0, shift: 0 }
    }

    /// Reads the next byte of the prefix: its low seven bits go in at `shift`; the length is
    /// complete, and returned, when the byte's high bit is clear.
    ///
    /// A prefix longer than ten bytes would shift past the 64 bits of the length; the caller
    /// must not read further then.
    pub fn feed(&mut self, byte: u8) -> (r: Option<u64>)
        requires
            old(self).shift < 64,
        ensures
            (*final(self), r) == spec_feed(*old(self), byte),
    {
        self.length = self.length | (((byte & 0x7f) as u64) << self.shift);
        if byte & 0x80 == 0 {
            Some(self.length)
        } else {
            self.shift = self.shift + 7;
            None
        }
    }
}

/// Reading one byte of a length prefix: the state after it, and the length when it is the
/// last byte.
pub open spec fn spec_feed(p: LengthPrefix, byte: u8) -> (LengthPrefix, Option<u64>) {
    let length = p.length | (((byte & 0x7f) as u64) << p.shift);
    if byte & 0x80 == 0 {
        (LengthPrefix { length, shift: p.shift }, Some(length))
    } else {
        (LengthPrefix { length, shift: (p.shift + 7) as u32 }, None)
    }
}

/// What reading `bytes` as a length prefix gives: the length when the prefix completes at its
/// last byte, every byte read with the shift below 64; `None` otherwise.
pub open spec fn feeds_to(p: LengthPrefix, bytes: Seq<u8>) -> Option<u64>
    decreases bytes.len(),
{
    if bytes.len() == 0 || p.shift >= 64 {
        None
    } else {
        let (q, r) = spec_feed(p, bytes[0]);
        match r {
            Some(n) => if bytes.len() == 1 {
                Some(n)
            } else {
                None
            },
            None => feeds_to(q, bytes.drop_first()),
        }
    }
}

/// Putting a group of seven bits above the bits read so far adds it.
proof fn lemma_or_shifted(x: u64, b: u64, s: u32)
    requires
        s < 64,
        b < 128,
        x < pow2(s as nat),
        x + b * pow2(s as nat) <= u64::MAX,
    ensures
        x | (b << s) == x + b * pow2(s as nat),
{
    vstd::bits::lemma_u64_pow2_no_overflow(s as nat);
    let s64 = s as u64;
    vstd::bits::lemma_u64_shl_is_mul(b, s64);
    vstd::bits::lemma_u64_shl_is_mul(1, s64);
    assert(b << s == b << s64) by (bit_vector)
        requires
            s64 == s,
    ;
    assert(x | (b << s64) == x + (b << s64)) by (bit_vector)
        requires
            x < (1u64 << s64),
            s64 < 64,
    ;
}

/// Reading the LEB128 bytes of `w` on top of `k` groups already read adds `w`'s groups.
proof fn lemma_feeds_leb(p: LengthPrefix, w: u64, k: nat)
    requires
        p.shift == 7 * k,
        k <= 9,
        p.length < pow2(7 * k),
        p.length + w * pow2(7 * k) <= u64::MAX,
    ensures
        feeds_to(p, leb128(w)) == Some((p.length + w * pow2(7 * k)) as u64),
    decreases w,
{
    let s = p.shift;
    vstd::arithmetic::power2::lemma_pow2_pos(7 * k);
    if w < 128 {
        let byte = w as u8;
        assert(leb128(w) =~= seq![byte]);
        assert(byte & 0x7f == byte && byte & 0x80 == 0) by (bit_vector)
            requires
                byte < 128,
        ;
        lemma_or_shifted(p.length, byte as u64, s);
    } else {
        let byte = (w % 128 + 128) as u8;
        let low = w % 128;
        assert(leb128(w) == seq![byte] + leb128(w / 128));
        assert((seq![byte] + leb128(w / 128)).drop_first() =~= leb128(w / 128));
        assert(byte & 0x7f == byte - 128 && byte & 0x80 != 0) by (bit_vector)
            requires
                128 <= byte,
        ;
        assert(w == 128 * (w / 128) + low);
        vstd::arithmetic::power2::lemma_pow2_adds(7 * k, 7);
        vstd::arithmetic::power2::lemma2_to64();
        assert(pow2(7 * k + 7) == pow2(7 * k) * 128);
        assert(w * pow2(7 * k) == (w / 128) * pow2(7 * k + 7) + low * pow2(7 * k)) by (nonlinear_arith)
            requires
                w == 128 * (w / 128) + low,
                pow2(7 * k + 7) == pow2(7 * k) * 128,
        ;
        assert(low * pow2(7 * k) <= w * pow2(7 * k)) by (nonlinear_arith)
            requires
                low <= w,
        ;
        lemma_or_shifted(p.length, low as u64, s);
        let length = (p.length + low * pow2(7 * k)) as u64;
        assert(length < pow2(7 * k + 7)) by (nonlinear_arith)
            requires
                p.length < pow2(7 * k),
                low < 128,
                length == p.length + low * pow2(7 * k),
                pow2(7 * k + 7) == pow2(7 * k) * 128,
        ;
        if k == 9 {
            vstd::arithmetic::power2::lemma2_to64_rest();
            assert(pow2(7 * k) == 0x8000_0000_0000_0000);
            assert(w * pow2(7 * k) >= 128 * pow2(7 * k)) by (nonlinear_arith)
                requires
                    w >= 128,
            ;
            assert(false);
        }
        assert(7 * (k + 1) == 7 * k + 7);
        lemma_feeds_leb(LengthPrefix { length, shift: (s + 7) as u32 }, w / 128, k + 1);
    }
}

/// Reading back, one byte at a time, the LEB128 length prefix written for a frame gives its
/// length, at the prefix's last byte.
pub proof fn law_length_prefix_roundtrip(len: u64)
    ensures
        feeds_to(LengthPrefix { length: 0, shift: 0 }, leb128(len)) == Some(len),
{
    vstd::arithmetic::power2::lemma2_to64();
    assert(pow2(0) == 1);
    lemma_feeds_leb(LengthPrefix { length: 0, shift: 0 }, len, 0);
}

// ============================================================================
// HTTP client address
// ============================================================================
/// The index of the first `c` in `s` from `i` on.
pub open spec fn find_char_from(s: Seq<char>, c: char, i: int) -> Option<int>
    decreases s.len() - i,
{
    if i < 0 || i >= s.len() {
        None
    } else if s[i] == c {
        Some(i)
    } else {
        find_char_from(s, c, i + 1)
    }
}

/// The index of the first `c` in `s`.
pub open spec fn find_char(s: Seq<char>, c: char) -> Option<int> {
    find_char_from(s, c, 0)
}

proof fn lemma_find_char_from(s: Seq<char>, c: char, i: int)
    requires
        0 <= i,
    ensures
        find_char_from(s, c, i) matches Some(k) ==> i <= k < s.len() && s[k] == c,
        find_char_from(s, c, i) is None ==> forall|k: int| i <= k < s.len() ==> s[k] != c,
    decreases s.len() - i,
{
    if i < s.len() && s[i] != c {
        lemma_find_char_from(s, c, i + 1);
    }
}

/// The index of the first `c` in `s`.
fn find_char_exec(s: &str, c: char) -> (r: Option<usize>)
    ensures
        match find_char(s@, c) {
            Some(k) => r == Some(k as usize),
            None => r is None,
        },
{
    let n = s.unicode_len();
    let mut i: usize = 0;
    while i < n
        invariant
            n == s@.len(),
            i <= n,
            find_char_from(s@, c, i as int) == find_char(s@, c),
        decreases n - i,
    {
        if s.get_char(i) == c {
            return Some(i);
        }
        i = i + 1;
    }
    None
}

/// The value of decimal digits.
pub open spec fn digits_value(d: Seq<char>) -> nat
    decreases d.len(),
{
    if d.len() == 0 {
        0
    } else {
        digits_value(d.drop_last()) * 10 + (d.last() as nat - 48) as nat
    }
}

/// The digits of a number: the text without a leading `+`.
pub open spec fn number_digits(s: Seq<char>) -> Seq<char> {
    if s.len() > 0 && s[0] == '+' {
        s.skip(1)
    } else {
        s
    }
}

/// Whether every character is a decimal digit.
pub open spec fn all_digits(d: Seq<char>) -> bool {
    forall|i: int| 0 <= i < d.len() ==> '0' <= #[trigger] d[i] <= '9'
}

/// What `str::parse::<u16>` gives: an optional `+` followed by one or more decimal digits
/// whose value fits in a `u16`.
pub open spec fn spec_parse_u16(s: Seq<char>) -> Option<u16> {
    let d = number_digits(s);
    if d.len() > 0 && all_digits(d) && digits_value(d) <= u16::MAX {
        Some(digits_value(d) as u16)
    } else {
        None
    }
}

/// Parses a port number as `str::parse::<u16>` does.
pub fn parse_u16(s: &str) -> (r: Option<u16>)
    ensures
        r == spec_parse_u16(s@),
{
    let n = s.unicode_len();
    let start: usize = if n > 0 && s.get_char(0) == '+' {
        1
    } else {
        0
    };
    let ghost d = number_digits(s@);
    assert(d =~= s@.subrange(start as int, n as int));
    if start >= n {
        return None;
    }
    let mut value: u32 = 0;
    let mut i = start;
    assert(d.take(0) =~= Seq::<char>::empty());
    while i < n
        invariant
            start < n == s@.len(),
            start <= i <= n,
            d == s@.subrange(start as int, n as int),
            d == number_digits(s@),
            forall|k: int| 0 <= k < i - start ==> '0' <= #[trigger] d[k] <= '9',
            value == digits_value(d.take(i - start)),
            value <= u16::MAX,
        decreases n - i,
    {
        let c = s.get_char(i);
        if !('0' <= c && c <= '9') {
            assert(d[i - start] == c);
            assert(!all_digits(d));
            return None;
        }
        let digit = (c as u32) - 48;
        assert(d.take(i - start + 1).drop_last() =~= d.take(i - start));
        let v = value * 10 + digit;
        if v > 65535 {
            proof {
                if all_digits(d) {
                    lemma_digits_value_grows(d, i - start + 1);
                }
            }
            return None;
        }
        value = v;
        i = i + 1;
    }
    assert(d.take(i - start) =~= d);
    assert(all_digits(d));
    Some(value as u16)
}

/// A longer run of digits is worth at least as much.
proof fn lemma_digits_value_grows(d: Seq<char>, k: int)
    requires
        0 <= k <= d.len(),
        all_digits(d),
    ensures
        digits_value(d.take(k)) <= digits_value(d),
    decreases d.len() - k,
{
    if k < d.len() {
        lemma_digits_value_grows(d, k + 1);
        assert(d.take(k + 1).drop_last() =~= d.take(k));
        assert(d[k] as nat >= 48);
    } else {
        assert(d.take(k) =~= d);
    }
}

/// Where an HTTP client sends its calls, as plain values.
pub struct HttpClientView {
    pub host: Seq<char>,
    pub port: u16,
    pub path: Seq<char>,
}

/// The address in a URL like `http://host:port/path`: the `http://` prefix is optional, the
/// path defaults to `/rpc` and the port to 80 (also when it is not a number).
pub open spec fn spec_http_client(url: Seq<char>) -> HttpClientView {
    let u = if url.len() >= 7 && url.take(7) == "http://"@ {
        url.skip(7)
    } else {
        url
    };
    let (host_port, path) = match find_char(u, '/') {
        Some(i) => (u.take(i), u.skip(i)),
        None => (u, "/rpc"@),
    };
    match find_char(host_port, ':') {
        Some(i) => HttpClientView {
            host: host_port.take(i),
            port: match spec_parse_u16(host_port.skip(i + 1)) {
                Some(p) => p,
                None => 80,
            },
            path,
        },
        None => HttpClientView { host: host_port, port: 80, path },
    }
}

/// HTTP RPC client. Each call maps to a single HTTP POST request.
#[derive(Debug)]
pub struct HttpClient {
    host: String,
    port: u16,
    path: String,
}

impl View for HttpClient {
    type V = HttpClientView;

    closed spec fn view(&self) -> HttpClientView {
        HttpClientView { host: self.host@, port: self.port, path: self.path@ }
    }
}

impl HttpClient {
    /// Creates a new HTTP client from a URL like `http://host:port/path`.
    pub fn new(url: &str) -> (r: Self)
        ensures
            r@ == spec_http_client(url@),
    {
        let n = url.unicode_len();
        let prefixed = n >= 7 && str_eq(url.substring_char(0, 7), "http://");
        let u = if prefixed {
            url.substring_char(7, n)
        } else {
            url
        };
        proof {
            assert(url@.subrange(0, 7) =~= url@.take(7) || n < 7);
            assert(prefixed ==> url@.subrange(7, n as int) =~= url@.skip(7));
        }
        let un = u.unicode_len();
        let (host_port, path) = match find_char_exec(u, '/') {
            Some(i) => {
                proof {
                    lemma_find_char_from(u@, '/', 0);
                }
                let hp = u.substring_char(0, i);
                let p = u.substring_char(i, un);
                assert(hp@ =~= u@.take(i as int));
                assert(p@ =~= u@.skip(i as int));
                (hp, String::from_str(p))
            },
            None => (u, String::from_str("/rpc")),
        };
        let hn = host_port.unicode_len();
        match find_char_exec(host_port, ':') {
            Some(i) => {
                proof {
                    lemma_find_char_from(host_port@, ':', 0);
                }
                let host = host_port.substring_char(0, i);
                let port_text = host_port.substring_char(i + 1, hn);
                assert(host@ =~= host_port@.take(i as int));
                assert(port_text@ =~= host_port@.skip(i + 1));
                let port = match parse_u16(port_text) {
                    Some(p) => p,
                    None => 80,
                };
                HttpClient { host: String::from_str(host), port, path }
            },
            None => HttpClient { host: String::from_str(host_port), port: 80, path },
        }
    }

    /// The host calls go to.
    pub fn host(&self) -> (r: &str)
        ensures
            r@ == self@.host,
    {
        self.host.as_str()
    }

    /// The port calls go to.
    pub fn port(&self) -> (r: u16)
        ensures
            r == self@.port,
    {
        self.port
    }

    /// The path calls are posted to.
    pub fn path(&self) -> (r: &str)
        ensures
            r@ == self@.path,
    {
        self.path.as_str()
    }
}

// ============================================================================
// Laws
// ============================================================================
/// The rest of `leb128(v) + rest` after the integer.
proof fn lemma_after_leb(v: u64, rest: Seq<u8>)
    ensures
        spec_decode_leb128(leb128(v) + rest) == Ok::<(u64, nat), DecodeError>((v, leb128(v).len())),
        (leb128(v) + rest).skip(leb128(v).len() as int) == rest,
        leb_or_zero(leb128(v) + rest) == v,
        leb_rest(leb128(v) + rest) == rest,
{
    lemma_leb128_roundtrip(v, rest);
    assert((leb128(v) + rest).skip(leb128(v).len() as int) =~= rest);
}

/// An error body reads back as the error it was made from: its code and its message text.
pub proof fn law_error_body_roundtrip(code: u32, text: Seq<char>, rest: Seq<u8>)
    requires
        encode_utf8(text).len() <= usize::MAX,
    ensures
        spec_error_from_body(spec_error_body(code, encode_utf8(text)) + rest) == rpc_error(
            code,
            text,
        ),
{
    let message = encode_utf8(text);
    lemma_message_text(text);
    let body = spec_error_body(code, message) + rest;
    let len = message.len() as u64;
    assert(body =~= leb128(code as u64) + (leb128(len) + (message + rest)));
    lemma_after_leb(code as u64, leb128(len) + (message + rest));
    lemma_after_leb(len, message + rest);
    assert((message + rest).take(message.len() as int) =~= message);
}

/// A client reads back the response a server framed for a call.
pub proof fn law_response_roundtrip(id: u64, payload: Seq<u8>)
    ensures
        spec_server_message(spec_response_frame(id, payload)) == Some(
            (id, ServerMessageView::Response(payload)),
        ),
{
    let f = spec_response_frame(id, payload);
    assert(f.skip(1) =~= leb128(id) + payload);
    lemma_after_leb(id, payload);
}

/// A client reads back the error a server framed for a call: its code and its message text.
pub proof fn law_error_roundtrip(id: u64, code: u32, text: Seq<char>)
    requires
        encode_utf8(text).len() <= usize::MAX,
    ensures
        spec_server_message(spec_error_frame(id, code, encode_utf8(text))) == Some(
            (id, ServerMessageView::Error(rpc_error(code, text))),
        ),
{
    let message = encode_utf8(text);
    let f = spec_error_frame(id, code, message);
    assert(f.skip(1) =~= leb128(id) + spec_error_body(code, message));
    lemma_after_leb(id, spec_error_body(code, message));
    law_error_body_roundtrip(code, text, Seq::empty());
    assert(spec_error_body(code, message) + Seq::<u8>::empty() =~= spec_error_body(code, message));
}

/// A client reads back the stream messages a server framed for a call: items, the end, and
/// errors.
pub proof fn law_stream_message_roundtrip(id: u64, payload: Seq<u8>, code: u32, text: Seq<char>)
    requires
        encode_utf8(text).len() <= usize::MAX,
    ensures
        spec_server_message(
            spec_framed_stream_message(id, seq![RPC_TYPE_STREAM_ITEM] + payload),
        ) == Some((id, ServerMessageView::StreamItem(payload))),
        spec_server_message(spec_framed_stream_message(id, seq![RPC_TYPE_STREAM_END])) == Some(
            (id, ServerMessageView::StreamEnd),
        ),
        spec_server_message(
            spec_framed_stream_message(
                id,
                seq![RPC_TYPE_ERROR] + spec_error_body(code, encode_utf8(text)),
            ),
        ) == Some((id, ServerMessageView::Error(rpc_error(code, text)))),
{
    let message = encode_utf8(text);
    let item = seq![RPC_TYPE_STREAM_ITEM] + payload;
    assert(item.skip(1) =~= payload);
    let f1 = spec_framed_stream_message(id, item);
    assert(f1.skip(1) =~= leb128(id) + payload);
    lemma_after_leb(id, payload);
    let end = seq![RPC_TYPE_STREAM_END];
    assert(end.skip(1) =~= Seq::<u8>::empty());
    let f2 = spec_framed_stream_message(id, end);
    assert(f2.skip(1) =~= leb128(id) + Seq::<u8>::empty());
    lemma_after_leb(id, Seq::empty());
    let err = seq![RPC_TYPE_ERROR] + spec_error_body(code, message);
    assert(err.skip(1) =~= spec_error_body(code, message));
    let f3 = spec_framed_stream_message(id, err);
    assert(f3.skip(1) =~= leb128(id) + spec_error_body(code, message));
    lemma_after_leb(id, spec_error_body(code, message));
    law_error_body_roundtrip(code, text, Seq::empty());
    assert(spec_error_body(code, message) + Seq::<u8>::empty() =~= spec_error_body(code, message));
}

/// A server reads back the calls and cancellations a client framed.
pub proof fn law_request_roundtrip(id: u64, method_index: u32, payload: Seq<u8>)
    ensures
        spec_client_message(spec_request_frame(id, method_index, payload)) == Some(
            ClientMessageView::Request { call_id: id, method_index, payload },
        ),
        spec_client_message(spec_cancel_frame(id)) == Some(ClientMessageView::Cancel { call_id: id }),
{
    let f = spec_request_frame(id, method_index, payload);
    assert(f.skip(1) =~= leb128(id) + (leb128(method_index as u64) + payload));
    lemma_after_leb(id, leb128(method_index as u64) + payload);
    lemma_after_leb(method_index as u64, payload);
    let c = spec_cancel_frame(id);
    assert(c.skip(1) =~= leb128(id) + Seq::<u8>::empty());
    lemma_after_leb(id, Seq::empty());
}

/// An HTTP server reads back the call an HTTP client sent, and an HTTP client reads back the
/// error an HTTP server sent, with its message text.
pub proof fn law_http_roundtrip(method_index: u32, payload: Seq<u8>, code: u32, text: Seq<char>)
    requires
        encode_utf8(text).len() <= usize::MAX,
    ensures
        spec_decode_leb128(spec_http_request_body(method_index, payload)) matches Ok((m, n)) && m
            as u32 == method_index && spec_http_request_body(method_index, payload).skip(n as int)
            == payload,
        spec_http_error(CONTENT_TYPE_RPC_ERROR@, spec_error_body(code, encode_utf8(text)))
            == rpc_error(code, text),
{
    let message = encode_utf8(text);
    lemma_message_text(text);
    lemma_after_leb(method_index as u64, payload);
    let body = spec_error_body(code, message);
    let len = message.len() as u64;
    assert(body =~= leb128(code as u64) + (leb128(len) + message));
    lemma_after_leb(code as u64, leb128(len) + message);
    lemma_after_leb(len, message);
    assert(message.take(message.len() as int) =~= message);
}

/// The body of a streamed HTTP response that sends `items`, then ends.
pub open spec fn spec_stream_body(items: Seq<Seq<u8>>) -> Seq<u8>
    decreases items.len(),
{
    if items.len() == 0 {
        spec_length_prefixed(seq![RPC_TYPE_STREAM_END])
    } else {
        spec_length_prefixed(seq![RPC_TYPE_STREAM_ITEM] + items[0]) + spec_stream_body(
            items.drop_first(),
        )
    }
}

/// An HTTP client reads back, in order, the items a server streamed, then the end.
pub proof fn law_stream_body_roundtrip(items: Seq<Seq<u8>>)
    requires
        forall|i: int| 0 <= i < items.len() ==> (#[trigger] items[i]).len() < usize::MAX,
    ensures
        stream_events(spec_stream_body(items)) == items.map_values(
            |p: Seq<u8>| StreamEventView::Item(p),
        ).push(StreamEventView::End),
    decreases items.len(),
{
    if items.len() == 0 {
        let m = seq![RPC_TYPE_STREAM_END];
        lemma_after_leb(1, m);
        assert(leb128(1).len() == 1) by {
            reveal_with_fuel(leb128, 2);
        }
        assert(spec_stream_body(items) =~= leb128(1) + m);
        assert(m.take(1) =~= m);
        assert(items.map_values(|p: Seq<u8>| StreamEventView::Item(p)).push(StreamEventView::End)
            =~= seq![StreamEventView::End]);
    } else {
        let m = seq![RPC_TYPE_STREAM_ITEM] + items[0];
        let rest = spec_stream_body(items.drop_first());
        let body = spec_stream_body(items);
        assert(body =~= leb128(m.len() as u64) + (m + rest));
        lemma_after_leb(m.len() as u64, m + rest);
        assert((m + rest).take(m.len() as int) =~= m);
        assert((m + rest).skip(m.len() as int) =~= rest);
        assert(m.skip(1) =~= items[0]);
        assert forall|i: int| 0 <= i < items.drop_first().len() implies (#[trigger] items.drop_first()[i]).len()
            < usize::MAX by {
            assert(items.drop_first()[i] == items[i + 1]);
        }
        law_stream_body_roundtrip(items.drop_first());
        assert(items.map_values(|p: Seq<u8>| StreamEventView::Item(p)).push(StreamEventView::End)
            =~= seq![StreamEventView::Item(items[0])] + items.drop_first().map_values(
            |p: Seq<u8>| StreamEventView::Item(p),
        ).push(StreamEventView::End));
    }
}

} // verus!
