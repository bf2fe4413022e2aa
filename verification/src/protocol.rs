//! The messages exchanged between the hook and the daemon.
//!
//! Message format:
//! - Header (4 bytes)
//!     - Payload size (u16)
//!     - Tag (u16)
//! - Payload (n bytes)
//!
//! All numbers are little-endian.
//!
//! Client messages:
//! - Tag 0: request to open a file. Payload is the path relative to the backing store.
//! - Tag 1: request to close a file. Payload is the path relative to the backing store.
//! - Tag 2: update authentication. Payload:
//!     - 2 bytes: length of new access key ID
//!     - new access key ID
//!     - 2 bytes: length of new secret access key
//!     - new secret access key
//!     - 2 bytes: length of new session token (0 if there isn't one)
//!     - new session token
//!
//! Server messages:
//! - Tag 0: response to open request. Payload:
//!     - 1 byte: 0 for success, 1 for error
//!     - 4 bytes: errno value (i32) (0 if the request was successful)
//!     - Remainder: the path
//!
//! Reading is driven by the caller: a `MessageReader` says how many bytes it
//! needs next, the caller reads exactly that many from the stream and feeds
//! them in, until the reader is done.

use std::io;
use std::string::FromUtf8Error;
use vstd::prelude::*;
use vstd::utf8::*;

use crate::config::AwsAuth;

verus! {

/// `std::io::Error`, carried through as the cause of a failed read or write.
#[verifier::external_type_specification]
#[verifier::external_body]
pub struct ExIoError(io::Error);

/// `std::string::FromUtf8Error`, carried through as the cause of a rejected path.
#[verifier::external_type_specification]
#[verifier::external_body]
pub struct ExFromUtf8Error(FromUtf8Error);

/// Whether `err.kind()` is `ErrorKind::UnexpectedEof`: the stream ended
/// before the bytes asked for.
pub uninterp spec fn is_unexpected_eof(err: io::Error) -> bool;

/// Calls `io::Error::kind` and tells whether it is `ErrorKind::UnexpectedEof`.
/// The contract claims no more than that the answer is a function of the error.
#[verifier::external_body]
fn io_error_is_unexpected_eof(err: &io::Error) -> (b: bool)
    ensures
        b == is_unexpected_eof(*err),
{
    err.kind() == io::ErrorKind::UnexpectedEof
}

/// Calls `String::from_utf8`. As its documentation says, it fails exactly
/// when the bytes are not valid UTF-8, and otherwise the string's UTF-8
/// encoding is the given bytes.
#[verifier::external_body]
fn string_from_utf8(bytes: Vec<u8>) -> (r: Result<String, FromUtf8Error>)
    ensures
        r is Ok <==> valid_utf8(bytes@),
        r matches Ok(s) ==> encode_utf8(s@) == bytes@,
{
    String::from_utf8(bytes)
}

/// A message from the hook.
#[derive(Debug)]
pub enum ClientMessage {
    Open { path: String },
    Close { path: String },
    /// New credentials for S3.
    UpdateAuth(AwsAuth),
}

/// A message to the hook.
#[derive(Debug)]
pub enum ServerMessage<'a> {
    Opened { path: &'a str, error: Option<i32> },
}

/// Why a client message could not be read.
#[derive(Debug)]
#[allow(inconsistent_fields)]
pub enum ReadMessageError {
    /// The stream failed (other than by ending).
    Io { source: io::Error },
    /// The header names a tag that no client message has.
    UnknownTag { tag: u16 },
    /// A path, key or token is not valid UTF-8.
    InvalidString { source: FromUtf8Error },
    /// The fields of an authentication update do not fill its payload exactly.
    MalformedPayload,
}

/// Why a server message could not be sent.
#[derive(Debug)]
pub enum WriteMessageError {
    /// The payload does not fit the 16-bit size field.
    TooBig,
    /// The stream failed.
    Io { source: io::Error },
}

/// A client message as mathematical values.
pub ghost enum ClientMessageView {
    Open(Seq<char>),
    Close(Seq<char>),
    /// Access key ID, secret access key and session token.
    UpdateAuth(Seq<char>, Seq<char>, Option<Seq<char>>),
}

impl View for ClientMessage {
    type V = ClientMessageView;

    open spec fn view(&self) -> ClientMessageView {
        match self {
            ClientMessage::Open { path } => ClientMessageView::Open(path@),
            ClientMessage::Close { path } => ClientMessageView::Close(path@),
            ClientMessage::UpdateAuth(auth) => ClientMessageView::UpdateAuth(
                auth.access_key_id@,
                auth.secret_access_key@,
                match auth.session_token {
                    Some(t) => Some(t@),
                    None => None,
                },
            ),
        }
    }
}

/// The value of two bytes read as a little-endian 16-bit number.
pub open spec fn le16(lo: u8, hi: u8) -> int {
    lo + 256 * hi
}

/// The two little-endian bytes of a 16-bit number.
pub open spec fn le16_bytes(v: int) -> Seq<u8> {
    seq![(v % 256) as u8, ((v / 256) % 256) as u8]
}

/// The four little-endian bytes of a 32-bit number.
pub open spec fn le32_bytes(v: u32) -> Seq<u8> {
    seq![(v % 256) as u8, ((v / 256) % 256) as u8, ((v / 65536) % 256) as u8, ((v / 16777216) % 256) as u8]
}

/// The tag of a client message.
pub open spec fn client_tag(m: ClientMessageView) -> int {
    match m {
        ClientMessageView::Open(_) => 0,
        ClientMessageView::Close(_) => 1,
        ClientMessageView::UpdateAuth(..) => 2,
    }
}

/// A field preceded by its length as a little-endian 16-bit number.
pub open spec fn length_prefixed(field: Seq<u8>) -> Seq<u8> {
    le16_bytes(field.len() as int) + field
}

/// The path of an open or close request.
pub open spec fn client_path(m: ClientMessageView) -> Seq<char> {
    match m {
        ClientMessageView::Open(p) => p,
        ClientMessageView::Close(p) => p,
        ClientMessageView::UpdateAuth(..) => Seq::empty(),
    }
}

/// The payload of a client message.
pub open spec fn client_payload(m: ClientMessageView) -> Seq<u8> {
    match m {
        ClientMessageView::Open(p) => encode_utf8(p),
        ClientMessageView::Close(p) => encode_utf8(p),
        ClientMessageView::UpdateAuth(access, secret, token) => length_prefixed(encode_utf8(access))
            + length_prefixed(encode_utf8(secret)) + length_prefixed(
            match token {
                Some(t) => encode_utf8(t),
                None => Seq::<u8>::empty(),
            },
        ),
    }
}

/// The bytes of a client message on the wire.
pub open spec fn client_wire(m: ClientMessageView) -> Seq<u8> {
    let payload = client_payload(m);
    le16_bytes(payload.len() as int) + le16_bytes(client_tag(m)) + payload
}

/// A length-prefixed field at the start of `b`: the field and what follows it,
/// or `None` when `b` is too short for it.
pub open spec fn split_field(b: Seq<u8>) -> Option<(Seq<u8>, Seq<u8>)> {
    if b.len() < 2 {
        None
    } else {
        let n = le16(b[0], b[1]);
        if b.len() < 2 + n {
            None
        } else {
            Some((b.subrange(2, 2 + n), b.subrange(2 + n, b.len() as int)))
        }
    }
}

/// The three length-prefixed fields that exactly fill an authentication
/// update's payload.
pub open spec fn auth_fields(b: Seq<u8>) -> Option<(Seq<u8>, Seq<u8>, Seq<u8>)> {
    match split_field(b) {
        None => None,
        Some((access, r1)) => match split_field(r1) {
            None => None,
            Some((secret, r2)) => match split_field(r2) {
                None => None,
                Some((token, r3)) => if r3.len() == 0 {
                    Some((access, secret, token))
                } else {
                    None
                },
            },
        },
    }
}

/// What an authentication update's payload decodes to: an empty session
/// token means there is none.
pub open spec fn auth_outcome(b: Seq<u8>) -> StepView {
    match auth_fields(b) {
        None => StepView::MalformedPayload,
        Some((access, secret, token)) => if valid_utf8(access) && valid_utf8(secret) && valid_utf8(token) {
            StepView::Message(
                ClientMessageView::UpdateAuth(
                    decode_utf8(access),
                    decode_utf8(secret),
                    if token.len() == 0 {
                        None
                    } else {
                        Some(decode_utf8(token))
                    },
                ),
            )
        } else {
            StepView::InvalidString
        },
    }
}

/// The bytes of a server "opened" message on the wire.
pub open spec fn server_wire(path: Seq<char>, error: Option<i32>) -> Seq<u8> {
    let payload = seq![if error is None { 0u8 } else { 1u8 }] + le32_bytes(
        (match error {
            Some(e) => e,
            None => 0i32,
        }) as u32,
    ) + encode_utf8(path);
    le16_bytes(payload.len() as int) + le16_bytes(0) + payload
}

/// What the reader waits for.
#[derive(Debug)]
pub enum ReadState {
    /// The 4 header bytes of the next message.
    Header,
    /// The `len` payload bytes of a message with tag `tag` (0, 1 or 2).
    Payload { tag: u16, len: u16 },
}

/// What a step of reading leads to.
#[derive(Debug)]
pub enum ReadStep {
    /// Read exactly this many bytes and feed them in.
    Need(usize),
    /// The message is read, or reading failed.
    Done(Result<Option<ClientMessage>, ReadMessageError>),
}

/// What a step of reading leads to, as mathematical values.
pub ghost enum StepView {
    Need(nat),
    Message(ClientMessageView),
    UnknownTag(u16),
    InvalidString,
    MalformedPayload,
    StreamEnded,
    StreamFailed,
}

/// The outcome of a step, forgetting the error values it carries.
pub open spec fn step_view(step: ReadStep) -> StepView {
    match step {
        ReadStep::Need(n) => StepView::Need(n as nat),
        ReadStep::Done(r) => outcome_view(r),
    }
}

/// The outcome of reading a message, forgetting the error values it carries.
pub open spec fn outcome_view(r: Result<Option<ClientMessage>, ReadMessageError>) -> StepView {
    match r {
        Ok(Some(m)) => StepView::Message(m@),
        Ok(None) => StepView::StreamEnded,
        Err(ReadMessageError::UnknownTag { tag }) => StepView::UnknownTag(tag),
        Err(ReadMessageError::InvalidString { .. }) => StepView::InvalidString,
        Err(ReadMessageError::MalformedPayload) => StepView::MalformedPayload,
        Err(ReadMessageError::Io { .. }) => StepView::StreamFailed,
    }
}

/// How many bytes the reader waits for in `state`.
pub open spec fn wanted_len(state: ReadState) -> nat {
    match state {
        ReadState::Header => 4,
        ReadState::Payload { len, .. } => len as nat,
    }
}

/// Feeding `chunk` (of the wanted length) to a reader in `state`: the next
/// state and the outcome.
pub open spec fn feed_step(state: ReadState, chunk: Seq<u8>) -> (ReadState, StepView) {
    match state {
        ReadState::Header => {
            let len = le16(chunk[0], chunk[1]);
            let tag = le16(chunk[2], chunk[3]);
            if tag == 0 || tag == 1 || tag == 2 {
                (ReadState::Payload { tag: tag as u16, len: len as u16 }, StepView::Need(len as nat))
            } else {
                (ReadState::Header, StepView::UnknownTag(tag as u16))
            }
        },
        ReadState::Payload { tag, .. } => (
            ReadState::Header,
            if tag == 2 {
                auth_outcome(chunk)
            } else if valid_utf8(chunk) {
                if tag == 0 {
                    StepView::Message(ClientMessageView::Open(decode_utf8(chunk)))
                } else {
                    StepView::Message(ClientMessageView::Close(decode_utf8(chunk)))
                }
            } else {
                StepView::InvalidString
            },
        ),
    }
}

/// Takes the length-prefixed field that starts at `pos` in `payload`: the
/// field's bytes and the position after it.
fn take_field(payload: &Vec<u8>, pos: usize) -> (r: Option<(Vec<u8>, usize)>)
    requires
        pos <= payload@.len(),
    ensures
        ({
            let rest = payload@.subrange(pos as int, payload@.len() as int);
            match r {
                None => split_field(rest) is None,
                Some((field, next)) => {
                    &&& pos <= next <= payload@.len()
                    &&& split_field(rest) == Some((field@, payload@.subrange(next as int, payload@.len() as int)))
                },
            }
        }),
{
    let n = payload.len();
    let ghost rest = payload@.subrange(pos as int, n as int);
    if n - pos < 2 {
        return None;
    }
    let len: usize = payload[pos] as usize + 256 * payload[pos + 1] as usize;
    assert(rest[0] == payload@[pos as int] && rest[1] == payload@[pos + 1]);
    if n - pos - 2 < len {
        return None;
    }
    let start = pos + 2;
    let end = start + len;
    let mut field: Vec<u8> = Vec::new();
    let mut i: usize = start;
    while i < end
        invariant
            start <= i <= end,
            end <= n,
            n == payload@.len(),
            field@ == payload@.subrange(start as int, i as int),
        decreases end - i,
    {
        field.push(payload[i]);
        assert(payload@.subrange(start as int, i + 1) =~= payload@.subrange(start as int, i as int).push(payload@[i as int]));
        i = i + 1;
    }
    assert(rest.subrange(2, 2 + len) =~= field@);
    assert(rest.subrange(2 + len, rest.len() as int) =~= payload@.subrange(end as int, n as int));
    Some((field, end))
}

/// Decodes the payload of an authentication update.
fn decode_auth(payload: Vec<u8>) -> (r: Result<Option<ClientMessage>, ReadMessageError>)
    ensures
        outcome_view(r) == auth_outcome(payload@),
{
    let n = payload.len();
    assert(payload@.subrange(0, n as int) =~= payload@);
    let (access, p1) = match take_field(&payload, 0) {
        Some(x) => x,
        None => return Err(ReadMessageError::MalformedPayload),
    };
    let (secret, p2) = match take_field(&payload, p1) {
        Some(x) => x,
        None => return Err(ReadMessageError::MalformedPayload),
    };
    let (token, p3) = match take_field(&payload, p2) {
        Some(x) => x,
        None => return Err(ReadMessageError::MalformedPayload),
    };
    if p3 != n {
        return Err(ReadMessageError::MalformedPayload);
    }
    let ghost (a, s, t) = (access@, secret@, token@);
    let token_len = token.len();
    let access_key_id = match string_from_utf8(access) {
        Ok(x) => x,
        Err(e) => return Err(ReadMessageError::InvalidString { source: e }),
    };
    let secret_access_key = match string_from_utf8(secret) {
        Ok(x) => x,
        Err(e) => return Err(ReadMessageError::InvalidString { source: e }),
    };
    let session = match string_from_utf8(token) {
        Ok(x) => x,
        Err(e) => return Err(ReadMessageError::InvalidString { source: e }),
    };
    proof {
        encode_utf8_decode_utf8(access_key_id@);
        encode_utf8_decode_utf8(secret_access_key@);
        encode_utf8_decode_utf8(session@);
    }
    let session_token = if token_len == 0 {
        None
    } else {
        Some(session)
    };
    Ok(Some(ClientMessage::UpdateAuth(AwsAuth { access_key_id, secret_access_key, session_token })))
}

/// Reads client messages from a stream, one step at a time.
#[derive(Debug)]
pub struct MessageReader {
    state: ReadState,
}

impl View for MessageReader {
    type V = ReadState;

    closed spec fn view(&self) -> ReadState {
        self.state
    }
}

impl MessageReader {
    /// Waits for the header of a message.
    pub fn new() -> (r: Self)
        ensures
            r@ == ReadState::Header,
    {
        MessageReader { state: ReadState::Header }
    }

    /// How many bytes to read next.
    pub fn wanted(&self) -> (n: usize)
        ensures
            n == wanted_len(self@),
    {
        match self.state {
            ReadState::Header => 4,
            ReadState::Payload { len, .. } => len as usize,
        }
    }

    /// Feeds the bytes that were asked for. After the header, a message with
    /// a known tag asks for its payload, and an unknown tag fails; after the
    /// payload, the message is done (its path must be UTF-8). Once done, the
    /// reader waits for the next header.
    pub fn feed(&mut self, chunk: Vec<u8>) -> (step: ReadStep)
        requires
            chunk@.len() == wanted_len(old(self)@),
        ensures
            (final(self)@, step_view(step)) == feed_step(old(self)@, chunk@),
            step matches ReadStep::Need(n) ==> n == wanted_len(final(self)@),
    {
        match self.state {
            ReadState::Header => {
                let len: u16 = chunk[0] as u16 + 256 * chunk[1] as u16;
                let tag: u16 = chunk[2] as u16 + 256 * chunk[3] as u16;
                if tag == 0 || tag == 1 || tag == 2 {
                    self.state = ReadState::Payload { tag, len };
                    ReadStep::Need(len as usize)
                } else {
                    self.state = ReadState::Header;
                    ReadStep::Done(Err(ReadMessageError::UnknownTag { tag }))
                }
            },
            ReadState::Payload { tag, .. } => {
                self.state = ReadState::Header;
                if tag == 2 {
                    return ReadStep::Done(decode_auth(chunk));
                }
                match string_from_utf8(chunk) {
                    Ok(path) => {
                        proof {
                            encode_utf8_decode_utf8(path@);
                        }
                        if tag == 0 {
                            ReadStep::Done(Ok(Some(ClientMessage::Open { path })))
                        } else {
                            ReadStep::Done(Ok(Some(ClientMessage::Close { path })))
                        }
                    },
                    Err(e) => ReadStep::Done(Err(ReadMessageError::InvalidString { source: e })),
                }
            },
        }
    }

    /// Reading the asked-for bytes failed with `err`. If the stream ended,
    /// there is no further message; any other failure is an error. The reader
    /// then waits for a header again.
    pub fn fail(&mut self, err: io::Error) -> (r: Result<Option<ClientMessage>, ReadMessageError>)
        ensures
            final(self)@ == ReadState::Header,
            is_unexpected_eof(err) ==> r matches Ok(None),
            !is_unexpected_eof(err) ==> (r matches Err(ReadMessageError::Io { source }) && source == err),
    {
        self.state = ReadState::Header;
        if io_error_is_unexpected_eof(&err) {
            Ok(None)
        } else {
            Err(ReadMessageError::Io { source: err })
        }
    }
}

/// The bytes of a server message. The payload must fit the 16-bit size field
/// (at most 65535 bytes: 5 bytes and the UTF-8 encoding of the path), else
/// the message is too big.
pub fn encode_server_message(msg: &ServerMessage) -> (r: Result<Vec<u8>, WriteMessageError>)
    ensures
        ({
            let ServerMessage::Opened { path, error } = *msg;
            &&& r is Ok <==> 5 + encode_utf8(path@).len() <= 65535
            &&& r matches Ok(bytes) ==> bytes@ == server_wire(path@, error)
            &&& r matches Err(e) ==> e is TooBig
        }),
{
    match msg {
        ServerMessage::Opened { path, error } => {
            let path_bytes = path.as_bytes();
            if path_bytes.len() > 65530 {
                return Err(WriteMessageError::TooBig);
            }
            let payload_size: u16 = 5 + path_bytes.len() as u16;
            let errno: i32 = match error {
                Some(e) => *e,
                None => 0,
            };
            let code: u32 = errno as u32;
            let mut out: Vec<u8> = Vec::new();
            out.push((payload_size % 256) as u8);
            out.push((payload_size / 256) as u8);
            out.push(0u8);
            out.push(0u8);
            out.push(if error.is_none() { 0u8 } else { 1u8 });
            out.push((code % 256) as u8);
            out.push(((code / 256) % 256) as u8);
            out.push(((code / 65536) % 256) as u8);
            out.push(((code / 16777216) % 256) as u8);
            let ghost head = out@;
            let n = path_bytes.len();
            let mut i: usize = 0;
            while i < n
                invariant
                    n == path_bytes@.len(),
                    i <= n,
                    out@ == head + path_bytes@.take(i as int),
                decreases n - i,
            {
                out.push(path_bytes[i]);
                assert(path_bytes@.take(i as int + 1) =~= path_bytes@.take(i as int).push(path_bytes@[i as int]));
                i = i + 1;
            }
            assert(path_bytes@.take(n as int) =~= path_bytes@);
            assert(out@ =~= server_wire(path@, *error));
            Ok(out)
        },
    }
}

/// A length-prefixed field is split back into the field and what follows.
pub proof fn lemma_split_length_prefixed(f: Seq<u8>, rest: Seq<u8>)
    requires
        f.len() <= 65535,
    ensures
        split_field(length_prefixed(f) + rest) == Some((f, rest)),
{
    let b = length_prefixed(f) + rest;
    let n = f.len() as int;
    assert(le16(b[0], b[1]) == n);
    assert(b.subrange(2, 2 + n) =~= f);
    assert(b.subrange(2 + n, b.len() as int) =~= rest);
}

/// The UTF-8 encoding of some characters is empty only when there are none.
pub proof fn lemma_encode_empty(c: Seq<char>)
    ensures
        (encode_utf8(c).len() == 0) == (c.len() == 0),
{
    encode_utf8_decode_utf8(c);
    if encode_utf8(c).len() == 0 {
        assert(encode_utf8(c) =~= Seq::<u8>::empty());
    }
}

/// The reader gives back what the wire format encodes: the header of a client
/// message whose payload fits the size field asks for the payload, and the
/// payload then yields the message. (A session token is sent as a field that
/// is empty when there is none, so a present token must not be empty.)
pub proof fn lemma_read_client_wire(m: ClientMessageView)
    requires
        client_payload(m).len() <= 65535,
        !(m matches ClientMessageView::UpdateAuth(_, _, Some(t)) && t.len() == 0),
    ensures
        ({
            let wire = client_wire(m);
            let len = client_payload(m).len();
            let tag = client_tag(m);
            &&& feed_step(ReadState::Header, wire.take(4)) == (
                ReadState::Payload { tag: tag as u16, len: len as u16 },
                StepView::Need(len),
            )
            &&& wire.skip(4).len() == len
            &&& feed_step(ReadState::Payload { tag: tag as u16, len: len as u16 }, wire.skip(4)) == (
                ReadState::Header,
                StepView::Message(m),
            )
        }),
{
    let payload = client_payload(m);
    let wire = client_wire(m);
    assert(wire.skip(4) =~= payload);
    let len = payload.len() as int;
    assert(le16(wire[0], wire[1]) == len);
    assert(le16(wire[2], wire[3]) == client_tag(m));
    match m {
        ClientMessageView::UpdateAuth(access, secret, token) => {
            let ea = encode_utf8(access);
            let es = encode_utf8(secret);
            let et = match token {
                Some(t) => encode_utf8(t),
                None => Seq::<u8>::empty(),
            };
            let tail2 = length_prefixed(et) + Seq::<u8>::empty();
            let tail1 = length_prefixed(es) + tail2;
            assert(payload =~= length_prefixed(ea) + tail1);
            lemma_split_length_prefixed(ea, tail1);
            lemma_split_length_prefixed(es, tail2);
            lemma_split_length_prefixed(et, Seq::<u8>::empty());
            encode_utf8_valid_utf8(access);
            encode_utf8_valid_utf8(secret);
            encode_utf8_decode_utf8(access);
            encode_utf8_decode_utf8(secret);
            match token {
                Some(t) => {
                    encode_utf8_valid_utf8(t);
                    encode_utf8_decode_utf8(t);
                    lemma_encode_empty(t);
                },
                None => {
                    assert(valid_utf8(Seq::<u8>::empty()));
                },
            }
        },
        _ => {
            encode_utf8_valid_utf8(client_path(m));
            encode_utf8_decode_utf8(client_path(m));
        },
    }
}

/// A server message frame describes itself: its size field is the number of
/// bytes after the header, its tag is 0, and its first payload byte tells
/// whether the open failed.
pub proof fn lemma_server_frame(path: Seq<char>, error: Option<i32>)
    requires
        5 + encode_utf8(path).len() <= 65535,
    ensures
        ({
            let wire = server_wire(path, error);
            &&& wire.len() == 9 + encode_utf8(path).len()
            &&& le16(wire[0], wire[1]) == wire.len() - 4
            &&& le16(wire[2], wire[3]) == 0
            &&& (wire[4] == 1) == (error is Some)
            &&& wire.skip(9) == encode_utf8(path)
        }),
{
    let wire = server_wire(path, error);
    assert(wire.skip(9) =~= encode_utf8(path));
}

} // verus!
