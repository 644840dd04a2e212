//! The sidecar wire protocol: the request and response messages, their
//! redacted debug renderings, and length-prefixed framing
//! (`[u32 big-endian length][payload]`).

use vstd::prelude::*;
use crate::encoding::{be_bytes, be_value, be_encode, be_decode, lemma_be_roundtrip, pow256};
use vstd::slice::{slice_subrange, slice_to_vec};

verus! {

/// Upper bound on a single frame (1 MiB). OPAQUE messages are a few hundred
/// bytes; anything larger is malformed or hostile.
pub const MAX_FRAME: usize = 1024 * 1024;

/// Requests to the sidecar. On the wire each is a JSON object tagged by an
/// `op` field whose value is the snake_case variant name.
#[derive(Clone, PartialEq, Eq)]
pub enum Request {
    RegisterStart {
        request_b64: String,
        credential_id: String,
    },
    RegisterFinish {
        upload_b64: String,
    },
    LoginStart {
        request_b64: String,
        /// The server's stored OPAQUE credential record (base64). `None` for an
        /// unknown account: the OPAQUE library then produces a timing-safe fake
        /// response, so the protocol never reveals whether the account exists.
        password_file_b64: Option<String>,
        credential_id: String,
    },
    LoginFinish {
        login_id: String,
        finalization_b64: String,
    },
}

/// Responses from the sidecar. On the wire each is a JSON object tagged by a
/// `result` field whose value is the snake_case variant name. `Error` carries
/// a stable code and a human-readable message.
#[derive(Clone, PartialEq, Eq)]
pub enum Response {
    RegisterStart {
        response_b64: String,
    },
    RegisterFinish {
        password_file_b64: String,
    },
    LoginStart {
        login_id: String,
        response_b64: String,
    },
    LoginFinish {
        session_key_b64: String,
    },
    Error {
        code: String,
        message: String,
    },
}

/// The debug rendering of a string value: quoted, with special characters
/// escaped, as `{:?}` prints a `str`.
pub uninterp spec fn debug_str(s: Seq<char>) -> Seq<char>;

/// `<str as core::fmt::Debug>::fmt`, through `format!("{:?}", ..)`. The
/// claim: the rendering depends on the string's characters alone.
#[verifier::external_body]
fn debug_quote(s: &str) -> (r: String)
    ensures
        r@ == debug_str(s@),
{
    format!("{:?}", s)
}

/// What `{:?}` shows of a request. Secret-bearing and bulky fields are never
/// shown; of the stored credential record only whether it is present.
pub open spec fn request_debug(r: Request) -> Seq<char> {
    match r {
        Request::RegisterStart { credential_id, .. } => "RegisterStart { credential_id: "@
            + debug_str(credential_id@) + ", .. }"@,
        Request::RegisterFinish { .. } => "RegisterFinish { .. }"@,
        Request::LoginStart { credential_id, password_file_b64, .. } => "LoginStart { credential_id: "@
            + debug_str(credential_id@) + ", password_file_b64: "@ + (match password_file_b64 {
            Some(_) => "Some(\"<redacted>\")"@,
            None => "None"@,
        }) + ", .. }"@,
        Request::LoginFinish { login_id, .. } => "LoginFinish { login_id: "@ + debug_str(login_id@)
            + ", .. }"@,
    }
}

/// What `{:?}` shows of a response. The credential record and the session key
/// are redacted; error codes and messages are shown in full.
pub open spec fn response_debug(r: Response) -> Seq<char> {
    match r {
        Response::RegisterStart { .. } => "RegisterStart { .. }"@,
        Response::RegisterFinish { .. } => "RegisterFinish { password_file_b64: \"<redacted>\", .. }"@,
        Response::LoginStart { login_id, .. } => "LoginStart { login_id: "@ + debug_str(login_id@)
            + ", .. }"@,
        Response::LoginFinish { .. } => "LoginFinish { session_key_b64: \"<redacted>\", .. }"@,
        Response::Error { code, message } => "Error { code: "@ + debug_str(code@) + ", message: "@
            + debug_str(message@) + " }"@,
    }
}

/// Two requests agree on everything their debug rendering may show: the
/// variant, the non-secret identifiers, and whether a credential record is
/// present.
pub open spec fn request_same_public(a: Request, b: Request) -> bool {
    match (a, b) {
        (
            Request::RegisterStart { credential_id: c1, .. },
            Request::RegisterStart { credential_id: c2, .. },
        ) => c1@ == c2@,
        (Request::RegisterFinish { .. }, Request::RegisterFinish { .. }) => true,
        (
            Request::LoginStart { credential_id: c1, password_file_b64: p1, .. },
            Request::LoginStart { credential_id: c2, password_file_b64: p2, .. },
        ) => c1@ == c2@ && (p1 is Some <==> p2 is Some),
        (Request::LoginFinish { login_id: l1, .. }, Request::LoginFinish { login_id: l2, .. }) => l1@
            == l2@,
        _ => false,
    }
}

/// Two responses agree on everything their debug rendering may show.
pub open spec fn response_same_public(a: Response, b: Response) -> bool {
    match (a, b) {
        (Response::RegisterStart { .. }, Response::RegisterStart { .. }) => true,
        (Response::RegisterFinish { .. }, Response::RegisterFinish { .. }) => true,
        (Response::LoginStart { login_id: l1, .. }, Response::LoginStart { login_id: l2, .. }) => l1@
            == l2@,
        (Response::LoginFinish { .. }, Response::LoginFinish { .. }) => true,
        (
            Response::Error { code: c1, message: m1 },
            Response::Error { code: c2, message: m2 },
        ) => c1@ == c2@ && m1@ == m2@,
        _ => false,
    }
}

/// Redaction: the debug rendering of a request depends only on its public
/// part, so two requests that differ only in their OPAQUE blobs or in the
/// content of the stored credential record render identically.
pub proof fn lemma_request_debug_redacts(a: Request, b: Request)
    requires
        request_same_public(a, b),
    ensures
        request_debug(a) == request_debug(b),
{
}

/// Redaction: the debug rendering of a response never depends on the
/// credential record, the session key or the OPAQUE blobs it carries.
pub proof fn lemma_response_debug_redacts(a: Response, b: Response)
    requires
        response_same_public(a, b),
    ensures
        response_debug(a) == response_debug(b),
{
}

impl Request {
    /// The redacted debug rendering of this request (what `{:?}` prints).
    pub fn debug_string(&self) -> (r: String)
        ensures
            r@ == request_debug(*self),
    {
        match self {
            Request::RegisterStart { credential_id, .. } => {
                let s = String::from_str("RegisterStart { credential_id: ");
                let s = s.concat(debug_quote(credential_id.as_str()).as_str());
                s.concat(", .. }")
            },
            Request::RegisterFinish { .. } => String::from_str("RegisterFinish { .. }"),
            Request::LoginStart { credential_id, password_file_b64, .. } => {
                let s = String::from_str("LoginStart { credential_id: ");
                let s = s.concat(debug_quote(credential_id.as_str()).as_str());
                let s = s.concat(", password_file_b64: ");
                let s = match password_file_b64 {
                    Some(_) => s.concat("Some(\"<redacted>\")"),
                    None => s.concat("None"),
                };
                s.concat(", .. }")
            },
            Request::LoginFinish { login_id, .. } => {
                let s = String::from_str("LoginFinish { login_id: ");
                let s = s.concat(debug_quote(login_id.as_str()).as_str());
                s.concat(", .. }")
            },
        }
    }
}

impl Response {
    /// The redacted debug rendering of this response (what `{:?}` prints).
    pub fn debug_string(&self) -> (r: String)
        ensures
            r@ == response_debug(*self),
    {
        match self {
            Response::RegisterStart { .. } => String::from_str("RegisterStart { .. }"),
            Response::RegisterFinish { .. } => String::from_str(
                "RegisterFinish { password_file_b64: \"<redacted>\", .. }",
            ),
            Response::LoginStart { login_id, .. } => {
                let s = String::from_str("LoginStart { login_id: ");
                let s = s.concat(debug_quote(login_id.as_str()).as_str());
                s.concat(", .. }")
            },
            Response::LoginFinish { .. } => String::from_str(
                "LoginFinish { session_key_b64: \"<redacted>\", .. }",
            ),
            Response::Error { code, message } => {
                let s = String::from_str("Error { code: ");
                let s = s.concat(debug_quote(code.as_str()).as_str());
                let s = s.concat(", message: ");
                let s = s.concat(debug_quote(message.as_str()).as_str());
                s.concat(" }")
            },
        }
    }
}

/// Why a frame could not be written or read.
#[derive(Clone, Copy, Debug, PartialEq, Eq, Structural)]
pub enum FrameError {
    /// The payload is longer than a `u32` length prefix can state.
    PayloadTooLarge,
    /// The length prefix exceeds [`MAX_FRAME`].
    FrameTooLarge,
    /// The input ended before the frame did.
    UnexpectedEof,
}

/// The frame of a payload: its length as 4 big-endian bytes, then the payload.
pub open spec fn spec_frame(payload: Seq<u8>) -> Seq<u8> {
    be_bytes(payload.len(), 4) + payload
}

/// Reading one frame from `data` at position `pos`: the outcome and the
/// position afterwards. A truncated length prefix consumes nothing; a prefix
/// over [`MAX_FRAME`] is rejected before any payload is read.
pub open spec fn decode_frame(data: Seq<u8>, pos: nat) -> (Result<Seq<u8>, FrameError>, nat) {
    if data.len() < pos + 4 {
        (Err(FrameError::UnexpectedEof), pos)
    } else {
        let len = be_value(data.subrange(pos as int, pos + 4 as int));
        if len > MAX_FRAME {
            (Err(FrameError::FrameTooLarge), pos + 4)
        } else if data.len() < pos + 4 + len {
            (Err(FrameError::UnexpectedEof), pos + 4)
        } else {
            (Ok(data.subrange(pos + 4 as int, pos + 4 + len as int)), pos + 4 + len)
        }
    }
}

/// The view of a frame read's outcome.
pub open spec fn frame_result_view(r: Result<Vec<u8>, FrameError>) -> Result<Seq<u8>, FrameError> {
    match r {
        Ok(v) => Ok(v@),
        Err(e) => Err(e),
    }
}

/// Write a length-prefixed frame `[u32 big-endian length][payload]` to the end
/// of `w`. A payload too long for the prefix writes nothing.
pub fn write_frame(w: &mut Vec<u8>, payload: &[u8]) -> (r: Result<(), FrameError>)
    ensures
        payload@.len() <= u32::MAX ==> r is Ok && final(w)@ == old(w)@ + spec_frame(payload@),
        payload@.len() > u32::MAX ==> r == Err::<(), FrameError>(FrameError::PayloadTooLarge)
            && final(w)@ == old(w)@,
{
    if payload.len() as u64 > 0xFFFF_FFFFu64 {
        return Err(FrameError::PayloadTooLarge);
    }
    let header = be_encode(payload.len() as u64, 4);
    let ghost w0 = w@;
    w.extend_from_slice(header.as_slice());
    assert(w@ =~= w0 + header@);
    let ghost w1 = w@;
    w.extend_from_slice(payload);
    assert(w@ =~= w1 + payload@);
    assert(w@ =~= w0 + spec_frame(payload@));
    Ok(())
}

/// A cursor over received bytes, from which frames are read in order.
pub struct FrameReader {
    data: Vec<u8>,
    pos: usize,
}

impl FrameReader {
    #[verifier::type_invariant]
    spec fn inv(self) -> bool {
        self.pos <= self.data@.len()
    }

    /// All the bytes this reader was made with.
    pub closed spec fn data(self) -> Seq<u8> {
        self.data@
    }

    /// How many bytes have been consumed.
    pub closed spec fn position(self) -> nat {
        self.pos as nat
    }

    /// A reader positioned at the start of `data`.
    pub fn new(data: Vec<u8>) -> (r: FrameReader)
        ensures
            r.data() == data@,
            r.position() == 0,
    {
        FrameReader { data, pos: 0 }
    }

    /// How many bytes have been consumed.
    pub fn consumed(&self) -> (r: usize)
        ensures
            r == self.position(),
    {
        self.pos
    }
}

/// The payload length announced by a frame's 4-byte prefix, if it is within
/// [`MAX_FRAME`].
pub fn frame_len(header: &[u8; 4]) -> (r: Result<usize, FrameError>)
    ensures
        be_value(header@) <= MAX_FRAME ==> r == Ok::<usize, FrameError>(be_value(header@) as usize),
        be_value(header@) > MAX_FRAME ==> r == Err::<usize, FrameError>(FrameError::FrameTooLarge),
{
    let len = be_decode(header);
    if len > MAX_FRAME as u64 {
        Err(FrameError::FrameTooLarge)
    } else {
        Ok(len as usize)
    }
}

/// Read one length-prefixed frame, rejecting anything larger than
/// [`MAX_FRAME`] before reading its payload.
pub fn read_frame(r: &mut FrameReader) -> (res: Result<Vec<u8>, FrameError>)
    ensures
        final(r).data() == old(r).data(),
        (frame_result_view(res), final(r).position()) == decode_frame(old(r).data(), old(r).position()),
{
    proof { use_type_invariant(&*r); }
    let avail = r.data.len() - r.pos;
    if avail < 4 {
        return Err(FrameError::UnexpectedEof);
    }
    let header = [r.data[r.pos], r.data[r.pos + 1], r.data[r.pos + 2], r.data[r.pos + 3]];
    assert(header@ =~= r.data@.subrange(r.pos as int, r.pos + 4));
    let len = match frame_len(&header) {
        Ok(n) => n,
        Err(e) => {
            r.pos = r.pos + 4;
            return Err(e);
        },
    };
    let start = r.pos + 4;
    if r.data.len() - start < len {
        r.pos = start;
        return Err(FrameError::UnexpectedEof);
    }
    let payload = slice_to_vec(slice_subrange(r.data.as_slice(), start, start + len));
    r.pos = start + len;
    Ok(payload)
}

/// Frame round trip: reading at the start of a written frame gives back its
/// payload and moves past the frame, whatever precedes or follows it.
pub proof fn lemma_frame_roundtrip(before: Seq<u8>, payload: Seq<u8>, after: Seq<u8>)
    requires
        payload.len() <= MAX_FRAME,
    ensures
        decode_frame(before + spec_frame(payload) + after, before.len()) == (
            Ok::<Seq<u8>, FrameError>(payload),
            before.len() + 4 + payload.len(),
        ),
{
    let data = before + spec_frame(payload) + after;
    reveal_with_fuel(pow256, 5);
    lemma_be_roundtrip(payload.len(), 4);
    assert(data.subrange(before.len() as int, before.len() + 4 as int) =~= be_bytes(payload.len(), 4));
    assert(data.subrange(before.len() + 4 as int, before.len() + 4 + payload.len() as int) =~= payload);
}

} // verus!
