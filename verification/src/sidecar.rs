//! The sidecar's request engine. A request is handled in two steps around
//! the OPAQUE computation, which the caller performs: [`begin_request`]
//! decodes the request and, for a login's second half, takes its in-flight
//! state out of the login table; [`finish_request`] turns the OPAQUE
//! outcome into the response, recording a new login's state under a fresh
//! random id. Failures become an error response with a stable code.

use vstd::prelude::*;
use crate::crypto::os_random_bytes;
use crate::encoding::{b64_encode, decode_base64, encode_base64, hex_encode, hex_lower, lemma_hex_lower};
use crate::error::{spec_code, spec_message, TesseraError};
use crate::login_store::{pruned, LoginStore};
use crate::protocol::{Request, Response};

verus! {

/// `text` is the standard base64 encoding of `bytes`.
pub open spec fn decodes_to(text: Seq<char>, bytes: Seq<u8>) -> bool {
    b64_encode(bytes) == text
}

/// `text` is the standard base64 encoding of some byte string.
pub open spec fn is_base64(text: Seq<char>) -> bool {
    exists|bytes: Seq<u8>| #[trigger] decodes_to(text, bytes)
}

/// The OPAQUE operation a request asks for, with its inputs decoded. A
/// login's second half carries the server state taken from the login table.
pub enum OpaqueCall<S> {
    RegisterStart { request: Vec<u8>, credential_id: String },
    RegisterFinish { upload: Vec<u8> },
    LoginStart { request: Vec<u8>, password_file: Option<Vec<u8>>, credential_id: String },
    LoginFinish { state: S, finalization: Vec<u8> },
}

/// The outcome of a successful OPAQUE operation. A login's first half yields
/// the server state to keep until its second half.
pub enum OpaqueOutput<S> {
    RegisterStart { response: Vec<u8> },
    RegisterFinish { password_file: Vec<u8> },
    LoginStart { state: S, response: Vec<u8> },
    LoginFinish { session_key: Vec<u8> },
}

/// The four operations of the protocol: the two halves of registration and
/// the two halves of login.
#[derive(Clone, Copy, Debug, PartialEq, Eq, Structural)]
pub enum Op {
    RegisterStart,
    RegisterFinish,
    LoginStart,
    LoginFinish,
}

/// The operation a request asks for.
pub open spec fn request_op(req: Request) -> Op {
    match req {
        Request::RegisterStart { .. } => Op::RegisterStart,
        Request::RegisterFinish { .. } => Op::RegisterFinish,
        Request::LoginStart { .. } => Op::LoginStart,
        Request::LoginFinish { .. } => Op::LoginFinish,
    }
}

/// The operation an OPAQUE call performs.
pub open spec fn call_op<S>(call: OpaqueCall<S>) -> Op {
    match call {
        OpaqueCall::RegisterStart { .. } => Op::RegisterStart,
        OpaqueCall::RegisterFinish { .. } => Op::RegisterFinish,
        OpaqueCall::LoginStart { .. } => Op::LoginStart,
        OpaqueCall::LoginFinish { .. } => Op::LoginFinish,
    }
}

/// The operation an OPAQUE outcome comes from.
pub open spec fn output_op<S>(out: OpaqueOutput<S>) -> Op {
    match out {
        OpaqueOutput::RegisterStart { .. } => Op::RegisterStart,
        OpaqueOutput::RegisterFinish { .. } => Op::RegisterFinish,
        OpaqueOutput::LoginStart { .. } => Op::LoginStart,
        OpaqueOutput::LoginFinish { .. } => Op::LoginFinish,
    }
}

/// The operation a response answers; an error response answers none.
pub open spec fn response_op(resp: Response) -> Option<Op> {
    match resp {
        Response::RegisterStart { .. } => Some(Op::RegisterStart),
        Response::RegisterFinish { .. } => Some(Op::RegisterFinish),
        Response::LoginStart { .. } => Some(Op::LoginStart),
        Response::LoginFinish { .. } => Some(Op::LoginFinish),
        Response::Error { .. } => None,
    }
}

impl<S> OpaqueCall<S> {
    /// The operation this call performs.
    pub fn op(&self) -> (r: Op)
        ensures
            r == call_op(*self),
    {
        match self {
            OpaqueCall::RegisterStart { .. } => Op::RegisterStart,
            OpaqueCall::RegisterFinish { .. } => Op::RegisterFinish,
            OpaqueCall::LoginStart { .. } => Op::LoginStart,
            OpaqueCall::LoginFinish { .. } => Op::LoginFinish,
        }
    }
}

/// Decodes base64 text, mapping a failure to [`TesseraError::Base64`].
fn decode_field(text: &String) -> (r: Result<Vec<u8>, TesseraError>)
    ensures
        r is Ok <==> is_base64(text@),
        r is Ok ==> decodes_to(text@, r->Ok_0@),
        r is Err ==> r->Err_0 is Base64,
{
    match decode_base64(text.as_str()) {
        Ok(v) => {
            assert(decodes_to(text@, v@));
            Ok(v)
        },
        Err(m) => {
            proof {
                if is_base64(text@) {
                    let b = choose|b: Seq<u8>| #[trigger] decodes_to(text@, b);
                    assert(b64_encode(b) == text@);
                }
            }
            Err(TesseraError::Base64(m))
        },
    }
}

/// What [`begin_request`] does with the login table and what it returns.
pub open spec fn begin_spec<S>(
    req: Request,
    old_logins: crate::login_store::LoginMap<S>,
    new_logins: crate::login_store::LoginMap<S>,
    ttl_ms: u64,
    now_ms: u64,
    r: Result<OpaqueCall<S>, TesseraError>,
) -> bool {
    match req {
        Request::RegisterStart { request_b64, credential_id } => {
            &&& new_logins == old_logins
            &&& r is Ok <==> is_base64(request_b64@)
            &&& r is Err ==> r->Err_0 is Base64
            &&& r is Ok ==> (r->Ok_0 matches OpaqueCall::RegisterStart { request, credential_id: c }
                && decodes_to(request_b64@, request@) && c@ == credential_id@)
        },
        Request::RegisterFinish { upload_b64 } => {
            &&& new_logins == old_logins
            &&& r is Ok <==> is_base64(upload_b64@)
            &&& r is Err ==> r->Err_0 is Base64
            &&& r is Ok ==> (r->Ok_0 matches OpaqueCall::RegisterFinish { upload }
                && decodes_to(upload_b64@, upload@))
        },
        Request::LoginStart { request_b64, password_file_b64, credential_id } => {
            &&& new_logins == old_logins
            &&& r is Ok <==> (is_base64(request_b64@) && (password_file_b64 matches Some(p)
                ==> is_base64(p@)))
            &&& r is Err ==> r->Err_0 is Base64
            &&& r is Ok ==> (r->Ok_0 matches OpaqueCall::LoginStart {
                request,
                password_file,
                credential_id: c,
            } && decodes_to(request_b64@, request@) && c@ == credential_id@ && (match password_file_b64 {
                Some(p) => password_file matches Some(f) && decodes_to(p@, f@),
                None => password_file is None,
            }))
        },
        Request::LoginFinish { login_id, finalization_b64 } => {
            let live = pruned(old_logins, now_ms, ttl_ms);
            if !is_base64(finalization_b64@) {
                &&& new_logins == old_logins
                &&& r is Err && r->Err_0 is Base64
            } else {
                &&& new_logins == live.remove(login_id@)
                &&& live.dom().contains(login_id@) ==> (r is Ok && (r->Ok_0 matches OpaqueCall::LoginFinish {
                    state,
                    finalization,
                } && state == live[login_id@].0 && decodes_to(finalization_b64@, finalization@)))
                &&& !live.dom().contains(login_id@) ==> (r is Err && r->Err_0 is UnknownLogin)
            }
        },
    }
}

/// First step of handling a request: decode its base64 fields (the first
/// undecodable one fails the request with [`TesseraError::Base64`]) and say
/// which OPAQUE operation to perform. For a login's second half the login
/// table is pruned of expired logins and the login's state is taken out of
/// it; an id that names no live login fails with
/// [`TesseraError::UnknownLogin`].
pub fn begin_request<S>(req: Request, logins: &mut LoginStore<S>, ttl_ms: u64, now_ms: u64) -> (r: Result<OpaqueCall<S>, TesseraError>)
    ensures
        begin_spec(req, old(logins).map(), final(logins).map(), ttl_ms, now_ms, r),
        r is Ok ==> call_op(r->Ok_0) == request_op(req),
{
    match req {
        Request::RegisterStart { request_b64, credential_id } => {
            let request = decode_field(&request_b64)?;
            Ok(OpaqueCall::RegisterStart { request, credential_id })
        },
        Request::RegisterFinish { upload_b64 } => {
            let upload = decode_field(&upload_b64)?;
            Ok(OpaqueCall::RegisterFinish { upload })
        },
        Request::LoginStart { request_b64, password_file_b64, credential_id } => {
            let request = decode_field(&request_b64)?;
            let password_file = match &password_file_b64 {
                Some(b64) => Some(decode_field(b64)?),
                None => None,
            };
            Ok(OpaqueCall::LoginStart { request, password_file, credential_id })
        },
        Request::LoginFinish { login_id, finalization_b64 } => {
            let finalization = decode_field(&finalization_b64)?;
            logins.prune(now_ms, ttl_ms);
            match logins.remove(&login_id) {
                Some(state) => Ok(OpaqueCall::LoginFinish { state, finalization }),
                None => Err(TesseraError::UnknownLogin),
            }
        },
    }
}

/// A login id: 16 random bytes in lowercase hex.
pub open spec fn is_login_id(id: Seq<char>) -> bool {
    exists|bytes: Seq<u8>| bytes.len() == 16 && id == #[trigger] hex_lower(bytes)
}

/// A fresh login id: 16 bytes from the operating system's random source, in
/// lowercase hex; `None` when the random source fails.
pub fn random_id() -> (r: Option<String>)
    ensures
        r is Some ==> is_login_id(r->Some_0@),
        r is Some ==> r->Some_0@.len() == 32,
        r is Some ==> forall|i: int|
            0 <= i < r->Some_0@.len() ==> ('0' <= #[trigger] r->Some_0@[i] <= '9' || 'a' <= r->Some_0@[i]
                <= 'f'),
{
    let bytes = match os_random_bytes(16) {
        Some(b) => b,
        None => {
            return None;
        },
    };
    let id = hex_encode(bytes.as_slice());
    proof { lemma_hex_lower(bytes@); }
    assert(bytes@.len() == 16 && id@ == hex_lower(bytes@));
    Some(id)
}

/// The message of the internal error for an outcome of another operation
/// than the one the request asked for.
pub open spec fn mismatch_failure() -> Seq<char> {
    "outcome does not answer the request"@
}

/// The message of the internal error for a login id that could not be drawn.
pub open spec fn login_id_failure() -> Seq<char> {
    "drawing a login id failed"@
}

/// The response that encodes the OPAQUE outcome `out`, and what becomes of
/// the login table on the way.
pub open spec fn answer_spec<S>(
    out: OpaqueOutput<S>,
    old_logins: crate::login_store::LoginMap<S>,
    new_logins: crate::login_store::LoginMap<S>,
    ttl_ms: u64,
    now_ms: u64,
    r: Response,
) -> bool {
    match out {
        OpaqueOutput::RegisterStart { response } => {
            &&& new_logins == old_logins
            &&& r matches Response::RegisterStart { response_b64 } && response_b64@ == b64_encode(
                response@,
            )
        },
        OpaqueOutput::RegisterFinish { password_file } => {
            &&& new_logins == old_logins
            &&& r matches Response::RegisterFinish { password_file_b64 } && password_file_b64@
                == b64_encode(password_file@)
        },
        OpaqueOutput::LoginStart { state, response } => {
            &&& r matches Response::LoginStart { login_id, response_b64 }
            &&& is_login_id(r->login_id@)
            &&& r->LoginStart_response_b64@ == b64_encode(response@)
            &&& new_logins == pruned(old_logins, now_ms, ttl_ms).insert(r->login_id@, (state, now_ms))
        },
        OpaqueOutput::LoginFinish { session_key } => {
            &&& new_logins == old_logins
            &&& r matches Response::LoginFinish { session_key_b64 } && session_key_b64@ == b64_encode(
                session_key@,
            )
        },
    }
}

/// What [`finish_request`] does with the login table and what it returns,
/// for the outcome `out` of a request that asked for `op`: an outcome of
/// another operation is an internal error; otherwise the response answers
/// `op` and encodes the outcome, unless no login id could be drawn for a
/// login's first half. Whenever it fails, the login table is unchanged.
pub open spec fn finish_spec<S>(
    op: Op,
    out: OpaqueOutput<S>,
    old_logins: crate::login_store::LoginMap<S>,
    new_logins: crate::login_store::LoginMap<S>,
    ttl_ms: u64,
    now_ms: u64,
    r: Result<Response, TesseraError>,
) -> bool {
    &&& output_op(out) != op ==> (r matches Err(TesseraError::Internal(m)) && m@ == mismatch_failure())
    &&& (output_op(out) == op && !(out is LoginStart)) ==> r is Ok
    &&& r matches Ok(resp) ==> {
        &&& output_op(out) == op
        &&& response_op(resp) == Some(op)
        &&& answer_spec(out, old_logins, new_logins, ttl_ms, now_ms, resp)
    }
    &&& r matches Err(e) ==> {
        &&& new_logins == old_logins
        &&& e matches TesseraError::Internal(m)
        &&& m@ == mismatch_failure() || (m@ == login_id_failure() && out is LoginStart)
    }
}

/// Second step of handling a request that asked for `op`: encode the
/// OPAQUE outcome as the response. A login's first half is recorded in the
/// login table (pruned of expired logins first) under a fresh random login
/// id, started now.
pub fn finish_request<S>(
    op: Op,
    out: OpaqueOutput<S>,
    logins: &mut LoginStore<S>,
    ttl_ms: u64,
    now_ms: u64,
) -> (r: Result<Response, TesseraError>)
    ensures
        finish_spec(op, out, old(logins).map(), final(logins).map(), ttl_ms, now_ms, r),
{
    match out {
        OpaqueOutput::RegisterStart { response } => {
            if op != Op::RegisterStart {
                return Err(TesseraError::Internal(String::from_str("outcome does not answer the request")));
            }
            Ok(Response::RegisterStart { response_b64: encode_base64(response.as_slice()) })
        },
        OpaqueOutput::RegisterFinish { password_file } => {
            if op != Op::RegisterFinish {
                return Err(TesseraError::Internal(String::from_str("outcome does not answer the request")));
            }
            Ok(Response::RegisterFinish { password_file_b64: encode_base64(password_file.as_slice()) })
        },
        OpaqueOutput::LoginStart { state, response } => {
            if op != Op::LoginStart {
                return Err(TesseraError::Internal(String::from_str("outcome does not answer the request")));
            }
            let login_id = match random_id() {
                Some(id) => id,
                None => {
                    return Err(TesseraError::Internal(String::from_str("drawing a login id failed")));
                },
            };
            Ok(record_login(state, response, login_id, logins, ttl_ms, now_ms))
        },
        OpaqueOutput::LoginFinish { session_key } => {
            if op != Op::LoginFinish {
                return Err(TesseraError::Internal(String::from_str("outcome does not answer the request")));
            }
            Ok(Response::LoginFinish { session_key_b64: encode_base64(session_key.as_slice()) })
        },
    }
}

/// A login's first half, once its login id is drawn: record the server
/// state in the login table (pruned of expired logins first) under that id,
/// started now, and answer with the id and the base64 of the OPAQUE
/// response.
pub fn record_login<S>(
    state: S,
    response: Vec<u8>,
    login_id: String,
    logins: &mut LoginStore<S>,
    ttl_ms: u64,
    now_ms: u64,
) -> (r: Response)
    requires
        is_login_id(login_id@),
    ensures
        answer_spec(
            (OpaqueOutput::LoginStart { state, response }),
            old(logins).map(),
            final(logins).map(),
            ttl_ms,
            now_ms,
            r,
        ),
        r is LoginStart && r->LoginStart_login_id@ == login_id@,
{
    let response_b64 = encode_base64(response.as_slice());
    logins.prune(now_ms, ttl_ms);
    logins.insert(login_id.clone(), state, now_ms);
    Response::LoginStart { login_id, response_b64 }
}

/// Whether a new connection is admitted: only while fewer than `max_conns`
/// connections were active before it.
pub fn admits_connection(active_before: usize, max_conns: usize) -> (r: bool)
    ensures
        r == (active_before < max_conns),
{
    active_before < max_conns
}

/// `text` is the base64 of `bytes` and of nothing else: decoding it gives
/// back exactly `bytes`.
pub open spec fn decodes_only_to(text: Seq<char>, bytes: Seq<u8>) -> bool {
    &&& b64_encode(bytes) == text
    &&& forall|other: Seq<u8>| #[trigger] b64_encode(other) == text ==> other == bytes
}

/// Base64 text decodes to one byte string only.
proof fn lemma_decodes_only_to(text: Seq<char>, bytes: Seq<u8>)
    requires
        b64_encode(bytes) == text,
    ensures
        decodes_only_to(text, bytes),
{
    assert forall|other: Seq<u8>| #[trigger] b64_encode(other) == text implies other == bytes by {
        crate::encoding::lemma_b64_injective(other, bytes);
    }
}

/// Decoding a request keeps its payload: whenever [`begin_request`]
/// accepts a request, each byte string handed to OPAQUE is exactly what the
/// matching base64 field of the request decodes to, a stored password file
/// is handed over exactly when the request carries one, and the credential
/// id handed over is the request's own, whether or not a password file is
/// present.
pub proof fn lemma_request_payload_kept<S>(
    req: Request,
    old_logins: crate::login_store::LoginMap<S>,
    new_logins: crate::login_store::LoginMap<S>,
    ttl_ms: u64,
    now_ms: u64,
    call: OpaqueCall<S>,
)
    requires
        begin_spec(req, old_logins, new_logins, ttl_ms, now_ms, Ok(call)),
    ensures
        match req {
            Request::RegisterStart { request_b64, credential_id } => {
                &&& call is RegisterStart
                &&& decodes_only_to(request_b64@, call->RegisterStart_request@)
                &&& call->RegisterStart_credential_id@ == credential_id@
            },
            Request::RegisterFinish { upload_b64 } => {
                &&& call is RegisterFinish
                &&& decodes_only_to(upload_b64@, call->upload@)
            },
            Request::LoginStart { request_b64, password_file_b64, credential_id } => {
                &&& call is LoginStart
                &&& decodes_only_to(request_b64@, call->LoginStart_request@)
                &&& call->LoginStart_credential_id@ == credential_id@
                &&& (call->password_file is Some <==> password_file_b64 is Some)
                &&& password_file_b64 is Some ==> decodes_only_to(
                    password_file_b64->Some_0@,
                    call->password_file->Some_0@,
                )
            },
            Request::LoginFinish { login_id, finalization_b64 } => {
                &&& call is LoginFinish
                &&& decodes_only_to(finalization_b64@, call->finalization@)
            },
        },
{
    match req {
        Request::RegisterStart { request_b64, credential_id } => {
            lemma_decodes_only_to(request_b64@, call->RegisterStart_request@);
        },
        Request::RegisterFinish { upload_b64 } => {
            lemma_decodes_only_to(upload_b64@, call->upload@);
        },
        Request::LoginStart { request_b64, password_file_b64, credential_id } => {
            lemma_decodes_only_to(request_b64@, call->LoginStart_request@);
            if password_file_b64 is Some {
                lemma_decodes_only_to(password_file_b64->Some_0@, call->password_file->Some_0@);
            }
        },
        Request::LoginFinish { login_id, finalization_b64 } => {
            lemma_decodes_only_to(finalization_b64@, call->finalization@);
        },
    }
}

/// Every byte field of a successful answer is the standard base64 of the
/// matching OPAQUE output and decodes back to exactly it; a login's first
/// half is answered with a login id of 32 lowercase hex digits.
pub proof fn lemma_answer_fields_decode<S>(
    op: Op,
    out: OpaqueOutput<S>,
    old_logins: crate::login_store::LoginMap<S>,
    new_logins: crate::login_store::LoginMap<S>,
    ttl_ms: u64,
    now_ms: u64,
    resp: Response,
)
    requires
        finish_spec(op, out, old_logins, new_logins, ttl_ms, now_ms, Ok(resp)),
    ensures
        match out {
            OpaqueOutput::RegisterStart { response } => resp is RegisterStart && decodes_only_to(
                resp->RegisterStart_response_b64@,
                response@,
            ),
            OpaqueOutput::RegisterFinish { password_file } => resp is RegisterFinish && decodes_only_to(
                resp->password_file_b64@,
                password_file@,
            ),
            OpaqueOutput::LoginStart { state, response } => {
                &&& resp is LoginStart
                &&& decodes_only_to(resp->LoginStart_response_b64@, response@)
                &&& resp->LoginStart_login_id@.len() == 32
                &&& forall|i: int|
                    0 <= i < 32 ==> ('0' <= #[trigger] resp->LoginStart_login_id@[i] <= '9' || 'a'
                        <= resp->LoginStart_login_id@[i] <= 'f')
            },
            OpaqueOutput::LoginFinish { session_key } => resp is LoginFinish && decodes_only_to(
                resp->session_key_b64@,
                session_key@,
            ),
        },
{
    match out {
        OpaqueOutput::RegisterStart { response } => {
            lemma_decodes_only_to(resp->RegisterStart_response_b64@, response@);
        },
        OpaqueOutput::RegisterFinish { password_file } => {
            lemma_decodes_only_to(resp->password_file_b64@, password_file@);
        },
        OpaqueOutput::LoginStart { state, response } => {
            lemma_decodes_only_to(resp->LoginStart_response_b64@, response@);
            let bytes = choose|bytes: Seq<u8>|
                bytes.len() == 16 && resp->LoginStart_login_id@ == #[trigger] hex_lower(bytes);
            lemma_hex_lower(bytes);
        },
        OpaqueOutput::LoginFinish { session_key } => {
            lemma_decodes_only_to(resp->session_key_b64@, session_key@);
        },
    }
}

/// A login's second half begun less than the time-to-live after its first
/// half, whatever the time-to-live, finds the state the first half recorded
/// (given a decodable finalization), whatever else the table held.
pub proof fn lemma_login_finishes_within_ttl<S>(
    state: S,
    response: Vec<u8>,
    resp: Response,
    finalization_b64: String,
    l0: crate::login_store::LoginMap<S>,
    l1: crate::login_store::LoginMap<S>,
    l2: crate::login_store::LoginMap<S>,
    ttl_ms: u64,
    started_ms: u64,
    now_ms: u64,
    r: Result<OpaqueCall<S>, TesseraError>,
)
    requires
        finish_spec(
            Op::LoginStart,
            (OpaqueOutput::LoginStart { state, response }),
            l0,
            l1,
            ttl_ms,
            started_ms,
            Ok(resp),
        ),
        begin_spec(
            (Request::LoginFinish { login_id: resp->LoginStart_login_id, finalization_b64 }),
            l1,
            l2,
            ttl_ms,
            now_ms,
            r,
        ),
        started_ms <= now_ms,
        now_ms - started_ms < ttl_ms,
        exists|bytes: Seq<u8>| #[trigger] b64_encode(bytes) == finalization_b64@,
    ensures
        r is Ok,
        r->Ok_0 is LoginFinish,
        r->Ok_0->LoginFinish_state == state,
        decodes_only_to(finalization_b64@, r->Ok_0->finalization@),
{
    let id = resp->LoginStart_login_id@;
    let bytes = choose|bytes: Seq<u8>| #[trigger] b64_encode(bytes) == finalization_b64@;
    assert(decodes_to(finalization_b64@, bytes));
    crate::login_store::lemma_fresh_login_survives(pruned(l0, started_ms, ttl_ms), id, state, started_ms, now_ms, ttl_ms);
    lemma_decodes_only_to(finalization_b64@, r->Ok_0->finalization@);
}

/// A request that is answered is answered in kind: when [`begin_request`]
/// turns `req` into `call`, and [`finish_request`], told `call`'s operation,
/// answers with `resp`, then `resp` is the response of the operation `req`
/// asked for, and no error response.
pub proof fn lemma_answered_in_kind<S>(
    req: Request,
    call: OpaqueCall<S>,
    out: OpaqueOutput<S>,
    resp: Response,
    old_logins: crate::login_store::LoginMap<S>,
    mid_logins: crate::login_store::LoginMap<S>,
    new_logins: crate::login_store::LoginMap<S>,
    ttl_ms: u64,
    begun_ms: u64,
    finished_ms: u64,
)
    requires
        begin_spec(req, old_logins, mid_logins, ttl_ms, begun_ms, Ok(call)),
        finish_spec(call_op(call), out, mid_logins, new_logins, ttl_ms, finished_ms, Ok(resp)),
    ensures
        response_op(resp) == Some(request_op(req)),
        !(resp is Error),
{
}

/// The response that reports an error: its stable code and its message.
pub fn error_response(e: &TesseraError) -> (r: Response)
    ensures
        r matches Response::Error { code, message } && code@ == spec_code(*e) && message@
            == spec_message(*e),
{
    Response::Error { code: String::from_str(e.code()), message: e.message() }
}

/// The response to a request that is not valid JSON for any request.
pub fn bad_json_response(detail: &str) -> (r: Response)
    ensures
        r matches Response::Error { code, message } && code@ == "bad_request"@ && message@
            == "bad request json: "@ + detail@,
{
    Response::Error {
        code: String::from_str("bad_request"),
        message: String::from_str("bad request json: ").concat(detail),
    }
}

/// A login's second half finds the state its first half recorded, as long
/// as it comes before the time-to-live runs out: after [`finish_request`]
/// records `state` under `login_id` at `started_ms`, a [`begin_request`] for
/// that id at `now_ms`, less than `ttl_ms` later, takes out exactly `state`,
/// whatever else the table held.
pub proof fn lemma_login_state_found<S>(
    before: crate::login_store::LoginMap<S>,
    login_id: Seq<char>,
    state: S,
    started_ms: u64,
    now_ms: u64,
    ttl_ms: u64,
)
    requires
        crate::login_store::is_fresh(started_ms, now_ms, ttl_ms),
    ensures
        ({
            let recorded = pruned(before, started_ms, ttl_ms).insert(login_id, (state, started_ms));
            &&& pruned(recorded, now_ms, ttl_ms).dom().contains(login_id)
            &&& pruned(recorded, now_ms, ttl_ms)[login_id].0 == state
        }),
{
    crate::login_store::lemma_fresh_login_survives(
        pruned(before, started_ms, ttl_ms),
        login_id,
        state,
        started_ms,
        now_ms,
        ttl_ms,
    );
}

/// The value of a string of decimal digits.
pub open spec fn decimal_value(s: Seq<char>) -> nat
    decreases s.len(),
{
    if s.len() == 0 {
        0
    } else {
        decimal_value(s.drop_last()) * 10 + (s.last() as nat - 48) as nat
    }
}

/// What `str::parse` gives for an unsigned integer type whose largest value
/// is `max`: an optional `+` followed by one or more ASCII digits, whose value
/// does not exceed `max`; anything else is rejected.
pub open spec fn parse_unsigned(s: Seq<char>, max: nat) -> Option<nat> {
    let digits = if s.len() > 0 && s[0] == '+' {
        s.drop_first()
    } else {
        s
    };
    if digits.len() > 0 && (forall|i: int| 0 <= i < digits.len() ==> '0' <= #[trigger] digits[i] <= '9')
        && decimal_value(digits) <= max {
        Some(decimal_value(digits))
    } else {
        None
    }
}

/// `str::parse::<u64>`. The claim, from the documentation of
/// `u64::from_str_radix`: an optional `+` followed by decimal digits, without
/// overflow, parses to its value; anything else fails.
#[verifier::external_body]
fn parse_u64(s: &str) -> (r: Option<u64>)
    ensures
        match parse_unsigned(s@, u64::MAX as nat) {
            Some(v) => r == Some(v as u64),
            None => r is None,
        },
{
    s.parse::<u64>().ok()
}

/// `str::parse::<usize>`, as [`parse_u64`] states it for `usize`.
#[verifier::external_body]
fn parse_usize(s: &str) -> (r: Option<usize>)
    ensures
        match parse_unsigned(s@, usize::MAX as nat) {
            Some(v) => r == Some(v as usize),
            None => r is None,
        },
{
    s.parse::<usize>().ok()
}

/// A numeric setting: the configured text's value if it parses as a `u64`,
/// else the default (also when nothing is configured).
pub fn setting_u64(value: Option<&str>, default: u64) -> (r: u64)
    ensures
        r == match value {
            Some(s) => match parse_unsigned(s@, u64::MAX as nat) {
                Some(v) => v as u64,
                None => default,
            },
            None => default,
        },
{
    match value {
        Some(s) => match parse_u64(s) {
            Some(v) => v,
            None => default,
        },
        None => default,
    }
}

/// A count setting: the configured text's value if it parses as a `usize`,
/// else the default (also when nothing is configured).
pub fn setting_usize(value: Option<&str>, default: usize) -> (r: usize)
    ensures
        r == match value {
            Some(s) => match parse_unsigned(s@, usize::MAX as nat) {
                Some(v) => v as usize,
                None => default,
            },
            None => default,
        },
{
    match value {
        Some(s) => match parse_usize(s) {
            Some(v) => v,
            None => default,
        },
        None => default,
    }
}

} // verus!
