use base64::prelude::BASE64_STANDARD;
use base64::Engine;
use opaque_ke::{ClientRegistration, RegistrationRequest, ServerRegistration, ServerSetup};
use rand::rngs::OsRng;
use tessera::login_store::LoginStore;
use tessera::protocol::{Request, Response};
use tessera::sidecar::{
    admits_connection, bad_json_response, begin_request, error_response, finish_request, random_id, record_login,
    setting_u64,
    setting_usize, Op, OpaqueCall, OpaqueOutput,
};
use tessera::TesseraError;

struct TesseraCipherSuite;

impl opaque_ke::CipherSuite for TesseraCipherSuite {
    type OprfCs = opaque_ke::Ristretto255;
    type KeyExchange = opaque_ke::TripleDh<opaque_ke::Ristretto255, sha2::Sha512>;
    type Ksf = opaque_ke::argon2::Argon2<'static>;
}

#[test]
fn dispatch_register_start_uses_shared_setup() {
    let setup = ServerSetup::<TesseraCipherSuite>::new(&mut OsRng);
    let mut logins: LoginStore<u8> = LoginStore::new();
    let mut rng = OsRng;
    let c = ClientRegistration::<TesseraCipherSuite>::start(&mut rng, b"pw").unwrap();
    let req = Request::RegisterStart {
        request_b64: BASE64_STANDARD.encode(c.message.serialize()),
        credential_id: "creds-1".into(),
    };
    // The request is handled against a &ServerSetup that was parsed ONCE by the caller.
    let call = begin_request(req, &mut logins, 60_000, 0).unwrap();
    let op = call.op();
    assert_eq!(op, Op::RegisterStart);
    let OpaqueCall::RegisterStart { request, credential_id } = call else {
        panic!("expected a registration start")
    };
    assert_eq!(credential_id, "creds-1");
    let result = ServerRegistration::start(
        &setup,
        RegistrationRequest::deserialize(&request).unwrap(),
        credential_id.as_bytes(),
    )
    .unwrap();
    let resp = finish_request(
        op,
        OpaqueOutput::RegisterStart { response: result.message.serialize().to_vec() },
        &mut logins,
        60_000,
        0,
    )
    .unwrap();
    assert!(matches!(resp, Response::RegisterStart { .. }));
}

#[test]
fn login_state_is_found_by_its_id_within_the_ttl() {
    let mut logins: LoginStore<&'static str> = LoginStore::new();
    let resp = finish_request(
        Op::LoginStart,
        OpaqueOutput::LoginStart { state: "server-state", response: vec![1, 2, 3] },
        &mut logins,
        200,
        1_000,
    )
    .unwrap();
    let Response::LoginStart { login_id, response_b64 } = resp else { panic!("expected LoginStart") };
    assert_eq!(response_b64, "AQID");
    assert_eq!(logins.len(), 1);
    let req = Request::LoginFinish { login_id: login_id.clone(), finalization_b64: "BAU=".into() };
    let call = begin_request(req, &mut logins, 200, 1_199).unwrap();
    assert_eq!(call.op(), Op::LoginFinish);
    let OpaqueCall::LoginFinish { state, finalization } = call else { panic!("expected LoginFinish") };
    assert_eq!(state, "server-state");
    assert_eq!(finalization, vec![4, 5]);
    // The state is consumed: a second finish for the same id is unknown.
    let req = Request::LoginFinish { login_id, finalization_b64: "BAU=".into() };
    assert!(matches!(begin_request(req, &mut logins, 200, 1_199), Err(TesseraError::UnknownLogin)));
}

#[test]
fn expired_login_state_is_unknown() {
    let mut logins: LoginStore<u32> = LoginStore::new();
    let resp = finish_request(Op::LoginStart, OpaqueOutput::LoginStart { state: 7, response: vec![] }, &mut logins, 200, 1_000)
        .unwrap();
    let Response::LoginStart { login_id, .. } = resp else { panic!("expected LoginStart") };
    let req = Request::LoginFinish { login_id, finalization_b64: BASE64_STANDARD.encode(b"ignored-after-reap") };
    let Err(err) = begin_request(req, &mut logins, 200, 1_200) else { panic!("expected an error") };
    let resp = error_response(&err);
    assert!(
        matches!(resp, Response::Error { ref code, ref message } if code == "unknown_login" && message == "unknown login id")
    );
    assert_eq!(logins.len(), 0);
}

#[test]
fn bad_base64_is_a_bad_request() {
    let mut logins: LoginStore<u32> = LoginStore::new();
    let req = Request::RegisterFinish { upload_b64: "not base64!".into() };
    let Err(err) = begin_request(req, &mut logins, 200, 0) else { panic!("expected an error") };
    assert!(matches!(err, TesseraError::Base64(_)));
    assert_eq!(err.code(), "bad_request");
    let req = Request::LoginStart {
        request_b64: "AAAA".into(),
        password_file_b64: Some("%%%".into()),
        credential_id: "c".into(),
    };
    assert!(matches!(begin_request(req, &mut logins, 200, 0), Err(TesseraError::Base64(_))));
}

#[test]
fn login_start_passes_an_unknown_account_through() {
    let mut logins: LoginStore<u32> = LoginStore::new();
    let req = Request::LoginStart {
        request_b64: "AAAA".into(),
        password_file_b64: None,
        credential_id: "nonexistent-user".into(),
    };
    let call = begin_request(req, &mut logins, 200, 0).unwrap();
    assert!(matches!(
        call,
        OpaqueCall::LoginStart { ref request, password_file: None, ref credential_id }
            if request == &vec![0u8, 0, 0] && credential_id == "nonexistent-user"
    ));
    let req = Request::LoginStart {
        request_b64: "AAAA".into(),
        password_file_b64: Some("AQ==".into()),
        credential_id: "u".into(),
    };
    let call = begin_request(req, &mut logins, 200, 0).unwrap();
    assert!(matches!(call, OpaqueCall::LoginStart { password_file: Some(ref f), .. } if f == &vec![1u8]));
}

#[test]
fn finish_encodes_outcomes_as_base64() {
    let mut logins: LoginStore<u32> = LoginStore::new();
    let r = finish_request(Op::RegisterFinish, OpaqueOutput::RegisterFinish { password_file: b"file".to_vec() }, &mut logins, 1, 0)
        .unwrap();
    assert!(matches!(r, Response::RegisterFinish { ref password_file_b64 } if password_file_b64 == "ZmlsZQ=="));
    let r = finish_request(Op::LoginFinish, OpaqueOutput::LoginFinish { session_key: vec![0xff; 2] }, &mut logins, 1, 0)
        .unwrap();
    assert!(matches!(r, Response::LoginFinish { ref session_key_b64 } if session_key_b64 == "//8="));
}

#[test]
fn an_outcome_of_another_operation_is_an_internal_error() {
    let mut logins: LoginStore<u32> = LoginStore::new();
    let r = finish_request(Op::LoginFinish, OpaqueOutput::LoginStart { state: 1, response: vec![] }, &mut logins, 1, 0);
    let Err(err) = r else { panic!("expected an error") };
    assert!(matches!(err, TesseraError::Internal(ref m) if m == "outcome does not answer the request"));
    assert_eq!(err.code(), "internal");
    assert_eq!(logins.len(), 0);
    let r = finish_request(Op::RegisterStart, OpaqueOutput::RegisterFinish { password_file: vec![] }, &mut logins, 1, 0);
    assert!(matches!(r, Err(TesseraError::Internal(_))));
}

#[test]
fn each_request_is_answered_in_kind() {
    let mut logins: LoginStore<u32> = LoginStore::new();
    let req = Request::RegisterFinish { upload_b64: "AQI=".into() };
    let call = begin_request(req, &mut logins, 1, 0).unwrap();
    assert_eq!(call.op(), Op::RegisterFinish);
    let r = finish_request(call.op(), OpaqueOutput::RegisterFinish { password_file: vec![9] }, &mut logins, 1, 0).unwrap();
    assert!(matches!(r, Response::RegisterFinish { ref password_file_b64 } if password_file_b64 == "CQ=="));
    let req = Request::LoginStart { request_b64: "AA==".into(), password_file_b64: None, credential_id: "u".into() };
    let call = begin_request(req, &mut logins, 1, 0).unwrap();
    assert_eq!(call.op(), Op::LoginStart);
}

#[test]
fn error_and_bad_json_responses() {
    let r = error_response(&TesseraError::Protocol("x".into()));
    assert!(matches!(r, Response::Error { ref code, ref message } if code == "bad_request" && message == "invalid wire message: x"));
    let r = bad_json_response("expected value at line 1 column 1");
    assert!(matches!(r, Response::Error { ref code, ref message }
        if code == "bad_request" && message == "bad request json: expected value at line 1 column 1"));
}

#[test]
fn random_ids_are_32_lowercase_hex_digits() {
    let a = random_id().unwrap();
    let b = random_id().unwrap();
    assert_eq!(a.len(), 32);
    assert!(a.chars().all(|c| c.is_ascii_digit() || ('a'..='f').contains(&c)));
    assert_ne!(a, b);
}

#[test]
fn settings_parse_or_fall_back() {
    assert_eq!(setting_u64(Some("300"), 10_000), 300);
    assert_eq!(setting_u64(Some("+7"), 1), 7);
    assert_eq!(setting_u64(Some("-7"), 1), 1);
    assert_eq!(setting_u64(Some(" 7"), 1), 1);
    assert_eq!(setting_u64(Some(""), 1), 1);
    assert_eq!(setting_u64(Some("18446744073709551616"), 1), 1);
    assert_eq!(setting_u64(Some("18446744073709551615"), 1), u64::MAX);
    assert_eq!(setting_u64(None, 60_000), 60_000);
    assert_eq!(setting_usize(Some("2"), 256), 2);
    assert_eq!(setting_usize(Some("two"), 256), 256);
    assert_eq!(setting_usize(None, 256), 256);
}

#[test]
fn login_store_insert_replace_remove_prune() {
    let mut s: LoginStore<u32> = LoginStore::new();
    s.insert("a".into(), 1, 100);
    s.insert("b".into(), 2, 150);
    s.insert("a".into(), 3, 160);
    assert_eq!(s.len(), 2);
    s.prune(255, 100);
    // "b" started at 150 is 105 ms old: expired; "a" restarted at 160 is 95 ms old.
    assert_eq!(s.len(), 1);
    assert_eq!(s.remove(&"b".to_string()), None);
    assert_eq!(s.remove(&"a".to_string()), Some(3));
    assert_eq!(s.len(), 0);
    // A start in the future counts as no time elapsed.
    s.insert("c".into(), 4, 1_000);
    s.prune(10, 1);
    assert_eq!(s.remove(&"c".to_string()), Some(4));
}

#[test]
fn recording_a_login_answers_with_its_id() {
    let mut logins: LoginStore<u32> = LoginStore::new();
    logins.insert("old".into(), 1, 0);
    let id = "0123456789abcdef0123456789abcdef".to_string();
    let r = record_login(5, vec![0xfb], id.clone(), &mut logins, 100, 500);
    assert!(matches!(r, Response::LoginStart { ref login_id, ref response_b64 } if login_id == &id && response_b64 == "+w=="));
    // The expired "old" login was pruned; the new one is recorded.
    assert_eq!(logins.len(), 1);
    assert_eq!(logins.remove(&id), Some(5));
}

#[test]
fn connections_are_admitted_below_the_cap() {
    assert!(admits_connection(0, 256));
    assert!(admits_connection(255, 256));
    assert!(!admits_connection(256, 256));
    assert!(!admits_connection(0, 0));
}
