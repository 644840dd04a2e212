use base64::prelude::BASE64_STANDARD;
use base64::Engine;
use opaque_ke::{
    ClientLogin, ClientLoginFinishParameters, ClientRegistration,
    ClientRegistrationFinishParameters, CredentialFinalization, CredentialRequest,
    CredentialResponse, RegistrationRequest, RegistrationResponse, RegistrationUpload,
    ServerLogin, ServerLoginParameters, ServerRegistration, ServerSetup,
};
use rand::rngs::OsRng;
use tessera::login_state::{aad, open, seal, seal_with_nonce, LoginStateKey};
use tessera::TesseraError;

struct TesseraCipherSuite;

impl opaque_ke::CipherSuite for TesseraCipherSuite {
    type OprfCs = opaque_ke::Ristretto255;
    type KeyExchange = opaque_ke::TripleDh<opaque_ke::Ristretto255, sha2::Sha512>;
    type Ksf = opaque_ke::argon2::Argon2<'static>;
}

const TTL_MS: u64 = 60_000;
const NOW: u64 = 1_700_000_000_000;

fn new_server_setup() -> Vec<u8> {
    ServerSetup::<TesseraCipherSuite>::new(&mut OsRng).serialize().to_vec()
}

fn setup_and_state() -> (Vec<u8>, ServerLogin<TesseraCipherSuite>, Vec<u8>, Vec<u8>) {
    let setup_bytes = new_server_setup();
    let setup = ServerSetup::<TesseraCipherSuite>::deserialize(&setup_bytes).unwrap();
    let mut rng = OsRng;

    let c_reg = ClientRegistration::<TesseraCipherSuite>::start(&mut rng, b"pw").unwrap();
    let request = RegistrationRequest::deserialize(&c_reg.message.serialize()).unwrap();
    let reg_resp = ServerRegistration::start(&setup, request, b"creds").unwrap();
    let c_reg_fin = c_reg
        .state
        .finish(
            &mut rng,
            b"pw",
            RegistrationResponse::deserialize(&reg_resp.message.serialize()).unwrap(),
            ClientRegistrationFinishParameters::default(),
        )
        .unwrap();
    let upload = RegistrationUpload::deserialize(&c_reg_fin.message.serialize()).unwrap();
    let file = ServerRegistration::<TesseraCipherSuite>::finish(upload);

    let c_login = ClientLogin::<TesseraCipherSuite>::start(&mut rng, b"pw").unwrap();
    let start = ServerLogin::start(
        &mut rng,
        &setup,
        Some(file),
        CredentialRequest::deserialize(&c_login.message.serialize()).unwrap(),
        b"creds",
        ServerLoginParameters::default(),
    )
    .unwrap();

    let c_fin = c_login
        .state
        .finish(
            &mut rng,
            b"pw",
            CredentialResponse::deserialize(&start.message.serialize()).unwrap(),
            ClientLoginFinishParameters::default(),
        )
        .unwrap();
    (
        setup_bytes,
        start.state,
        c_fin.message.serialize().to_vec(),
        c_fin.session_key.to_vec(),
    )
}

fn seal_state(key: &LoginStateKey, id: &str, state: &ServerLogin<TesseraCipherSuite>, ttl: u64, now: u64) -> String {
    seal(key, id, &state.serialize(), ttl, now).unwrap()
}

/// A login sealed by one process is finishable by a different process that
/// only shares the ServerSetup, and the session keys still agree.
#[test]
fn sealed_state_finishes_on_a_different_process() {
    let (setup_bytes, state, finalization, client_session_key) = setup_and_state();

    let key_a = LoginStateKey::derive(&setup_bytes);
    let sealed = seal_state(&key_a, "login-1", &state, TTL_MS, NOW);
    drop(state);
    drop(key_a);

    let key_b = LoginStateKey::derive(&setup_bytes);
    let reopened = open(&key_b, "login-1", &sealed, NOW + 1_000).unwrap();
    let reopened = ServerLogin::<TesseraCipherSuite>::deserialize(&reopened).unwrap();
    let result = reopened
        .finish(
            CredentialFinalization::deserialize(&finalization).unwrap(),
            ServerLoginParameters::default(),
        )
        .unwrap();

    assert_eq!(
        result.session_key.to_vec(),
        client_session_key,
        "a login finished from sealed state must derive the same session key"
    );
}

#[test]
fn sealed_state_is_not_readable_without_the_key() {
    let (setup_bytes, state, _, _) = setup_and_state();
    let key = LoginStateKey::derive(&setup_bytes);
    let sealed = seal_state(&key, "login-1", &state, TTL_MS, NOW);

    let raw = BASE64_STANDARD.decode(&sealed).unwrap();
    let state_bytes = state.serialize();
    assert!(
        !raw.windows(state_bytes.len()).any(|w| w == &state_bytes[..]),
        "the serialized ServerLogin must not appear in the sealed output"
    );
}

#[test]
fn a_different_server_setup_cannot_open_it() {
    let (setup_bytes, state, _, _) = setup_and_state();
    let sealed = seal_state(&LoginStateKey::derive(&setup_bytes), "login-1", &state, TTL_MS, NOW);

    let other = LoginStateKey::derive(&new_server_setup());
    assert!(matches!(open(&other, "login-1", &sealed, NOW), Err(TesseraError::UnknownLogin)));
}

#[test]
fn state_cannot_be_replayed_under_a_different_login_id() {
    let (setup_bytes, state, _, _) = setup_and_state();
    let key = LoginStateKey::derive(&setup_bytes);
    let sealed = seal_state(&key, "login-1", &state, TTL_MS, NOW);

    assert!(matches!(open(&key, "login-2", &sealed, NOW), Err(TesseraError::UnknownLogin)));
}

#[test]
fn expired_state_is_rejected() {
    let (setup_bytes, state, _, _) = setup_and_state();
    let key = LoginStateKey::derive(&setup_bytes);
    let sealed = seal_state(&key, "login-1", &state, TTL_MS, NOW);

    assert!(open(&key, "login-1", &sealed, NOW + TTL_MS).is_err());
    assert!(open(&key, "login-1", &sealed, NOW + TTL_MS + 1).is_err());
    // Still valid one millisecond before expiry.
    assert!(open(&key, "login-1", &sealed, NOW + TTL_MS - 1).is_ok());
}

/// Every byte matters: flipping any one of them must fail the tag check.
#[test]
fn tampered_state_is_rejected() {
    let (setup_bytes, state, _, _) = setup_and_state();
    let key = LoginStateKey::derive(&setup_bytes);
    let sealed = seal_state(&key, "login-1", &state, TTL_MS, NOW);
    let raw = BASE64_STANDARD.decode(&sealed).unwrap();

    for i in 0..raw.len() {
        let mut bad = raw.clone();
        bad[i] ^= 0x01;
        let bad_b64 = BASE64_STANDARD.encode(&bad);
        assert!(
            open(&key, "login-1", &bad_b64, NOW).is_err(),
            "flipping byte {i} must invalidate the sealed state"
        );
    }
}

#[test]
fn malformed_input_is_rejected_without_panicking() {
    let key = LoginStateKey::derive(&new_server_setup());
    for bad in ["", "!!!not base64!!!", "AAAA", &BASE64_STANDARD.encode([2u8; 40])] {
        assert!(matches!(open(&key, "login-1", bad, NOW), Err(TesseraError::UnknownLogin)));
    }
}

#[test]
fn derivation_is_deterministic_and_setup_specific() {
    let a = new_server_setup();
    let b = new_server_setup();
    assert_eq!(
        LoginStateKey::derive(&a).key_bytes(),
        LoginStateKey::derive(&a).key_bytes(),
        "same setup must derive the same key, or replicas cannot share state"
    );
    assert_ne!(
        LoginStateKey::derive(&a).key_bytes(),
        LoginStateKey::derive(&b).key_bytes(),
        "different setups must derive different keys"
    );
}

/// The sealing key must not be the setup itself, or a leak of one is a leak
/// of the other.
#[test]
fn derived_key_does_not_appear_in_the_setup_bytes() {
    let setup_bytes = new_server_setup();
    let key = LoginStateKey::derive(&setup_bytes);
    assert!(
        !setup_bytes.windows(32).any(|w| w == key.key_bytes()),
        "derived key must not be a substring of the ServerSetup"
    );
}

#[test]
fn derived_key_matches_hkdf_sha512() {
    let setup = b"example server setup bytes";
    let hk = hkdf::Hkdf::<sha2::Sha512>::new(Some(b"tessera-login-state-salt-v1"), setup);
    let mut okm = [0u8; 32];
    hk.expand(b"tessera:login-state:v1:xchacha20poly1305", &mut okm).unwrap();
    assert_eq!(LoginStateKey::derive(setup).key_bytes(), &okm);
}

#[test]
fn sealed_layout_is_version_nonce_ciphertext() {
    let key = LoginStateKey::derive(b"setup");
    let state = b"opaque server state";
    let sealed = seal(&key, "id", state, 5, 10).unwrap();
    let raw = BASE64_STANDARD.decode(&sealed).unwrap();
    // version + nonce + (expiry + state + tag)
    assert_eq!(raw.len(), 1 + 24 + 8 + state.len() + 16);
    assert_eq!(raw[0], 1);
    assert_eq!(open(&key, "id", &sealed, 14).unwrap(), state.to_vec());
    assert!(open(&key, "id", &sealed, 15).is_err());
    // Two sealings of the same state use different nonces.
    let again = seal(&key, "id", state, 5, 10).unwrap();
    assert_ne!(sealed, again);
}

#[test]
fn expiry_saturates_at_the_largest_time() {
    let key = LoginStateKey::derive(b"setup");
    let sealed = seal(&key, "id", b"s", u64::MAX, 10).unwrap();
    assert!(open(&key, "id", &sealed, u64::MAX - 1).is_ok());
    assert!(open(&key, "id", &sealed, u64::MAX).is_err());
}

#[test]
fn empty_state_never_opens() {
    let key = LoginStateKey::derive(b"setup");
    let sealed = seal(&key, "id", b"", 100, 10).unwrap();
    assert!(matches!(open(&key, "id", &sealed, 11), Err(TesseraError::UnknownLogin)));
}

#[test]
fn wrong_version_byte_is_rejected() {
    let key = LoginStateKey::derive(b"setup");
    let sealed = seal(&key, "id", b"state", 100, 10).unwrap();
    let mut raw = BASE64_STANDARD.decode(&sealed).unwrap();
    raw[0] = 2;
    assert!(matches!(
        open(&key, "id", &BASE64_STANDARD.encode(&raw), 11),
        Err(TesseraError::UnknownLogin)
    ));
}

#[test]
fn aad_is_version_then_login_id() {
    assert_eq!(aad("ab"), vec![1u8, b'a', b'b']);
    assert_eq!(aad(""), vec![1u8]);
}

#[test]
fn sealing_with_a_given_nonce_is_deterministic_and_laid_out() {
    let key = LoginStateKey::derive(b"setup bytes");
    let nonce = [7u8; 24];
    let a = seal_with_nonce(&key, "login-1", b"state", 1_000, NOW, &nonce).unwrap();
    let b = seal_with_nonce(&key, "login-1", b"state", 1_000, NOW, &nonce).unwrap();
    assert_eq!(a, b);
    let raw = BASE64_STANDARD.decode(&a).unwrap();
    assert_eq!(raw.len(), 1 + 24 + 8 + 5 + 16);
    assert_eq!(raw[0], 1);
    assert_eq!(&raw[1..25], &nonce[..]);
    let c = seal_with_nonce(&key, "login-1", b"state", 1_000, NOW, &[8u8; 24]).unwrap();
    assert_ne!(a, c);
    assert_eq!(open(&key, "login-1", &a, NOW + 999).unwrap(), b"state".to_vec());
    assert!(matches!(open(&key, "login-1", &a, NOW + 1_000), Err(TesseraError::UnknownLogin)));
}

#[test]
fn an_empty_state_is_sealed_but_never_opens() {
    let key = LoginStateKey::derive(b"setup bytes");
    let sealed = seal_with_nonce(&key, "login-1", b"", 1_000, NOW, &[0u8; 24]).unwrap();
    assert_eq!(BASE64_STANDARD.decode(&sealed).unwrap().len(), 1 + 24 + 8 + 16);
    assert!(matches!(open(&key, "login-1", &sealed, NOW), Err(TesseraError::UnknownLogin)));
}

#[test]
fn a_sealing_without_a_full_header_does_not_open() {
    let key = LoginStateKey::derive(b"setup bytes");
    let short = BASE64_STANDARD.encode([1u8; 25]);
    assert!(matches!(open(&key, "login-1", &short, NOW), Err(TesseraError::UnknownLogin)));
}
