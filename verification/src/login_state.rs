//! Sealed login state: lets the server finish an OPAQUE login on a different
//! process than the one that started it, without ever storing the state in
//! readable form.
//!
//! ```text
//! key        = HKDF-SHA512(ikm = ServerSetup bytes,
//!                          salt = "tessera-login-state-salt-v1",
//!                          info = "tessera:login-state:v1:xchacha20poly1305")
//! plaintext  = expires_at_ms (8 bytes, big-endian) || serialized server login state
//! aad        = version byte || login_id
//! sealed     = version byte || nonce (24 bytes) || XChaCha20-Poly1305(key, nonce, plaintext, aad)
//! ```
//!
//! The key is derived, not stored; the expiry is inside the ciphertext, so it
//! is authenticated; the login id is authenticated as associated data, so a
//! blob sealed for one login cannot be replayed against another; and every
//! failure to open is the same [`TesseraError::UnknownLogin`], so no failure
//! mode is an oracle.

use vstd::prelude::*;
use vstd::slice::{slice_subrange, slice_to_vec};
use crate::crypto::{
    chacha_len_ok, hkdf_sha512, hkdf_sha512_expand, os_random_bytes, xchacha_decrypt,
    xchacha_encrypt, xchacha_seal, zeroize_key, zeroize_vec,
};
use crate::encoding::{
    b64_encode, be_bytes, be_decode, be_encode, decode_base64, encode_base64,
    lemma_b64_injective, lemma_be_bytes_len, lemma_be_roundtrip, lemma_be_value_roundtrip, be_value, pow256,
};
use crate::error::TesseraError;

verus! {

/// Wire-format version of a sealed state. It is authenticated as associated
/// data, so a downgrade attempt fails the tag check.
pub const SEAL_VERSION: u8 = 1;

/// Length of the random XChaCha20 nonce.
pub const NONCE_LEN: usize = 24;

/// Length of the big-endian expiry that precedes the state.
pub const EXPIRY_LEN: usize = 8;

/// The HKDF salt of the sealing key.
pub open spec fn hkdf_salt() -> Seq<u8> {
    vstd::utf8::encode_utf8("tessera-login-state-salt-v1"@)
}

/// The HKDF info string of the sealing key: domain separation from every
/// other use of the setup bytes.
pub open spec fn hkdf_info() -> Seq<u8> {
    vstd::utf8::encode_utf8("tessera:login-state:v1:xchacha20poly1305"@)
}

/// The sealing key derived from serialized server-setup bytes.
pub open spec fn spec_derive_key(setup: Seq<u8>) -> Seq<u8> {
    hkdf_sha512(hkdf_salt(), setup, hkdf_info(), 32)
}

/// A sealing key derived from the server setup. It zeroes itself on drop.
pub struct LoginStateKey([u8; 32]);

impl Drop for LoginStateKey {
    fn drop(&mut self)
        opens_invariants none
        no_unwind
    {
        zeroize_key(&mut self.0);
    }
}

impl LoginStateKey {
    /// The key's bytes.
    pub closed spec fn key(&self) -> Seq<u8> {
        self.0@
    }

    /// Derive the sealing key from serialized `ServerSetup` bytes. Every
    /// process given the same setup derives the same key, which is exactly
    /// what lets one replica finish another's login.
    pub fn derive(server_setup_bytes: &[u8]) -> (r: LoginStateKey)
        ensures
            r.key() == spec_derive_key(server_setup_bytes@),
    {
        let salt = "tessera-login-state-salt-v1";
        let info = "tessera:login-state:v1:xchacha20poly1305";
        let mut okm = [0u8; 32];
        let res = hkdf_sha512_expand(salt.as_bytes(), server_setup_bytes, info.as_bytes(), &mut okm);
        assert(res is Ok);
        LoginStateKey(okm)
    }

    /// The key's bytes, for comparing keys.
    pub fn key_bytes(&self) -> (r: &[u8; 32])
        ensures
            r@ == self.key(),
    {
        &self.0
    }
}

/// The associated data of a sealed state: the version, then the login id.
pub open spec fn spec_aad(login_id: Seq<char>) -> Seq<u8> {
    seq![SEAL_VERSION] + vstd::utf8::encode_utf8(login_id)
}

/// Additional authenticated data: the version and the login id this state
/// belongs to.
pub fn aad(login_id: &str) -> (r: Vec<u8>)
    ensures
        r@ == spec_aad(login_id@),
{
    let mut v: Vec<u8> = Vec::new();
    v.push(SEAL_VERSION);
    v.extend_from_slice(login_id.as_bytes());
    assert(v@ =~= spec_aad(login_id@));
    v
}

/// The sealed bytes of `state` for `login_id` under `key`, expiring at
/// `expires_at_ms`, with `nonce`.
pub open spec fn sealed_bytes(
    key: Seq<u8>,
    login_id: Seq<char>,
    state: Seq<u8>,
    expires_at_ms: u64,
    nonce: Seq<u8>,
) -> Seq<u8> {
    seq![SEAL_VERSION] + nonce + xchacha_seal(
        key,
        nonce,
        be_bytes(expires_at_ms as nat, 8) + state,
        spec_aad(login_id),
    )
}

/// The base64 text of a sealed state.
pub open spec fn sealed_text(
    key: Seq<u8>,
    login_id: Seq<char>,
    state: Seq<u8>,
    expires_at_ms: u64,
    nonce: Seq<u8>,
) -> Seq<char> {
    b64_encode(sealed_bytes(key, login_id, state, expires_at_ms, nonce))
}

/// The message of the one error sealing can end in.
pub open spec fn seal_failure() -> Seq<char> {
    "sealing login state failed"@
}

/// Seal a serialized in-flight server login state so it can be handed to an
/// untrusted store and returned later. `now_ms` is the current unix time in
/// milliseconds; the state becomes unopenable `ttl_ms` after it (the expiry
/// saturates at `u64::MAX`). The nonce is fresh randomness; when the
/// operating system's random source fails, sealing ends in an internal error,
/// and otherwise it is [`seal_with_nonce`] with the nonce drawn.
pub fn seal(key: &LoginStateKey, login_id: &str, state: &[u8], ttl_ms: u64, now_ms: u64) -> (r: Result<String, TesseraError>)
    ensures
        r is Ok ==> chacha_len_ok(8 + state@.len()),
        r is Ok ==> exists|nonce: Seq<u8>|
            well_sealed(key.key(), login_id@, state@, now_ms.saturating_add(ttl_ms), nonce) && r->Ok_0@
                == #[trigger] sealed_text(
                key.key(),
                login_id@,
                state@,
                now_ms.saturating_add(ttl_ms),
                nonce,
            ),
        r is Err ==> (r->Err_0 matches TesseraError::Internal(m) && m@ == seal_failure()),
{
    let nonce_vec = match os_random_bytes(NONCE_LEN) {
        Some(v) => v,
        None => {
            return Err(TesseraError::Internal(String::from_str("sealing login state failed")));
        },
    };
    let nonce: [u8; 24] = [
        nonce_vec[0], nonce_vec[1], nonce_vec[2], nonce_vec[3], nonce_vec[4], nonce_vec[5],
        nonce_vec[6], nonce_vec[7], nonce_vec[8], nonce_vec[9], nonce_vec[10], nonce_vec[11],
        nonce_vec[12], nonce_vec[13], nonce_vec[14], nonce_vec[15], nonce_vec[16], nonce_vec[17],
        nonce_vec[18], nonce_vec[19], nonce_vec[20], nonce_vec[21], nonce_vec[22], nonce_vec[23],
    ];
    seal_with_nonce(key, login_id, state, ttl_ms, now_ms, &nonce)
}

/// Seal a serialized server login state as [`seal`] does, with the given
/// nonce: version, nonce, then the XChaCha20-Poly1305 sealing of the
/// big-endian expiry followed by the state, authenticated with the version
/// and login id. It fails, with an internal error, exactly when the
/// plaintext is too long for the cipher.
pub fn seal_with_nonce(
    key: &LoginStateKey,
    login_id: &str,
    state: &[u8],
    ttl_ms: u64,
    now_ms: u64,
    nonce: &[u8; 24],
) -> (r: Result<String, TesseraError>)
    ensures
        r is Ok <==> chacha_len_ok(8 + state@.len()),
        r is Ok ==> r->Ok_0@ == sealed_text(key.key(), login_id@, state@, now_ms.saturating_add(ttl_ms), nonce@),
        r is Ok ==> well_sealed(key.key(), login_id@, state@, now_ms.saturating_add(ttl_ms), nonce@),
        r is Err ==> (r->Err_0 matches TesseraError::Internal(m) && m@ == seal_failure()),
{
    let expires_at_ms = now_ms.saturating_add(ttl_ms);
    let mut plaintext = be_encode(expires_at_ms, EXPIRY_LEN);
    plaintext.extend_from_slice(state);
    assert(plaintext@ =~= be_bytes(expires_at_ms as nat, 8) + state@);
    proof { lemma_be_bytes_len(expires_at_ms as nat, 8); }

    let aad_bytes = aad(login_id);
    let ciphertext = xchacha_encrypt(&key.0, nonce, plaintext.as_slice(), aad_bytes.as_slice());

    // The plaintext holds the server's ephemeral key-exchange state: zero it
    // whether or not sealing succeeded.
    zeroize_vec(&mut plaintext);

    let ciphertext = match ciphertext {
        Ok(c) => c,
        Err(_) => {
            return Err(TesseraError::Internal(String::from_str("sealing login state failed")));
        },
    };

    let mut out: Vec<u8> = Vec::new();
    out.push(SEAL_VERSION);
    out.extend_from_slice(nonce);
    out.extend_from_slice(ciphertext.as_slice());
    assert(out@ =~= sealed_bytes(key.key(), login_id@, state@, expires_at_ms, nonce@));
    let text = encode_base64(out.as_slice());
    Ok(text)
}

/// `nonce` is a nonce, and the sealing of `state` under it has the length
/// XChaCha20-Poly1305 gives it: the plaintext's plus a 16-byte tag.
pub open spec fn well_sealed(
    key: Seq<u8>,
    login_id: Seq<char>,
    state: Seq<u8>,
    expires_at_ms: u64,
    nonce: Seq<u8>,
) -> bool {
    &&& nonce.len() == NONCE_LEN
    &&& xchacha_seal(key, nonce, be_bytes(expires_at_ms as nat, 8) + state, spec_aad(login_id)).len()
        == 8 + state.len() + 16
}

/// A sealed text that opens at `now_ms` to `state`: it is the sealing of
/// `state` under this key and login id, with an expiry after `now_ms`.
pub open spec fn opens_to(
    key: Seq<u8>,
    login_id: Seq<char>,
    text: Seq<char>,
    now_ms: u64,
    state: Seq<u8>,
) -> bool {
    exists|expires_at_ms: u64, nonce: Seq<u8>|
        nonce.len() == NONCE_LEN && now_ms < expires_at_ms && text == #[trigger] sealed_text(
            key,
            login_id,
            state,
            expires_at_ms,
            nonce,
        )
}

/// The conditions under which a sealed text must open at `now_ms` to `state`.
pub open spec fn must_open(
    key: Seq<u8>,
    login_id: Seq<char>,
    text: Seq<char>,
    now_ms: u64,
    state: Seq<u8>,
    expires_at_ms: u64,
    nonce: Seq<u8>,
) -> bool {
    &&& well_sealed(key, login_id, state, expires_at_ms, nonce)
    &&& now_ms < expires_at_ms
    &&& state.len() > 0
    &&& chacha_len_ok(8 + state.len())
    &&& text == sealed_text(key, login_id, state, expires_at_ms, nonce)
}

/// The conditions under which a sealed text must not open at `now_ms`: it is
/// the sealing of a state whose expiry has passed.
pub open spec fn expired_at(
    key: Seq<u8>,
    login_id: Seq<char>,
    text: Seq<char>,
    now_ms: u64,
    state: Seq<u8>,
    expires_at_ms: u64,
    nonce: Seq<u8>,
) -> bool {
    &&& well_sealed(key, login_id, state, expires_at_ms, nonce)
    &&& expires_at_ms <= now_ms
    &&& chacha_len_ok(8 + state.len())
    &&& text == sealed_text(key, login_id, state, expires_at_ms, nonce)
}

/// The sealed bytes `raw` carry `plaintext` under `key` for `login_id`:
/// they are longer than a version byte and a nonce, the version byte is
/// current, and what follows the nonce is the XChaCha20-Poly1305 sealing of
/// `plaintext` under that nonce, authenticated with the version and login id.
pub open spec fn raw_carries(key: Seq<u8>, login_id: Seq<char>, raw: Seq<u8>, plaintext: Seq<u8>) -> bool {
    &&& raw.len() > 1 + NONCE_LEN
    &&& raw[0] == SEAL_VERSION
    &&& xchacha_seal(key, raw.subrange(1, 25), plaintext, spec_aad(login_id)) == raw.subrange(
        25,
        raw.len() as int,
    )
    &&& chacha_len_ok(plaintext.len())
}

/// The sealed text `text` carries `plaintext`: it is the standard base64 of
/// sealed bytes that carry it.
pub open spec fn carries(key: Seq<u8>, login_id: Seq<char>, text: Seq<char>, plaintext: Seq<u8>) -> bool {
    exists|raw: Seq<u8>| #[trigger] b64_encode(raw) == text && raw_carries(key, login_id, raw, plaintext)
}

/// A text carries a plaintext only through the bytes it decodes to.
proof fn lemma_carried_by(key: Seq<u8>, login_id: Seq<char>, text: Seq<char>, raw: Seq<u8>, plaintext: Seq<u8>)
    requires
        b64_encode(raw) == text,
        carries(key, login_id, text, plaintext),
    ensures
        raw_carries(key, login_id, raw, plaintext),
{
    let other = choose|other: Seq<u8>|
        #[trigger] b64_encode(other) == text && raw_carries(key, login_id, other, plaintext);
    lemma_b64_injective(raw, other);
}

/// `plaintext` holds a state, after its expiry, and the expiry is after
/// `now_ms`.
pub open spec fn unexpired(plaintext: Seq<u8>, now_ms: u64) -> bool {
    plaintext.len() > EXPIRY_LEN && now_ms < be_value(plaintext.subrange(0, 8))
}

/// When [`open`] succeeds: the text carries a plaintext that holds a state
/// whose expiry is after `now_ms`.
pub open spec fn open_accepts(key: Seq<u8>, login_id: Seq<char>, text: Seq<char>, now_ms: u64) -> bool {
    exists|plaintext: Seq<u8>| #[trigger] carries(key, login_id, text, plaintext) && unexpired(plaintext, now_ms)
}

/// The layout of sealed bytes: version, nonce, then the ciphertext.
proof fn lemma_sealed_layout(key: Seq<u8>, login_id: Seq<char>, state: Seq<u8>, e: u64, nonce: Seq<u8>)
    requires
        well_sealed(key, login_id, state, e, nonce),
    ensures
        ({
            let blob = sealed_bytes(key, login_id, state, e, nonce);
            &&& blob.len() > 1 + NONCE_LEN
            &&& blob[0] == SEAL_VERSION
            &&& blob.subrange(1, 25) == nonce
            &&& blob.subrange(25, blob.len() as int) == xchacha_seal(
                key,
                nonce,
                be_bytes(e as nat, 8) + state,
                spec_aad(login_id),
            )
        }),
{
    let blob = sealed_bytes(key, login_id, state, e, nonce);
    assert(blob.subrange(1, 25) =~= nonce);
    assert(blob.subrange(25, blob.len() as int) =~= xchacha_seal(
        key,
        nonce,
        be_bytes(e as nat, 8) + state,
        spec_aad(login_id),
    ));
}

/// Open a sealed server login state, giving back the serialized state.
/// Returns [`TesseraError::UnknownLogin`] for anything unusable (wrong key,
/// tampered bytes, wrong login id, or expired), deliberately without
/// distinguishing which.
pub fn open(key: &LoginStateKey, login_id: &str, sealed_b64: &str, now_ms: u64) -> (r: Result<Vec<u8>, TesseraError>)
    ensures
        r is Ok <==> open_accepts(key.key(), login_id@, sealed_b64@, now_ms),
        r is Ok ==> exists|plaintext: Seq<u8>|
            #[trigger] carries(key.key(), login_id@, sealed_b64@, plaintext) && unexpired(plaintext, now_ms)
                && r->Ok_0@ == plaintext.subrange(8, plaintext.len() as int),
        r is Err ==> r->Err_0 is UnknownLogin,
        r is Ok ==> r->Ok_0@.len() > 0 && opens_to(key.key(), login_id@, sealed_b64@, now_ms, r->Ok_0@),
        forall|expires_at_ms: u64, nonce: Seq<u8>, state: Seq<u8>|
            #[trigger] must_open(key.key(), login_id@, sealed_b64@, now_ms, state, expires_at_ms, nonce)
                ==> (r is Ok && r->Ok_0@ == state),
        forall|expires_at_ms: u64, nonce: Seq<u8>, state: Seq<u8>|
            #[trigger] expired_at(key.key(), login_id@, sealed_b64@, now_ms, state, expires_at_ms, nonce)
                ==> r is Err,
{
    let raw = match decode_base64(sealed_b64) {
        Ok(v) => v,
        Err(_) => {
            proof {
                assert forall|e: u64, n: Seq<u8>, s: Seq<u8>|
                    #[trigger] must_open(key.key(), login_id@, sealed_b64@, now_ms, s, e, n) implies false by {
                    assert(b64_encode(sealed_bytes(key.key(), login_id@, s, e, n)) == sealed_b64@);
                }
                assert forall|p: Seq<u8>| #[trigger] carries(key.key(), login_id@, sealed_b64@, p) implies false by {
                    let other = choose|other: Seq<u8>|
                        #[trigger] b64_encode(other) == sealed_b64@ && raw_carries(key.key(), login_id@, other, p);
                    assert(b64_encode(other) == sealed_b64@);
                }
            }
            return Err(TesseraError::UnknownLogin);
        },
    };
    if raw.len() <= 1 + NONCE_LEN || raw[0] != SEAL_VERSION {
        proof {
            assert forall|e: u64, n: Seq<u8>, s: Seq<u8>|
                #[trigger] must_open(key.key(), login_id@, sealed_b64@, now_ms, s, e, n) implies false by {
                lemma_sealed_layout(key.key(), login_id@, s, e, n);
                assert(b64_encode(sealed_bytes(key.key(), login_id@, s, e, n)) == sealed_b64@);
            }
            assert forall|p: Seq<u8>| #[trigger] carries(key.key(), login_id@, sealed_b64@, p) implies false by {
                lemma_carried_by(key.key(), login_id@, sealed_b64@, raw@, p);
            }
        }
        return Err(TesseraError::UnknownLogin);
    }
    let nonce: [u8; 24] = [
        raw[1], raw[2], raw[3], raw[4], raw[5], raw[6], raw[7], raw[8], raw[9], raw[10], raw[11],
        raw[12], raw[13], raw[14], raw[15], raw[16], raw[17], raw[18], raw[19], raw[20], raw[21],
        raw[22], raw[23], raw[24],
    ];
    assert(nonce@ =~= raw@.subrange(1, 25));
    let ciphertext = slice_subrange(raw.as_slice(), 1 + NONCE_LEN, raw.len());
    assert(raw@ =~= seq![SEAL_VERSION] + nonce@ + ciphertext@);
    let aad_bytes = aad(login_id);
    let mut plaintext = match xchacha_decrypt(&key.0, &nonce, ciphertext, aad_bytes.as_slice()) {
        Ok(p) => p,
        Err(_) => {
            proof {
                assert forall|e: u64, n: Seq<u8>, s: Seq<u8>|
                    #[trigger] must_open(key.key(), login_id@, sealed_b64@, now_ms, s, e, n) implies false by {
                    lemma_sealed_layout(key.key(), login_id@, s, e, n);
                    assert(b64_encode(sealed_bytes(key.key(), login_id@, s, e, n)) == sealed_b64@);
                    let p = be_bytes(e as nat, 8) + s;
                    reveal_with_fuel(pow256, 9);
                    lemma_be_roundtrip(e as nat, 8);
                    assert(xchacha_seal(key.key(), nonce@, p, aad_bytes@) == ciphertext@);
                }
                assert forall|p: Seq<u8>| #[trigger] carries(key.key(), login_id@, sealed_b64@, p) implies false by {
                    lemma_carried_by(key.key(), login_id@, sealed_b64@, raw@, p);
                    assert(xchacha_seal(key.key(), nonce@, p, aad_bytes@) == ciphertext@);
                }
            }
            return Err(TesseraError::UnknownLogin);
        },
    };
    proof {
        assert forall|p: Seq<u8>| #[trigger] carries(key.key(), login_id@, sealed_b64@, p) implies p == plaintext@ by {
            lemma_carried_by(key.key(), login_id@, sealed_b64@, raw@, p);
            assert(xchacha_seal(key.key(), nonce@, p, aad_bytes@) == ciphertext@);
        }
        assert(raw_carries(key.key(), login_id@, raw@, plaintext@));
        assert(carries(key.key(), login_id@, sealed_b64@, plaintext@));
    }
    let ghost pt = plaintext@;

    let result = if plaintext.len() <= EXPIRY_LEN {
        Err(TesseraError::UnknownLogin)
    } else {
        let expires_at_ms = be_decode(slice_subrange(plaintext.as_slice(), 0, EXPIRY_LEN));
        if now_ms >= expires_at_ms {
            Err(TesseraError::UnknownLogin)
        } else {
            let state = slice_to_vec(slice_subrange(plaintext.as_slice(), EXPIRY_LEN, plaintext.len()));
            proof {
                assert forall|e: u64, n: Seq<u8>, s: Seq<u8>|
                    #[trigger] expired_at(key.key(), login_id@, sealed_b64@, now_ms, s, e, n) implies false by {
                    lemma_sealed_layout(key.key(), login_id@, s, e, n);
                    assert(b64_encode(sealed_bytes(key.key(), login_id@, s, e, n)) == sealed_b64@);
                    let p = be_bytes(e as nat, 8) + s;
                    reveal_with_fuel(pow256, 9);
                    lemma_be_roundtrip(e as nat, 8);
                    assert(xchacha_seal(key.key(), nonce@, p, aad_bytes@) == ciphertext@);
                    assert(pt == p);
                    assert(pt.subrange(0, 8) =~= be_bytes(e as nat, 8));
                }
                let head = pt.subrange(0, 8);
                lemma_be_value_roundtrip(head);
                assert(pt =~= be_bytes(expires_at_ms as nat, 8) + state@);
                assert(sealed_b64@ == sealed_text(key.key(), login_id@, state@, expires_at_ms, nonce@));
            }
            Ok(state)
        }
    };
    zeroize_vec(&mut plaintext);
    proof {
        assert forall|e: u64, n: Seq<u8>, s: Seq<u8>|
            #[trigger] must_open(key.key(), login_id@, sealed_b64@, now_ms, s, e, n)
            implies (result is Ok && result->Ok_0@ == s) by {
            lemma_sealed_layout(key.key(), login_id@, s, e, n);
            assert(b64_encode(sealed_bytes(key.key(), login_id@, s, e, n)) == sealed_b64@);
            let p = be_bytes(e as nat, 8) + s;
            reveal_with_fuel(pow256, 9);
            lemma_be_roundtrip(e as nat, 8);
            assert(xchacha_seal(key.key(), nonce@, p, aad_bytes@) == ciphertext@);
            assert(pt == p);
            assert(p.subrange(0, 8) =~= be_bytes(e as nat, 8));
            assert(p.subrange(8, p.len() as int) =~= s);
        }
    }
    result
}

/// Round trip: a state sealed at `now_ms` with a time-to-live of `ttl_ms`
/// opens, with the same key and login id, to the same state at any time
/// before the expiry `now_ms + ttl_ms` (saturating), and from the expiry on
/// never opens. (The state must not be empty: an empty state is sealed but
/// never opens.) [`open`] states what a text that must open opens to, and
/// that an expired one does not.
pub proof fn lemma_seal_open_roundtrip(
    key: Seq<u8>,
    login_id: Seq<char>,
    state: Seq<u8>,
    ttl_ms: u64,
    now_ms: u64,
    later_ms: u64,
    nonce: Seq<u8>,
)
    requires
        well_sealed(key, login_id, state, now_ms.saturating_add(ttl_ms), nonce),
        state.len() > 0,
        chacha_len_ok(8 + state.len()),
    ensures
        later_ms < now_ms.saturating_add(ttl_ms) ==> must_open(
            key,
            login_id,
            sealed_text(key, login_id, state, now_ms.saturating_add(ttl_ms), nonce),
            later_ms,
            state,
            now_ms.saturating_add(ttl_ms),
            nonce,
        ),
        later_ms >= now_ms.saturating_add(ttl_ms) ==> expired_at(
            key,
            login_id,
            sealed_text(key, login_id, state, now_ms.saturating_add(ttl_ms), nonce),
            later_ms,
            state,
            now_ms.saturating_add(ttl_ms),
            nonce,
        ),
{
}

} // verus!
