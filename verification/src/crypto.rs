//! The cryptographic primitives Tessera composes, each behind one trusted
//! item: key derivation (HKDF-SHA-512, Argon2id), authenticated encryption
//! (XChaCha20-Poly1305), the operating system's random source, and zeroing.

use vstd::prelude::*;
use chacha20poly1305::aead::{Aead, KeyInit, Payload};
use rand::RngCore;
use zeroize::Zeroize;

verus! {

/// Argon2id memory cost of the client-side OPAQUE key-stretching function,
/// in KiB (64 MiB). Baked into every registration envelope: a parity contract.
pub const OPAQUE_KSF_M_COST: u32 = 65_536;
/// Argon2id passes of the OPAQUE key-stretching function.
pub const OPAQUE_KSF_T_COST: u32 = 3;
/// Argon2id lanes of the OPAQUE key-stretching function (single-lane, as
/// browser Argon2 is).
pub const OPAQUE_KSF_P_COST: u32 = 1;

/// HKDF-SHA-512 (RFC 5869): extract with `salt` over `ikm`, then expand with
/// `info` to `len` bytes.
pub uninterp spec fn hkdf_sha512(salt: Seq<u8>, ikm: Seq<u8>, info: Seq<u8>, len: nat) -> Seq<u8>;

/// The XChaCha20-Poly1305 sealing of `msg` under `key`, `nonce` and
/// associated data `aad`: the ciphertext followed by the 16-byte tag.
pub uninterp spec fn xchacha_seal(key: Seq<u8>, nonce: Seq<u8>, msg: Seq<u8>, aad: Seq<u8>) -> Seq<u8>;

/// Argon2id, version 0x13, with memory `m_cost` KiB, `t_cost` passes and
/// `p_cost` lanes, no secret and no associated data, over `pwd` and `salt`,
/// producing `len` bytes.
pub uninterp spec fn argon2id_v13(m_cost: u32, t_cost: u32, p_cost: u32, pwd: Seq<u8>, salt: Seq<u8>, len: nat) -> Seq<u8>;

/// The largest output HKDF-SHA-512 can expand to: 255 blocks of 64 bytes.
pub open spec fn hkdf_sha512_max_len() -> nat {
    255 * 64
}

/// The message lengths ChaCha20's 32-bit block counter can cover.
pub open spec fn chacha_len_ok(len: nat) -> bool {
    len / 64 < 0xFFFF_FFFF
}

#[verifier::external_type_specification]
#[verifier::external_body]
pub struct ExInvalidLength(hkdf::InvalidLength);

#[verifier::external_type_specification]
#[verifier::external_body]
pub struct ExAeadError(chacha20poly1305::aead::Error);

#[verifier::external_type_specification]
#[verifier::external_body]
pub struct ExArgon2Error(opaque_ke::argon2::Error);

/// `hkdf::Hkdf::<sha2::Sha512>::new(Some(salt), ikm)` followed by
/// `Hkdf::expand(info, okm)`. The claim, from the crate's source: it fails,
/// leaving `okm` as it was, exactly when `okm` is longer than 255 hash blocks;
/// otherwise `okm` holds the HKDF output of its length.
#[verifier::external_body]
pub(crate) fn hkdf_sha512_expand(salt: &[u8], ikm: &[u8], info: &[u8], okm: &mut [u8]) -> (r: Result<(), hkdf::InvalidLength>)
    ensures
        r is Ok <==> old(okm)@.len() <= hkdf_sha512_max_len(),
        r is Ok ==> final(okm)@ == hkdf_sha512(salt@, ikm@, info@, old(okm)@.len()),
        r is Err ==> final(okm)@ == old(okm)@,
{
    hkdf::Hkdf::<sha2::Sha512>::new(Some(salt), ikm).expand(info, okm)
}

/// `chacha20poly1305::XChaCha20Poly1305::new(key)` followed by
/// `Aead::encrypt(nonce, Payload { msg, aad })`. The claim, from the crate's
/// source: it fails exactly when the message is too long for the 32-bit block
/// counter; otherwise it returns the sealing, 16 bytes longer than the message.
#[verifier::external_body]
pub(crate) fn xchacha_encrypt(key: &[u8; 32], nonce: &[u8; 24], msg: &[u8], aad: &[u8]) -> (r: Result<Vec<u8>, chacha20poly1305::aead::Error>)
    ensures
        r is Ok <==> chacha_len_ok(msg@.len()),
        r is Ok ==> r->Ok_0@ == xchacha_seal(key@, nonce@, msg@, aad@),
        r is Ok ==> r->Ok_0@.len() == msg@.len() + 16,
{
    chacha20poly1305::XChaCha20Poly1305::new(chacha20poly1305::Key::from_slice(key))
        .encrypt(chacha20poly1305::XNonce::from_slice(nonce), Payload { msg, aad })
}

/// `chacha20poly1305::XChaCha20Poly1305::new(key)` followed by
/// `Aead::decrypt(nonce, Payload { msg: ciphertext, aad })`. The claim, from
/// the construction: decryption succeeds with `p` exactly when the ciphertext
/// is the sealing of `p` under the same key, nonce and associated data (the
/// keystream is a function of key and nonce, and the tag of the ciphertext is
/// checked before anything is returned). From the crate's source: the last
/// 16 bytes are the tag, so a plaintext that comes back is 16 bytes shorter
/// than the ciphertext, and one too long for the 32-bit block counter is
/// refused.
#[verifier::external_body]
pub(crate) fn xchacha_decrypt(key: &[u8; 32], nonce: &[u8; 24], ciphertext: &[u8], aad: &[u8]) -> (r: Result<Vec<u8>, chacha20poly1305::aead::Error>)
    ensures
        r is Ok ==> ciphertext@ == xchacha_seal(key@, nonce@, r->Ok_0@, aad@),
        r is Ok ==> ciphertext@.len() == r->Ok_0@.len() + 16,
        r is Ok ==> chacha_len_ok(r->Ok_0@.len()),
        forall|p: Seq<u8>|
            #[trigger] xchacha_seal(key@, nonce@, p, aad@) == ciphertext@ && chacha_len_ok(p.len())
                ==> (r is Ok && r->Ok_0@ == p),
{
    chacha20poly1305::XChaCha20Poly1305::new(chacha20poly1305::Key::from_slice(key))
        .decrypt(chacha20poly1305::XNonce::from_slice(nonce), Payload { msg: ciphertext, aad })
}

/// `opaque_ke::argon2::Params::new(m_cost, t_cost, p_cost, output_len)`, then
/// `Argon2::new(Algorithm::Argon2id, Version::V0x13, params)`, then
/// `Argon2::hash_password_into(pwd, salt, out)`. The claim, from the crate's
/// source: it fails, writing nothing, exactly when the parameters are out of
/// range, the output length disagrees with `output_len` (or is outside 4 to
/// 2^32 - 1 bytes), the password is longer than 2^32 - 1 bytes, or the salt is
/// not 8 to 2^32 - 1 bytes long; otherwise `out` holds the Argon2id hash.
#[verifier::external_body]
pub(crate) fn argon2id_hash_into(
    m_cost: u32,
    t_cost: u32,
    p_cost: u32,
    output_len: Option<usize>,
    pwd: &[u8],
    salt: &[u8],
    out: &mut [u8],
) -> (r: Result<(), opaque_ke::argon2::Error>)
    requires
        p_cost * 8 <= u32::MAX,
    ensures
        r is Ok <==> argon2_accepts(m_cost, t_cost, p_cost, output_len, pwd@.len(), salt@.len(), old(out)@.len()),
        r is Ok ==> final(out)@ == argon2id_v13(m_cost, t_cost, p_cost, pwd@, salt@, old(out)@.len()),
        r is Err ==> final(out)@ == old(out)@,
{
    let params = opaque_ke::argon2::Params::new(m_cost, t_cost, p_cost, output_len)?;
    opaque_ke::argon2::Argon2::new(opaque_ke::argon2::Algorithm::Argon2id, opaque_ke::argon2::Version::V0x13, params)
        .hash_password_into(pwd, salt, out)
}

/// When Argon2 accepts its parameters and inputs.
pub open spec fn argon2_accepts(
    m_cost: u32,
    t_cost: u32,
    p_cost: u32,
    output_len: Option<usize>,
    pwd_len: nat,
    salt_len: nat,
    out_len: nat,
) -> bool {
    &&& m_cost >= 8
    &&& m_cost >= p_cost * 8
    &&& t_cost >= 1
    &&& 1 <= p_cost <= 0xFF_FFFF
    &&& match output_len {
        Some(l) => 4 <= l <= 0xFFFF_FFFF && out_len == l,
        None => 4 <= out_len <= 0xFFFF_FFFF,
    }
    &&& pwd_len <= 0xFFFF_FFFF
    &&& 8 <= salt_len <= 0xFFFF_FFFF
}

/// `rand::rngs::OsRng` filling `n` bytes (`RngCore::try_fill_bytes`). The
/// claim: when the operating system's random source answers, `n` bytes come
/// back; when it fails, nothing does. What the bytes are is the operating
/// system's chance, and whether the source fails depends on no argument, so
/// nothing more is said.
#[verifier::external_body]
pub(crate) fn os_random_bytes(n: usize) -> (r: Option<Vec<u8>>)
    ensures
        r is Some ==> r->Some_0@.len() == n,
{
    let mut v = vec![0u8; n];
    match rand::rngs::OsRng.try_fill_bytes(&mut v) {
        Ok(()) => Some(v),
        Err(_) => None,
    }
}

/// `<Vec<u8> as zeroize::Zeroize>::zeroize`: overwrites every byte (and the
/// spare capacity) with zero, then clears the vector. The claim: the vector
/// is empty afterwards.
#[verifier::external_body]
pub(crate) fn zeroize_vec(v: &mut Vec<u8>)
    ensures
        final(v)@ == Seq::<u8>::empty(),
{
    v.zeroize()
}

/// `<[u8; 32] as zeroize::Zeroize>::zeroize`: overwrites every byte with zero.
#[verifier::external_body]
pub(crate) fn zeroize_key(k: &mut [u8; 32])
    ensures
        final(k)@ == Seq::new(32, |i: int| 0u8),
    opens_invariants none
    no_unwind
{
    k.zeroize()
}

} // verus!
