//! Deterministic, privacy-preserving account lookup key: Argon2id over the
//! normalized email with a fixed, public, versioned salt. The normalization,
//! the Argon2id parameters, the salt and the output length are a
//! cross-language parity contract.

use vstd::prelude::*;
use crate::crypto::{argon2id_hash_into, argon2id_v13};
use vstd::string::StringSliceAdditionalSpecFns;

verus! {

/// Unicode `White_Space` (PropList.txt), which is what `char::is_whitespace`
/// and `str::trim` test.
pub open spec fn is_white_space(c: char) -> bool {
    ||| '\u{9}' <= c <= '\u{d}'
    ||| c == ' '
    ||| c == '\u{85}'
    ||| c == '\u{a0}'
    ||| c == '\u{1680}'
    ||| '\u{2000}' <= c <= '\u{200a}'
    ||| c == '\u{2028}'
    ||| c == '\u{2029}'
    ||| c == '\u{202f}'
    ||| c == '\u{205f}'
    ||| c == '\u{3000}'
}

/// `s` without its leading white space.
pub open spec fn trim_start_ws(s: Seq<char>) -> Seq<char>
    decreases s.len(),
{
    if s.len() > 0 && is_white_space(s[0]) {
        trim_start_ws(s.drop_first())
    } else {
        s
    }
}

/// `s` without its trailing white space.
pub open spec fn trim_end_ws(s: Seq<char>) -> Seq<char>
    decreases s.len(),
{
    if s.len() > 0 && is_white_space(s.last()) {
        trim_end_ws(s.drop_last())
    } else {
        s
    }
}

/// `s` without leading and trailing white space.
pub open spec fn trim_ws(s: Seq<char>) -> Seq<char> {
    trim_end_ws(trim_start_ws(s))
}

/// The lowercase equivalent of a string, by the Unicode `Lowercase` mapping
/// (some characters map to several).
pub uninterp spec fn unicode_lowercase(s: Seq<char>) -> Seq<char>;

/// `str::trim`. The claim, from its documentation: leading and trailing
/// characters with the Unicode `White_Space` property are removed.
#[verifier::external_body]
fn str_trim(s: &str) -> (r: &str)
    ensures
        r@ == trim_ws(s@),
{
    s.trim()
}

/// `str::to_lowercase`. The claim: the result is a function of the
/// characters alone.
#[verifier::external_body]
fn str_to_lowercase(s: &str) -> (r: String)
    ensures
        r@ == unicode_lowercase(s@),
{
    s.to_lowercase()
}

/// The normalization of an email address: trim, then lowercase.
pub open spec fn spec_normalize_email(email: Seq<char>) -> Seq<char> {
    unicode_lowercase(trim_ws(email))
}

/// Normalize: trim white space, THEN lowercase (the order is part of the
/// parity contract; no NFC and no IDNA in v1).
pub fn normalize_email(email: &str) -> (r: String)
    ensures
        r@ == spec_normalize_email(email@),
{
    str_to_lowercase(str_trim(email))
}

/// The fixed, non-secret, versioned domain-separation salt. Changing it breaks
/// cross-language parity.
pub open spec fn blind_index_salt() -> Seq<char> {
    "tessera/blind-index/v1"@
}

/// Argon2id memory cost of the blind index, in KiB (64 MiB).
pub const BLIND_INDEX_M_COST: u32 = 65_536;
/// Argon2id passes of the blind index.
pub const BLIND_INDEX_T_COST: u32 = 3;
/// Argon2id lanes of the blind index (single-lane, as browser Argon2 is).
pub const BLIND_INDEX_P_COST: u32 = 1;
/// Length of a blind index in bytes.
pub const BLIND_INDEX_LEN: usize = 32;

/// Why a blind index could not be computed.
#[derive(Clone, Copy, Debug, PartialEq, Eq, Structural)]
pub enum BlindIndexError {
    /// The normalized email is longer than Argon2 accepts (2^32 - 1 bytes).
    EmailTooLong,
}

/// The blind index of an email: Argon2id (v0x13, t = 3, m = 64 MiB, p = 1) over
/// the UTF-8 bytes of the normalized email, salted with the blind-index salt,
/// 32 bytes long.
pub open spec fn spec_blind_index(email: Seq<char>) -> Seq<u8> {
    argon2id_v13(
        BLIND_INDEX_M_COST,
        BLIND_INDEX_T_COST,
        BLIND_INDEX_P_COST,
        vstd::utf8::encode_utf8(spec_normalize_email(email)),
        vstd::utf8::encode_utf8(blind_index_salt()),
        32,
    )
}

/// Parity: the blind index depends on an email only through its
/// normalization, so addresses that differ in surrounding white space or in
/// letter case have the same index.
pub proof fn lemma_blind_index_of_normalized(a: Seq<char>, b: Seq<char>)
    requires
        spec_normalize_email(a) == spec_normalize_email(b),
    ensures
        spec_blind_index(a) == spec_blind_index(b),
{
}

/// Argon2id(V0x13, t = 3, m = 64 MiB, p = 1) over the normalized email, into
/// 32 bytes. Fails only for a normalized email longer than 2^32 - 1 bytes.
pub fn blind_index_bytes(email: &str) -> (r: Result<[u8; 32], BlindIndexError>)
    ensures
        r is Ok <==> vstd::utf8::encode_utf8(spec_normalize_email(email@)).len() <= 0xFFFF_FFFF,
        r is Ok ==> r->Ok_0@ == spec_blind_index(email@),
{
    let norm = normalize_email(email);
    let salt = "tessera/blind-index/v1";
    proof {
        reveal_strlit("tessera/blind-index/v1");
        vstd::string::is_ascii_spec_bytes(salt);
        assert(salt.spec_bytes().len() == 22);
    }
    let mut out = [0u8; 32];
    let res = argon2id_hash_into(
        BLIND_INDEX_M_COST,
        BLIND_INDEX_T_COST,
        BLIND_INDEX_P_COST,
        Some(BLIND_INDEX_LEN),
        norm.as_str().as_bytes(),
        salt.as_bytes(),
        &mut out,
    );
    match res {
        Ok(()) => Ok(out),
        Err(_) => Err(BlindIndexError::EmailTooLong),
    }
}

} // verus!
