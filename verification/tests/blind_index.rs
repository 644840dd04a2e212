use opaque_ke::argon2::{Algorithm, Argon2, Params, Version};
use tessera::blind_index::{blind_index_bytes, normalize_email};

#[test]
fn normalization_is_trim_then_lower() {
    assert_eq!(normalize_email("  User@Example.COM \t"), "user@example.com");
}

#[test]
fn normalization_trims_unicode_white_space() {
    assert_eq!(normalize_email("\u{3000}\u{a0}A@B.C\u{2029}\n"), "a@b.c");
    assert_eq!(normalize_email(" \t "), "");
}

#[test]
fn output_is_32_bytes_and_deterministic() {
    let a = blind_index_bytes("user@example.com").unwrap();
    let b = blind_index_bytes(" USER@example.com ").unwrap();
    assert_eq!(a, b);
    assert_eq!(a.len(), 32);
}

#[test]
fn blind_index_is_argon2id_of_the_normalized_email() {
    let params = Params::new(65_536, 3, 1, Some(32)).unwrap();
    let argon2 = Argon2::new(Algorithm::Argon2id, Version::V0x13, params);
    let mut expected = [0u8; 32];
    argon2
        .hash_password_into(b"a@b.example", b"tessera/blind-index/v1", &mut expected)
        .unwrap();
    assert_eq!(blind_index_bytes("  A@B.Example\n").unwrap(), expected);
    assert_ne!(expected, [0u8; 32]);
}
