use openclaw_manager::token::{generate_secure_token, to_hex, TOKEN_BYTES};
use std::collections::hash_map::RandomState;
use std::hash::{BuildHasher, Hasher};

/// Bytes from freshly seeded hashers: different on every call.
fn random_bytes(n: usize) -> Vec<u8> {
    let mut out = Vec::new();
    while out.len() < n {
        let mut h = RandomState::new().build_hasher();
        h.write_usize(out.len());
        out.extend_from_slice(&h.finish().to_le_bytes());
    }
    out.truncate(n);
    out
}

fn new_token() -> Result<String, String> {
    generate_secure_token(Ok(random_bytes(TOKEN_BYTES)))
}

#[test]
fn generate_secure_token_returns_ocm_prefixed_32_byte_hex_token() {
    let token = new_token().expect("token should be generated");

    assert!(token.starts_with("ocm-"));
    assert_eq!(token.len(), 68);
    assert!(token[4..].chars().all(|c| c.is_ascii_hexdigit()));
}

#[test]
fn generate_secure_token_returns_different_values() {
    let first = new_token().expect("first token");
    let second = new_token().expect("second token");

    assert_ne!(first, second);
}

#[test]
fn generate_secure_token_passes_on_random_source_errors() {
    assert_eq!(
        generate_secure_token(Err("no random source".to_string())),
        Err("no random source".to_string())
    );
}

#[test]
fn to_hex_writes_two_lower_case_digits_per_byte() {
    assert_eq!(to_hex(&[0x00, 0x0f, 0xa0, 0xff, 0x7b]), "000fa0ff7b");
    assert_eq!(to_hex(&[]), "");
}

#[test]
fn generate_secure_token_from_known_bytes() {
    assert_eq!(
        generate_secure_token(Ok(vec![0xde, 0xad, 0xbe, 0xef])),
        Ok("ocm-deadbeef".to_string())
    );
}
