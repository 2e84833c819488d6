use daml_ide::ids::{access_token, resource_id, token_from_bytes};
use std::hash::{Hash, Hasher};

#[test]
fn the_same_uri_hashes_the_same_way() {
    assert_eq!(resource_id("daml://x"), resource_id("daml://x"));
    assert_ne!(resource_id("daml://x"), resource_id("daml://y"));
}

#[test]
fn a_token_is_32_hex_characters() {
    let token = access_token().unwrap();
    assert_eq!(token.len(), 32);
    assert!(token.chars().all(|c| c.is_ascii_hexdigit()));
    assert_ne!(token, access_token().unwrap());
}

#[test]
fn an_id_is_sixteen_lower_case_hex_digits() {
    let id = resource_id("daml://compiler?file=%2Fa.daml&top-level-decl=setup");
    assert_eq!(id.len(), 16);
    assert!(id.chars().all(|c| c.is_ascii_digit() || ('a'..='f').contains(&c)));
}

#[test]
fn an_id_is_the_standard_hash_of_the_uri() {
    let uri = "daml://x";
    let mut hasher = std::collections::hash_map::DefaultHasher::new();
    uri.hash(&mut hasher);
    assert_eq!(resource_id(uri), format!("{:016x}", hasher.finish()));
}

#[test]
fn token_bytes_are_written_as_two_digits_each() {
    assert_eq!(token_from_bytes(&[0x00, 0x0f, 0xa5, 0xff]), "000fa5ff");
    assert_eq!(token_from_bytes(&[]), "");
}
