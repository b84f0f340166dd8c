use p2p_protocol::{keypair_from_hex, keypair_to_hex, load_or_generate_keypair, P2PConfig, P2PError};

fn fresh_key_text() -> String {
    let config = P2PConfig::new("regtest".to_string())
        .with_key_file(std::path::PathBuf::from("/nonexistent/node.key"));
    let (key, persist) = load_or_generate_keypair(&config, None).unwrap();
    let text = persist.expect("a generated key is persisted when a key file is set");
    assert_eq!(text, keypair_to_hex(&key));
    text
}

#[test]
fn key_text_round_trips() {
    let text = fresh_key_text();
    assert_eq!(text.len(), 128);
    assert!(text.chars().all(|c| c.is_ascii_digit() || ('a'..='f').contains(&c)));
    let key = keypair_from_hex(&text).unwrap();
    assert_eq!(keypair_to_hex(&key), text);
}

#[test]
fn upper_case_key_text_decodes_and_encodes_in_lower_case() {
    let text = fresh_key_text();
    let key = keypair_from_hex(&text.to_uppercase()).unwrap();
    assert_eq!(keypair_to_hex(&key), text);
}

#[test]
fn decoded_key_keeps_its_identity() {
    let text = fresh_key_text();
    let a = keypair_from_hex(&text).unwrap();
    let b = keypair_from_hex(&text).unwrap();
    assert_eq!(a.peer_id(), b.peer_id());
    assert!(a.peer_id().starts_with("12D3KooW"));
}

#[test]
fn malformed_key_text_is_refused() {
    let text = fresh_key_text();
    let cases = vec![
        String::new(),
        "abcd".to_string(),
        text[..126].to_string(),
        format!("{}00", text),
        format!("{}0", &text[..127]),
        format!("{}zz", &text[..126]),
        format!("{} ", &text[..127]),
    ];
    for case in cases {
        assert!(matches!(keypair_from_hex(&case), Err(P2PError::KeyDecode(_))), "{:?}", case);
    }
}

#[test]
fn key_whose_public_half_does_not_match_is_refused() {
    let text = fresh_key_text();
    let mut tampered = text[..64].to_string();
    tampered.push_str(&"00".repeat(32));
    assert!(matches!(keypair_from_hex(&tampered), Err(P2PError::KeyDecode(_))));
}

#[test]
fn configured_key_wins_over_the_key_file() {
    let text = fresh_key_text();
    let other = fresh_key_text();
    let config = P2PConfig::new("regtest".to_string())
        .with_private_key_hex(text.clone())
        .with_key_file(std::path::PathBuf::from("/nonexistent/node.key"));
    let (key, persist) = load_or_generate_keypair(&config, Some(other)).unwrap();
    assert_eq!(keypair_to_hex(&key), text);
    assert!(persist.is_none());
}

#[test]
fn stored_key_is_trimmed_and_reused() {
    let text = fresh_key_text();
    let config = P2PConfig::new("regtest".to_string())
        .with_key_file(std::path::PathBuf::from("/nonexistent/node.key"));
    let (key, persist) = load_or_generate_keypair(&config, Some(format!("  {}\n", text))).unwrap();
    assert_eq!(keypair_to_hex(&key), text);
    assert!(persist.is_none());
}

#[test]
fn corrupt_stored_key_is_an_error_not_a_new_key() {
    let config = P2PConfig::new("regtest".to_string())
        .with_key_file(std::path::PathBuf::from("/nonexistent/node.key"));
    let r = load_or_generate_keypair(&config, Some("not a key".to_string()));
    assert!(matches!(r, Err(P2PError::KeyDecode(_))));
}

#[test]
fn bad_configured_key_is_an_error() {
    let config = P2PConfig::new("regtest".to_string()).with_private_key_hex("12".to_string());
    assert!(matches!(load_or_generate_keypair(&config, None), Err(P2PError::KeyDecode(_))));
}

#[test]
fn generated_key_without_key_file_is_not_persisted() {
    let config = P2PConfig::new("regtest".to_string());
    let (key, persist) = load_or_generate_keypair(&config, Some(fresh_key_text())).unwrap();
    assert!(persist.is_none());
    assert_eq!(keypair_to_hex(&key).len(), 128);
}

#[test]
fn wrong_length_key_text_says_how_many_bytes_it_held() {
    assert!(matches!(keypair_from_hex(""), Err(P2PError::KeyDecode(m)) if m == "Expected 64 bytes, got 0"));
    assert!(matches!(keypair_from_hex(&"00".repeat(32)), Err(P2PError::KeyDecode(m)) if m == "Expected 64 bytes, got 32"));
    assert!(matches!(keypair_from_hex(&"ab".repeat(65)), Err(P2PError::KeyDecode(m)) if m == "Expected 64 bytes, got 65"));
    assert!(matches!(keypair_from_hex("zz"), Err(P2PError::KeyDecode(_))));
}

#[test]
fn persisted_key_is_reused_with_the_same_identity() {
    let config = P2PConfig::new("regtest".to_string())
        .with_key_file(std::path::PathBuf::from("/nonexistent/node.key"));
    let (first, persist) = load_or_generate_keypair(&config, None).unwrap();
    let text = persist.unwrap();
    let (second, again) = load_or_generate_keypair(&config, Some(text.clone())).unwrap();
    assert!(again.is_none());
    assert_eq!(keypair_to_hex(&second), text);
    assert_eq!(second.peer_id(), first.peer_id());
}
