use airaa_chat::crypto::{
    open_payload,
    decrypt_with_key, derive_auth_hash, derive_key, derive_whisper_key, encrypt_with_key, encrypt_with_nonce, AesKey,
};
use aes_gcm::aead::{Aead, KeyInit};
use aes_gcm::{Aes256Gcm, Key, Nonce};
use base64::engine::general_purpose::STANDARD;
use base64::Engine;
use sha2::{Digest, Sha256};

fn pbkdf2_reference(password: &str, salt: &str) -> [u8; 32] {
    let mut out = [0u8; 32];
    pbkdf2::pbkdf2_hmac::<Sha256>(password.as_bytes(), salt.as_bytes(), 100_000, &mut out);
    out
}

#[test]
fn room_key_is_pbkdf2_of_lowercased_room() {
    let key = derive_key("hunter2", "Lobby");
    assert_eq!(key.bytes, pbkdf2_reference("hunter2", "airaa_room_key_lobby"));
}

#[test]
fn room_key_ignores_room_case() {
    assert_eq!(derive_key("pw", "Secret Room").bytes, derive_key("pw", "secret room").bytes);
    assert_ne!(derive_key("pw", "room-a").bytes, derive_key("pw", "room-b").bytes);
    assert_ne!(derive_key("pw1", "room").bytes, derive_key("pw2", "room").bytes);
}

#[test]
fn whisper_key_is_pbkdf2_of_room_and_target() {
    let key = derive_whisper_key("pw", "Lobby", "Alice");
    assert_eq!(key.bytes, pbkdf2_reference("pw", "airaa_whisper_lobby_alice"));
}

#[test]
fn whisper_key_ignores_case_and_differs_from_room_key() {
    assert_eq!(derive_whisper_key("pw", "lobby", "ALICE").bytes, derive_whisper_key("pw", "LOBBY", "alice").bytes);
    assert_ne!(derive_whisper_key("pw", "lobby", "alice").bytes, derive_whisper_key("pw", "lobby", "bob").bytes);
    assert_ne!(derive_whisper_key("pw", "lobby", "alice").bytes, derive_key("pw", "lobby").bytes);
}

#[test]
fn auth_hash_is_base64_sha256_of_salted_password() {
    let expected = STANDARD.encode(Sha256::digest(b"hunter2_airaa_server_bouncer_salt_lobby"));
    assert_eq!(derive_auth_hash("hunter2", "LOBBY"), expected);
    assert_eq!(derive_auth_hash("hunter2", "lobby").len(), 44);
    assert_ne!(derive_auth_hash("hunter2", "lobby"), derive_auth_hash("hunter3", "lobby"));
}

#[test]
fn encrypt_then_decrypt_gives_the_text_back() {
    let key = derive_key("pw", "lobby");
    for text in ["hello", "", "héllo wörld ✓", "--- alice has joined the grid ---"] {
        let sealed = encrypt_with_key(&key, text).unwrap();
        assert!(!sealed.is_empty());
        assert_eq!(decrypt_with_key(&key, &sealed), Ok(text.to_string()));
    }
}

#[test]
fn encryption_with_a_given_nonce_is_nonce_then_aes_gcm() {
    let key = AesKey { bytes: [7u8; 32] };
    let nonce = [1u8, 2, 3, 4, 5, 6, 7, 8, 9, 10, 11, 12];
    let sealed = encrypt_with_nonce(&key, &nonce, "hi there").unwrap();
    let bytes = STANDARD.decode(&sealed).unwrap();
    assert_eq!(bytes.len(), 12 + 8 + 16);
    assert_eq!(&bytes[..12], &nonce);
    let cipher = Aes256Gcm::new(Key::<Aes256Gcm>::from_slice(&key.bytes));
    let expected = cipher.encrypt(Nonce::from_slice(&nonce), b"hi there".as_ref()).unwrap();
    assert_eq!(&bytes[12..], expected.as_slice());
    assert_eq!(sealed.len(), 48);
}

#[test]
fn random_nonces_differ() {
    let key = derive_key("pw", "lobby");
    let a = encrypt_with_key(&key, "same").unwrap();
    let b = encrypt_with_key(&key, "same").unwrap();
    assert_ne!(a, b);
}

#[test]
fn empty_payload_decrypts_to_empty_text() {
    let key = AesKey { bytes: [0u8; 32] };
    assert_eq!(decrypt_with_key(&key, ""), Ok(String::new()));
}

#[test]
fn decrypt_reports_each_failure() {
    let key = derive_key("pw", "lobby");
    assert_eq!(decrypt_with_key(&key, "not base64!"), Err("Base64 decode failed".to_string()));
    assert_eq!(decrypt_with_key(&key, &STANDARD.encode([1u8, 2, 3, 4, 5])), Err("Payload too short".to_string()));
    let sealed = encrypt_with_key(&key, "secret").unwrap();
    let other = derive_key("wrong", "lobby");
    assert_eq!(
        decrypt_with_key(&other, &sealed),
        Err("Decryption failed (wrong password/target)".to_string())
    );
    let nonce = [9u8; 12];
    let cipher = Aes256Gcm::new(Key::<Aes256Gcm>::from_slice(&key.bytes));
    let mut payload = nonce.to_vec();
    payload.extend(cipher.encrypt(Nonce::from_slice(&nonce), [0xffu8, 0xfe].as_ref()).unwrap());
    assert_eq!(
        decrypt_with_key(&key, &STANDARD.encode(payload)),
        Err("Invalid UTF-8 in decrypted payload".to_string())
    );
}

#[test]
fn whisper_salt_does_not_separate_rooms_with_underscores() {
    // The salt joins room and recipient with `_`, so these two pairs share it.
    assert_eq!(derive_whisper_key("pw", "a_b", "c").bytes, derive_whisper_key("pw", "a", "b_c").bytes);
}

#[test]
fn library_root_offers_the_protocol_functions() {
    let key: airaa_chat::AesKey = airaa_chat::derive_key("pw", "Lobby");
    let sealed = airaa_chat::encrypt_with_key(&key, "hi").unwrap();
    assert_eq!(airaa_chat::decrypt_with_key(&key, &sealed).unwrap(), "hi");
    assert_eq!(airaa_chat::derive_whisper_key("pw", "Lobby", "x").bytes.len(), 32);
    assert_eq!(airaa_chat::derive_auth_hash("pw", "Lobby").len(), 44);
    let m = airaa_chat::ChatMessage::new("ping", "", "me", "", "", "");
    assert_eq!(m.clone().name, "me");
}

#[test]
fn payload_lengths_follow_the_plaintext() {
    let key = AesKey { bytes: [0u8; 32] };
    let empty = encrypt_with_key(&key, "").unwrap();
    assert_eq!(empty.len(), 40);
    assert_eq!(STANDARD.decode(&empty).unwrap().len(), 28);
    for text in ["a", "ab", "abc", "héllo"] {
        let sealed = encrypt_with_key(&key, text).unwrap();
        let n = text.len() + 28;
        assert_eq!(sealed.len(), 4 * ((n + 2) / 3));
        assert_eq!(STANDARD.decode(&sealed).unwrap().len(), n);
    }
}

#[test]
fn credential_is_padded_base64_of_a_digest() {
    let h = derive_auth_hash("pw", "room");
    assert_eq!(h.len(), 44);
    assert!(h.ends_with('='));
    assert!(h[..43].chars().all(|c| c.is_ascii_alphanumeric() || c == '+' || c == '/'));
    assert_eq!(STANDARD.decode(&h).unwrap().len(), 32);
}

#[test]
fn tampered_payload_is_rejected() {
    let key = derive_key("pw", "lobby");
    let sealed = encrypt_with_key(&key, "do not alter").unwrap();
    let bytes = STANDARD.decode(&sealed).unwrap();
    for at in [0usize, 12, bytes.len() - 1] {
        let mut altered = bytes.clone();
        altered[at] ^= 1;
        assert_eq!(
            decrypt_with_key(&key, &STANDARD.encode(&altered)),
            Err("Decryption failed (wrong password/target)".to_string())
        );
    }
    let room_key = derive_key("pw", "lobby");
    let whisper = encrypt_with_key(&derive_whisper_key("pw", "lobby", "carol"), "psst").unwrap();
    assert_eq!(
        decrypt_with_key(&room_key, &whisper),
        Err("Decryption failed (wrong password/target)".to_string())
    );
    assert_eq!(
        decrypt_with_key(&derive_whisper_key("pw", "lobby", "dave"), &whisper),
        Err("Decryption failed (wrong password/target)".to_string())
    );
}

#[test]
fn opening_decoded_payloads() {
    let key = AesKey { bytes: [4u8; 32] };
    let nonce = [8u8; 12];
    let sealed = encrypt_with_nonce(&key, &nonce, "plain words").unwrap();
    let bytes = STANDARD.decode(&sealed).unwrap();
    assert_eq!(open_payload(&key, &bytes), Ok("plain words".to_string()));
    assert_eq!(open_payload(&key, &bytes[..11]), Err("Payload too short".to_string()));
    assert_eq!(open_payload(&key, &bytes[..27]), Err("Decryption failed (wrong password/target)".to_string()));
    let other = AesKey { bytes: [5u8; 32] };
    assert_eq!(open_payload(&other, &bytes), Err("Decryption failed (wrong password/target)".to_string()));
}

#[test]
fn credential_decodes_to_the_digest() {
    let h = derive_auth_hash("pw", "Room");
    let digest = Sha256::digest(b"pw_airaa_server_bouncer_salt_room");
    assert_eq!(STANDARD.decode(&h).unwrap(), digest.to_vec());
}

#[test]
fn whisper_key_is_computable_by_any_member() {
    // Any member who knows the password derives the same key as the recipient.
    assert_eq!(derive_whisper_key("pw", "lobby", "carol").bytes, derive_whisper_key("pw", "LOBBY", "Carol").bytes);
}
