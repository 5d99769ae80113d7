use hupoker::audit::{key_from_hex, AuditLog, KeyError};
use hupoker::ids::{ConnectionId, HandId};

#[test]
fn test_encrypt_decrypt_seed() {
    let key = [0x42u8; 32];
    let seed = [0x99u8; 32];

    // Encrypt with random nonce (nonce included in encrypted output)
    let encrypted = AuditLog::encrypt_seed(seed, &key).unwrap();
    // decrypt_seed expects combined nonce:encrypted format
    let decrypted = AuditLog::decrypt_seed(&encrypted, &key).unwrap();
    assert_eq!(decrypted, seed);
}

#[test]
fn decrypt_refuses_text_without_colon() {
    let key = [0x42u8; 32];
    let err = AuditLog::decrypt_seed("no-separator", &key).unwrap_err();
    assert_eq!(err, "invalid encrypted seed format, expected nonce:encrypted");
}

#[test]
fn decrypt_refuses_empty_parts() {
    let key = [0x42u8; 32];
    assert_eq!(
        AuditLog::decrypt_seed(":abcd", &key).unwrap_err(),
        "invalid encrypted seed format, expected nonce:encrypted"
    );
    assert_eq!(
        AuditLog::decrypt_seed("abcd:", &key).unwrap_err(),
        "invalid encrypted seed format, expected nonce:encrypted"
    );
}

#[test]
fn decrypt_refuses_short_nonce() {
    let key = [0x42u8; 32];
    // "AAAA" is base64 for three zero bytes.
    assert_eq!(AuditLog::decrypt_seed("AAAA:AAAA", &key).unwrap_err(), "nonce must be 12 bytes, got 3");
}

#[test]
fn decrypt_refuses_bad_base64_nonce() {
    let key = [0x42u8; 32];
    let err = AuditLog::decrypt_seed("!!!!:AAAA", &key).unwrap_err();
    assert!(err.starts_with("failed to decode nonce: "));
}

#[test]
fn decrypt_with_wrong_key_fails() {
    let key = [0x42u8; 32];
    let other = [0x43u8; 32];
    let encrypted = AuditLog::encrypt_seed([7u8; 32], &key).unwrap();
    let err = AuditLog::decrypt_seed(&encrypted, &other).unwrap_err();
    assert_eq!(err, "seed decryption failed: aead::Error");
}

#[test]
fn seed_event_needs_a_key() {
    let log = AuditLog::new(None);
    let table = hupoker::table::TableId::new("test-table".to_string());
    let err = log.seed_event(hupoker::ids::HandId::new(1), &table, &[0xAAu8; 32]).unwrap_err();
    assert!(err.contains("encryption key must be configured"));
}

#[test]
fn seed_event_decrypts_back() {
    let key = [0x55u8; 32];
    let log = AuditLog::new(Some(key));
    let table = hupoker::table::TableId::new("test-table".to_string());
    let seed = [0xBBu8; 32];
    match log.seed_event(hupoker::ids::HandId::new(7), &table, &seed).unwrap() {
        hupoker::audit::AuditEvent::HandStart { hand_id, rng_seed_encrypted, nonce, .. } => {
            assert_eq!(hand_id, hupoker::ids::HandId::new(7));
            let text = format!("{}:{}", nonce, rng_seed_encrypted);
            assert_eq!(AuditLog::decrypt_seed(&text, &key).unwrap(), seed);
        }
        other => panic!("unexpected event {:?}", other),
    }
}

#[test]
fn sealing_under_a_given_nonce_is_fixed_and_decrypts_back() {
    let key = [0x42u8; 32];
    let seed = [0x99u8; 32];
    let nonce = [0u8; 12];
    let a = AuditLog::seal_seed_with_nonce(&seed, &key, nonce);
    let b = AuditLog::seal_seed_with_nonce(&seed, &key, nonce);
    assert_eq!(a, b);
    assert!(a.starts_with("AAAAAAAAAAAAAAAA:"));
    assert_eq!(AuditLog::decrypt_seed(&a, &key).unwrap(), seed);
    let log = AuditLog::new(Some(key));
    let table = hupoker::table::TableId::new("t".to_string());
    match log.seed_event_with_nonce(hupoker::ids::HandId::new(2), &table, &seed, nonce).unwrap() {
        hupoker::audit::AuditEvent::HandStart { rng_seed_encrypted, nonce, .. } => {
            assert_eq!(format!("{}:{}", nonce, rng_seed_encrypted), a);
        }
        other => panic!("unexpected event {:?}", other),
    }
}

#[test]
fn seed_of_record_reads_plain_and_sealed_seeds() {
    let key = [0x42u8; 32];
    let seed = [0x99u8; 32];
    let text = AuditLog::seal_seed_with_nonce(&seed, &key, [1u8; 12]);
    let (nonce, sealed) = text.split_once(':').unwrap();
    assert_eq!(AuditLog::seed_of_record(sealed, nonce, None), None);
    assert_eq!(AuditLog::seed_of_record(sealed, nonce, Some(&key)), Some(Ok(seed.to_vec())));
    // "AQID" is base64 for the bytes 1, 2, 3.
    assert_eq!(AuditLog::seed_of_record("AQID", "", Some(&key)), Some(Ok(vec![1, 2, 3])));
    assert!(AuditLog::seed_of_record("!!", "", Some(&key)).unwrap().is_err());
}

#[test]
fn keys_are_read_from_hex() {
    let hex = "42".repeat(32);
    assert_eq!(key_from_hex(&hex), Ok([0x42u8; 32]));
    assert_eq!(key_from_hex("4242"), Err(KeyError::WrongLength(2)));
    assert!(matches!(key_from_hex("zz"), Err(KeyError::NotHex(_))));
}

#[test]
fn identifiers_are_version_four_uuids() {
    let h = HandId::new_v4().unwrap();
    assert_eq!((h.0 >> 76) & 0xf, 4);
    assert_eq!((h.0 >> 62) & 0x3, 2);
    let c = ConnectionId::new_v4().unwrap();
    assert_eq!((c.0 >> 76) & 0xf, 4);
    let fixed = HandId::from_random_bytes([0xffu8; 16]);
    assert_eq!(fixed.to_text(), "ffffffff-ffff-4fff-bfff-ffffffffffff");
    assert_eq!(HandId::from_random_bytes([0u8; 16]).to_text(), "00000000-0000-4000-8000-000000000000");
}

#[test]
fn the_clock_reads_after_1970() {
    assert!(hupoker::clock::now_millis() > 0);
    let text = hupoker::clock::now_rfc3339().unwrap();
    assert!(text.contains('T'));
}
