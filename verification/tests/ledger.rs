use apostle::codec::LedgerData;
use apostle::crypto::Cipher;
use apostle::ledger::{Data, Ledger, LedgerEntry};

fn test_key() -> Vec<u8> {
    (0u8..32u8).collect()
}

fn other_key() -> Vec<u8> {
    (100u8..132u8).collect()
}

fn cipher(key: Vec<u8>) -> Cipher {
    Cipher::new(key).expect("key of the right width")
}

fn get_ledger() -> Ledger {
    Ledger {
        entries: vec![
            LedgerEntry::new(
                0,
                Data::new_decrypted(LedgerData::ClipboardCopy("ClipboardCopy #1".to_string())),
            ),
            LedgerEntry::new_with_current_time(Data::new_decrypted(LedgerData::ClipboardCopy(
                "ClipboardCopy #2".to_string(),
            ))),
            LedgerEntry::new_with_current_time(Data::new_decrypted(LedgerData::EncryptionFailed)),
            LedgerEntry::new_with_current_time(Data::new_decrypted(LedgerData::DecryptionFailed)),
            LedgerEntry::new_with_current_time(Data::new_decrypted(LedgerData::ClipboardCopy(
                "ClipboardCopy #3".to_string(),
            ))),
        ],
    }
}

#[test]
fn ledger_cryptography() {
    let ledger: Ledger = get_ledger();
    let cipher = cipher(test_key());
    let other_ledger = ledger.encrypt(&cipher).decrypt(&cipher);
    assert_eq!(ledger, other_ledger)
}

#[test]
fn ledger_utility_1() {
    let ledger: Ledger = get_ledger();
    assert_eq!(ledger.entries.len(), ledger.export_timestamps().len())
}

#[test]
fn ledger_utility_2_1() {
    let ledger: Ledger = get_ledger();
    assert!(ledger.fetch_missing(&ledger.export_timestamps()).is_empty())
}

#[test]
fn ledger_utility_2_2() {
    let ledger: Ledger = get_ledger();
    let mut other_ledger: Ledger = ledger.clone();
    other_ledger.push_back(LedgerEntry::new(1, Data::new_decrypted(LedgerData::EncryptionFailed)));
    other_ledger.push_back(LedgerEntry::new(2, Data::new_decrypted(LedgerData::EncryptionFailed)));
    assert_eq!(other_ledger.fetch_missing(&ledger.export_timestamps()).len(), 2)
}

#[test]
fn ledger_utility_3_1() {
    let ledger: Ledger = get_ledger();
    assert_eq!(
        ledger.entries[4],
        ledger
            .get_last_entry_by_type(&LedgerData::ClipboardCopy(String::new()))
            .unwrap()
            .clone()
    )
}

#[test]
fn round_trip_single_payloads() {
    let cipher = cipher(test_key());
    for payload in [
        LedgerData::ClipboardCopy(String::new()),
        LedgerData::ClipboardCopy("héllo, wörld — ☃".to_string()),
        LedgerData::EncryptionFailed,
        LedgerData::DecryptionFailed,
    ] {
        let sealed = Data::new_decrypted(payload.clone()).encrypt(&cipher);
        assert!(matches!(sealed, Data::Encrypted { .. }));
        let opened = sealed.decrypt(&cipher);
        assert_eq!(opened, Data::new_decrypted(payload));
    }
}

#[test]
fn encrypt_is_idempotent_over_state() {
    let cipher = cipher(test_key());
    let once = Data::new_decrypted(LedgerData::ClipboardCopy("x".to_string())).encrypt(&cipher);
    let twice = once.encrypt(&cipher);
    assert_eq!(once, twice);
}

#[test]
fn decrypt_is_idempotent_over_state() {
    let cipher = cipher(test_key());
    let sealed = Data::new_decrypted(LedgerData::ClipboardCopy("x".to_string())).encrypt(&cipher);
    let once = sealed.decrypt(&cipher);
    let twice = once.decrypt(&cipher);
    assert_eq!(once, twice);
}

#[test]
fn nonces_are_fresh_per_call() {
    let cipher = cipher(test_key());
    let payload = Data::new_decrypted(LedgerData::ClipboardCopy("same payload".to_string()));
    let first = payload.encrypt(&cipher);
    let second = payload.encrypt(&cipher);
    match (&first, &second) {
        (
            Data::Encrypted { nonce: nonce1, data: data1 },
            Data::Encrypted { nonce: nonce2, data: data2 },
        ) => {
            assert_eq!(nonce1.len(), 24);
            assert_eq!(nonce2.len(), 24);
            assert_ne!(nonce1, nonce2);
            assert_ne!(data1, data2);
        }
        _ => panic!("encrypting must yield encrypted values"),
    }
}

#[test]
fn corrupted_tag_folds_into_sentinel() {
    let cipher = cipher(test_key());
    let entry = LedgerEntry::new(
        42,
        Data::new_decrypted(LedgerData::ClipboardCopy("secret".to_string())),
    )
    .encrypt(&cipher);
    let tampered = match entry.data {
        Data::Encrypted { mut data, nonce } => {
            let last = data.len() - 1;
            data[last] ^= 0x01;
            LedgerEntry::new(entry.timestamp, Data::new_encrypted(data, nonce))
        }
        Data::Decrypted { .. } => panic!("entry must be encrypted"),
    };
    let opened = tampered.decrypt(&cipher);
    assert_eq!(opened.timestamp, 42);
    assert_eq!(opened.data, Data::new_decrypted(LedgerData::DecryptionFailed));
}

#[test]
fn wrong_key_folds_into_sentinel() {
    let right = cipher(test_key());
    let wrong = cipher(other_key());
    let sealed = Data::new_decrypted(LedgerData::ClipboardCopy("secret".to_string()))
        .encrypt(&right);
    let opened = sealed.decrypt(&wrong);
    assert_eq!(opened, Data::new_decrypted(LedgerData::DecryptionFailed));
}

#[test]
fn encryption_failure_sentinel_recalled() {
    let cipher = cipher(test_key());
    let sentinel = Data::new_encrypted(Vec::new(), Vec::new());
    let opened = sentinel.decrypt(&cipher);
    assert_eq!(opened, Data::new_decrypted(LedgerData::EncryptionFailed));
}

#[test]
fn malformed_nonce_folds_into_sentinel() {
    let cipher = cipher(test_key());
    let bogus = Data::new_encrypted(vec![1, 2, 3], vec![9, 9]);
    assert_eq!(bogus.decrypt(&cipher), Data::new_decrypted(LedgerData::DecryptionFailed));
}

#[test]
fn concrete_two_entry_scenario() {
    let right = cipher(test_key());
    let wrong = cipher(other_key());
    let ledger = Ledger {
        entries: vec![
            LedgerEntry::new(
                0,
                Data::new_decrypted(LedgerData::ClipboardCopy("a".to_string())),
            ),
            // An entry whose encryption previously failed: explicitly in the
            // reserved empty encrypted state, so that key choice cannot
            // affect it.
            LedgerEntry::new(1, Data::new_encrypted(Vec::new(), Vec::new())),
        ],
    };
    let sealed = ledger.encrypt(&right);

    let with_right = sealed.decrypt(&right);
    assert_eq!(with_right.entries.len(), 2);
    assert_eq!(with_right.entries[0].timestamp, 0);
    assert_eq!(
        with_right.entries[0].data,
        Data::new_decrypted(LedgerData::ClipboardCopy("a".to_string()))
    );
    assert_eq!(with_right.entries[1].timestamp, 1);
    assert_eq!(
        with_right.entries[1].data,
        Data::new_decrypted(LedgerData::EncryptionFailed)
    );

    let with_wrong = sealed.decrypt(&wrong);
    assert_eq!(
        with_wrong.entries[0].data,
        Data::new_decrypted(LedgerData::DecryptionFailed)
    );
    assert_eq!(
        with_wrong.entries[1].data,
        Data::new_decrypted(LedgerData::EncryptionFailed)
    );
}

#[test]
fn cipher_rejects_wrong_key_width() {
    assert!(Cipher::new(vec![0u8; 16]).is_none());
    assert!(Cipher::new(Vec::new()).is_none());
    assert!(Cipher::new(vec![0u8; 33]).is_none());
    assert!(Cipher::new(vec![0u8; 32]).is_some());
}

#[test]
fn codec_exact_bytes() {
    assert_eq!(LedgerData::EncryptionFailed.encode(), vec![1u8]);
    assert_eq!(LedgerData::DecryptionFailed.encode(), vec![2u8]);
    assert_eq!(
        LedgerData::ClipboardCopy("ab".to_string()).encode(),
        vec![0u8, 97, 98]
    );
    assert_eq!(LedgerData::ClipboardCopy(String::new()).encode(), vec![0u8]);
}

#[test]
fn codec_decode_inverts_encode() {
    for payload in [
        LedgerData::ClipboardCopy("ClipboardCopy #1".to_string()),
        LedgerData::ClipboardCopy(String::new()),
        LedgerData::EncryptionFailed,
        LedgerData::DecryptionFailed,
    ] {
        assert_eq!(LedgerData::decode(&payload.encode()), Some(payload));
    }
}

#[test]
fn codec_rejects_malformed_bytes() {
    assert_eq!(LedgerData::decode(&[]), None);
    assert_eq!(LedgerData::decode(&[5]), None);
    assert_eq!(LedgerData::decode(&[1, 0]), None);
    assert_eq!(LedgerData::decode(&[2, 2]), None);
    // A clipboard body must be valid UTF-8.
    assert_eq!(LedgerData::decode(&[0, 0xff]), None);
    assert_eq!(
        LedgerData::decode(&[0, 97]),
        Some(LedgerData::ClipboardCopy("a".to_string()))
    );
}

#[test]
fn empty_ledger_operations() {
    let ledger = Ledger { entries: Vec::new() };
    assert!(ledger.is_empty());
    assert_eq!(ledger.len(), 0);
    assert!(ledger.export_timestamps().is_empty());
    assert!(ledger.fetch_missing(&[1, 2, 3]).is_empty());
    assert!(ledger
        .get_last_entry_by_type(&LedgerData::EncryptionFailed)
        .is_none());
}

#[test]
fn extend_preserves_both_orders() {
    let mut a = Ledger {
        entries: vec![
            LedgerEntry::new(3, Data::new_decrypted(LedgerData::EncryptionFailed)),
            LedgerEntry::new(1, Data::new_decrypted(LedgerData::EncryptionFailed)),
        ],
    };
    let b = Ledger {
        entries: vec![
            LedgerEntry::new(2, Data::new_decrypted(LedgerData::DecryptionFailed)),
            LedgerEntry::new(0, Data::new_decrypted(LedgerData::DecryptionFailed)),
        ],
    };
    a.extend(b);
    let ts = a.export_timestamps();
    assert_eq!(ts, vec![3, 1, 2, 0]);
}

#[test]
fn fetch_missing_by_timestamp_identity_only() {
    // Two distinct entries that share a timestamp count as the same entry.
    let ledger = Ledger {
        entries: vec![
            LedgerEntry::new(
                5,
                Data::new_decrypted(LedgerData::ClipboardCopy("one".to_string())),
            ),
            LedgerEntry::new(
                5,
                Data::new_decrypted(LedgerData::ClipboardCopy("two".to_string())),
            ),
            LedgerEntry::new(6, Data::new_decrypted(LedgerData::EncryptionFailed)),
        ],
    };
    assert!(ledger.fetch_missing(&[5, 6]).is_empty());
    let missing = ledger.fetch_missing(&[6]);
    assert_eq!(missing.len(), 2);
    assert_eq!(missing.entries[0], ledger.entries[0]);
    assert_eq!(missing.entries[1], ledger.entries[1]);
}

#[test]
fn sync_round_between_two_ledgers() {
    let mut agent = Ledger {
        entries: vec![
            LedgerEntry::new(
                10,
                Data::new_decrypted(LedgerData::ClipboardCopy("old".to_string())),
            ),
        ],
    };
    let mut store = agent.clone();
    store.push_back(LedgerEntry::new(
        11,
        Data::new_decrypted(LedgerData::ClipboardCopy("newer".to_string())),
    ));
    store.push_back(LedgerEntry::new(
        12,
        Data::new_decrypted(LedgerData::EncryptionFailed),
    ));
    let missing = store.fetch_missing(&agent.export_timestamps());
    assert_eq!(missing.len(), 2);
    agent.extend(missing);
    assert_eq!(agent, store);
}

#[test]
fn lookup_ignores_encrypted_entries() {
    let cipher = cipher(test_key());
    let sealed = LedgerEntry::new(
        0,
        Data::new_decrypted(LedgerData::ClipboardCopy("hidden".to_string())),
    )
    .encrypt(&cipher);
    let ledger = Ledger { entries: vec![sealed] };
    assert!(ledger
        .get_last_entry_by_type(&LedgerData::ClipboardCopy(String::new()))
        .is_none());
}

#[test]
fn lookup_matches_by_tag_not_value() {
    let ledger = Ledger {
        entries: vec![
            LedgerEntry::new(
                0,
                Data::new_decrypted(LedgerData::ClipboardCopy("first".to_string())),
            ),
            LedgerEntry::new(1, Data::new_decrypted(LedgerData::EncryptionFailed)),
            LedgerEntry::new(
                2,
                Data::new_decrypted(LedgerData::ClipboardCopy("last".to_string())),
            ),
        ],
    };
    let found = ledger
        .get_last_entry_by_type(&LedgerData::ClipboardCopy("unrelated".to_string()))
        .unwrap();
    assert_eq!(found.timestamp, 2);
    let sentinel = ledger
        .get_last_entry_by_type(&LedgerData::EncryptionFailed)
        .unwrap();
    assert_eq!(sentinel.timestamp, 1);
    assert!(ledger
        .get_last_entry_by_type(&LedgerData::DecryptionFailed)
        .is_none());
}

#[test]
fn lookup_alt_hands_back_timestamp_and_payload() {
    let ledger = Ledger {
        entries: vec![
            LedgerEntry::new(
                8,
                Data::new_decrypted(LedgerData::ClipboardCopy("payload".to_string())),
            ),
        ],
    };
    let (ts, data) = ledger
        .get_last_entry_by_type_alt(&LedgerData::ClipboardCopy(String::new()))
        .unwrap();
    assert_eq!(*ts, 8);
    assert_eq!(*data, LedgerData::ClipboardCopy("payload".to_string()));
    assert!(ledger
        .get_last_entry_by_type_alt(&LedgerData::EncryptionFailed)
        .is_none());
}

#[test]
fn bulk_encrypt_preserves_order_and_timestamps() {
    let cipher = cipher(test_key());
    let ledger = get_ledger();
    let sealed = ledger.encrypt(&cipher);
    assert_eq!(sealed.len(), ledger.len());
    assert_eq!(sealed.export_timestamps(), ledger.export_timestamps());
    for entry in &sealed.entries {
        assert!(matches!(entry.data, Data::Encrypted { .. }));
    }
}
