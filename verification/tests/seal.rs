use covert::seal::{initialize_response, InitializeResponse};
use covert::seal::SealCipher;
use covert::seal::{
    check_initialize_params, collect_decrypted, construct_master_key, deal_key_shares,
    decide_unseal, dedup_key_shares, new_key_share_nonce, unseal_progress, KeyShare, SealConfig,
    SealError, UnsealDecision, UnsealProgress,
};

fn share(key: &str, nonce: &str) -> KeyShare {
    KeyShare {
        key: key.as_bytes().to_vec(),
        nonce: nonce.as_bytes().to_vec(),
    }
}

#[test]
fn initialize_params_are_checked() {
    assert_eq!(check_initialize_params(0, 3), Err(SealError::InvalidInitializeParams));
    assert_eq!(check_initialize_params(3, 2), Err(SealError::InvalidInitializeParams));
    assert_eq!(check_initialize_params(2, 3), Ok(()));
    assert_eq!(check_initialize_params(1, 1), Ok(()));
}

#[test]
fn unseal_progress_waits_for_threshold() {
    let config = SealConfig {
        threshold: 3,
        shares: 5,
    };
    assert_eq!(
        unseal_progress(&config, 2),
        UnsealProgress::InProgress {
            threshold: 3,
            key_shares_total: 5,
            key_shares_provided: 2
        }
    );
    assert_eq!(unseal_progress(&config, 3), UnsealProgress::Ready);
}

#[test]
fn dealt_shares_recover_the_master_key() {
    let shares = deal_key_shares("my-master-key", 2, 3);
    assert_eq!(shares.len(), 3);
    // each share is hex of one x byte plus one byte per key byte
    for (i, s) in shares.iter().enumerate() {
        assert_eq!(s.len(), 2 * ("my-master-key".len() + 1));
        assert_eq!(&s[0..2], format!("{:02x}", i + 1));
    }
    let two = vec![shares[0].clone(), shares[2].clone()];
    assert_eq!(construct_master_key(&two, 2), Ok("my-master-key".to_string()));
    assert_eq!(construct_master_key(&shares, 2), Ok("my-master-key".to_string()));
}

#[test]
fn too_few_shares_do_not_recover() {
    let shares = deal_key_shares("my-master-key", 3, 3);
    let one = vec![shares[0].clone()];
    assert_eq!(construct_master_key(&one, 3), Err(SealError::MasterKeyRecovery));
}

#[test]
fn malformed_shares_are_refused() {
    assert_eq!(
        construct_master_key(&vec!["zz".to_string()], 1),
        Err(SealError::MalformedKeyShares)
    );
    assert_eq!(
        construct_master_key(&vec!["abc".to_string()], 1),
        Err(SealError::MalformedKeyShares)
    );
    assert_eq!(
        construct_master_key(&vec!["01".to_string()], 1),
        Err(SealError::MalformedKeyShares)
    );
}

#[test]
fn duplicate_key_shares_are_dropped() {
    let shares = vec![
        share("my-secret-share-1", "n1"),
        share("my-secret-share-2", "n2"),
        share("my-secret-share-1", "n3"),
    ];
    let kept = dedup_key_shares(shares);
    assert_eq!(kept.len(), 2);
    assert_eq!(kept[0].key, b"my-secret-share-1".to_vec());
    assert_eq!(kept[0].nonce, b"n1".to_vec());
    assert_eq!(kept[1].key, b"my-secret-share-2".to_vec());
}

#[test]
fn undecryptable_share_fails_collection() {
    let decrypted = vec![Some(share("a", "n")), None];
    assert!(matches!(
        collect_decrypted(decrypted),
        Err(SealError::UndecryptableKeyShare)
    ));
    let decrypted = vec![Some(share("a", "n")), Some(share("a", "m"))];
    let kept = collect_decrypted(decrypted).unwrap();
    assert_eq!(kept.len(), 1);
}

#[test]
fn nonce_is_twelve_alphanumerics() {
    let nonce = new_key_share_nonce();
    assert_eq!(nonce.len(), 12);
    assert!(nonce.iter().all(|b| b.is_ascii_alphanumeric()));
}

#[test]
fn unseal_decisions() {
    let config = SealConfig {
        threshold: 2,
        shares: 3,
    };
    let dealt = deal_key_shares("the-key", 2, 3);
    let one = vec![share(&dealt[0], "n")];
    assert!(matches!(
        decide_unseal(&config, &one),
        UnsealDecision::InProgress {
            threshold: 2,
            key_shares_total: 3,
            key_shares_provided: 1
        }
    ));
    let two = vec![share(&dealt[0], "n"), share(&dealt[1], "m")];
    match decide_unseal(&config, &two) {
        UnsealDecision::Unseal { master_key } => assert_eq!(master_key, "the-key"),
        other => panic!("unexpected {other:?}"),
    }
    let bad = vec![share("zz", "n"), share("yy", "m")];
    assert!(matches!(
        decide_unseal(&config, &bad),
        UnsealDecision::Unrecoverable
    ));
    let not_text = vec![KeyShare {
        key: vec![0xff, 0xfe],
        nonce: vec![],
    }];
    assert!(matches!(
        decide_unseal(&config, &not_text),
        UnsealDecision::InvalidShareKey
    ));
}

#[test]
fn stored_shares_read_back() {
    let cipher = SealCipher::new();
    let stored1 = cipher.encrypt_key_share(b"my-secret-share-1").unwrap();
    let stored2 = cipher.encrypt_key_share(b"my-secret-share-2").unwrap();
    assert_eq!(stored1.nonce.len(), 12);
    assert_ne!(stored1.key, b"my-secret-share-1".to_vec());
    let opened = cipher.decrypt_key_share(&stored1).unwrap();
    assert_eq!(opened.key, b"my-secret-share-1".to_vec());
    assert_eq!(opened.nonce, stored1.nonce);
    let again = cipher.encrypt_key_share(b"my-secret-share-1").unwrap();
    let shares = cipher
        .decrypt_key_shares(&vec![stored1, stored2, again])
        .unwrap();
    assert_eq!(shares.len(), 2);
    assert_eq!(shares[0].key, b"my-secret-share-1".to_vec());
    assert_eq!(shares[1].key, b"my-secret-share-2".to_vec());
}

#[test]
fn tampered_or_foreign_shares_do_not_decrypt() {
    let cipher = SealCipher::new();
    let mut stored = cipher.encrypt_key_share(b"share").unwrap();
    let other = SealCipher::new();
    assert!(other.decrypt_key_share(&stored).is_none());
    stored.key[0] ^= 1;
    assert!(cipher.decrypt_key_share(&stored).is_none());
    assert!(matches!(
        cipher.decrypt_key_shares(&vec![stored]),
        Err(SealError::UndecryptableKeyShare)
    ));
}

#[test]
fn initialize_answers() {

    match initialize_response(Some("key"), 2, 4) {
        InitializeResponse::NewKeyShares { shares } => {
            assert_eq!(shares.len(), 4);
            assert_eq!(construct_master_key(&shares[1..3].to_vec(), 2), Ok("key".to_string()));
        }
        other => panic!("unexpected {other:?}"),
    }
    match initialize_response(None, 2, 4) {
        InitializeResponse::ExistingKey { message } => {
            assert_eq!(message, "Initialized with stored master key")
        }
        other => panic!("unexpected {other:?}"),
    }
}

#[test]
fn any_threshold_of_the_dealt_shares_recover() {
    let shares = deal_key_shares("master", 3, 5);
    for a in 0..5 {
        for b in 0..5 {
            for c in 0..5 {
                if a == b || b == c || a == c {
                    continue;
                }
                let picked = vec![shares[a].clone(), shares[b].clone(), shares[c].clone()];
                assert_eq!(construct_master_key(&picked, 3), Ok("master".to_string()));
                let two = vec![shares[a].clone(), shares[b].clone()];
                assert_eq!(construct_master_key(&two, 3), Err(SealError::MasterKeyRecovery));
            }
        }
    }
}
