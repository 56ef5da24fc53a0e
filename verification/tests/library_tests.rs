use auria_license::{
    bytes_equal, issuer_listed, signature_from_digest, signature_matches_digest, signing_message, u64_to_le_bytes,
    AuriaError, BlockchainLicenseClient, KeyedStore, License, LicenseGenerator, LicenseManager, LicenseConfig, LicenseMap,
    LocalLicenseVerifier, PublicKey, RateLimit, RateLimiter, ShardId, Signature, UsageTracker,
};
use sha3::{Digest, Keccak256};

fn license(shard: u8, node: u8, expiry: u64) -> License {
    License {
        shard_id: ShardId([shard; 32]),
        node_pubkey: PublicKey([node; 32]),
        expiry_timestamp: expiry,
        signature: Signature([0u8; 64]),
    }
}

#[test]
fn le_bytes_of_u64() {
    assert_eq!(u64_to_le_bytes(0x0102_0304_0506_0708), vec![8, 7, 6, 5, 4, 3, 2, 1]);
    assert_eq!(u64_to_le_bytes(0), vec![0u8; 8]);
    assert_eq!(u64_to_le_bytes(u64::MAX), vec![0xffu8; 8]);
}

#[test]
fn signing_message_layout() {
    let l = license(1, 2, 0x0102_0304_0506_0708);
    let m = signing_message(&l);
    assert_eq!(m.len(), 72);
    assert_eq!(&m[0..32], &[1u8; 32]);
    assert_eq!(&m[32..64], &[2u8; 32]);
    assert_eq!(&m[64..72], &[8, 7, 6, 5, 4, 3, 2, 1]);
}

#[test]
fn signing_writes_keccak_digest_twice() {
    let mut l = license(1, 2, 1234);
    LicenseGenerator::sign_license(&mut l, b"unused");
    let digest: [u8; 32] = Keccak256::digest(signing_message(&l)).into();
    assert_eq!(&l.signature.0[..32], &digest);
    assert_eq!(&l.signature.0[32..], &digest);
    assert_eq!(l.shard_id, ShardId([1u8; 32]));
    assert_eq!(l.node_pubkey, PublicKey([2u8; 32]));
    assert_eq!(l.expiry_timestamp, 1234);
}

#[test]
fn keccak_of_known_message() {
    // Keccak-256 of the empty input.
    let expected: [u8; 32] = [
        0xc5, 0xd2, 0x46, 0x01, 0x86, 0xf7, 0x23, 0x3c, 0x92, 0x7e, 0x7d, 0xb2, 0xdc, 0xc7, 0x03, 0xc0, 0xe5, 0x00,
        0xb6, 0x53, 0xca, 0x82, 0x27, 0x3b, 0x7b, 0xfa, 0xd8, 0x04, 0x5d, 0x85, 0xa4, 0x70,
    ];
    let digest: [u8; 32] = Keccak256::digest(b"").into();
    assert_eq!(digest, expected);
    let s = signature_from_digest(&expected);
    assert_eq!(&s.0[..32], &expected);
    assert_eq!(&s.0[32..], &expected);
}

#[test]
fn sign_then_verify_round_trip() {
    let mut l = LicenseGenerator::generate_license(ShardId([5u8; 32]), PublicKey([6u8; 32]), 99);
    assert_eq!(l.signature, Signature([0u8; 64]));
    assert!(!LicenseGenerator::verify_signature(&l, &PublicKey([6u8; 32])));
    LicenseGenerator::sign_license(&mut l, &[]);
    assert!(LicenseGenerator::verify_signature(&l, &PublicKey([6u8; 32])));
    assert_ne!(l.signature, Signature([0u8; 64]));
}

#[test]
fn tampered_license_fails_verification() {
    let mut l = license(1, 2, 1000);
    LicenseGenerator::sign_license(&mut l, &[]);
    let mut later = l;
    later.expiry_timestamp = 2000;
    assert!(!LicenseGenerator::verify_signature(&later, &l.node_pubkey));
    let mut other_node = l;
    other_node.node_pubkey = PublicKey([3u8; 32]);
    assert!(!LicenseGenerator::verify_signature(&other_node, &l.node_pubkey));
}

#[test]
fn digest_matching() {
    let d = [7u8; 32];
    let mut l = license(1, 1, 1);
    assert!(!signature_matches_digest(&l, &d));
    l.signature = signature_from_digest(&d);
    assert!(signature_matches_digest(&l, &d));
}

#[test]
fn byte_and_key_equality() {
    assert!(bytes_equal(&[1, 2, 3], &[1, 2, 3]));
    assert!(!bytes_equal(&[1, 2, 3], &[1, 2, 4]));
    let keys = [PublicKey([1u8; 32]), PublicKey([2u8; 32])];
    assert!(issuer_listed(&keys, &PublicKey([2u8; 32])));
    assert!(!issuer_listed(&keys, &PublicKey([3u8; 32])));
    assert!(!issuer_listed(&[], &PublicKey([3u8; 32])));
}

#[test]
fn keyed_store_insert_get_remove() {
    let mut s: KeyedStore<ShardId, u64> = KeyedStore::new();
    let a = ShardId([1u8; 32]);
    let b = ShardId([2u8; 32]);
    assert_eq!(s.get(&a), None);
    s.insert(a, 10);
    s.insert(b, 20);
    s.insert(a, 11);
    assert_eq!(s.get(&a), Some(11));
    assert_eq!(s.get(&b), Some(20));
    assert!(s.contains_key(&b));
    s.remove(&a);
    assert_eq!(s.get(&a), None);
    assert_eq!(s.get(&b), Some(20));
    s.remove(&a);
    assert_eq!(s.get(&b), Some(20));
}

#[test]
fn validation_outcomes() {
    let mut m = LicenseManager::new(LicenseConfig::default());
    let l = license(1, 2, 100);
    m.register_license(l);
    assert!(matches!(m.validate_license_at(&l, 50), Ok(true)));
    // Expiry is exclusive.
    assert!(matches!(m.validate_license_at(&l, 100), Ok(false)));
    let mut wrong_node = l;
    wrong_node.node_pubkey = PublicKey([9u8; 32]);
    assert!(matches!(m.validate_license_at(&wrong_node, 50), Ok(false)));
    let mut wrong_sig = l;
    wrong_sig.signature = Signature([1u8; 64]);
    assert!(matches!(m.validate_license_at(&wrong_sig, 50), Ok(false)));
    let unknown = license(3, 2, 100);
    match m.validate_license_at(&unknown, 50) {
        Err(AuriaError::LicenseInvalid(s)) => assert_eq!(s, ShardId([3u8; 32])),
        other => panic!("unexpected {:?}", other),
    }
    assert!(matches!(m.validate_license(&l), Ok(false)));
}

#[test]
fn register_replaces_and_get_returns() {
    let mut m = LicenseManager::default();
    assert!(m.get_license(ShardId([1u8; 32])).is_none());
    m.register_license(license(1, 2, 100));
    m.register_license(license(1, 3, 200));
    let got = m.get_license(ShardId([1u8; 32])).unwrap();
    assert_eq!(got.node_pubkey, PublicKey([3u8; 32]));
    assert_eq!(got.expiry_timestamp, 200);
    assert!(m.license_valid_for_shard_at(ShardId([1u8; 32]), 199));
    assert!(!m.license_valid_for_shard_at(ShardId([1u8; 32]), 200));
    assert!(!m.license_valid_for_shard_at(ShardId([2u8; 32]), 0));
}

#[test]
fn check_all_keeps_order_and_repeats() {
    let mut m = LicenseManager::new(LicenseConfig::default());
    m.register_license(license(1, 1, 100));
    m.register_license(license(2, 1, 10));
    let ids = [ShardId([3u8; 32]), ShardId([1u8; 32]), ShardId([2u8; 32]), ShardId([3u8; 32])];
    let invalid = m.check_all_licenses_at(&ids, 50).unwrap();
    assert_eq!(invalid, vec![ShardId([3u8; 32]), ShardId([2u8; 32]), ShardId([3u8; 32])]);
    assert!(m.check_all_licenses_at(&[], 50).unwrap().is_empty());
}

#[test]
fn fresh_limiter_grants_exactly_its_burst_at_one_instant() {
    let mut lim = RateLimiter::new(1000, 3);
    let granted = (0..6).filter(|_| lim.try_acquire_at(5_000)).count();
    assert_eq!(granted, 3);
}

#[test]
fn limiter_refills_at_its_rate_and_caps_at_burst() {
    let mut lim = RateLimiter::new(2, 2);
    assert!(lim.try_acquire_at(10_000));
    assert!(lim.try_acquire_at(10_000));
    assert!(!lim.try_acquire_at(10_000));
    // Half a second at two tokens per second restores one token.
    assert!(!lim.try_acquire_at(10_499));
    assert!(lim.try_acquire_at(10_500));
    // A long pause refills only up to the burst.
    assert!(lim.try_acquire_at(100_000));
    assert!(lim.try_acquire_at(100_000));
    assert!(!lim.try_acquire_at(100_000));
}

#[test]
fn limiter_without_rate_never_refills() {
    let mut lim = RateLimiter::new(0, 1);
    assert!(lim.try_acquire_at(1));
    assert!(!lim.try_acquire_at(1_000_000));
    let mut empty = RateLimiter::new(5, 0);
    assert!(!empty.try_acquire_at(1));
    assert!(!empty.try_acquire_at(100_000));
}

#[test]
fn rate_limit_per_node() {
    let mut m = LicenseManager::new(LicenseConfig::default());
    let a = PublicKey([1u8; 32]);
    let b = PublicKey([2u8; 32]);
    assert!(m.check_rate_limit_at(&a, 10));
    m.set_rate_limit(a, RateLimit { requests_per_second: 1, burst_size: 2 });
    assert!(m.check_rate_limit_at(&a, 1_000));
    assert!(m.check_rate_limit_at(&a, 1_000));
    assert!(!m.check_rate_limit_at(&a, 1_000));
    assert!(m.check_rate_limit_at(&b, 1_000));
    assert!(m.check_rate_limit_at(&a, 2_000));
    // Setting a limit again starts from a full bucket.
    m.set_rate_limit(a, RateLimit { requests_per_second: 1, burst_size: 1 });
    assert!(m.check_rate_limit_at(&a, 2_000));
    assert!(!m.check_rate_limit_at(&a, 2_000));
}

#[test]
fn local_verifier_at_explicit_times() {
    let l = license(1, 4, 100);
    let trusted = [PublicKey([4u8; 32])];
    assert!(LocalLicenseVerifier::verify_license_signature_at(&l, &trusted, 100).unwrap());
    assert!(!LocalLicenseVerifier::verify_license_signature_at(&l, &trusted, 101).unwrap());
    assert!(!LocalLicenseVerifier::verify_license_signature_at(&l, &[], 0).unwrap());
}

#[test]
fn blockchain_client() {
    let client = BlockchainLicenseClient::new(String::from("0xregistry"));
    assert!(client.fetch_license(ShardId([1u8; 32])).unwrap().is_none());
    assert!(!client.verify_license_on_chain_at(&license(1, 1, 0), 0).unwrap());
    assert!(client.verify_license_on_chain_at(&license(1, 1, 10), 9).unwrap());
    assert!(!client.verify_license_on_chain_at(&license(1, 1, 10), 10).unwrap());
    assert!(!client.verify_license_on_chain(&license(1, 1, 0)).unwrap());
    assert!(client.verify_license_on_chain(&license(1, 1, u64::MAX)).unwrap());
    assert!(client.register_license(license(1, 1, 1)).is_ok());
}

#[test]
fn usage_accounting() {
    let mut t = UsageTracker::default();
    let s = ShardId([1u8; 32]);
    t.record_usage_at(s, PublicKey([2u8; 32]), 7, 100);
    t.record_usage_at(s, PublicKey([3u8; 32]), 5, 200);
    let u = t.get_usage(s).unwrap();
    assert_eq!(u.license_id, s);
    assert_eq!(u.node_pubkey, PublicKey([2u8; 32]));
    assert_eq!(u.tokens_used, 12);
    assert_eq!(u.requests_made, 2);
    assert_eq!(u.last_updated, 200);
    assert!(t.can_record_usage(s, u64::MAX - 12));
    assert!(!t.can_record_usage(s, u64::MAX - 11));
    assert!(t.can_record_usage(ShardId([9u8; 32]), u64::MAX));
    t.reset_usage(s);
    assert!(t.get_usage(s).is_none());
}

#[test]
fn check_rate_limit_spends_whole_tokens_by_clock() {
    let mut m = LicenseManager::new(LicenseConfig::default());
    let node = PublicKey([4u8; 32]);
    m.set_rate_limit(node, RateLimit { requests_per_second: 0, burst_size: 2 });
    assert!(m.check_rate_limit(&node));
    assert!(m.check_rate_limit(&node));
    assert!(!m.check_rate_limit(&node));
    assert!(!m.check_rate_limit(&node));
}

#[test]
fn usage_after_records_and_resets() {
    let mut t = UsageTracker::new();
    let s = ShardId([1u8; 32]);
    let o = ShardId([2u8; 32]);
    t.record_usage_at(s, PublicKey([1u8; 32]), 3, 1);
    t.reset_usage(s);
    t.record_usage_at(o, PublicKey([1u8; 32]), 4, 2);
    assert!(t.get_usage(s).is_none());
    assert_eq!(t.get_usage(o).unwrap().tokens_used, 4);
    t.record_usage_at(s, PublicKey([5u8; 32]), 6, 3);
    let u = t.get_usage(s).unwrap();
    assert_eq!(u.tokens_used, 6);
    assert_eq!(u.requests_made, 1);
    assert_eq!(u.node_pubkey, PublicKey([5u8; 32]));
    assert_eq!(t.get_usage(o).unwrap().requests_made, 1);
}

#[test]
fn license_map_holds_licenses_by_shard() {
    let mut map = LicenseMap::new();
    map.insert(ShardId([1u8; 32]), license(1, 2, 3));
    map.insert(ShardId([1u8; 32]), license(1, 4, 5));
    assert_eq!(map.len(), 1);
    assert_eq!(map.get(&ShardId([1u8; 32])).unwrap().expiry_timestamp, 5);
}

#[test]
fn grants_over_time_stay_within_burst_plus_refill() {
    // Burst 2, one token per second: over 0..=3000 ms at most 2 + 3 grants.
    let mut lim = RateLimiter::new(1, 2);
    let mut granted = 0;
    let mut t = 1_000u64;
    while t <= 4_000 {
        if lim.try_acquire_at(t) {
            granted += 1;
        }
        t += 100;
    }
    assert_eq!(granted, 5);
}
