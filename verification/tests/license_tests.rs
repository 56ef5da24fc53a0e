use auria_license::{
    LicenseConfig, LicenseGenerator, License, LicenseManager, LocalLicenseVerifier, PublicKey, RateLimit,
    RateLimiter, ShardId, Signature, UsageTracker,
};

#[test]
fn test_local_license_verifier() {
    let license = License {
        shard_id: ShardId([0u8; 32]),
        node_pubkey: PublicKey([1u8; 32]),
        expiry_timestamp: u64::MAX,
        signature: Signature([0u8; 64]),
    };
    let trusted = vec![PublicKey([1u8; 32])];
    assert!(LocalLicenseVerifier::verify_license_signature(&license, &trusted).unwrap());
}

#[test]
fn test_license_generation() {
    let shard_id = ShardId([1u8; 32]);
    let node_pubkey = PublicKey([2u8; 32]);

    let license = LicenseGenerator::generate_license(shard_id, node_pubkey, u64::MAX);

    assert_eq!(license.shard_id, shard_id);
    assert_eq!(license.node_pubkey, node_pubkey);
    assert_eq!(license.expiry_timestamp, u64::MAX);
}

#[test]
fn test_rate_limiter() {
    let mut limiter = RateLimiter::new(10, 5);

    for _ in 0..5 {
        assert!(limiter.try_acquire());
    }

    for _ in 0..10 {
        assert!(!limiter.try_acquire());
    }
}

#[test]
fn test_license_manager() {
    let config = LicenseConfig::default();
    let mut manager = LicenseManager::new(config);

    let shard_id = ShardId([1u8; 32]);
    let license = License {
        shard_id,
        node_pubkey: PublicKey([1u8; 32]),
        expiry_timestamp: u64::MAX,
        signature: Signature([0u8; 64]),
    };

    manager.register_license(license);

    assert!(manager.has_valid_license(shard_id));
}

#[test]
fn test_usage_tracker() {
    let mut tracker = UsageTracker::new();

    let shard_id = ShardId([1u8; 32]);
    let node_pubkey = PublicKey([2u8; 32]);

    tracker.record_usage(shard_id, node_pubkey, 100);
    tracker.record_usage(shard_id, node_pubkey, 50);

    let usage = tracker.get_usage(shard_id).unwrap();

    assert_eq!(usage.tokens_used, 150);
    assert_eq!(usage.requests_made, 2);
}

#[test]
fn test_license_config_default() {
    let config = LicenseConfig::default();

    assert!(config.trusted_issuers.is_empty());
    assert!(config.require_signature_verification);
    assert_eq!(config.license_check_interval_seconds, 60);
}

/// The refill after a pause of 1.1 s, on explicit clock readings in milliseconds.
#[test]
fn test_rate_limiter_burst_refill() {
    let mut limiter = RateLimiter::new(1, 5);

    for _ in 0..5 {
        assert!(limiter.try_acquire_at(1_000));
    }

    assert!(limiter.try_acquire_at(1_000 + 1_100));
}

#[test]
fn test_license_manager_check_rate_limit() {
    let config = LicenseConfig::default();
    let mut manager = LicenseManager::new(config);

    let node = PublicKey([1u8; 32]);

    assert!(manager.check_rate_limit(&node));

    manager.set_rate_limit(node.clone(), RateLimit { requests_per_second: 1, burst_size: 1 });

    assert!(manager.check_rate_limit(&node));
    assert!(!manager.check_rate_limit(&node));
}

#[test]
fn test_license_manager_register_multiple() {
    let config = LicenseConfig::default();
    let mut manager = LicenseManager::new(config);

    let shard1 = ShardId([1u8; 32]);
    let shard2 = ShardId([2u8; 32]);

    let license1 = License {
        shard_id: shard1,
        node_pubkey: PublicKey([1u8; 32]),
        expiry_timestamp: u64::MAX,
        signature: Signature([0u8; 64]),
    };

    let license2 = License {
        shard_id: shard2,
        node_pubkey: PublicKey([1u8; 32]),
        expiry_timestamp: u64::MAX,
        signature: Signature([0u8; 64]),
    };

    manager.register_license(license1);
    manager.register_license(license2);

    assert!(manager.has_valid_license(shard1));
    assert!(manager.has_valid_license(shard2));
}

#[test]
fn test_license_manager_check_all() {
    let config = LicenseConfig::default();
    let mut manager = LicenseManager::new(config);

    let shard1 = ShardId([1u8; 32]);
    let shard2 = ShardId([2u8; 32]);
    let shard3 = ShardId([3u8; 32]);

    let license = License {
        shard_id: shard1,
        node_pubkey: PublicKey([1u8; 32]),
        expiry_timestamp: u64::MAX,
        signature: Signature([0u8; 64]),
    };

    manager.register_license(license);

    let invalid = manager.check_all_licenses(&[shard1, shard2, shard3]).unwrap();

    assert_eq!(invalid.len(), 2);
}

#[test]
fn test_local_license_verifier_untrusted() {
    let license = License {
        shard_id: ShardId([0u8; 32]),
        node_pubkey: PublicKey([1u8; 32]),
        expiry_timestamp: u64::MAX,
        signature: Signature([0u8; 64]),
    };
    let trusted = vec![PublicKey([2u8; 32])];

    assert!(!LocalLicenseVerifier::verify_license_signature(&license, &trusted).unwrap());
}

#[test]
fn test_local_license_verifier_expired() {
    let license = License {
        shard_id: ShardId([0u8; 32]),
        node_pubkey: PublicKey([1u8; 32]),
        expiry_timestamp: 1,
        signature: Signature([0u8; 64]),
    };
    let trusted = vec![PublicKey([1u8; 32])];

    assert!(!LocalLicenseVerifier::verify_license_signature(&license, &trusted).unwrap());
}

#[test]
fn test_usage_tracker_reset() {
    let mut tracker = UsageTracker::new();

    let shard_id = ShardId([1u8; 32]);
    let node_pubkey = PublicKey([2u8; 32]);

    tracker.record_usage(shard_id, node_pubkey, 100);

    assert!(tracker.get_usage(shard_id).is_some());

    tracker.reset_usage(shard_id);

    assert!(tracker.get_usage(shard_id).is_none());
}
