//! License verification and management: shard licenses, their signatures,
//! per-node rate limiting and usage accounting.
pub mod types;
pub mod keyed;
mod clock;
pub mod rate_limiter;
pub mod signing;
pub mod config;
pub mod manager;
pub mod local_verifier;
pub mod blockchain;
pub mod usage;

pub use types::{ShardId, PublicKey, Signature, License, AuriaError, AuriaResult, StoreKey, bytes_equal};
pub use keyed::KeyedStore;
pub use rate_limiter::{RateLimit, RateLimiter};
pub use signing::{LicenseGenerator, u64_to_le_bytes, signing_message, signature_from_digest, signature_matches_digest};
pub use config::LicenseConfig;
pub use manager::{LicenseManager, LicenseMap};
pub use local_verifier::{LocalLicenseVerifier, issuer_listed};
pub use blockchain::BlockchainLicenseClient;
pub use usage::{LicenseUsage, UsageTracker};
