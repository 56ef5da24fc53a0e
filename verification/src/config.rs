use vstd::prelude::*;
use crate::types::PublicKey;

verus! {

/// Settings of a [`crate::LicenseManager`].
#[derive(Clone, Debug)]
pub struct LicenseConfig {
    pub trusted_issuers: Vec<PublicKey>,
    pub require_signature_verification: bool,
    pub license_check_interval_seconds: u64,
}

impl Default for LicenseConfig {
    /// No trusted issuers, signature verification required, a check every 60 seconds.
    fn default() -> (config: Self)
        ensures
            config.trusted_issuers@ == Seq::<PublicKey>::empty(),
            config.require_signature_verification,
            config.license_check_interval_seconds == 60,
    {
        LicenseConfig {
            trusted_issuers: Vec::new(),
            require_signature_verification: true,
            license_check_interval_seconds: 60,
        }
    }
}

} // verus!
