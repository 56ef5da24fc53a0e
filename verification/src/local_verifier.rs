use vstd::prelude::*;
use crate::clock::current_unix_secs;
use crate::types::{AuriaResult, License, PublicKey};

verus! {

/// Whether a license is accepted locally at `now` (seconds): its node is one of
/// the trusted issuers and it has not expired before `now`.
pub open spec fn locally_accepted(license: License, trusted_issuers: Seq<PublicKey>, now: u64) -> bool {
    trusted_issuers.contains(license.node_pubkey) && !(license.expiry_timestamp < now)
}

/// Whether `key` is one of `keys`.
pub fn issuer_listed(keys: &[PublicKey], key: &PublicKey) -> (found: bool)
    ensures
        found == keys@.contains(*key),
{
    let n: usize = keys.len();
    let mut i: usize = 0;
    while i < n
        invariant
            n == keys@.len(),
            i <= n,
            forall|j: int| 0 <= j < i ==> keys@[j] != *key,
        decreases n - i,
    {
        if keys[i] == *key {
            assert(keys@[i as int] == *key);
            return true;
        }
        i = i + 1;
    }
    false
}

/// Checks licenses against a list of trusted issuers, without a registry.
pub struct LocalLicenseVerifier;

impl LocalLicenseVerifier {
    /// Whether `license` is accepted at `now` (seconds); never an error.
    pub fn verify_license_signature_at(license: &License, trusted_issuers: &[PublicKey], now: u64) -> (r: AuriaResult<bool>)
        ensures
            r == Ok::<bool, crate::types::AuriaError>(locally_accepted(*license, trusted_issuers@, now)),
    {
        if !issuer_listed(trusted_issuers, &license.node_pubkey) {
            return Ok(false);
        }
        if license.expiry_timestamp < now {
            return Ok(false);
        }
        Ok(true)
    }

    /// Whether `license` is accepted by the system clock (a clock that cannot
    /// be read stands for the latest time); never an error.
    pub fn verify_license_signature(license: &License, trusted_issuers: &[PublicKey]) -> (r: AuriaResult<bool>)
        ensures
            exists|t: u64| r == Ok::<bool, crate::types::AuriaError>(locally_accepted(*license, trusted_issuers@, t)),
            !trusted_issuers@.contains(license.node_pubkey) ==> r == Ok::<bool, crate::types::AuriaError>(false),
    {
        let now = current_unix_secs();
        Self::verify_license_signature_at(license, trusted_issuers, now)
    }
}

} // verus!
