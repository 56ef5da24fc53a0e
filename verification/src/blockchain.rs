use vstd::prelude::*;
use crate::clock::current_unix_secs;
use crate::keyed::{map_get, KeyedStore};
use crate::types::{AuriaError, AuriaResult, License, ShardId};

verus! {

/// Whether the on-chain check accepts a license at `now` (seconds): an expiry
/// of 0 is never accepted; otherwise the license must expire after `now`.
pub open spec fn chain_accepts(license: License, now: u64) -> bool {
    license.expiry_timestamp != 0 && license.expiry_timestamp > now
}

/// What the cache answers for `shard_id`: the cached entry, or no license.
pub open spec fn cached_license(cache: Map<ShardId, Option<License>>, shard_id: ShardId) -> Option<License> {
    match map_get(cache, shard_id) {
        Some(entry) => entry,
        None => None,
    }
}

/// Client of an on-chain license registry, with a per-shard cache of answers.
#[derive(Clone)]
pub struct BlockchainLicenseClient {
    registry_address: String,
    cache: KeyedStore<ShardId, Option<License>>,
}

impl BlockchainLicenseClient {
    /// The registry's address.
    pub closed spec fn registry_address(&self) -> Seq<char> {
        self.registry_address@
    }

    /// The cached answers, by shard.
    pub closed spec fn cache(&self) -> Map<ShardId, Option<License>> {
        self.cache@
    }

    /// The cache is a well-formed store.
    pub closed spec fn wf(&self) -> bool {
        self.cache.wf()
    }

    /// A client of the registry at `registry_address`, with an empty cache.
    pub fn new(registry_address: String) -> (client: Self)
        ensures
            client.wf(),
            client.registry_address() == registry_address@,
            client.cache() == Map::<ShardId, Option<License>>::empty(),
    {
        BlockchainLicenseClient { registry_address, cache: KeyedStore::new() }
    }

    /// The cached answer for `shard_id`, or no license; never an error.
    pub fn fetch_license(&self, shard_id: ShardId) -> (r: AuriaResult<Option<License>>)
        requires
            self.wf(),
        ensures
            r == Ok::<Option<License>, AuriaError>(cached_license(self.cache(), shard_id)),
    {
        match self.cache.get(&shard_id) {
            Some(entry) => Ok(entry),
            None => Ok(None),
        }
    }

    /// Whether the on-chain check accepts `license` at `now` (seconds); never an error.
    pub fn verify_license_on_chain_at(&self, license: &License, now: u64) -> (r: AuriaResult<bool>)
        ensures
            r == Ok::<bool, AuriaError>(chain_accepts(*license, now)),
    {
        if license.expiry_timestamp == 0 {
            return Ok(false);
        }
        Ok(license.expiry_timestamp > now)
    }

    /// Whether the on-chain check accepts `license` by the system clock (a clock
    /// that cannot be read stands for the latest time); never an error.
    pub fn verify_license_on_chain(&self, license: &License) -> (r: AuriaResult<bool>)
        ensures
            exists|t: u64| r == Ok::<bool, AuriaError>(chain_accepts(*license, t)),
            license.expiry_timestamp == 0 ==> r == Ok::<bool, AuriaError>(false),
    {
        let now = current_unix_secs();
        self.verify_license_on_chain_at(license, now)
    }

    /// Accepts a license for the registry; always succeeds.
    pub fn register_license(&self, _license: License) -> (r: AuriaResult<()>)
        ensures
            r == Ok::<(), AuriaError>(()),
    {
        Ok(())
    }
}


/// A client whose cache holds nothing answers every shard with no license.
pub proof fn lemma_empty_cache_fetches_nothing(shard_id: ShardId)
    ensures
        cached_license(Map::<ShardId, Option<License>>::empty(), shard_id) == None::<License>,
{
}

} // verus!
