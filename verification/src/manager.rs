use vstd::prelude::*;
use crate::clock::current_unix_secs;
use crate::config::LicenseConfig;
use crate::keyed::{map_get, KeyedStore};
use crate::rate_limiter::{LimiterModel, RateLimit, RateLimiter};
use crate::types::{license_live, AuriaError, AuriaResult, License, PublicKey, ShardId};

verus! {

/// What validating `license` against the registered `licenses` at `now` (seconds) gives:
/// an error where no license is registered for its shard; otherwise whether the
/// registered license names the same node, is current, and carries the same signature.
pub open spec fn validation_outcome(licenses: Map<ShardId, License>, license: License, now: u64) -> AuriaResult<bool> {
    match map_get(licenses, license.shard_id) {
        None => Err(AuriaError::LicenseInvalid(license.shard_id)),
        Some(stored) => Ok(
            stored.node_pubkey == license.node_pubkey && license_live(stored, now) && license.signature
                == stored.signature,
        ),
    }
}

/// A current license is registered for `shard` at `now` (seconds).
pub open spec fn shard_licensed_at(licenses: Map<ShardId, License>, shard: ShardId, now: u64) -> bool {
    licenses.dom().contains(shard) && license_live(licenses[shard], now)
}

/// The shards of `ids`, in their order and with repeats, that lack a current license at `now`.
pub open spec fn unlicensed_at(licenses: Map<ShardId, License>, ids: Seq<ShardId>, now: u64) -> Seq<ShardId>
    decreases ids.len(),
{
    if ids.len() == 0 {
        Seq::empty()
    } else {
        let rest = unlicensed_at(licenses, ids.drop_last(), now);
        if shard_licensed_at(licenses, ids.last(), now) {
            rest
        } else {
            rest.push(ids.last())
        }
    }
}

/// Licenses held in a hash map, by shard.
pub type LicenseMap = std::collections::HashMap<ShardId, License>;

/// Registered licenses by shard, and rate limiters by node.
///
/// A clone is an independent copy: registrations and rate-limit checks on one
/// are not seen by the other. Managers that tasks share, whose clones all see
/// one store, are built by wrapping a manager in a lock.
#[derive(Clone)]
pub struct LicenseManager {
    licenses: KeyedStore<ShardId, License>,
    config: LicenseConfig,
    rate_limiters: KeyedStore<PublicKey, RateLimiter>,
}

impl LicenseManager {
    /// The registered licenses, by shard.
    pub closed spec fn licenses(&self) -> Map<ShardId, License> {
        self.licenses@
    }

    /// The rate limiters, by node.
    pub closed spec fn rate_limiters(&self) -> Map<PublicKey, LimiterModel> {
        self.rate_limiters@.map_values(|l: RateLimiter| l@)
    }

    /// The settings the manager was made with.
    pub closed spec fn config(&self) -> LicenseConfig {
        self.config
    }

    /// Each license is registered under its own shard, and every limiter holds
    /// no more than its burst.
    pub closed spec fn wf(&self) -> bool {
        &&& self.licenses.wf()
        &&& self.rate_limiters.wf()
        &&& forall|k: ShardId| #[trigger] self.licenses@.dom().contains(k) ==> self.licenses@[k].shard_id == k
        &&& forall|k: PublicKey| #[trigger] self.rate_limiters@.dom().contains(k) ==> self.rate_limiters@[k].wf()
    }

    /// An empty manager: no licenses, no rate limiters.
    pub fn new(config: LicenseConfig) -> (m: Self)
        ensures
            m.wf(),
            m.licenses() == Map::<ShardId, License>::empty(),
            m.rate_limiters() == Map::<PublicKey, LimiterModel>::empty(),
            m.config() == config,
    {
        let m = LicenseManager { licenses: KeyedStore::new(), config, rate_limiters: KeyedStore::new() };
        assert(m.rate_limiters() =~= Map::<PublicKey, LimiterModel>::empty());
        m
    }

    /// Whether `license` is current at `now` (seconds).
    pub fn is_license_valid_at(license: &License, now: u64) -> (valid: bool)
        ensures
            valid == license_live(*license, now),
    {
        license.expiry_timestamp > now
    }

    /// Validates `license` against the registered one at `now` (seconds).
    pub fn validate_license_at(&self, license: &License, now: u64) -> (r: AuriaResult<bool>)
        requires
            self.wf(),
        ensures
            r == validation_outcome(self.licenses(), *license, now),
    {
        match self.licenses.get(&license.shard_id) {
            Some(stored) => {
                if stored.node_pubkey != license.node_pubkey {
                    return Ok(false);
                }
                if !Self::is_license_valid_at(&stored, now) {
                    return Ok(false);
                }
                Ok(license.signature == stored.signature)
            },
            None => Err(AuriaError::LicenseInvalid(license.shard_id)),
        }
    }

    /// Validates `license` against the registered one, by the system clock (a
    /// clock that cannot be read counts every license as expired).
    pub fn validate_license(&self, license: &License) -> (r: AuriaResult<bool>)
        requires
            self.wf(),
        ensures
            exists|t: u64| r == validation_outcome(self.licenses(), *license, t),
    {
        let now = current_unix_secs();
        self.validate_license_at(license, now)
    }

    /// Whether a current license is registered for `shard_id` at `now` (seconds).
    pub fn license_valid_for_shard_at(&self, shard_id: ShardId, now: u64) -> (valid: bool)
        requires
            self.wf(),
        ensures
            valid == shard_licensed_at(self.licenses(), shard_id, now),
    {
        match self.licenses.get(&shard_id) {
            Some(license) => Self::is_license_valid_at(&license, now),
            None => false,
        }
    }

    /// Whether a current license is registered for `shard_id`, by the system clock.
    pub fn license_valid_for_shard(&self, shard_id: ShardId) -> (valid: bool)
        requires
            self.wf(),
        ensures
            exists|t: u64| valid == shard_licensed_at(self.licenses(), shard_id, t),
            valid ==> self.licenses().dom().contains(shard_id),
    {
        let now = current_unix_secs();
        self.license_valid_for_shard_at(shard_id, now)
    }

    /// Registers `license` under its shard, replacing the license registered there.
    pub fn register_license(&mut self, license: License)
        requires
            old(self).wf(),
        ensures
            final(self).wf(),
            final(self).licenses() == old(self).licenses().insert(license.shard_id, license),
            final(self).rate_limiters() == old(self).rate_limiters(),
            final(self).config() == old(self).config(),
    {
        self.licenses.insert(license.shard_id, license);
    }

    /// The shards of `shard_ids`, in order, that lack a current license at `now` (seconds).
    pub fn check_all_licenses_at(&self, shard_ids: &[ShardId], now: u64) -> (r: AuriaResult<Vec<ShardId>>)
        requires
            self.wf(),
        ensures
            r matches Ok(invalid) && invalid@ == unlicensed_at(self.licenses(), shard_ids@, now),
    {
        let mut invalid: Vec<ShardId> = Vec::new();
        let n: usize = shard_ids.len();
        let mut i: usize = 0;
        while i < n
            invariant
                self.wf(),
                n == shard_ids@.len(),
                i <= n,
                invalid@ == unlicensed_at(self.licenses(), shard_ids@.subrange(0, i as int), now),
            decreases n - i,
        {
            let shard_id = shard_ids[i];
            assert(shard_ids@.subrange(0, i + 1).drop_last() =~= shard_ids@.subrange(0, i as int));
            if !self.license_valid_for_shard_at(shard_id, now) {
                invalid.push(shard_id);
            }
            i = i + 1;
        }
        assert(shard_ids@.subrange(0, n as int) =~= shard_ids@);
        Ok(invalid)
    }

    /// The shards of `shard_ids`, in order, that lack a current license, by the
    /// system clock read once; a clock that cannot be read counts every license as expired.
    pub fn check_all_licenses(&self, shard_ids: &[ShardId]) -> (r: AuriaResult<Vec<ShardId>>)
        requires
            self.wf(),
        ensures
            r matches Ok(invalid) && exists|t: u64| invalid@ == unlicensed_at(self.licenses(), shard_ids@, t),
    {
        let now = current_unix_secs();
        self.check_all_licenses_at(shard_ids, now)
    }

    /// The license registered for `shard_id`, if any.
    pub fn get_license(&self, shard_id: ShardId) -> (r: Option<License>)
        requires
            self.wf(),
        ensures
            r == map_get(self.licenses(), shard_id),
    {
        self.licenses.get(&shard_id)
    }

    /// Whether a current license is registered for `shard_id`, by the system clock.
    pub fn has_valid_license(&self, shard_id: ShardId) -> (valid: bool)
        requires
            self.wf(),
        ensures
            exists|t: u64| valid == shard_licensed_at(self.licenses(), shard_id, t),
            valid ==> self.licenses().dom().contains(shard_id),
    {
        self.license_valid_for_shard(shard_id)
    }

    /// One request of `node_pubkey` at `now_ms` (milliseconds): granted outright
    /// where the node has no rate limiter, else decided by its limiter.
    pub fn check_rate_limit_at(&mut self, node_pubkey: &PublicKey, now_ms: u64) -> (granted: bool)
        requires
            old(self).wf(),
            old(self).rate_limiters().dom().contains(*node_pubkey) ==> old(self).rate_limiters()[*node_pubkey].can_advance_to(now_ms as nat),
        ensures
            final(self).wf(),
            final(self).licenses() == old(self).licenses(),
            final(self).config() == old(self).config(),
            !old(self).rate_limiters().dom().contains(*node_pubkey) ==> granted && final(self).rate_limiters() == old(self).rate_limiters(),
            old(self).rate_limiters().dom().contains(*node_pubkey) ==> {
                let (next, g) = old(self).rate_limiters()[*node_pubkey].acquire(now_ms as nat);
                &&& granted == g
                &&& final(self).rate_limiters() == old(self).rate_limiters().insert(*node_pubkey, next)
            },
    {
        match self.rate_limiters.get(node_pubkey) {
            Some(limiter) => {
                let mut limiter = limiter;
                let granted = limiter.try_acquire_at(now_ms);
                self.rate_limiters.insert(*node_pubkey, limiter);
                assert(self.rate_limiters() =~= old(self).rate_limiters().insert(*node_pubkey, limiter@));
                granted
            },
            None => true,
        }
    }

    /// One request of `node_pubkey` now: granted outright where the node has
    /// no rate limiter, else decided by its limiter's
    /// [`RateLimiter::try_acquire`] (a clock that cannot be read, or that stands
    /// before the limiter's last use, counts as no time having passed).
    pub fn check_rate_limit(&mut self, node_pubkey: &PublicKey) -> (granted: bool)
        requires
            old(self).wf(),
        ensures
            final(self).wf(),
            final(self).licenses() == old(self).licenses(),
            final(self).config() == old(self).config(),
            !old(self).rate_limiters().dom().contains(*node_pubkey) ==> granted && final(self).rate_limiters() == old(self).rate_limiters(),
            old(self).rate_limiters().dom().contains(*node_pubkey) ==> exists|t: nat|
                #[trigger] old(self).rate_limiters()[*node_pubkey].can_advance_to(t) && {
                    let (next, g) = old(self).rate_limiters()[*node_pubkey].acquire(t);
                    &&& granted == g
                    &&& final(self).rate_limiters() == old(self).rate_limiters().insert(*node_pubkey, next)
                },
            old(self).rate_limiters().dom().contains(*node_pubkey)
                && old(self).rate_limiters()[*node_pubkey].tokens_milli >= 1000 ==> granted,
    {
        match self.rate_limiters.get(node_pubkey) {
            Some(limiter) => {
                let mut limiter = limiter;
                let ghost before = limiter@;
                let granted = limiter.try_acquire();
                self.rate_limiters.insert(*node_pubkey, limiter);
                assert(self.rate_limiters() =~= old(self).rate_limiters().insert(*node_pubkey, limiter@));
                assert(before == old(self).rate_limiters()[*node_pubkey]);
                granted
            },
            None => true,
        }
    }

    /// Gives `node_pubkey` a fresh, full rate limiter with the given limits,
    /// replacing the one it had.
    pub fn set_rate_limit(&mut self, node_pubkey: PublicKey, limit: RateLimit)
        requires
            old(self).wf(),
        ensures
            final(self).wf(),
            final(self).licenses() == old(self).licenses(),
            final(self).config() == old(self).config(),
            final(self).rate_limiters() == old(self).rate_limiters().insert(
                node_pubkey,
                LimiterModel::fresh(limit.requests_per_second as nat, limit.burst_size as nat),
            ),
    {
        let limiter = RateLimiter::new(limit.requests_per_second, limit.burst_size);
        self.rate_limiters.insert(node_pubkey, limiter);
        assert(self.rate_limiters() =~= old(self).rate_limiters().insert(node_pubkey, limiter@));
    }
}

impl Default for LicenseManager {
    /// A manager with the default settings.
    fn default() -> (m: Self)
        ensures
            m.wf(),
            m.licenses() == Map::<ShardId, License>::empty(),
            m.rate_limiters() == Map::<PublicKey, LimiterModel>::empty(),
            m.config().trusted_issuers@ == Seq::<PublicKey>::empty(),
            m.config().require_signature_verification,
            m.config().license_check_interval_seconds == 60,
    {
        Self::new(LicenseConfig::default())
    }
}

/// A registered license is what a lookup of its shard gives back, and
/// registering it leaves every other shard's license as it was.
pub proof fn lemma_register_then_get(licenses: Map<ShardId, License>, license: License, other: ShardId)
    ensures
        map_get(licenses.insert(license.shard_id, license), license.shard_id) == Some(license),
        other != license.shard_id ==> map_get(licenses.insert(license.shard_id, license), other) == map_get(
            licenses,
            other,
        ),
{
}

/// Validating the very license that is registered for its shard succeeds
/// exactly while it is current; validating a license for a shard with no
/// registered license is refused with an error naming that shard; and a
/// license for another node never validates.
pub proof fn lemma_validation_of_registered(licenses: Map<ShardId, License>, license: License, now: u64)
    ensures
        licenses.dom().contains(license.shard_id) && licenses[license.shard_id] == license ==> validation_outcome(
            licenses,
            license,
            now,
        ) == Ok::<bool, AuriaError>(license_live(license, now)),
        !licenses.dom().contains(license.shard_id) ==> validation_outcome(licenses, license, now) == Err::<
            bool,
            AuriaError,
        >(AuriaError::LicenseInvalid(license.shard_id)),
        licenses.dom().contains(license.shard_id) && licenses[license.shard_id].node_pubkey != license.node_pubkey
            ==> validation_outcome(licenses, license, now) == Ok::<bool, AuriaError>(false),
{
}

/// The shards reported as lacking a license are exactly those of the input
/// without a current license, and there are no more of them than inputs.
pub proof fn lemma_unlicensed_exact(licenses: Map<ShardId, License>, ids: Seq<ShardId>, now: u64)
    ensures
        unlicensed_at(licenses, ids, now).len() <= ids.len(),
        forall|x: ShardId|
            #[trigger] unlicensed_at(licenses, ids, now).contains(x) <==> ids.contains(x) && !shard_licensed_at(
                licenses,
                x,
                now,
            ),
    decreases ids.len(),
{
    if ids.len() > 0 {
        let init = ids.drop_last();
        lemma_unlicensed_exact(licenses, init, now);
        let rest = unlicensed_at(licenses, init, now);
        assert forall|x: ShardId|
            #[trigger] unlicensed_at(licenses, ids, now).contains(x) <==> ids.contains(x) && !shard_licensed_at(
                licenses,
                x,
                now,
            ) by {
            assert(ids =~= init.push(ids.last()));
            if ids.contains(x) {
                let j = choose|j: int| 0 <= j < ids.len() && ids[j] == x;
                if j < ids.len() - 1 {
                    assert(init[j] == x);
                    assert(init.contains(x));
                }
            }
            if init.contains(x) {
                let j = choose|j: int| 0 <= j < init.len() && init[j] == x;
                assert(ids[j] == x);
            }
            if !shard_licensed_at(licenses, ids.last(), now) {
                assert(rest.push(ids.last())[rest.len() as int] == ids.last());
                if rest.contains(x) {
                    let j = choose|j: int| 0 <= j < rest.len() && rest[j] == x;
                    assert(rest.push(ids.last())[j] == x);
                }
                if rest.push(ids.last()).contains(x) {
                    let j = choose|j: int| 0 <= j < rest.len() + 1 && rest.push(ids.last())[j] == x;
                    if j < rest.len() {
                        assert(rest[j] == x);
                    }
                }
            }
        }
    }
}


/// Right after a node is given a rate limit, of `k` requests it makes at one
/// instant exactly the first `burst_size` are granted; other nodes' limiters are untouched.
pub proof fn lemma_new_limit_grants_burst(
    limiters: Map<PublicKey, LimiterModel>,
    node_pubkey: PublicKey,
    limit: RateLimit,
    other: PublicKey,
    now: nat,
    k: nat,
)
    ensures
        ({
            let set = limiters.insert(
                node_pubkey,
                LimiterModel::fresh(limit.requests_per_second as nat, limit.burst_size as nat),
            );
            &&& set[node_pubkey].grants_at(now, k) == if k < limit.burst_size { k } else { limit.burst_size as nat }
            &&& other != node_pubkey ==> map_get(set, other) == map_get(limiters, other)
        }),
{
    crate::rate_limiter::lemma_fresh_grants_burst(limit.requests_per_second as nat, limit.burst_size as nat, now, k);
}

/// The licenses after registering each of `licenses` in turn, starting from `registered`.
pub open spec fn register_all(registered: Map<ShardId, License>, licenses: Seq<License>) -> Map<ShardId, License>
    decreases licenses.len(),
{
    if licenses.len() == 0 {
        registered
    } else {
        register_all(registered, licenses.drop_last()).insert(licenses.last().shard_id, licenses.last())
    }
}

/// The position of the last license of `licenses` for `shard_id`; -1 where there is none.
pub open spec fn last_registration(licenses: Seq<License>, shard_id: ShardId) -> int
    decreases licenses.len(),
{
    if licenses.len() == 0 {
        -1
    } else if licenses.last().shard_id == shard_id {
        licenses.len() - 1
    } else {
        last_registration(licenses.drop_last(), shard_id)
    }
}

/// Starting from no licenses, a lookup of a shard after a history of
/// registrations gives the last license registered for it, or none where no
/// license was registered for it.
pub proof fn lemma_lookup_after_registrations(licenses: Seq<License>, shard_id: ShardId)
    ensures
        ({
            let j = last_registration(licenses, shard_id);
            &&& -1 <= j < licenses.len()
            &&& j >= 0 ==> licenses[j].shard_id == shard_id
            &&& forall|k: int| j < k < licenses.len() ==> #[trigger] licenses[k].shard_id != shard_id
            &&& map_get(register_all(Map::empty(), licenses), shard_id) == if j >= 0 {
                Some(licenses[j])
            } else {
                None
            }
        }),
    decreases licenses.len(),
{
    if licenses.len() > 0 {
        let init = licenses.drop_last();
        lemma_lookup_after_registrations(init, shard_id);
        assert(forall|k: int| 0 <= k < init.len() ==> init[k] == licenses[k]);
    }
}

} // verus!
