use vstd::prelude::*;
use crate::clock::current_unix_secs;
use crate::keyed::{map_get, KeyedStore};
use crate::types::{PublicKey, ShardId};

verus! {

/// Accumulated use of one shard's license.
#[derive(Clone, Copy, Debug)]
pub struct LicenseUsage {
    pub license_id: ShardId,
    pub node_pubkey: PublicKey,
    pub tokens_used: u64,
    pub requests_made: u64,
    pub last_updated: u64,
}

/// The totals after one more request of `tokens` tokens on `shard_id` by
/// `node_pubkey` at `now`: added to the earlier totals where there are some
/// (whose node stays), else a first entry with one request.
pub open spec fn recorded_usage(
    prev: Option<LicenseUsage>,
    shard_id: ShardId,
    node_pubkey: PublicKey,
    tokens: u64,
    now: u64,
) -> LicenseUsage {
    match prev {
        Some(u) => LicenseUsage {
            tokens_used: (u.tokens_used + tokens) as u64,
            requests_made: (u.requests_made + 1) as u64,
            last_updated: now,
            ..u
        },
        None => LicenseUsage {
            license_id: shard_id,
            node_pubkey,
            tokens_used: tokens,
            requests_made: 1,
            last_updated: now,
        },
    }
}

/// Adding `tokens` and one request to `prev` stays within 64 bits.
pub open spec fn usage_recordable(prev: Option<LicenseUsage>, tokens: u64) -> bool {
    match prev {
        Some(u) => u.tokens_used + tokens <= u64::MAX && u.requests_made + 1 <= u64::MAX,
        None => true,
    }
}

/// Usage totals, by shard.
pub struct UsageTracker {
    usage: KeyedStore<ShardId, LicenseUsage>,
}

impl UsageTracker {
    /// The totals, by shard.
    pub closed spec fn usage(&self) -> Map<ShardId, LicenseUsage> {
        self.usage@
    }

    /// Each shard's totals name that shard.
    pub closed spec fn wf(&self) -> bool {
        &&& self.usage.wf()
        &&& forall|k: ShardId| #[trigger] self.usage@.dom().contains(k) ==> self.usage@[k].license_id == k
    }

    /// A tracker with no totals.
    pub fn new() -> (t: Self)
        ensures
            t.wf(),
            t.usage() == Map::<ShardId, LicenseUsage>::empty(),
    {
        UsageTracker { usage: KeyedStore::new() }
    }

    /// Whether recording `tokens` more on `shard_id` stays within 64 bits.
    pub fn can_record_usage(&self, shard_id: ShardId, tokens: u64) -> (ok: bool)
        requires
            self.wf(),
        ensures
            ok == usage_recordable(map_get(self.usage(), shard_id), tokens),
    {
        match self.usage.get(&shard_id) {
            Some(u) => u.tokens_used <= u64::MAX - tokens && u.requests_made < u64::MAX,
            None => true,
        }
    }

    /// Records one request of `tokens` tokens on `shard_id` by `node_pubkey` at `now` (seconds).
    pub fn record_usage_at(&mut self, shard_id: ShardId, node_pubkey: PublicKey, tokens: u64, now: u64)
        requires
            old(self).wf(),
            usage_recordable(map_get(old(self).usage(), shard_id), tokens),
        ensures
            final(self).wf(),
            final(self).usage() == old(self).usage().insert(
                shard_id,
                recorded_usage(map_get(old(self).usage(), shard_id), shard_id, node_pubkey, tokens, now),
            ),
    {
        let updated = match self.usage.get(&shard_id) {
            Some(entry) => LicenseUsage {
                license_id: entry.license_id,
                node_pubkey: entry.node_pubkey,
                tokens_used: entry.tokens_used + tokens,
                requests_made: entry.requests_made + 1,
                last_updated: now,
            },
            None => LicenseUsage {
                license_id: shard_id,
                node_pubkey,
                tokens_used: tokens,
                requests_made: 1,
                last_updated: now,
            },
        };
        self.usage.insert(shard_id, updated);
    }

    /// Records one request of `tokens` tokens on `shard_id` by `node_pubkey`,
    /// stamped with the system clock (a clock that cannot be read stands for the latest time).
    pub fn record_usage(&mut self, shard_id: ShardId, node_pubkey: PublicKey, tokens: u64)
        requires
            old(self).wf(),
            usage_recordable(map_get(old(self).usage(), shard_id), tokens),
        ensures
            final(self).wf(),
            exists|t: u64|
                final(self).usage() == old(self).usage().insert(
                    shard_id,
                    #[trigger] recorded_usage(map_get(old(self).usage(), shard_id), shard_id, node_pubkey, tokens, t),
                ),
    {
        let now = current_unix_secs();
        self.record_usage_at(shard_id, node_pubkey, tokens, now);
    }

    /// The totals of `shard_id`, if any.
    pub fn get_usage(&self, shard_id: ShardId) -> (r: Option<LicenseUsage>)
        requires
            self.wf(),
        ensures
            r == map_get(self.usage(), shard_id),
    {
        self.usage.get(&shard_id)
    }

    /// Forgets the totals of `shard_id`.
    pub fn reset_usage(&mut self, shard_id: ShardId)
        requires
            old(self).wf(),
        ensures
            final(self).wf(),
            final(self).usage() == old(self).usage().remove(shard_id),
    {
        self.usage.remove(&shard_id);
    }
}

impl Default for UsageTracker {
    /// A tracker with no totals.
    fn default() -> (t: Self)
        ensures
            t.wf(),
            t.usage() == Map::<ShardId, LicenseUsage>::empty(),
    {
        Self::new()
    }
}

/// Recording adds the request's tokens and one request to the shard's totals
/// (starting from zero for a shard without totals), and stamps them with the time.
pub proof fn lemma_recording_accumulates(
    prev: Option<LicenseUsage>,
    shard_id: ShardId,
    node_pubkey: PublicKey,
    tokens: u64,
    now: u64,
)
    requires
        usage_recordable(prev, tokens),
    ensures
        ({
            let u = recorded_usage(prev, shard_id, node_pubkey, tokens, now);
            let (tokens_before, requests_before) = match prev {
                Some(p) => (p.tokens_used as int, p.requests_made as int),
                None => (0int, 0int),
            };
            &&& u.tokens_used == tokens_before + tokens
            &&& u.requests_made == requests_before + 1
            &&& u.last_updated == now
        }),
{
}


/// Once a shard's totals are reset, none are found for it; other shards keep theirs.
pub proof fn lemma_reset_forgets(usage: Map<ShardId, LicenseUsage>, shard_id: ShardId, other: ShardId)
    ensures
        map_get(usage.remove(shard_id), shard_id) == None::<LicenseUsage>,
        other != shard_id ==> map_get(usage.remove(shard_id), other) == map_get(usage, other),
{
}

/// Recording on one shard leaves every other shard's totals as they were.
pub proof fn lemma_record_leaves_others(
    usage: Map<ShardId, LicenseUsage>,
    shard_id: ShardId,
    node_pubkey: PublicKey,
    tokens: u64,
    now: u64,
    other: ShardId,
)
    requires
        other != shard_id,
    ensures
        map_get(
            usage.insert(shard_id, recorded_usage(map_get(usage, shard_id), shard_id, node_pubkey, tokens, now)),
            other,
        ) == map_get(usage, other),
{
}

/// The totals of `shard_id` after recording each of `records` (node, tokens,
/// time) in turn, starting from `prev`.
pub open spec fn recorded_run(
    prev: Option<LicenseUsage>,
    shard_id: ShardId,
    records: Seq<(PublicKey, u64, u64)>,
) -> Option<LicenseUsage>
    decreases records.len(),
{
    if records.len() == 0 {
        prev
    } else {
        let r = records.last();
        Some(recorded_usage(recorded_run(prev, shard_id, records.drop_last()), shard_id, r.0, r.1, r.2))
    }
}

/// The tokens of all of `records`.
pub open spec fn tokens_sum(records: Seq<(PublicKey, u64, u64)>) -> nat
    decreases records.len(),
{
    if records.len() == 0 {
        0
    } else {
        tokens_sum(records.drop_last()) + records.last().1 as nat
    }
}

/// Recording a run of requests on a shard without totals gives the sum of
/// their tokens, their number as the count of requests, and the first
/// recorder as the node, whatever the order of the amounts; each record of
/// the run stays within 64 bits where the sum does.
pub proof fn lemma_recorded_run_totals(shard_id: ShardId, records: Seq<(PublicKey, u64, u64)>)
    requires
        records.len() >= 1,
        tokens_sum(records) <= u64::MAX,
        records.len() <= u64::MAX,
    ensures
        usage_recordable(recorded_run(None, shard_id, records.drop_last()), records.last().1),
        recorded_run(None, shard_id, records) matches Some(u) && {
            &&& u.tokens_used == tokens_sum(records)
            &&& u.requests_made == records.len()
            &&& u.license_id == shard_id
            &&& u.node_pubkey == records[0].0
        },
    decreases records.len(),
{
    let init = records.drop_last();
    let last = records.last();
    if init.len() >= 1 {
        lemma_recorded_run_totals(shard_id, init);
        assert(init[0] == records[0]);
        let prev = recorded_run(None, shard_id, init);
        assert(prev matches Some(p) && p.tokens_used == tokens_sum(init) && p.requests_made == init.len());
        assert(tokens_sum(records) == tokens_sum(init) + last.1);
    } else {
        assert(recorded_run(None, shard_id, init) == None::<LicenseUsage>);
        assert(tokens_sum(init) == 0);
        assert(records[0] == last);
    }
}

/// One call on a usage tracker: recording a request, or resetting a shard.
pub enum UsageEvent {
    Record { shard_id: ShardId, node_pubkey: PublicKey, tokens: u64, now: u64 },
    Reset { shard_id: ShardId },
}

/// The totals after the calls of `events`, in order, from `usage`.
pub open spec fn apply_usage_events(usage: Map<ShardId, LicenseUsage>, events: Seq<UsageEvent>) -> Map<
    ShardId,
    LicenseUsage,
>
    decreases events.len(),
{
    if events.len() == 0 {
        usage
    } else {
        let before = apply_usage_events(usage, events.drop_last());
        match events.last() {
            UsageEvent::Record { shard_id, node_pubkey, tokens, now } => before.insert(
                shard_id,
                recorded_usage(map_get(before, shard_id), shard_id, node_pubkey, tokens, now),
            ),
            UsageEvent::Reset { shard_id } => before.remove(shard_id),
        }
    }
}

/// The call records a request on `shard_id`.
pub open spec fn records_shard(e: UsageEvent, shard_id: ShardId) -> bool {
    e matches UsageEvent::Record { shard_id: s, .. } && s == shard_id
}

/// The call resets `shard_id`.
pub open spec fn resets_shard(e: UsageEvent, shard_id: ShardId) -> bool {
    e matches UsageEvent::Reset { shard_id: s } && s == shard_id
}

/// Some call of `events` records on `shard_id`, and no later one resets it.
pub open spec fn recorded_since_reset(events: Seq<UsageEvent>, shard_id: ShardId) -> bool {
    exists|i: int|
        0 <= i < events.len() && #[trigger] records_shard(events[i], shard_id) && forall|j: int|
            i < j < events.len() ==> !#[trigger] resets_shard(events[j], shard_id)
}

/// Starting from no totals, a shard has totals exactly when a request was
/// recorded on it after its last reset.
pub proof fn lemma_usage_present_iff_recorded(events: Seq<UsageEvent>, shard_id: ShardId)
    ensures
        apply_usage_events(Map::empty(), events).dom().contains(shard_id) <==> recorded_since_reset(
            events,
            shard_id,
        ),
    decreases events.len(),
{
    if events.len() > 0 {
        let init = events.drop_last();
        let n = events.len() - 1;
        let e = events.last();
        lemma_usage_present_iff_recorded(init, shard_id);
        assert(forall|k: int| 0 <= k < init.len() ==> init[k] == events[k]);
        if records_shard(e, shard_id) {
            assert(records_shard(events[n], shard_id));
            assert(recorded_since_reset(events, shard_id));
        } else if resets_shard(e, shard_id) {
            if recorded_since_reset(events, shard_id) {
                let i = choose|i: int|
                    0 <= i < events.len() && #[trigger] records_shard(events[i], shard_id) && forall|j: int|
                        i < j < events.len() ==> !#[trigger] resets_shard(events[j], shard_id);
                assert(i != n);
                assert(resets_shard(events[n], shard_id));
            }
        } else {
            // The last call touches another shard: nothing changes for this one.
            if recorded_since_reset(events, shard_id) {
                let i = choose|i: int|
                    0 <= i < events.len() && #[trigger] records_shard(events[i], shard_id) && forall|j: int|
                        i < j < events.len() ==> !#[trigger] resets_shard(events[j], shard_id);
                assert(i != n);
                assert(records_shard(init[i], shard_id));
                assert forall|j: int| i < j < init.len() implies !#[trigger] resets_shard(init[j], shard_id) by {
                    assert(!resets_shard(events[j], shard_id));
                }
                assert(recorded_since_reset(init, shard_id));
            }
            if recorded_since_reset(init, shard_id) {
                let i = choose|i: int|
                    0 <= i < init.len() && #[trigger] records_shard(init[i], shard_id) && forall|j: int|
                        i < j < init.len() ==> !#[trigger] resets_shard(init[j], shard_id);
                assert(records_shard(events[i], shard_id));
                assert forall|j: int| i < j < events.len() implies !#[trigger] resets_shard(events[j], shard_id) by {
                    if j < n {
                        assert(!resets_shard(init[j], shard_id));
                    }
                }
                assert(recorded_since_reset(events, shard_id));
            }
            let before = apply_usage_events(Map::empty(), init);
            match e {
                UsageEvent::Record { shard_id: s, .. } => {
                    assert(s != shard_id);
                },
                UsageEvent::Reset { shard_id: s } => {
                    assert(s != shard_id);
                },
            }
        }
    }
}

} // verus!
