//! When which subscription is sampled, and what the sampler does next.
use crate::error::{ErrorModel, GpuError};
use crate::model::SampleRequest;
use crate::ordered::{Ordered, Relation};
use crate::snapshot::GpuSnapshot;
use crate::sorted_map::{lists_keys, SortedMap};
use crate::text::{owned, relate_text, text_less};
use vstd::prelude::*;

verus! {

pub const MIN_INTERVAL_MS: u64 = 50;

pub const MAX_INTERVAL_MS: u64 = 60_000;

/// A snapshot is shared by subscriptions that are due within this time of it.
pub const SNAPSHOT_COALESCE_NS: u64 = 10_000_000;

pub const COMMAND_QUEUE_CAPACITY: usize = 256;

pub const MAX_SUBSCRIPTIONS: usize = 128;

pub const SHUTDOWN_TIMEOUT_MS: u64 = 2_000;

/// How long the sampler sleeps when nothing is due.
pub const IDLE_NS: u64 = 60_000_000_000;

pub const NS_PER_MS: u64 = 1_000_000;

/// How a device is watched.
#[derive(Debug, Clone, Copy, PartialEq, Eq, Structural)]
pub struct WatchOptions {
    pub interval_ms: u64,
    pub include_processes: bool,
}

impl Default for WatchOptions {
    fn default() -> (options: Self)
        ensures
            options == (WatchOptions { interval_ms: 1_000, include_processes: false }),
    {
        WatchOptions { interval_ms: 1_000, include_processes: false }
    }
}

/// An interval within the bounds.
pub open spec fn bounded_interval(interval_ms: u64) -> u64 {
    if interval_ms < MIN_INTERVAL_MS {
        MIN_INTERVAL_MS
    } else if interval_ms > MAX_INTERVAL_MS {
        MAX_INTERVAL_MS
    } else {
        interval_ms
    }
}

pub fn clamp_interval(interval_ms: u64) -> (bounded: u64)
    ensures
        bounded == bounded_interval(interval_ms),
        MIN_INTERVAL_MS <= bounded <= MAX_INTERVAL_MS,
        50 <= bounded <= 60_000,
{
    if interval_ms < MIN_INTERVAL_MS {
        MIN_INTERVAL_MS
    } else if interval_ms > MAX_INTERVAL_MS {
        MAX_INTERVAL_MS
    } else {
        interval_ms
    }
}

/// A watched device. Times are in nanoseconds on a clock that never goes back.
pub struct Subscription {
    pub device_id: String,
    pub options: WatchOptions,
    pub next_due: u128,
}

impl Clone for Subscription {
    fn clone(&self) -> (copy: Self)
        ensures
            copy == *self,
    {
        Subscription {
            device_id: self.device_id.clone(),
            options: self.options,
            next_due: self.next_due,
        }
    }
}

/// Which snapshots can be shared: those of one device, with or without its processes.
pub struct CacheKey {
    pub device_id: String,
    pub include_processes: bool,
}

/// A cache key by its contents.
pub struct CachePlace {
    pub device_id: Seq<char>,
    pub include_processes: bool,
}

impl Ordered for CacheKey {
    type Model = CachePlace;

    open spec fn model(&self) -> CachePlace {
        CachePlace { device_id: self.device_id@, include_processes: self.include_processes }
    }

    open spec fn less(a: CachePlace, b: CachePlace) -> bool {
        if a.device_id != b.device_id {
            text_less(a.device_id, b.device_id)
        } else {
            !a.include_processes && b.include_processes
        }
    }

    proof fn less_irreflexive(a: CachePlace) {
    }

    proof fn less_transitive(a: CachePlace, b: CachePlace, c: CachePlace) {
        if a.device_id != b.device_id && b.device_id != c.device_id {
            String::less_transitive(a.device_id, b.device_id, c.device_id);
            String::less_irreflexive(a.device_id);
        }
    }

    proof fn less_total(a: CachePlace, b: CachePlace) {
        String::less_total(a.device_id, b.device_id);
    }

    fn relation(&self, other: &Self) -> (relation: Relation) {
        proof {
            String::less_irreflexive(self.device_id@);
        }
        match relate_text(self.device_id.as_str(), other.device_id.as_str()) {
            Relation::Before => Relation::Before,
            Relation::After => Relation::After,
            Relation::Same => if self.include_processes == other.include_processes {
                Relation::Same
            } else if other.include_processes {
                Relation::Before
            } else {
                Relation::After
            },
        }
    }
}

/// The key under which the snapshots of a subscription are shared.
pub open spec fn share_key(subscription: Subscription) -> CachePlace {
    CachePlace {
        device_id: subscription.device_id@,
        include_processes: subscription.options.include_processes,
    }
}

/// A snapshot and when it was taken.
pub struct CachedSnapshot {
    pub taken_at: u64,
    pub snapshot: GpuSnapshot,
}

/// The first time after `now` that lies a whole number of intervals past `due`.
pub open spec fn due_after(due: u128, interval_ms: u64, now: u64) -> u128 {
    if due > now {
        due
    } else {
        let interval = interval_ms * NS_PER_MS;
        (due + ((now - due) / interval + 1) * interval) as u128
    }
}

/// A subscription that was due is next due after `now`, by less than an interval, and keeps its
/// rhythm; one that was not due keeps its time.
pub proof fn law_due_times_keep_their_rhythm(due: u128, interval_ms: u64, now: u64)
    requires
        MIN_INTERVAL_MS <= interval_ms <= MAX_INTERVAL_MS,
    ensures
        due_after(due, interval_ms, now) > now,
        due > now ==> due_after(due, interval_ms, now) == due,
        due <= now ==> due_after(due, interval_ms, now) - interval_ms * NS_PER_MS <= now,
        due <= now ==> (due_after(due, interval_ms, now) - due) % (interval_ms * NS_PER_MS) as int
            == 0,
{
    if due <= now {
        let interval = (interval_ms * NS_PER_MS) as int;
        lemma_due_after(due as int, interval, now as int);
    }
}

proof fn lemma_due_after(due: int, interval: int, now: int)
    requires
        0 <= due <= now <= u64::MAX,
        0 < interval <= 60_000_000_000,
    ensures
        ({
            let next = due + ((now - due) / interval + 1) * interval;
            &&& now < next <= now + interval
            &&& (next - due) % interval == 0
        }),
{
    let steps = (now - due) / interval + 1;
    vstd::arithmetic::div_mod::lemma_fundamental_div_mod(now - due, interval);
    vstd::arithmetic::div_mod::lemma_mod_bound(now - due, interval);
    assert(steps * interval == interval * ((now - due) / interval) + interval) by (nonlinear_arith)
        requires
            steps == (now - due) / interval + 1,
    ;
    vstd::arithmetic::div_mod::lemma_mod_multiples_basic(steps, interval);
}

/// What is to be done for a subscription that is due.
pub enum Plan {
    /// A snapshot that is recent enough.
    Reuse(GpuSnapshot),
    /// Take a sample of the device.
    Sample { device_id: String, include_processes: bool },
}

/// The subscriptions and the snapshots that they can share.
pub struct Scheduler {
    subscriptions: SortedMap<u64, Subscription>,
    latest: SortedMap<CacheKey, CachedSnapshot>,
}

/// Some subscription shares snapshots under `key`.
pub open spec fn is_shared(subscriptions: Map<u64, Subscription>, key: CachePlace) -> bool {
    exists|id: u64|
        #[trigger] subscriptions.contains_key(id) && share_key(subscriptions[id]) == key
}

/// The cached snapshot that is recent enough at `now`, if there is one.
pub open spec fn recent(
    latest: Map<CachePlace, CachedSnapshot>,
    key: CachePlace,
    now: u64,
) -> Option<GpuSnapshot> {
    if latest.contains_key(key) && now - latest[key].taken_at <= SNAPSHOT_COALESCE_NS {
        Some(latest[key].snapshot)
    } else {
        None
    }
}

impl Scheduler {
    pub closed spec fn watched(&self) -> Map<u64, Subscription> {
        self.subscriptions@
    }

    pub closed spec fn cached(&self) -> Map<CachePlace, CachedSnapshot> {
        self.latest@
    }

    /// Every interval is within the bounds.
    pub open spec fn well_formed(&self) -> bool {
        forall|id: u64| #[trigger]
            self.watched().contains_key(id) ==> MIN_INTERVAL_MS
                <= self.watched()[id].options.interval_ms <= MAX_INTERVAL_MS
    }

    pub fn new() -> (scheduler: Self)
        ensures
            scheduler.well_formed(),
            scheduler.watched() == Map::<u64, Subscription>::empty(),
            scheduler.cached() == Map::<CachePlace, CachedSnapshot>::empty(),
    {
        Scheduler { subscriptions: SortedMap::new(), latest: SortedMap::new() }
    }

    /// Watches a device from now on, at an interval within the bounds.
    pub fn subscribe(&mut self, id: u64, device_id: String, options: WatchOptions, now: u64)
        requires
            old(self).well_formed(),
        ensures
            final(self).well_formed(),
            final(self).cached() == old(self).cached(),
            final(self).watched() == old(self).watched().insert(
                id,
                (Subscription {
                    device_id,
                    options: WatchOptions {
                        interval_ms: bounded_interval(options.interval_ms),
                        include_processes: options.include_processes,
                    },
                    next_due: now as u128,
                }),
            ),
    {
        let options = WatchOptions {
            interval_ms: clamp_interval(options.interval_ms),
            include_processes: options.include_processes,
        };
        let ghost before = self.watched();
        self.subscriptions.insert(id, Subscription { device_id, options, next_due: now as u128 });
        assert forall|k: u64| #[trigger] self.watched().contains_key(k) implies MIN_INTERVAL_MS
            <= self.watched()[k].options.interval_ms <= MAX_INTERVAL_MS by {
            if k != id {
                assert(before.contains_key(k));
            }
        }
    }

    /// Stops watching, and says whether there was anything to stop.
    pub fn unsubscribe(&mut self, id: u64) -> (found: bool)
        requires
            old(self).well_formed(),
        ensures
            final(self).well_formed(),
            final(self).cached() == old(self).cached(),
            final(self).watched() == old(self).watched().remove(id),
            found == old(self).watched().contains_key(id),
    {
        let ghost before = self.watched();
        let removed = self.subscriptions.remove(&id);
        assert forall|k: u64| #[trigger] self.watched().contains_key(k) implies MIN_INTERVAL_MS
            <= self.watched()[k].options.interval_ms <= MAX_INTERVAL_MS by {
            assert(before.contains_key(k));
        }
        removed.is_some()
    }

    /// Forgets every cached snapshot.
    pub fn clear_cache(&mut self)
        requires
            old(self).well_formed(),
        ensures
            final(self).well_formed(),
            final(self).watched() == old(self).watched(),
            final(self).cached() == Map::<CachePlace, CachedSnapshot>::empty(),
    {
        let ghost before = self.watched();
        self.latest = SortedMap::new();
        assert forall|k: u64| #[trigger] self.watched().contains_key(k) implies MIN_INTERVAL_MS
            <= self.watched()[k].options.interval_ms <= MAX_INTERVAL_MS by {
            assert(before.contains_key(k));
        }
    }

    /// Forgets every subscription and gives back their names.
    pub fn drain(&mut self) -> (ids: Vec<u64>)
        requires
            old(self).well_formed(),
        ensures
            final(self).well_formed(),
            final(self).watched() == Map::<u64, Subscription>::empty(),
            final(self).cached() == old(self).cached(),
            lists_keys::<u64>(ids@, old(self).watched().dom()),
    {
        let mut ids: Vec<u64> = Vec::new();
        let n: usize = self.subscriptions.len();
        let ghost keys = self.subscriptions.keys();
        let mut i: usize = 0;
        while i < n
            invariant
                i <= n == keys.len(),
                *self == *old(self),
                keys == self.subscriptions.keys(),
                ids@ == keys.take(i as int),
            decreases n - i,
        {
            ids.push(*self.subscriptions.key_at(i));
            i = i + 1;
        }
        assert(ids@ == keys);
        self.subscriptions = SortedMap::new();
        ids
    }

    /// Drops the subscriptions whose streams have ended, and the snapshots that none of the others
    /// shares.
    pub fn retain_open(&mut self, closed: &Vec<u64>)
        requires
            old(self).well_formed(),
        ensures
            final(self).well_formed(),
            final(self).watched() == old(self).watched().remove_keys(closed@.to_set()),
            final(self).cached() == old(self).cached().restrict(
                Set::new(|key: CachePlace| is_shared(final(self).watched(), key)),
            ),
    {
        let ghost before = self.watched();
        let mut i: usize = 0;
        assert(before.remove_keys(closed@.take(0).to_set()) == before);
        while i < closed.len()
            invariant
                i <= closed.len(),
                self.well_formed(),
                self.cached() == old(self).cached(),
                self.watched() == before.remove_keys(closed@.take(i as int).to_set()),
            decreases closed.len() - i,
        {
            let gone = self.unsubscribe(closed[i]);
            i = i + 1;
            proof {
                let seen = closed@.take(i - 1);
                assert(closed@.take(i as int) == seen.push(closed@[i - 1]));
                seen.lemma_push_to_set_commute(closed@[i - 1]);
                assert(self.watched() == before.remove_keys(closed@.take(i as int).to_set()));
            }
        }
        assert(closed@.take(i as int) == closed@);
        self.prune_cache();
    }

    /// Some subscription shares snapshots under the key.
    fn has_sharer(&self, key: &CacheKey) -> (found: bool)
        ensures
            found == is_shared(self.watched(), key.model()),
    {
        let n: usize = self.subscriptions.len();
        let ghost keys = self.subscriptions.keys();
        let mut i: usize = 0;
        while i < n
            invariant
                i <= n == keys.len(),
                keys == self.subscriptions.keys(),
                lists_keys::<u64>(keys, self.subscriptions@.dom()),
                forall|k: int|
                    0 <= k < i ==> share_key(self.subscriptions@[#[trigger] keys[k]])
                        != key.model(),
            decreases n - i,
        {
            let subscription = self.subscriptions.value_at(i);
            if subscription.options.include_processes == key.include_processes
                && subscription.device_id == key.device_id {
                assert(self.watched().contains_key(keys[i as int]));
                return true;
            }
            i = i + 1;
        }
        proof {
            if is_shared(self.watched(), key.model()) {
                let id = choose|id: u64|
                    #[trigger] self.watched().contains_key(id) && share_key(self.watched()[id])
                        == key.model();
                assert(self.subscriptions@.dom().contains(id));
                assert(keys.contains(id));
                let k = choose|k: int| 0 <= k < keys.len() && keys[k] == id;
                assert(share_key(self.subscriptions@[keys[k]]) != key.model());
            }
        }
        false
    }

    /// Drops the snapshots that no subscription shares.
    fn prune_cache(&mut self)
        requires
            old(self).well_formed(),
        ensures
            final(self).well_formed(),
            final(self).watched() == old(self).watched(),
            final(self).cached() == old(self).cached().restrict(
                Set::new(|key: CachePlace| is_shared(old(self).watched(), key)),
            ),
    {
        let ghost before = self.latest@;
        let ghost shared = Set::new(|key: CachePlace| is_shared(self.watched(), key));
        let mut unshared: Vec<CacheKey> = Vec::new();
        let n: usize = self.latest.len();
        let ghost keys = self.latest.keys();
        let mut i: usize = 0;
        while i < n
            invariant
                i <= n == keys.len(),
                *self == *old(self),
                keys == self.latest.keys(),
                shared == Set::new(|key: CachePlace| is_shared(self.watched(), key)),
                forall|k: int|
                    0 <= k < i && !shared.contains(#[trigger] keys[k]) ==> exists|j: int|
                        0 <= j < unshared@.len() && (#[trigger] unshared@[j]).model() == keys[k],
                forall|j: int|
                    0 <= j < unshared@.len() ==> !shared.contains((#[trigger] unshared@[j]).model()),
            decreases n - i,
        {
            let key = self.latest.key_at(i);
            let copy = CacheKey {
                device_id: key.device_id.clone(),
                include_processes: key.include_processes,
            };
            let ghost held = unshared@;
            if !self.has_sharer(&copy) {
                unshared.push(copy);
                proof {
                    assert(unshared@.last().model() == keys[i as int]);
                    assert forall|k: int| 0 <= k < i && !shared.contains(#[trigger] keys[k]) implies
                        exists|j: int|
                        0 <= j < unshared@.len() && (#[trigger] unshared@[j]).model()
                            == keys[k] by {
                        let j = choose|j: int|
                            0 <= j < held.len() && (#[trigger] held[j]).model() == keys[k];
                        assert(unshared@[j].model() == keys[k]);
                    }
                }
            }
            i = i + 1;
        }
        let mut i: usize = 0;
        while i < unshared.len()
            invariant
                i <= unshared.len(),
                self.subscriptions == old(self).subscriptions,
                forall|k: CachePlace|
                    #[trigger] self.latest@.contains_key(k) <==> before.contains_key(k)
                        && forall|j: int|
                        0 <= j < i ==> (#[trigger] unshared@[j]).model() != k,
                forall|k: CachePlace| #[trigger]
                    self.latest@.contains_key(k) ==> self.latest@[k] == before[k],
            decreases unshared.len() - i,
        {
            let ghost held = self.latest@;
            let dropped = self.latest.remove(&unshared[i]);
            proof {
                assert forall|k: CachePlace|
                    #[trigger] self.latest@.contains_key(k) <==> before.contains_key(k)
                        && forall|j: int|
                        0 <= j < i + 1 ==> (#[trigger] unshared@[j]).model() != k by {
                    assert(held.contains_key(k) <==> before.contains_key(k) && forall|j: int|
                        0 <= j < i ==> (#[trigger] unshared@[j]).model() != k);
                    if self.latest@.contains_key(k) {
                        assert(held.contains_key(k));
                    }
                }
            }
            i = i + 1;
        }
        proof {
            let expected = before.restrict(shared);
            assert forall|k: CachePlace| #[trigger] self.latest@.dom().contains(k)
                <==> expected.dom().contains(k) by {
                assert(self.latest@.contains_key(k) <==> before.contains_key(k) && forall|j: int|
                    0 <= j < unshared@.len() ==> (#[trigger] unshared@[j]).model() != k);
                if before.contains_key(k) && !shared.contains(k) {
                    assert(keys.contains(k));
                    let p = choose|p: int| 0 <= p < keys.len() && keys[p] == k;
                    assert(!shared.contains(keys[p]));
                }
            }
            assert(self.latest@ == expected);
        }
    }

    /// The subscriptions that are due.
    pub fn due(&self, now: u64) -> (ids: Vec<u64>)
        ensures
            lists_keys::<u64>(
                ids@,
                Set::new(
                    |id: u64| self.watched().contains_key(id) && self.watched()[id].next_due <= now,
                ),
            ),
    {
        let ghost wanted = Set::new(
            |id: u64| self.watched().contains_key(id) && self.watched()[id].next_due <= now,
        );
        let mut ids: Vec<u64> = Vec::new();
        let n: usize = self.subscriptions.len();
        let ghost keys = self.subscriptions.keys();
        let mut i: usize = 0;
        while i < n
            invariant
                i <= n == keys.len(),
                keys == self.subscriptions.keys(),
                lists_keys::<u64>(keys, self.subscriptions@.dom()),
                wanted == Set::new(
                    |id: u64| self.watched().contains_key(id) && self.watched()[id].next_due <= now,
                ),
                forall|a: int, b: int|
                    0 <= a < b < ids@.len() ==> #[trigger] ids@[a] < #[trigger] ids@[b],
                forall|a: int| 0 <= a < ids@.len() ==> wanted.contains(#[trigger] ids@[a]),
                forall|a: int| 0 <= a < ids@.len() && i < n ==> #[trigger] ids@[a] < keys[i as int],
                forall|k: int|
                    0 <= k < i && wanted.contains(#[trigger] keys[k]) ==> ids@.contains(keys[k]),
            decreases n - i,
        {
            let id: u64 = *self.subscriptions.key_at(i);
            let ghost held = ids@;
            if self.subscriptions.value_at(i).next_due <= now as u128 {
                ids.push(id);
                assert(ids@.last() == id);
            }
            proof {
                assert forall|k: int| 0 <= k < i + 1 && wanted.contains(#[trigger] keys[k]) implies
                    ids@.contains(keys[k]) by {
                    if k < i {
                        let a = choose|a: int| 0 <= a < held.len() && held[a] == keys[k];
                        assert(ids@[a] == keys[k]);
                    } else {
                        assert(ids@[ids@.len() - 1] == keys[k]);
                    }
                }
                if i + 1 < n {
                    assert(keys[i as int] < keys[i + 1]);
                }
            }
            i = i + 1;
        }
        assert forall|k: u64| ids@.contains(k) <==> #[trigger] wanted.contains(k) by {
            if wanted.contains(k) {
                assert(self.subscriptions@.dom().contains(k));
                assert(keys.contains(k));
                let p = choose|p: int| 0 <= p < keys.len() && keys[p] == k;
                assert(ids@.contains(keys[p]));
            }
        }
        ids
    }

    /// What is to be done at `now` for a subscription.
    pub fn plan(&self, id: u64, now: u64) -> (plan: Option<Plan>)
        ensures
            match plan {
                None => !self.watched().contains_key(id),
                Some(Plan::Reuse(snapshot)) => {
                    &&& self.watched().contains_key(id)
                    &&& recent(self.cached(), share_key(self.watched()[id]), now) is Some
                    &&& snapshot.says_same(
                        &recent(self.cached(), share_key(self.watched()[id]), now)->0,
                    )
                },
                Some(Plan::Sample { device_id, include_processes }) => {
                    &&& self.watched().contains_key(id)
                    &&& recent(self.cached(), share_key(self.watched()[id]), now) is None
                    &&& device_id == self.watched()[id].device_id
                    &&& include_processes == self.watched()[id].options.include_processes
                },
            },
    {
        match self.subscriptions.get(&id) {
            None => None,
            Some(subscription) => {
                let key = CacheKey {
                    device_id: subscription.device_id.clone(),
                    include_processes: subscription.options.include_processes,
                };
                if let Some(entry) = self.latest.get(&key) {
                    if now <= entry.taken_at || now - entry.taken_at <= SNAPSHOT_COALESCE_NS {
                        return Some(Plan::Reuse(entry.snapshot.duplicate()));
                    }
                }
                Some(
                    Plan::Sample {
                        device_id: key.device_id,
                        include_processes: key.include_processes,
                    },
                )
            },
        }
    }

    /// Keeps a snapshot, taken at `now` for a subscription, for others to share.
    pub fn remember(&mut self, id: u64, snapshot: &GpuSnapshot, now: u64)
        requires
            old(self).well_formed(),
        ensures
            final(self).well_formed(),
            final(self).watched() == old(self).watched(),
            if old(self).watched().contains_key(id) {
                let key = share_key(old(self).watched()[id]);
                &&& final(self).cached().contains_key(key)
                &&& final(self).cached()[key].taken_at == now
                &&& final(self).cached()[key].snapshot.says_same(snapshot)
                &&& final(self).cached() == old(self).cached().insert(
                    key,
                    final(self).cached()[key],
                )
            } else {
                final(self).cached() == old(self).cached()
            },
    {
        if let Some(subscription) = self.subscriptions.get(&id) {
            let key = CacheKey {
                device_id: subscription.device_id.clone(),
                include_processes: subscription.options.include_processes,
            };
            let entry = CachedSnapshot { taken_at: now, snapshot: snapshot.duplicate() };
            self.latest.insert(key, entry);
        }
    }

    /// Moves a subscription on to its first time after `now`.
    pub fn advance(&mut self, id: u64, now: u64)
        requires
            old(self).well_formed(),
        ensures
            final(self).well_formed(),
            final(self).cached() == old(self).cached(),
            final(self).watched() == if old(self).watched().contains_key(id) {
                let subscription = old(self).watched()[id];
                old(self).watched().insert(
                    id,
                    (Subscription {
                        next_due: due_after(
                            subscription.next_due,
                            subscription.options.interval_ms,
                            now,
                        ),
                        ..subscription
                    }),
                )
            } else {
                old(self).watched()
            },
    {
        let ghost before = self.watched();
        let found: Option<Subscription> = match self.subscriptions.get(&id) {
            Some(subscription) => Some(subscription.clone()),
            None => None,
        };
        if let Some(subscription) = found {
            let due: u128 = subscription.next_due;
            let next: u128 = if due > now as u128 {
                due
            } else {
                let interval: u128 = subscription.options.interval_ms as u128 * NS_PER_MS as u128;
                proof {
                    lemma_due_after(due as int, interval as int, now as int);
                    assert(((now - due) / interval as int + 1) * interval <= now + interval);
                }
                let steps: u128 = (now as u128 - due) / interval + 1;
                due + steps * interval
            };
            self.subscriptions.insert(
                id,
                Subscription {
                    device_id: subscription.device_id,
                    options: subscription.options,
                    next_due: next,
                },
            );
            assert forall|k: u64| #[trigger] self.watched().contains_key(k) implies MIN_INTERVAL_MS
                <= self.watched()[k].options.interval_ms <= MAX_INTERVAL_MS by {
                assert(before.contains_key(k));
            }
        }
    }

    /// How long nothing is due, in nanoseconds: at most a minute where nothing is watched.
    pub fn timeout(&self, now: u64) -> (wait: u128)
        ensures
            self.watched().dom() == Set::<u64>::empty() ==> wait == IDLE_NS,
            forall|id: u64| #[trigger]
                self.watched().contains_key(id) ==> wait <= time_left(
                    self.watched()[id].next_due,
                    now,
                ),
            self.watched().dom() != Set::<u64>::empty() ==> exists|id: u64| #[trigger]
                self.watched().contains_key(id) && wait == time_left(
                    self.watched()[id].next_due,
                    now,
                ),
    {
        let n: usize = self.subscriptions.len();
        let ghost keys = self.subscriptions.keys();
        if n == 0 {
            proof {
                assert forall|id: u64| !self.watched().dom().contains(id) by {
                    assert(!keys.contains(id));
                }
                assert(self.watched().dom() == Set::<u64>::empty());
            }
            return IDLE_NS as u128;
        }
        let mut wait: u128 = self.left_at(0, now);
        let mut i: usize = 1;
        let ghost mut best: int = 0;
        while i < n
            invariant
                1 <= i <= n == keys.len(),
                keys == self.subscriptions.keys(),
                lists_keys::<u64>(keys, self.subscriptions@.dom()),
                0 <= best < i,
                wait == time_left(self.subscriptions@[keys[best]].next_due, now),
                forall|k: int|
                    0 <= k < i ==> wait <= time_left(
                        self.subscriptions@[#[trigger] keys[k]].next_due,
                        now,
                    ),
            decreases n - i,
        {
            let left: u128 = self.left_at(i, now);
            if left < wait {
                wait = left;
                proof {
                    best = i as int;
                }
            }
            i = i + 1;
        }
        proof {
            assert forall|id: u64| #[trigger] self.watched().contains_key(id) implies wait
                <= time_left(self.watched()[id].next_due, now) by {
                assert(self.subscriptions@.dom().contains(id));
                assert(keys.contains(id));
                let k = choose|k: int| 0 <= k < keys.len() && keys[k] == id;
                assert(wait <= time_left(self.subscriptions@[keys[k]].next_due, now));
            }
            assert(keys.contains(keys[best]));
            assert(self.watched().contains_key(keys[best]));
        }
        wait
    }

    fn left_at(&self, i: usize, now: u64) -> (left: u128)
        requires
            i < self.subscriptions.keys().len(),
        ensures
            left == time_left(self.subscriptions@[self.subscriptions.keys()[i as int]].next_due, now),
    {
        let due: u128 = self.subscriptions.value_at(i).next_due;
        if due > now as u128 {
            due - now as u128
        } else {
            0
        }
    }
}

/// How long it is until a time, zero where it has come.
pub open spec fn time_left(due: u128, now: u64) -> int {
    if due > now {
        due - now
    } else {
        0
    }
}

/// What the sampler's queue gives it.
#[derive(Clone, Copy, Debug, PartialEq, Eq, Structural)]
pub enum SamplerEvent {
    Sample,
    Subscribe { slot_closed: bool },
    Unsubscribe,
    Refresh,
    Shutdown,
    /// Nothing came in time.
    Timeout,
    /// No one can send any more.
    Disconnected,
}

/// What the sampler does next.
#[derive(Clone, Copy, Debug, PartialEq, Eq, Structural)]
pub enum SamplerAction {
    AnswerSample,
    AddSubscription,
    /// Ends the stream of a subscription that is not taken on.
    RefuseSubscription,
    DropSubscription,
    Refresh,
    /// Goes round once more.
    Continue,
    /// Ends every stream, stops the providers, and leaves.
    Stop { acknowledge: bool },
}

/// Once a stop is asked for, no other work is begun; a shutdown is acknowledged.
pub open spec fn action_for(event: SamplerEvent, stop_requested: bool) -> SamplerAction {
    match event {
        SamplerEvent::Shutdown => SamplerAction::Stop { acknowledge: true },
        SamplerEvent::Disconnected => SamplerAction::Stop { acknowledge: false },
        SamplerEvent::Timeout => SamplerAction::Continue,
        SamplerEvent::Sample => if stop_requested {
            SamplerAction::Stop { acknowledge: false }
        } else {
            SamplerAction::AnswerSample
        },
        SamplerEvent::Subscribe { slot_closed } => if stop_requested {
            SamplerAction::Stop { acknowledge: false }
        } else if slot_closed {
            SamplerAction::RefuseSubscription
        } else {
            SamplerAction::AddSubscription
        },
        SamplerEvent::Unsubscribe => if stop_requested {
            SamplerAction::Stop { acknowledge: false }
        } else {
            SamplerAction::DropSubscription
        },
        SamplerEvent::Refresh => if stop_requested {
            SamplerAction::Stop { acknowledge: false }
        } else {
            SamplerAction::Refresh
        },
    }
}

/// What the sampler does about an event.
pub fn next_action(event: SamplerEvent, stop_requested: bool) -> (action: SamplerAction)
    ensures
        action == action_for(event, stop_requested),
{
    match event {
        SamplerEvent::Shutdown => SamplerAction::Stop { acknowledge: true },
        SamplerEvent::Disconnected => SamplerAction::Stop { acknowledge: false },
        SamplerEvent::Timeout => SamplerAction::Continue,
        SamplerEvent::Sample => if stop_requested {
            SamplerAction::Stop { acknowledge: false }
        } else {
            SamplerAction::AnswerSample
        },
        SamplerEvent::Subscribe { slot_closed } => if stop_requested {
            SamplerAction::Stop { acknowledge: false }
        } else if slot_closed {
            SamplerAction::RefuseSubscription
        } else {
            SamplerAction::AddSubscription
        },
        SamplerEvent::Unsubscribe => if stop_requested {
            SamplerAction::Stop { acknowledge: false }
        } else {
            SamplerAction::DropSubscription
        },
        SamplerEvent::Refresh => if stop_requested {
            SamplerAction::Stop { acknowledge: false }
        } else {
            SamplerAction::Refresh
        },
    }
}

/// Once a stop is asked for, the sampler begins no provider work and takes on no subscription.
pub proof fn law_no_work_after_stop(event: SamplerEvent)
    ensures
        action_for(event, true) is Stop || action_for(event, true) is Continue,
{
}

/// The request that a due subscription makes.
pub fn watch_request(include_processes: bool) -> (request: SampleRequest)
    ensures
        request == (SampleRequest { window_ms: 0, metrics: None, include_processes }),
{
    SampleRequest { window_ms: 0, metrics: None, include_processes }
}

/// Why a command did not get into the sampler's queue.
#[derive(Clone, Copy, Debug, PartialEq, Eq, Structural)]
pub enum SendFault {
    Full,
    Disconnected,
}

/// What the sender of a command is told.
pub fn send_error(fault: SendFault) -> (error: GpuError)
    ensures
        error@ == match fault {
            SendFault::Full => ErrorModel::Backpressure("sampler command queue is full"@),
            SendFault::Disconnected => ErrorModel::MonitorClosed,
        },
{
    match fault {
        SendFault::Full => GpuError::Backpressure(owned("sampler command queue is full")),
        SendFault::Disconnected => GpuError::MonitorClosed,
    }
}

/// What the wait for an answer finds.
#[derive(Clone, Copy, Debug, PartialEq, Eq, Structural)]
pub enum AnswerState {
    Here,
    NotYet,
    Never,
}

/// How the wait for an answer goes on: with the answer, with a closed monitor, or on.
#[derive(Clone, Copy, Debug, PartialEq, Eq, Structural)]
pub enum AnswerStep {
    Take,
    Closed,
    WaitOn,
}

/// An answer that is here counts, even of a stopped sampler.
pub fn answer_step(state: AnswerState, stopped: bool) -> (step: AnswerStep)
    ensures
        step == match state {
            AnswerState::Here => AnswerStep::Take,
            AnswerState::Never => AnswerStep::Closed,
            AnswerState::NotYet => if stopped {
                AnswerStep::Closed
            } else {
                AnswerStep::WaitOn
            },
        },
{
    match state {
        AnswerState::Here => AnswerStep::Take,
        AnswerState::Never => AnswerStep::Closed,
        AnswerState::NotYet => if stopped {
            AnswerStep::Closed
        } else {
            AnswerStep::WaitOn
        },
    }
}

/// The subscriptions that have been handed out.
pub struct Registry {
    live: SortedMap<u64, ()>,
    next_id: u64,
    stopped: bool,
}

impl Registry {
    pub closed spec fn members(&self) -> Set<u64> {
        self.live@.dom()
    }

    pub closed spec fn upcoming(&self) -> u64 {
        self.next_id
    }

    pub closed spec fn shut(&self) -> bool {
        self.stopped
    }

    /// The next number is above those that are in use: so it is until every number was given
    /// once.
    pub open spec fn numbered(&self) -> bool {
        forall|id: u64| #[trigger] self.members().contains(id) ==> id < self.upcoming()
    }

    /// The subscription was taken on under the next number, and those that are gone were taken
    /// off.
    pub open spec fn has_enrolled(&self, before: &Self, gone: Seq<u64>, id: u64) -> bool {
        let left = before.members().difference(gone.to_set());
        &&& !before.shut()
        &&& !self.shut()
        &&& left.len() < MAX_SUBSCRIPTIONS
        &&& id == before.upcoming()
        &&& self.members() == left.insert(id)
        &&& self.upcoming() == crate::slot::successor(id)
    }

    /// The subscription was taken off, and nothing else has changed.
    pub open spec fn has_released(&self, before: &Self, id: u64) -> bool {
        &&& self.members() == before.members().remove(id)
        &&& self.upcoming() == before.upcoming()
        &&& self.shut() == before.shut()
    }

    pub fn new() -> (registry: Self)
        ensures
            registry.members() == Set::<u64>::empty(),
            registry.upcoming() == 1,
            !registry.shut(),
            registry.numbered(),
    {
        Registry { live: SortedMap::new(), next_id: 1, stopped: false }
    }

    pub fn is_stopped(&self) -> (stopped: bool)
        ensures
            stopped == self.shut(),
    {
        self.stopped
    }

    /// Takes on a new subscription under the next number, once those that are gone have been
    /// taken off. Fails where the sampler has stopped, or where the limit is reached.
    pub fn enroll(&mut self, gone: &Vec<u64>) -> (result: Result<u64, GpuError>)
        ensures
            old(self).numbered() && old(self).upcoming() < u64::MAX ==> final(self).numbered(),
            match result {
                Ok(id) => final(self).has_enrolled(old(self), gone@, id),
                Err(error) => if old(self).shut() {
                    error@ == ErrorModel::MonitorClosed && *final(self) == *old(self)
                } else {
                    let left = old(self).members().difference(gone@.to_set());
                    &&& left.len() >= MAX_SUBSCRIPTIONS
                    &&& error@ == ErrorModel::Backpressure(
                        "native subscription limit (128) reached"@,
                    )
                    &&& !final(self).shut()
                    &&& final(self).members() == left
                    &&& final(self).upcoming() == crate::slot::successor(old(self).upcoming())
                },
            },
    {
        if self.stopped {
            return Err(GpuError::MonitorClosed);
        }
        let id: u64 = self.next_id;
        self.next_id = if id == u64::MAX {
            0
        } else {
            id + 1
        };
        let ghost before = self.live@.dom();
        let mut i: usize = 0;
        assert(before.difference(gone@.take(0).to_set()) == before);
        while i < gone.len()
            invariant
                i <= gone.len(),
                self.stopped == old(self).stopped,
                self.next_id == crate::slot::successor(id),
                self.live@.dom() == before.difference(gone@.take(i as int).to_set()),
            decreases gone.len() - i,
        {
            let removed = self.live.remove(&gone[i]);
            i = i + 1;
            proof {
                let seen = gone@.take(i - 1);
                assert(gone@.take(i as int) == seen.push(gone@[i - 1]));
                seen.lemma_push_to_set_commute(gone@[i - 1]);
                assert(self.live@.dom() == before.difference(gone@.take(i as int).to_set()));
            }
        }
        assert(gone@.take(i as int) == gone@);
        let count: usize = self.live.len();
        proof {
            lemma_listing_counts(self.live.keys(), self.live@.dom());
        }
        if count >= MAX_SUBSCRIPTIONS {
            return Err(
                GpuError::Backpressure(owned("native subscription limit (128) reached")),
            );
        }
        let ghost left = self.live@;
        self.live.insert(id, ());
        assert(self.live@.dom() == left.dom().insert(id));
        assert(left.dom().subset_of(before));
        Ok(id)
    }

    /// Takes a subscription off.
    pub fn release(&mut self, id: u64)
        ensures
            final(self).has_released(old(self), id),
            old(self).numbered() ==> final(self).numbered(),
    {
        let ghost before = self.live@;
        let removed = self.live.remove(&id);
        assert(self.live@.dom() == before.dom().remove(id));
    }

    /// Stops taking on subscriptions and gives back those that are left; none the second time.
    pub fn stop(&mut self) -> (ids: Vec<u64>)
        ensures
            final(self).shut(),
            old(self).numbered() ==> final(self).numbered(),
            old(self).shut() ==> *final(self) == *old(self) && ids@.len() == 0,
            !old(self).shut() ==> {
                &&& lists_keys::<u64>(ids@, old(self).members())
                &&& final(self).members() == Set::<u64>::empty()
                &&& final(self).upcoming() == old(self).upcoming()
            },
    {
        let mut ids: Vec<u64> = Vec::new();
        if self.stopped {
            return ids;
        }
        self.stopped = true;
        let n: usize = self.live.len();
        let ghost keys = self.live.keys();
        let mut i: usize = 0;
        while i < n
            invariant
                i <= n == keys.len(),
                self.stopped,
                self.live == old(self).live,
                self.next_id == old(self).next_id,
                keys == self.live.keys(),
                ids@ == keys.take(i as int),
            decreases n - i,
        {
            ids.push(*self.live.key_at(i));
            i = i + 1;
        }
        assert(ids@ == keys);
        self.live = SortedMap::new();
        ids
    }
}

/// A subscription that is given back, as one is that does not get into the queue, leaves no trace:
/// the subscriptions are those from before, without the ones that were gone already. No other
/// subscription is lost with it, for its number was not in use.
pub proof fn law_refused_subscriptions_leave_no_trace(
    before: Registry,
    enrolled: Registry,
    after: Registry,
    gone: Seq<u64>,
    id: u64,
)
    requires
        before.numbered(),
        enrolled.has_enrolled(&before, gone, id),
        after.has_released(&enrolled, id),
    ensures
        !before.members().contains(id),
        after.members() == before.members().difference(gone.to_set()),
        gone.len() == 0 ==> after.members() == before.members(),
{
    let left = before.members().difference(gone.to_set());
    assert(!left.contains(id));
    assert(left.insert(id).remove(id) =~= left);
    if gone.len() == 0 {
        assert(left =~= before.members());
    }
}

proof fn lemma_listing_counts(keys: Seq<u64>, dom: Set<u64>)
    requires
        lists_keys::<u64>(keys, dom),
    ensures
        keys.len() == dom.len(),
{
    assert(keys.no_duplicates());
    keys.unique_seq_to_set();
    assert(keys.to_set() == dom);
}

/// Whether a consumer may ask for its next sample.
pub struct NextGate {
    in_flight: bool,
    cancelled: bool,
}

impl NextGate {
    pub closed spec fn busy(&self) -> bool {
        self.in_flight
    }

    pub closed spec fn is_over(&self) -> bool {
        self.cancelled
    }

    pub fn new() -> (gate: Self)
        ensures
            !gate.busy(),
            !gate.is_over(),
    {
        NextGate { in_flight: false, cancelled: false }
    }

    /// Begins to wait for the next sample; only one wait can be in flight.
    pub fn begin(&mut self) -> (result: Result<(), GpuError>)
        ensures
            final(self).busy(),
            final(self).is_over() == old(self).is_over(),
            match result {
                Ok(_) => !old(self).busy(),
                Err(error) => old(self).busy() && error@ == ErrorModel::InvalidArgument(
                    "only one next() call may be in flight per native subscription"@,
                ),
            },
    {
        if self.in_flight {
            Err(
                GpuError::InvalidArgument(
                    owned("only one next() call may be in flight per native subscription"),
                ),
            )
        } else {
            self.in_flight = true;
            Ok(())
        }
    }

    /// The wait is over, with or without a sample.
    pub fn finish(&mut self)
        ensures
            !final(self).busy(),
            final(self).is_over() == old(self).is_over(),
    {
        self.in_flight = false;
    }

    /// Cancels the subscription; true the first time.
    pub fn cancel(&mut self) -> (first: bool)
        ensures
            first == !old(self).is_over(),
            final(self).is_over(),
            final(self).busy() == old(self).busy(),
    {
        let first = !self.cancelled;
        self.cancelled = true;
        first
    }
}

} // verus!
