//! When subscriptions are sampled, what they share and what they are told.
use crate::ordered::Ordered;
use crate::sampler::{
    action_for, bounded_interval, due_after, is_shared, law_due_times_keep_their_rhythm, recent,
    share_key, time_left, CacheKey, CachePlace, CachedSnapshot, Registry, SamplerAction,
    SamplerEvent, Subscription,
};
use crate::slot::{
    empty_slot, ended, failed, found, looked_at, published, successor, SlotModel, SlotPoll,
};
use vstd::prelude::*;

verus! {

/// An interval between 50 milliseconds and a minute is kept; a shorter one becomes the shortest, a
/// longer one the longest.
pub proof fn law_intervals_are_kept_within_bounds(interval_ms: u64)
    ensures
        50 <= bounded_interval(interval_ms) <= 60_000,
        50 <= interval_ms <= 60_000 ==> bounded_interval(interval_ms) == interval_ms,
        interval_ms < 50 ==> bounded_interval(interval_ms) == 50,
        interval_ms > 60_000 ==> bounded_interval(interval_ms) == 60_000,
{
}

/// A time that has come is followed by the first one after now that lies whole intervals of
/// milliseconds behind it.
pub proof fn law_next_time_is_whole_intervals_away(due: u128, interval_ms: u64, now: u64, k: int)
    requires
        50 <= interval_ms <= 60_000,
        due <= now,
        k >= 0,
        due + (k - 1) * (interval_ms * 1_000_000) <= now < due + k * (interval_ms * 1_000_000),
    ensures
        due_after(due, interval_ms, now) == due + k * (interval_ms * 1_000_000),
{
    let interval = interval_ms * 1_000_000;
    let past = now - due;
    assert((k - 1) * interval <= past < k * interval);
    vstd::arithmetic::div_mod::lemma_fundamental_div_mod(past, interval);
    vstd::arithmetic::div_mod::lemma_mod_bound(past, interval);
    let steps = past / interval;
    assert(steps == k - 1) by (nonlinear_arith)
        requires
            past == interval * steps + past % interval,
            0 <= past % interval < interval,
            (k - 1) * interval <= past < k * interval,
            interval > 0,
    ;
    assert((steps + 1) * interval == k * interval);
    law_due_times_keep_their_rhythm(due, interval_ms, now);
    assert(due + k * interval <= now + interval) by (nonlinear_arith)
        requires
            due + (k - 1) * interval <= now,
    ;
}

/// A time that has not come stays.
pub proof fn law_times_to_come_stay(due: u128, interval_ms: u64, now: u64)
    requires
        due > now,
    ensures
        due_after(due, interval_ms, now) == due,
{
}

/// The time that is left ends when it is due.
pub proof fn law_time_left_ends_when_due(due: u128, now: u64)
    ensures
        time_left(due, now) == 0 <==> due <= now,
        due >= now ==> now + time_left(due, now) == due,
        time_left(due, now) >= 0,
{
}

/// Subscriptions share their snapshots exactly where they watch the same device, both with its
/// processes or both without them.
pub proof fn law_sharing_is_by_device_and_processes(a: Subscription, b: Subscription)
    ensures
        share_key(a) == share_key(b) <==> a.device_id@ == b.device_id@
            && a.options.include_processes == b.options.include_processes,
{
}

/// A key stands for the device and the processes that it names.
pub proof fn law_keys_stand_for_what_they_name(key: CacheKey, subscription: Subscription)
    ensures
        key.model() == share_key(subscription) <==> key.device_id@ == subscription.device_id@
            && key.include_processes == subscription.options.include_processes,
{
}

/// A snapshot is kept where some subscription watches its device in its way.
pub proof fn law_shared_snapshots_have_a_watcher(
    subscriptions: Map<u64, Subscription>,
    id: u64,
    key: CachePlace,
)
    ensures
        subscriptions.contains_key(id) ==> is_shared(subscriptions, share_key(subscriptions[id])),
        is_shared(subscriptions, key) ==> exists|other: u64| #[trigger]
            subscriptions.contains_key(other) && subscriptions[other].device_id@ == key.device_id
                && subscriptions[other].options.include_processes == key.include_processes,
{
}

/// A snapshot is used again within ten milliseconds, and not after them.
pub proof fn law_snapshots_are_shared_for_ten_milliseconds(
    latest: Map<CachePlace, CachedSnapshot>,
    key: CachePlace,
    now: u64,
)
    ensures
        latest.contains_key(key) && now <= latest[key].taken_at + 10_000_000 ==> recent(
            latest,
            key,
            now,
        ) == Some(latest[key].snapshot),
        latest.contains_key(key) && now > latest[key].taken_at + 10_000_000 ==> recent(
            latest,
            key,
            now,
        ) is None,
        !latest.contains_key(key) ==> recent(latest, key, now) is None,
{
}

/// While no stop is asked for, each command is followed; a stop is acknowledged exactly where it
/// was asked for by a command.
pub proof fn law_commands_are_followed(event: SamplerEvent, stop_requested: bool)
    ensures
        action_for(SamplerEvent::Sample, false) == SamplerAction::AnswerSample,
        action_for(SamplerEvent::Subscribe { slot_closed: false }, false)
            == SamplerAction::AddSubscription,
        action_for(SamplerEvent::Subscribe { slot_closed: true }, false)
            == SamplerAction::RefuseSubscription,
        action_for(SamplerEvent::Unsubscribe, false) == SamplerAction::DropSubscription,
        action_for(SamplerEvent::Refresh, false) == SamplerAction::Refresh,
        action_for(SamplerEvent::Timeout, stop_requested) == SamplerAction::Continue,
        action_for(event, stop_requested) == (SamplerAction::Stop { acknowledge: true }) <==> event
            is Shutdown,
        action_for(event, stop_requested) == (SamplerAction::Stop { acknowledge: false })
            <==> event is Disconnected || stop_requested && !(event is Shutdown) && !(event
            is Timeout),
{
}

/// No more than 128 subscriptions are taken on, each under a number that none of the others has.
pub proof fn law_no_more_than_128_subscriptions(
    before: Registry,
    after: Registry,
    gone: Seq<u64>,
    id: u64,
)
    requires
        before.members().finite(),
        before.numbered(),
        after.has_enrolled(&before, gone, id),
    ensures
        after.members().len() <= 128,
        after.members().contains(id),
        !before.members().contains(id),
        forall|other: u64| #[trigger]
            after.members().contains(other) && other != id ==> before.members().contains(other)
                && !gone.contains(other),
        forall|other: u64| #[trigger]
            before.members().contains(other) && !gone.contains(other) ==> after.members().contains(
                other,
            ),
        id < u64::MAX ==> after.upcoming() == id + 1,
{
    let left = before.members().difference(gone.to_set());
    assert(left.finite());
    assert forall|other: u64| #[trigger]
        after.members().contains(other) && other != id implies before.members().contains(other)
        && !gone.contains(other) by {
        assert(left.contains(other));
        if gone.contains(other) {
            assert(gone.to_set().contains(other));
        }
    }
    assert forall|other: u64| #[trigger]
        before.members().contains(other) && !gone.contains(other) implies after.members().contains(
        other,
    ) by {
        if gone.to_set().contains(other) {
            assert(gone.contains(other));
        }
        assert(left.contains(other));
    }
}

/// A failure takes the place of a value that nobody has seen, and the other way round; once seen,
/// neither comes again.
pub proof fn law_the_latest_news_counts<T>(slot: SlotModel<T>, value: T, error: String)
    requires
        !slot.closed,
        slot.sequence == slot.delivered,
    ensures
        found(failed(slot, error)) == SlotPoll::<T>::Failed(error),
        found(published(slot, value)) == SlotPoll::<T>::Value(value),
        found(failed(published(slot, value), error)) == SlotPoll::<T>::Failed(error),
        found(published(failed(slot, error), value)) == SlotPoll::<T>::Value(value),
        found(slot) == SlotPoll::<T>::Pending,
        found(looked_at(failed(slot, error))) == SlotPoll::<T>::Pending,
        found(looked_at(published(slot, value))) == SlotPoll::<T>::Pending,
{
}

/// A new slot is open and holds no news. Once its stream has ended, nothing comes any more.
pub proof fn law_slots_start_empty_and_end_closed<T>(slot: SlotModel<T>, value: T, error: String)
    ensures
        !empty_slot::<T>().closed,
        empty_slot::<T>().sequence == empty_slot::<T>().delivered,
        found(empty_slot::<T>()) == SlotPoll::<T>::Pending,
        found(ended(slot)) == SlotPoll::<T>::Closed,
        found(published(ended(slot), value)) == SlotPoll::<T>::Closed,
        found(failed(ended(slot), error)) == SlotPoll::<T>::Closed,
        found(looked_at(ended(slot))) == SlotPoll::<T>::Closed,
        ended(slot).latest is None && ended(slot).error is None,
{
}

/// Numbers go up by one, and come round after the largest.
pub proof fn law_numbers_come_round(n: u64)
    ensures
        successor(n) == (n + 1) % 0x1_0000_0000_0000_0000,
{
}

} // verus!
