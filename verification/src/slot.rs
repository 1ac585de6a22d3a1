//! The place where a subscription finds its latest sample.
use vstd::prelude::*;

verus! {

/// A slot for the latest value of a stream, with the one who waits for it.
pub struct LatestSlot<T, W> {
    sequence: u64,
    delivered_sequence: u64,
    latest: Option<T>,
    error: Option<String>,
    closed: bool,
    waiter: Option<W>,
}

/// What a slot holds.
#[verifier::ext_equal]
pub struct SlotModel<T> {
    /// The number of the last value or failure.
    pub sequence: u64,
    /// The number of the last value or failure that was handed out.
    pub delivered: u64,
    pub latest: Option<T>,
    pub error: Option<String>,
    pub closed: bool,
}

/// What a consumer finds in a slot.
pub enum SlotPoll<T> {
    /// The stream is over.
    Closed,
    Value(T),
    Failed(String),
    /// Nothing new yet.
    Pending,
}

/// The number after `n`; the numbers come round.
pub open spec fn successor(n: u64) -> u64 {
    if n == u64::MAX {
        0
    } else {
        (n + 1) as u64
    }
}

/// An empty slot.
pub open spec fn empty_slot<T>() -> SlotModel<T> {
    SlotModel { sequence: 0, delivered: 0, latest: None, error: None, closed: false }
}

/// A slot after a new value.
pub open spec fn published<T>(slot: SlotModel<T>, value: T) -> SlotModel<T> {
    if slot.closed {
        slot
    } else {
        SlotModel {
            sequence: successor(slot.sequence),
            latest: Some(value),
            error: None,
            ..slot
        }
    }
}

/// A slot after a failure.
pub open spec fn failed<T>(slot: SlotModel<T>, error: String) -> SlotModel<T> {
    if slot.closed {
        slot
    } else {
        SlotModel {
            sequence: successor(slot.sequence),
            latest: None,
            error: Some(error),
            ..slot
        }
    }
}

/// A slot after its stream has ended.
pub open spec fn ended<T>(slot: SlotModel<T>) -> SlotModel<T> {
    SlotModel {
        sequence: slot.sequence,
        delivered: slot.sequence,
        latest: None,
        error: None,
        closed: true,
    }
}

/// What a consumer finds.
pub open spec fn found<T>(slot: SlotModel<T>) -> SlotPoll<T> {
    if slot.closed {
        SlotPoll::Closed
    } else if slot.sequence == slot.delivered {
        SlotPoll::Pending
    } else {
        match (slot.error, slot.latest) {
            (Some(error), _) => SlotPoll::Failed(error),
            (None, Some(value)) => SlotPoll::Value(value),
            (None, None) => SlotPoll::Pending,
        }
    }
}

/// A slot after a consumer has looked.
pub open spec fn looked_at<T>(slot: SlotModel<T>) -> SlotModel<T> {
    if slot.closed || slot.sequence == slot.delivered {
        slot
    } else {
        SlotModel { delivered: slot.sequence, latest: None, error: None, ..slot }
    }
}

impl<T, W> LatestSlot<T, W> {
    pub closed spec fn model(&self) -> SlotModel<T> {
        SlotModel {
            sequence: self.sequence,
            delivered: self.delivered_sequence,
            latest: self.latest,
            error: self.error,
            closed: self.closed,
        }
    }

    /// The one who waits.
    pub closed spec fn waiting(&self) -> Option<W> {
        self.waiter
    }

    /// What has not been handed out is a value or a failure, never both.
    pub open spec fn well_formed(&self) -> bool {
        let slot = self.model();
        &&& slot.latest is None || slot.error is None
        &&& slot.sequence != slot.delivered ==> slot.latest is Some || slot.error is Some
        &&& slot.closed ==> slot.sequence == slot.delivered && slot.latest is None
            && slot.error is None
    }

    pub fn new() -> (slot: Self)
        ensures
            slot.well_formed(),
            slot.model() == empty_slot::<T>(),
            slot.waiting() is None,
    {
        LatestSlot {
            sequence: 0,
            delivered_sequence: 0,
            latest: None,
            error: None,
            closed: false,
            waiter: None,
        }
    }

    fn advance(&mut self)
        ensures
            final(self).model() == (SlotModel {
                sequence: successor(old(self).model().sequence),
                ..old(self).model()
            }),
            final(self).waiting() == old(self).waiting(),
    {
        self.sequence = if self.sequence == u64::MAX {
            0
        } else {
            self.sequence + 1
        };
    }

    /// Puts a new value into an open slot and gives back who is to be woken.
    pub fn publish(&mut self, value: T) -> (woken: Option<W>)
        requires
            old(self).well_formed(),
        ensures
            final(self).well_formed(),
            final(self).model() == published(old(self).model(), value),
            if old(self).model().closed {
                woken is None && final(self).waiting() == old(self).waiting()
            } else {
                woken == old(self).waiting() && final(self).waiting() is None
            },
    {
        if self.closed {
            return None;
        }
        self.advance();
        self.latest = Some(value);
        self.error = None;
        self.waiter.take()
    }

    /// Puts a failure into an open slot and gives back who is to be woken.
    pub fn fail(&mut self, error: String) -> (woken: Option<W>)
        requires
            old(self).well_formed(),
        ensures
            final(self).well_formed(),
            final(self).model() == failed(old(self).model(), error),
            if old(self).model().closed {
                woken is None && final(self).waiting() == old(self).waiting()
            } else {
                woken == old(self).waiting() && final(self).waiting() is None
            },
    {
        if self.closed {
            return None;
        }
        self.advance();
        self.latest = None;
        self.error = Some(error);
        self.waiter.take()
    }

    /// Ends the stream and gives back who is to be woken.
    pub fn close(&mut self) -> (woken: Option<W>)
        requires
            old(self).well_formed(),
        ensures
            final(self).well_formed(),
            final(self).model() == ended(old(self).model()),
            if old(self).model().closed {
                woken is None && final(self).waiting() == old(self).waiting()
            } else {
                woken == old(self).waiting() && final(self).waiting() is None
            },
    {
        if self.closed {
            return None;
        }
        self.closed = true;
        self.delivered_sequence = self.sequence;
        self.latest = None;
        self.error = None;
        self.waiter.take()
    }

    pub fn is_closed(&self) -> (closed: bool)
        ensures
            closed == self.model().closed,
    {
        self.closed
    }

    /// Takes what is new.
    pub fn poll_next(&mut self) -> (poll: SlotPoll<T>)
        requires
            old(self).well_formed(),
        ensures
            final(self).well_formed(),
            poll == found(old(self).model()),
            final(self).model() == looked_at(old(self).model()),
            final(self).waiting() == old(self).waiting(),
    {
        if self.closed {
            return SlotPoll::Closed;
        }
        if self.sequence != self.delivered_sequence {
            self.delivered_sequence = self.sequence;
            let error = self.error.take();
            let latest = self.latest.take();
            match (error, latest) {
                (Some(message), _) => SlotPoll::Failed(message),
                (None, Some(value)) => SlotPoll::Value(value),
                (None, None) => SlotPoll::Pending,
            }
        } else {
            SlotPoll::Pending
        }
    }

    /// Remembers who waits.
    pub fn wait(&mut self, waiter: W)
        requires
            old(self).well_formed(),
        ensures
            final(self).well_formed(),
            final(self).model() == old(self).model(),
            final(self).waiting() == Some(waiter),
    {
        self.waiter = Some(waiter);
    }

    /// Forgets who waits.
    pub fn clear_waiter(&mut self)
        requires
            old(self).well_formed(),
        ensures
            final(self).well_formed(),
            final(self).model() == old(self).model(),
            final(self).waiting() is None,
    {
        self.waiter = None;
    }
}

/// A slot after new values, one after the other.
pub open spec fn published_all<T>(slot: SlotModel<T>, values: Seq<T>) -> SlotModel<T>
    decreases values.len(),
{
    if values.len() == 0 {
        slot
    } else {
        published(published_all(slot, values.drop_last()), values.last())
    }
}

proof fn lemma_published_all<T>(slot: SlotModel<T>, values: Seq<T>)
    requires
        !slot.closed,
        0 < values.len() <= u64::MAX,
    ensures
        ({
            let after = published_all(slot, values);
            &&& !after.closed
            &&& after.latest == Some(values.last())
            &&& after.error is None
            &&& after.delivered == slot.delivered
            &&& after.sequence == (slot.sequence + values.len()) % (u64::MAX + 1)
        }),
    decreases values.len(),
{
    if values.len() == 1 {
        assert(values.drop_last().len() == 0);
        assert(published_all(slot, values.drop_last()) == slot);
    } else {
        lemma_published_all(slot, values.drop_last());
    }
}

/// A consumer that is slower than the stream finds the latest value and none before it, and then
/// nothing until the next one comes: as long as fewer values than there are numbers came since it
/// last looked.
pub proof fn law_slow_consumer_finds_the_latest<T>(slot: SlotModel<T>, values: Seq<T>)
    requires
        !slot.closed,
        slot.sequence == slot.delivered,
        0 < values.len() <= u64::MAX,
    ensures
        found(published_all(slot, values)) == SlotPoll::Value(values.last()),
        found(looked_at(published_all(slot, values))) == SlotPoll::<T>::Pending,
{
    lemma_published_all(slot, values);
}

/// A stream that has ended stays ended, whatever comes after, and its consumer is told so.
pub proof fn law_ended_streams_stay_ended<T>(slot: SlotModel<T>, value: T, error: String)
    ensures
        found(ended(slot)) == SlotPoll::<T>::Closed,
        published(ended(slot), value) == ended(slot),
        failed(ended(slot), error) == ended(slot),
        looked_at(ended(slot)) == ended(slot),
        ended(ended(slot)) == ended(slot),
{
}

} // verus!
