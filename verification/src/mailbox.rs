//! The single slot through which the receiving side hands updates to the
//! transmitting side.
//!
//! The slot holds one snapshot of the light state and one tag. Publishing
//! overwrites both, so an update that was not taken yet is lost to the next
//! one: only the latest desired state matters to a lamp. Taking hands out
//! the pair and clears the tag, and leaves the snapshot in place. The slot
//! is plain data: the program that shares it between threads guards it with
//! a lock and waits on a condition variable while `must_wait` holds.

use vstd::prelude::*;
use crate::light::{LightState, RGBState, WhiteState, StateModification};

verus! {

/// The storage cell of the mailbox.
#[derive(Clone, Copy, Debug, PartialEq, Eq, Structural)]
pub struct SharedSlot {
    pub state: LightState,
    pub tag: StateModification,
}

/// What one side does to the slot.
#[derive(Clone, Copy, Debug, PartialEq, Eq, Structural)]
pub enum SlotEvent {
    /// The receiving side stores a snapshot and a tag.
    Publish(LightState, StateModification),
    /// The transmitting side looks for an update.
    Consume,
}

impl SharedSlot {
    /// The slot before anything was published: a dark light, nothing to send.
    pub open spec fn initial() -> SharedSlot {
        SharedSlot { state: LightState::dark(), tag: StateModification::Unchanged }
    }

    /// The slot after a publish: whatever it held is replaced.
    pub open spec fn published(self, snapshot: LightState, tag: StateModification) -> SharedSlot {
        SharedSlot { state: snapshot, tag }
    }

    /// An update waits to be taken.
    pub open spec fn pending(self) -> bool {
        self.tag != StateModification::Unchanged
    }

    /// The slot after a take: the tag is cleared, the snapshot stays.
    pub open spec fn taken(self) -> SharedSlot {
        SharedSlot { state: self.state, tag: StateModification::Unchanged }
    }

    /// The slot after one event. A consumer that finds nothing pending waits
    /// and leaves the slot alone.
    pub open spec fn step(self, event: SlotEvent) -> SharedSlot {
        match event {
            SlotEvent::Publish(snapshot, tag) => self.published(snapshot, tag),
            SlotEvent::Consume => self.taken(),
        }
    }

    /// What one event hands to the consumer: the stored pair, if the event is
    /// a consume that finds an update pending.
    pub open spec fn handed(self, event: SlotEvent) -> Option<(LightState, StateModification)> {
        match event {
            SlotEvent::Consume if self.pending() => Some((self.state, self.tag)),
            _ => None,
        }
    }

    /// The slot after a run of events.
    pub open spec fn run(self, events: Seq<SlotEvent>) -> SharedSlot
        decreases events.len(),
    {
        if events.len() == 0 {
            self
        } else {
            self.run(events.drop_last()).step(events.last())
        }
    }

    /// The updates that a run of events hands to the consumer, in order.
    pub open spec fn delivered(self, events: Seq<SlotEvent>) -> Seq<(LightState, StateModification)>
        decreases events.len(),
    {
        if events.len() == 0 {
            Seq::empty()
        } else {
            let before = self.delivered(events.drop_last());
            match self.run(events.drop_last()).handed(events.last()) {
                Some(update) => before.push(update),
                None => before,
            }
        }
    }

    /// A fresh slot.
    pub fn new() -> (slot: SharedSlot)
        ensures
            slot == SharedSlot::initial(),
            !slot.pending(),
    {
        SharedSlot {
            state: LightState {
                rgb: RGBState { red: 0, green: 0, blue: 0 },
                white: WhiteState { warm: 0, cool: 0 },
            },
            tag: StateModification::Unchanged,
        }
    }

    /// Stores `snapshot` and `tag`, discarding what was stored before.
    pub fn publish(&mut self, snapshot: LightState, tag: StateModification)
        ensures
            *final(self) == old(self).published(snapshot, tag),
    {
        self.state = snapshot;
        self.tag = tag;
    }

    /// Tells whether the consumer has to wait: nothing is pending.
    pub fn must_wait(&self) -> (wait: bool)
        ensures
            wait == !self.pending(),
    {
        self.tag == StateModification::Unchanged
    }

    /// Hands out the stored pair and clears the tag.
    pub fn take(&mut self) -> (update: (LightState, StateModification))
        ensures
            update == (old(self).state, old(self).tag),
            *final(self) == old(self).taken(),
    {
        let update = (self.state, self.tag);
        self.tag = StateModification::Unchanged;
        update
    }

    /// Hands out the pending update, if there is one, and clears the tag.
    /// Without a pending update the slot is left as it is.
    pub fn try_consume(&mut self) -> (update: Option<(LightState, StateModification)>)
        ensures
            update == old(self).handed(SlotEvent::Consume),
            *final(self) == old(self).step(SlotEvent::Consume),
            update.is_some() == old(self).pending(),
    {
        if self.must_wait() {
            None
        } else {
            Some(self.take())
        }
    }
}

impl Default for SharedSlot {
    fn default() -> (slot: SharedSlot)
        ensures
            slot == SharedSlot::initial(),
    {
        SharedSlot::new()
    }
}

/// The number of events that publish an update to be sent.
pub open spec fn updates_published(events: Seq<SlotEvent>) -> nat
    decreases events.len(),
{
    if events.len() == 0 {
        0
    } else {
        let before = updates_published(events.drop_last());
        match events.last() {
            SlotEvent::Publish(_, tag) if tag != StateModification::Unchanged => before + 1,
            _ => before,
        }
    }
}

/// Every event of the run is a publish.
pub open spec fn only_publishes(events: Seq<SlotEvent>) -> bool {
    forall|i: int| 0 <= i < events.len() ==> #[trigger] events[i] is Publish
}

/// Of two publishes with no take between them the second wins: the slot is
/// as if the first had never happened, the next take hands out the second
/// pair, and nothing that is delivered later can tell that the first was
/// ever published.
pub proof fn lemma_last_publish_wins(
    slot: SharedSlot,
    first: LightState,
    first_tag: StateModification,
    second: LightState,
    second_tag: StateModification,
    later: Seq<SlotEvent>,
)
    ensures
        slot.published(first, first_tag).published(second, second_tag) == slot.published(
            second,
            second_tag,
        ),
        slot.published(first, first_tag).published(second, second_tag).handed(SlotEvent::Consume)
            == if second_tag != StateModification::Unchanged {
            Some((second, second_tag))
        } else {
            None
        },
        slot.published(first, first_tag).published(second, second_tag).delivered(later)
            == slot.published(second, second_tag).delivered(later),
{
}

/// After any run that ends in a publish the slot holds exactly what was
/// published last.
pub proof fn lemma_run_ends_in_publish(
    slot: SharedSlot,
    events: Seq<SlotEvent>,
    snapshot: LightState,
    tag: StateModification,
)
    ensures
        slot.run(events.push(SlotEvent::Publish(snapshot, tag))) == (SharedSlot {
            state: snapshot,
            tag,
        }),
{
    let all = events.push(SlotEvent::Publish(snapshot, tag));
    assert(all.drop_last() =~= events);
    assert(all.last() == SlotEvent::Publish(snapshot, tag));
}

/// However many updates are published before the consumer looks, it is
/// handed the last of them, and only that one.
pub proof fn lemma_consume_after_publishes(
    slot: SharedSlot,
    events: Seq<SlotEvent>,
    snapshot: LightState,
    tag: StateModification,
)
    requires
        only_publishes(events),
        tag != StateModification::Unchanged,
    ensures
        slot.delivered(
            events.push(SlotEvent::Publish(snapshot, tag)).push(SlotEvent::Consume),
        ) == seq![(snapshot, tag)],
        !slot.run(
            events.push(SlotEvent::Publish(snapshot, tag)).push(SlotEvent::Consume),
        ).pending(),
{
    let published = events.push(SlotEvent::Publish(snapshot, tag));
    let all = published.push(SlotEvent::Consume);
    assert(only_publishes(published));
    lemma_publishes_deliver_nothing(slot, published);
    lemma_run_ends_in_publish(slot, events, snapshot, tag);
    assert(all.drop_last() =~= published);
    assert(all.last() == SlotEvent::Consume);
    assert(slot.delivered(all) =~= seq![(snapshot, tag)]);
}

/// Publishing hands nothing to the consumer.
pub proof fn lemma_publishes_deliver_nothing(slot: SharedSlot, events: Seq<SlotEvent>)
    requires
        only_publishes(events),
    ensures
        slot.delivered(events) == Seq::<(LightState, StateModification)>::empty(),
    decreases events.len(),
{
    if events.len() > 0 {
        assert(events.last() is Publish);
        assert(only_publishes(events.drop_last()));
        lemma_publishes_deliver_nothing(slot, events.drop_last());
    }
}

/// The consumer is never handed more updates than were published: what was
/// handed out, plus what is still pending, is at most what was published,
/// plus what was pending at the start.
pub proof fn lemma_delivered_at_most_published(slot: SharedSlot, events: Seq<SlotEvent>)
    ensures
        slot.delivered(events).len() + (if slot.run(events).pending() {
            1nat
        } else {
            0nat
        }) <= updates_published(events) + (if slot.pending() {
            1nat
        } else {
            0nat
        }),
    decreases events.len(),
{
    if events.len() > 0 {
        lemma_delivered_at_most_published(slot, events.drop_last());
    }
}

/// Whatever the consumer is handed last is the state that was stored last
/// before it looked: no final update is lost.
pub proof fn lemma_delivered_is_latest(slot: SharedSlot, events: Seq<SlotEvent>)
    requires
        events.len() > 0,
        slot.run(events.drop_last()).handed(events.last()).is_some(),
    ensures
        slot.delivered(events).len() > 0,
        slot.delivered(events).last() == (
            slot.run(events.drop_last()).state,
            slot.run(events.drop_last()).tag,
        ),
        slot.run(events).state == slot.run(events.drop_last()).state,
{
}

} // verus!
