//! Notifications of state changes, and the outbox that collects them.
use vstd::prelude::*;
use crate::address::Address;

verus! {

/// A notification that an operation leaves for outside observers. Each names
/// the kind of operation and carries the record that it touched.
#[derive(Debug, PartialEq, Eq)]
pub enum Event {
    /// A claim was submitted; its id.
    ClaimSubmitted(u64),
    /// A claim's status was set; its id.
    StatusUpdated(u64),
    /// An expert registered; their identity.
    ExpertRegistered(Address),
    /// An expert's reputation changed; their identity.
    ReputationUpdated(Address),
    /// A review was submitted; its id.
    ReviewSubmitted(u64),
    /// A consensus result was stored for a claim; the claim's id.
    ConsensusReached(u64),
    /// The reviews of a claim were settled; the claim's id.
    RewardsDistributed(u64),
}

/// An [`Event`] as a mathematical value.
pub ghost enum EventView {
    ClaimSubmitted(u64),
    StatusUpdated(u64),
    ExpertRegistered(Seq<char>),
    ReputationUpdated(Seq<char>),
    ReviewSubmitted(u64),
    ConsensusReached(u64),
    RewardsDistributed(u64),
}

impl View for Event {
    type V = EventView;

    open spec fn view(&self) -> EventView {
        match self {
            Event::ClaimSubmitted(id) => EventView::ClaimSubmitted(*id),
            Event::StatusUpdated(id) => EventView::StatusUpdated(*id),
            Event::ExpertRegistered(a) => EventView::ExpertRegistered(a@),
            Event::ReputationUpdated(a) => EventView::ReputationUpdated(a@),
            Event::ReviewSubmitted(id) => EventView::ReviewSubmitted(*id),
            Event::ConsensusReached(id) => EventView::ConsensusReached(*id),
            Event::RewardsDistributed(id) => EventView::RewardsDistributed(*id),
        }
    }
}

/// The events of a list, in order.
pub open spec fn event_views(list: Seq<Event>) -> Seq<EventView> {
    list.map_values(|e: Event| e@)
}

/// The events that a component has emitted and that nobody has collected yet,
/// oldest first.
#[derive(Debug)]
pub struct Outbox {
    pending: Vec<Event>,
}

impl View for Outbox {
    type V = Seq<EventView>;

    closed spec fn view(&self) -> Seq<EventView> {
        event_views(self.pending@)
    }
}

impl Outbox {
    /// An empty outbox.
    pub fn new() -> (outbox: Outbox)
        ensures
            outbox@ == Seq::<EventView>::empty(),
    {
        let outbox = Outbox { pending: Vec::new() };
        assert(outbox@ =~= Seq::<EventView>::empty());
        outbox
    }

    /// Appends an event.
    pub fn emit(&mut self, event: Event)
        ensures
            final(self)@ == old(self)@.push(event@),
    {
        self.pending.push(event);
        assert(self@ =~= old(self)@.push(event@));
    }

    /// Hands out the waiting events, oldest first, and leaves the outbox empty.
    pub fn take(&mut self) -> (events: Vec<Event>)
        ensures
            event_views(events@) == old(self)@,
            final(self)@ == Seq::<EventView>::empty(),
    {
        let mut events: Vec<Event> = Vec::new();
        std::mem::swap(&mut self.pending, &mut events);
        assert(self@ =~= Seq::<EventView>::empty());
        events
    }
}

} // verus!
