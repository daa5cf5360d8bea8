//! The queue between the diagnostic engine and whoever shows its progress.
//!
//! The engine never touches the screen: it only puts events in here, and the
//! interface takes them out at the start of each frame.

use vstd::prelude::*;
use crate::model::{opt_text, CheckResult, CheckView, Diagnosis, DiagnosisView, NodeId};

verus! {

/// What the engine tells the interface.
#[derive(Debug, Clone)]
pub enum EngineEvent {
    /// The diagnosis began; `total` checks are planned.
    Started { total: usize },
    /// A check began or ended.
    Check(Box<CheckResult>),
    /// A node's caption and address became known.
    Node { id: NodeId, subtitle: String, address: Option<String> },
    /// The text under the progress bar.
    Progress { done: usize, label: String },
    /// The diagnosis is over; here is the verdict.
    Finished(Box<Diagnosis>),
    /// The diagnosis was stopped by the user.
    Cancelled,
}

#[verifier::ext_equal]
pub enum EventView {
    Started { total: usize },
    Check(CheckView),
    Node { id: NodeId, subtitle: Seq<char>, address: Option<Seq<char>> },
    Progress { done: usize, label: Seq<char> },
    Finished(DiagnosisView),
    Cancelled,
}

impl View for EngineEvent {
    type V = EventView;

    open spec fn view(&self) -> EventView {
        match self {
            EngineEvent::Started { total } => EventView::Started { total: *total },
            EngineEvent::Check(c) => EventView::Check(c@),
            EngineEvent::Node { id, subtitle, address } => EventView::Node {
                id: *id,
                subtitle: subtitle@,
                address: opt_text(*address),
            },
            EngineEvent::Progress { done, label } => EventView::Progress {
                done: *done,
                label: label@,
            },
            EngineEvent::Finished(d) => EventView::Finished(d@),
            EngineEvent::Cancelled => EventView::Cancelled,
        }
    }
}

pub open spec fn event_views(events: Seq<EngineEvent>) -> Seq<EventView> {
    events.map_values(|e: EngineEvent| e@)
}

/// The writing end of the queue.
#[derive(Debug)]
pub struct Reporter {
    pub events: Vec<EngineEvent>,
}

impl View for Reporter {
    type V = Seq<EventView>;

    open spec fn view(&self) -> Seq<EventView> {
        event_views(self.events@)
    }
}

/// A queue after events were sent to it, one after the other.
pub open spec fn sent_all(queue: Seq<EventView>, events: Seq<EventView>) -> Seq<EventView>
    decreases events.len(),
{
    if events.len() == 0 {
        queue
    } else {
        sent_all(queue, events.drop_last()).push(events.last())
    }
}

/// What is taken out is exactly what was sent, unchanged and in order, however
/// many events there are: behind those that already wait, or all of it where
/// none did.
pub proof fn events_arrive_as_sent(queue: Seq<EventView>, events: Seq<EventView>)
    ensures
        sent_all(queue, events) == queue + events,
        sent_all(Seq::empty(), events) == events,
    decreases events.len(),
{
    if events.len() > 0 {
        events_arrive_as_sent(queue, events.drop_last());
        assert(events.drop_last().push(events.last()) =~= events);
    }
    assert(sent_all(queue, events) =~= queue + events);
    assert(sent_all(Seq::empty(), events) =~= events);
}

impl Reporter {
    pub fn new() -> (r: Self)
        ensures
            r@ == Seq::<EventView>::empty(),
    {
        let r = Reporter { events: Vec::new() };
        assert(r@ =~= Seq::<EventView>::empty());
        r
    }

    /// Puts an event at the end of the queue.
    pub fn send(&mut self, event: EngineEvent)
        ensures
            final(self)@ == old(self)@.push(event@),
            final(self)@ == sent_all(old(self)@, seq![event@]),
    {
        let ghost was = self@;
        self.events.push(event);
        proof {
            assert(self@ =~= was.push(event@));
            events_arrive_as_sent(was, seq![event@]);
            assert(was + seq![event@] =~= was.push(event@));
        }
    }

    pub fn check(&mut self, result: CheckResult)
        ensures
            final(self)@ == old(self)@.push(EventView::Check(result@)),
    {
        self.send(EngineEvent::Check(Box::new(result)));
    }

    pub fn node(&mut self, id: NodeId, subtitle: &str, address: Option<String>)
        ensures
            final(self)@ == old(self)@.push(
                (EventView::Node { id, subtitle: subtitle@, address: opt_text(address) }),
            ),
    {
        self.send(EngineEvent::Node { id, subtitle: subtitle.to_owned(), address });
    }

    pub fn progress(&mut self, done: usize, label: &str)
        ensures
            final(self)@ == old(self)@.push((EventView::Progress { done, label: label@ })),
    {
        self.send(EngineEvent::Progress { done, label: label.to_owned() });
    }

    /// Hands out everything that waits in the queue, oldest first.
    pub fn take(&mut self) -> (r: Vec<EngineEvent>)
        ensures
            event_views(r@) == old(self)@,
            final(self)@ == Seq::<EventView>::empty(),
    {
        let mut out: Vec<EngineEvent> = Vec::new();
        std::mem::swap(&mut out, &mut self.events);
        assert(self@ =~= Seq::<EventView>::empty());
        out
    }
}

} // verus!
