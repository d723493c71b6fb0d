//! Passing a message on to everyone but its sender.
//!
//! The registry decides who gets a message and what text is sent. Sending is the
//! transport's part: the caller sends the text to one recipient after the other and
//! reports each outcome. A failed send is recorded and the fan-out goes on.

use crate::delta::DeltaSnapshot;
use crate::error::BroadcastError;
use crate::error::BroadcastFault;
use crate::message::is_written_text;
use crate::message::Message;
use crate::message::MessageView;
use crate::registry::is_fan_out;
use crate::registry::Services;
use vstd::prelude::*;

verus! {

/// The recipients and faults of a list of failures.
pub open spec fn faults(failures: Seq<(usize, BroadcastError)>) -> Seq<(usize, BroadcastFault)> {
    failures.map_values(|failure: (usize, BroadcastError)| (failure.0, failure.1.fault()))
}

/// One message on its way to its recipients.
#[derive(Debug)]
pub struct FanOut {
    text: String,
    recipients: Vec<usize>,
    cursor: usize,
    failures: Vec<(usize, BroadcastError)>,
}

impl FanOut {
    /// The text that every recipient is sent.
    pub closed spec fn text(&self) -> Seq<char> {
        self.text@
    }

    /// The recipients, in the order in which they are served.
    pub closed spec fn recipients(&self) -> Seq<usize> {
        self.recipients@
    }

    /// Number of recipients whose outcome was reported.
    pub closed spec fn served(&self) -> nat {
        self.cursor as nat
    }

    /// The recipients that the message did not reach, each with the fault that was
    /// reported for it, in the order of the reports.
    pub closed spec fn failed(&self) -> Seq<(usize, BroadcastFault)> {
        faults(self.failures@)
    }

    /// No more outcomes were reported than there are recipients.
    pub closed spec fn wf(&self) -> bool {
        self.cursor <= self.recipients@.len()
    }

    /// A fan-out of `text` to `recipients`, none of them served yet.
    pub fn new(text: String, recipients: Vec<usize>) -> (plan: FanOut)
        ensures
            plan.wf(),
            plan.text() == text@,
            plan.recipients() == recipients@,
            plan.served() == 0,
            plan.failed() == Seq::<(usize, BroadcastFault)>::empty(),
    {
        let plan = FanOut { text, recipients, cursor: 0, failures: Vec::new() };
        assert(plan.failed() =~= Seq::<(usize, BroadcastFault)>::empty());
        plan
    }

    /// The text to send.
    pub fn frame(&self) -> (text: &str)
        ensures
            text@ == self.text(),
    {
        self.text.as_str()
    }

    /// All recipients.
    pub fn peers(&self) -> (ids: &Vec<usize>)
        ensures
            ids@ == self.recipients(),
    {
        &self.recipients
    }

    /// The recipient to serve next, or `None` when all were served.
    pub fn next_peer(&self) -> (next: Option<usize>)
        requires
            self.wf(),
        ensures
            next == if self.served() < self.recipients().len() {
                Some(self.recipients()[self.served() as int])
            } else {
                None
            },
    {
        if self.cursor < self.recipients.len() {
            Some(self.recipients[self.cursor])
        } else {
            None
        }
    }

    /// Reports that the text reached the recipient that was to be served next.
    pub fn delivered(&mut self)
        requires
            old(self).wf(),
            old(self).served() < old(self).recipients().len(),
        ensures
            final(self).wf(),
            final(self).served() == old(self).served() + 1,
            final(self).text() == old(self).text(),
            final(self).recipients() == old(self).recipients(),
            final(self).failed() == old(self).failed(),
    {
        let n: usize = self.recipients.len();
        assert(self.cursor < n);
        self.cursor = self.cursor + 1;
    }

    /// Reports that the text did not reach the recipient that was to be served next.
    /// The recipients after it are still to be served.
    pub fn undelivered(&mut self, error: BroadcastError)
        requires
            old(self).wf(),
            old(self).served() < old(self).recipients().len(),
        ensures
            final(self).wf(),
            final(self).served() == old(self).served() + 1,
            final(self).text() == old(self).text(),
            final(self).recipients() == old(self).recipients(),
            final(self).failed() == old(self).failed().push(
                (old(self).recipients()[old(self).served() as int], error.fault()),
            ),
    {
        let n: usize = self.recipients.len();
        assert(self.cursor < n);
        let peer: usize = self.recipients[self.cursor];
        self.failures.push((peer, error));
        self.cursor = self.cursor + 1;
        assert(self.failed() =~= old(self).failed().push((peer, error.fault())));
    }

    /// The failures that were reported, each with the recipient it concerns.
    pub fn into_failures(self) -> (failures: Vec<(usize, BroadcastError)>)
        ensures
            faults(failures@) == self.failed(),
    {
        self.failures
    }
}

/// `plan` passes `message` from `sender_id` on to the connections in `listeners`: the text
/// is the message's, it reads back as the message, and the recipients are everyone but
/// the sender. Nobody has been served yet.
pub open spec fn passes_on<S>(
    plan: FanOut,
    listeners: Map<usize, S>,
    sender_id: usize,
    message: MessageView,
) -> bool {
    &&& plan.wf()
    &&& is_written_text(plan.text(), message)
    &&& is_fan_out(plan.recipients(), listeners, sender_id)
    &&& plan.served() == 0
    &&& plan.failed() == Seq::<(usize, BroadcastFault)>::empty()
}

impl<S> Services<S> {
    /// A fan-out of `text` from `sender_id` to every other registered connection.
    pub fn fan_out(&self, sender_id: usize, text: String) -> (plan: FanOut)
        requires
            self.wf(),
        ensures
            plan.wf(),
            plan.text() == text@,
            is_fan_out(plan.recipients(), self.listeners(), sender_id),
            plan.served() == 0,
            plan.failed() == Seq::<(usize, BroadcastFault)>::empty(),
    {
        FanOut::new(text, self.peers(sender_id))
    }

    /// Passes a message on from `sender_id` to every other registered connection.
    pub fn broadcast(&self, sender_id: usize, message: &Message) -> (plan: FanOut)
        requires
            self.wf(),
        ensures
            passes_on(plan, self.listeners(), sender_id, message@),
    {
        self.fan_out(sender_id, message.encode_text())
    }

    /// Passes a cartridge image on from the connection that set it.
    pub fn set_rom(&self, setter_id: usize, rom: Vec<u8>) -> (plan: FanOut)
        requires
            self.wf(),
        ensures
            passes_on(plan, self.listeners(), setter_id, MessageView::Rom(rom@)),
    {
        self.broadcast(setter_id, &Message::Rom(rom))
    }

    /// Passes a firmware image on from the connection that set it.
    pub fn set_bios(&self, setter_id: usize, bios: Vec<u8>) -> (plan: FanOut)
        requires
            self.wf(),
        ensures
            passes_on(plan, self.listeners(), setter_id, MessageView::Bios(bios@)),
    {
        self.broadcast(setter_id, &Message::Bios(bios))
    }

    /// Passes a delta on from its sender.
    pub fn broadcast_delta_snapshot(&self, sender_id: usize, snapshot: DeltaSnapshot) -> (plan:
        FanOut)
        requires
            self.wf(),
        ensures
            passes_on(
                plan,
                self.listeners(),
                sender_id,
                MessageView::DeltaSnapshot(snapshot@),
            ),
    {
        self.broadcast(sender_id, &Message::DeltaSnapshot(snapshot))
    }

    /// Passes a playback event on from its sender.
    pub fn broadcast_play(&self, sender_id: usize, snapshot: Vec<u8>) -> (plan: FanOut)
        requires
            self.wf(),
        ensures
            passes_on(plan, self.listeners(), sender_id, MessageView::Play(snapshot@)),
    {
        self.broadcast(sender_id, &Message::Play(snapshot))
    }

    /// Passes a full snapshot on from its sender.
    pub fn broadcast_snapshot(&self, sender_id: usize, snapshot: Vec<u8>) -> (plan: FanOut)
        requires
            self.wf(),
        ensures
            passes_on(plan, self.listeners(), sender_id, MessageView::Snapshot(snapshot@)),
    {
        self.broadcast(sender_id, &Message::Snapshot(snapshot))
    }
}

} // verus!
