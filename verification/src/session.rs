//! The life of one connection: it is registered, its frames are read and passed on,
//! and when reading ends it is taken out of the registry.
//!
//! The transport is the caller's. The caller hands over each frame as it arrives and
//! carries out what comes back: a fan-out to serve, or the end of the session.

use crate::broadcast::passes_on;
use crate::broadcast::FanOut;
use crate::error::EncodingError;
use crate::error::TextFault;
use crate::message::read_text;
use crate::message::Message;
use crate::message::MessageView;
use crate::registry::lookup;
use crate::registry::Services;
use vstd::prelude::*;

verus! {

/// What the transport yielded when the next frame was awaited.
#[derive(Debug)]
pub enum Frame {
    /// A text frame.
    Text(String),
    /// A frame that is not text, of the given length.
    NonText(usize),
    /// The transport failed to read.
    Failed,
    /// The peer closed the connection, or the stream ended.
    Closed,
}

/// Why a session ends, without the diagnostics.
pub enum Cause {
    EndOfStream,
    ReadFailed,
    NonText(usize),
    Malformed(TextFault),
}

/// Why a session ends.
#[derive(Debug)]
pub enum CloseReason {
    /// The peer closed the connection, or the stream ended.
    EndOfStream,
    /// The transport failed to read.
    ReadFailed,
    /// A frame that is not text arrived, of the given length.
    NonText(usize),
    /// A text frame arrived that is not a message.
    Malformed(EncodingError),
}

impl CloseReason {
    /// The cause that this reason reports.
    pub open spec fn cause(&self) -> Cause {
        match self {
            CloseReason::EndOfStream => Cause::EndOfStream,
            CloseReason::ReadFailed => Cause::ReadFailed,
            CloseReason::NonText(len) => Cause::NonText(*len),
            CloseReason::Malformed(error) => Cause::Malformed(error.fault()),
        }
    }
}

/// Where a connection stands.
#[derive(Debug, Clone, Copy, PartialEq, Eq, Structural)]
pub enum SessionState {
    /// The transport is set up; the connection is not registered yet.
    Connecting,
    /// The connection is registered under the given identifier and its frames are read.
    Active(usize),
    /// Reading has ended; the connection is still registered.
    Closing(usize),
    /// The connection is taken out of the registry.
    Closed,
}

/// What the caller is to do after a frame.
#[derive(Debug)]
pub enum Step {
    /// Serve this fan-out, then await the next frame.
    Dispatch(FanOut),
    /// Stop reading and close the session.
    Stop(CloseReason),
}

/// What a frame asks for: the message to pass on, or the cause to stop for.
pub open spec fn demand(frame: Frame) -> Result<MessageView, Cause> {
    match frame {
        Frame::Text(text) => match read_text(text@) {
            Ok(message) => Ok(message),
            Err(fault) => Err(Cause::Malformed(fault)),
        },
        Frame::NonText(len) => Err(Cause::NonText(len)),
        Frame::Failed => Err(Cause::ReadFailed),
        Frame::Closed => Err(Cause::EndOfStream),
    }
}

/// `step` and `state` are what the connection `id` owes to a demand: a message is
/// passed on to everyone else and the session stays active; anything else stops it.
pub open spec fn follows<S>(
    step: Step,
    state: SessionState,
    demand: Result<MessageView, Cause>,
    listeners: Map<usize, S>,
    id: usize,
) -> bool {
    match demand {
        Ok(message) => match step {
            Step::Dispatch(plan) => passes_on(plan, listeners, id, message)
                && state == SessionState::Active(id),
            Step::Stop(_) => false,
        },
        Err(cause) => match step {
            Step::Dispatch(_) => false,
            Step::Stop(reason) => reason.cause() == cause && state == SessionState::Closing(id),
        },
    }
}

/// One connection of a broadcast session.
#[derive(Debug)]
pub struct Session {
    state: SessionState,
}

impl Session {
    /// Where the connection stands.
    pub closed spec fn state(&self) -> SessionState {
        self.state
    }

    /// A connection that is not registered yet.
    pub fn new() -> (session: Session)
        ensures
            session.state() == SessionState::Connecting,
    {
        Session { state: SessionState::Connecting }
    }

    /// Where the connection stands.
    pub fn current(&self) -> (state: SessionState)
        ensures
            state == self.state(),
    {
        self.state
    }

    /// Registers the connection's sink. The session becomes active under the identifier
    /// that the registry hands out.
    pub fn register<S>(&mut self, services: &mut Services<S>, tx: S) -> (id: usize)
        requires
            old(self).state() == SessionState::Connecting,
            old(services).wf(),
            old(services).next_id() < usize::MAX,
        ensures
            final(self).state() == SessionState::Active(id),
            final(services).wf(),
            id == old(services).next_id(),
            final(services).next_id() == id + 1,
            !old(services).listeners().contains_key(id),
            final(services).listeners() == old(services).listeners().insert(id, tx),
    {
        let id: usize = services.add_listener(tx);
        self.state = SessionState::Active(id);
        id
    }

    /// Takes the next frame of an active session. A text frame that is a message is
    /// passed on to every other connection; any other frame ends the session.
    pub fn on_frame<S>(&mut self, services: &Services<S>, frame: Frame) -> (step: Step)
        requires
            old(self).state() is Active,
            services.wf(),
        ensures
            follows(
                step,
                final(self).state(),
                demand(frame),
                services.listeners(),
                old(self).state()->Active_0,
            ),
    {
        match frame {
            Frame::Text(text) => self.on_decoded(services, Message::decode_text(text.as_str())),
            Frame::NonText(len) => self.stop(CloseReason::NonText(len)),
            Frame::Failed => self.stop(CloseReason::ReadFailed),
            Frame::Closed => self.stop(CloseReason::EndOfStream),
        }
    }

    /// Takes what reading a text frame as a message gave. A message is passed on to
    /// every other connection under its own kind; a failure ends the session.
    pub fn on_decoded<S>(
        &mut self,
        services: &Services<S>,
        decoded: Result<Message, EncodingError>,
    ) -> (step: Step)
        requires
            old(self).state() is Active,
            services.wf(),
        ensures
            follows(
                step,
                final(self).state(),
                match decoded {
                    Ok(message) => Ok(message@),
                    Err(error) => Err(Cause::Malformed(error.fault())),
                },
                services.listeners(),
                old(self).state()->Active_0,
            ),
    {
        let id: usize = match self.state {
            SessionState::Active(id) => id,
            _ => vstd::pervasive::unreached(),
        };
        match decoded {
            Ok(Message::Bios(bios)) => Step::Dispatch(services.set_bios(id, bios)),
            Ok(Message::Rom(rom)) => Step::Dispatch(services.set_rom(id, rom)),
            Ok(Message::Play(snapshot)) => Step::Dispatch(services.broadcast_play(id, snapshot)),
            Ok(Message::DeltaSnapshot(snapshot)) => Step::Dispatch(
                services.broadcast_delta_snapshot(id, snapshot),
            ),
            Ok(Message::Snapshot(snapshot)) => Step::Dispatch(
                services.broadcast_snapshot(id, snapshot),
            ),
            Err(error) => self.stop(CloseReason::Malformed(error)),
        }
    }

    fn stop(&mut self, reason: CloseReason) -> (step: Step)
        requires
            old(self).state() is Active,
        ensures
            step == Step::Stop(reason),
            final(self).state() == SessionState::Closing(old(self).state()->Active_0),
    {
        let id: usize = match self.state {
            SessionState::Active(id) => id,
            _ => vstd::pervasive::unreached(),
        };
        self.state = SessionState::Closing(id);
        Step::Stop(reason)
    }

    /// Takes the connection out of the registry and hands back its sink, for the caller
    /// to close. Nothing is handed back if the connection was taken out before.
    pub fn close<S>(&mut self, services: &mut Services<S>) -> (tx: Option<S>)
        requires
            old(self).state() is Closing,
            old(services).wf(),
        ensures
            final(self).state() == SessionState::Closed,
            final(services).wf(),
            tx == lookup(old(services).listeners(), old(self).state()->Closing_0),
            final(services).listeners() == old(services).listeners().remove(
                old(self).state()->Closing_0,
            ),
            final(services).next_id() == old(services).next_id(),
    {
        let id: usize = match self.state {
            SessionState::Closing(id) => id,
            _ => vstd::pervasive::unreached(),
        };
        self.state = SessionState::Closed;
        services.remove_listener(id)
    }
}

} // verus!
