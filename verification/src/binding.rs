//! The library as a scripting host sees it: a message that is asked for its kind
//! before its payload is taken, and a factory for the text of each kind of message.
//! All values are plain bytes and text; turning them into the host's objects is the
//! caller's part.

use crate::delta::applied;
use crate::delta::applies_to;
use crate::delta::diff;
use crate::delta::DeltaSnapshot;
use crate::error::EncodingError;
use crate::error::TextFault;
use crate::message::is_written_text;
use crate::message::read_text;
use crate::message::Message;
use crate::message::MessageView;
use vstd::prelude::*;

verus! {

/// A message that was read, to be asked for its kind and then for its payload.
#[derive(Debug)]
pub struct MessageWrapper(Message);

impl View for MessageWrapper {
    type V = MessageView;

    closed spec fn view(&self) -> MessageView {
        self.0@
    }
}

impl MessageWrapper {
    /// Wraps a message.
    pub fn new(message: Message) -> (wrapper: MessageWrapper)
        ensures
            wrapper@ == message@,
    {
        MessageWrapper(message)
    }

    /// The message itself.
    pub fn into_message(self) -> (message: Message)
        ensures
            message@ == self@,
    {
        self.0
    }

    pub fn is_bios(&self) -> (yes: bool)
        ensures
            yes == (self@ is Bios),
    {
        match self.0 {
            Message::Bios(_) => true,
            _ => false,
        }
    }

    /// The firmware image of a message that `is_bios`.
    pub fn get_bios(self) -> (bios: Vec<u8>)
        requires
            self@ is Bios,
        ensures
            bios@ == self@->Bios_0,
    {
        match self.0 {
            Message::Bios(bios) => bios,
            _ => vstd::pervasive::unreached(),
        }
    }

    pub fn is_rom(&self) -> (yes: bool)
        ensures
            yes == (self@ is Rom),
    {
        match self.0 {
            Message::Rom(_) => true,
            _ => false,
        }
    }

    /// The cartridge image of a message that `is_rom`.
    pub fn get_rom(self) -> (rom: Vec<u8>)
        requires
            self@ is Rom,
        ensures
            rom@ == self@->Rom_0,
    {
        match self.0 {
            Message::Rom(rom) => rom,
            _ => vstd::pervasive::unreached(),
        }
    }

    pub fn is_play(&self) -> (yes: bool)
        ensures
            yes == (self@ is Play),
    {
        match self.0 {
            Message::Play(_) => true,
            _ => false,
        }
    }

    /// The playback event of a message that `is_play`.
    pub fn get_play(self) -> (snapshot: Vec<u8>)
        requires
            self@ is Play,
        ensures
            snapshot@ == self@->Play_0,
    {
        match self.0 {
            Message::Play(snapshot) => snapshot,
            _ => vstd::pervasive::unreached(),
        }
    }

    pub fn is_delta_snapshot(&self) -> (yes: bool)
        ensures
            yes == (self@ is DeltaSnapshot),
    {
        match self.0 {
            Message::DeltaSnapshot(_) => true,
            _ => false,
        }
    }

    /// The snapshot that the delta of a message that `is_delta_snapshot` makes of
    /// `old_array`, which the delta must fit.
    pub fn get_delta_snapshot(self, old_array: &[u8]) -> (snapshot: Vec<u8>)
        requires
            self@ is DeltaSnapshot,
            applies_to(self@->DeltaSnapshot_0, old_array@),
        ensures
            snapshot@ == applied(self@->DeltaSnapshot_0, old_array@),
    {
        match self.0 {
            Message::DeltaSnapshot(delta_snapshot) => delta_snapshot.apply(old_array),
            _ => vstd::pervasive::unreached(),
        }
    }

    pub fn is_snapshot(&self) -> (yes: bool)
        ensures
            yes == (self@ is Snapshot),
    {
        match self.0 {
            Message::Snapshot(_) => true,
            _ => false,
        }
    }

    /// The snapshot of a message that `is_snapshot`.
    pub fn get_snapshot(self) -> (snapshot: Vec<u8>)
        requires
            self@ is Snapshot,
        ensures
            snapshot@ == self@->Snapshot_0,
    {
        match self.0 {
            Message::Snapshot(snapshot) => snapshot,
            _ => vstd::pervasive::unreached(),
        }
    }
}

/// Reads and writes the text of messages.
#[derive(Debug, Clone, Copy)]
pub struct Network;

impl Network {
    pub fn new() -> Network {
        Network
    }

    /// Reads a message from its text.
    pub fn deserialize(&self, data: &str) -> (result: Result<MessageWrapper, EncodingError>)
        ensures
            match result {
                Ok(wrapper) => read_text(data@) == Ok::<MessageView, TextFault>(wrapper@),
                Err(e) => read_text(data@) == Err::<MessageView, TextFault>(e.fault()),
            },
    {
        match Message::decode_text(data) {
            Ok(message) => Ok(MessageWrapper(message)),
            Err(e) => Err(e),
        }
    }

    pub fn create_bios_message(&self, bios: Vec<u8>) -> (text: String)
        ensures
            is_written_text(text@, MessageView::Bios(bios@)),
    {
        Message::Bios(bios).encode_text()
    }

    pub fn create_rom_message(&self, rom: Vec<u8>) -> (text: String)
        ensures
            is_written_text(text@, MessageView::Rom(rom@)),
    {
        Message::Rom(rom).encode_text()
    }

    pub fn create_play_message(&self, snapshot: &[u8]) -> (text: String)
        ensures
            is_written_text(text@, MessageView::Play(snapshot@)),
    {
        Message::Play(vstd::slice::slice_to_vec(snapshot)).encode_text()
    }

    /// The text of the delta that turns `old_array` into `new_array`.
    pub fn create_delta_snapshot_message(&self, old_array: Vec<u8>, new_array: Vec<u8>) -> (text:
        String)
        requires
            old_array@.len() == new_array@.len(),
        ensures
            is_written_text(text@, MessageView::DeltaSnapshot(diff(old_array@, new_array@))),
    {
        Message::DeltaSnapshot(
            DeltaSnapshot::new(old_array.as_slice(), new_array.as_slice()),
        ).encode_text()
    }

    pub fn create_snapshot_message(&self, snapshot: &[u8]) -> (text: String)
        ensures
            is_written_text(text@, MessageView::Snapshot(snapshot@)),
    {
        Message::Snapshot(vstd::slice::slice_to_vec(snapshot)).encode_text()
    }
}

} // verus!
