//! The five protocol messages and their two encodings: a tagged binary layout, and that
//! layout as base64 text for a transport that carries text frames.
//!
//! The binary layout is little-endian throughout. A message starts with a four-byte tag.
//! A byte payload follows as an eight-byte length and the bytes. A delta follows as its
//! two fingerprint bytes, an eight-byte number of chunks, and the chunks in ascending key
//! order: the key, an eight-byte number of entries, and two bytes for each entry.

use crate::delta::chunk_table;
use crate::delta::entry_count;
use crate::delta::lemma_count_empty;
use crate::delta::lemma_count_insert;
use crate::delta::pairs;
use crate::delta::ChunkedDelta;
use crate::delta::DeltaSnapshot;
use crate::delta::DeltaView;
use crate::delta::CHUNK_KEYS;
use crate::error::EncodingError;
use crate::error::LayoutError;
use crate::error::TextFault;
use crate::layout::le_bytes;
use crate::layout::lemma_le_bytes_len;
use crate::layout::lemma_le_round_trip;
use crate::layout::lemma_limits;
use crate::layout::le_value;
use crate::layout::limit;
use crate::layout::put_u32;
use crate::layout::put_u64;
use crate::layout::take_u32;
use crate::layout::take_u64;
use crate::text::base64_bytes;
use crate::text::base64_text;
use crate::text::from_base64;
use crate::text::to_base64;
use b64::FromBase64Error;
use std::collections::BTreeMap;
use vstd::prelude::*;

verus! {

/// Tag of a firmware image.
pub const TAG_BIOS: u32 = 0;

/// Tag of a cartridge image.
pub const TAG_ROM: u32 = 1;

/// Tag of a playback event.
pub const TAG_PLAY: u32 = 2;

/// Tag of a delta against the receiver's last snapshot.
pub const TAG_DELTA_SNAPSHOT: u32 = 3;

/// Tag of a full snapshot.
pub const TAG_SNAPSHOT: u32 = 4;

/// What a message holds.
pub enum MessageView {
    Bios(Seq<u8>),
    Rom(Seq<u8>),
    Play(Seq<u8>),
    DeltaSnapshot(DeltaView),
    Snapshot(Seq<u8>),
}

/// One protocol message.
#[derive(Debug, PartialEq, Eq)]
pub enum Message {
    /// A full firmware image.
    Bios(Vec<u8>),
    /// A full cartridge image.
    Rom(Vec<u8>),
    /// A playback event, passed on as it is.
    Play(Vec<u8>),
    /// A patch for the receiver's last snapshot.
    DeltaSnapshot(DeltaSnapshot),
    /// A full snapshot.
    Snapshot(Vec<u8>),
}

impl View for Message {
    type V = MessageView;

    open spec fn view(&self) -> MessageView {
        match self {
            Message::Bios(data) => MessageView::Bios(data@),
            Message::Rom(data) => MessageView::Rom(data@),
            Message::Play(data) => MessageView::Play(data@),
            Message::DeltaSnapshot(delta) => MessageView::DeltaSnapshot(delta@),
            Message::Snapshot(data) => MessageView::Snapshot(data@),
        }
    }
}

/// A byte payload in the layout: its length, then the bytes.
pub open spec fn payload_bytes(data: Seq<u8>) -> Seq<u8> {
    le_bytes(data.len(), 8) + data
}

/// The entries of a chunk in the layout: offset and value of each, in order.
pub open spec fn flat(entries: Seq<(u8, u8)>) -> Seq<u8> {
    Seq::new(
        2 * entries.len(),
        |i: int|
            if i % 2 == 0 {
                entries[i / 2].0
            } else {
                entries[i / 2].1
            },
    )
}

/// One chunk in the layout: its key, the number of its entries, and the entries.
pub open spec fn chunk_bytes(key: u8, entries: Seq<(u8, u8)>) -> Seq<u8> {
    seq![key] + le_bytes(entries.len(), 8) + flat(entries)
}

/// The chunks with a key of at least `from` in the layout, in ascending key order.
pub open spec fn chunks_bytes(chunks: Map<u8, Seq<(u8, u8)>>, from: nat) -> Seq<u8>
    decreases CHUNK_KEYS - from,
{
    if from >= CHUNK_KEYS {
        Seq::empty()
    } else if chunks.contains_key(from as u8) {
        chunk_bytes(from as u8, chunks[from as u8]) + chunks_bytes(chunks, from + 1)
    } else {
        chunks_bytes(chunks, from + 1)
    }
}

/// Number of chunks with a key of at least `from`.
pub open spec fn key_count(chunks: Map<u8, Seq<(u8, u8)>>, from: nat) -> nat
    decreases CHUNK_KEYS - from,
{
    if from >= CHUNK_KEYS {
        0
    } else if chunks.contains_key(from as u8) {
        1 + key_count(chunks, from + 1)
    } else {
        key_count(chunks, from + 1)
    }
}

/// A delta in the layout.
pub open spec fn delta_bytes(delta: DeltaView) -> Seq<u8> {
    seq![delta.old_hash.0, delta.old_hash.1] + le_bytes(key_count(delta.chunks, 0), 8)
        + chunks_bytes(delta.chunks, 0)
}

/// The tag of a message.
pub open spec fn tag_of(message: MessageView) -> nat {
    match message {
        MessageView::Bios(_) => TAG_BIOS as nat,
        MessageView::Rom(_) => TAG_ROM as nat,
        MessageView::Play(_) => TAG_PLAY as nat,
        MessageView::DeltaSnapshot(_) => TAG_DELTA_SNAPSHOT as nat,
        MessageView::Snapshot(_) => TAG_SNAPSHOT as nat,
    }
}

/// What follows the tag of a message.
pub open spec fn body_bytes(message: MessageView) -> Seq<u8> {
    match message {
        MessageView::Bios(data) => payload_bytes(data),
        MessageView::Rom(data) => payload_bytes(data),
        MessageView::Play(data) => payload_bytes(data),
        MessageView::DeltaSnapshot(delta) => delta_bytes(delta),
        MessageView::Snapshot(data) => payload_bytes(data),
    }
}

/// A message in the binary layout.
pub open spec fn message_bytes(message: MessageView) -> Seq<u8> {
    le_bytes(tag_of(message), 4) + body_bytes(message)
}

/// Reads a byte payload from the start of `rest`. Bytes after it are ignored.
pub open spec fn parse_payload(rest: Seq<u8>) -> Result<Seq<u8>, LayoutError> {
    if rest.len() < 8 {
        Err(LayoutError::UnexpectedEnd)
    } else {
        let n = le_value(rest.subrange(0, 8));
        if rest.len() - 8 < n {
            Err(LayoutError::UnexpectedEnd)
        } else {
            Ok(rest.subrange(8, 8 + n as int))
        }
    }
}

/// The first `n` entries that `bytes` spell.
pub open spec fn unflat(bytes: Seq<u8>, n: nat) -> Seq<(u8, u8)> {
    Seq::new(n, |i: int| (bytes[2 * i], bytes[2 * i + 1]))
}

/// Reads `remaining` chunks from the start of `rest` into `table`. A key that comes
/// again replaces what was read for it before. Bytes after the last chunk are ignored.
pub open spec fn parse_chunks(
    rest: Seq<u8>,
    remaining: nat,
    table: Map<u8, Seq<(u8, u8)>>,
) -> Result<Map<u8, Seq<(u8, u8)>>, LayoutError>
    decreases remaining,
{
    if remaining == 0 {
        Ok(table)
    } else if rest.len() < 9 {
        Err(LayoutError::UnexpectedEnd)
    } else {
        let n = le_value(rest.subrange(1, 9));
        if rest.len() - 9 < 2 * n {
            Err(LayoutError::UnexpectedEnd)
        } else {
            parse_chunks(
                rest.skip(9 + 2 * n as int),
                (remaining - 1) as nat,
                table.insert(rest[0], unflat(rest.skip(9), n)),
            )
        }
    }
}

/// Reads a delta from the start of `rest`.
pub open spec fn parse_delta(rest: Seq<u8>) -> Result<DeltaView, LayoutError> {
    if rest.len() < 10 {
        Err(LayoutError::UnexpectedEnd)
    } else {
        match parse_chunks(rest.skip(10), le_value(rest.subrange(2, 10)), Map::empty()) {
            Ok(chunks) => Ok(DeltaView { old_hash: (rest[0], rest[1]), chunks }),
            Err(e) => Err(e),
        }
    }
}

/// Reads a message from the start of `bytes`. Bytes after it are ignored.
pub open spec fn parse_message(bytes: Seq<u8>) -> Result<MessageView, LayoutError> {
    if bytes.len() < 4 {
        Err(LayoutError::UnexpectedEnd)
    } else {
        let tag = le_value(bytes.subrange(0, 4));
        let rest = bytes.skip(4);
        if tag == TAG_DELTA_SNAPSHOT {
            match parse_delta(rest) {
                Ok(delta) => Ok(MessageView::DeltaSnapshot(delta)),
                Err(e) => Err(e),
            }
        } else if tag <= TAG_SNAPSHOT {
            match parse_payload(rest) {
                Ok(data) => Ok(
                    if tag == TAG_BIOS {
                        MessageView::Bios(data)
                    } else if tag == TAG_ROM {
                        MessageView::Rom(data)
                    } else if tag == TAG_PLAY {
                        MessageView::Play(data)
                    } else {
                        MessageView::Snapshot(data)
                    },
                ),
                Err(e) => Err(e),
            }
        } else {
            Err(LayoutError::UnknownVariant(tag as u32))
        }
    }
}

/// What reading a text as a message gives: the text is read as base64, and the bytes as
/// the binary layout.
pub open spec fn read_text(text: Seq<char>) -> Result<MessageView, TextFault> {
    match base64_bytes(text) {
        Some(bytes) => match parse_message(bytes) {
            Ok(message) => Ok(message),
            Err(e) => Err(TextFault::Layout(e)),
        },
        None => Err(TextFault::NotBase64),
    }
}

/// `text` is the text of `message`, and reads back as it.
pub open spec fn is_written_text(text: Seq<char>, message: MessageView) -> bool {
    &&& text == base64_text(message_bytes(message))
    &&& read_text(text) == Ok::<MessageView, TextFault>(message)
}

/// The length of every chunk fits the eight bytes that the layout gives it.
pub open spec fn chunks_encodable(chunks: Map<u8, Seq<(u8, u8)>>) -> bool {
    forall|key: u8| chunks.contains_key(key) ==> (#[trigger] chunks[key]).len() < limit(8)
}

/// Every length in the message fits the eight bytes that the layout gives it.
pub open spec fn encodable(message: MessageView) -> bool {
    match message {
        MessageView::Bios(data) => data.len() < limit(8),
        MessageView::Rom(data) => data.len() < limit(8),
        MessageView::Play(data) => data.len() < limit(8),
        MessageView::DeltaSnapshot(delta) => chunks_encodable(delta.chunks),
        MessageView::Snapshot(data) => data.len() < limit(8),
    }
}

/// A byte payload that was written is read back as it was.
pub proof fn lemma_payload_round_trip(data: Seq<u8>)
    requires
        data.len() < limit(8),
    ensures
        parse_payload(payload_bytes(data)) == Ok::<Seq<u8>, LayoutError>(data),
{
    let written = payload_bytes(data);
    lemma_le_bytes_len(data.len(), 8);
    lemma_le_round_trip(data.len(), 8);
    assert(written.subrange(0, 8) =~= le_bytes(data.len(), 8));
    assert(written.subrange(8, 8 + data.len() as int) =~= data);
}

proof fn lemma_key_count_bound(chunks: Map<u8, Seq<(u8, u8)>>, from: nat)
    requires
        from <= 256,
    ensures
        key_count(chunks, from) <= 256 - from,
    decreases 256 - from,
{
    if from < 256 {
        lemma_key_count_bound(chunks, from + 1);
    }
}

proof fn lemma_chunks_round_trip(
    chunks: Map<u8, Seq<(u8, u8)>>,
    from: nat,
    table: Map<u8, Seq<(u8, u8)>>,
)
    requires
        from <= 256,
        chunks_encodable(chunks),
        forall|key: u8| #[trigger]
            table.contains_key(key) <==> chunks.contains_key(key) && key < from,
        forall|key: u8| table.contains_key(key) ==> #[trigger] table[key] == chunks[key],
    ensures
        parse_chunks(chunks_bytes(chunks, from), key_count(chunks, from), table) == Ok::<
            Map<u8, Seq<(u8, u8)>>,
            LayoutError,
        >(chunks),
    decreases 256 - from,
{
    if from >= 256 {
        assert(table =~= chunks);
    } else if chunks.contains_key(from as u8) {
        let key = from as u8;
        let entries = chunks[key];
        let n = entries.len();
        let rest = chunks_bytes(chunks, from);
        let after = chunks_bytes(chunks, from + 1);
        lemma_le_bytes_len(n, 8);
        lemma_le_round_trip(n, 8);
        assert(rest.subrange(1, 9) =~= le_bytes(n, 8));
        assert(rest.skip(9 + 2 * n as int) =~= after);
        assert(unflat(rest.skip(9), n) =~= entries);
        lemma_chunks_round_trip(chunks, from + 1, table.insert(key, entries));
    } else {
        lemma_chunks_round_trip(chunks, from + 1, table);
    }
}

/// A delta that was written is read back as it was.
pub proof fn lemma_delta_round_trip(delta: DeltaView)
    requires
        encodable(MessageView::DeltaSnapshot(delta)),
    ensures
        parse_delta(delta_bytes(delta)) == Ok::<DeltaView, LayoutError>(delta),
{
    let written = delta_bytes(delta);
    let count = key_count(delta.chunks, 0);
    lemma_key_count_bound(delta.chunks, 0);
    lemma_limits();
    lemma_le_bytes_len(count, 8);
    lemma_le_round_trip(count, 8);
    assert(written.subrange(2, 10) =~= le_bytes(count, 8));
    assert(written.skip(10) =~= chunks_bytes(delta.chunks, 0));
    lemma_chunks_round_trip(delta.chunks, 0, Map::empty());
}

/// Reading a message that was written in the binary layout gives the message back.
pub proof fn lemma_binary_round_trip(message: MessageView)
    requires
        encodable(message),
    ensures
        parse_message(message_bytes(message)) == Ok::<MessageView, LayoutError>(message),
{
    let written = message_bytes(message);
    lemma_limits();
    lemma_le_bytes_len(tag_of(message), 4);
    lemma_le_round_trip(tag_of(message), 4);
    assert(written.subrange(0, 4) =~= le_bytes(tag_of(message), 4));
    assert(written.skip(4) =~= body_bytes(message));
    match message {
        MessageView::Bios(data) => lemma_payload_round_trip(data),
        MessageView::Rom(data) => lemma_payload_round_trip(data),
        MessageView::Play(data) => lemma_payload_round_trip(data),
        MessageView::DeltaSnapshot(delta) => lemma_delta_round_trip(delta),
        MessageView::Snapshot(data) => lemma_payload_round_trip(data),
    }
}

fn put_payload(out: &mut Vec<u8>, data: &Vec<u8>)
    ensures
        final(out)@ == old(out)@ + payload_bytes(data@),
{
    let ghost start = out@;
    put_u64(out, data.len() as u64);
    out.extend_from_slice(data.as_slice());
    assert(out@ =~= start + payload_bytes(data@));
}

fn put_chunk(out: &mut Vec<u8>, key: u8, entries: &Vec<ChunkedDelta>)
    ensures
        final(out)@ == old(out)@ + chunk_bytes(key, pairs(entries@)),
{
    let ghost start = out@;
    out.push(key);
    put_u64(out, entries.len() as u64);
    let ghost head = out@;
    let mut i: usize = 0;
    while i < entries.len()
        invariant
            i <= entries@.len(),
            head == start + seq![key] + le_bytes(entries@.len(), 8),
            out@.len() == head.len() + 2 * i,
            out@.subrange(0, head.len() as int) == head,
            forall|j: int|
                0 <= j < 2 * i ==> out@[head.len() + j] == #[trigger] flat(pairs(entries@))[j],
        decreases entries@.len() - i,
    {
        let entry: ChunkedDelta = entries[i];
        let ghost before = out@;
        out.push(entry.offset() as u8);
        out.push(entry.value());
        proof {
            assert(out@.subrange(0, head.len() as int) =~= before.subrange(0, head.len() as int));
            assert forall|j: int| 0 <= j < 2 * (i + 1) implies out@[head.len() + j]
                == #[trigger] flat(pairs(entries@))[j] by {
                if j < 2 * i {
                    assert(out@[head.len() + j] == before[head.len() + j]);
                }
            }
        }
        i += 1;
    }
    assert(out@ =~= head + flat(pairs(entries@)));
}

fn take_payload(bytes: &[u8], at: usize) -> (result: Result<Vec<u8>, LayoutError>)
    requires
        at <= bytes@.len(),
    ensures
        match result {
            Ok(data) => parse_payload(bytes@.skip(at as int)) == Ok::<Seq<u8>, LayoutError>(
                data@,
            ),
            Err(e) => parse_payload(bytes@.skip(at as int)) == Err::<Seq<u8>, LayoutError>(e),
        },
{
    let ghost rest = bytes@.skip(at as int);
    let len: usize = bytes.len();
    if len - at < 8 {
        return Err(LayoutError::UnexpectedEnd);
    }
    let n: u64 = take_u64(bytes, at);
    assert(bytes@.subrange(at as int, at + 8) =~= rest.subrange(0, 8));
    if ((len - at - 8) as u64) < n {
        return Err(LayoutError::UnexpectedEnd);
    }
    let from: usize = at + 8;
    let data: Vec<u8> = vstd::slice::slice_to_vec(
        vstd::slice::slice_subrange(bytes, from, from + n as usize),
    );
    assert(data@ =~= rest.subrange(8, 8 + n as int));
    Ok(data)
}

fn take_entries(bytes: &[u8], at: usize, n: usize) -> (list: Vec<ChunkedDelta>)
    requires
        at + 2 * n <= bytes@.len(),
    ensures
        pairs(list@) == unflat(bytes@.skip(at as int), n as nat),
{
    let ghost rest = bytes@.skip(at as int);
    let len: usize = bytes.len();
    let mut list: Vec<ChunkedDelta> = Vec::new();
    let mut i: usize = 0;
    while i < n
        invariant
            i <= n,
            at + 2 * n <= len,
            len == bytes@.len(),
            rest == bytes@.skip(at as int),
            list@.len() == i,
            forall|j: int| 0 <= j < i ==> (#[trigger] list@[j])@ == (rest[2 * j], rest[2 * j + 1]),
        decreases n - i,
    {
        let p: usize = at + 2 * i;
        list.push(ChunkedDelta::new(bytes[p], bytes[p + 1]));
        i += 1;
    }
    assert(pairs(list@) =~= unflat(rest, n as nat));
    list
}

fn take_chunks(bytes: &[u8], at: usize, count: u64) -> (result: Result<
    BTreeMap<u8, Vec<ChunkedDelta>>,
    LayoutError,
>)
    requires
        at <= bytes@.len(),
    ensures
        match result {
            Ok(stored) => parse_chunks(bytes@.skip(at as int), count as nat, Map::empty()) == Ok::<
                Map<u8, Seq<(u8, u8)>>,
                LayoutError,
            >(chunk_table(stored@)) && entry_count(chunk_table(stored@)) <= usize::MAX,
            Err(e) => parse_chunks(bytes@.skip(at as int), count as nat, Map::empty()) == Err::<
                Map<u8, Seq<(u8, u8)>>,
                LayoutError,
            >(e),
        },
{
    let ghost goal = parse_chunks(bytes@.skip(at as int), count as nat, Map::empty());
    let len: usize = bytes.len();
    let mut stored: BTreeMap<u8, Vec<ChunkedDelta>> = BTreeMap::new();
    let mut pos: usize = at;
    let mut remaining: u64 = count;
    assert(chunk_table(stored@) =~= Map::empty());
    proof {
        lemma_count_empty(chunk_table(stored@), 256);
    }
    while remaining > 0
        invariant
            pos <= len,
            len == bytes@.len(),
            goal == parse_chunks(bytes@.skip(at as int), count as nat, Map::empty()),
            goal == parse_chunks(bytes@.skip(pos as int), remaining as nat, chunk_table(stored@)),
            2 * entry_count(chunk_table(stored@)) <= pos,
        decreases remaining,
    {
        let ghost rest = bytes@.skip(pos as int);
        let ghost table = chunk_table(stored@);
        if len - pos < 9 {
            return Err(LayoutError::UnexpectedEnd);
        }
        let key: u8 = bytes[pos];
        let n: u64 = take_u64(bytes, pos + 1);
        assert(bytes@.subrange(pos + 1, pos + 1 + 8) =~= rest.subrange(1, 9));
        if (((len - pos - 9) / 2) as u64) < n {
            return Err(LayoutError::UnexpectedEnd);
        }
        let list: Vec<ChunkedDelta> = take_entries(bytes, pos + 9, n as usize);
        proof {
            assert(bytes@.skip(pos + 9) =~= rest.skip(9));
            assert(bytes@.skip(pos + 9 + 2 * n) =~= rest.skip(9 + 2 * n as int));
            lemma_count_insert(table, key, pairs(list@), 256);
        }
        stored.insert(key, list);
        assert(chunk_table(stored@) =~= table.insert(key, pairs(list@)));
        pos = pos + 9 + 2 * (n as usize);
        remaining -= 1;
    }
    Ok(stored)
}

fn take_delta(bytes: &[u8], at: usize) -> (result: Result<DeltaSnapshot, LayoutError>)
    requires
        at <= bytes@.len(),
    ensures
        match result {
            Ok(delta) => parse_delta(bytes@.skip(at as int)) == Ok::<DeltaView, LayoutError>(
                delta@,
            ),
            Err(e) => parse_delta(bytes@.skip(at as int)) == Err::<DeltaView, LayoutError>(e),
        },
{
    let ghost rest = bytes@.skip(at as int);
    let len: usize = bytes.len();
    if len - at < 10 {
        return Err(LayoutError::UnexpectedEnd);
    }
    let old_hash: [u8; 2] = [bytes[at], bytes[at + 1]];
    let count: u64 = take_u64(bytes, at + 2);
    assert(bytes@.subrange(at + 2, at + 2 + 8) =~= rest.subrange(2, 10));
    assert(bytes@.skip(at + 10) =~= rest.skip(10));
    match take_chunks(bytes, at + 10, count) {
        Ok(stored) => Ok(DeltaSnapshot::from_parts(old_hash, stored)),
        Err(e) => Err(e),
    }
}

impl Message {
    /// The message in the binary layout.
    pub fn encode_binary(&self) -> (bytes: Vec<u8>)
        ensures
            bytes@ == message_bytes(self@),
            parse_message(bytes@) == Ok::<MessageView, LayoutError>(self@),
    {
        proof {
            self.lemma_encodable();
            lemma_binary_round_trip(self@);
        }
        let mut out: Vec<u8> = Vec::new();
        match self {
            Message::Bios(data) => {
                put_u32(&mut out, TAG_BIOS);
                put_payload(&mut out, data);
            },
            Message::Rom(data) => {
                put_u32(&mut out, TAG_ROM);
                put_payload(&mut out, data);
            },
            Message::Play(data) => {
                put_u32(&mut out, TAG_PLAY);
                put_payload(&mut out, data);
            },
            Message::DeltaSnapshot(delta) => {
                put_u32(&mut out, TAG_DELTA_SNAPSHOT);
                put_delta(&mut out, delta);
            },
            Message::Snapshot(data) => {
                put_u32(&mut out, TAG_SNAPSHOT);
                put_payload(&mut out, data);
            },
        }
        assert(out@ =~= message_bytes(self@));
        out
    }

    /// Every message that can be held can be written.
    pub proof fn lemma_encodable(&self)
        ensures
            encodable(self@),
    {
        lemma_limits();
        match self {
            Message::Bios(data) => assert(data.len() == data@.len()),
            Message::Rom(data) => assert(data.len() == data@.len()),
            Message::Play(data) => assert(data.len() == data@.len()),
            Message::DeltaSnapshot(delta) => delta.lemma_chunks_countable(),
            Message::Snapshot(data) => assert(data.len() == data@.len()),
        }
    }

    /// The message as text: its binary layout in base64.
    pub fn encode_text(&self) -> (text: String)
        ensures
            is_written_text(text@, self@),
    {
        let bytes = self.encode_binary();
        to_base64(bytes.as_slice())
    }

    /// Reads a message from text: base64 of the binary layout.
    pub fn decode_text(text: &str) -> (result: Result<Message, EncodingError>)
        ensures
            match result {
                Ok(message) => read_text(text@) == Ok::<MessageView, TextFault>(message@),
                Err(e) => read_text(text@) == Err::<MessageView, TextFault>(e.fault()),
            },
    {
        Message::from_decoded(from_base64(text))
    }

    /// Finishes reading a message from text, given what reading the text as base64 gave.
    pub fn from_decoded(decoded: Result<Vec<u8>, FromBase64Error>) -> (result: Result<
        Message,
        EncodingError,
    >)
        ensures
            match decoded {
                Ok(bytes) => match result {
                    Ok(message) => parse_message(bytes@) == Ok::<MessageView, LayoutError>(
                        message@,
                    ),
                    Err(e) => match parse_message(bytes@) {
                        Ok(_) => false,
                        Err(fault) => e.fault() == TextFault::Layout(fault),
                    },
                },
                Err(_) => match result {
                    Ok(_) => false,
                    Err(e) => e.fault() == TextFault::NotBase64,
                },
            },
    {
        match decoded {
            Ok(bytes) => match Message::decode_binary(bytes.as_slice()) {
                Ok(message) => Ok(message),
                Err(fault) => Err(EncodingError::from(fault)),
            },
            Err(error) => Err(EncodingError::from(error)),
        }
    }

    /// Reads a message from the binary layout. Bytes after the message are ignored.
    pub fn decode_binary(bytes: &[u8]) -> (result: Result<Message, LayoutError>)
        ensures
            match result {
                Ok(message) => parse_message(bytes@) == Ok::<MessageView, LayoutError>(message@),
                Err(e) => parse_message(bytes@) == Err::<MessageView, LayoutError>(e),
            },
    {
        if bytes.len() < 4 {
            return Err(LayoutError::UnexpectedEnd);
        }
        let tag: u32 = take_u32(bytes, 0);
        if tag == TAG_DELTA_SNAPSHOT {
            match take_delta(bytes, 4) {
                Ok(delta) => Ok(Message::DeltaSnapshot(delta)),
                Err(e) => Err(e),
            }
        } else if tag <= TAG_SNAPSHOT {
            match take_payload(bytes, 4) {
                Ok(data) => Ok(
                    if tag == TAG_BIOS {
                        Message::Bios(data)
                    } else if tag == TAG_ROM {
                        Message::Rom(data)
                    } else if tag == TAG_PLAY {
                        Message::Play(data)
                    } else {
                        Message::Snapshot(data)
                    },
                ),
                Err(e) => Err(e),
            }
        } else {
            Err(LayoutError::UnknownVariant(tag))
        }
    }
}

fn put_delta(out: &mut Vec<u8>, delta: &DeltaSnapshot)
    ensures
        final(out)@ == old(out)@ + delta_bytes(delta@),
{
    let ghost start = out@;
    let ghost chunks = delta@.chunks;
    let hash = delta.old_hash();
    out.push(hash[0]);
    out.push(hash[1]);
    let mut count: u64 = 0;
    let mut k: usize = 256;
    while k > 0
        invariant
            k <= 256,
            chunks == delta@.chunks,
            count == key_count(chunks, k as nat),
            count <= 256 - k,
        decreases k,
    {
        k -= 1;
        if delta.chunk(k as u8).is_some() {
            count += 1;
        }
    }
    put_u64(out, count);
    let ghost head = out@;
    let mut k: usize = 0;
    while k < 256
        invariant
            k <= 256,
            chunks == delta@.chunks,
            head == start + seq![delta@.old_hash.0, delta@.old_hash.1] + le_bytes(
                key_count(chunks, 0),
                8,
            ),
            out@ + chunks_bytes(chunks, k as nat) == head + chunks_bytes(chunks, 0),
        decreases 256 - k,
    {
        let ghost before = out@;
        match delta.chunk(k as u8) {
            Some(entries) => {
                put_chunk(out, k as u8, entries);
                assert(out@ + chunks_bytes(chunks, (k + 1) as nat) =~= before + chunks_bytes(
                    chunks,
                    k as nat,
                ));
            },
            None => {},
        }
        k += 1;
    }
    assert(out@ =~= start + delta_bytes(delta@)) by {
        assert(out@ + chunks_bytes(chunks, 256) =~= out@);
    }
}

impl TryFrom<&str> for Message {
    type Error = EncodingError;

    /// Reads a message from text, as `Message::decode_text` does.
    fn try_from(value: &str) -> (result: Result<Message, EncodingError>)
        ensures
            match result {
                Ok(message) => read_text(value@) == Ok::<MessageView, TextFault>(message@),
                Err(e) => read_text(value@) == Err::<MessageView, TextFault>(e.fault()),
            },
    {
        Message::decode_text(value)
    }
}

impl vstd::std_specs::convert::TryFromSpecImpl<&str> for Message {
    open spec fn obeys_try_from_spec() -> bool {
        false
    }

    open spec fn try_from_spec(value: &str) -> Result<Message, EncodingError> {
        arbitrary()
    }
}

impl TryFrom<Vec<u8>> for Message {
    type Error = LayoutError;

    /// Reads a message from the binary layout, as `Message::decode_binary` does.
    fn try_from(value: Vec<u8>) -> (result: Result<Message, LayoutError>)
        ensures
            match result {
                Ok(message) => parse_message(value@) == Ok::<MessageView, LayoutError>(message@),
                Err(e) => parse_message(value@) == Err::<MessageView, LayoutError>(e),
            },
    {
        Message::decode_binary(value.as_slice())
    }
}

impl vstd::std_specs::convert::TryFromSpecImpl<Vec<u8>> for Message {
    open spec fn obeys_try_from_spec() -> bool {
        false
    }

    open spec fn try_from_spec(value: Vec<u8>) -> Result<Message, LayoutError> {
        arbitrary()
    }
}

impl TryFrom<&Message> for Vec<u8> {
    type Error = LayoutError;

    /// The message in the binary layout, as `Message::encode_binary` gives it. Writing
    /// does not fail.
    fn try_from(value: &Message) -> (result: Result<Vec<u8>, LayoutError>)
        ensures
            match result {
                Ok(written) => written@ == message_bytes(value@),
                Err(_) => false,
            },
    {
        Ok(value.encode_binary())
    }
}

impl vstd::std_specs::convert::TryFromSpecImpl<&Message> for Vec<u8> {
    open spec fn obeys_try_from_spec() -> bool {
        false
    }

    open spec fn try_from_spec(value: &Message) -> Result<Vec<u8>, LayoutError> {
        arbitrary()
    }
}

impl TryFrom<Message> for Vec<u8> {
    type Error = LayoutError;

    /// The message in the binary layout, as `Message::encode_binary` gives it. Writing
    /// does not fail.
    fn try_from(value: Message) -> (result: Result<Vec<u8>, LayoutError>)
        ensures
            match result {
                Ok(written) => written@ == message_bytes(value@),
                Err(_) => false,
            },
    {
        Ok(value.encode_binary())
    }
}

impl vstd::std_specs::convert::TryFromSpecImpl<Message> for Vec<u8> {
    open spec fn obeys_try_from_spec() -> bool {
        false
    }

    open spec fn try_from_spec(value: Message) -> Result<Vec<u8>, LayoutError> {
        arbitrary()
    }
}

impl TryFrom<&Message> for String {
    type Error = LayoutError;

    /// The message as text, as `Message::encode_text` gives it. Writing does not fail.
    fn try_from(value: &Message) -> (result: Result<String, LayoutError>)
        ensures
            match result {
                Ok(written) => is_written_text(written@, value@),
                Err(_) => false,
            },
    {
        Ok(value.encode_text())
    }
}

impl vstd::std_specs::convert::TryFromSpecImpl<&Message> for String {
    open spec fn obeys_try_from_spec() -> bool {
        false
    }

    open spec fn try_from_spec(value: &Message) -> Result<String, LayoutError> {
        arbitrary()
    }
}

impl TryFrom<Message> for String {
    type Error = LayoutError;

    /// The message as text, as `Message::encode_text` gives it. Writing does not fail.
    fn try_from(value: Message) -> (result: Result<String, LayoutError>)
        ensures
            match result {
                Ok(written) => is_written_text(written@, value@),
                Err(_) => false,
            },
    {
        Ok(value.encode_text())
    }
}

impl vstd::std_specs::convert::TryFromSpecImpl<Message> for String {
    open spec fn obeys_try_from_spec() -> bool {
        false
    }

    open spec fn try_from_spec(value: Message) -> Result<String, LayoutError> {
        arbitrary()
    }
}

} // verus!
