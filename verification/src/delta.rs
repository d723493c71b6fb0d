//! Sparse, chunked byte-level differences between two snapshots of equal length.
//!
//! A delta records only the positions whose byte changed. Positions are bucketed into
//! chunks of `CHUNK_SPAN` bytes, so that a one-byte key and a one-byte offset address a
//! position. The mathematical model of a delta is a `DeltaView`; `diff` and `applied`
//! say what building and applying one means.

use std::collections::BTreeMap;
use vstd::prelude::*;

verus! {

/// Number of positions that one chunk covers. An offset inside a chunk fits a byte.
pub const CHUNK_SPAN: usize = 255;

/// Number of distinct chunk keys.
pub const CHUNK_KEYS: usize = 256;

/// Number of positions that a key and an offset address without ambiguity. A position at
/// or past this limit shares its key with an earlier position.
pub const ADDRESSABLE: usize = 65280;

/// The two-byte staleness check of a buffer: its first and its last byte, and zeros for
/// an empty buffer.
pub open spec fn fingerprint(buf: Seq<u8>) -> (u8, u8) {
    if buf.len() == 0 {
        (0u8, 0u8)
    } else {
        (buf[0], buf[buf.len() - 1])
    }
}

/// The chunk key under which position `pos` is recorded.
pub open spec fn chunk_of(pos: int) -> u8 {
    ((pos / CHUNK_SPAN as int) % CHUNK_KEYS as int) as u8
}

/// The offset of position `pos` inside its chunk.
pub open spec fn offset_of(pos: int) -> u8 {
    (pos % CHUNK_SPAN as int) as u8
}

/// The position that an entry of chunk `key` writes to.
pub open spec fn target(key: u8, entry: (u8, u8)) -> int {
    key * CHUNK_SPAN + entry.0
}

/// What a delta holds: the fingerprint of the buffer it was taken from, and for each
/// chunk key the recorded `(offset, value)` pairs in the order they were recorded.
pub struct DeltaView {
    pub old_hash: (u8, u8),
    pub chunks: Map<u8, Seq<(u8, u8)>>,
}

/// The entries recorded under `key` for the first `n` positions of two buffers: one
/// entry for each position of that chunk whose byte differs, in ascending position.
pub open spec fn chunk_entries(old: Seq<u8>, new: Seq<u8>, key: u8, n: nat) -> Seq<(u8, u8)>
    decreases n,
{
    if n == 0 {
        Seq::empty()
    } else {
        let pos = n - 1;
        let before = chunk_entries(old, new, key, pos as nat);
        if old[pos] != new[pos] && chunk_of(pos) == key {
            before.push((offset_of(pos), new[pos]))
        } else {
            before
        }
    }
}

/// The chunks of the difference over the first `n` positions. A chunk without a changed
/// position has no key.
pub open spec fn diff_chunks(old: Seq<u8>, new: Seq<u8>, n: nat) -> Map<u8, Seq<(u8, u8)>> {
    Map::new(
        |key: u8| chunk_entries(old, new, key, n).len() > 0,
        |key: u8| chunk_entries(old, new, key, n),
    )
}

/// The delta that turns `old` into `new`.
pub open spec fn diff(old: Seq<u8>, new: Seq<u8>) -> DeltaView {
    DeltaView { old_hash: fingerprint(old), chunks: diff_chunks(old, new, old.len()) }
}

/// Number of positions among the first `n` at which two buffers differ.
pub open spec fn differing(old: Seq<u8>, new: Seq<u8>, n: nat) -> nat
    decreases n,
{
    if n == 0 {
        0
    } else {
        let here: nat = if old[n - 1] != new[n - 1] {
            1
        } else {
            0
        };
        differing(old, new, (n - 1) as nat) + here
    }
}

/// Number of entries recorded under the key `k`, zero where there is no such key.
pub open spec fn chunk_len(chunks: Map<u8, Seq<(u8, u8)>>, k: int) -> nat {
    if 0 <= k < CHUNK_KEYS && chunks.contains_key(k as u8) {
        chunks[k as u8].len()
    } else {
        0
    }
}

/// Number of entries recorded under the keys below `k`.
pub open spec fn count_below(chunks: Map<u8, Seq<(u8, u8)>>, k: nat) -> nat
    decreases k,
{
    if k == 0 {
        0
    } else {
        count_below(chunks, (k - 1) as nat) + chunk_len(chunks, k - 1)
    }
}

/// Number of entries across all chunks.
pub open spec fn entry_count(chunks: Map<u8, Seq<(u8, u8)>>) -> nat {
    count_below(chunks, CHUNK_KEYS as nat)
}

/// `buf` after the entries of one chunk were written to it, first entry first. An entry
/// that points past the end of the buffer writes nothing.
pub open spec fn patch_entries(buf: Seq<u8>, key: u8, entries: Seq<(u8, u8)>) -> Seq<u8>
    decreases entries.len(),
{
    if entries.len() == 0 {
        buf
    } else {
        let before = patch_entries(buf, key, entries.drop_last());
        let at = target(key, entries.last());
        if at < before.len() {
            before.update(at, entries.last().1)
        } else {
            before
        }
    }
}

/// `buf` after the chunks with a key below `k` were written to it, in ascending key order.
pub open spec fn patch_chunks(buf: Seq<u8>, chunks: Map<u8, Seq<(u8, u8)>>, k: nat) -> Seq<u8>
    decreases k,
{
    if k == 0 {
        buf
    } else {
        let before = patch_chunks(buf, chunks, (k - 1) as nat);
        let key = (k - 1) as u8;
        if k <= CHUNK_KEYS && chunks.contains_key(key) {
            patch_entries(before, key, chunks[key])
        } else {
            before
        }
    }
}

/// Every entry points inside a buffer of `len` bytes.
pub open spec fn in_bounds(chunks: Map<u8, Seq<(u8, u8)>>, len: nat) -> bool {
    forall|key: u8, i: int|
        chunks.contains_key(key) && 0 <= i < chunks[key].len() ==> target(
            key,
            #[trigger] chunks[key][i],
        ) < len
}

/// A delta may be applied to `old`: the fingerprint matches and no entry points outside.
pub open spec fn applies_to(delta: DeltaView, old: Seq<u8>) -> bool {
    &&& delta.old_hash == fingerprint(old)
    &&& in_bounds(delta.chunks, old.len())
}

/// The buffer that results from applying a delta to `old`.
pub open spec fn applied(delta: DeltaView, old: Seq<u8>) -> Seq<u8> {
    patch_chunks(old, delta.chunks, CHUNK_KEYS as nat)
}

/// One changed byte: where it lies inside its chunk, and its new value.
#[derive(Debug, Clone, Copy, PartialEq, Eq)]
pub struct ChunkedDelta {
    offset: u8,
    value: u8,
}

impl View for ChunkedDelta {
    type V = (u8, u8);

    closed spec fn view(&self) -> (u8, u8) {
        (self.offset, self.value)
    }
}

impl ChunkedDelta {
    pub fn new(offset: u8, value: u8) -> (delta: ChunkedDelta)
        ensures
            delta@ == (offset, value),
    {
        ChunkedDelta { offset, value }
    }

    pub fn offset(&self) -> (offset: u32)
        ensures
            offset == self@.0,
    {
        self.offset as u32
    }

    pub fn value(&self) -> (value: u8)
        ensures
            value == self@.1,
    {
        self.value
    }
}

/// One changed byte, addressed by its position in the whole buffer rather than inside a
/// chunk.
#[derive(Debug, Clone, Copy, PartialEq, Eq)]
pub struct ArrayDelta {
    index: u32,
    value: u8,
}

impl View for ArrayDelta {
    type V = (u32, u8);

    closed spec fn view(&self) -> (u32, u8) {
        (self.index, self.value)
    }
}

impl ArrayDelta {
    pub fn new(index: u32, value: u8) -> (delta: ArrayDelta)
        ensures
            delta@ == (index, value),
    {
        ArrayDelta { index, value }
    }

    pub fn index(&self) -> (index: u32)
        ensures
            index == self@.0,
    {
        self.index
    }

    pub fn value(&self) -> (value: u8)
        ensures
            value == self@.1,
    {
        self.value
    }
}

/// The entries of a list of changed bytes, as pairs.
pub open spec fn pairs(list: Seq<ChunkedDelta>) -> Seq<(u8, u8)> {
    list.map_values(|d: ChunkedDelta| d@)
}

/// The model of a stored chunk table.
pub open spec fn chunk_table(stored: Map<u8, Vec<ChunkedDelta>>) -> Map<u8, Seq<(u8, u8)>> {
    Map::new(|key: u8| stored.contains_key(key), |key: u8| pairs(stored[key]@))
}

/// Why a delta could not be applied.
#[derive(Debug, Clone, Copy, PartialEq, Eq, Structural)]
pub enum ApplyError {
    /// The buffer's fingerprint is not the one the delta was taken from.
    HashMismatch,
    /// The fingerprint matches, but an entry points past the end of the buffer.
    OutOfRange,
}

/// The difference between an old and a new buffer of one length.
#[derive(Debug, PartialEq, Eq)]
pub struct DeltaSnapshot {
    old_hash: [u8; 2],
    chunks: BTreeMap<u8, Vec<ChunkedDelta>>,
}

impl View for DeltaSnapshot {
    type V = DeltaView;

    closed spec fn view(&self) -> DeltaView {
        DeltaView {
            old_hash: (self.old_hash[0], self.old_hash[1]),
            chunks: chunk_table(self.chunks@),
        }
    }
}

fn fingerprint_of(buf: &[u8]) -> (hash: [u8; 2])
    ensures
        (hash[0], hash[1]) == fingerprint(buf@),
{
    let n: usize = buf.len();
    if n == 0 {
        [0u8, 0u8]
    } else {
        [buf[0], buf[n - 1]]
    }
}

impl DeltaSnapshot {
    /// The entries of a delta can be counted in a `usize`.
    #[verifier::type_invariant]
    spec fn countable(&self) -> bool {
        entry_count(chunk_table(self.chunks@)) <= usize::MAX
    }

    /// Records the positions at which `new_snapshot` differs from `old_snapshot`.
    pub fn new(old_snapshot: &[u8], new_snapshot: &[u8]) -> (delta: DeltaSnapshot)
        requires
            old_snapshot@.len() == new_snapshot@.len(),
        ensures
            delta@ == diff(old_snapshot@, new_snapshot@),
    {
        let old_hash = fingerprint_of(old_snapshot);
        let n: usize = old_snapshot.len();
        if new_snapshot.len() != n {
            vstd::pervasive::unreached()
        }
        let mut chunks: BTreeMap<u8, Vec<ChunkedDelta>> = BTreeMap::new();
        let mut i: usize = 0;
        while i < n
            invariant
                i <= n,
                n == old_snapshot@.len(),
                n == new_snapshot@.len(),
                chunk_table(chunks@) =~= diff_chunks(old_snapshot@, new_snapshot@, i as nat),
            decreases n - i,
        {
            if old_snapshot[i] != new_snapshot[i] {
                let chunk: u8 = ((i / CHUNK_SPAN) % CHUNK_KEYS) as u8;
                let offset: u8 = (i % CHUNK_SPAN) as u8;
                let ghost before = chunks@;
                let mut list: Vec<ChunkedDelta> = match chunks.remove(&chunk) {
                    Some(found) => found,
                    None => Vec::new(),
                };
                proof {
                    assert(pairs(list@) =~= chunk_entries(
                        old_snapshot@,
                        new_snapshot@,
                        chunk,
                        i as nat,
                    )) by {
                        if before.contains_key(chunk) {
                            assert(chunk_table(before)[chunk] == pairs(before[chunk]@));
                        } else {
                            assert(!chunk_table(before).contains_key(chunk));
                        }
                    }
                }
                let ghost short = list@;
                list.push(ChunkedDelta::new(offset, new_snapshot[i]));
                proof {
                    assert(pairs(list@) =~= pairs(short).push((offset, new_snapshot@[i as int])));
                }
                chunks.insert(chunk, list);
                proof {
                    let now = chunk_table(chunks@);
                    let want = diff_chunks(old_snapshot@, new_snapshot@, (i + 1) as nat);
                    assert forall|key: u8| now.contains_key(key) == want.contains_key(key) by {
                        if key != chunk {
                            assert(chunk_table(before).contains_key(key) == before.contains_key(
                                key,
                            ));
                        }
                    }
                    assert forall|key: u8| now.contains_key(key) implies now[key] == want[key] by {
                        if key != chunk {
                            assert(chunk_table(before)[key] == pairs(before[key]@));
                        }
                    }
                    assert(now =~= want);
                }
            }
            i += 1;
        }
        proof {
            lemma_count_differing(old_snapshot@, new_snapshot@, n as nat);
            lemma_differing_bound(old_snapshot@, new_snapshot@, n as nat);
        }
        DeltaSnapshot { old_hash, chunks }
    }

    /// A delta with the given fingerprint and chunks.
    pub fn from_parts(old_hash: [u8; 2], chunks: BTreeMap<u8, Vec<ChunkedDelta>>) -> (delta:
        DeltaSnapshot)
        requires
            entry_count(chunk_table(chunks@)) <= usize::MAX,
        ensures
            delta@ == (DeltaView {
                old_hash: (old_hash[0], old_hash[1]),
                chunks: chunk_table(chunks@),
            }),
    {
        DeltaSnapshot { old_hash, chunks }
    }

    /// The fingerprint of the buffer that the delta was taken from.
    pub fn old_hash(&self) -> (hash: [u8; 2])
        ensures
            (hash[0], hash[1]) == self@.old_hash,
    {
        self.old_hash
    }

    /// The entries recorded under `key`, if there are any.
    pub fn chunk(&self, key: u8) -> (list: Option<&Vec<ChunkedDelta>>)
        ensures
            match list {
                Some(entries) => self@.chunks.contains_key(key) && self@.chunks[key] == pairs(
                    entries@,
                ),
                None => !self@.chunks.contains_key(key),
            },
    {
        self.chunks.get(&key)
    }

    /// Applies the delta to `old_snapshot` if it fits: the fingerprint must match, and
    /// every entry must point inside the buffer. `old_snapshot` itself is left as it is.
    pub fn try_apply(&self, old_snapshot: &[u8]) -> (result: Result<Vec<u8>, ApplyError>)
        ensures
            match result {
                Ok(patched) => applies_to(self@, old_snapshot@) && patched@ == applied(
                    self@,
                    old_snapshot@,
                ),
                Err(ApplyError::HashMismatch) => self@.old_hash != fingerprint(old_snapshot@),
                Err(ApplyError::OutOfRange) => self@.old_hash == fingerprint(old_snapshot@)
                    && !in_bounds(self@.chunks, old_snapshot@.len()),
            },
    {
        let old_hash = fingerprint_of(old_snapshot);
        if self.old_hash[0] != old_hash[0] || self.old_hash[1] != old_hash[1] {
            return Err(ApplyError::HashMismatch);
        }
        let ghost table = self@.chunks;
        let mut patched: Vec<u8> = vstd::slice::slice_to_vec(old_snapshot);
        let mut k: usize = 0;
        while k < CHUNK_KEYS
            invariant
                k <= 256,
                table == chunk_table(self.chunks@),
                table == self@.chunks,
                self@.old_hash == fingerprint(old_snapshot@),
                patched@.len() == old_snapshot@.len(),
                patched@ == patch_chunks(old_snapshot@, table, k as nat),
                forall|key: u8, i: int|
                    key < k && table.contains_key(key) && 0 <= i < table[key].len() ==> target(
                        key,
                        #[trigger] table[key][i],
                    ) < old_snapshot@.len(),
            decreases 256 - k,
        {
            let key: u8 = k as u8;
            match self.chunks.get(&key) {
                Some(list) => {
                    let ghost start = patched@;
                    let ghost entries = table[key];
                    assert(entries == pairs(list@));
                    let mut j: usize = 0;
                    while j < list.len()
                        invariant
                            j <= list@.len(),
                            entries == pairs(list@),
                            entries == table[key],
                            table.contains_key(key),
                            table == self@.chunks,
                            self@.old_hash == fingerprint(old_snapshot@),
                            patched@.len() == old_snapshot@.len(),
                            start.len() == old_snapshot@.len(),
                            patched@ == patch_entries(start, key, entries.take(j as int)),
                            forall|i: int|
                                0 <= i < j ==> target(key, #[trigger] entries[i])
                                    < old_snapshot@.len(),
                        decreases list@.len() - j,
                    {
                        let entry: ChunkedDelta = list[j];
                        let at: usize = (key as usize) * CHUNK_SPAN + (entry.offset() as usize);
                        assert(at == target(key, entries[j as int]));
                        if at >= patched.len() {
                            assert(!in_bounds(table, old_snapshot@.len()));
                            return Err(ApplyError::OutOfRange);
                        }
                        patched.set(at, entry.value());
                        proof {
                            assert(entries.take(j + 1).drop_last() =~= entries.take(j as int));
                            assert(entries.take(j + 1).last() == entries[j as int]);
                        }
                        j += 1;
                    }
                    assert(entries.take(j as int) =~= entries);
                },
                None => {},
            }
            k += 1;
        }
        Ok(patched)
    }

    /// Applies the delta to `old_snapshot` and returns the patched copy.
    pub fn apply(self, old_snapshot: &[u8]) -> (patched: Vec<u8>)
        requires
            applies_to(self@, old_snapshot@),
        ensures
            patched@ == applied(self@, old_snapshot@),
    {
        match self.try_apply(old_snapshot) {
            Ok(patched) => patched,
            Err(_) => vstd::pervasive::unreached(),
        }
    }

    /// No chunk of a delta holds more entries than a `usize` counts.
    pub proof fn lemma_chunks_countable(&self)
        ensures
            forall|key: u8|
                self@.chunks.contains_key(key) ==> (#[trigger] self@.chunks[key]).len()
                    <= usize::MAX,
    {
        assert forall|key: u8| self@.chunks.contains_key(key) implies (
        #[trigger] self@.chunks[key]).len() <= usize::MAX by {
            let list = self.chunks@[key];
            assert(list.len() == list@.len());
        }
    }

    /// Number of changed positions that the delta records.
    pub fn len(&self) -> (count: usize)
        ensures
            count == entry_count(self@.chunks),
    {
        proof {
            use_type_invariant(self);
        }
        let ghost table = chunk_table(self.chunks@);
        let mut count: usize = 0;
        let mut k: usize = 0;
        while k < CHUNK_KEYS
            invariant
                k <= 256,
                table == chunk_table(self.chunks@),
                count == count_below(table, k as nat),
                entry_count(table) <= usize::MAX,
            decreases 256 - k,
        {
            let key: u8 = k as u8;
            proof {
                lemma_count_below_grows(table, (k + 1) as nat, 256);
            }
            match self.chunks.get(&key) {
                Some(list) => {
                    assert(table[key].len() == list@.len());
                    count = count + list.len();
                },
                None => {},
            }
            k += 1;
        }
        count
    }
}

/// Every position at which the two buffers differ lies below `ADDRESSABLE`, so that its
/// key and offset name it and no other position.
pub open spec fn addressable(old: Seq<u8>, new: Seq<u8>) -> bool {
    forall|pos: int| 0 <= pos < old.len() && old[pos] != new[pos] ==> pos < ADDRESSABLE
}

proof fn lemma_entries_point_back(old: Seq<u8>, new: Seq<u8>, key: u8, n: nat)
    requires
        old.len() == new.len(),
        n <= old.len(),
        addressable(old, new),
    ensures
        forall|i: int|
            0 <= i < chunk_entries(old, new, key, n).len() ==> 0 <= target(
                key,
                #[trigger] chunk_entries(old, new, key, n)[i],
            ) < n,
    decreases n,
{
    if n > 0 {
        let pos = n - 1;
        let before = chunk_entries(old, new, key, pos as nat);
        lemma_entries_point_back(old, new, key, pos as nat);
        if old[pos] != new[pos] && chunk_of(pos) == key {
            let entry = (offset_of(pos), new[pos]);
            assert(target(key, entry) == pos);
            assert forall|i: int| 0 <= i < before.push(entry).len() implies 0 <= target(
                key,
                #[trigger] before.push(entry)[i],
            ) < n by {
                if i < before.len() {
                    assert(before.push(entry)[i] == before[i]);
                }
            }
        }
    }
}

/// Inside a chunk the recorded offsets ascend, wherever every changed position can be
/// addressed.
pub proof fn lemma_offsets_ascend(old: Seq<u8>, new: Seq<u8>, key: u8, n: nat)
    requires
        old.len() == new.len(),
        n <= old.len(),
        addressable(old, new),
    ensures
        forall|i: int, j: int|
            0 <= i < j < chunk_entries(old, new, key, n).len() ==> chunk_entries(
                old,
                new,
                key,
                n,
            )[i].0 < chunk_entries(old, new, key, n)[j].0,
    decreases n,
{
    if n > 0 {
        let pos = n - 1;
        let before = chunk_entries(old, new, key, pos as nat);
        lemma_offsets_ascend(old, new, key, pos as nat);
        lemma_entries_point_back(old, new, key, pos as nat);
        if old[pos] != new[pos] && chunk_of(pos) == key {
            let entry = (offset_of(pos), new[pos]);
            assert(target(key, entry) == pos);
            assert forall|i: int, j: int| 0 <= i < j < before.push(entry).len() implies before.push(
                entry,
            )[i].0 < before.push(entry)[j].0 by {
                assert(before.push(entry)[i] == before[i]);
                assert(target(key, before[i]) < pos);
            }
        }
    }
}

proof fn lemma_patch_entries(old: Seq<u8>, new: Seq<u8>, buf: Seq<u8>, key: u8, n: nat)
    requires
        old.len() == new.len(),
        buf.len() == old.len(),
        n <= old.len(),
        addressable(old, new),
    ensures
        patch_entries(buf, key, chunk_entries(old, new, key, n)).len() == buf.len(),
        forall|q: int|
            0 <= q < buf.len() ==> #[trigger] patch_entries(
                buf,
                key,
                chunk_entries(old, new, key, n),
            )[q] == if q < n && old[q] != new[q] && chunk_of(q) == key {
                new[q]
            } else {
                buf[q]
            },
    decreases n,
{
    if n > 0 {
        let pos = n - 1;
        let before = chunk_entries(old, new, key, pos as nat);
        lemma_patch_entries(old, new, buf, key, pos as nat);
        if old[pos] != new[pos] && chunk_of(pos) == key {
            let entry = (offset_of(pos), new[pos]);
            assert(before.push(entry).drop_last() =~= before);
            assert(target(key, entry) == pos);
        }
    }
}

proof fn lemma_patch_chunks(old: Seq<u8>, new: Seq<u8>, k: nat)
    requires
        old.len() == new.len(),
        k <= 256,
        addressable(old, new),
    ensures
        patch_chunks(old, diff_chunks(old, new, old.len()), k).len() == old.len(),
        forall|q: int|
            0 <= q < old.len() ==> #[trigger] patch_chunks(
                old,
                diff_chunks(old, new, old.len()),
                k,
            )[q] == if old[q] != new[q] && chunk_of(q) < k {
                new[q]
            } else {
                old[q]
            },
    decreases k,
{
    if k > 0 {
        let key = (k - 1) as u8;
        let before = patch_chunks(old, diff_chunks(old, new, old.len()), (k - 1) as nat);
        lemma_patch_chunks(old, new, (k - 1) as nat);
        lemma_patch_entries(old, new, before, key, old.len());
    }
}

/// Applying the difference of two buffers to the old one yields the new one, wherever
/// every changed position can be addressed.
pub proof fn lemma_diff_then_apply(old: Seq<u8>, new: Seq<u8>)
    requires
        old.len() == new.len(),
        addressable(old, new),
    ensures
        applies_to(diff(old, new), old),
        applied(diff(old, new), old) == new,
{
    let chunks = diff_chunks(old, new, old.len());
    assert forall|key: u8, i: int|
        chunks.contains_key(key) && 0 <= i < chunks[key].len() implies target(
        key,
        #[trigger] chunks[key][i],
    ) < old.len() by {
        lemma_entries_point_back(old, new, key, old.len());
    }
    lemma_patch_chunks(old, new, 256);
    assert(applied(diff(old, new), old) =~= new);
}

/// Buffers of at most `ADDRESSABLE` bytes are covered by `lemma_diff_then_apply`.
pub proof fn lemma_short_is_addressable(old: Seq<u8>, new: Seq<u8>)
    requires
        old.len() <= ADDRESSABLE,
    ensures
        addressable(old, new),
{
}

/// The difference of two buffers records exactly one entry for each position at which
/// they differ.
pub proof fn lemma_diff_is_sparse(old: Seq<u8>, new: Seq<u8>)
    requires
        old.len() == new.len(),
    ensures
        entry_count(diff(old, new).chunks) == differing(old, new, old.len()),
{
    lemma_count_differing(old, new, old.len());
}

/// A delta does not apply to a buffer whose first or last byte is not that of the buffer
/// it was taken from.
pub proof fn lemma_stale_baseline_rejected(old: Seq<u8>, new: Seq<u8>, other: Seq<u8>)
    requires
        old.len() == new.len(),
        fingerprint(other) != fingerprint(old),
    ensures
        !applies_to(diff(old, new), other),
{
}

/// Recording a list under a key adds at most its length to the number of entries.
pub proof fn lemma_count_insert(
    chunks: Map<u8, Seq<(u8, u8)>>,
    key: u8,
    entries: Seq<(u8, u8)>,
    k: nat,
)
    ensures
        count_below(chunks.insert(key, entries), k) <= count_below(chunks, k) + entries.len(),
{
    if key < k {
        lemma_count_insert_above(chunks, key, entries, k);
    } else {
        lemma_count_insert_below(chunks, key, entries, k);
    }
}

proof fn lemma_count_insert_above(
    chunks: Map<u8, Seq<(u8, u8)>>,
    key: u8,
    entries: Seq<(u8, u8)>,
    k: nat,
)
    requires
        key < k,
    ensures
        count_below(chunks.insert(key, entries), k) + chunk_len(chunks, key as int)
            == count_below(chunks, k) + entries.len(),
    decreases k,
{
    if k - 1 > key {
        lemma_count_insert_above(chunks, key, entries, (k - 1) as nat);
    } else {
        lemma_count_insert_below(chunks, key, entries, (k - 1) as nat);
    }
}

proof fn lemma_count_insert_below(
    chunks: Map<u8, Seq<(u8, u8)>>,
    key: u8,
    entries: Seq<(u8, u8)>,
    k: nat,
)
    requires
        k <= key,
    ensures
        count_below(chunks.insert(key, entries), k) == count_below(chunks, k),
    decreases k,
{
    if k > 0 {
        lemma_count_insert_below(chunks, key, entries, (k - 1) as nat);
    }
}

/// Counting the entries below a larger key counts no fewer.
pub proof fn lemma_count_below_grows(chunks: Map<u8, Seq<(u8, u8)>>, k: nat, upper: nat)
    requires
        k <= upper,
    ensures
        count_below(chunks, k) <= count_below(chunks, upper),
    decreases upper,
{
    if k < upper {
        lemma_count_below_grows(chunks, k, (upper - 1) as nat);
    }
}

/// Two buffers differ at no more positions than were looked at.
pub proof fn lemma_differing_bound(old: Seq<u8>, new: Seq<u8>, n: nat)
    ensures
        differing(old, new, n) <= n,
    decreases n,
{
    if n > 0 {
        lemma_differing_bound(old, new, (n - 1) as nat);
    }
}

proof fn lemma_count_step(old: Seq<u8>, new: Seq<u8>, n: nat, k: nat)
    requires
        n > 0,
        k <= 256,
    ensures
        count_below(diff_chunks(old, new, n), k) == count_below(
            diff_chunks(old, new, (n - 1) as nat),
            k,
        ) + if old[n - 1] != new[n - 1] && chunk_of(n - 1) < k {
            1nat
        } else {
            0nat
        },
    decreases k,
{
    if k > 0 {
        lemma_count_step(old, new, n, (k - 1) as nat);
        let key = (k - 1) as u8;
        let now = diff_chunks(old, new, n);
        let prev = diff_chunks(old, new, (n - 1) as nat);
        assert(chunk_len(now, k - 1) == chunk_entries(old, new, key, n).len());
        assert(chunk_len(prev, k - 1) == chunk_entries(old, new, key, (n - 1) as nat).len());
    }
}

/// Over any prefix, the chunks hold one entry for each differing position.
pub proof fn lemma_count_differing(old: Seq<u8>, new: Seq<u8>, n: nat)
    ensures
        entry_count(diff_chunks(old, new, n)) == differing(old, new, n),
    decreases n,
{
    if n == 0 {
        lemma_count_empty(diff_chunks(old, new, 0), 256);
    } else {
        lemma_count_differing(old, new, (n - 1) as nat);
        lemma_count_step(old, new, n, 256);
    }
}

/// A table without chunks holds no entries.
pub proof fn lemma_count_empty(chunks: Map<u8, Seq<(u8, u8)>>, k: nat)
    requires
        forall|key: u8| !chunks.contains_key(key),
    ensures
        count_below(chunks, k) == 0,
    decreases k,
{
    if k > 0 {
        lemma_count_empty(chunks, (k - 1) as nat);
    }
}

} // verus!
