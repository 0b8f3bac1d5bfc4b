//! Reassembly of split frames: the parts of a compound are collected by their
//! index until every part has arrived, then joined into one frame.
use vstd::prelude::*;

use crate::buffer::{bytes_as_slice, bytes_contents, bytes_from_vec, bytes_len};
use crate::error::DecodeError;
use crate::protocol::frame::{Frame, FrameHeader, FrameView};
use crate::protocol::primitives::write_bytes;
use crate::protocol::sequence24::Sequence24;
use crate::table::{
    keys_distinct, lemma_table_len, lemma_table_position, lemma_table_push, lemma_table_remove,
    table_map,
};
use crate::time::{Duration, Instant};

verus! {

/// A compound whose parts are being collected: the fields of its first part,
/// the parts received so far (by index), how many, and when the last arrived.
pub struct SplitEntry {
    pub header: FrameHeader,
    pub reliable_index: Option<Sequence24>,
    pub sequence_index: Option<Sequence24>,
    pub ordering_index: Option<Sequence24>,
    pub ordering_channel: Option<u8>,
    pub part_count: u32,
    pub received: usize,
    pub parts: Vec<Option<bytes::Bytes>>,
    pub last_update: Instant,
}

pub struct SplitAssembler {
    entries: Vec<(u16, SplitEntry)>,
    ttl: Duration,
    max_parts: u32,
    max_concurrent: usize,
}

/// How many of `parts` have arrived.
pub open spec fn count_received(parts: Seq<Option<bytes::Bytes>>) -> nat
    decreases parts.len(),
{
    if parts.len() == 0 {
        0
    } else {
        count_received(parts.drop_last()) + if parts.last() is Some {
            1nat
        } else {
            0nat
        }
    }
}

/// The bytes of `parts`, in index order.
pub open spec fn joined_parts(parts: Seq<Option<bytes::Bytes>>) -> Seq<u8>
    decreases parts.len(),
{
    if parts.len() == 0 {
        Seq::empty()
    } else {
        joined_parts(parts.drop_last()) + bytes_contents(parts.last().unwrap())
    }
}

/// An entry is consistent: one slot per announced part, at least one part,
/// its count of received parts right, and at least one part still missing.
pub open spec fn entry_wf(e: SplitEntry) -> bool {
    &&& e.part_count >= 1
    &&& e.parts@.len() == e.part_count
    &&& e.received == count_received(e.parts@)
    &&& e.received < e.part_count
}

/// The entry a compound starts with when `frame`, one of its parts, arrives first.
pub open spec fn fresh_entry_fields(e: SplitEntry, frame: FrameView, now: Instant) -> bool {
    &&& e.header == frame.header
    &&& e.reliable_index == frame.reliable_index
    &&& e.sequence_index == frame.sequence_index
    &&& e.ordering_index == frame.ordering_index
    &&& e.ordering_channel == frame.ordering_channel
    &&& e.part_count == frame.split.unwrap().part_count
    &&& e.received == 0
    &&& e.parts@ == Seq::new(frame.split.unwrap().part_count as nat, |i: int| None::<bytes::Bytes>)
    &&& e.last_update == now
}

/// `e` after part `index` arrived with `payload` at `now`.
pub open spec fn entry_with_part(
    e: SplitEntry,
    e2: SplitEntry,
    index: int,
    payload: Seq<u8>,
    now: Instant,
) -> bool {
    &&& e2.header == e.header
    &&& e2.reliable_index == e.reliable_index
    &&& e2.sequence_index == e.sequence_index
    &&& e2.ordering_index == e.ordering_index
    &&& e2.ordering_channel == e.ordering_channel
    &&& e2.part_count == e.part_count
    &&& e2.received == e.received + 1
    &&& e2.parts@.len() == e.parts@.len()
    &&& (forall|j: int| 0 <= j < e.parts@.len() && j != index ==> e2.parts@[j] == e.parts@[j])
    &&& e2.parts@[index] matches Some(b) && bytes_contents(b) == payload
    &&& e2.last_update == now
}

/// The frame a complete compound becomes: the first part's reliability,
/// indices and "needs B and AS" flag, no split header, the parts' bytes in
/// index order, and the payload's length in bits (as 16 bits hold it).
pub open spec fn assembled_frame(e: SplitEntry, payload: Seq<u8>) -> FrameView {
    FrameView {
        header: FrameHeader {
            reliability: e.header.reliability,
            is_split: false,
            needs_bas: e.header.needs_bas,
        },
        bit_length: ((payload.len() as u16) << 3u16) as u16,
        reliable_index: e.reliable_index,
        sequence_index: e.sequence_index,
        ordering_index: e.ordering_index,
        ordering_channel: e.ordering_channel,
        split: None,
        payload,
    }
}

/// Whether an entry has outlived the time to live at `now`.
pub open spec fn entry_expired(e: SplitEntry, now: Instant, ttl: Duration) -> bool {
    now.nanos >= e.last_update.nanos && now.nanos - e.last_update.nanos >= ttl.nanos
}

proof fn lemma_count_received_bound(parts: Seq<Option<bytes::Bytes>>)
    ensures
        count_received(parts) <= parts.len(),
        count_received(parts) == parts.len() ==> forall|j: int|
            0 <= j < parts.len() ==> (#[trigger] parts[j]) is Some,
    decreases parts.len(),
{
    if parts.len() > 0 {
        let t = parts.drop_last();
        lemma_count_received_bound(t);
        if count_received(parts) == parts.len() {
            assert forall|j: int| 0 <= j < parts.len() implies (#[trigger] parts[j]) is Some by {
                if j < parts.len() - 1 {
                    assert(parts[j] == t[j]);
                }
            }
        }
    }
}

proof fn lemma_count_received_none(n: nat)
    ensures
        count_received(Seq::new(n, |i: int| None::<bytes::Bytes>)) == 0,
    decreases n,
{
    if n > 0 {
        let s = Seq::new(n, |i: int| None::<bytes::Bytes>);
        assert(s.drop_last() =~= Seq::new((n - 1) as nat, |i: int| None::<bytes::Bytes>));
        lemma_count_received_none((n - 1) as nat);
    }
}

/// Filling an empty slot adds one to the number of parts received.
proof fn lemma_count_received_fill(parts: Seq<Option<bytes::Bytes>>, index: int, b: bytes::Bytes)
    requires
        0 <= index < parts.len(),
        parts[index] is None,
    ensures
        count_received(parts.update(index, Some(b))) == count_received(parts) + 1,
    decreases parts.len(),
{
    let u = parts.update(index, Some(b));
    if index == parts.len() - 1 {
        assert(u.drop_last() =~= parts.drop_last());
    } else {
        assert(u.drop_last() =~= parts.drop_last().update(index, Some(b)));
        lemma_count_received_fill(parts.drop_last(), index, b);
    }
}

/// `add` stored part `frame` of a compound at `now`, taking `compounds` to
/// `after` and answering `r`: `e` is the compound before (the one being
/// collected, or a fresh one), `e2` after the part; with every part in, the
/// joined frame comes back and the compound goes.
pub open spec fn part_stored(
    compounds: Map<u16, SplitEntry>,
    frame: FrameView,
    now: Instant,
    after: Map<u16, SplitEntry>,
    r: Result<Option<Frame>, DecodeError>,
    e: SplitEntry,
    e2: SplitEntry,
) -> bool {
    let sp = frame.split.unwrap();
    &&& (if compounds.contains_key(sp.part_id) {
        e == compounds[sp.part_id]
    } else {
        fresh_entry_fields(e, frame, now)
    })
    &&& entry_with_part(e, e2, sp.part_index as int, frame.payload, now)
    &&& if e2.received < e2.part_count {
        r matches Ok(None) && after == compounds.insert(sp.part_id, e2)
    } else {
        r matches Ok(Some(f)) && f@ == assembled_frame(e2, joined_parts(e2.parts@)) && after
            == compounds.remove(sp.part_id)
    }
}

/// What `add` does with `frame` at `now`: the compounds of `a` become those of
/// `a2`, and `r` is the answer. (Opaque: `reveal(add_outcome)` unfolds it.)
#[verifier::opaque]
pub open spec fn add_outcome(
    a: SplitAssembler,
    frame: FrameView,
    now: Instant,
    a2: SplitAssembler,
    r: Result<Option<Frame>, DecodeError>,
) -> bool {
    let compounds = a.compounds();
    let after = a2.compounds();
    if !frame.header.is_split {
        r matches Ok(Some(f)) && f@ == frame && after == compounds
    } else {
        match frame.split {
            None => r == Err::<Option<Frame>, DecodeError>(DecodeError::MissingSplitInfo) && after
                == compounds,
            Some(sp) => if sp.part_count == 0 {
                r == Err::<Option<Frame>, DecodeError>(DecodeError::SplitCountZero) && after
                    == compounds
            } else if sp.part_count > a.spec_max_parts() {
                r == Err::<Option<Frame>, DecodeError>(DecodeError::SplitTooLarge) && after
                    == compounds
            } else if sp.part_index >= sp.part_count {
                r == Err::<Option<Frame>, DecodeError>(DecodeError::SplitIndexOutOfRange) && after
                    == compounds
            } else if compounds.dom().len() >= a.spec_max_concurrent() && !compounds.contains_key(
                sp.part_id,
            ) {
                r == Err::<Option<Frame>, DecodeError>(DecodeError::SplitBufferFull) && after
                    == compounds
            } else if compounds.contains_key(sp.part_id) && compounds[sp.part_id].part_count
                != sp.part_count {
                r == Err::<Option<Frame>, DecodeError>(DecodeError::SplitCountMismatch) && after
                    == compounds
            } else if compounds.contains_key(sp.part_id)
                && compounds[sp.part_id].parts@[sp.part_index as int] is Some {
                r matches Ok(None) && after == compounds
            } else {
                exists|e: SplitEntry, e2: SplitEntry|
                    #[trigger] part_stored(compounds, frame, now, after, r, e, e2)
            },
        }
    }
}

impl SplitAssembler {
    /// The compounds being collected, by compound id.
    pub closed spec fn compounds(&self) -> Map<u16, SplitEntry> {
        table_map(self.entries@)
    }

    /// How long an incomplete compound is kept.
    pub closed spec fn spec_ttl(&self) -> Duration {
        self.ttl
    }

    pub closed spec fn spec_max_parts(&self) -> u32 {
        self.max_parts
    }

    pub closed spec fn spec_max_concurrent(&self) -> usize {
        self.max_concurrent
    }

    /// The assembler is consistent: distinct compound ids, consistent entries,
    /// and no more compounds than allowed at once.
    pub closed spec fn wf(&self) -> bool {
        &&& keys_distinct(self.entries@)
        &&& forall|i: int| 0 <= i < self.entries@.len() ==> entry_wf(#[trigger] self.entries@[i].1)
        &&& self.entries@.len() <= self.max_concurrent
    }

    /// Every compound being collected is consistent, and there are no more of
    /// them than the assembler allows at once.
    pub proof fn lemma_wf(&self)
        requires
            self.wf(),
        ensures
            self.compounds().dom().finite(),
            self.compounds().dom().len() <= self.spec_max_concurrent(),
            forall|k: u16| #[trigger] self.compounds().contains_key(k) ==> entry_wf(
                self.compounds()[k],
            ),
    {
        lemma_table_len(self.entries@);
        assert forall|k: u16| #[trigger] self.compounds().contains_key(k) implies entry_wf(
            self.compounds()[k],
        ) by {
            lemma_table_position(self.entries@, k);
        }
    }

    /// An assembler with no compounds. A zero time to live stands for 30 seconds.
    pub fn new(ttl: Duration, max_parts: u32, max_concurrent: usize) -> (a: SplitAssembler)
        ensures
            a.wf(),
            a.compounds() == Map::<u16, SplitEntry>::empty(),
            a.spec_ttl().nanos == if ttl.nanos == 0 {
                30_000_000_000u128
            } else {
                ttl.nanos
            },
            a.spec_max_parts() == max_parts,
            a.spec_max_concurrent() == max_concurrent,
    {
        let effective_ttl = if ttl.is_zero() {
            Duration::from_secs(30)
        } else {
            ttl
        };
        SplitAssembler { entries: Vec::new(), ttl: effective_ttl, max_parts, max_concurrent }
    }

    fn position(&self, id: u16) -> (r: Option<usize>)
        requires
            keys_distinct(self.entries@),
        ensures
            r matches Some(i) ==> i < self.entries@.len() && self.entries@[i as int].0 == id,
            r is None ==> !self.compounds().contains_key(id),
    {
        let mut i: usize = 0;
        while i < self.entries.len()
            invariant
                i <= self.entries@.len(),
                forall|j: int| 0 <= j < i ==> (#[trigger] self.entries@[j]).0 != id,
            decreases self.entries@.len() - i,
        {
            if self.entries[i].0 == id {
                return Some(i);
            }
            i = i + 1;
        }
        proof {
            lemma_table_position(self.entries@, id);
        }
        None
    }

    /// Takes in one frame at `now`. A frame that is not split comes back as it
    /// is. A split frame's part is stored; when it completes its compound, the
    /// joined frame comes back and the compound is dropped. A part that
    /// already arrived is ignored.
    pub fn add(&mut self, frame: Frame, now: Instant) -> (r: Result<Option<Frame>, DecodeError>)
        requires
            old(self).wf(),
        ensures
            final(self).wf(),
            final(self).spec_ttl() == old(self).spec_ttl(),
            final(self).spec_max_parts() == old(self).spec_max_parts(),
            final(self).spec_max_concurrent() == old(self).spec_max_concurrent(),
            add_outcome(*old(self), frame@, now, *final(self), r),
    {
        proof {
            reveal(add_outcome);
        }
        if !frame.header.is_split {
            return Ok(Some(frame));
        }
        let split = match frame.split {
            Some(sp) => sp,
            None => return Err(DecodeError::MissingSplitInfo),
        };
        if split.part_count == 0 {
            return Err(DecodeError::SplitCountZero);
        }
        if split.part_count > self.max_parts {
            return Err(DecodeError::SplitTooLarge);
        }
        if split.part_index >= split.part_count {
            return Err(DecodeError::SplitIndexOutOfRange);
        }
        proof {
            lemma_table_len(self.entries@);
        }
        let pos = self.position(split.part_id);
        if self.entries.len() >= self.max_concurrent && pos.is_none() {
            return Err(DecodeError::SplitBufferFull);
        }
        let ghost old_entries = self.entries@;
        let ghost compounds = table_map(old_entries);
        // take the entry out of the table, or start a fresh one
        let (id, mut entry) = match pos {
            Some(i) => {
                proof {
                    lemma_table_position(old_entries, split.part_id);
                    crate::table::lemma_table_value(old_entries, i as int);
                    assert(entry_wf(old_entries[i as int].1));
                }
                let (id, entry) = self.entries.remove(i);
                proof {
                    lemma_table_remove(old_entries, i as int);
                }
                if entry.part_count != split.part_count {
                    proof {
                        lemma_table_push(self.entries@, id, entry);
                        assert(table_map(self.entries@).insert(id, entry) =~= compounds);
                    }
                    self.entries.push((id, entry));
                    return Err(DecodeError::SplitCountMismatch);
                }
                (id, entry)
            },
            None => {
                let mut parts: Vec<Option<bytes::Bytes>> = Vec::new();
                let mut j: u32 = 0;
                while j < split.part_count
                    invariant
                        j <= split.part_count,
                        parts@ == Seq::new(j as nat, |i: int| None::<bytes::Bytes>),
                    decreases split.part_count - j,
                {
                    parts.push(None);
                    j = j + 1;
                    assert(parts@ =~= Seq::new(j as nat, |i: int| None::<bytes::Bytes>));
                }
                proof {
                    lemma_count_received_none(split.part_count as nat);
                }
                (
                    split.part_id,
                    SplitEntry {
                        header: frame.header,
                        reliable_index: frame.reliable_index,
                        sequence_index: frame.sequence_index,
                        ordering_index: frame.ordering_index,
                        ordering_channel: frame.ordering_channel,
                        part_count: split.part_count,
                        received: 0,
                        parts,
                        last_update: now,
                    },
                )
            },
        };
        let ghost e = entry;
        let ghost rest = self.entries@;
        let ghost fv = frame@;
        assert(if compounds.contains_key(split.part_id) {
            e == compounds[split.part_id]
        } else {
            fresh_entry_fields(e, fv, now)
        }) by {
            if pos is Some {
                lemma_table_position(old_entries, split.part_id);
            }
        }
        assert(!table_map(rest).contains_key(id)) by {
            if pos is Some {
                assert(table_map(rest) == compounds.remove(id));
            } else {
                assert(rest == old_entries);
            }
        }
        assert(table_map(rest) == compounds.remove(id)) by {
            if pos is None {
                assert(compounds.remove(id) =~= compounds);
            }
        }
        let index = split.part_index as usize;
        if entry.parts[index].is_some() {
            proof {
                lemma_table_push(rest, id, entry);
                assert(table_map(rest).insert(id, entry) =~= compounds);
            }
            self.entries.push((id, entry));
            return Ok(None);
        }
        let Frame { payload, .. } = frame;
        let ghost payload_view = bytes_contents(payload);
        proof {
            lemma_count_received_fill(entry.parts@, index as int, payload);
        }
        entry.parts.set(index, Some(payload));
        entry.received = entry.received + 1;
        entry.last_update = now;
        assert(entry_with_part(e, entry, index as int, payload_view, now));
        if entry.received < entry.parts.len() {
            proof {
                lemma_table_push(rest, id, entry);
                assert(table_map(rest).insert(id, entry) =~= compounds.insert(id, entry));
                assert(entry_wf(entry));
            }
            self.entries.push((id, entry));
            assert forall|i: int| 0 <= i < self.entries@.len() implies entry_wf(
                #[trigger] self.entries@[i].1,
            ) by {
                if i < rest.len() {
                    assert(self.entries@[i] == rest[i]);
                }
            }
            assert(entry_with_part(e, entry, split.part_index as int, fv.payload, now));
            assert(part_stored(compounds, fv, now, self.compounds(), Ok(None), e, entry));
            return Ok(None);
        }
        // every part has arrived: join them in index order
        proof {
            lemma_count_received_bound(entry.parts@);
        }
        let mut merged: Vec<u8> = Vec::new();
        let mut k: usize = 0;
        while k < entry.parts.len()
            invariant
                k <= entry.parts@.len(),
                forall|j: int| 0 <= j < entry.parts@.len() ==> (#[trigger] entry.parts@[j]) is Some,
                merged@ == joined_parts(entry.parts@.take(k as int)),
            decreases entry.parts@.len() - k,
        {
            proof {
                assert(entry.parts@.take(k + 1).drop_last() =~= entry.parts@.take(k as int));
                assert(entry.parts@.take(k + 1).last() == entry.parts@[k as int]);
            }
            match &entry.parts[k] {
                Some(b) => write_bytes(&mut merged, bytes_as_slice(b)),
                None => {},
            }
            k = k + 1;
        }
        assert(entry.parts@.take(k as int) =~= entry.parts@);
        let payload = bytes_from_vec(merged);
        let len = bytes_len(&payload);
        let assembled = Frame {
            header: FrameHeader {
                reliability: entry.header.reliability,
                is_split: false,
                needs_bas: entry.header.needs_bas,
            },
            bit_length: (#[verifier::truncate] (len as u16)) << 3u16,
            reliable_index: entry.reliable_index,
            sequence_index: entry.sequence_index,
            ordering_index: entry.ordering_index,
            ordering_channel: entry.ordering_channel,
            split: None,
            payload,
        };
        assert(assembled@ == assembled_frame(entry, joined_parts(entry.parts@)));
        assert(entry_with_part(e, entry, split.part_index as int, fv.payload, now));
        assert forall|i: int| 0 <= i < self.entries@.len() implies entry_wf(
            #[trigger] self.entries@[i].1,
        ) by {
            assert(self.entries@[i] == rest[i]);
        }
        assert(part_stored(compounds, fv, now, self.compounds(), Ok(Some(assembled)), e, entry));
        Ok(Some(assembled))
    }

    /// Drops every compound whose last part arrived at least the time to live
    /// before `now`; returns how many were dropped.
    pub fn prune(&mut self, now: Instant) -> (dropped: usize)
        requires
            old(self).wf(),
        ensures
            final(self).wf(),
            final(self).spec_ttl() == old(self).spec_ttl(),
            final(self).spec_max_parts() == old(self).spec_max_parts(),
            final(self).spec_max_concurrent() == old(self).spec_max_concurrent(),
            final(self).compounds() == Map::new(
                |k: u16|
                    old(self).compounds().contains_key(k) && !entry_expired(
                        old(self).compounds()[k],
                        now,
                        old(self).spec_ttl(),
                    ),
                |k: u16| old(self).compounds()[k],
            ),
            dropped == old(self).compounds().dom().len() - final(self).compounds().dom().len(),
    {
        let ghost old_entries = self.entries@;
        let ghost old_map = table_map(old_entries);
        let ttl = self.ttl;
        let ghost max_parts = self.max_parts;
        let ghost max_concurrent = self.max_concurrent;
        let mut dropped: usize = 0;
        let mut i: usize = 0;
        while i < self.entries.len()
            invariant
                ttl == self.ttl,
                max_parts == self.max_parts,
                max_concurrent == self.max_concurrent,
                i <= self.entries@.len(),
                keys_distinct(self.entries@),
                forall|j: int| 0 <= j < self.entries@.len() ==> entry_wf(#[trigger] self.entries@[j].1),
                self.entries@.len() <= old_entries.len() <= self.max_concurrent,
                dropped + self.entries@.len() == old_entries.len(),
                forall|j: int| 0 <= j < i ==> !entry_expired(#[trigger] self.entries@[j].1, now, ttl),
                forall|k: u16| #[trigger] table_map(self.entries@).contains_key(k) ==> old_map.contains_key(k)
                    && table_map(self.entries@)[k] == old_map[k],
                forall|k: u16|
                    old_map.contains_key(k) && !entry_expired(old_map[k], now, ttl)
                        ==> #[trigger] table_map(self.entries@).contains_key(k),
            decreases self.entries@.len() - i,
        {
            let expired = {
                let e = &self.entries[i].1;
                let age = now.duration_since(e.last_update);
                age.nanos >= ttl.nanos && now.nanos >= e.last_update.nanos
            };
            if expired {
                let ghost before = self.entries@;
                proof {
                    lemma_table_remove(before, i as int);
                    crate::table::lemma_table_value(before, i as int);
                }
                let _ = self.entries.remove(i);
                dropped = dropped + 1;
                assert forall|j: int| 0 <= j < self.entries@.len() implies entry_wf(
                    #[trigger] self.entries@[j].1,
                ) by {
                    if j < i {
                        assert(self.entries@[j] == before[j]);
                    } else {
                        assert(self.entries@[j] == before[j + 1]);
                    }
                }
                assert forall|j: int| 0 <= j < i implies !entry_expired(
                    #[trigger] self.entries@[j].1,
                    now,
                    ttl,
                ) by {
                    assert(self.entries@[j] == before[j]);
                }
            } else {
                i = i + 1;
            }
        }
        proof {
            lemma_table_len(self.entries@);
            lemma_table_len(old_entries);
            let m = table_map(self.entries@);
            assert forall|k: u16| #[trigger] m.contains_key(k) implies !entry_expired(
                old_map[k],
                now,
                ttl,
            ) by {
                lemma_table_position(self.entries@, k);
            }
            assert(m =~= Map::new(
                |k: u16| old_map.contains_key(k) && !entry_expired(old_map[k], now, ttl),
                |k: u16| old_map[k],
            ));
        }
        dropped
    }
}

/// The index a split part announces.
pub open spec fn part_index_of(f: FrameView) -> int {
    f.split.unwrap().part_index as int
}

/// Some part among `frames` announces index `j`.
pub open spec fn index_arrives(frames: Seq<FrameView>, j: int) -> bool {
    exists|i: int| 0 <= i < frames.len() && part_index_of(frames[i]) == j
}

/// The payload of the part among `frames` that announces index `j`.
pub open spec fn payload_at_index(frames: Seq<FrameView>, j: int) -> Seq<u8> {
    frames[choose|i: int| 0 <= i < frames.len() && part_index_of(frames[i]) == j].payload
}

/// The payloads of the parts with indices below `j`, in index order.
pub open spec fn payloads_in_index_order(frames: Seq<FrameView>, j: nat) -> Seq<u8>
    decreases j,
{
    if j == 0 {
        Seq::empty()
    } else {
        payloads_in_index_order(frames, (j - 1) as nat) + payload_at_index(frames, j - 1)
    }
}

/// After the first `k` parts, the entry holds exactly their payloads at
/// their indices, and counts `k` parts.
proof fn lemma_parts_so_far(entries: Seq<SplitEntry>, frames: Seq<FrameView>, times: Seq<Instant>, k: int)
    requires
        frames.len() >= 1,
        entries.len() == frames.len() + 1,
        times.len() == frames.len(),
        fresh_entry_fields(entries[0], frames[0], times[0]),
        frames[0].split.unwrap().part_count == frames.len(),
        forall|i: int| 0 <= i < frames.len() ==> 0 <= #[trigger] part_index_of(frames[i]) < frames.len(),
        forall|i: int|
            0 <= i < k ==> entry_with_part(
                #[trigger] entries[i],
                entries[i + 1],
                part_index_of(frames[i]),
                frames[i].payload,
                times[i],
            ),
        0 <= k <= frames.len(),
    ensures
        entries[k].header == entries[0].header,
        entries[k].reliable_index == entries[0].reliable_index,
        entries[k].sequence_index == entries[0].sequence_index,
        entries[k].ordering_index == entries[0].ordering_index,
        entries[k].ordering_channel == entries[0].ordering_channel,
        entries[k].part_count == frames.len(),
        entries[k].parts@.len() == frames.len(),
        entries[k].received == k,
        forall|j: int|
            0 <= j < frames.len() ==> ((#[trigger] entries[k].parts@[j]) is Some <==> exists|i: int|
                0 <= i < k && part_index_of(frames[i]) == j),
        forall|i: int|
            0 <= i < k ==> (((#[trigger] entries[k].parts@[part_index_of(frames[i])]) matches Some(b)
                && bytes_contents(b) == frames[i].payload) || exists|i2: int|
                i < i2 < k && part_index_of(frames[i2]) == part_index_of(frames[i])),
    decreases k,
{
    if k > 0 {
        lemma_parts_so_far(entries, frames, times, k - 1);
        let prev = entries[k - 1];
        let cur = entries[k];
        assert(entry_with_part(prev, cur, part_index_of(frames[k - 1]), frames[k - 1].payload, times[k - 1]));
        assert forall|j: int| 0 <= j < frames.len() implies ((#[trigger] cur.parts@[j]) is Some <==> exists|i: int|
            0 <= i < k && part_index_of(frames[i]) == j) by {
            if j != part_index_of(frames[k - 1]) {
                assert(cur.parts@[j] == prev.parts@[j]);
                if exists|i: int| 0 <= i < k && part_index_of(frames[i]) == j {
                    let i = choose|i: int| 0 <= i < k && part_index_of(frames[i]) == j;
                    assert(i < k - 1);
                }
            } else {
                assert(part_index_of(frames[k - 1]) == j);
            }
        }
        assert forall|i: int| 0 <= i < k implies (((#[trigger] cur.parts@[part_index_of(frames[i])]) matches Some(b)
            && bytes_contents(b) == frames[i].payload) || exists|i2: int|
            i < i2 < k && part_index_of(frames[i2]) == part_index_of(frames[i])) by {
            if i < k - 1 && part_index_of(frames[i]) == part_index_of(frames[k - 1]) {
                assert(i < k - 1 < k && part_index_of(frames[k - 1]) == part_index_of(frames[i]));
            } else if i < k - 1 {
                assert(cur.parts@[part_index_of(frames[i])] == prev.parts@[part_index_of(frames[i])]);
            }
        }
    }
}

/// Joining parts that each hold the payload of their index gives the
/// payloads in index order.
proof fn lemma_join_by_index(parts: Seq<Option<bytes::Bytes>>, frames: Seq<FrameView>, m: int)
    requires
        0 <= m <= parts.len(),
        forall|j: int|
            0 <= j < parts.len() ==> ((#[trigger] parts[j]) matches Some(b) && bytes_contents(b)
                == payload_at_index(frames, j)),
    ensures
        joined_parts(parts.take(m)) == payloads_in_index_order(frames, m as nat),
    decreases m,
{
    if m > 0 {
        lemma_join_by_index(parts, frames, m - 1);
        assert(parts.take(m).drop_last() =~= parts.take(m - 1));
        assert(parts.take(m).last() == parts[m - 1]);
    }
}

/// Whatever order the parts of a compound arrive in, each index once, the
/// compound is complete when the last arrives and not before, and its
/// payload is the parts' payloads in index order. `entries` are the
/// compound's states: fresh before the first part (as `add` starts it), then
/// after each part (as `add` stores it).
pub proof fn lemma_parts_join_in_index_order(
    entries: Seq<SplitEntry>,
    frames: Seq<FrameView>,
    times: Seq<Instant>,
)
    requires
        frames.len() >= 1,
        entries.len() == frames.len() + 1,
        times.len() == frames.len(),
        fresh_entry_fields(entries[0], frames[0], times[0]),
        frames[0].split.unwrap().part_count == frames.len(),
        forall|i: int| 0 <= i < frames.len() ==> 0 <= #[trigger] part_index_of(frames[i]) < frames.len(),
        forall|i1: int, i2: int|
            0 <= i1 < i2 < frames.len() ==> part_index_of(#[trigger] frames[i1]) != part_index_of(
                #[trigger] frames[i2],
            ),
        forall|j: int| 0 <= j < frames.len() ==> #[trigger] index_arrives(frames, j),
        forall|i: int|
            0 <= i < frames.len() ==> entry_with_part(
                #[trigger] entries[i],
                entries[i + 1],
                part_index_of(frames[i]),
                frames[i].payload,
                times[i],
            ),
    ensures
        forall|k: int|
            1 <= k < frames.len() ==> (#[trigger] entries[k]).received < entries[k].part_count,
        entries[frames.len() as int].received == entries[frames.len() as int].part_count,
        joined_parts(entries[frames.len() as int].parts@) == payloads_in_index_order(
            frames,
            frames.len(),
        ),
{
    let n = frames.len() as int;
    assert forall|k: int| 1 <= k < n implies (#[trigger] entries[k]).received < entries[k].part_count by {
        lemma_parts_so_far(entries, frames, times, k);
    }
    lemma_parts_so_far(entries, frames, times, n);
    let parts = entries[n].parts@;
    assert forall|j: int| 0 <= j < parts.len() implies ((#[trigger] parts[j]) matches Some(b) && bytes_contents(
        b,
    ) == payload_at_index(frames, j)) by {
        assert(index_arrives(frames, j));
        let i = choose|i: int| 0 <= i < n && part_index_of(frames[i]) == j;
        let c = choose|i: int| 0 <= i < frames.len() && part_index_of(frames[i]) == j;
        assert(c == i) by {
            if c < i {
                assert(part_index_of(frames[c]) != part_index_of(frames[i]));
            } else if i < c {
                assert(part_index_of(frames[i]) != part_index_of(frames[c]));
            }
        }
        if exists|i2: int| i < i2 < n && part_index_of(frames[i2]) == part_index_of(frames[i]) {
            let i2 = choose|i2: int| i < i2 < n && part_index_of(frames[i2]) == part_index_of(frames[i]);
            assert(part_index_of(frames[i]) != part_index_of(frames[i2]));
        }
    }
    lemma_join_by_index(parts, frames, n);
    assert(parts.take(n) =~= parts);
}

/// The compound before and after the part that `add` stored, as its
/// outcome names them.
spec fn stored_entries(
    compounds: Map<u16, SplitEntry>,
    frame: FrameView,
    now: Instant,
    after: Map<u16, SplitEntry>,
    r: Result<Option<Frame>, DecodeError>,
) -> (SplitEntry, SplitEntry) {
    choose|e: SplitEntry, e2: SplitEntry| part_stored(compounds, frame, now, after, r, e, e2)
}

/// The compound's states over a run of `add` calls: before the first part,
/// then after each part.
#[verifier::opaque]
spec fn compound_states(
    states: Seq<SplitAssembler>,
    frames: Seq<FrameView>,
    times: Seq<Instant>,
    results: Seq<Result<Option<Frame>, DecodeError>>,
) -> Seq<SplitEntry> {
    Seq::new(
        frames.len() + 1,
        |k: int|
            if k == 0 {
                stored_entries(states[0].compounds(), frames[0], times[0], states[1].compounds(), results[0]).0
            } else {
                stored_entries(
                    states[k - 1].compounds(),
                    frames[k - 1],
                    times[k - 1],
                    states[k].compounds(),
                    results[k - 1],
                ).1
            },
    )
}

proof fn lemma_compound_states_len(
    states: Seq<SplitAssembler>,
    frames: Seq<FrameView>,
    times: Seq<Instant>,
    results: Seq<Result<Option<Frame>, DecodeError>>,
)
    ensures
        compound_states(states, frames, times, results).len() == frames.len() + 1,
{
    reveal(compound_states);
}

/// `states`, `frames`, `times` and `results` are a run of `add` calls with
/// the parts of one compound, each index once, that is not being collected
/// at the start and has room.
pub open spec fn one_compound_run(
    states: Seq<SplitAssembler>,
    frames: Seq<FrameView>,
    times: Seq<Instant>,
    results: Seq<Result<Option<Frame>, DecodeError>>,
) -> bool {
    let n = frames.len();
    let id = frames[0].split.unwrap().part_id;
    &&& n >= 1
    &&& states.len() == n + 1
    &&& times.len() == n
    &&& results.len() == n
    &&& forall|i: int|
        0 <= i < n ==> {
            &&& #[trigger] add_outcome(states[i], frames[i], times[i], states[i + 1], results[i])
            &&& states[i + 1].spec_max_parts() == states[i].spec_max_parts()
        }
    &&& forall|i: int|
        0 <= i < n ==> {
            &&& (#[trigger] frames[i]).header.is_split
            &&& frames[i].split is Some
            &&& frames[i].split.unwrap().part_id == id
            &&& frames[i].split.unwrap().part_count == n
            &&& part_index_of(frames[i]) < n
        }
    &&& forall|i1: int, i2: int|
        0 <= i1 < i2 < n ==> part_index_of(#[trigger] frames[i1]) != part_index_of(#[trigger] frames[i2])
    &&& forall|j: int| 0 <= j < n ==> #[trigger] index_arrives(frames, j)
    &&& n <= states[0].spec_max_parts()
    &&& !states[0].compounds().contains_key(id)
    &&& states[0].compounds().dom().len() < states[0].spec_max_concurrent()
}

/// After the first `k` calls of such a run: each stored its part, all but
/// the last answered nothing, and the compound is being collected (or, after
/// the last, joined and gone).
spec fn run_prefix_done(
    states: Seq<SplitAssembler>,
    frames: Seq<FrameView>,
    times: Seq<Instant>,
    results: Seq<Result<Option<Frame>, DecodeError>>,
    k: int,
) -> bool {
    let n = frames.len() as int;
    let id = frames[0].split.unwrap().part_id;
    let entries = compound_states(states, frames, times, results);
    &&& states[k].spec_max_parts() == states[0].spec_max_parts()
    &&& k >= 1 ==> fresh_entry_fields(entries[0], frames[0], times[0])
    &&& forall|i: int|
        0 <= i < k ==> #[trigger] entry_with_part(
            entries[i],
            entries[i + 1],
            part_index_of(frames[i]),
            frames[i].payload,
            times[i],
        )
    &&& forall|i: int|
        0 <= i < k && i < n - 1 ==> #[trigger] results[i] == Ok::<Option<Frame>, DecodeError>(None)
    &&& 1 <= k < n ==> states[k].compounds() == states[0].compounds().insert(id, entries[k])
    &&& k == n ==> {
        &&& results[n - 1] matches Ok(Some(f)) && f@ == assembled_frame(
            entries[n],
            joined_parts(entries[n].parts@),
        )
        &&& states[n].compounds() == states[0].compounds()
    }
}

/// A part that passes every check `add` makes, of a compound with room, not
/// yet in: `add` stored it, as the chosen entries name it.
proof fn lemma_part_was_stored(
    a: SplitAssembler,
    fr: FrameView,
    now: Instant,
    a2: SplitAssembler,
    r: Result<Option<Frame>, DecodeError>,
)
    requires
        add_outcome(a, fr, now, a2, r),
        fr.header.is_split,
        fr.split is Some,
        1 <= fr.split.unwrap().part_count <= a.spec_max_parts(),
        fr.split.unwrap().part_index < fr.split.unwrap().part_count,
        a.compounds().contains_key(fr.split.unwrap().part_id) || a.compounds().dom().len()
            < a.spec_max_concurrent(),
        a.compounds().contains_key(fr.split.unwrap().part_id) ==> {
            &&& a.compounds()[fr.split.unwrap().part_id].part_count == fr.split.unwrap().part_count
            &&& !(a.compounds()[fr.split.unwrap().part_id].parts@[fr.split.unwrap().part_index as int] is Some)
        },
    ensures
        ({
            let pair = stored_entries(a.compounds(), fr, now, a2.compounds(), r);
            part_stored(a.compounds(), fr, now, a2.compounds(), r, pair.0, pair.1)
        }),
{
    let c = a.compounds();
    reveal(add_outcome);
    assert(exists|e: SplitEntry, e2: SplitEntry| part_stored(c, fr, now, a2.compounds(), r, e, e2));
}

/// What a stored part gives: the part is in, the count is one more, and the
/// compound is kept (answering nothing) or joined and dropped.
proof fn lemma_part_stored_facts(
    compounds: Map<u16, SplitEntry>,
    frame: FrameView,
    now: Instant,
    after: Map<u16, SplitEntry>,
    r: Result<Option<Frame>, DecodeError>,
    e: SplitEntry,
    e2: SplitEntry,
)
    requires
        part_stored(compounds, frame, now, after, r, e, e2),
    ensures
        entry_with_part(e, e2, frame.split.unwrap().part_index as int, frame.payload, now),
        !compounds.contains_key(frame.split.unwrap().part_id) ==> fresh_entry_fields(e, frame, now),
        e2.received == e.received + 1,
        e2.part_count == e.part_count,
        e2.received < e2.part_count ==> r == Ok::<Option<Frame>, DecodeError>(None) && after
            == compounds.insert(frame.split.unwrap().part_id, e2),
        e2.received >= e2.part_count ==> {
            &&& r matches Ok(Some(f)) && f@ == assembled_frame(e2, joined_parts(e2.parts@))
            &&& after == compounds.remove(frame.split.unwrap().part_id)
        },
{
}

/// Call `i` of such a run, the first `i` done: it stored its part in the
/// compound as `compound_states` names it, which had `i` parts.
proof fn lemma_run_step(
    states: Seq<SplitAssembler>,
    frames: Seq<FrameView>,
    times: Seq<Instant>,
    results: Seq<Result<Option<Frame>, DecodeError>>,
    i: int,
)
    requires
        one_compound_run(states, frames, times, results),
        0 <= i < frames.len(),
        run_prefix_done(states, frames, times, results, i),
    ensures
        ({
            let n = frames.len() as int;
            let id = frames[0].split.unwrap().part_id;
            let entries = compound_states(states, frames, times, results);
            &&& i == 0 ==> fresh_entry_fields(entries[0], frames[0], times[0])
            &&& entry_with_part(entries[i], entries[i + 1], part_index_of(frames[i]), frames[i].payload, times[i])
            &&& entries[i + 1].received == i + 1
            &&& entries[i + 1].part_count == n
            &&& states[i + 1].spec_max_parts() == states[0].spec_max_parts()
            &&& i + 1 < n ==> results[i] == Ok::<Option<Frame>, DecodeError>(None)
                && states[i + 1].compounds() == states[i].compounds().insert(id, entries[i + 1])
            &&& i + 1 == n ==> {
                &&& results[i] matches Ok(Some(f)) && f@ == assembled_frame(
                    entries[n],
                    joined_parts(entries[n].parts@),
                )
                &&& states[i + 1].compounds() == states[i].compounds().remove(id)
            }
        }),
{
    let n = frames.len() as int;
    let id = frames[0].split.unwrap().part_id;
    let entries = compound_states(states, frames, times, results);
    lemma_compound_states_len(states, frames, times, results);
    let c = states[i].compounds();
    let fr = frames[i];
    let sp = fr.split.unwrap();
    assert(add_outcome(states[i], frames[i], times[i], states[i + 1], results[i]));
    assert(states[i + 1].spec_max_parts() == states[i].spec_max_parts());
    assert(fr.header.is_split && fr.split is Some && sp.part_id == id && sp.part_count == n);
    assert(part_index_of(fr) < n);
    if i > 0 {
        assert(fresh_entry_fields(entries[0], frames[0], times[0]));
        assert forall|i0: int| 0 <= i0 < frames.len() implies 0 <= #[trigger] part_index_of(frames[i0])
            < frames.len() by {
            assert(part_index_of(frames[i0]) < n);
        }
        lemma_parts_so_far(entries, frames, times, i);
        assert(c[id] == entries[i]);
        assert(!(entries[i].parts@[sp.part_index as int] is Some)) by {
            if entries[i].parts@[sp.part_index as int] is Some {
                let i0 = choose|i0: int| 0 <= i0 < i && part_index_of(frames[i0]) == sp.part_index;
                assert(part_index_of(frames[i0]) != part_index_of(frames[i]));
            }
        }
    }
    let after = states[i + 1].compounds();
    lemma_part_was_stored(states[i], fr, times[i], states[i + 1], results[i]);
    let pair = stored_entries(c, fr, times[i], after, results[i]);
    assert(entries[i + 1] == pair.1) by {
        reveal(compound_states);
    }
    if i == 0 {
        assert(entries[0] == pair.0) by {
            reveal(compound_states);
        }
    } else {
        assert(pair.0 == entries[i]);
    }
    lemma_part_stored_facts(c, fr, times[i], after, results[i], entries[i], entries[i + 1]);
}

proof fn lemma_run_prefix(
    states: Seq<SplitAssembler>,
    frames: Seq<FrameView>,
    times: Seq<Instant>,
    results: Seq<Result<Option<Frame>, DecodeError>>,
    k: int,
)
    requires
        one_compound_run(states, frames, times, results),
        0 <= k <= frames.len(),
    ensures
        run_prefix_done(states, frames, times, results, k),
    decreases k,
{
    if k == 0 {
        return;
    }
    let n = frames.len() as int;
    let id = frames[0].split.unwrap().part_id;
    let entries = compound_states(states, frames, times, results);
    let c0 = states[0].compounds();
    let i = k - 1;
    lemma_run_prefix(states, frames, times, results, i);
    lemma_run_step(states, frames, times, results, i);
    let c = states[i].compounds();
    let after = states[k].compounds();
    if k < n {
        assert(after == c.insert(id, entries[k]));
        assert(after =~= c0.insert(id, entries[k]));
    } else {
        assert(after == c.remove(id));
        if i > 0 {
            assert(c == c0.insert(id, entries[i]));
        }
        assert(after =~= c0);
    }
}

/// Whatever order the parts of a compound arrive in, each index once, with
/// room for the compound and no prune between: every `add` but the last
/// answers `Ok(None)`, the last answers the joined frame (the parts'
/// payloads in index order, no split header, the first part's reliability,
/// indices and flag, and the payload's length in bits), and the compound is
/// gone afterwards, the others as they were.
pub proof fn lemma_add_every_part(
    states: Seq<SplitAssembler>,
    frames: Seq<FrameView>,
    times: Seq<Instant>,
    results: Seq<Result<Option<Frame>, DecodeError>>,
)
    requires
        one_compound_run(states, frames, times, results),
    ensures
        forall|i: int|
            0 <= i < frames.len() - 1 ==> #[trigger] results[i] == Ok::<Option<Frame>, DecodeError>(None),
        results[frames.len() - 1] matches Ok(Some(f)) && {
            let payload = payloads_in_index_order(frames, frames.len());
            &&& f@.payload == payload
            &&& f@.header == FrameHeader {
                reliability: frames[0].header.reliability,
                is_split: false,
                needs_bas: frames[0].header.needs_bas,
            }
            &&& f@.split is None
            &&& f@.bit_length == ((payload.len() as u16) << 3u16) as u16
            &&& f@.reliable_index == frames[0].reliable_index
            &&& f@.sequence_index == frames[0].sequence_index
            &&& f@.ordering_index == frames[0].ordering_index
            &&& f@.ordering_channel == frames[0].ordering_channel
        },
        states[frames.len() as int].compounds() == states[0].compounds(),
{
    let n = frames.len() as int;
    let entries = compound_states(states, frames, times, results);
    lemma_compound_states_len(states, frames, times, results);
    lemma_run_prefix(states, frames, times, results, n);
    assert forall|i0: int| 0 <= i0 < frames.len() implies 0 <= #[trigger] part_index_of(frames[i0])
        < frames.len() by {
        assert(part_index_of(frames[i0]) < n);
    }
    assert(frames[0].split.unwrap().part_count == n);
    lemma_parts_so_far(entries, frames, times, n);
    lemma_parts_join_in_index_order(entries, frames, times);
}

/// With a nonzero time to live, pruning drops a compound exactly when its
/// last part arrived at least the time to live before now: one that arrived
/// exactly that long ago is dropped, one that arrived more recently (or
/// after now) is kept.
pub proof fn lemma_prune_by_age(e: SplitEntry, now: Instant, ttl: Duration)
    requires
        ttl.nanos > 0,
    ensures
        entry_expired(e, now, ttl) <==> now.nanos >= e.last_update.nanos + ttl.nanos,
{
}

} // verus!
