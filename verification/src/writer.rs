//! The single-writer end of the ring protocol.
//!
//! [`RawWriter`] owns the `entry_seq` protocol, ring index bookkeeping and
//! writer-restart recovery. It works on a segment someone else mapped: naming,
//! creation and the exclusive writer role are all above this layer.
//!
//! Each operation is a short program of loads and stores. Its decisions are
//! taken here, by [`SlotClaim`] and [`Publication`], and the same decisions
//! drive both a plain [`Segment`] and memory shared with other processes.

use vstd::prelude::*;
use vstd::string::StringExecFns;

use crate::error::ZeroChannelError;
use crate::metadata::{
    lemma_addressable, lemma_slot_bounds, payload_offset, segment_bytes, Header, OFF_LAST_ENTRY_SEQ,
    OFF_WRITE_INDEX,
};
use crate::ring::{
    lemma_put_header, lemma_put_payload, lemma_put_seq, lemma_slot_fits, payloads, put_payload,
    put_seq, ring_fits, seq_cell, seqs, store_seq,
};
use crate::segment::{put_word, word_at, Segment};
use crate::text::{decimal, push_decimal};
use crate::zerocopy::WriteHandle;

verus! {

/// The sequence number behind a control word, held or not.
pub open spec fn magnitude(raw: i64) -> u64 {
    if raw < 0 {
        (-raw) as u64
    } else {
        raw as u64
    }
}

/// The sequence number behind a control word, held or not.
fn unsigned_magnitude(raw: i64) -> (seq: u64)
    ensures
        seq == magnitude(raw),
{
    if raw < 0 {
        (-(raw + 1)) as u64 + 1
    } else {
        raw as u64
    }
}

/// `newest` is the larger of the header watermark and every sequence number in
/// the ring.
pub open spec fn is_newest(words: Seq<i64>, header_last: u64, newest: u64) -> bool {
    &&& header_last <= newest
    &&& forall|i: int| 0 <= i < words.len() ==> magnitude(#[trigger] words[i]) <= newest
    &&& newest == header_last || exists|i: int|
        0 <= i < words.len() && magnitude(#[trigger] words[i]) == newest
}

/// Where a restarted writer resumes: past the slot the header points at when
/// that slot already holds the newest entry, at it otherwise.
pub open spec fn resume_at(at: i64, write_index: int, entry_count: int, newest: u64) -> int {
    if magnitude(at) != 0 && magnitude(at) == newest {
        (write_index % entry_count + 1) % entry_count
    } else {
        write_index % entry_count
    }
}

/// Recover the writer's resume state from an existing ring.
///
/// The header watermark is authoritative, but a writer can die between
/// committing a slot and persisting the header, so the ring itself counts as
/// well and the larger of the two wins.
///
/// A crash between committing `entry_seq` and persisting the write index also
/// leaves the header index pointing *at* the last committed slot instead of
/// past it. That shows in the word found there, `at`.
///
/// Returns the high watermark and the corrected write index.
pub fn recover_state(
    words: &[i64],
    at: i64,
    header_write_index: usize,
    header_last_entry_seq: u64,
) -> (state: (u64, usize))
    requires
        words@.len() > 0,
    ensures
        is_newest(words@, header_last_entry_seq, state.0),
        state.1 == resume_at(at, header_write_index as int, words@.len() as int, state.0),
{
    let entry_count: usize = words.len();
    let mut max_seq: u64 = header_last_entry_seq;
    let mut i: usize = 0;
    while i < entry_count
        invariant
            i <= entry_count,
            entry_count == words@.len(),
            is_newest(words@.take(i as int), header_last_entry_seq, max_seq),
        decreases entry_count - i,
    {
        let ghost before = words@.take(i as int);
        let ghost after = words@.take(i + 1);
        let seq: u64 = unsigned_magnitude(words[i]);
        assert(after[i as int] == words@[i as int]);
        assert(forall|k: int| 0 <= k < i ==> after[k] == before[k]);
        if seq > max_seq {
            max_seq = seq;
        } else if max_seq != header_last_entry_seq {
            proof {
                let k = choose|k: int|
                    0 <= k < before.len() && magnitude(#[trigger] before[k]) == max_seq;
                assert(magnitude(after[k]) == max_seq);
            }
        }
        i += 1;
    }
    assert(words@.take(entry_count as int) =~= words@);

    let write_index: usize = header_write_index % entry_count;
    let at_index: u64 = unsigned_magnitude(at);
    // The slot the header points at already holds the newest entry: the
    // previous writer committed but never advanced the index.
    let corrected_index: usize = if at_index != 0 && at_index == max_seq {
        (write_index + 1) % entry_count
    } else {
        write_index
    };
    (max_seq, corrected_index)
}

/// The slot reached `step` slots after `start`, going round the ring.
pub open spec fn ring_index(start: int, step: int, entry_count: int) -> int {
    (start + step) % entry_count
}

/// The first slot not held by a reader, going round the ring from `start` and
/// leaving out the first `tried` slots.
pub open spec fn free_slot(words: Seq<i64>, start: int, tried: int) -> Option<int>
    decreases words.len() - tried,
{
    if tried >= words.len() {
        None
    } else {
        let idx = ring_index(start, tried, words.len() as int);
        if words[idx] >= 0 {
            Some(idx)
        } else {
            free_slot(words, start, tried + 1)
        }
    }
}

/// Every slot is held by a reader.
pub open spec fn all_held(words: Seq<i64>) -> bool {
    forall|i: int| 0 <= i < words.len() ==> #[trigger] words[i] < 0
}

/// What the claim finds: a slot that is not held, with every slot before it
/// held; or nothing, when the remaining slots are all held.
pub proof fn lemma_free_slot(words: Seq<i64>, start: int, tried: int)
    requires
        0 < words.len(),
        0 <= start,
        0 <= tried <= words.len(),
    ensures
        match free_slot(words, start, tried) {
            Some(idx) => {
                &&& 0 <= idx < words.len()
                &&& words[idx] >= 0
                &&& exists|k: int|
                    tried <= k < words.len() && #[trigger] ring_index(
                        start,
                        k,
                        words.len() as int,
                    ) == idx && forall|j: int|
                        tried <= j < k ==> words[#[trigger] ring_index(
                            start,
                            j,
                            words.len() as int,
                        )] < 0
            },
            None => forall|j: int|
                tried <= j < words.len() ==> words[#[trigger] ring_index(
                    start,
                    j,
                    words.len() as int,
                )] < 0,
        },
    decreases words.len() - tried,
{
    let n = words.len() as int;
    if tried < n {
        let idx = ring_index(start, tried, n);
        assert(0 <= idx < n);
        if words[idx] < 0 {
            lemma_free_slot(words, start, tried + 1);
            match free_slot(words, start, tried + 1) {
                Some(found) => {
                    let k = choose|k: int|
                        tried + 1 <= k < n && #[trigger] ring_index(start, k, n) == found && forall|
                            j: int,
                        |
                            tried + 1 <= j < k ==> words[#[trigger] ring_index(start, j, n)] < 0;
                    assert forall|j: int| tried <= j < k implies words[#[trigger] ring_index(
                        start,
                        j,
                        n,
                    )] < 0 by {
                        if j == tried {
                            assert(words[idx] < 0);
                        }
                    }
                },
                None => {},
            }
        } else {
            assert(ring_index(start, tried, n) == idx);
        }
    }
}

/// Going round the ring reaches every slot.
pub proof fn lemma_ring_covers(start: int, entry_count: int, idx: int) -> (step: int)
    requires
        0 <= start < entry_count,
        0 <= idx < entry_count,
    ensures
        0 <= step < entry_count,
        ring_index(start, step, entry_count) == idx,
{
    if idx >= start {
        assert(idx % entry_count == idx) by (nonlinear_arith)
            requires
                0 <= idx < entry_count,
        ;
        idx - start
    } else {
        assert((idx + entry_count) % entry_count == idx) by (nonlinear_arith)
            requires
                0 <= idx < entry_count,
        ;
        idx + entry_count - start
    }
}

/// A claim fails exactly when every slot is held.
pub proof fn lemma_claim_fails(words: Seq<i64>, start: int)
    requires
        0 <= start < words.len(),
    ensures
        free_slot(words, start, 0) is None <==> all_held(words),
{
    let n = words.len() as int;
    lemma_free_slot(words, start, 0);
    if free_slot(words, start, 0) is None {
        assert forall|i: int| 0 <= i < n implies #[trigger] words[i] < 0 by {
            let k = lemma_ring_covers(start, n, i);
            assert(words[ring_index(start, k, n)] < 0);
        }
    }
}

/// Text of the error for a ring with no slot to spare.
pub open spec fn busy_text(entry_count: nat) -> Seq<char> {
    "all "@ + decimal(entry_count) + " ring slots are held by a reader"@
}

/// The search for a slot to write: which control word to load next, and
/// whether to take the slot it belongs to.
#[derive(Debug)]
pub struct SlotClaim {
    start: usize,
    entry_count: usize,
    tried: usize,
}

impl SlotClaim {
    /// The slot the search began at.
    pub closed spec fn start(&self) -> int {
        self.start as int
    }

    /// Number of slots in the ring.
    pub closed spec fn count(&self) -> int {
        self.entry_count as int
    }

    /// Number of slots found held so far.
    pub closed spec fn tried(&self) -> int {
        self.tried as int
    }

    /// The search is within its ring.
    pub open spec fn wf(&self) -> bool {
        &&& 0 <= self.start() < self.count()
        &&& 0 <= self.tried() <= self.count()
        &&& 2 * self.count() <= usize::MAX
    }

    /// The slot whose control word must be looked at next, or `None` when every
    /// slot has been found held.
    pub fn probe(&self) -> (index: Option<usize>)
        requires
            self.wf(),
        ensures
            index is None <==> self.tried() == self.count(),
            index matches Some(i) ==> i == ring_index(self.start(), self.tried(), self.count())
                && i < self.count(),
    {
        if self.tried < self.entry_count {
            Some((self.start + self.tried) % self.entry_count)
        } else {
            None
        }
    }

    /// Take in the control word of the probed slot, and say whether the slot is
    /// to be claimed by setting its control word to zero.
    ///
    /// A negative control word means a reader holds a zero-copy handle on the
    /// slot; it is skipped rather than corrupting the view it is reading.
    pub fn observe(&mut self, raw: i64) -> (take: bool)
        requires
            old(self).wf(),
            old(self).tried() < old(self).count(),
        ensures
            final(self).wf(),
            take <==> raw >= 0,
            final(self).start() == old(self).start(),
            final(self).count() == old(self).count(),
            final(self).tried() == if take {
                old(self).tried()
            } else {
                old(self).tried() + 1
            },
    {
        if raw < 0 {
            self.tried = self.tried + 1;
            return false;
        }
        true
    }

    /// The error for a search that found every slot held.
    pub fn busy(&self) -> (e: ZeroChannelError)
        ensures
            e is Busy,
            e.text() == busy_text(self.count() as nat),
    {
        let mut msg = String::from_str("all ");
        push_decimal(&mut msg, self.entry_count as u64);
        msg.append(" ring slots are held by a reader");
        ZeroChannelError::Busy(msg)
    }
}

/// The stores that make a filled slot visible, in the order they must be made.
///
/// The payload must be visible before the control word, and the control word
/// before the watermark, so a reader never sees a promise it cannot fulfil.
#[derive(Debug, Clone, Copy)]
pub struct Publication {
    /// The slot to publish.
    pub index: usize,
    /// Its new control word, stored first.
    pub raw: i64,
    /// The header's new write index, stored second.
    pub write_index: u64,
    /// The header's new watermark, stored last.
    pub entry_seq: u64,
}

/// `s` after slot `index` has been published as entry `seq`.
pub open spec fn published(
    s: Seq<u8>,
    payload_bytes: int,
    entry_count: int,
    index: int,
    seq: u64,
) -> Seq<u8> {
    put_word(
        put_word(
            put_seq(s, payload_bytes, index, seq as i64),
            OFF_WRITE_INDEX as int,
            ((index + 1) % entry_count) as u64,
        ),
        OFF_LAST_ENTRY_SEQ as int,
        seq,
    )
}

/// `s` after `data` has been written to slot `index` as entry `seq`.
pub open spec fn written(
    s: Seq<u8>,
    payload_bytes: int,
    entry_count: int,
    index: int,
    data: Seq<u8>,
    seq: u64,
) -> Seq<u8> {
    published(
        put_payload(put_seq(s, payload_bytes, index, 0), payload_bytes, index, data),
        payload_bytes,
        entry_count,
        index,
        seq,
    )
}

/// Publishing changes one control word, the write index and the watermark.
pub proof fn lemma_published(
    s: Seq<u8>,
    payload_bytes: int,
    entry_count: int,
    index: int,
    seq: u64,
)
    requires
        ring_fits(s, payload_bytes, entry_count),
        0 <= index < entry_count,
    ensures
        ({
            let t = published(s, payload_bytes, entry_count, index, seq);
            &&& t.len() == s.len()
            &&& seqs(t, payload_bytes, entry_count) == seqs(s, payload_bytes, entry_count).update(
                index,
                seq as i64,
            )
            &&& payloads(t, payload_bytes, entry_count) == payloads(s, payload_bytes, entry_count)
            &&& word_at(t, OFF_WRITE_INDEX as int) == ((index + 1) % entry_count) as u64
            &&& word_at(t, OFF_LAST_ENTRY_SEQ as int) == seq
            &&& forall|off: int|
                0 <= off && off + 8 <= OFF_WRITE_INDEX ==> #[trigger] word_at(t, off) == word_at(
                    s,
                    off,
                )
        }),
{
    let s1 = put_seq(s, payload_bytes, index, seq as i64);
    lemma_put_seq(s, payload_bytes, entry_count, index, seq as i64);
    let wi = ((index + 1) % entry_count) as u64;
    let s2 = put_word(s1, OFF_WRITE_INDEX as int, wi);
    lemma_put_header(s1, payload_bytes, entry_count, OFF_WRITE_INDEX as int, wi);
    lemma_put_header(s2, payload_bytes, entry_count, OFF_LAST_ENTRY_SEQ as int, seq);
}

/// Writing changes one slot, the write index and the watermark.
pub proof fn lemma_written(
    s: Seq<u8>,
    payload_bytes: int,
    entry_count: int,
    index: int,
    data: Seq<u8>,
    seq: u64,
)
    requires
        ring_fits(s, payload_bytes, entry_count),
        0 <= index < entry_count,
        data.len() == payload_bytes,
    ensures
        ({
            let t = written(s, payload_bytes, entry_count, index, data, seq);
            &&& t.len() == s.len()
            &&& seqs(t, payload_bytes, entry_count) == seqs(s, payload_bytes, entry_count).update(
                index,
                seq as i64,
            )
            &&& payloads(t, payload_bytes, entry_count) == payloads(
                s,
                payload_bytes,
                entry_count,
            ).update(index, data)
            &&& word_at(t, OFF_WRITE_INDEX as int) == ((index + 1) % entry_count) as u64
            &&& word_at(t, OFF_LAST_ENTRY_SEQ as int) == seq
            &&& forall|off: int|
                0 <= off && off + 8 <= OFF_WRITE_INDEX ==> #[trigger] word_at(t, off) == word_at(
                    s,
                    off,
                )
        }),
{
    let s1 = put_seq(s, payload_bytes, index, 0);
    lemma_put_seq(s, payload_bytes, entry_count, index, 0);
    let s2 = put_payload(s1, payload_bytes, index, data);
    lemma_put_payload(s1, payload_bytes, entry_count, index, data);
    lemma_published(s2, payload_bytes, entry_count, index, seq);
    assert(seqs(s, payload_bytes, entry_count).update(index, 0).update(index, seq as i64)
        =~= seqs(s, payload_bytes, entry_count).update(index, seq as i64));
}

/// What a writer knows about its ring.
pub struct WriterState {
    /// Payload bytes per entry.
    pub payload_bytes: int,
    /// Number of ring slots.
    pub entry_count: int,
    /// The slot the next write starts looking at.
    pub current_index: int,
    /// Sequence number of the most recently committed entry.
    pub last_entry_seq: u64,
}

impl WriterState {
    /// The writer is within its ring, and its ring is addressable.
    pub open spec fn wf(self) -> bool {
        &&& 0 <= self.payload_bytes
        &&& 0 <= self.current_index < self.entry_count
        &&& segment_bytes(self.payload_bytes, self.entry_count) <= usize::MAX
    }

    /// The writer can work on a segment of bytes `s`.
    pub open spec fn fits(self, s: Seq<u8>) -> bool {
        self.wf() && ring_fits(s, self.payload_bytes, self.entry_count)
    }

    /// The control words of the writer's ring.
    pub open spec fn words(self, s: Seq<u8>) -> Seq<i64> {
        seqs(s, self.payload_bytes, self.entry_count)
    }

    /// The slot the next write will claim, if any is free.
    pub open spec fn target(self, s: Seq<u8>) -> Option<int> {
        free_slot(self.words(s), self.current_index, 0)
    }

    /// The writer after publishing slot `index`.
    pub open spec fn after(self, index: int) -> WriterState {
        WriterState {
            current_index: (index + 1) % self.entry_count,
            last_entry_seq: (self.last_entry_seq + 1) as u64,
            ..self
        }
    }
}

/// `state` is what a writer recovers from a ring described by `header` whose
/// control words read `words`, the one at the header's write index having been
/// read as `at`.
pub open spec fn resumes(header: Header, words: Seq<i64>, at: i64, state: WriterState) -> bool {
    &&& state.payload_bytes == header.payload_bytes
    &&& state.entry_count == header.entry_count
    &&& is_newest(words, header.last_entry_seq, state.last_entry_seq)
    &&& state.current_index == resume_at(
        at,
        header.write_index as int,
        header.entry_count as int,
        state.last_entry_seq,
    )
}

/// `state` is what a writer recovers from a segment of bytes `s` described by
/// `header`.
pub open spec fn attaches(header: Header, s: Seq<u8>, state: WriterState) -> bool {
    &&& state.fits(s)
    &&& resumes(
        header,
        state.words(s),
        state.words(s)[header.write_index as int % header.entry_count as int],
        state,
    )
}

/// Text of the error for data of the wrong length.
pub open spec fn wrong_length_text(expected: nat, got: nat) -> Seq<char> {
    "expected "@ + decimal(expected) + " payload bytes, got "@ + decimal(got)
}

/// Single-writer end of a ring buffer, operating on raw bytes.
#[derive(Debug)]
pub struct RawWriter {
    payload_bytes: usize,
    entry_count: usize,
    current_index: usize,
    last_entry_seq: u64,
}

impl View for RawWriter {
    type V = WriterState;

    closed spec fn view(&self) -> WriterState {
        WriterState {
            payload_bytes: self.payload_bytes as int,
            entry_count: self.entry_count as int,
            current_index: self.current_index as int,
            last_entry_seq: self.last_entry_seq,
        }
    }
}

impl RawWriter {
    /// Bind a writer to a ring described by `header` whose control words read
    /// `words`, the one at the header's write index having been read as `at`.
    ///
    /// Resume state is recovered from the ring, so a writer that replaces a
    /// crashed predecessor picks up its sequence numbering rather than
    /// restarting it.
    pub fn resume(header: &Header, words: &[i64], at: i64) -> (writer: Self)
        requires
            words@.len() == header.entry_count,
            0 < header.entry_count,
            segment_bytes(header.payload_bytes as int, header.entry_count as int) <= usize::MAX,
        ensures
            writer@.wf(),
            resumes(*header, words@, at, writer@),
    {
        let (last_entry_seq, current_index) = recover_state(
            words,
            at,
            header.write_index,
            header.last_entry_seq,
        );
        RawWriter {
            payload_bytes: header.payload_bytes,
            entry_count: header.entry_count,
            current_index,
            last_entry_seq,
        }
    }

    /// Bind a writer to a segment described by `header`.
    pub fn attach(seg: &Segment, header: &Header) -> (writer: Self)
        requires
            ring_fits(seg@, header.payload_bytes as int, header.entry_count as int),
        ensures
            attaches(*header, seg@, writer@),
    {
        let n: usize = header.entry_count;
        let len: usize = seg.len();
        let mut words: Vec<i64> = Vec::new();
        let mut i: usize = 0;
        while i < n
            invariant
                i <= n,
                n == header.entry_count,
                ring_fits(seg@, header.payload_bytes as int, n as int),
                words@ == seqs(seg@, header.payload_bytes as int, n as int).take(i as int),
            decreases n - i,
        {
            proof {
                lemma_slot_fits(seg@, header.payload_bytes as int, n as int, i as int);
            }
            words.push(seq_cell(seg, header.payload_bytes, i));
            i += 1;
            assert(words@ =~= seqs(seg@, header.payload_bytes as int, n as int).take(i as int));
        }
        assert(words@ =~= seqs(seg@, header.payload_bytes as int, n as int));
        let at: i64 = words[header.write_index % n];
        RawWriter::resume(header, words.as_slice(), at)
    }

    /// Payload bytes per entry.
    pub fn payload_bytes(&self) -> (n: usize)
        ensures
            n == self@.payload_bytes,
    {
        self.payload_bytes
    }

    /// Number of ring slots.
    pub fn entry_count(&self) -> (n: usize)
        ensures
            n == self@.entry_count,
    {
        self.entry_count
    }

    /// Sequence number of the most recently committed entry (0 if none).
    ///
    /// This is the writer's high watermark, mirrored in the segment header.
    pub fn last_entry_seq(&self) -> (seq: u64)
        ensures
            seq == self@.last_entry_seq,
    {
        self.last_entry_seq
    }

    /// Begin the search for the next slot that is not held by a reader.
    pub fn begin_claim(&self) -> (claim: SlotClaim)
        requires
            self@.wf(),
        ensures
            claim.wf(),
            claim.start() == self@.current_index,
            claim.count() == self@.entry_count,
            claim.tried() == 0,
    {
        proof {
            lemma_addressable(self@.payload_bytes, self@.entry_count);
        }
        SlotClaim { start: self.current_index, entry_count: self.entry_count, tried: 0 }
    }

    /// Claim the next slot that is not held by a reader and mark it
    /// in-progress (`entry_seq = 0`).
    pub fn claim_slot(&self, seg: &mut Segment) -> (r: Result<usize, ZeroChannelError>)
        requires
            self@.fits(old(seg)@),
        ensures
            match r {
                Ok(index) => {
                    &&& self@.target(old(seg)@) == Some(index as int)
                    &&& index < self@.entry_count
                    &&& final(seg)@ == put_seq(old(seg)@, self@.payload_bytes, index as int, 0)
                },
                Err(e) => {
                    &&& all_held(self@.words(old(seg)@))
                    &&& e is Busy
                    &&& e.text() == busy_text(self@.entry_count as nat)
                    &&& final(seg)@ == old(seg)@
                },
            },
    {
        let mut claim = self.begin_claim();
        loop
            invariant
                self@.fits(old(seg)@),
                seg@ == old(seg)@,
                claim.wf(),
                claim.start() == self@.current_index,
                claim.count() == self@.entry_count,
                self@.target(old(seg)@) == free_slot(
                    self@.words(old(seg)@),
                    self@.current_index,
                    claim.tried(),
                ),
            decreases claim.count() - claim.tried(),
        {
            match claim.probe() {
                Some(index) => {
                    proof {
                        lemma_slot_fits(
                            seg@,
                            self@.payload_bytes,
                            self@.entry_count,
                            index as int,
                        );
                    }
                    let raw: i64 = seq_cell(seg, self.payload_bytes, index);
                    assert(raw == self@.words(seg@)[index as int]);
                    if claim.observe(raw) {
                        store_seq(seg, self.payload_bytes, index, 0);
                        return Ok(index);
                    }
                },
                None => {
                    proof {
                        lemma_claim_fails(self@.words(seg@), self@.current_index);
                    }
                    return Err(claim.busy());
                },
            }
        }
    }

    /// Assign the next sequence number to slot `index` and advance the ring.
    ///
    /// The result says which stores make the slot visible.
    pub fn begin_publish(&mut self, index: usize) -> (plan: Publication)
        requires
            old(self)@.wf(),
            index < old(self)@.entry_count,
            old(self)@.last_entry_seq < u64::MAX,
        ensures
            final(self)@ == old(self)@.after(index as int),
            final(self)@.wf(),
            plan.index == index,
            plan.entry_seq == old(self)@.last_entry_seq + 1,
            plan.raw == plan.entry_seq as i64,
            plan.write_index == (index + 1) % old(self)@.entry_count,
    {
        let seq: u64 = self.last_entry_seq + 1;
        self.last_entry_seq = seq;
        self.current_index = (index + 1) % self.entry_count;
        Publication {
            index,
            raw: seq as i64,
            write_index: self.current_index as u64,
            entry_seq: seq,
        }
    }

    /// Publish slot `index` under the next sequence number and advance the
    /// ring.
    pub fn publish(&mut self, seg: &mut Segment, index: usize) -> (seq: u64)
        requires
            old(self)@.fits(old(seg)@),
            index < old(self)@.entry_count,
            old(self)@.last_entry_seq < u64::MAX,
        ensures
            seq == old(self)@.last_entry_seq + 1,
            final(self)@ == old(self)@.after(index as int),
            final(self)@.fits(final(seg)@),
            final(seg)@ == published(
                old(seg)@,
                old(self)@.payload_bytes,
                old(self)@.entry_count,
                index as int,
                seq,
            ),
    {
        proof {
            lemma_slot_fits(seg@, self@.payload_bytes, self@.entry_count, index as int);
            lemma_slot_bounds(self@.payload_bytes, self@.entry_count, index as int);
            lemma_published(
                seg@,
                self@.payload_bytes,
                self@.entry_count,
                index as int,
                (self@.last_entry_seq + 1) as u64,
            );
        }
        let plan = self.begin_publish(index);
        store_seq(seg, self.payload_bytes, plan.index, plan.raw);
        seg.store(OFF_WRITE_INDEX, plan.write_index);
        seg.store(OFF_LAST_ENTRY_SEQ, plan.entry_seq);
        plan.entry_seq
    }

    /// Reject data that does not fill an entry exactly.
    pub fn check_length(&self, len: usize) -> (r: Result<(), ZeroChannelError>)
        ensures
            r is Ok <==> len == self@.payload_bytes,
            r matches Err(e) ==> e is InvalidArgument && e.text() == wrong_length_text(
                self@.payload_bytes as nat,
                len as nat,
            ),
    {
        if len != self.payload_bytes {
            let mut msg = String::from_str("expected ");
            push_decimal(&mut msg, self.payload_bytes as u64);
            msg.append(" payload bytes, got ");
            push_decimal(&mut msg, len as u64);
            return Err(ZeroChannelError::InvalidArgument(msg));
        }
        Ok(())
    }

    /// Write one entry to the ring buffer (one-copy path).
    pub fn write(&mut self, seg: &mut Segment, data: &[u8]) -> (r: Result<(), ZeroChannelError>)
        requires
            old(self)@.fits(old(seg)@),
            old(self)@.last_entry_seq < u64::MAX || data@.len() != old(self)@.payload_bytes
                || all_held(old(self)@.words(old(seg)@)),
        ensures
            final(self)@.fits(final(seg)@),
            match r {
                Ok(()) => {
                    &&& data@.len() == old(self)@.payload_bytes
                    &&& old(self)@.target(old(seg)@) matches Some(index)
                    &&& final(self)@ == old(self)@.after(index)
                    &&& final(seg)@ == written(
                        old(seg)@,
                        old(self)@.payload_bytes,
                        old(self)@.entry_count,
                        index,
                        data@,
                        final(self)@.last_entry_seq,
                    )
                },
                Err(e) => {
                    &&& final(self)@ == old(self)@
                    &&& final(seg)@ == old(seg)@
                    &&& if data@.len() != old(self)@.payload_bytes {
                        e is InvalidArgument && e.text() == wrong_length_text(
                            old(self)@.payload_bytes as nat,
                            data@.len(),
                        )
                    } else {
                        all_held(old(self)@.words(old(seg)@)) && e is Busy && e.text()
                            == busy_text(old(self)@.entry_count as nat)
                    }
                },
            },
    {
        match self.check_length(data.len()) {
            Ok(()) => {},
            Err(e) => {
                return Err(e);
            },
        }
        proof {
            lemma_claim_fails(self@.words(seg@), self@.current_index);
        }
        match self.claim_slot(seg) {
            Ok(index) => {
                proof {
                    lemma_slot_bounds(self@.payload_bytes, self@.entry_count, index as int);
                }
                let len: usize = seg.len();
                seg.copy_in(payload_offset(self.payload_bytes, index), data);
                self.publish(seg, index);
                Ok(())
            },
            Err(e) => Err(e),
        }
    }

    /// A handle on slot `index` of this ring.
    pub fn handle(&self, index: usize) -> (handle: WriteHandle)
        requires
            self@.wf(),
            index < self@.entry_count,
        ensures
            handle.refers_to(self@.payload_bytes, index as int),
    {
        proof {
            lemma_slot_bounds(self@.payload_bytes, self@.entry_count, index as int);
        }
        WriteHandle::new(
            index,
            payload_offset(self.payload_bytes, index),
            self.payload_bytes,
        )
    }

    /// Acquire the next ring slot for in-place construction (zero-copy path).
    ///
    /// The handle must be passed to [`RawWriter::commit`] to become visible.
    pub fn try_acquire(&mut self, seg: &mut Segment) -> (r: Result<WriteHandle, ZeroChannelError>)
        requires
            old(self)@.fits(old(seg)@),
        ensures
            final(self)@ == old(self)@,
            final(self)@.fits(final(seg)@),
            match r {
                Ok(handle) => {
                    &&& old(self)@.target(old(seg)@) matches Some(index)
                    &&& 0 <= index < old(self)@.entry_count
                    &&& handle.refers_to(old(self)@.payload_bytes, index)
                    &&& handle.within(final(seg)@)
                    &&& final(seg)@ == put_seq(old(seg)@, old(self)@.payload_bytes, index, 0)
                },
                Err(e) => {
                    &&& all_held(old(self)@.words(old(seg)@))
                    &&& e is Busy
                    &&& e.text() == busy_text(old(self)@.entry_count as nat)
                    &&& final(seg)@ == old(seg)@
                },
            },
    {
        match self.claim_slot(seg) {
            Ok(index) => {
                proof {
                    lemma_slot_bounds(self@.payload_bytes, self@.entry_count, index as int);
                }
                Ok(self.handle(index))
            },
            Err(e) => Err(e),
        }
    }

    /// Publish a held slot and return its sequence number.
    pub fn commit(&mut self, seg: &mut Segment, handle: WriteHandle) -> (seq: u64)
        requires
            old(self)@.fits(old(seg)@),
            0 <= handle.slot() < old(self)@.entry_count,
            old(self)@.last_entry_seq < u64::MAX,
        ensures
            seq == old(self)@.last_entry_seq + 1,
            final(self)@ == old(self)@.after(handle.slot()),
            final(self)@.fits(final(seg)@),
            final(seg)@ == published(
                old(seg)@,
                old(self)@.payload_bytes,
                old(self)@.entry_count,
                handle.slot(),
                seq,
            ),
    {
        self.publish(seg, handle.index())
    }
}

} // verus!
