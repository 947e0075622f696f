//! The reader end of the ring protocol.
//!
//! [`RawReader`] owns slot location, the torn-read double check and the
//! zero-copy compare-and-swap. It works on a segment someone else mapped:
//! naming, creation and the exclusive zero-copy reader role are all above this
//! layer.
//!
//! One read is a short program of loads, a copy or a compare-and-swap.
//! [`ReadOp`] decides each step from the words seen so far, and drives both a
//! plain [`Segment`] and memory shared with other processes.

use vstd::prelude::*;
use vstd::string::StringExecFns;

use crate::element::{
    check_elements, decode_all, decoding_of, encoding_of, lemma_decode_bytes,
    lemma_decode_encoding_of, lemma_encode_decoding_of, lemma_encoding_of, partial_element_text,
    whole_elements, Element,
};
use crate::error::ZeroChannelError;
use crate::header::high_watermark;
use crate::metadata::{
    lemma_slot_bounds, payload_offset, segment_bytes, slot_at, slot_offset, Header,
    OFF_LAST_ENTRY_SEQ, READ_RETRIES,
};
use crate::ring::{lemma_slot_fits, payload_at, put_seq, ring_fits, seq_at, seqs, store_seq};
use crate::segment::{lemma_unsigned_word, word_at, Segment};
use crate::text::{decimal, push_decimal};
use crate::zerocopy::ReadHandle;

verus! {

/// A committed entry: the slot it sits in and its sequence number.
#[derive(Debug, Clone, Copy, PartialEq, Eq, Structural)]
pub struct Entry {
    /// Ring slot of the entry.
    pub index: usize,
    /// Sequence number of the entry.
    pub entry_seq: u64,
}

/// A control word that stands for a committed, unheld entry newer than the
/// watermark.
pub open spec fn is_newer(raw: i64, watermark: u64) -> bool {
    raw > 0 && raw > watermark
}

/// `found` is the oldest entry newer than the watermark among the control words
/// `words`: the one with the smallest sequence number, in the first slot that
/// holds it. Empty and mid-write slots (zero) and reader-held slots (negative)
/// do not count.
pub open spec fn is_oldest(words: Seq<i64>, watermark: u64, found: Option<Entry>) -> bool {
    match found {
        None => forall|i: int| 0 <= i < words.len() ==> !is_newer(#[trigger] words[i], watermark),
        Some(entry) => {
            &&& entry.index < words.len()
            &&& words[entry.index as int] == entry.entry_seq
            &&& is_newer(words[entry.index as int], watermark)
            &&& forall|i: int|
                0 <= i < words.len() && is_newer(#[trigger] words[i], watermark)
                    ==> entry.entry_seq <= words[i] && (i < entry.index ==> entry.entry_seq
                    < words[i])
        },
    }
}

/// The very next sequence number after the watermark.
pub open spec fn next_seq(watermark: u64) -> u64 {
    if watermark == u64::MAX {
        u64::MAX
    } else {
        (watermark + 1) as u64
    }
}

/// The probed slot carries the very next entry.
pub open spec fn is_next(raw: i64, watermark: u64) -> bool {
    raw > 0 && raw == next_seq(watermark)
}

/// `found` is what a search of the ring gives: the probed slot when it carries
/// the very next entry, else the oldest newer entry anywhere in the ring.
pub open spec fn is_located(
    words: Seq<i64>,
    probe: int,
    watermark: u64,
    found: Option<Entry>,
) -> bool {
    if is_next(words[probe], watermark) {
        found == Some(Entry { index: probe as usize, entry_seq: words[probe] as u64 })
    } else {
        is_oldest(words, watermark, found)
    }
}

/// Where a read stands.
pub enum ReadPhase {
    /// The header watermark is to be loaded.
    Watermark,
    /// The slot after the one last read is to be loaded.
    Probe,
    /// The ring is being scanned; these control words were seen so far.
    Scan(Seq<i64>),
    /// An entry was located and is to be taken.
    Check(Entry),
    /// The read is over.
    Done(Option<Entry>),
}

/// What a read must do next. Every action but the last is answered with one
/// 64-bit word.
#[derive(Debug, Clone, Copy)]
pub enum ReadAction {
    /// Load the header's high watermark.
    LoadWatermark,
    /// Load the control word of a slot.
    LoadSlot(usize),
    /// Copy the payload of a slot out, and only then load its control word
    /// again.
    CopyThenLoad(usize),
    /// Compare the control word of a slot with `expected` and set it to
    /// `desired` if they match, atomically. The answer is the word found.
    Swap {
        /// The slot.
        index: usize,
        /// The control word the slot must still hold.
        expected: i64,
        /// The control word that pins the slot.
        desired: i64,
    },
    /// Nothing: the read is over, with the entry that was read, if any.
    Finish(Option<Entry>),
}

/// Progress of a [`ReadOp`].
#[derive(Debug, Clone, Copy)]
enum Stage {
    Watermark,
    Probe,
    Scan(usize, Option<Entry>),
    Check(Entry),
    Done(Option<Entry>),
}

/// One read: which word to look at next, and what to make of it.
pub struct ReadOp {
    entry_count: usize,
    probe: usize,
    watermark: u64,
    pin: bool,
    attempt: usize,
    stage: Stage,
    seen: Ghost<Seq<i64>>,
}

impl ReadOp {
    /// Number of ring slots.
    pub closed spec fn count(&self) -> int {
        self.entry_count as int
    }

    /// The slot tried before the whole ring is scanned.
    pub closed spec fn probe(&self) -> int {
        self.probe as int
    }

    /// Only entries newer than this are wanted.
    pub closed spec fn watermark(&self) -> u64 {
        self.watermark
    }

    /// The entry is pinned in place rather than copied out.
    pub closed spec fn pins(&self) -> bool {
        self.pin
    }

    /// How many times the ring has been searched, this time included.
    pub closed spec fn attempt(&self) -> int {
        self.attempt as int
    }

    /// Where the read stands.
    pub closed spec fn phase(&self) -> ReadPhase {
        match self.stage {
            Stage::Watermark => ReadPhase::Watermark,
            Stage::Probe => ReadPhase::Probe,
            Stage::Scan(_, _) => ReadPhase::Scan(self.seen@),
            Stage::Check(entry) => ReadPhase::Check(entry),
            Stage::Done(found) => ReadPhase::Done(found),
        }
    }

    /// The read is within its ring, and what it knows of the ring is what it
    /// has seen of it.
    pub closed spec fn wf(&self) -> bool {
        &&& self.probe < self.entry_count
        &&& 1 <= self.attempt <= READ_RETRIES
        &&& match self.stage {
            Stage::Scan(next, best) => {
                &&& next == self.seen@.len()
                &&& next < self.entry_count
                &&& is_oldest(self.seen@, self.watermark, best)
            },
            Stage::Check(entry) => {
                &&& entry.index < self.entry_count
                &&& 0 < entry.entry_seq <= i64::MAX
                &&& self.watermark < entry.entry_seq
            },
            Stage::Done(Some(entry)) => {
                &&& entry.index < self.entry_count
                &&& self.watermark < entry.entry_seq
            },
            _ => true,
        }
    }

    /// `next` is the phase that follows when the pending action is answered
    /// with `word`, and `attempt` the number of searches begun by then.
    ///
    /// A changed control word means the slot was recycled while it was being
    /// copied or pinned: the ring is searched again, a few times.
    pub open spec fn follows(&self, word: u64, next: ReadPhase, attempt: int) -> bool {
        match self.phase() {
            ReadPhase::Watermark => {
                &&& attempt == self.attempt()
                &&& next == if word <= self.watermark() {
                    ReadPhase::Done(None)
                } else {
                    ReadPhase::Probe
                }
            },
            ReadPhase::Probe => {
                &&& attempt == self.attempt()
                &&& next == if is_next(word as i64, self.watermark()) {
                    ReadPhase::Check(
                        Entry { index: self.probe() as usize, entry_seq: (word as i64) as u64 },
                    )
                } else {
                    ReadPhase::Scan(Seq::empty())
                }
            },
            ReadPhase::Scan(words) => {
                &&& attempt == self.attempt()
                &&& if words.len() + 1 < self.count() {
                    next == ReadPhase::Scan(words.push(word as i64))
                } else {
                    match next {
                        ReadPhase::Check(entry) => is_oldest(
                            words.push(word as i64),
                            self.watermark(),
                            Some(entry),
                        ),
                        ReadPhase::Done(None) => is_oldest(
                            words.push(word as i64),
                            self.watermark(),
                            None,
                        ),
                        _ => false,
                    }
                }
            },
            ReadPhase::Check(entry) => {
                if word as i64 == entry.entry_seq as i64 {
                    attempt == self.attempt() && next == ReadPhase::Done(Some(entry))
                } else if self.attempt() < READ_RETRIES {
                    attempt == self.attempt() + 1 && next == ReadPhase::Probe
                } else {
                    attempt == self.attempt() && next == ReadPhase::Done(None)
                }
            },
            ReadPhase::Done(found) => attempt == self.attempt() && next == ReadPhase::Done(found),
        }
    }

    /// An upper bound on the answers that the read still takes in, whatever they
    /// are: it never spins against a writer that is lapping the reader.
    pub open spec fn answers_left(&self) -> int {
        (READ_RETRIES - self.attempt()) * (self.count() + 2) + match self.phase() {
            ReadPhase::Watermark => self.count() + 3,
            ReadPhase::Probe => self.count() + 2,
            ReadPhase::Scan(words) => self.count() + 1 - words.len(),
            ReadPhase::Check(_) => 1,
            ReadPhase::Done(_) => 0,
        }
    }

    /// What to do next.
    pub fn action(&self) -> (action: ReadAction)
        requires
            self.wf(),
        ensures
            action == match self.phase() {
                ReadPhase::Watermark => ReadAction::LoadWatermark,
                ReadPhase::Probe => ReadAction::LoadSlot(self.probe() as usize),
                ReadPhase::Scan(words) => ReadAction::LoadSlot(words.len() as usize),
                ReadPhase::Check(entry) => if self.pins() {
                    ReadAction::Swap {
                        index: entry.index,
                        expected: entry.entry_seq as i64,
                        desired: (-(entry.entry_seq as i64)) as i64,
                    }
                } else {
                    ReadAction::CopyThenLoad(entry.index)
                },
                ReadPhase::Done(found) => ReadAction::Finish(found),
            },
            action matches ReadAction::LoadSlot(index) ==> index < self.count(),
            action matches ReadAction::CopyThenLoad(index) ==> index < self.count(),
            action matches ReadAction::Swap { index, expected, desired } ==> index < self.count()
                && 0 < expected && desired == -expected,
            self.phase() matches ReadPhase::Check(entry) ==> self.watermark() < entry.entry_seq
                && entry.entry_seq <= i64::MAX,
            action matches ReadAction::Finish(Some(entry)) ==> entry.index < self.count()
                && self.watermark() < entry.entry_seq,
    {
        match self.stage {
            Stage::Watermark => ReadAction::LoadWatermark,
            Stage::Probe => ReadAction::LoadSlot(self.probe),
            Stage::Scan(next, _) => ReadAction::LoadSlot(next),
            Stage::Check(entry) => {
                if self.pin {
                    let expected: i64 = entry.entry_seq as i64;
                    ReadAction::Swap { index: entry.index, expected, desired: -expected }
                } else {
                    ReadAction::CopyThenLoad(entry.index)
                }
            },
            Stage::Done(found) => ReadAction::Finish(found),
        }
    }

    /// Take in the answer to the pending action.
    pub fn advance(&mut self, word: u64)
        requires
            old(self).wf(),
        ensures
            final(self).wf(),
            final(self).count() == old(self).count(),
            final(self).probe() == old(self).probe(),
            final(self).watermark() == old(self).watermark(),
            final(self).pins() == old(self).pins(),
            1 <= final(self).attempt() <= READ_RETRIES,
            old(self).follows(word, final(self).phase(), final(self).attempt()),
            !(old(self).phase() is Done) ==> 0 <= final(self).answers_left() < old(
                self,
            ).answers_left(),
    {
        proof {
            let left = READ_RETRIES - self.attempt;
            let lap = self.entry_count + 2;
            assert(0 <= left * lap && (left - 1) * lap == left * lap - lap && (1 <= left ==> 0 <= (
            left - 1) * lap)) by (nonlinear_arith)
                requires
                    0 <= left,
                    0 <= lap,
            ;
        }
        let raw: i64 = word as i64;
        match self.stage {
            Stage::Watermark => {
                self.stage = if word <= self.watermark {
                    Stage::Done(None)
                } else {
                    Stage::Probe
                };
            },
            Stage::Probe => {
                // The writer normally lands in the slot right after the one
                // read last, carrying the very next sequence number.
                if raw > 0 && raw as u64 == self.watermark.saturating_add(1) {
                    self.stage = Stage::Check(Entry { index: self.probe, entry_seq: raw as u64 });
                } else {
                    self.stage = Stage::Scan(0, None);
                    self.seen = Ghost(Seq::empty());
                }
            },
            Stage::Scan(next, best) => {
                let ghost before = self.seen@;
                let ghost after = before.push(raw);
                let mut best: Option<Entry> = best;
                if raw > 0 && raw as u64 > self.watermark {
                    let better: bool = match best {
                        None => true,
                        Some(entry) => (raw as u64) < entry.entry_seq,
                    };
                    if better {
                        best = Some(Entry { index: next, entry_seq: raw as u64 });
                    }
                }
                proof {
                    assert(forall|i: int| 0 <= i < next ==> after[i] == before[i]);
                    assert(after[next as int] == raw);
                    assert(is_oldest(after, self.watermark, best));
                }
                self.seen = Ghost(after);
                if next + 1 < self.entry_count {
                    self.stage = Stage::Scan(next + 1, best);
                } else {
                    self.stage = match best {
                        Some(entry) => Stage::Check(entry),
                        None => Stage::Done(None),
                    };
                }
            },
            Stage::Check(entry) => {
                if raw == entry.entry_seq as i64 {
                    self.stage = Stage::Done(Some(entry));
                } else if self.attempt < READ_RETRIES {
                    self.attempt = self.attempt + 1;
                    self.stage = Stage::Probe;
                } else {
                    self.stage = Stage::Done(None);
                }
            },
            Stage::Done(found) => {},
        }
    }
}

/// An entry is returned only after its control word was seen unchanged at the
/// end: as the answer to the load that follows the copy, or as the word that the
/// swap replaced.
pub proof fn lemma_returned_only_if_unchanged(
    op: ReadOp,
    word: u64,
    entry: Entry,
    attempt: int,
)
    requires
        !(op.phase() is Done),
        op.follows(word, ReadPhase::Done(Some(entry)), attempt),
    ensures
        op.phase() == ReadPhase::Check(entry),
        word as i64 == entry.entry_seq as i64,
{
}

/// What a reader knows about its ring and its own position.
pub struct ReaderState {
    /// Payload bytes per entry.
    pub payload_bytes: int,
    /// Number of ring slots.
    pub entry_count: int,
    /// Sequence number of the last entry returned.
    pub last_entry_seq: u64,
    /// The slot it was found in.
    pub last_read_idx: int,
}

impl ReaderState {
    /// The reader is within its ring, and its ring is addressable.
    pub open spec fn wf(self) -> bool {
        &&& 0 <= self.payload_bytes
        &&& 0 <= self.last_read_idx < self.entry_count
        &&& segment_bytes(self.payload_bytes, self.entry_count) <= usize::MAX
    }

    /// The reader can work on a segment of bytes `s`.
    pub open spec fn fits(self, s: Seq<u8>) -> bool {
        self.wf() && ring_fits(s, self.payload_bytes, self.entry_count)
    }

    /// The control words of the reader's ring.
    pub open spec fn words(self, s: Seq<u8>) -> Seq<i64> {
        seqs(s, self.payload_bytes, self.entry_count)
    }

    /// The watermark in force: the caller's, or else the reader's own position.
    pub open spec fn effective(self, from_entry_seq: Option<u64>) -> u64 {
        match from_entry_seq {
            Some(seq) => seq,
            None => self.last_entry_seq,
        }
    }

    /// `found` is the entry that a read of `s` finds: nothing when the header
    /// promises nothing newer than the watermark, else what a search gives.
    pub open spec fn finds(
        self,
        s: Seq<u8>,
        from_entry_seq: Option<u64>,
        found: Option<Entry>,
    ) -> bool {
        if word_at(s, OFF_LAST_ENTRY_SEQ as int) <= self.effective(from_entry_seq) {
            found is None
        } else {
            is_located(
                self.words(s),
                (self.last_read_idx + 1) % self.entry_count,
                self.effective(from_entry_seq),
                found,
            )
        }
    }

    /// The reader after returning `entry`.
    pub open spec fn after(self, entry: Entry) -> ReaderState {
        ReaderState {
            last_entry_seq: entry.entry_seq,
            last_read_idx: entry.index as int,
            ..self
        }
    }

    /// The entry the reader returned last.
    pub open spec fn last(self) -> Entry {
        Entry { index: self.last_read_idx as usize, entry_seq: self.last_entry_seq }
    }
}

/// A buffer of `size` bytes to copy into.
fn blank(size: usize) -> (buf: Vec<u8>)
    ensures
        buf@.len() == size,
{
    let mut buf: Vec<u8> = Vec::with_capacity(size);
    let mut k: usize = 0;
    while k < size
        invariant
            k <= size,
            buf@.len() == k,
        decreases size - k,
    {
        buf.push(0);
        k += 1;
    }
    buf
}

/// Text of the error for a destination of the wrong size.
pub open spec fn wrong_size_text(got: nat, expected: nat) -> Seq<char> {
    "destination holds "@ + decimal(got) + " bytes, expected "@ + decimal(expected)
}

/// Reader end of a ring buffer, operating on raw bytes.
///
/// A read returns **at most one** entry: the oldest committed entry whose
/// `entry_seq` is greater than the watermark. The watermark defaults to the
/// sequence number of the last entry this reader returned, and may be
/// overridden per call by callers that track their own position.
///
/// The one-copy path ([`RawReader::read_as`]) supports many concurrent readers.
/// The zero-copy path ([`RawReader::try_acquire`]) is single-reader only;
/// enforcing that is the caller's job.
#[derive(Debug)]
pub struct RawReader {
    payload_bytes: usize,
    entry_count: usize,
    last_entry_seq: u64,
    last_read_idx: usize,
}

impl View for RawReader {
    type V = ReaderState;

    closed spec fn view(&self) -> ReaderState {
        ReaderState {
            payload_bytes: self.payload_bytes as int,
            entry_count: self.entry_count as int,
            last_entry_seq: self.last_entry_seq,
            last_read_idx: self.last_read_idx as int,
        }
    }
}

/// What a read knows at each phase when the ring does not change under it.
spec fn consistent(
    phase: ReadPhase,
    reader: ReaderState,
    s: Seq<u8>,
    from_entry_seq: Option<u64>,
) -> bool {
    let watermark = reader.effective(from_entry_seq);
    let probe = (reader.last_read_idx + 1) % reader.entry_count;
    let words = reader.words(s);
    let promised = word_at(s, OFF_LAST_ENTRY_SEQ as int) > watermark;
    match phase {
        ReadPhase::Watermark => true,
        ReadPhase::Probe => promised,
        ReadPhase::Scan(seen) => {
            &&& promised
            &&& !is_next(words[probe], watermark)
            &&& seen.len() < words.len()
            &&& seen == words.take(seen.len() as int)
        },
        ReadPhase::Check(entry) => promised && is_located(words, probe, watermark, Some(entry)),
        ReadPhase::Done(found) => reader.finds(s, from_entry_seq, found),
    }
}

impl RawReader {
    /// Bind a reader to a ring described by `header`.
    pub fn attach(header: &Header) -> (reader: Self)
        requires
            0 < header.entry_count,
            segment_bytes(header.payload_bytes as int, header.entry_count as int) <= usize::MAX,
        ensures
            reader@ == (ReaderState {
                payload_bytes: header.payload_bytes as int,
                entry_count: header.entry_count as int,
                last_entry_seq: 0,
                last_read_idx: 0,
            }),
            reader@.wf(),
    {
        RawReader {
            payload_bytes: header.payload_bytes,
            entry_count: header.entry_count,
            last_entry_seq: 0,
            last_read_idx: 0,
        }
    }

    /// Payload bytes per entry.
    pub fn payload_bytes(&self) -> (n: usize)
        ensures
            n == self@.payload_bytes,
    {
        self.payload_bytes
    }

    /// Number of ring slots.
    pub fn entry_count(&self) -> (n: usize)
        ensures
            n == self@.entry_count,
    {
        self.entry_count
    }

    /// Sequence number of the last entry this reader returned (0 if none).
    pub fn last_entry_seq(&self) -> (seq: u64)
        ensures
            seq == self@.last_entry_seq,
    {
        self.last_entry_seq
    }

    /// The writer's high watermark, read straight from the header.
    pub fn writer_entry_seq(&self, seg: &Segment) -> (seq: u64)
        requires
            self@.fits(seg@),
        ensures
            seq == word_at(seg@, OFF_LAST_ENTRY_SEQ as int),
    {
        proof {
            lemma_slot_bounds(self@.payload_bytes, self@.entry_count, 0);
        }
        high_watermark(seg)
    }

    /// Begin a read that takes the next entry newer than the watermark, copying
    /// it out or, with `pin`, pinning it in place.
    pub fn begin_read(&self, from_entry_seq: Option<u64>, pin: bool) -> (op: ReadOp)
        requires
            self@.wf(),
        ensures
            op.wf(),
            op.count() == self@.entry_count,
            op.probe() == (self@.last_read_idx + 1) % self@.entry_count,
            op.watermark() == self@.effective(from_entry_seq),
            from_entry_seq matches Some(from) ==> op.watermark() == from,
            from_entry_seq is None ==> op.watermark() == self@.last_entry_seq,
            op.pins() == pin,
            op.attempt() == 1,
            op.phase() == ReadPhase::Watermark,
            op.answers_left() == READ_RETRIES * (self@.entry_count + 2) + 1,
    {
        proof {
            assert((READ_RETRIES - 1) * (self@.entry_count + 2) + (self@.entry_count + 3)
                == READ_RETRIES * (self@.entry_count + 2) + 1) by (nonlinear_arith);
        }
        let watermark: u64 = match from_entry_seq {
            Some(seq) => seq,
            None => self.last_entry_seq,
        };
        ReadOp {
            entry_count: self.entry_count,
            probe: (self.last_read_idx + 1) % self.entry_count,
            watermark,
            pin,
            attempt: 1,
            stage: Stage::Watermark,
            seen: Ghost(Seq::empty()),
        }
    }

    /// Record that `entry` has been returned.
    pub fn finish_read(&mut self, entry: Entry)
        requires
            old(self)@.wf(),
            entry.index < old(self)@.entry_count,
        ensures
            final(self)@ == old(self)@.after(entry),
            final(self)@.wf(),
    {
        self.last_entry_seq = entry.entry_seq;
        self.last_read_idx = entry.index;
    }

    /// Hand the copy that a read made over to the caller, if the read found an
    /// entry.
    ///
    /// A writer may run while the copy is made, so the copy goes to a buffer of
    /// its own first. What the read ended with says whether it is whole. Only
    /// then it reaches `dst`: whatever a read that found nothing has copied on
    /// the way, `dst` and the reader's position are as they were.
    pub fn deliver(&mut self, found: Option<Entry>, copy: &[u8], dst: &mut [u8]) -> (r: Option<u64>)
        requires
            old(self)@.wf(),
            copy@.len() == old(dst)@.len(),
            found matches Some(entry) ==> entry.index < old(self)@.entry_count,
        ensures
            final(self)@.wf(),
            match found {
                Some(entry) => {
                    &&& r == Some(entry.entry_seq)
                    &&& final(dst)@ == copy@
                    &&& final(self)@ == old(self)@.after(entry)
                },
                None => {
                    &&& r is None
                    &&& final(dst)@ == old(dst)@
                    &&& final(self)@ == old(self)@
                },
            },
    {
        match found {
            Some(entry) => {
                let n: usize = copy.len();
                let mut k: usize = 0;
                while k < n
                    invariant
                        k <= n,
                        n == copy@.len(),
                        dst@.len() == n,
                        forall|j: int| 0 <= j < k ==> dst@[j] == copy@[j],
                    decreases n - k,
                {
                    dst[k] = copy[k];
                    k += 1;
                }
                assert(dst@ =~= copy@);
                self.finish_read(entry);
                Some(entry.entry_seq)
            },
            None => None,
        }
    }

    /// Reject a destination that does not hold an entry exactly.
    pub fn check_size(&self, len: usize) -> (r: Result<(), ZeroChannelError>)
        ensures
            r is Ok <==> len == self@.payload_bytes,
            r matches Err(e) ==> e is InvalidArgument && e.text() == wrong_size_text(
                len as nat,
                self@.payload_bytes as nat,
            ),
    {
        if len != self.payload_bytes {
            let mut msg = String::from_str("destination holds ");
            push_decimal(&mut msg, len as u64);
            msg.append(" bytes, expected ");
            push_decimal(&mut msg, self.payload_bytes as u64);
            return Err(ZeroChannelError::InvalidArgument(msg));
        }
        Ok(())
    }

    /// Copy the next entry into `dst` (one-copy path), as raw bytes.
    ///
    /// Returns the entry's sequence number, or `None` when nothing newer than
    /// the watermark is available, in which case `dst` is left untouched. The
    /// copy is made in a buffer of its own and handed over by
    /// [`RawReader::deliver`].
    pub fn read_into(
        &mut self,
        seg: &Segment,
        dst: &mut [u8],
        from_entry_seq: Option<u64>,
    ) -> (r: Result<Option<u64>, ZeroChannelError>)
        requires
            old(self)@.fits(seg@),
        ensures
            final(self)@.fits(seg@),
            match r {
                Ok(Some(seq)) => {
                    &&& old(dst)@.len() == old(self)@.payload_bytes
                    &&& old(self)@.finds(seg@, from_entry_seq, Some(final(self)@.last()))
                    &&& final(self)@ == old(self)@.after(final(self)@.last())
                    &&& seq == final(self)@.last_entry_seq
                    &&& final(dst)@ == payload_at(
                        seg@,
                        old(self)@.payload_bytes,
                        final(self)@.last_read_idx,
                    )
                },
                Ok(None) => {
                    &&& old(dst)@.len() == old(self)@.payload_bytes
                    &&& old(self)@.finds(seg@, from_entry_seq, None)
                    &&& final(self)@ == old(self)@
                    &&& final(dst)@ == old(dst)@
                },
                Err(e) => {
                    &&& old(dst)@.len() != old(self)@.payload_bytes
                    &&& e is InvalidArgument
                    &&& e.text() == wrong_size_text(
                        old(dst)@.len(),
                        old(self)@.payload_bytes as nat,
                    )
                    &&& final(self)@ == old(self)@
                    &&& final(dst)@ == old(dst)@
                },
            },
    {
        match self.check_size(dst.len()) {
            Ok(()) => {},
            Err(e) => {
                return Err(e);
            },
        }
        let len: usize = seg.len();
        let mut op = self.begin_read(from_entry_seq, false);
        let mut copy: Vec<u8> = blank(self.payload_bytes);
        loop
            invariant
                self@ == old(self)@,
                self@.fits(seg@),
                len == seg@.len(),
                dst@ == old(dst)@,
                dst@.len() == self@.payload_bytes,
                copy@.len() == self@.payload_bytes,
                op.wf(),
                op.count() == self@.entry_count,
                op.probe() == (self@.last_read_idx + 1) % self@.entry_count,
                op.watermark() == self@.effective(from_entry_seq),
                !op.pins(),
                consistent(op.phase(), self@, seg@, from_entry_seq),
                match op.phase() {
                    ReadPhase::Done(Some(entry)) => entry.index < self@.entry_count && copy@
                        == payload_at(seg@, self@.payload_bytes, entry.index as int),
                    _ => true,
                },
            decreases op.answers_left(),
        {
            let ghost words = self@.words(seg@);
            match op.action() {
                ReadAction::LoadWatermark => {
                    op.advance(self.writer_entry_seq(seg));
                },
                ReadAction::LoadSlot(index) => {
                    proof {
                        lemma_slot_bounds(self@.payload_bytes, self@.entry_count, index as int);
                        assert(words[index as int] == seq_at(
                            seg@,
                            self@.payload_bytes,
                            index as int,
                        ));
                    }
                    let word: u64 = seg.load(slot_offset(self.payload_bytes, index));
                    let ghost before = op.phase();
                    op.advance(word);
                    proof {
                        assert(words.take(0) =~= Seq::empty());
                        if let ReadPhase::Scan(seen) = before {
                            assert(words.take(seen.len() as int + 1) =~= seen.push(word as i64));
                            assert(words.take(words.len() as int) =~= words);
                        }
                    }
                },
                ReadAction::CopyThenLoad(index) => {
                    proof {
                        lemma_slot_bounds(self@.payload_bytes, self@.entry_count, index as int);
                        assert(words[index as int] == seq_at(
                            seg@,
                            self@.payload_bytes,
                            index as int,
                        ));
                    }
                    seg.copy_out(payload_offset(self.payload_bytes, index), copy.as_mut_slice());
                    let word: u64 = seg.load(slot_offset(self.payload_bytes, index));
                    op.advance(word);
                },
                ReadAction::Swap { index, expected, desired } => {},
                ReadAction::Finish(found) => {
                    return Ok(self.deliver(found, copy.as_slice(), dst));
                },
            }
        }
    }

    /// Copy the next entry into `dst` (one-copy path), as elements of `T`.
    pub fn read_into_as<T: Element>(
        &mut self,
        seg: &Segment,
        dst: &mut [T],
        from_entry_seq: Option<u64>,
    ) -> (r: Result<Option<u64>, ZeroChannelError>)
        requires
            old(self)@.fits(seg@),
            old(dst)@.len() * T::width() <= usize::MAX,
        ensures
            final(self)@.fits(seg@),
            final(dst)@.len() == old(dst)@.len(),
            match r {
                Ok(Some(seq)) => {
                    &&& old(dst)@.len() * T::width() == old(self)@.payload_bytes
                    &&& old(self)@.finds(seg@, from_entry_seq, Some(final(self)@.last()))
                    &&& final(self)@ == old(self)@.after(final(self)@.last())
                    &&& seq == final(self)@.last_entry_seq
                    &&& encoding_of(final(dst)@) == payload_at(
                        seg@,
                        old(self)@.payload_bytes,
                        final(self)@.last_read_idx,
                    )
                },
                Ok(None) => {
                    &&& old(dst)@.len() * T::width() == old(self)@.payload_bytes
                    &&& old(self)@.finds(seg@, from_entry_seq, None)
                    &&& final(self)@ == old(self)@
                    &&& final(dst)@ == old(dst)@
                },
                Err(e) => {
                    &&& old(dst)@.len() * T::width() != old(self)@.payload_bytes
                    &&& e is InvalidArgument
                    &&& e.text() == wrong_size_text(
                        old(dst)@.len() * T::width(),
                        old(self)@.payload_bytes as nat,
                    )
                    &&& final(self)@ == old(self)@
                    &&& final(dst)@ == old(dst)@
                },
            },
    {
        let n: usize = dst.len();
        let w: usize = T::size();
        let size: usize = n * w;
        match self.check_size(size) {
            Ok(()) => {},
            Err(e) => {
                return Err(e);
            },
        }
        let mut bytes: Vec<u8> = blank(size);
        match self.read_into(seg, bytes.as_mut_slice(), from_entry_seq) {
            Ok(Some(seq)) => {
                proof {
                    lemma_slot_bounds(self@.payload_bytes, self@.entry_count, self@.last_read_idx);
                    assert(bytes@.len() == n * w);
                }
                if w > 0 {
                    proof {
                        assert((n * w) as int % w as int == 0 && (n * w) as int / w as int == n)
                            by (nonlinear_arith)
                            requires
                                w > 0,
                        ;
                    }
                    let data: Vec<T> = decode_all(bytes.as_slice());
                    let mut i: usize = 0;
                    while i < n
                        invariant
                            i <= n,
                            n == dst@.len(),
                            n == data@.len(),
                            forall|j: int| 0 <= j < i ==> dst@[j] == data@[j],
                        decreases n - i,
                    {
                        dst[i] = data[i];
                        i += 1;
                    }
                    assert(dst@ =~= data@);
                    proof {
                        lemma_encode_decoding_of::<T>(bytes@);
                    }
                } else {
                    proof {
                        lemma_encoding_of(dst@);
                        assert(n * w == 0) by (nonlinear_arith)
                            requires
                                w == 0,
                        ;
                        assert(encoding_of(dst@) =~= bytes@);
                    }
                }
                Ok(Some(seq))
            },
            Ok(None) => Ok(None),
            Err(e) => Err(e),
        }
    }

    /// Read the next entry (one-copy path), allocating the destination.
    pub fn read(&mut self, seg: &Segment, from_entry_seq: Option<u64>) -> (r: Result<
        Option<(u64, Vec<u8>)>,
        ZeroChannelError,
    >)
        requires
            old(self)@.fits(seg@),
        ensures
            final(self)@.fits(seg@),
            match r {
                Ok(Some((seq, data))) => {
                    &&& old(self)@.finds(seg@, from_entry_seq, Some(final(self)@.last()))
                    &&& final(self)@ == old(self)@.after(final(self)@.last())
                    &&& seq == final(self)@.last_entry_seq
                    &&& data@ == payload_at(
                        seg@,
                        old(self)@.payload_bytes,
                        final(self)@.last_read_idx,
                    )
                },
                Ok(None) => {
                    &&& old(self)@.finds(seg@, from_entry_seq, None)
                    &&& final(self)@ == old(self)@
                },
                Err(_) => false,
            },
    {
        let r = self.read_as::<u8>(seg, from_entry_seq);
        proof {
            lemma_decode_bytes(
                payload_at(seg@, old(self)@.payload_bytes, self@.last_read_idx),
            );
        }
        r
    }

    /// Read the next entry (one-copy path) as elements of `T`, allocating the
    /// destination.
    pub fn read_as<T: Element>(&mut self, seg: &Segment, from_entry_seq: Option<u64>) -> (r: Result<
        Option<(u64, Vec<T>)>,
        ZeroChannelError,
    >)
        requires
            old(self)@.fits(seg@),
        ensures
            final(self)@.fits(seg@),
            match r {
                Ok(Some((seq, data))) => {
                    &&& whole_elements(old(self)@.payload_bytes, T::width() as int)
                    &&& old(self)@.finds(seg@, from_entry_seq, Some(final(self)@.last()))
                    &&& final(self)@ == old(self)@.after(final(self)@.last())
                    &&& seq == final(self)@.last_entry_seq
                    &&& data@ == decoding_of::<T>(
                        payload_at(seg@, old(self)@.payload_bytes, final(self)@.last_read_idx),
                    )
                },
                Ok(None) => {
                    &&& whole_elements(old(self)@.payload_bytes, T::width() as int)
                    &&& old(self)@.finds(seg@, from_entry_seq, None)
                    &&& final(self)@ == old(self)@
                },
                Err(e) => {
                    &&& !whole_elements(old(self)@.payload_bytes, T::width() as int)
                    &&& e is InvalidArgument
                    &&& e.text() == partial_element_text(
                        old(self)@.payload_bytes as nat,
                        T::width(),
                    )
                    &&& final(self)@ == old(self)@
                },
            },
    {
        let w: usize = T::size();
        match check_elements(self.payload_bytes, w) {
            Ok(()) => {},
            Err(e) => {
                return Err(e);
            },
        }
        let n: usize = self.payload_bytes / w;
        proof {
            assert(n * w == self.payload_bytes) by (nonlinear_arith)
                requires
                    w > 0,
                    n == self.payload_bytes as int / w as int,
                    self.payload_bytes as int % w as int == 0,
            ;
        }
        let mut buf: Vec<T> = Vec::with_capacity(n);
        let mut k: usize = 0;
        while k < n
            invariant
                k <= n,
                buf@.len() == k,
            decreases n - k,
        {
            buf.push(T::zero());
            k += 1;
        }
        match self.read_into_as(seg, buf.as_mut_slice(), from_entry_seq) {
            Ok(Some(seq)) => {
                proof {
                    lemma_decode_encoding_of(buf@);
                }
                Ok(Some((seq, buf)))
            },
            Ok(None) => Ok(None),
            Err(e) => Err(e),
        }
    }

    /// A handle on `entry` of this ring.
    pub fn handle(&self, entry: Entry) -> (handle: ReadHandle)
        requires
            self@.wf(),
            entry.index < self@.entry_count,
        ensures
            handle.refers_to(self@.payload_bytes, entry.index as int, entry.entry_seq),
    {
        proof {
            lemma_slot_bounds(self@.payload_bytes, self@.entry_count, entry.index as int);
        }
        ReadHandle::new(
            entry.index,
            entry.entry_seq,
            payload_offset(self.payload_bytes, entry.index),
            self.payload_bytes,
        )
    }

    /// Acquire the next entry in place (zero-copy path).
    ///
    /// Flips the slot's control word from `s` to `-s` with a compare-and-swap so
    /// the writer skips the slot until [`RawReader::release`] hands it back.
    ///
    /// Requires a caller that guarantees it is the only zero-copy reader.
    pub fn try_acquire(&mut self, seg: &mut Segment, from_entry_seq: Option<u64>) -> (r: Result<
        Option<ReadHandle>,
        ZeroChannelError,
    >)
        requires
            old(self)@.fits(old(seg)@),
        ensures
            final(self)@.fits(final(seg)@),
            match r {
                Ok(Some(handle)) => {
                    &&& old(self)@.finds(old(seg)@, from_entry_seq, Some(final(self)@.last()))
                    &&& final(self)@ == old(self)@.after(final(self)@.last())
                    &&& handle.refers_to(
                        old(self)@.payload_bytes,
                        final(self)@.last_read_idx,
                        final(self)@.last_entry_seq,
                    )
                    &&& handle.within(final(seg)@)
                    &&& final(seg)@ == put_seq(
                        old(seg)@,
                        old(self)@.payload_bytes,
                        final(self)@.last_read_idx,
                        (-(final(self)@.last_entry_seq as i64)) as i64,
                    )
                },
                Ok(None) => {
                    &&& old(self)@.finds(old(seg)@, from_entry_seq, None)
                    &&& final(self)@ == old(self)@
                    &&& final(seg)@ == old(seg)@
                },
                Err(_) => false,
            },
    {
        let len: usize = seg.len();
        let mut op = self.begin_read(from_entry_seq, true);
        loop
            invariant
                self@ == old(self)@,
                self@.fits(old(seg)@),
                len == old(seg)@.len(),
                seg@.len() == len,
                op.wf(),
                op.count() == self@.entry_count,
                op.probe() == (self@.last_read_idx + 1) % self@.entry_count,
                op.watermark() == self@.effective(from_entry_seq),
                op.pins(),
                consistent(op.phase(), self@, old(seg)@, from_entry_seq),
                match op.phase() {
                    ReadPhase::Done(Some(entry)) => entry.index < self@.entry_count && seg@
                        == put_seq(
                        old(seg)@,
                        self@.payload_bytes,
                        entry.index as int,
                        (-(entry.entry_seq as i64)) as i64,
                    ),
                    _ => seg@ == old(seg)@,
                },
            decreases op.answers_left(),
        {
            let ghost words = self@.words(seg@);
            match op.action() {
                ReadAction::LoadWatermark => {
                    op.advance(self.writer_entry_seq(seg));
                },
                ReadAction::LoadSlot(index) => {
                    proof {
                        lemma_slot_bounds(self@.payload_bytes, self@.entry_count, index as int);
                        assert(words[index as int] == seq_at(
                            seg@,
                            self@.payload_bytes,
                            index as int,
                        ));
                    }
                    let word: u64 = seg.load(slot_offset(self.payload_bytes, index));
                    let ghost before = op.phase();
                    op.advance(word);
                    proof {
                        assert(words.take(0) =~= Seq::empty());
                        if let ReadPhase::Scan(seen) = before {
                            assert(words.take(seen.len() as int + 1) =~= seen.push(word as i64));
                            assert(words.take(words.len() as int) =~= words);
                        }
                    }
                },
                ReadAction::CopyThenLoad(index) => {},
                ReadAction::Swap { index, expected, desired } => {
                    proof {
                        lemma_slot_bounds(self@.payload_bytes, self@.entry_count, index as int);
                        assert(words[index as int] == seq_at(
                            seg@,
                            self@.payload_bytes,
                            index as int,
                        ));
                        lemma_unsigned_word(
                            word_at(seg@, slot_at(self@.payload_bytes, index as int)),
                        );
                    }
                    let at: usize = slot_offset(self.payload_bytes, index);
                    let r = seg.compare_exchange(at, expected as u64, desired as u64);
                    let word: u64 = match r {
                        Ok(found) => found,
                        Err(found) => found,
                    };
                    op.advance(word);
                },
                ReadAction::Finish(found) => {
                    match found {
                        Some(entry) => {
                            proof {
                                lemma_slot_bounds(
                                    self@.payload_bytes,
                                    self@.entry_count,
                                    entry.index as int,
                                );
                            }
                            let handle = self.handle(entry);
                            self.finish_read(entry);
                            return Ok(Some(handle));
                        },
                        None => {
                            return Ok(None);
                        },
                    }
                },
            }
        }
    }

    /// Return a held slot to the ring, restoring its control word to
    /// `+entry_seq`.
    ///
    /// A plain store suffices: only the single zero-copy reader ever drives a
    /// slot negative.
    pub fn release(&mut self, seg: &mut Segment, handle: ReadHandle)
        requires
            old(self)@.fits(old(seg)@),
            0 <= handle.slot() < old(self)@.entry_count,
        ensures
            final(self)@ == old(self)@,
            final(self)@.fits(final(seg)@),
            final(seg)@ == put_seq(
                old(seg)@,
                old(self)@.payload_bytes,
                handle.slot(),
                handle.seq() as i64,
            ),
    {
        let index: usize = handle.index();
        proof {
            lemma_slot_fits(seg@, self@.payload_bytes, self@.entry_count, index as int);
        }
        store_seq(seg, self.payload_bytes, index, handle.entry_seq() as i64);
    }
}

} // verus!
