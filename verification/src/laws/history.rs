//! Why an unchanged control word proves a copy whole.
//!
//! A slot is shared: while one reader copies it out, the writer may recycle it
//! and other participants may act on it. What a slot goes through is a sequence
//! of states, each reached from the one before by one step of some participant.

use vstd::prelude::*;

use crate::metadata::{lemma_slot_bounds, OFF_LAST_ENTRY_SEQ, OFF_WRITE_INDEX};
use crate::reader::{lemma_returned_only_if_unchanged, Entry, ReadOp, ReadPhase};
use crate::ring::{
    lemma_put_header, lemma_put_payload, lemma_put_seq, payload_at, payloads, put_payload, put_seq,
    ring_fits, seq_at, seqs,
};
use crate::segment::put_word;
use crate::writer::{lemma_free_slot, magnitude, WriterState};

verus! {

/// One moment in the life of a slot.
pub struct SlotMoment {
    /// Its control word.
    pub word: i64,
    /// Its payload.
    pub payload: Seq<u8>,
    /// The newest sequence number that the writer has assigned, in any slot.
    pub newest: u64,
}

/// Slot `index` of the segment bytes `s`, when the writer has assigned sequence
/// numbers up to `newest`.
pub open spec fn moment(s: Seq<u8>, payload_bytes: int, index: int, newest: u64) -> SlotMoment {
    SlotMoment {
        word: seq_at(s, payload_bytes, index),
        payload: payload_at(s, payload_bytes, index),
        newest,
    }
}

/// What one step of a participant may do to a slot.
///
/// A reader pins or releases it; the writer claims it unless it is pinned, fills
/// it while it is claimed, and publishes it under a new sequence number; or the
/// step was about another slot.
///
/// The claim is one step: no pin lands between the writer's look at the control
/// word and its store of zero. A reader that only copies never changes a control
/// word, so on a channel without a zero-copy reader this always holds.
pub open spec fn slot_step(a: SlotMoment, b: SlotMoment) -> bool {
    ||| pin_step(a, b)
    ||| claim_step(a, b)
    ||| fill_step(a, b)
    ||| publish_step(a, b)
    ||| elsewhere(a, b)
}

/// A reader pins the slot, or releases it.
pub open spec fn pin_step(a: SlotMoment, b: SlotMoment) -> bool {
    a.word != 0 && b.word == -a.word && b.payload == a.payload && b.newest == a.newest
}

/// The writer claims the slot.
pub open spec fn claim_step(a: SlotMoment, b: SlotMoment) -> bool {
    a.word >= 0 && b.word == 0 && b.payload == a.payload && b.newest == a.newest
}

/// The writer fills part of the claimed slot.
pub open spec fn fill_step(a: SlotMoment, b: SlotMoment) -> bool {
    a.word == 0 && b.word == 0 && b.payload.len() == a.payload.len() && b.newest == a.newest
}

/// The writer publishes the slot under a new sequence number.
pub open spec fn publish_step(a: SlotMoment, b: SlotMoment) -> bool {
    a.word == 0 && b.word > a.newest && b.payload == a.payload && b.newest == b.word
}

/// The step was about another slot.
pub open spec fn elsewhere(a: SlotMoment, b: SlotMoment) -> bool {
    b.word == a.word && b.payload == a.payload && b.newest >= a.newest
}

/// Moment `k` leads to the next by one step.
pub open spec fn steps_at(h: Seq<SlotMoment>, k: int) -> bool {
    slot_step(h[k], h[k + 1])
}

/// `h` is what a slot goes through.
pub open spec fn is_history(h: Seq<SlotMoment>) -> bool {
    &&& h.len() > 0
    &&& magnitude(h[0].word) <= h[0].newest
    &&& forall|k: int| 0 <= k < h.len() - 1 ==> #[trigger] steps_at(h, k)
}

/// Sequence numbers are only assigned upwards, and a slot never carries one that
/// was not assigned.
proof fn lemma_assigned(h: Seq<SlotMoment>, i: int, j: int)
    requires
        is_history(h),
        0 <= i <= j < h.len(),
    ensures
        magnitude(h[j].word) <= h[j].newest,
        h[i].newest <= h[j].newest,
        h[i].payload.len() == h[j].payload.len(),
    decreases j,
{
    if i < j {
        lemma_assigned(h, i, j - 1);
        assert(steps_at(h, j - 1));
    } else if j > 0 {
        lemma_assigned(h, j - 1, j - 1);
        assert(steps_at(h, j - 1));
    }
}

/// A slot that is recycled never carries the same sequence number again: up to
/// moment `j` it either has not been recycled since moment `i`, or is empty or
/// carries a newer entry.
proof fn lemma_kept_or_recycled(h: Seq<SlotMoment>, i: int, j: int)
    requires
        is_history(h),
        0 <= i <= j < h.len(),
        h[i].word != 0,
    ensures
        (magnitude(h[j].word) == magnitude(h[i].word) && forall|k: int|
            i <= k <= j ==> (#[trigger] h[k]).payload == h[i].payload) || h[j].word == 0
            || magnitude(h[j].word) > magnitude(h[i].word),
    decreases j - i,
{
    if i < j {
        lemma_kept_or_recycled(h, i, j - 1);
        assert(steps_at(h, j - 1));
        lemma_assigned(h, i, j - 1);
        lemma_assigned(h, i, i);
    }
}

/// While a slot carries the same entry at two moments, held or not, its payload
/// was the same at every moment between.
pub proof fn lemma_same_entry_same_payload(h: Seq<SlotMoment>, i: int, j: int, k: int)
    requires
        is_history(h),
        0 <= i <= k <= j < h.len(),
        h[i].word != 0,
        magnitude(h[i].word) == magnitude(h[j].word),
    ensures
        h[k].payload == h[i].payload,
{
    lemma_kept_or_recycled(h, i, j);
}

/// The double read proves a copy whole: when the control word reads `seq` before
/// the copy and still reads `seq` after it, the copy is exactly the payload of
/// entry `seq`, at whatever moments in between its bytes were read.
pub proof fn lemma_double_read_is_whole(
    h: Seq<SlotMoment>,
    before: int,
    after: int,
    seq: i64,
    read_at: Seq<int>,
    copy: Seq<u8>,
)
    requires
        is_history(h),
        0 <= before <= after < h.len(),
        seq > 0,
        h[before].word == seq,
        h[after].word == seq,
        copy.len() == h[before].payload.len(),
        read_at.len() == copy.len(),
        forall|b: int|
            0 <= b < copy.len() ==> before <= #[trigger] read_at[b] <= after && copy[b]
                == h[read_at[b]].payload[b],
    ensures
        copy == h[before].payload,
{
    assert forall|b: int| 0 <= b < copy.len() implies copy[b] == h[before].payload[b] by {
        lemma_same_entry_same_payload(h, before, after, read_at[b]);
    }
    assert(copy =~= h[before].payload);
}

/// A one-copy read returns whole entries. Let the search have seen the control
/// word of the entry at moment `before`, the copy have been made after that, and
/// the answer that ended the read have been the word at moment `after`: then the
/// copy is exactly the payload of that entry.
pub proof fn lemma_one_copy_read_is_whole(
    op: ReadOp,
    word: u64,
    entry: Entry,
    attempt: int,
    h: Seq<SlotMoment>,
    before: int,
    after: int,
    read_at: Seq<int>,
    copy: Seq<u8>,
)
    requires
        !(op.phase() is Done),
        op.follows(word, ReadPhase::Done(Some(entry)), attempt),
        0 < entry.entry_seq <= i64::MAX,
        is_history(h),
        0 <= before <= after < h.len(),
        h[before].word == entry.entry_seq,
        h[after].word == word as i64,
        copy.len() == h[before].payload.len(),
        read_at.len() == copy.len(),
        forall|b: int|
            0 <= b < copy.len() ==> before <= #[trigger] read_at[b] <= after && copy[b]
                == h[read_at[b]].payload[b],
    ensures
        copy == h[before].payload,
{
    lemma_returned_only_if_unchanged(op, word, entry, attempt);
    lemma_double_read_is_whole(h, before, after, entry.entry_seq as i64, read_at, copy);
}

/// A pinned entry stays put: from pinning to release its payload does not
/// change.
pub proof fn lemma_pinned_is_stable(h: Seq<SlotMoment>, pinned: int, until: int, seq: i64, k: int)
    requires
        is_history(h),
        0 <= pinned <= k <= until < h.len(),
        seq > 0,
        h[pinned].word == -seq,
        h[until].word == -seq,
    ensures
        h[k].payload == h[pinned].payload,
{
    lemma_same_entry_same_payload(h, pinned, until, k);
}

/// Claiming a slot is a step of every slot.
pub proof fn lemma_claim_is_step(writer: WriterState, s: Seq<u8>, index: int, slot: int)
    requires
        writer.fits(s),
        writer.target(s) == Some(index),
        0 <= slot < writer.entry_count,
    ensures
        slot_step(
            moment(s, writer.payload_bytes, slot, writer.last_entry_seq),
            moment(
                put_seq(s, writer.payload_bytes, index, 0),
                writer.payload_bytes,
                slot,
                writer.last_entry_seq,
            ),
        ),
{
    let pb = writer.payload_bytes;
    let n = writer.entry_count;
    lemma_free_slot(writer.words(s), writer.current_index, 0);
    lemma_put_seq(s, pb, n, index, 0);
    lemma_parts(s, pb, n, slot);
    lemma_parts(put_seq(s, pb, index, 0), pb, n, slot);
}

/// Filling a claimed slot is a step of every slot.
pub proof fn lemma_fill_is_step(
    s: Seq<u8>,
    payload_bytes: int,
    entry_count: int,
    index: int,
    data: Seq<u8>,
    newest: u64,
    slot: int,
)
    requires
        ring_fits(s, payload_bytes, entry_count),
        0 <= index < entry_count,
        0 <= slot < entry_count,
        seq_at(s, payload_bytes, index) == 0,
        data.len() == payload_bytes,
    ensures
        slot_step(
            moment(s, payload_bytes, slot, newest),
            moment(put_payload(s, payload_bytes, index, data), payload_bytes, slot, newest),
        ),
{
    lemma_put_payload(s, payload_bytes, entry_count, index, data);
    lemma_parts(s, payload_bytes, entry_count, slot);
    lemma_parts(put_payload(s, payload_bytes, index, data), payload_bytes, entry_count, slot);
    lemma_slot_bounds(payload_bytes, entry_count, index);
}

/// Storing the control word of a filled slot is a step of every slot, and the
/// header stores that follow are steps too.
pub proof fn lemma_publish_is_step(writer: WriterState, s: Seq<u8>, index: int, slot: int)
    requires
        writer.fits(s),
        0 <= index < writer.entry_count,
        0 <= slot < writer.entry_count,
        seq_at(s, writer.payload_bytes, index) == 0,
        writer.last_entry_seq < i64::MAX,
    ensures
        ({
            let pb = writer.payload_bytes;
            let seq = (writer.last_entry_seq + 1) as u64;
            let t = put_seq(s, pb, index, seq as i64);
            let wi = ((index + 1) % writer.entry_count) as u64;
            let u = put_word(t, OFF_WRITE_INDEX as int, wi);
            let v = put_word(u, OFF_LAST_ENTRY_SEQ as int, seq);
            &&& slot_step(
                moment(s, pb, slot, writer.last_entry_seq),
                moment(t, pb, slot, seq),
            )
            &&& slot_step(moment(t, pb, slot, seq), moment(u, pb, slot, seq))
            &&& slot_step(moment(u, pb, slot, seq), moment(v, pb, slot, seq))
        }),
{
    let pb = writer.payload_bytes;
    let n = writer.entry_count;
    let seq = (writer.last_entry_seq + 1) as u64;
    let t = put_seq(s, pb, index, seq as i64);
    let wi = ((index + 1) % n) as u64;
    let u = put_word(t, OFF_WRITE_INDEX as int, wi);
    let v = put_word(u, OFF_LAST_ENTRY_SEQ as int, seq);
    lemma_put_seq(s, pb, n, index, seq as i64);
    lemma_put_header(t, pb, n, OFF_WRITE_INDEX as int, wi);
    lemma_put_header(u, pb, n, OFF_LAST_ENTRY_SEQ as int, seq);
    lemma_parts(s, pb, n, slot);
    lemma_parts(t, pb, n, slot);
    lemma_parts(u, pb, n, slot);
    lemma_parts(v, pb, n, slot);
}

/// Pinning an entry, or releasing a pinned one, is a step of every slot.
pub proof fn lemma_pin_is_step(
    s: Seq<u8>,
    payload_bytes: int,
    entry_count: int,
    index: int,
    newest: u64,
    slot: int,
)
    requires
        ring_fits(s, payload_bytes, entry_count),
        0 <= index < entry_count,
        0 <= slot < entry_count,
        seq_at(s, payload_bytes, index) != 0,
        seq_at(s, payload_bytes, index) != i64::MIN,
    ensures
        slot_step(
            moment(s, payload_bytes, slot, newest),
            moment(
                put_seq(s, payload_bytes, index, (-seq_at(s, payload_bytes, index)) as i64),
                payload_bytes,
                slot,
                newest,
            ),
        ),
{
    let v = (-seq_at(s, payload_bytes, index)) as i64;
    lemma_put_seq(s, payload_bytes, entry_count, index, v);
    lemma_parts(s, payload_bytes, entry_count, slot);
    lemma_parts(put_seq(s, payload_bytes, index, v), payload_bytes, entry_count, slot);
}

/// The parts of a slot, seen alone and among all slots.
proof fn lemma_parts(s: Seq<u8>, payload_bytes: int, entry_count: int, slot: int)
    requires
        0 <= slot < entry_count,
    ensures
        seqs(s, payload_bytes, entry_count)[slot] == seq_at(s, payload_bytes, slot),
        payloads(s, payload_bytes, entry_count)[slot] == payload_at(s, payload_bytes, slot),
{
}

} // verus!
