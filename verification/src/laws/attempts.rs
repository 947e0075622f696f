//! One read, answer by answer.

use vstd::prelude::*;

use crate::metadata::READ_RETRIES;
use crate::reader::{Entry, ReadOp, ReadPhase};

verus! {

/// A read looks no further exactly when the header promises nothing newer than
/// the position read from.
pub proof fn lemma_promise_decides(op: ReadOp, promise: u64, next: ReadPhase, attempt: int)
    requires
        op.phase() is Watermark,
        op.follows(promise, next, attempt),
    ensures
        attempt == op.attempt(),
        promise <= op.watermark() ==> next == ReadPhase::Done(None),
        promise > op.watermark() ==> next is Probe,
{
}

/// The slot after the one read last is taken exactly when it carries the very
/// next entry, not held; else the whole ring is looked at, from its first slot.
pub proof fn lemma_next_slot_is_tried_first(op: ReadOp, word: u64, next: ReadPhase, attempt: int)
    requires
        op.phase() is Probe,
        op.follows(word, next, attempt),
    ensures
        attempt == op.attempt(),
        word as i64 > 0 && word as i64 == op.watermark() + 1 ==> next == ReadPhase::Check(
            Entry { index: op.probe() as usize, entry_seq: (word as i64) as u64 },
        ),
        !(word as i64 > 0 && word as i64 == op.watermark() + 1) ==> next == ReadPhase::Scan(
            Seq::empty(),
        ),
{
}

/// The whole ring is looked at, slot by slot, before an entry is picked. The one
/// picked is the oldest of those seen that are newer than the position read
/// from; nothing is picked exactly when none is newer.
pub proof fn lemma_scan_picks_the_oldest(
    op: ReadOp,
    seen: Seq<i64>,
    word: u64,
    next: ReadPhase,
    attempt: int,
    i: int,
)
    requires
        op.phase() == ReadPhase::Scan(seen),
        op.follows(word, next, attempt),
        0 <= i <= seen.len(),
    ensures
        attempt == op.attempt(),
        seen.len() + 1 < op.count() ==> next == ReadPhase::Scan(seen.push(word as i64)),
        seen.len() + 1 >= op.count() ==> match next {
            ReadPhase::Check(entry) => {
                &&& entry.index <= seen.len()
                &&& seen.push(word as i64)[entry.index as int] == entry.entry_seq
                &&& entry.entry_seq > op.watermark()
                &&& seen.push(word as i64)[i] > op.watermark() ==> entry.entry_seq <= seen.push(
                    word as i64,
                )[i]
            },
            ReadPhase::Done(None) => seen.push(word as i64)[i] <= op.watermark(),
            _ => false,
        },
{
    let all = seen.push(word as i64);
    assert(0 <= i < all.len());
    assert(all[i] == all[i]);
}

/// An entry is returned exactly when its control word is still the same after it
/// was copied or pinned. If it is not, the ring is searched again, up to four
/// times in all, and then the read gives up with nothing.
pub proof fn lemma_torn_entries_are_read_again(
    op: ReadOp,
    entry: Entry,
    word: u64,
    next: ReadPhase,
    attempt: int,
)
    requires
        op.phase() == ReadPhase::Check(entry),
        op.follows(word, next, attempt),
    ensures
        word as i64 == entry.entry_seq as i64 ==> next == ReadPhase::Done(Some(entry)),
        word as i64 != entry.entry_seq as i64 && op.attempt() < 4 ==> next is Probe && attempt
            == op.attempt() + 1,
        word as i64 != entry.entry_seq as i64 && op.attempt() >= 4 ==> next == ReadPhase::Done(
            None,
        ),
        READ_RETRIES == 4,
{
}

/// A read that is over stays over.
pub proof fn lemma_finished_reads_stay(
    op: ReadOp,
    found: Option<Entry>,
    word: u64,
    next: ReadPhase,
    attempt: int,
)
    requires
        op.phase() == ReadPhase::Done(found),
        op.follows(word, next, attempt),
    ensures
        next == ReadPhase::Done(found),
        attempt == op.attempt(),
{
}

} // verus!
