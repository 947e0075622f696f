//! Which entries survive when the writer laps the ring.
//!
//! These laws are about a ring whose slots no reader holds: the writer then
//! takes the slots in turn, and the ring holds the most recent entries.

use vstd::arithmetic::div_mod::{lemma_mod_add_multiples_vanish, lemma_small_mod};
use vstd::prelude::*;

use crate::header::{header_image, lemma_header_image};
use crate::metadata::{Dtype, OFF_LAST_ENTRY_SEQ};
use crate::reader::{is_newer, Entry, ReaderState};
use crate::ring::ring_fits;
use crate::segment::word_at;
use crate::writer::{free_slot, lemma_ring_covers, lemma_written, ring_index, written, WriterState};

verus! {

/// Going backwards from the slot before `current_index`, the ring holds entries
/// `last`, `last - 1` and so on, and then, if fewer entries than slots were
/// written, empty slots.
pub open spec fn holds_latest(words: Seq<i64>, current_index: int, last: int) -> bool {
    forall|age: int|
        0 <= age < words.len() ==> words[#[trigger] ring_index(
            current_index,
            words.len() - 1 - age,
            words.len() as int,
        )] == if age < last {
            last - age
        } else {
            0
        }
}

/// The writer's ring holds the most recent entries, one per slot.
pub open spec fn up_to_date(writer: WriterState, s: Seq<u8>) -> bool {
    &&& writer.fits(s)
    &&& writer.last_entry_seq <= i64::MAX
    &&& word_at(s, OFF_LAST_ENTRY_SEQ as int) == writer.last_entry_seq
    &&& holds_latest(writer.words(s), writer.current_index, writer.last_entry_seq as int)
}

/// A small number is its own remainder, also with the divisor added.
proof fn lemma_wrap(x: int, n: int)
    requires
        0 <= x < n,
    ensures
        x % n == x,
        (x + n) % n == x,
{
    lemma_small_mod(x as nat, n as nat);
    lemma_mod_add_multiples_vanish(x, n);
}

/// One step further on is one slot further round.
proof fn lemma_ring_step(start: int, step: int, n: int)
    requires
        0 <= start < n,
        0 <= step < n,
    ensures
        ring_index((start + 1) % n, step, n) == ring_index(start, step + 1, n),
{
    if start + 1 == n {
        lemma_wrap(0, n);
        lemma_mod_add_multiples_vanish(step, n);
    } else {
        lemma_wrap(start + 1, n);
    }
}

/// Distinct steps of less than a lap reach distinct slots.
proof fn lemma_ring_distinct(start: int, step: int, n: int)
    requires
        0 <= start < n,
        0 < step < n,
    ensures
        ring_index(start, step, n) != start,
        0 <= ring_index(start, step, n) < n,
{
    if start + step < n {
        lemma_wrap(start + step, n);
    } else {
        lemma_wrap(start + step - n, n);
    }
}

/// A freshly initialized ring holds its most recent entries: none.
pub proof fn lemma_fresh_ring_is_up_to_date(
    s: Seq<u8>,
    payload_bytes: usize,
    entry_count: usize,
    dtype: Dtype,
    owner_pid: u64,
    writer: WriterState,
)
    requires
        ring_fits(s, payload_bytes as int, entry_count as int),
        writer.wf(),
        writer.payload_bytes == payload_bytes,
        writer.entry_count == entry_count,
        writer.last_entry_seq == 0,
    ensures
        up_to_date(writer, header_image(s, payload_bytes, entry_count, dtype, owner_pid)),
{
    let t = header_image(s, payload_bytes, entry_count, dtype, owner_pid);
    lemma_header_image(s, payload_bytes, entry_count, dtype, owner_pid);
    let n = entry_count as int;
    assert forall|age: int| 0 <= age < n implies writer.words(t)[#[trigger] ring_index(
        writer.current_index,
        n - 1 - age,
        n,
    )] == 0 by {
        let i = ring_index(writer.current_index, n - 1 - age, n);
        assert(0 <= i < n);
    }
}

/// While nothing is held, a write takes the slots in turn, replaces the oldest
/// entry when the ring is full, and the ring still holds the most recent ones.
pub proof fn lemma_write_keeps_the_latest(
    writer: WriterState,
    s: Seq<u8>,
    data: Seq<u8>,
)
    requires
        up_to_date(writer, s),
        writer.last_entry_seq < i64::MAX,
        data.len() == writer.payload_bytes,
    ensures
        writer.target(s) == Some(writer.current_index),
        up_to_date(
            writer.after(writer.current_index),
            written(
                s,
                writer.payload_bytes,
                writer.entry_count,
                writer.current_index,
                data,
                (writer.last_entry_seq + 1) as u64,
            ),
        ),
{
    let pb = writer.payload_bytes;
    let n = writer.entry_count;
    let cur = writer.current_index;
    let last = writer.last_entry_seq as int;
    let seq = (last + 1) as u64;
    let words = writer.words(s);
    let t = written(s, pb, n, cur, data, seq);
    lemma_written(s, pb, n, cur, data, seq);
    // The slot about to be written is the one that is a whole lap old.
    lemma_wrap(cur, n);
    assert(ring_index(cur, n - 1 - (n - 1), n) == cur);
    assert(words[cur] >= 0);
    assert(ring_index(cur, 0, n) == cur);
    assert(free_slot(words, cur, 0) == Some(cur));

    let next = writer.after(cur);
    let words2 = writer.words(t);
    assert(words2 == words.update(cur, seq as i64));
    assert forall|age: int| 0 <= age < n implies words2[#[trigger] ring_index(
        next.current_index,
        n - 1 - age,
        n,
    )] == if age < last + 1 {
        last + 1 - age
    } else {
        0
    } by {
        lemma_ring_step(cur, n - 1 - age, n);
        let i = ring_index(next.current_index, n - 1 - age, n);
        if age == 0 {
            lemma_mod_add_multiples_vanish(cur, n);
            assert(i == cur);
        } else {
            lemma_ring_distinct(cur, n - age, n);
            assert(i == ring_index(cur, n - 1 - (age - 1), n));
        }
    }
    assert(0 <= next.current_index < n);
}

/// A reader that was lapped resumes at the oldest entry still in the ring, and
/// one that was not goes on with the very next entry: no entry is skipped that
/// could still be read, and none comes out of order.
pub proof fn lemma_reads_resume_at_the_oldest_survivor(
    writer: WriterState,
    reader: ReaderState,
    s: Seq<u8>,
    from_entry_seq: Option<u64>,
    found: Option<Entry>,
)
    requires
        up_to_date(writer, s),
        reader.wf(),
        reader.payload_bytes == writer.payload_bytes,
        reader.entry_count == writer.entry_count,
        reader.effective(from_entry_seq) < writer.last_entry_seq,
        reader.finds(s, from_entry_seq, found),
    ensures
        found matches Some(entry) && entry.entry_seq == if reader.effective(from_entry_seq)
            < writer.last_entry_seq - writer.entry_count {
            writer.last_entry_seq - writer.entry_count + 1
        } else {
            reader.effective(from_entry_seq) + 1
        },
{
    let n = writer.entry_count;
    let cur = writer.current_index;
    let last = writer.last_entry_seq as int;
    let words = writer.words(s);
    let watermark = reader.effective(from_entry_seq);
    let oldest: int = if watermark < last - n {
        last - n + 1
    } else {
        watermark + 1
    };
    // The oldest survivor is there.
    assert(words.len() == n);
    let age = last - oldest;
    let at = ring_index(cur, words.len() - 1 - age, words.len() as int);
    assert(0 <= at < n);
    assert(words[at] == oldest);
    assert(is_newer(words[at], watermark));
    // Nothing that is newer than the watermark is older than it.
    assert forall|i: int| 0 <= i < n && is_newer(#[trigger] words[i], watermark) implies words[i]
        >= oldest by {
        let step = lemma_ring_covers(cur, n, i);
        let age = n - 1 - step;
        assert(i == ring_index(cur, words.len() - 1 - age, words.len() as int));
    }
    let probe = (reader.last_read_idx + 1) % n;
    assert(0 <= probe < n);
}

} // verus!
