//! What a writer recovers from a predecessor.

use vstd::arithmetic::div_mod::{lemma_mod_self_0, lemma_small_mod};
use vstd::prelude::*;

use crate::error::ZeroChannelError;
use crate::header::{decodes_to, header_image, header_words, lemma_header_image};
use crate::laws::log::{
    holds_log, lemma_claim_keeps_log, lemma_commit_appends, lemma_fill_keeps_log, lemma_fresh_log,
    lemma_pin_keeps_log, slot_holds, wrote,
};
use crate::metadata::{
    lemma_addressable, segment_bytes, Dtype, Header, OFF_LAST_ENTRY_SEQ, OFF_WRITE_INDEX,
};
use crate::ring::{
    lemma_put_header, lemma_put_payload, lemma_put_seq, payload_at, payloads, put_payload, put_seq,
    ring_fits, seqs,
};
use crate::segment::{put_word, word_at};
use crate::writer::{
    attaches, is_newest, lemma_free_slot, lemma_published, magnitude, published, written,
    WriterState,
};

verus! {

/// The writer's own newest entry, if any, sits in the slot before the one it
/// would write next, and the header says where that is.
pub open spec fn persisted(writer: WriterState, s: Seq<u8>, log: Seq<Seq<u8>>) -> bool {
    &&& wrote(writer, s, log)
    &&& word_at(s, OFF_WRITE_INDEX as int) == writer.current_index
    &&& forall|i: int|
        0 <= i < writer.entry_count && magnitude(#[trigger] writer.words(s)[i]) == log.len()
            && log.len() > 0 ==> (i + 1) % writer.entry_count == writer.current_index
}

/// `resumed` is what a writer recovers from a segment of bytes `s`, given what
/// its header says.
pub open spec fn recovered(s: Seq<u8>, header: Header, resumed: WriterState) -> bool {
    &&& header.write_index == word_at(s, OFF_WRITE_INDEX as int)
    &&& header.last_entry_seq == word_at(s, OFF_LAST_ENTRY_SEQ as int)
    &&& attaches(header, s, resumed)
}

/// The two writers work on rings of the same geometry.
pub open spec fn same_ring(a: WriterState, b: WriterState) -> bool {
    a.payload_bytes == b.payload_bytes && a.entry_count == b.entry_count
}

/// What a writer recovers is what the header and the ring say together: the
/// largest number found in either, held entries included, and the slot that the
/// header points at, or the one after it, going round, when that slot already
/// has the newest entry.
pub proof fn lemma_recovery_takes_the_newest(
    header: Header,
    s: Seq<u8>,
    resumed: WriterState,
    i: int,
)
    requires
        attaches(header, s, resumed),
        0 <= i < header.entry_count,
    ensures
        ({
            let pb = header.payload_bytes as int;
            let n = header.entry_count as int;
            let start = header.write_index as int % n;
            let at = word_at(s, 72 + start * (8 + pb)) as i64;
            let word = word_at(s, 72 + i * (8 + pb)) as i64;
            let last = resumed.last_entry_seq as int;
            &&& resumed.payload_bytes == pb
            &&& resumed.entry_count == n
            &&& header.last_entry_seq <= last
            &&& -last <= word <= last
            &&& last == header.last_entry_seq || exists|j: int|
                0 <= j < n && (#[trigger] seqs(s, pb, n)[j] == last || seqs(s, pb, n)[j] == -last)
            &&& resumed.current_index == if last != 0 && (at == last || at == -last) {
                if start + 1 == n {
                    0
                } else {
                    start + 1
                }
            } else {
                start
            }
        }),
{
    let pb = header.payload_bytes as int;
    let n = header.entry_count as int;
    let words = resumed.words(s);
    let start = header.write_index as int % n;
    let last = resumed.last_entry_seq;
    assert(0 <= start < n);
    assert(words[i] == word_at(s, 72 + i * (8 + pb)) as i64);
    assert(words[start] == word_at(s, 72 + start * (8 + pb)) as i64);
    assert(magnitude(words[i]) <= last);
    if last != header.last_entry_seq {
        let j = choose|j: int| 0 <= j < words.len() && magnitude(#[trigger] words[j]) == last;
        assert(seqs(s, pb, n)[j] == last || seqs(s, pb, n)[j] == -last);
    }
    if start + 1 == n {
        lemma_mod_self_0(n);
    } else {
        lemma_small_mod((start + 1) as nat, n as nat);
    }
}

/// The header that a successor decodes is the one that recovery is about: its
/// write index and watermark are those of the segment.
pub proof fn lemma_decoded_header_recovers(
    s: Seq<u8>,
    r: Result<Option<Header>, ZeroChannelError>,
    header: Header,
    resumed: WriterState,
)
    requires
        decodes_to(header_words(s), r),
        r == Ok::<Option<Header>, ZeroChannelError>(Some(header)),
        word_at(s, 56) <= usize::MAX,
        attaches(header, s, resumed),
    ensures
        recovered(s, header, resumed),
        resumed.payload_bytes == word_at(s, 8) as usize,
        resumed.entry_count == word_at(s, 16) as usize,
{
}

/// A writer that replaces one which left the segment in order picks up exactly
/// where it stopped, going by the header that it decodes.
pub proof fn lemma_restart_resumes_from_the_decoded_header(
    writer: WriterState,
    s: Seq<u8>,
    log: Seq<Seq<u8>>,
    r: Result<Option<Header>, ZeroChannelError>,
    header: Header,
    resumed: WriterState,
)
    requires
        persisted(writer, s, log),
        word_at(s, 8) == writer.payload_bytes,
        word_at(s, 16) == writer.entry_count,
        decodes_to(header_words(s), r),
        r == Ok::<Option<Header>, ZeroChannelError>(Some(header)),
        attaches(header, s, resumed),
    ensures
        header.write_index == writer.current_index,
        header.last_entry_seq == log.len(),
        resumed == writer,
{
    lemma_addressable(writer.payload_bytes, writer.entry_count);
    lemma_decoded_header_recovers(s, r, header, resumed);
    lemma_restart_resumes(writer, s, log, header, resumed);
}

/// Publishing leaves the channel in a state from which a successor recovers.
pub proof fn lemma_publish_persists(
    writer: WriterState,
    s: Seq<u8>,
    log: Seq<Seq<u8>>,
    index: int,
)
    requires
        wrote(writer, s, log),
        log.len() < i64::MAX,
        0 <= index < writer.entry_count,
    ensures
        persisted(
            writer.after(index),
            published(
                s,
                writer.payload_bytes,
                writer.entry_count,
                index,
                (writer.last_entry_seq + 1) as u64,
            ),
            log.push(payload_at(s, writer.payload_bytes, index)),
        ),
{
    let pb = writer.payload_bytes;
    let n = writer.entry_count;
    let seq = (writer.last_entry_seq + 1) as u64;
    lemma_commit_appends(writer, s, log, index);
    lemma_published(s, pb, n, index, seq);
    lemma_addressable(pb, n);
    let t = published(s, pb, n, index, seq);
    assert forall|i: int| 0 <= i < n && magnitude(#[trigger] seqs(t, pb, n)[i]) == log.len() + 1
        implies i == index by {
        assert(slot_holds(seqs(s, pb, n)[i], payloads(s, pb, n)[i], log));
    }
}

/// A freshly initialized segment, for a writer that has written nothing, is one
/// from which a successor recovers.
pub proof fn lemma_fresh_persists(
    s: Seq<u8>,
    payload_bytes: usize,
    entry_count: usize,
    dtype: Dtype,
    owner_pid: u64,
)
    requires
        ring_fits(s, payload_bytes as int, entry_count as int),
        segment_bytes(payload_bytes as int, entry_count as int) <= usize::MAX,
    ensures
        persisted(
            WriterState {
                payload_bytes: payload_bytes as int,
                entry_count: entry_count as int,
                current_index: 0,
                last_entry_seq: 0,
            },
            header_image(s, payload_bytes, entry_count, dtype, owner_pid),
            Seq::empty(),
        ),
{
    lemma_fresh_log(s, payload_bytes, entry_count, dtype, owner_pid);
    lemma_header_image(s, payload_bytes, entry_count, dtype, owner_pid);
}

/// So does a write.
pub proof fn lemma_write_persists(
    writer: WriterState,
    s: Seq<u8>,
    log: Seq<Seq<u8>>,
    index: int,
    data: Seq<u8>,
)
    requires
        wrote(writer, s, log),
        log.len() < i64::MAX,
        writer.target(s) == Some(index),
        data.len() == writer.payload_bytes,
    ensures
        persisted(
            writer.after(index),
            written(
                s,
                writer.payload_bytes,
                writer.entry_count,
                index,
                data,
                (writer.last_entry_seq + 1) as u64,
            ),
            log.push(data),
        ),
{
    let pb = writer.payload_bytes;
    let n = writer.entry_count;
    lemma_free_slot(writer.words(s), writer.current_index, 0);
    lemma_claim_keeps_log(writer, s, log, index);
    let t = put_seq(s, pb, index, 0);
    lemma_fill_keeps_log(t, pb, n, log, index, data);
    let u = put_payload(t, pb, index, data);
    lemma_put_payload(t, pb, n, index, data);
    assert(payloads(u, pb, n)[index] == payload_at(u, pb, index));
    lemma_publish_persists(writer, u, log, index);
}

/// Claiming a slot keeps the segment in order for a successor, whether or not
/// the slot is ever committed.
pub proof fn lemma_claim_persists(writer: WriterState, s: Seq<u8>, log: Seq<Seq<u8>>, index: int)
    requires
        persisted(writer, s, log),
        writer.target(s) == Some(index),
    ensures
        persisted(writer, put_seq(s, writer.payload_bytes, index, 0), log),
{
    let pb = writer.payload_bytes;
    let n = writer.entry_count;
    lemma_free_slot(writer.words(s), writer.current_index, 0);
    lemma_claim_keeps_log(writer, s, log, index);
    lemma_put_seq(s, pb, n, index, 0);
    let t = put_seq(s, pb, index, 0);
    assert forall|i: int|
        0 <= i < n && magnitude(#[trigger] writer.words(t)[i]) == log.len() && log.len() > 0
            implies (i + 1) % n == writer.current_index by {
        assert(writer.words(t)[i] == writer.words(s)[i]);
    }
}

/// Pinning an entry, or releasing a pinned one, keeps the segment in order for a
/// successor: an entry that a surviving reader holds still counts.
pub proof fn lemma_pin_persists(writer: WriterState, s: Seq<u8>, log: Seq<Seq<u8>>, index: int)
    requires
        persisted(writer, s, log),
        0 <= index < writer.entry_count,
    ensures
        persisted(
            writer,
            put_seq(s, writer.payload_bytes, index, (-writer.words(s)[index]) as i64),
            log,
        ),
{
    let pb = writer.payload_bytes;
    let n = writer.entry_count;
    let v = (-writer.words(s)[index]) as i64;
    assert(slot_holds(seqs(s, pb, n)[index], payloads(s, pb, n)[index], log));
    lemma_pin_keeps_log(s, pb, n, log, index);
    lemma_put_seq(s, pb, n, index, v);
    let t = put_seq(s, pb, index, v);
    assert forall|i: int|
        0 <= i < n && magnitude(#[trigger] writer.words(t)[i]) == log.len() && log.len() > 0
            implies (i + 1) % n == writer.current_index by {
        assert(magnitude(writer.words(t)[i]) == magnitude(writer.words(s)[i]));
    }
}

/// A writer that replaces one which left the segment in order picks up exactly
/// where it stopped: the same sequence numbering and the same next slot.
pub proof fn lemma_restart_resumes(
    writer: WriterState,
    s: Seq<u8>,
    log: Seq<Seq<u8>>,
    header: Header,
    resumed: WriterState,
)
    requires
        persisted(writer, s, log),
        same_ring(writer, resumed),
        recovered(s, header, resumed),
    ensures
        resumed == writer,
        wrote(resumed, s, log),
{
    let last = resumed.last_entry_seq;
    let n = writer.entry_count;
    let words = writer.words(s);
    let pb = writer.payload_bytes;
    let cur = writer.current_index;
    if last != log.len() {
        let i = choose|i: int| 0 <= i < words.len() && magnitude(#[trigger] words[i]) == last;
        assert(slot_holds(words[i], payloads(s, pb, n)[i], log));
    }
    lemma_small_mod(cur as nat, n as nat);
    assert(slot_holds(words[cur], payloads(s, pb, n)[cur], log));
}

/// A writer that died between committing a slot and persisting the header is
/// recovered from: the committed entry counts, and when the header still points
/// at its slot, writing goes on past it.
pub proof fn lemma_crash_before_header_is_recovered(
    writer: WriterState,
    s: Seq<u8>,
    log: Seq<Seq<u8>>,
    committed: int,
    header: Header,
    resumed: WriterState,
)
    requires
        wrote(writer, s, log),
        word_at(s, OFF_WRITE_INDEX as int) == writer.current_index,
        log.len() < i64::MAX,
        0 <= committed < writer.entry_count,
        same_ring(writer, resumed),
        recovered(
            put_seq(
                s,
                writer.payload_bytes,
                committed,
                (writer.last_entry_seq + 1) as i64,
            ),
            header,
            resumed,
        ),
    ensures
        resumed.last_entry_seq == writer.last_entry_seq + 1,
        resumed.current_index == if committed == writer.current_index {
            (committed + 1) % writer.entry_count
        } else {
            writer.current_index
        },
{
    let pb = writer.payload_bytes;
    let n = writer.entry_count;
    let seq = (writer.last_entry_seq + 1) as i64;
    let t = put_seq(s, pb, committed, seq);
    lemma_put_seq(s, pb, n, committed, seq);
    lemma_newest_is_last(s, t, pb, n, log, committed, resumed.last_entry_seq);
    lemma_small_mod(writer.current_index as nat, n as nat);
    assert(slot_holds(
        seqs(s, pb, n)[writer.current_index],
        payloads(s, pb, n)[writer.current_index],
        log,
    ));
}

/// A writer that died between persisting the write index and the watermark is
/// recovered from in full.
pub proof fn lemma_crash_before_watermark_is_recovered(
    writer: WriterState,
    s: Seq<u8>,
    log: Seq<Seq<u8>>,
    committed: int,
    header: Header,
    resumed: WriterState,
)
    requires
        wrote(writer, s, log),
        log.len() < i64::MAX,
        0 <= committed < writer.entry_count,
        same_ring(writer, resumed),
        recovered(
            put_word(
                put_seq(
                    s,
                    writer.payload_bytes,
                    committed,
                    (writer.last_entry_seq + 1) as i64,
                ),
                OFF_WRITE_INDEX as int,
                ((committed + 1) % writer.entry_count) as u64,
            ),
            header,
            resumed,
        ),
    ensures
        resumed == writer.after(committed),
{
    let pb = writer.payload_bytes;
    let n = writer.entry_count;
    let seq = (writer.last_entry_seq + 1) as i64;
    let next = (committed + 1) % n;
    let t = put_seq(s, pb, committed, seq);
    lemma_put_seq(s, pb, n, committed, seq);
    lemma_put_header(t, pb, n, OFF_WRITE_INDEX as int, next as u64);
    let u = put_word(t, OFF_WRITE_INDEX as int, next as u64);
    lemma_newest_is_last(s, u, pb, n, log, committed, resumed.last_entry_seq);
    lemma_addressable(pb, n);
    lemma_small_mod(next as nat, n as nat);
    assert(slot_holds(seqs(s, pb, n)[next], payloads(s, pb, n)[next], log));
    if n == 1 {
        assert(next == 0 && committed == 0);
    } else {
        if committed + 1 < n {
            lemma_small_mod((committed + 1) as nat, n as nat);
        } else {
            lemma_mod_self_0(n);
        }
        assert(next != committed);
    }
}

/// An entry committed on top of the log is the newest that recovery sees.
proof fn lemma_newest_is_last(
    s: Seq<u8>,
    t: Seq<u8>,
    pb: int,
    n: int,
    log: Seq<Seq<u8>>,
    committed: int,
    last: u64,
)
    requires
        holds_log(s, pb, n, log),
        log.len() < i64::MAX,
        0 <= committed < n,
        seqs(t, pb, n) == seqs(s, pb, n).update(committed, (log.len() + 1) as i64),
        is_newest(seqs(t, pb, n), log.len() as u64, last),
    ensures
        last == log.len() + 1,
{
    let words = seqs(t, pb, n);
    assert(magnitude(words[committed]) == log.len() + 1);
    if last != log.len() + 1 {
        let i = choose|i: int| 0 <= i < words.len() && magnitude(#[trigger] words[i]) == last;
        assert(slot_holds(seqs(s, pb, n)[i], payloads(s, pb, n)[i], log));
    }
}

} // verus!
