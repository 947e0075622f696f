//! The log of a channel: the entries written so far, and where they are.

use vstd::prelude::*;

use crate::element::{
    decoding_of, encoding_of, lemma_decode_encoding_of, lemma_encoding_of, Element,
};
use crate::header::{header_image, lemma_header_image};
use crate::metadata::{
    lemma_addressable, lemma_slot_bounds, slot_at, Dtype, OFF_LAST_ENTRY_SEQ, OFF_WRITE_INDEX,
};
use crate::reader::{is_newer, is_oldest, Entry, ReaderState};
use crate::ring::{
    lemma_put_header, lemma_put_payload, lemma_put_seq, payload_at, payloads, put_payload, put_seq,
    ring_fits, seq_at, seqs,
};
use crate::segment::{lemma_put_word_same, lemma_unsigned_word, put_word, word_at};
use crate::writer::{
    all_held, free_slot, lemma_claim_fails, lemma_free_slot, lemma_published, lemma_written,
    magnitude, published, ring_index, written, WriterState,
};

verus! {

/// What slot contents mean: entry number `s` of the log sits, whole, in the
/// slot whose control word is `s` or, while a reader holds it, `-s`.
pub open spec fn slot_holds(word: i64, payload: Seq<u8>, log: Seq<Seq<u8>>) -> bool {
    &&& magnitude(word) <= log.len()
    &&& word != 0 ==> payload == log[magnitude(word) - 1]
}

/// The segment bytes `s` hold (the surviving part of) the log: every slot that
/// is not empty carries the entry its control word names, no entry is in two
/// slots, and the header promises as many entries as were written.
pub open spec fn holds_log(
    s: Seq<u8>,
    payload_bytes: int,
    entry_count: int,
    log: Seq<Seq<u8>>,
) -> bool {
    &&& ring_fits(s, payload_bytes, entry_count)
    &&& log.len() <= i64::MAX
    &&& word_at(s, OFF_LAST_ENTRY_SEQ as int) == log.len()
    &&& forall|i: int|
        0 <= i < entry_count ==> slot_holds(
            #[trigger] seqs(s, payload_bytes, entry_count)[i],
            payloads(s, payload_bytes, entry_count)[i],
            log,
        )
    &&& forall|i: int, j: int|
        0 <= i < entry_count && 0 <= j < entry_count && i != j && magnitude(
            #[trigger] seqs(s, payload_bytes, entry_count)[i],
        ) == magnitude(#[trigger] seqs(s, payload_bytes, entry_count)[j]) ==> seqs(
            s,
            payload_bytes,
            entry_count,
        )[i] == 0
}

/// The writer is the one that wrote the log.
pub open spec fn wrote(writer: WriterState, s: Seq<u8>, log: Seq<Seq<u8>>) -> bool {
    &&& writer.wf()
    &&& writer.last_entry_seq == log.len()
    &&& holds_log(s, writer.payload_bytes, writer.entry_count, log)
}

/// A freshly initialized segment holds the empty log.
pub proof fn lemma_fresh_log(
    s: Seq<u8>,
    payload_bytes: usize,
    entry_count: usize,
    dtype: Dtype,
    owner_pid: u64,
)
    requires
        ring_fits(s, payload_bytes as int, entry_count as int),
    ensures
        holds_log(
            header_image(s, payload_bytes, entry_count, dtype, owner_pid),
            payload_bytes as int,
            entry_count as int,
            Seq::empty(),
        ),
{
    lemma_header_image(s, payload_bytes, entry_count, dtype, owner_pid);
}

/// Writing an entry appends it to the log, under the next sequence number.
///
/// The limit on the number of entries is that of the signed control word.
pub proof fn lemma_write_appends(
    writer: WriterState,
    s: Seq<u8>,
    log: Seq<Seq<u8>>,
    index: int,
    data: Seq<u8>,
)
    requires
        wrote(writer, s, log),
        log.len() < i64::MAX,
        writer.target(s) == Some(index),
        data.len() == writer.payload_bytes,
    ensures
        wrote(
            writer.after(index),
            written(
                s,
                writer.payload_bytes,
                writer.entry_count,
                index,
                data,
                (writer.last_entry_seq + 1) as u64,
            ),
            log.push(data),
        ),
{
    let pb = writer.payload_bytes;
    let n = writer.entry_count;
    let seq = (writer.last_entry_seq + 1) as u64;
    let t = written(s, pb, n, index, data, seq);
    lemma_free_slot(writer.words(s), writer.current_index, 0);
    lemma_written(s, pb, n, index, data, seq);
    let log2 = log.push(data);
    assert forall|i: int| 0 <= i < n implies slot_holds(
        #[trigger] seqs(t, pb, n)[i],
        payloads(t, pb, n)[i],
        log2,
    ) by {
        assert(slot_holds(seqs(s, pb, n)[i], payloads(s, pb, n)[i], log));
    }
    assert forall|i: int, j: int|
        0 <= i < n && 0 <= j < n && i != j && magnitude(#[trigger] seqs(t, pb, n)[i]) == magnitude(
            #[trigger] seqs(t, pb, n)[j],
        ) implies seqs(t, pb, n)[i] == 0 by {
        assert(slot_holds(seqs(s, pb, n)[i], payloads(s, pb, n)[i], log));
        assert(slot_holds(seqs(s, pb, n)[j], payloads(s, pb, n)[j], log));
    }
}

/// Claiming a slot, as a zero-copy write does first, keeps the log.
pub proof fn lemma_claim_keeps_log(writer: WriterState, s: Seq<u8>, log: Seq<Seq<u8>>, index: int)
    requires
        wrote(writer, s, log),
        writer.target(s) == Some(index),
    ensures
        wrote(writer, put_seq(s, writer.payload_bytes, index, 0), log),
        seqs(
            put_seq(s, writer.payload_bytes, index, 0),
            writer.payload_bytes,
            writer.entry_count,
        )[index] == 0,
{
    let pb = writer.payload_bytes;
    let n = writer.entry_count;
    lemma_free_slot(writer.words(s), writer.current_index, 0);
    lemma_put_seq(s, pb, n, index, 0);
    lemma_empty_slot_keeps_log(s, put_seq(s, pb, index, 0), pb, n, log, index);
}

/// Emptying a slot, or changing the payload of an empty one, keeps the log.
proof fn lemma_empty_slot_keeps_log(
    s: Seq<u8>,
    t: Seq<u8>,
    pb: int,
    n: int,
    log: Seq<Seq<u8>>,
    index: int,
)
    requires
        holds_log(s, pb, n, log),
        0 <= index < n,
        ring_fits(t, pb, n),
        word_at(t, OFF_LAST_ENTRY_SEQ as int) == word_at(s, OFF_LAST_ENTRY_SEQ as int),
        seqs(t, pb, n) == seqs(s, pb, n).update(index, 0),
        forall|i: int|
            0 <= i < n && i != index ==> #[trigger] payloads(t, pb, n)[i] == payloads(s, pb, n)[i],
    ensures
        holds_log(t, pb, n, log),
{
    assert forall|i: int| 0 <= i < n implies slot_holds(
        #[trigger] seqs(t, pb, n)[i],
        payloads(t, pb, n)[i],
        log,
    ) by {
        assert(slot_holds(seqs(s, pb, n)[i], payloads(s, pb, n)[i], log));
    }
    assert forall|i: int, j: int|
        0 <= i < n && 0 <= j < n && i != j && magnitude(#[trigger] seqs(t, pb, n)[i]) == magnitude(
            #[trigger] seqs(t, pb, n)[j],
        ) implies seqs(t, pb, n)[i] == 0 by {
        if i != index && j != index {
            assert(magnitude(seqs(s, pb, n)[i]) == magnitude(seqs(s, pb, n)[j]));
        }
    }
}

/// Filling a claimed slot, in any number of steps, keeps the log.
pub proof fn lemma_fill_keeps_log(
    s: Seq<u8>,
    payload_bytes: int,
    entry_count: int,
    log: Seq<Seq<u8>>,
    index: int,
    data: Seq<u8>,
)
    requires
        holds_log(s, payload_bytes, entry_count, log),
        0 <= index < entry_count,
        seqs(s, payload_bytes, entry_count)[index] == 0,
        data.len() == payload_bytes,
    ensures
        holds_log(put_payload(s, payload_bytes, index, data), payload_bytes, entry_count, log),
{
    let t = put_payload(s, payload_bytes, index, data);
    lemma_put_payload(s, payload_bytes, entry_count, index, data);
    assert(seqs(s, payload_bytes, entry_count) =~= seqs(s, payload_bytes, entry_count).update(
        index,
        0,
    ));
    lemma_empty_slot_keeps_log(s, t, payload_bytes, entry_count, log, index);
}

/// Committing a claimed slot appends its payload to the log.
pub proof fn lemma_commit_appends(writer: WriterState, s: Seq<u8>, log: Seq<Seq<u8>>, index: int)
    requires
        wrote(writer, s, log),
        log.len() < i64::MAX,
        0 <= index < writer.entry_count,
    ensures
        wrote(
            writer.after(index),
            published(
                s,
                writer.payload_bytes,
                writer.entry_count,
                index,
                (writer.last_entry_seq + 1) as u64,
            ),
            log.push(payload_at(s, writer.payload_bytes, index)),
        ),
{
    let pb = writer.payload_bytes;
    let n = writer.entry_count;
    let seq = (writer.last_entry_seq + 1) as u64;
    let t = published(s, pb, n, index, seq);
    lemma_published(s, pb, n, index, seq);
    let log2 = log.push(payload_at(s, pb, index));
    assert(payloads(s, pb, n)[index] == payload_at(s, pb, index));
    assert forall|i: int| 0 <= i < n implies slot_holds(
        #[trigger] seqs(t, pb, n)[i],
        payloads(t, pb, n)[i],
        log2,
    ) by {
        assert(slot_holds(seqs(s, pb, n)[i], payloads(s, pb, n)[i], log));
    }
    assert forall|i: int, j: int|
        0 <= i < n && 0 <= j < n && i != j && magnitude(#[trigger] seqs(t, pb, n)[i]) == magnitude(
            #[trigger] seqs(t, pb, n)[j],
        ) implies seqs(t, pb, n)[i] == 0 by {
        assert(slot_holds(seqs(s, pb, n)[i], payloads(s, pb, n)[i], log));
        assert(slot_holds(seqs(s, pb, n)[j], payloads(s, pb, n)[j], log));
    }
}

/// Pinning an entry, or releasing a pinned one, keeps the log.
pub proof fn lemma_pin_keeps_log(
    s: Seq<u8>,
    payload_bytes: int,
    entry_count: int,
    log: Seq<Seq<u8>>,
    index: int,
)
    requires
        holds_log(s, payload_bytes, entry_count, log),
        0 <= index < entry_count,
    ensures
        holds_log(
            put_seq(
                s,
                payload_bytes,
                index,
                (-seqs(s, payload_bytes, entry_count)[index]) as i64,
            ),
            payload_bytes,
            entry_count,
            log,
        ),
{
    let pb = payload_bytes;
    let n = entry_count;
    let v = (-seqs(s, pb, n)[index]) as i64;
    let t = put_seq(s, pb, index, v);
    lemma_put_seq(s, pb, n, index, v);
    assert(slot_holds(seqs(s, pb, n)[index], payloads(s, pb, n)[index], log));
    assert forall|i: int| 0 <= i < n implies slot_holds(
        #[trigger] seqs(t, pb, n)[i],
        payloads(t, pb, n)[i],
        log,
    ) by {
        assert(slot_holds(seqs(s, pb, n)[i], payloads(s, pb, n)[i], log));
    }
    assert forall|i: int, j: int|
        0 <= i < n && 0 <= j < n && i != j && magnitude(#[trigger] seqs(t, pb, n)[i]) == magnitude(
            #[trigger] seqs(t, pb, n)[j],
        ) implies seqs(t, pb, n)[i] == 0 by {
        assert(magnitude(seqs(s, pb, n)[i]) == magnitude(seqs(s, pb, n)[j]));
    }
}

/// A read gives back what was written: the entry found is one of the log, newer
/// than the watermark, and its payload is exactly the data that was written
/// under its sequence number.
pub proof fn lemma_read_gives_what_was_written(
    reader: ReaderState,
    s: Seq<u8>,
    log: Seq<Seq<u8>>,
    from_entry_seq: Option<u64>,
    found: Entry,
)
    requires
        reader.wf(),
        holds_log(s, reader.payload_bytes, reader.entry_count, log),
        reader.finds(s, from_entry_seq, Some(found)),
    ensures
        reader.effective(from_entry_seq) < found.entry_seq <= log.len(),
        found.index < reader.entry_count,
        payload_at(s, reader.payload_bytes, found.index as int) == log[found.entry_seq - 1],
{
    let pb = reader.payload_bytes;
    let n = reader.entry_count;
    let words = reader.words(s);
    let probe = (reader.last_read_idx + 1) % n;
    assert(0 <= probe < n);
    lemma_addressable(pb, n);
    assert(payload_at(s, pb, found.index as int) == payloads(s, pb, n)[found.index as int]);
    assert(slot_holds(words[found.index as int], payloads(s, pb, n)[found.index as int], log));
}

/// A reader that has seen every earlier entry reads the entry just written: the
/// same elements, under the sequence number that the writer assigned.
pub proof fn lemma_round_trip<T: Element>(
    writer: WriterState,
    reader: ReaderState,
    s: Seq<u8>,
    log: Seq<Seq<u8>>,
    index: int,
    data: Seq<T>,
    from_entry_seq: Option<u64>,
    found: Option<Entry>,
)
    requires
        wrote(writer, s, log),
        log.len() < i64::MAX,
        writer.target(s) == Some(index),
        T::width() > 0,
        data.len() * T::width() == writer.payload_bytes,
        reader.wf(),
        reader.payload_bytes == writer.payload_bytes,
        reader.entry_count == writer.entry_count,
        reader.effective(from_entry_seq) == log.len(),
        reader.finds(
            written(
                s,
                writer.payload_bytes,
                writer.entry_count,
                index,
                encoding_of(data),
                (writer.last_entry_seq + 1) as u64,
            ),
            from_entry_seq,
            found,
        ),
    ensures
        found == Some(
            Entry { index: index as usize, entry_seq: (writer.last_entry_seq + 1) as u64 },
        ),
        decoding_of::<T>(
            payload_at(
                written(
                    s,
                    writer.payload_bytes,
                    writer.entry_count,
                    index,
                    encoding_of(data),
                    (writer.last_entry_seq + 1) as u64,
                ),
                writer.payload_bytes,
                index,
            ),
        ) == data,
{
    let pb = writer.payload_bytes;
    let n = writer.entry_count;
    let seq = (writer.last_entry_seq + 1) as u64;
    lemma_encoding_of(data);
    lemma_decode_encoding_of(data);
    lemma_free_slot(writer.words(s), writer.current_index, 0);
    let t = written(s, pb, n, index, encoding_of(data), seq);
    lemma_written(s, pb, n, index, encoding_of(data), seq);
    let words = seqs(t, pb, n);
    assert(payloads(t, pb, n)[index] == payload_at(t, pb, index));
    assert(words[index] == seq as i64);
    assert(is_newer(words[index], reader.effective(from_entry_seq)));
    assert forall|i: int| 0 <= i < n && i != index implies !is_newer(
        #[trigger] words[i],
        reader.effective(from_entry_seq),
    ) by {
        assert(slot_holds(seqs(s, pb, n)[i], payloads(s, pb, n)[i], log));
    }
    lemma_addressable(pb, n);
}

/// Reads advance: whatever is found is newer than the watermark in force.
pub proof fn lemma_reads_advance(
    reader: ReaderState,
    s: Seq<u8>,
    from_entry_seq: Option<u64>,
    found: Entry,
)
    requires
        reader.fits(s),
        reader.finds(s, from_entry_seq, Some(found)),
    ensures
        found.entry_seq > reader.effective(from_entry_seq),
        reader.after(found).effective(None) > reader.effective(from_entry_seq),
{
    assert(0 <= (reader.last_read_idx + 1) % reader.entry_count < reader.entry_count);
}

/// A read returns the oldest entry it may: no committed, unheld entry newer
/// than the watermark is older than the one found.
pub proof fn lemma_reads_oldest(
    reader: ReaderState,
    s: Seq<u8>,
    from_entry_seq: Option<u64>,
    found: Entry,
    i: int,
)
    requires
        reader.fits(s),
        reader.finds(s, from_entry_seq, Some(found)),
        0 <= i < reader.entry_count,
        is_newer(reader.words(s)[i], reader.effective(from_entry_seq)),
    ensures
        found.entry_seq <= reader.words(s)[i],
{
    assert(0 <= (reader.last_read_idx + 1) % reader.entry_count < reader.entry_count);
}

/// The header answers "is there anything newer?": a read that finds the header
/// promising nothing newer than the watermark has missed nothing.
pub proof fn lemma_up_to_date(
    s: Seq<u8>,
    payload_bytes: int,
    entry_count: int,
    log: Seq<Seq<u8>>,
    watermark: u64,
)
    requires
        holds_log(s, payload_bytes, entry_count, log),
        word_at(s, OFF_LAST_ENTRY_SEQ as int) <= watermark,
    ensures
        is_oldest(seqs(s, payload_bytes, entry_count), watermark, None),
{
    assert forall|i: int| 0 <= i < entry_count implies !is_newer(
        #[trigger] seqs(s, payload_bytes, entry_count)[i],
        watermark,
    ) by {
        assert(slot_holds(
            seqs(s, payload_bytes, entry_count)[i],
            payloads(s, payload_bytes, entry_count)[i],
            log,
        ));
    }
}

/// A slot that a reader holds survives a write: its control word and payload
/// stay as they are.
pub proof fn lemma_held_slot_survives_write(
    writer: WriterState,
    s: Seq<u8>,
    index: int,
    data: Seq<u8>,
    held: int,
)
    requires
        writer.fits(s),
        writer.target(s) == Some(index),
        data.len() == writer.payload_bytes,
        0 <= held < writer.entry_count,
        writer.words(s)[held] < 0,
    ensures
        ({
            let t = written(
                s,
                writer.payload_bytes,
                writer.entry_count,
                index,
                data,
                (writer.last_entry_seq + 1) as u64,
            );
            &&& writer.words(t)[held] == writer.words(s)[held]
            &&& payload_at(t, writer.payload_bytes, held) == payload_at(
                s,
                writer.payload_bytes,
                held,
            )
        }),
{
    let pb = writer.payload_bytes;
    let n = writer.entry_count;
    let seq = (writer.last_entry_seq + 1) as u64;
    lemma_free_slot(writer.words(s), writer.current_index, 0);
    lemma_written(s, pb, n, index, data, seq);
    let t = written(s, pb, n, index, data, seq);
    assert(payloads(t, pb, n)[held] == payloads(s, pb, n)[held]);
}

/// A writer always finds a slot unless a reader holds them all.
pub proof fn lemma_busy_only_when_all_held(writer: WriterState, s: Seq<u8>)
    requires
        writer.fits(s),
    ensures
        writer.target(s) is None <==> all_held(writer.words(s)),
{
    lemma_claim_fails(writer.words(s), writer.current_index);
}

/// Releasing a pinned entry undoes pinning it, to the byte.
pub proof fn lemma_release_undoes_acquire(
    s: Seq<u8>,
    payload_bytes: int,
    entry_count: int,
    index: int,
    seq: u64,
)
    requires
        ring_fits(s, payload_bytes, entry_count),
        0 <= index < entry_count,
        seq_at(s, payload_bytes, index) == seq,
    ensures
        put_seq(
            put_seq(s, payload_bytes, index, (-(seq as i64)) as i64),
            payload_bytes,
            index,
            seq as i64,
        ) == s,
{
    let at = slot_at(payload_bytes, index);
    let pinned = (-(seq as i64)) as i64;
    lemma_slot_bounds(payload_bytes, entry_count, index);
    lemma_unsigned_word(word_at(s, at));
    lemma_put_word_same(s, at);
    assert(put_word(put_word(s, at, pinned as u64), at, word_at(s, at)) =~= put_word(
        s,
        at,
        word_at(s, at),
    )) by {
        vstd::bytes::lemma_auto_spec_u64_to_from_le_bytes();
    }
}

/// A slot that was claimed and abandoned is the one that the next write claims.
pub proof fn lemma_abandoned_slot_is_reclaimed(writer: WriterState, s: Seq<u8>, index: int)
    requires
        writer.fits(s),
        writer.target(s) == Some(index),
    ensures
        writer.target(put_seq(s, writer.payload_bytes, index, 0)) == Some(index),
{
    let pb = writer.payload_bytes;
    let n = writer.entry_count;
    lemma_free_slot(writer.words(s), writer.current_index, 0);
    lemma_put_seq(s, pb, n, index, 0);
    lemma_free_slot_stable(writer.words(s), writer.current_index, 0, index);
}

/// Emptying the free slot that a claim finds does not change what it finds.
proof fn lemma_free_slot_stable(words: Seq<i64>, start: int, tried: int, index: int)
    requires
        0 < words.len(),
        0 <= start,
        0 <= tried <= words.len(),
        0 <= index < words.len(),
        free_slot(words, start, tried) == Some(index),
    ensures
        free_slot(words.update(index, 0), start, tried) == Some(index),
    decreases words.len() - tried,
{
    let idx = ring_index(start, tried, words.len() as int);
    assert(0 <= idx < words.len());
    if words[idx] < 0 {
        lemma_free_slot_stable(words, start, tried + 1, index);
    }
}

/// A slot that is being written, or that a reader holds, is never read.
pub proof fn lemma_uncommitted_is_invisible(
    reader: ReaderState,
    s: Seq<u8>,
    from_entry_seq: Option<u64>,
    found: Entry,
    index: int,
)
    requires
        reader.fits(s),
        0 <= index < reader.entry_count,
        reader.words(s)[index] <= 0,
        reader.finds(s, from_entry_seq, Some(found)),
    ensures
        found.index != index,
{
    lemma_addressable(reader.payload_bytes, reader.entry_count);
    assert(0 <= (reader.last_read_idx + 1) % reader.entry_count < reader.entry_count);
}

/// The header never promises more than the ring holds: of the three stores that
/// publish a slot, the watermark comes last, and when it lands the slot already
/// carries the entry it promises. Until then the old promise stands.
pub proof fn lemma_promise_follows_commitment(
    writer: WriterState,
    s: Seq<u8>,
    log: Seq<Seq<u8>>,
    index: int,
)
    requires
        wrote(writer, s, log),
        log.len() < i64::MAX,
        0 <= index < writer.entry_count,
    ensures
        ({
            let seq = (writer.last_entry_seq + 1) as u64;
            let wi = ((index + 1) % writer.entry_count) as u64;
            let t = put_seq(s, writer.payload_bytes, index, seq as i64);
            let u = put_word(t, OFF_WRITE_INDEX as int, wi);
            let v = put_word(u, OFF_LAST_ENTRY_SEQ as int, seq);
            &&& word_at(t, OFF_LAST_ENTRY_SEQ as int) == log.len()
            &&& word_at(u, OFF_LAST_ENTRY_SEQ as int) == log.len()
            &&& writer.words(u)[index] == seq
            &&& word_at(v, OFF_LAST_ENTRY_SEQ as int) == seq
            &&& writer.words(v)[index] == seq
            &&& v == published(s, writer.payload_bytes, writer.entry_count, index, seq)
        }),
{
    let pb = writer.payload_bytes;
    let n = writer.entry_count;
    let seq = (writer.last_entry_seq + 1) as u64;
    let wi = ((index + 1) % n) as u64;
    let t = put_seq(s, pb, index, seq as i64);
    let u = put_word(t, OFF_WRITE_INDEX as int, wi);
    lemma_put_seq(s, pb, n, index, seq as i64);
    lemma_put_header(t, pb, n, OFF_WRITE_INDEX as int, wi);
    lemma_put_header(u, pb, n, OFF_LAST_ENTRY_SEQ as int, seq);
}

} // verus!
