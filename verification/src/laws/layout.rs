//! Where every byte of a segment is, in plain numbers.

use vstd::arithmetic::div_mod::{lemma_mod_self_0, lemma_small_mod};
use vstd::bytes::{
    lemma_auto_spec_u64_to_from_le_bytes, spec_u64_to_le_bytes, spec_u64_to_le_bytes_to_open,
};
use vstd::prelude::*;

use crate::header::{apply_stores, header_image, lemma_header_image};
use crate::metadata::{lemma_slot_bounds, segment_bytes, slot_at, slot_bytes, Dtype};
use crate::reader::ReaderState;
use crate::ring::{payload_at, payloads, put_payload, put_seq, ring_fits, seq_at, seqs};
use crate::segment::{
    lemma_put_word_hit, lemma_signed_word, lemma_unsigned_word, put_word, splice, word_at,
};
use crate::writer::{lemma_published, published, written, WriterState};
use crate::zerocopy::{ReadHandle, WriteHandle};

verus! {

/// A word of a segment is its eight bytes, the least significant first.
pub proof fn lemma_words_are_little_endian(s: Seq<u8>, off: int)
    requires
        0 <= off,
        off + 8 <= s.len(),
    ensures
        word_at(s, off) == s[off] + 0x100 * (s[off + 1] + 0x100 * (s[off + 2] + 0x100 * (s[off + 3]
            + 0x100 * (s[off + 4] + 0x100 * (s[off + 5] + 0x100 * (s[off + 6] + 0x100 * s[off
            + 7])))))),
{
    let x = word_at(s, off);
    let bytes = s.subrange(off, off + 8);
    lemma_auto_spec_u64_to_from_le_bytes();
    spec_u64_to_le_bytes_to_open(x);
    assert(spec_u64_to_le_bytes(x) == bytes);
    assert(s[off] == bytes[0] && s[off + 1] == bytes[1] && s[off + 2] == bytes[2] && s[off + 3]
        == bytes[3] && s[off + 4] == bytes[4] && s[off + 5] == bytes[5] && s[off + 6] == bytes[6]
        && s[off + 7] == bytes[7]);
    assert((x & 0xff) < 256 && ((x >> 8) & 0xff) < 256 && ((x >> 16) & 0xff) < 256 && ((x >> 24)
        & 0xff) < 256 && ((x >> 32) & 0xff) < 256 && ((x >> 40) & 0xff) < 256 && ((x >> 48) & 0xff)
        < 256 && ((x >> 56) & 0xff) < 256) by (bit_vector);
    assert(x == (x & 0xff) + 0x100 * ((x >> 8) & 0xff) + 0x1_0000 * ((x >> 16) & 0xff) + 0x100_0000
        * ((x >> 24) & 0xff) + 0x1_0000_0000 * ((x >> 32) & 0xff) + 0x100_0000_0000 * ((x >> 40)
        & 0xff) + 0x1_0000_0000_0000 * ((x >> 48) & 0xff) + 0x100_0000_0000_0000 * ((x >> 56)
        & 0xff)) by (bit_vector);
}

/// Storing a word changes its eight bytes and no other.
pub proof fn lemma_store_changes_one_word(s: Seq<u8>, off: int, v: u64)
    requires
        0 <= off,
        off + 8 <= s.len(),
    ensures
        put_word(s, off, v).len() == s.len(),
        word_at(put_word(s, off, v), off) == v,
        forall|k: int|
            0 <= k < s.len() && !(off <= k < off + 8) ==> #[trigger] put_word(s, off, v)[k] == s[k],
{
    lemma_put_word_hit(s, off, v);
    lemma_auto_spec_u64_to_from_le_bytes();
}

/// Replacing a run of bytes changes those bytes and no other.
pub proof fn lemma_copy_changes_one_run(s: Seq<u8>, off: int, data: Seq<u8>)
    requires
        0 <= off,
        off + data.len() <= s.len(),
    ensures
        splice(s, off, data).len() == s.len(),
        forall|k: int|
            0 <= k < s.len() ==> #[trigger] splice(s, off, data)[k] == if off <= k < off
                + data.len() {
                data[k - off]
            } else {
                s[k]
            },
{
}

/// A segment is a header of 72 bytes and, for every slot, a control word of 8
/// bytes and the payload.
pub proof fn lemma_segment_size(s: Seq<u8>, payload_bytes: int, entry_count: int)
    ensures
        slot_bytes(payload_bytes) == 8 + payload_bytes,
        segment_bytes(payload_bytes, entry_count) == 72 + entry_count * (8 + payload_bytes),
        ring_fits(s, payload_bytes, entry_count) <==> 0 <= payload_bytes && 0 < entry_count && 72
            + entry_count * (8 + payload_bytes) <= s.len(),
{
}

/// Slot `i` starts `i` slots behind the header, with its control word; the
/// payload follows it.
pub proof fn lemma_slot_position(s: Seq<u8>, payload_bytes: int, entry_count: int, i: int)
    requires
        ring_fits(s, payload_bytes, entry_count),
        0 <= i < entry_count,
    ensures
        ({
            let at = 72 + i * (8 + payload_bytes);
            &&& 72 <= at
            &&& at + 8 + payload_bytes <= s.len()
            &&& slot_at(payload_bytes, i) == at
            &&& seq_at(s, payload_bytes, i) == word_at(s, at) as i64
            &&& seqs(s, payload_bytes, entry_count).len() == entry_count
            &&& seqs(s, payload_bytes, entry_count)[i] == word_at(s, at) as i64
            &&& payload_at(s, payload_bytes, i).len() == payload_bytes
            &&& payloads(s, payload_bytes, entry_count)[i] == payload_at(s, payload_bytes, i)
            &&& forall|k: int|
                0 <= k < payload_bytes ==> #[trigger] payload_at(s, payload_bytes, i)[k] == s[at + 8
                    + k]
        }),
{
    lemma_slot_bounds(payload_bytes, entry_count, i);
}

/// A writer works on every ring that can be addressed, from any of its slots,
/// whatever was written before.
pub proof fn lemma_writer_works_on_every_ring(writer: WriterState, s: Seq<u8>)
    ensures
        writer.wf() <==> 0 <= writer.payload_bytes && 0 <= writer.current_index
            < writer.entry_count && 72 + writer.entry_count * (8 + writer.payload_bytes)
            <= usize::MAX,
        writer.fits(s) <==> writer.wf() && 72 + writer.entry_count * (8 + writer.payload_bytes)
            <= s.len(),
{
}

/// So does a reader.
pub proof fn lemma_reader_works_on_every_ring(reader: ReaderState, s: Seq<u8>)
    ensures
        reader.wf() <==> 0 <= reader.payload_bytes && 0 <= reader.last_read_idx
            < reader.entry_count && 72 + reader.entry_count * (8 + reader.payload_bytes)
            <= usize::MAX,
        reader.fits(s) <==> reader.wf() && 72 + reader.entry_count * (8 + reader.payload_bytes)
            <= s.len(),
{
}

/// Setting a control word changes the first eight bytes of the slot and nothing
/// else in the segment.
pub proof fn lemma_pin_changes_one_word(
    s: Seq<u8>,
    payload_bytes: int,
    entry_count: int,
    index: int,
    v: i64,
)
    requires
        ring_fits(s, payload_bytes, entry_count),
        0 <= index < entry_count,
    ensures
        ({
            let t = put_seq(s, payload_bytes, index, v);
            let at = 72 + index * (8 + payload_bytes);
            &&& t.len() == s.len()
            &&& word_at(t, at) as i64 == v
            &&& forall|k: int|
                0 <= k < s.len() && !(at <= k < at + 8) ==> #[trigger] t[k] == s[k]
        }),
{
    let at = 72 + index * (8 + payload_bytes);
    lemma_slot_position(s, payload_bytes, entry_count, index);
    lemma_store_changes_one_word(s, at, v as u64);
    lemma_signed_word(v);
}

/// Filling a slot changes the payload of the slot and nothing else in the
/// segment.
pub proof fn lemma_fill_changes_one_payload(
    s: Seq<u8>,
    payload_bytes: int,
    entry_count: int,
    index: int,
    data: Seq<u8>,
)
    requires
        ring_fits(s, payload_bytes, entry_count),
        0 <= index < entry_count,
        data.len() == payload_bytes,
    ensures
        ({
            let t = put_payload(s, payload_bytes, index, data);
            let at = 72 + index * (8 + payload_bytes);
            &&& t.len() == s.len()
            &&& forall|k: int|
                0 <= k < s.len() ==> #[trigger] t[k] == if at + 8 <= k < at + 8 + payload_bytes {
                    data[k - at - 8]
                } else {
                    s[k]
                }
        }),
{
    lemma_slot_position(s, payload_bytes, entry_count, index);
}

/// Publishing a slot stores the sequence number in the slot and in the header,
/// and the slot that follows, going round, in the header. Every other byte of
/// the segment stays as it is.
pub proof fn lemma_publish_changes_three_words(
    s: Seq<u8>,
    payload_bytes: int,
    entry_count: int,
    index: int,
    seq: u64,
)
    requires
        ring_fits(s, payload_bytes, entry_count),
        0 <= index < entry_count <= u64::MAX,
    ensures
        ({
            let t = published(s, payload_bytes, entry_count, index, seq);
            let at = 72 + index * (8 + payload_bytes);
            &&& t.len() == s.len()
            &&& word_at(t, at) == seq
            &&& word_at(t, 56) == if index + 1 == entry_count {
                0
            } else {
                index + 1
            }
            &&& word_at(t, 64) == seq
            &&& forall|k: int|
                0 <= k < s.len() && !(at <= k < at + 8) && !(56 <= k < 72) ==> #[trigger] t[k]
                    == s[k]
        }),
{
    let t = published(s, payload_bytes, entry_count, index, seq);
    let at = 72 + index * (8 + payload_bytes);
    lemma_slot_position(s, payload_bytes, entry_count, index);
    lemma_published(s, payload_bytes, entry_count, index, seq);
    lemma_slot_position(t, payload_bytes, entry_count, index);
    lemma_unsigned_word(word_at(t, at));
    lemma_unsigned_word(seq);
    if index + 1 == entry_count {
        lemma_mod_self_0(entry_count);
    } else {
        lemma_small_mod((index + 1) as nat, entry_count as nat);
    }
    lemma_auto_spec_u64_to_from_le_bytes();
}

/// Writing an entry puts the data into the slot and publishes it. Every other
/// byte of the segment stays as it is.
pub proof fn lemma_write_changes_one_slot(
    s: Seq<u8>,
    payload_bytes: int,
    entry_count: int,
    index: int,
    data: Seq<u8>,
    seq: u64,
)
    requires
        ring_fits(s, payload_bytes, entry_count),
        0 <= index < entry_count <= u64::MAX,
        data.len() == payload_bytes,
    ensures
        ({
            let t = written(s, payload_bytes, entry_count, index, data, seq);
            let at = 72 + index * (8 + payload_bytes);
            &&& t.len() == s.len()
            &&& word_at(t, at) == seq
            &&& t.subrange(at + 8, at + 8 + payload_bytes) == data
            &&& word_at(t, 56) == if index + 1 == entry_count {
                0
            } else {
                index + 1
            }
            &&& word_at(t, 64) == seq
            &&& forall|k: int|
                0 <= k < s.len() && !(at <= k < at + 8 + payload_bytes) && !(56 <= k < 72)
                    ==> #[trigger] t[k] == s[k]
        }),
{
    let s1 = put_seq(s, payload_bytes, index, 0);
    let s2 = put_payload(s1, payload_bytes, index, data);
    let t = written(s, payload_bytes, entry_count, index, data, seq);
    let at = 72 + index * (8 + payload_bytes);
    lemma_slot_position(s, payload_bytes, entry_count, index);
    lemma_pin_changes_one_word(s, payload_bytes, entry_count, index, 0);
    lemma_fill_changes_one_payload(s1, payload_bytes, entry_count, index, data);
    lemma_publish_changes_three_words(s2, payload_bytes, entry_count, index, seq);
    assert(t.subrange(at + 8, at + 8 + payload_bytes) =~= data);
}

/// A fresh segment declares the geometry and the element type it was made for,
/// belongs to its maker, and holds nothing: nobody has a role, no slot is used,
/// no entry was written. What lies behind the ring is left alone.
pub proof fn lemma_fresh_segment(
    s: Seq<u8>,
    payload_bytes: usize,
    entry_count: usize,
    dtype: Dtype,
    owner_pid: u64,
)
    requires
        ring_fits(s, payload_bytes as int, entry_count as int),
    ensures
        ({
            let t = header_image(s, payload_bytes, entry_count, dtype, owner_pid);
            let end = 72 + entry_count * (8 + payload_bytes);
            &&& t.len() == s.len()
            &&& word_at(t, 0) == 0x5A43_484E_0000_0001
            &&& word_at(t, 8) == payload_bytes
            &&& word_at(t, 16) == entry_count
            &&& word_at(t, 24) == match dtype {
                Dtype::U8 => 0u64,
                Dtype::I64 => 1,
                Dtype::F64 => 2,
            }
            &&& word_at(t, 32) == owner_pid
            &&& word_at(t, 40) == 0
            &&& word_at(t, 48) == 0
            &&& word_at(t, 56) == 0
            &&& word_at(t, 64) == 0
            &&& forall|k: int| 72 <= k < end ==> #[trigger] t[k] == 0
            &&& forall|k: int| end <= k < s.len() ==> #[trigger] t[k] == s[k]
        }),
{
    let t = header_image(s, payload_bytes, entry_count, dtype, owner_pid);
    lemma_header_image(s, payload_bytes, entry_count, dtype, owner_pid);
    lemma_slot_bounds(payload_bytes as int, entry_count as int, 0);
    lemma_auto_spec_u64_to_from_le_bytes();
    reveal_with_fuel(apply_stores, 5);
}

/// A handle on a slot gives access to exactly the payload of that slot.
pub proof fn lemma_handle_covers_the_payload(
    handle: WriteHandle,
    s: Seq<u8>,
    payload_bytes: int,
    entry_count: int,
    index: int,
)
    requires
        ring_fits(s, payload_bytes, entry_count),
        0 <= index < entry_count,
        handle.refers_to(payload_bytes, index),
    ensures
        handle.slot() == index,
        handle.start() == 72 + index * (8 + payload_bytes) + 8,
        handle.size() == payload_bytes,
        handle.within(s),
        s.subrange(handle.start(), handle.start() + handle.size()) == payload_at(
            s,
            payload_bytes,
            index,
        ),
{
    lemma_slot_position(s, payload_bytes, entry_count, index);
}

/// So does the handle of a reader, which also knows the entry.
pub proof fn lemma_read_handle_covers_the_payload(
    handle: ReadHandle,
    s: Seq<u8>,
    payload_bytes: int,
    entry_count: int,
    index: int,
    seq: u64,
)
    requires
        ring_fits(s, payload_bytes, entry_count),
        0 <= index < entry_count,
        handle.refers_to(payload_bytes, index, seq),
    ensures
        handle.slot() == index,
        handle.seq() == seq,
        handle.start() == 72 + index * (8 + payload_bytes) + 8,
        handle.size() == payload_bytes,
        handle.within(s),
        s.subrange(handle.start(), handle.start() + handle.size()) == payload_at(
            s,
            payload_bytes,
            index,
        ),
{
    lemma_slot_position(s, payload_bytes, entry_count, index);
}

} // verus!
