//! The ring of slots, as seen through the bytes of a segment.

use vstd::bytes::{lemma_auto_spec_u64_to_from_le_bytes, spec_u64_to_le_bytes};
use vstd::prelude::*;
use vstd::string::StringExecFns;

use crate::error::ZeroChannelError;
use crate::metadata::{
    lemma_slot_bounds, lemma_slots_disjoint, segment_bytes, slot_at, slot_offset, Header,
    HEADER_BYTES, SLOT_ALIGN,
};
use crate::segment::{
    lemma_put_word_frame, lemma_put_word_hit, lemma_signed_word, lemma_splice_frame,
    lemma_splice_hit, put_word, splice, word_at, Segment,
};

verus! {

/// A segment of bytes `s` is large enough for a ring of this geometry.
pub open spec fn ring_fits(s: Seq<u8>, payload_bytes: int, entry_count: int) -> bool {
    &&& 0 <= payload_bytes
    &&& 0 < entry_count
    &&& segment_bytes(payload_bytes, entry_count) <= s.len()
}

/// The control word of slot `idx`.
pub open spec fn seq_at(s: Seq<u8>, payload_bytes: int, idx: int) -> i64 {
    word_at(s, slot_at(payload_bytes, idx)) as i64
}

/// The payload of slot `idx`.
pub open spec fn payload_at(s: Seq<u8>, payload_bytes: int, idx: int) -> Seq<u8> {
    s.subrange(
        slot_at(payload_bytes, idx) + SLOT_ALIGN,
        slot_at(payload_bytes, idx) + SLOT_ALIGN + payload_bytes,
    )
}

/// The control words of all slots.
pub open spec fn seqs(s: Seq<u8>, payload_bytes: int, entry_count: int) -> Seq<i64> {
    Seq::new(entry_count as nat, |i: int| seq_at(s, payload_bytes, i))
}

/// The payloads of all slots.
pub open spec fn payloads(s: Seq<u8>, payload_bytes: int, entry_count: int) -> Seq<Seq<u8>> {
    Seq::new(entry_count as nat, |i: int| payload_at(s, payload_bytes, i))
}

/// `s` with the control word of slot `idx` set to `v`.
pub open spec fn put_seq(s: Seq<u8>, payload_bytes: int, idx: int, v: i64) -> Seq<u8> {
    put_word(s, slot_at(payload_bytes, idx), v as u64)
}

/// `s` with the payload of slot `idx` set to `data`.
pub open spec fn put_payload(s: Seq<u8>, payload_bytes: int, idx: int, data: Seq<u8>) -> Seq<u8> {
    splice(s, slot_at(payload_bytes, idx) + SLOT_ALIGN, data)
}

/// `s` and `t` agree on every header word.
pub open spec fn same_header(s: Seq<u8>, t: Seq<u8>) -> bool {
    forall|off: int|
        0 <= off && off + 8 <= HEADER_BYTES ==> #[trigger] word_at(t, off) == word_at(s, off)
}

/// Setting a control word changes that control word and nothing else.
pub proof fn lemma_put_seq(s: Seq<u8>, payload_bytes: int, entry_count: int, idx: int, v: i64)
    requires
        ring_fits(s, payload_bytes, entry_count),
        0 <= idx < entry_count,
    ensures
        ({
            let t = put_seq(s, payload_bytes, idx, v);
            &&& t.len() == s.len()
            &&& seqs(t, payload_bytes, entry_count) == seqs(s, payload_bytes, entry_count).update(
                idx,
                v,
            )
            &&& payloads(t, payload_bytes, entry_count) == payloads(s, payload_bytes, entry_count)
            &&& same_header(s, t)
        }),
{
    let t = put_seq(s, payload_bytes, idx, v);
    let at = slot_at(payload_bytes, idx);
    lemma_slot_bounds(payload_bytes, entry_count, idx);
    lemma_put_word_hit(s, at, v as u64);
    lemma_signed_word(v);
    lemma_auto_spec_u64_to_from_le_bytes();
    assert forall|i: int| 0 <= i < entry_count implies seq_at(t, payload_bytes, i) == if i == idx {
        v
    } else {
        seq_at(s, payload_bytes, i)
    } && payload_at(t, payload_bytes, i) == payload_at(s, payload_bytes, i) by {
        lemma_slot_bounds(payload_bytes, entry_count, i);
        if i < idx {
            lemma_slots_disjoint(payload_bytes, i, idx);
        } else if idx < i {
            lemma_slots_disjoint(payload_bytes, idx, i);
        }
        let p = slot_at(payload_bytes, i) + SLOT_ALIGN;
        lemma_splice_frame(s, at, spec_u64_to_le_bytes(v as u64), p, p + payload_bytes);
        if i != idx {
            lemma_put_word_frame(s, at, v as u64, slot_at(payload_bytes, i));
        }
    }
    assert(seqs(t, payload_bytes, entry_count) =~= seqs(s, payload_bytes, entry_count).update(
        idx,
        v,
    ));
    assert(payloads(t, payload_bytes, entry_count) =~= payloads(s, payload_bytes, entry_count));
    assert forall|off: int| 0 <= off && off + 8 <= HEADER_BYTES implies #[trigger] word_at(t, off)
        == word_at(s, off) by {
        lemma_put_word_frame(s, at, v as u64, off);
    }
}

/// Setting a payload changes that payload and nothing else.
pub proof fn lemma_put_payload(
    s: Seq<u8>,
    payload_bytes: int,
    entry_count: int,
    idx: int,
    data: Seq<u8>,
)
    requires
        ring_fits(s, payload_bytes, entry_count),
        0 <= idx < entry_count,
        data.len() == payload_bytes,
    ensures
        ({
            let t = put_payload(s, payload_bytes, idx, data);
            &&& t.len() == s.len()
            &&& seqs(t, payload_bytes, entry_count) == seqs(s, payload_bytes, entry_count)
            &&& payloads(t, payload_bytes, entry_count) == payloads(
                s,
                payload_bytes,
                entry_count,
            ).update(idx, data)
            &&& same_header(s, t)
        }),
{
    let t = put_payload(s, payload_bytes, idx, data);
    let at = slot_at(payload_bytes, idx) + SLOT_ALIGN;
    lemma_slot_bounds(payload_bytes, entry_count, idx);
    lemma_splice_hit(s, at, data);
    assert forall|i: int| 0 <= i < entry_count implies seq_at(t, payload_bytes, i) == seq_at(
        s,
        payload_bytes,
        i,
    ) && payload_at(t, payload_bytes, i) == if i == idx {
        data
    } else {
        payload_at(s, payload_bytes, i)
    } by {
        lemma_slot_bounds(payload_bytes, entry_count, i);
        if i < idx {
            lemma_slots_disjoint(payload_bytes, i, idx);
        } else if idx < i {
            lemma_slots_disjoint(payload_bytes, idx, i);
        }
        let w = slot_at(payload_bytes, i);
        lemma_splice_frame(s, at, data, w, w + 8);
        if i != idx {
            lemma_splice_frame(s, at, data, w + SLOT_ALIGN, w + SLOT_ALIGN + payload_bytes);
        }
    }
    assert(seqs(t, payload_bytes, entry_count) =~= seqs(s, payload_bytes, entry_count));
    assert(payloads(t, payload_bytes, entry_count) =~= payloads(
        s,
        payload_bytes,
        entry_count,
    ).update(idx, data));
    assert forall|off: int| 0 <= off && off + 8 <= HEADER_BYTES implies #[trigger] word_at(t, off)
        == word_at(s, off) by {
        lemma_splice_frame(s, at, data, off, off + 8);
    }
}

/// Setting a header word leaves the ring and the other header words alone.
pub proof fn lemma_put_header(
    s: Seq<u8>,
    payload_bytes: int,
    entry_count: int,
    off: int,
    v: u64,
)
    requires
        ring_fits(s, payload_bytes, entry_count),
        0 <= off,
        off + 8 <= HEADER_BYTES,
    ensures
        ({
            let t = put_word(s, off, v);
            &&& t.len() == s.len()
            &&& seqs(t, payload_bytes, entry_count) == seqs(s, payload_bytes, entry_count)
            &&& payloads(t, payload_bytes, entry_count) == payloads(s, payload_bytes, entry_count)
            &&& word_at(t, off) == v
            &&& forall|other: int|
                0 <= other && other + 8 <= HEADER_BYTES && (other + 8 <= off || off + 8 <= other)
                    ==> #[trigger] word_at(t, other) == word_at(s, other)
        }),
{
    let t = put_word(s, off, v);
    lemma_slot_bounds(payload_bytes, entry_count, 0);
    lemma_put_word_hit(s, off, v);
    lemma_auto_spec_u64_to_from_le_bytes();
    assert forall|i: int| 0 <= i < entry_count implies seq_at(t, payload_bytes, i) == seq_at(
        s,
        payload_bytes,
        i,
    ) && payload_at(t, payload_bytes, i) == payload_at(s, payload_bytes, i) by {
        lemma_slot_bounds(payload_bytes, entry_count, i);
        let w = slot_at(payload_bytes, i);
        lemma_put_word_frame(s, off, v, w);
        lemma_splice_frame(
            s,
            off,
            spec_u64_to_le_bytes(v),
            w + SLOT_ALIGN,
            w + SLOT_ALIGN + payload_bytes,
        );
    }
    assert(seqs(t, payload_bytes, entry_count) =~= seqs(s, payload_bytes, entry_count));
    assert(payloads(t, payload_bytes, entry_count) =~= payloads(s, payload_bytes, entry_count));
    assert forall|other: int|
        0 <= other && other + 8 <= HEADER_BYTES && (other + 8 <= off || off + 8
            <= other) implies #[trigger] word_at(t, other) == word_at(s, other) by {
        lemma_put_word_frame(s, off, v, other);
    }
}

/// A slot inside the ring lies inside the segment.
pub proof fn lemma_slot_fits(s: Seq<u8>, payload_bytes: int, entry_count: int, idx: int)
    requires
        ring_fits(s, payload_bytes, entry_count),
        0 <= idx < entry_count,
    ensures
        ring_fits(s, payload_bytes, idx + 1),
{
    lemma_slot_bounds(payload_bytes, entry_count, idx);
}

/// Whether a segment of `len` bytes is large enough for a ring of this geometry.
pub fn ring_within(len: usize, payload_bytes: usize, entry_count: usize) -> (fits: bool)
    ensures
        fits <==> 0 < entry_count && segment_bytes(payload_bytes as int, entry_count as int)
            <= len,
{
    if entry_count == 0 || len < HEADER_BYTES {
        proof {
            if 0 < entry_count {
                lemma_slot_bounds(payload_bytes as int, entry_count as int, 0);
            }
        }
        return false;
    }
    let room: usize = len - HEADER_BYTES;
    if payload_bytes > room {
        proof {
            lemma_slot_bounds(payload_bytes as int, entry_count as int, 0);
        }
        return false;
    }
    if room - payload_bytes < SLOT_ALIGN {
        proof {
            lemma_slot_bounds(payload_bytes as int, entry_count as int, 0);
        }
        return false;
    }
    let slot: usize = SLOT_ALIGN + payload_bytes;
    proof {
        assert(entry_count <= room as int / slot as int <==> entry_count * slot <= room)
            by (nonlinear_arith)
            requires
                0 < slot,
                0 <= room,
        ;
    }
    entry_count <= room / slot
}

/// Text of the error for a segment that does not hold its ring.
pub open spec fn truncated_text() -> Seq<char> {
    "shared memory segment is shorter than its header declares"@
}

/// Reject a mapping of `len` bytes that does not hold the ring that `header`
/// declares. The ends of the ring work only on one that does.
pub fn check_mapped(header: &Header, len: usize) -> (r: Result<(), ZeroChannelError>)
    ensures
        r is Ok <==> 0 < header.entry_count && segment_bytes(
            header.payload_bytes as int,
            header.entry_count as int,
        ) <= len,
        r matches Err(e) ==> e is InvalidArgument && e.text() == truncated_text(),
{
    if !ring_within(len, header.payload_bytes, header.entry_count) {
        return Err(
            ZeroChannelError::InvalidArgument(
                String::from_str("shared memory segment is shorter than its header declares"),
            ),
        );
    }
    Ok(())
}

/// Load the control word of ring slot `idx`.
pub fn seq_cell(seg: &Segment, payload_bytes: usize, idx: usize) -> (raw: i64)
    requires
        ring_fits(seg@, payload_bytes as int, idx + 1),
    ensures
        raw == seq_at(seg@, payload_bytes as int, idx as int),
{
    proof {
        lemma_slot_bounds(payload_bytes as int, idx + 1, idx as int);
    }
    let len: usize = seg.len();
    seg.load(slot_offset(payload_bytes, idx)) as i64
}

/// Store the control word of ring slot `idx`.
pub fn store_seq(seg: &mut Segment, payload_bytes: usize, idx: usize, raw: i64)
    requires
        ring_fits(old(seg)@, payload_bytes as int, idx + 1),
    ensures
        final(seg)@ == put_seq(old(seg)@, payload_bytes as int, idx as int, raw),
{
    proof {
        lemma_slot_bounds(payload_bytes as int, idx + 1, idx as int);
    }
    let len: usize = seg.len();
    seg.store(slot_offset(payload_bytes, idx), raw as u64);
}

} // verus!
