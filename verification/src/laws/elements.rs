//! Entries as runs of elements: which sizes go, and that what is read is what
//! was written.

use vstd::arithmetic::div_mod::{lemma_mod_multiples_vanish, lemma_small_mod};
use vstd::bytes::lemma_auto_spec_u64_to_from_le_bytes;
use vstd::prelude::*;

use crate::element::{
    decoding_of, element_bytes, encoding_of, lemma_decode_bytes, lemma_decode_encoding_of,
    lemma_encoding_of, whole_elements, Element, F64Bits,
};
use crate::header::header_image;
use crate::laws::stream::{after_writes, lemma_reads_follow_the_writes, newcomer};
use crate::metadata::Dtype;
use crate::reader::{Entry, ReaderState};
use crate::ring::payload_at;
use crate::segment::word_at;
use crate::typed::scaled;

verus! {

/// A payload of any number of whole elements is accepted, however large, and one
/// with part of an element left over is not.
pub proof fn lemma_whole_elements_are_accepted(count: nat, width: nat, rest: nat)
    requires
        rest < width,
    ensures
        whole_elements((count * width + rest) as int, width as int) <==> rest == 0,
{
    let len = (count * width + rest) as int;
    let w = width as int;
    assert(len == rest + w * count) by (nonlinear_arith)
        requires
            len == count * width + rest,
            w == width,
    ;
    lemma_mod_multiples_vanish(count as int, rest as int, w);
    lemma_small_mod(rest, width);
}

/// Elements without a size fit no payload.
pub proof fn lemma_empty_elements_are_refused(len: int)
    ensures
        !whole_elements(len, 0),
{
}

/// The sizes and tags of the element types.
pub proof fn lemma_element_types()
    ensures
        <u8 as Element>::width() == 1,
        <i64 as Element>::width() == 8,
        <F64Bits as Element>::width() == 8,
        <u8 as Element>::tag() == Dtype::U8,
        <i64 as Element>::tag() == Dtype::I64,
        <F64Bits as Element>::tag() == Dtype::F64,
{
}

/// An entry of `n` elements has `n` times the bytes of one, or as many as can be
/// addressed if that is less.
pub proof fn lemma_entry_size_is_counted_in_elements(n: usize, width: usize)
    ensures
        n * width <= usize::MAX ==> scaled(Some(n), width as int) == Some((n * width) as usize),
        n * width > usize::MAX ==> scaled(Some(n), width as int) == Some(usize::MAX),
        scaled(None, width as int) is None,
{
}

/// Whatever elements an entry is made of, it can be read back as such: its size
/// is accepted, and the elements are the same.
pub proof fn lemma_elements_survive<T: Element>(data: Seq<T>)
    requires
        T::width() > 0,
    ensures
        encoding_of(data).len() == data.len() * T::width(),
        whole_elements(encoding_of(data).len() as int, T::width() as int),
        decoding_of::<T>(encoding_of(data)) == data,
{
    lemma_encoding_of(data);
    lemma_decode_encoding_of(data);
    lemma_whole_elements_are_accepted(data.len(), T::width(), 0);
}

/// Bytes are stored as they are.
pub proof fn lemma_bytes_are_stored_as_they_are(data: Seq<u8>)
    ensures
        encoding_of::<u8>(data) == data,
        decoding_of::<u8>(data) == data,
{
    lemma_encoding_of(data);
    assert forall|k: int| 0 <= k < data.len() implies encoding_of::<u8>(data)[k] == data[k] by {
        assert(element_bytes::<u8>(encoding_of(data), k) == data[k].encoding());
        assert(element_bytes::<u8>(encoding_of(data), k)[0] == encoding_of::<u8>(data)[k]);
    }
    assert(encoding_of::<u8>(data) =~= data);
    lemma_decode_bytes(data);
}

/// Integer `i` of an entry is stored as word `i` of the payload.
pub proof fn lemma_integers_are_stored_as_words(data: Seq<i64>, i: int)
    requires
        0 <= i < data.len(),
    ensures
        encoding_of(data).len() == 8 * data.len(),
        word_at(encoding_of(data), 8 * i) == data[i] as u64,
        decoding_of::<i64>(encoding_of(data))[i] == data[i],
{
    lemma_encoding_of(data);
    lemma_decode_encoding_of(data);
    lemma_auto_spec_u64_to_from_le_bytes();
    assert(element_bytes::<i64>(encoding_of(data), i) == data[i].encoding());
    assert(element_bytes::<i64>(encoding_of(data), i) == encoding_of(data).subrange(
        8 * i,
        8 * i + 8,
    ));
}

/// So is the bit pattern of float `i`.
pub proof fn lemma_floats_are_stored_as_words(data: Seq<F64Bits>, i: int)
    requires
        0 <= i < data.len(),
    ensures
        encoding_of(data).len() == 8 * data.len(),
        word_at(encoding_of(data), 8 * i) == data[i].0,
        decoding_of::<F64Bits>(encoding_of(data))[i] == data[i],
{
    lemma_encoding_of(data);
    lemma_decode_encoding_of(data);
    lemma_auto_spec_u64_to_from_le_bytes();
    assert(element_bytes::<F64Bits>(encoding_of(data), i) == data[i].encoding());
    assert(element_bytes::<F64Bits>(encoding_of(data), i) == encoding_of(data).subrange(
        8 * i,
        8 * i + 8,
    ));
}

/// A typed channel that nobody pins gives every reader, whatever the size of an
/// entry, the very elements that were written: those of the entry right after
/// its position, or of the oldest that is left.
pub proof fn lemma_typed_reads_follow_the_writes<T: Element>(
    s: Seq<u8>,
    entry_length: usize,
    entry_count: usize,
    payload_bytes: usize,
    dtype: Dtype,
    owner_pid: u64,
    entries: Seq<Seq<T>>,
    reader: ReaderState,
    from_entry_seq: Option<u64>,
    position: int,
    found: Option<Entry>,
)
    requires
        T::width() > 0,
        0 < entry_count,
        payload_bytes == entry_length * T::width(),
        72 + entry_count * (8 + payload_bytes) <= s.len(),
        72 + entry_count * (8 + payload_bytes) <= usize::MAX,
        entries.len() <= i64::MAX,
        forall|k: int| 0 <= k < entries.len() ==> (#[trigger] entries[k]).len() == entry_length,
        reader.payload_bytes == payload_bytes,
        reader.entry_count == entry_count,
        0 <= reader.last_read_idx < entry_count,
        from_entry_seq is None ==> position == reader.last_entry_seq,
        from_entry_seq matches Some(from) ==> position == from,
        reader.finds(
            after_writes(
                newcomer(payload_bytes, entry_count),
                header_image(s, payload_bytes, entry_count, dtype, owner_pid),
                entries.map_values(|data: Seq<T>| encoding_of(data)),
            ).1,
            from_entry_seq,
            found,
        ),
    ensures
        whole_elements(reader.payload_bytes, T::width() as int),
        position >= entries.len() ==> found is None,
        position < entries.len() ==> {
            let t = after_writes(
                newcomer(payload_bytes, entry_count),
                header_image(s, payload_bytes, entry_count, dtype, owner_pid),
                entries.map_values(|data: Seq<T>| encoding_of(data)),
            ).1;
            let e = if position + 1 > entries.len() - entry_count {
                position + 1
            } else {
                entries.len() - entry_count + 1
            };
            &&& found matches Some(entry)
            &&& entry.entry_seq == e
            &&& decoding_of::<T>(payload_at(t, payload_bytes as int, entry.index as int))
                == entries[e - 1]
        },
{
    let log = entries.map_values(|data: Seq<T>| encoding_of(data));
    assert forall|k: int| 0 <= k < log.len() implies (#[trigger] log[k]).len() == payload_bytes by {
        lemma_encoding_of(entries[k]);
    }
    lemma_whole_elements_are_accepted(entry_length as nat, T::width(), 0);
    lemma_reads_follow_the_writes(
        s,
        payload_bytes,
        entry_count,
        dtype,
        owner_pid,
        log,
        reader,
        from_entry_seq,
        position,
        found,
    );
    if position < entries.len() {
        let e = if position + 1 > entries.len() - entry_count {
            position + 1
        } else {
            entries.len() - entry_count + 1
        };
        lemma_decode_encoding_of(entries[e - 1]);
    }
}

} // verus!
