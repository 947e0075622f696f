//! Typed channel endpoints.
//!
//! [`Writer`] and [`Reader`] are wrappers over the byte-level endpoints: sizes
//! are expressed in elements of `T` rather than bytes, and the channel header
//! records `T`'s type tag so a mismatched peer fails loudly instead of
//! reinterpreting bits.

use std::marker::PhantomData;
use vstd::prelude::*;

use crate::channel::reader::RawReader;
use crate::channel::writer::RawWriter;
use crate::element::{
    decoding_of, encode_all, encoding_of, lemma_encoding_of, partial_element_text, whole_elements,
    Element, F64Bits,
};
use crate::error::ZeroChannelError;
use crate::header::{header_of_words, HeaderWords};
use crate::lifecycle::{computable, declared, refusal, Connect, ConnectEvent, Request, Role};
use crate::metadata::{dtype_code, dtype_mismatch_text, Dtype, MAGIC_VERSION, OFF_LAST_ENTRY_SEQ};
use crate::reader::wrong_size_text;
use crate::ring::{payload_at, put_seq};
use crate::segment::{word_at, Segment};
use crate::writer::{all_held, busy_text, published, written, wrong_length_text};
use crate::zerocopy::{ReadHandle, WriteHandle};

verus! {

/// A number of elements in bytes, or the largest size when it cannot be
/// computed.
pub open spec fn saturated(entry_length: int, width: int) -> usize {
    if entry_length * width <= usize::MAX {
        (entry_length * width) as usize
    } else {
        usize::MAX
    }
}

/// The payload size that an entry length in elements declares.
pub open spec fn scaled(entry_length: Option<usize>, width: int) -> Option<usize> {
    match entry_length {
        Some(n) => Some(saturated(n as int, width)),
        None => None,
    }
}

/// The payload size that an entry length in elements declares.
pub fn scale(entry_length: Option<usize>, width: usize) -> (payload_bytes: Option<usize>)
    ensures
        payload_bytes == scaled(entry_length, width as int),
{
    match entry_length {
        Some(n) => match n.checked_mul(width) {
            Some(bytes) => Some(bytes),
            None => Some(usize::MAX),
        },
        None => None,
    }
}

/// An entry length whose size in bytes cannot be computed is refused: it stands
/// for a payload size that would misalign the slots.
pub proof fn lemma_oversized_entry_is_refused(entry_length: usize, width: int, entry_count: usize)
    requires
        entry_length * width > usize::MAX,
    ensures
        refusal(scaled(Some(entry_length), width), Some(entry_count)) is Some,
{
    assert(usize::MAX % 8 == 7);
}

/// Element types do not mix: a channel of elements `H` refuses a participant of
/// another type `R`, and one that attaches to it is told both types. Only a
/// participant in plain bytes is admitted to every channel.
pub proof fn lemma_other_element_type_is_refused<H: Element, R: Element>(
    connect: Connect,
    len: usize,
    words: HeaderWords,
    next: Connect,
)
    requires
        connect.wf(),
        connect.phase() is OpenTaken || connect.phase() is OpenExisting,
        connect.request().dtype == R::tag(),
        R::tag() != Dtype::U8,
        R::tag() != H::tag(),
        words.magic == MAGIC_VERSION,
        words.dtype == dtype_code(H::tag()),
        header_of_words(words).payload_bytes != 0,
        header_of_words(words).entry_count != 0,
        connect.follows(ConnectEvent::Opened { len, words }, next),
    ensures
        next.phase() is Finished,
        next.outcome() matches Err(e) && e is InvalidArgument,
        connect.phase() is OpenExisting ==> next.rejected(
            dtype_mismatch_text(dtype_code(H::tag()), R::tag()),
        ),
{
}

/// Typed single-writer end of a channel.
#[derive(Debug)]
pub struct Writer<T: Element> {
    raw: RawWriter,
    _marker: PhantomData<T>,
}

impl<T: Element> Writer<T> {
    /// The byte-level writer.
    pub closed spec fn raw(&self) -> RawWriter {
        self.raw
    }

    /// Begin to create or open a channel for writing `entry_length` elements of
    /// `T` per entry, as the process `me`.
    pub fn new(
        name: &str,
        entry_length: Option<usize>,
        entry_count: Option<usize>,
        delayed_connect: bool,
        me: u64,
    ) -> (r: Result<(Self, Connect), ZeroChannelError>)
        requires
            computable(scaled(entry_length, T::width() as int), entry_count),
        ensures
            match r {
                Ok((writer, connect)) => {
                    let payload_bytes = scaled(entry_length, T::width() as int);
                    &&& refusal(payload_bytes, entry_count) is None
                    &&& writer.raw().name() == name@
                    &&& writer.raw().dtype() == T::tag()
                    &&& writer.raw().delayed() == delayed_connect
                    &&& writer.raw().ring() is None
                    &&& connect.begun(
                        Request {
                            name: name@,
                            geometry: declared(payload_bytes, entry_count),
                            dtype: T::tag(),
                            delayed_connect,
                            reconnecting: false,
                            role: Some(Role::Writer),
                            me,
                        },
                    )
                },
                Err(e) => e is InvalidArgument && refusal(
                    scaled(entry_length, T::width() as int),
                    entry_count,
                ) == Some(e.text()),
            },
    {
        let payload_bytes: Option<usize> = scale(entry_length, T::size());
        match RawWriter::new(name, payload_bytes, entry_count, T::dtype(), delayed_connect, me) {
            Ok((raw, connect)) => Ok((Writer { raw, _marker: PhantomData }, connect)),
            Err(e) => Err(e),
        }
    }

    /// The byte-level writer, for connecting it.
    pub fn raw_mut(&mut self) -> (raw: &mut RawWriter)
        ensures
            *raw == old(self).raw(),
            final(self).raw() == *final(raw),
    {
        &mut self.raw
    }

    /// The byte-level writer.
    pub fn raw_ref(&self) -> (raw: &RawWriter)
        ensures
            *raw == self.raw(),
    {
        &self.raw
    }

    /// The byte-level writer, taken out.
    pub fn into_raw(self) -> (raw: RawWriter)
        ensures
            raw == self.raw(),
    {
        self.raw
    }

    /// Number of `T` elements per entry (0 if deferred and unknown).
    pub fn entry_length(&self) -> (n: usize)
        requires
            T::width() > 0,
            self.raw().wf(),
        ensures
            n as int == match self.raw().ring() {
                Some(ring) => ring.payload_bytes / T::width() as int,
                None => 0,
            },
    {
        self.raw.payload_bytes() / T::size()
    }

    /// Sequence number of the most recently committed entry (0 if none).
    pub fn last_entry_seq(&self) -> (seq: u64)
        ensures
            seq == match self.raw().ring() {
                Some(ring) => ring.last_entry_seq,
                None => 0,
            },
    {
        self.raw.last_entry_seq()
    }

    /// Write one entry to the ring buffer (one-copy path).
    pub fn write(&mut self, seg: &mut Segment, data: &[T]) -> (r: Result<(), ZeroChannelError>)
        requires
            old(self).raw().fits(old(seg)@),
            data@.len() * T::width() <= usize::MAX,
            old(self).raw().ring() matches Some(ring) ==> ring.last_entry_seq < u64::MAX
                || data@.len() * T::width() != ring.payload_bytes || all_held(
                ring.words(old(seg)@),
            ),
        ensures
            final(self).raw().same_channel(&old(self).raw()),
            final(self).raw().fits(final(seg)@),
            match (old(self).raw().ring(), r) {
                (Some(ring), Ok(())) => {
                    &&& data@.len() * T::width() == ring.payload_bytes
                    &&& ring.target(old(seg)@) matches Some(index)
                    &&& final(self).raw().ring() == Some(ring.after(index))
                    &&& final(seg)@ == written(
                        old(seg)@,
                        ring.payload_bytes,
                        ring.entry_count,
                        index,
                        encoding_of(data@),
                        (ring.last_entry_seq + 1) as u64,
                    )
                },
                (Some(ring), Err(e)) => {
                    &&& final(self).raw().ring() == old(self).raw().ring()
                    &&& final(seg)@ == old(seg)@
                    &&& if data@.len() * T::width() != ring.payload_bytes {
                        e is InvalidArgument && e.text() == wrong_length_text(
                            ring.payload_bytes as nat,
                            data@.len() * T::width(),
                        )
                    } else {
                        all_held(ring.words(old(seg)@)) && e is Busy && e.text() == busy_text(
                            ring.entry_count as nat,
                        )
                    }
                },
                (None, _) => {
                    &&& r is Ok
                    &&& final(self).raw().ring() is None
                    &&& final(seg)@ == old(seg)@
                },
            },
    {
        let bytes: Vec<u8> = encode_all(data);
        proof {
            lemma_encoding_of(data@);
        }
        self.raw.write(seg, bytes.as_slice())
    }

    /// Acquire the next ring slot for in-place construction (zero-copy path).
    pub fn try_acquire(&mut self, seg: &mut Segment) -> (r: Result<
        Option<WriteHandle>,
        ZeroChannelError,
    >)
        requires
            old(self).raw().fits(old(seg)@),
        ensures
            final(self).raw().same_channel(&old(self).raw()),
            final(self).raw().fits(final(seg)@),
            final(self).raw().ring() == old(self).raw().ring(),
            match (old(self).raw().ring(), r) {
                (Some(ring), Ok(Some(handle))) => {
                    &&& ring.target(old(seg)@) matches Some(index)
                    &&& 0 <= index < ring.entry_count
                    &&& handle.refers_to(ring.payload_bytes, index)
                    &&& handle.within(final(seg)@)
                    &&& final(seg)@ == put_seq(old(seg)@, ring.payload_bytes, index, 0)
                },
                (Some(ring), Ok(None)) => false,
                (Some(ring), Err(e)) => {
                    &&& all_held(ring.words(old(seg)@))
                    &&& e is Busy
                    &&& e.text() == busy_text(ring.entry_count as nat)
                    &&& final(seg)@ == old(seg)@
                },
                (None, _) => r matches Ok(None) && final(seg)@ == old(seg)@,
            },
    {
        self.raw.try_acquire(seg)
    }

    /// Publish a held slot and return its sequence number.
    pub fn commit(&mut self, seg: &mut Segment, handle: WriteHandle) -> (seq: u64)
        requires
            old(self).raw().fits(old(seg)@),
            old(self).raw().ring() matches Some(ring) && 0 <= handle.slot() < ring.entry_count
                && ring.last_entry_seq < u64::MAX,
        ensures
            final(self).raw().same_channel(&old(self).raw()),
            final(self).raw().fits(final(seg)@),
            old(self).raw().ring() matches Some(ring) && {
                &&& seq == ring.last_entry_seq + 1
                &&& final(self).raw().ring() == Some(ring.after(handle.slot()))
                &&& final(seg)@ == published(
                    old(seg)@,
                    ring.payload_bytes,
                    ring.entry_count,
                    handle.slot(),
                    seq,
                )
            },
    {
        self.raw.commit(seg, handle)
    }
}

/// Typed reader end of a channel.
#[derive(Debug)]
pub struct Reader<T: Element> {
    raw: RawReader,
    _marker: PhantomData<T>,
}

impl<T: Element> Reader<T> {
    /// The byte-level reader.
    pub closed spec fn raw(&self) -> RawReader {
        self.raw
    }

    /// Begin to create or open a channel for reading `entry_length` elements of
    /// `T` per entry, as the process `me`.
    ///
    /// Uses the one-copy path only; for zero-copy reads see
    /// [`Reader::new_zero_copy`].
    pub fn new(
        name: &str,
        entry_length: Option<usize>,
        entry_count: Option<usize>,
        delayed_connect: bool,
        me: u64,
    ) -> (r: Result<(Self, Connect), ZeroChannelError>)
        requires
            computable(scaled(entry_length, T::width() as int), entry_count),
        ensures
            match r {
                Ok((reader, connect)) => {
                    let payload_bytes = scaled(entry_length, T::width() as int);
                    &&& refusal(payload_bytes, entry_count) is None
                    &&& reader.raw().name() == name@
                    &&& reader.raw().dtype() == T::tag()
                    &&& reader.raw().delayed() == delayed_connect
                    &&& !reader.raw().zero_copy()
                    &&& reader.raw().ring() is None
                    &&& connect.begun(
                        Request {
                            name: name@,
                            geometry: declared(payload_bytes, entry_count),
                            dtype: T::tag(),
                            delayed_connect,
                            reconnecting: false,
                            role: None,
                            me,
                        },
                    )
                },
                Err(e) => e is InvalidArgument && refusal(
                    scaled(entry_length, T::width() as int),
                    entry_count,
                ) == Some(e.text()),
            },
    {
        let payload_bytes: Option<usize> = scale(entry_length, T::size());
        match RawReader::new(name, payload_bytes, entry_count, T::dtype(), delayed_connect, me) {
            Ok((raw, connect)) => Ok((Reader { raw, _marker: PhantomData }, connect)),
            Err(e) => Err(e),
        }
    }

    /// Begin to create or open a channel for zero-copy reading, as the process
    /// `me`.
    ///
    /// Connecting claims the channel's exclusive zero-copy reader role, which
    /// [`Reader::try_acquire`] requires.
    pub fn new_zero_copy(
        name: &str,
        entry_length: Option<usize>,
        entry_count: Option<usize>,
        delayed_connect: bool,
        me: u64,
    ) -> (r: Result<(Self, Connect), ZeroChannelError>)
        requires
            computable(scaled(entry_length, T::width() as int), entry_count),
        ensures
            match r {
                Ok((reader, connect)) => {
                    let payload_bytes = scaled(entry_length, T::width() as int);
                    &&& refusal(payload_bytes, entry_count) is None
                    &&& reader.raw().name() == name@
                    &&& reader.raw().dtype() == T::tag()
                    &&& reader.raw().delayed() == delayed_connect
                    &&& reader.raw().zero_copy()
                    &&& reader.raw().ring() is None
                    &&& connect.begun(
                        Request {
                            name: name@,
                            geometry: declared(payload_bytes, entry_count),
                            dtype: T::tag(),
                            delayed_connect,
                            reconnecting: false,
                            role: Some(Role::ZeroCopyReader),
                            me,
                        },
                    )
                },
                Err(e) => e is InvalidArgument && refusal(
                    scaled(entry_length, T::width() as int),
                    entry_count,
                ) == Some(e.text()),
            },
    {
        let payload_bytes: Option<usize> = scale(entry_length, T::size());
        match RawReader::new_zero_copy(
            name,
            payload_bytes,
            entry_count,
            T::dtype(),
            delayed_connect,
            me,
        ) {
            Ok((raw, connect)) => Ok((Reader { raw, _marker: PhantomData }, connect)),
            Err(e) => Err(e),
        }
    }

    /// The byte-level reader, for connecting it.
    pub fn raw_mut(&mut self) -> (raw: &mut RawReader)
        ensures
            *raw == old(self).raw(),
            final(self).raw() == *final(raw),
    {
        &mut self.raw
    }

    /// The byte-level reader.
    pub fn raw_ref(&self) -> (raw: &RawReader)
        ensures
            *raw == self.raw(),
    {
        &self.raw
    }

    /// The byte-level reader, taken out.
    pub fn into_raw(self) -> (raw: RawReader)
        ensures
            raw == self.raw(),
    {
        self.raw
    }

    /// Number of `T` elements per entry (0 if deferred and unknown).
    pub fn entry_length(&self) -> (n: usize)
        requires
            T::width() > 0,
            self.raw().wf(),
        ensures
            n as int == match self.raw().ring() {
                Some(ring) => ring.payload_bytes / T::width() as int,
                None => 0,
            },
    {
        self.raw.payload_bytes() / T::size()
    }

    /// Sequence number of the last entry this reader returned (0 if none).
    pub fn last_entry_seq(&self) -> (seq: u64)
        ensures
            seq == match self.raw().ring() {
                Some(ring) => ring.last_entry_seq,
                None => 0,
            },
    {
        self.raw.last_entry_seq()
    }

    /// The writer's high watermark.
    pub fn writer_entry_seq(&self, seg: &Segment) -> (seq: u64)
        requires
            self.raw().fits(seg@),
        ensures
            seq == match self.raw().ring() {
                Some(_) => word_at(seg@, OFF_LAST_ENTRY_SEQ as int),
                None => 0,
            },
    {
        self.raw.writer_entry_seq(seg)
    }

    /// Read the next entry newer than the watermark (one-copy path).
    pub fn read(&mut self, seg: &Segment, from_entry_seq: Option<u64>) -> (r: Result<
        Option<(u64, Vec<T>)>,
        ZeroChannelError,
    >)
        requires
            old(self).raw().fits(seg@),
        ensures
            final(self).raw().same_channel(&old(self).raw()),
            final(self).raw().fits(seg@),
            match (old(self).raw().ring(), r) {
                (Some(ring), Ok(Some((seq, data)))) => {
                    &&& whole_elements(ring.payload_bytes, T::width() as int)
                    &&& final(self).raw().ring() matches Some(next)
                    &&& ring.finds(seg@, from_entry_seq, Some(next.last()))
                    &&& next == ring.after(next.last())
                    &&& seq == next.last_entry_seq
                    &&& data@ == decoding_of::<T>(
                        payload_at(seg@, ring.payload_bytes, next.last_read_idx),
                    )
                },
                (Some(ring), Ok(None)) => {
                    &&& whole_elements(ring.payload_bytes, T::width() as int)
                    &&& ring.finds(seg@, from_entry_seq, None)
                    &&& final(self).raw().ring() == old(self).raw().ring()
                },
                (Some(ring), Err(e)) => {
                    &&& !whole_elements(ring.payload_bytes, T::width() as int)
                    &&& e is InvalidArgument
                    &&& e.text() == partial_element_text(ring.payload_bytes as nat, T::width())
                    &&& final(self).raw().ring() == old(self).raw().ring()
                },
                (None, _) => r matches Ok(None) && final(self).raw().ring() is None,
            },
    {
        self.raw.read_as::<T>(seg, from_entry_seq)
    }

    /// Read the next entry newer than the watermark into a caller-owned buffer.
    pub fn read_into(
        &mut self,
        seg: &Segment,
        dst: &mut [T],
        from_entry_seq: Option<u64>,
    ) -> (r: Result<Option<u64>, ZeroChannelError>)
        requires
            old(self).raw().fits(seg@),
            old(dst)@.len() * T::width() <= usize::MAX,
        ensures
            final(self).raw().same_channel(&old(self).raw()),
            final(self).raw().fits(seg@),
            final(dst)@.len() == old(dst)@.len(),
            match (old(self).raw().ring(), r) {
                (Some(ring), Ok(Some(seq))) => {
                    &&& old(dst)@.len() * T::width() == ring.payload_bytes
                    &&& final(self).raw().ring() matches Some(next)
                    &&& ring.finds(seg@, from_entry_seq, Some(next.last()))
                    &&& next == ring.after(next.last())
                    &&& seq == next.last_entry_seq
                    &&& encoding_of(final(dst)@) == payload_at(
                        seg@,
                        ring.payload_bytes,
                        next.last_read_idx,
                    )
                },
                (Some(ring), Ok(None)) => {
                    &&& old(dst)@.len() * T::width() == ring.payload_bytes
                    &&& ring.finds(seg@, from_entry_seq, None)
                    &&& final(self).raw().ring() == old(self).raw().ring()
                    &&& final(dst)@ == old(dst)@
                },
                (Some(ring), Err(e)) => {
                    &&& old(dst)@.len() * T::width() != ring.payload_bytes
                    &&& e is InvalidArgument
                    &&& e.text() == wrong_size_text(
                        old(dst)@.len() * T::width(),
                        ring.payload_bytes as nat,
                    )
                    &&& final(self).raw().ring() == old(self).raw().ring()
                    &&& final(dst)@ == old(dst)@
                },
                (None, _) => {
                    &&& r matches Ok(None)
                    &&& final(self).raw().ring() is None
                    &&& final(dst)@ == old(dst)@
                },
            },
    {
        self.raw.read_into_as::<T>(seg, dst, from_entry_seq)
    }

    /// Acquire the next entry in place (zero-copy path).
    ///
    /// Requires the reader to have been built with [`Reader::new_zero_copy`].
    pub fn try_acquire(&mut self, seg: &mut Segment, from_entry_seq: Option<u64>) -> (r: Result<
        Option<ReadHandle>,
        ZeroChannelError,
    >)
        requires
            old(self).raw().fits(old(seg)@),
        ensures
            final(self).raw().same_channel(&old(self).raw()),
            final(self).raw().fits(final(seg)@),
            !old(self).raw().zero_copy() ==> {
                &&& r matches Err(e)
                &&& e is InvalidArgument
                &&& e.text() == "zero-copy reads require a reader built with new_zero_copy"@
                &&& final(self).raw().ring() == old(self).raw().ring()
                &&& final(seg)@ == old(seg)@
            },
            old(self).raw().zero_copy() ==> match (old(self).raw().ring(), r) {
                (Some(ring), Ok(Some(handle))) => {
                    &&& final(self).raw().ring() matches Some(next)
                    &&& ring.finds(old(seg)@, from_entry_seq, Some(next.last()))
                    &&& next == ring.after(next.last())
                    &&& handle.refers_to(
                        ring.payload_bytes,
                        next.last_read_idx,
                        next.last_entry_seq,
                    )
                    &&& handle.within(final(seg)@)
                    &&& final(seg)@ == put_seq(
                        old(seg)@,
                        ring.payload_bytes,
                        next.last_read_idx,
                        (-(next.last_entry_seq as i64)) as i64,
                    )
                },
                (Some(ring), Ok(None)) => {
                    &&& ring.finds(old(seg)@, from_entry_seq, None)
                    &&& final(self).raw().ring() == old(self).raw().ring()
                    &&& final(seg)@ == old(seg)@
                },
                (Some(_), Err(_)) => false,
                (None, _) => {
                    &&& r matches Ok(None)
                    &&& final(self).raw().ring() is None
                    &&& final(seg)@ == old(seg)@
                },
            },
    {
        self.raw.try_acquire(seg, from_entry_seq)
    }

    /// Return a held slot to the ring.
    pub fn release(&mut self, seg: &mut Segment, handle: ReadHandle)
        requires
            old(self).raw().fits(old(seg)@),
            old(self).raw().ring() matches Some(ring) ==> 0 <= handle.slot() < ring.entry_count,
        ensures
            final(self).raw().same_channel(&old(self).raw()),
            final(self).raw().ring() == old(self).raw().ring(),
            final(self).raw().fits(final(seg)@),
            final(seg)@ == match old(self).raw().ring() {
                Some(ring) => put_seq(
                    old(seg)@,
                    ring.payload_bytes,
                    handle.slot(),
                    handle.seq() as i64,
                ),
                None => old(seg)@,
            },
    {
        self.raw.release(seg, handle)
    }
}

/// Byte-oriented channel writer (`entry_length` is measured in bytes).
pub type BytesWriter = Writer<u8>;

/// Byte-oriented channel reader (`entry_length` is measured in bytes).
pub type BytesReader = Reader<u8>;

/// Double-precision channel writer (`entry_length` is measured in elements).
pub type Float64Writer = Writer<F64Bits>;

/// Double-precision channel reader (`entry_length` is measured in elements).
pub type Float64Reader = Reader<F64Bits>;

} // verus!
