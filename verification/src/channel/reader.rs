//! Named, role-aware reader.
//!
//! [`RawReader`] pairs the ring protocol's reader, which knows the ring but not
//! the operating system, with the channel name its segment comes from and (for
//! zero-copy readers) the exclusive role that keeps two pinning readers from
//! silently stealing entries from each other.

use vstd::prelude::*;
use vstd::string::StringExecFns;

use crate::element::{decoding_of, encoding_of, partial_element_text, whole_elements, Element};
use crate::error::ZeroChannelError;
use crate::lifecycle::{computable, declared, refusal, Connect, Request, Role};
use crate::metadata::{
    lemma_slot_bounds, segment_bytes, Dtype, Header, OFF_LAST_ENTRY_SEQ, OFF_ZC_READER_OWNER,
};
use crate::owner::release_role;
use crate::reader::{wrong_size_text, Entry, ReadOp, ReadPhase, ReaderState};
use crate::ring::{payload_at, put_seq};
use crate::segment::{put_word, word_at, Segment};
use crate::zerocopy::ReadHandle;

verus! {

/// Reader end of a channel, operating on raw bytes.
///
/// A read returns **at most one** entry: the oldest committed entry whose
/// `entry_seq` is greater than the watermark. The watermark defaults to the
/// sequence number of the last entry this reader returned, and may be
/// overridden per call by callers that track their own position.
///
/// The one-copy path ([`RawReader::read_as`]) supports many concurrent readers.
/// The zero-copy path ([`RawReader::try_acquire`]) is single-reader only, and
/// must be opted into at construction so that exclusivity is claimed only by
/// readers that actually intend to use it.
#[derive(Debug)]
pub struct RawReader {
    name: String,
    dtype: Dtype,
    delayed_connect: bool,
    enable_zero_copy: bool,
    /// The ring protocol, once a segment exists.
    inner: Option<crate::reader::RawReader>,
}

/// The role that a reader needs.
pub open spec fn reader_role(enable_zero_copy: bool) -> Option<Role> {
    if enable_zero_copy {
        Some(Role::ZeroCopyReader)
    } else {
        None
    }
}

impl RawReader {
    /// Name of the channel.
    pub closed spec fn name(&self) -> Seq<char> {
        self.name@
    }

    /// Element type.
    pub closed spec fn dtype(&self) -> Dtype {
        self.dtype
    }

    /// The channel may be used before its segment exists.
    pub closed spec fn delayed(&self) -> bool {
        self.delayed_connect
    }

    /// The reader pins entries in place.
    pub closed spec fn zero_copy(&self) -> bool {
        self.enable_zero_copy
    }

    /// The reader's end of the ring, once connected.
    pub closed spec fn ring(&self) -> Option<ReaderState> {
        match self.inner {
            Some(inner) => Some(inner@),
            None => None,
        }
    }

    /// The two readers differ in nothing but the ring.
    pub open spec fn same_channel(&self, other: &Self) -> bool {
        &&& self.name() == other.name()
        &&& self.dtype() == other.dtype()
        &&& self.delayed() == other.delayed()
        &&& self.zero_copy() == other.zero_copy()
    }

    /// The ring, once connected, is a valid one.
    pub open spec fn wf(&self) -> bool {
        self.ring() matches Some(ring) ==> ring.wf()
    }

    /// The reader can work on a segment of bytes `s`, if it is connected.
    pub open spec fn fits(&self, s: Seq<u8>) -> bool {
        self.ring() matches Some(ring) ==> ring.fits(s)
    }

    /// Begin to create or open a channel for reading, as the process `me`.
    ///
    /// Supplying `payload_bytes`/`entry_count` lets the reader create the
    /// segment if it does not exist yet; omitting them, the usual case, attaches
    /// to whatever the writer published.
    ///
    /// The returned reader uses the one-copy path only. For zero-copy reads see
    /// [`RawReader::new_zero_copy`]. It is unconnected until
    /// [`RawReader::bind`] is called with what connecting gave.
    pub fn new(
        name: &str,
        payload_bytes: Option<usize>,
        entry_count: Option<usize>,
        dtype: Dtype,
        delayed_connect: bool,
        me: u64,
    ) -> (r: Result<(Self, Connect), ZeroChannelError>)
        requires
            computable(payload_bytes, entry_count),
        ensures
            match r {
                Ok((reader, connect)) => {
                    &&& refusal(payload_bytes, entry_count) is None
                    &&& reader.name() == name@
                    &&& reader.dtype() == dtype
                    &&& reader.delayed() == delayed_connect
                    &&& !reader.zero_copy()
                    &&& reader.ring() is None
                    &&& connect.begun(
                        Request {
                            name: name@,
                            geometry: declared(payload_bytes, entry_count),
                            dtype,
                            delayed_connect,
                            reconnecting: false,
                            role: None,
                            me,
                        },
                    )
                },
                Err(e) => e is InvalidArgument && refusal(payload_bytes, entry_count) == Some(
                    e.text(),
                ),
            },
    {
        RawReader::open(name, payload_bytes, entry_count, dtype, delayed_connect, false, me)
    }

    /// Begin to create or open a channel for zero-copy reading, as the process
    /// `me`.
    ///
    /// Connecting claims the channel's exclusive zero-copy reader role, without
    /// which [`RawReader::try_acquire`] refuses to run. Acquiring a handle pins
    /// a slot and hides it from every other reader, so two readers doing it at
    /// once silently lose entries with no gap in the sequence numbers to show
    /// for it. Connecting fails with [`ZeroChannelError::RoleConflict`] when a
    /// live process already holds the role; a role left by a crashed reader is
    /// adopted.
    ///
    /// One-copy readers are unaffected by this claim and remain unlimited.
    pub fn new_zero_copy(
        name: &str,
        payload_bytes: Option<usize>,
        entry_count: Option<usize>,
        dtype: Dtype,
        delayed_connect: bool,
        me: u64,
    ) -> (r: Result<(Self, Connect), ZeroChannelError>)
        requires
            computable(payload_bytes, entry_count),
        ensures
            match r {
                Ok((reader, connect)) => {
                    &&& refusal(payload_bytes, entry_count) is None
                    &&& reader.name() == name@
                    &&& reader.dtype() == dtype
                    &&& reader.delayed() == delayed_connect
                    &&& reader.zero_copy()
                    &&& reader.ring() is None
                    &&& connect.begun(
                        Request {
                            name: name@,
                            geometry: declared(payload_bytes, entry_count),
                            dtype,
                            delayed_connect,
                            reconnecting: false,
                            role: Some(Role::ZeroCopyReader),
                            me,
                        },
                    )
                },
                Err(e) => e is InvalidArgument && refusal(payload_bytes, entry_count) == Some(
                    e.text(),
                ),
            },
    {
        RawReader::open(name, payload_bytes, entry_count, dtype, delayed_connect, true, me)
    }

    /// Begin to create or open a channel for reading, with or without the
    /// zero-copy role.
    fn open(
        name: &str,
        payload_bytes: Option<usize>,
        entry_count: Option<usize>,
        dtype: Dtype,
        delayed_connect: bool,
        enable_zero_copy: bool,
        me: u64,
    ) -> (r: Result<(Self, Connect), ZeroChannelError>)
        requires
            computable(payload_bytes, entry_count),
        ensures
            match r {
                Ok((reader, connect)) => {
                    &&& refusal(payload_bytes, entry_count) is None
                    &&& reader.name() == name@
                    &&& reader.dtype() == dtype
                    &&& reader.delayed() == delayed_connect
                    &&& reader.zero_copy() == enable_zero_copy
                    &&& reader.ring() is None
                    &&& connect.begun(
                        Request {
                            name: name@,
                            geometry: declared(payload_bytes, entry_count),
                            dtype,
                            delayed_connect,
                            reconnecting: false,
                            role: reader_role(enable_zero_copy),
                            me,
                        },
                    )
                },
                Err(e) => e is InvalidArgument && refusal(payload_bytes, entry_count) == Some(
                    e.text(),
                ),
            },
    {
        let role: Option<Role> = if enable_zero_copy {
            Some(Role::ZeroCopyReader)
        } else {
            None
        };
        match Connect::open_or_create(
            name,
            payload_bytes,
            entry_count,
            dtype,
            delayed_connect,
            role,
            me,
        ) {
            Ok(connect) => Ok(
                (
                    RawReader {
                        name: String::from_str(name),
                        dtype,
                        delayed_connect,
                        enable_zero_copy,
                        inner: None,
                    },
                    connect,
                ),
            ),
            Err(e) => Err(e),
        }
    }

    /// Bind the ring protocol to a segment described by `header`, whose role,
    /// if one is needed, has been claimed.
    pub fn bind(&mut self, header: &Header)
        requires
            0 < header.entry_count,
            segment_bytes(header.payload_bytes as int, header.entry_count as int) <= usize::MAX,
        ensures
            final(self).same_channel(old(self)),
            final(self).wf(),
            final(self).ring() == Some(
                ReaderState {
                    payload_bytes: header.payload_bytes as int,
                    entry_count: header.entry_count as int,
                    last_entry_seq: 0,
                    last_read_idx: 0,
                },
            ),
    {
        self.inner = Some(crate::reader::RawReader::attach(header));
    }

    /// Payload bytes per entry (0 while a deferred channel is unconnected).
    pub fn payload_bytes(&self) -> (n: usize)
        ensures
            n == match self.ring() {
                Some(ring) => ring.payload_bytes,
                None => 0,
            },
    {
        match &self.inner {
            Some(inner) => inner.payload_bytes(),
            None => 0,
        }
    }

    /// Number of ring slots (0 while a deferred channel is unconnected).
    pub fn entry_count(&self) -> (n: usize)
        ensures
            n == match self.ring() {
                Some(ring) => ring.entry_count,
                None => 0,
            },
    {
        match &self.inner {
            Some(inner) => inner.entry_count(),
            None => 0,
        }
    }

    /// Sequence number of the last entry this reader returned (0 if none).
    pub fn last_entry_seq(&self) -> (seq: u64)
        ensures
            seq == match self.ring() {
                Some(ring) => ring.last_entry_seq,
                None => 0,
            },
    {
        match &self.inner {
            Some(inner) => inner.last_entry_seq(),
            None => 0,
        }
    }

    /// The writer's high watermark, read straight from the header (0 while
    /// unconnected).
    pub fn writer_entry_seq(&self, seg: &Segment) -> (seq: u64)
        requires
            self.fits(seg@),
        ensures
            seq == match self.ring() {
                Some(_) => word_at(seg@, OFF_LAST_ENTRY_SEQ as int),
                None => 0,
            },
    {
        match &self.inner {
            Some(inner) => inner.writer_entry_seq(seg),
            None => 0,
        }
    }

    /// Begin to attach a deferred channel, as the process `me`; `None` when it
    /// is connected already.
    ///
    /// Callers that need `payload_bytes` before issuing a read use this to
    /// resolve the geometry first.
    pub fn connect(&self, me: u64) -> (connect: Option<Connect>)
        ensures
            connect is None <==> self.ring() is Some,
            connect matches Some(c) ==> c.begun(
                Request {
                    name: self.name(),
                    geometry: None,
                    dtype: self.dtype(),
                    delayed_connect: self.delayed(),
                    reconnecting: true,
                    role: reader_role(self.zero_copy()),
                    me,
                },
            ),
    {
        let role: Option<Role> = if self.enable_zero_copy {
            Some(Role::ZeroCopyReader)
        } else {
            None
        };
        match &self.inner {
            Some(_) => None,
            None => Some(
                Connect::try_attach(
                    self.name.as_str(),
                    self.dtype,
                    self.delayed_connect,
                    role,
                    me,
                ),
            ),
        }
    }

    /// Copy the next entry into `dst` (one-copy path), as raw bytes.
    ///
    /// Returns the entry's sequence number, or `None` when nothing newer than
    /// the watermark is available, or nothing at all while unconnected.
    pub fn read_into(
        &mut self,
        seg: &Segment,
        dst: &mut [u8],
        from_entry_seq: Option<u64>,
    ) -> (r: Result<Option<u64>, ZeroChannelError>)
        requires
            old(self).fits(seg@),
        ensures
            final(self).same_channel(old(self)),
            final(self).fits(seg@),
            match (old(self).ring(), r) {
                (Some(ring), Ok(Some(seq))) => {
                    &&& old(dst)@.len() == ring.payload_bytes
                    &&& final(self).ring() matches Some(next)
                    &&& ring.finds(seg@, from_entry_seq, Some(next.last()))
                    &&& next == ring.after(next.last())
                    &&& seq == next.last_entry_seq
                    &&& final(dst)@ == payload_at(seg@, ring.payload_bytes, next.last_read_idx)
                },
                (Some(ring), Ok(None)) => {
                    &&& old(dst)@.len() == ring.payload_bytes
                    &&& ring.finds(seg@, from_entry_seq, None)
                    &&& final(self).ring() == old(self).ring()
                    &&& final(dst)@ == old(dst)@
                },
                (Some(ring), Err(e)) => {
                    &&& old(dst)@.len() != ring.payload_bytes
                    &&& e is InvalidArgument
                    &&& e.text() == wrong_size_text(old(dst)@.len(), ring.payload_bytes as nat)
                    &&& final(self).ring() == old(self).ring()
                    &&& final(dst)@ == old(dst)@
                },
                (None, _) => {
                    &&& r matches Ok(None)
                    &&& final(self).ring() is None
                    &&& final(dst)@ == old(dst)@
                },
            },
    {
        match self.inner.take() {
            Some(mut inner) => {
                let r = inner.read_into(seg, dst, from_entry_seq);
                self.inner = Some(inner);
                r
            },
            None => Ok(None),
        }
    }

    /// Copy the next entry into `dst` (one-copy path), as elements of `T`.
    pub fn read_into_as<T: Element>(
        &mut self,
        seg: &Segment,
        dst: &mut [T],
        from_entry_seq: Option<u64>,
    ) -> (r: Result<Option<u64>, ZeroChannelError>)
        requires
            old(self).fits(seg@),
            old(dst)@.len() * T::width() <= usize::MAX,
        ensures
            final(self).same_channel(old(self)),
            final(self).fits(seg@),
            final(dst)@.len() == old(dst)@.len(),
            match (old(self).ring(), r) {
                (Some(ring), Ok(Some(seq))) => {
                    &&& old(dst)@.len() * T::width() == ring.payload_bytes
                    &&& final(self).ring() matches Some(next)
                    &&& ring.finds(seg@, from_entry_seq, Some(next.last()))
                    &&& next == ring.after(next.last())
                    &&& seq == next.last_entry_seq
                    &&& encoding_of(final(dst)@) == payload_at(
                        seg@,
                        ring.payload_bytes,
                        next.last_read_idx,
                    )
                },
                (Some(ring), Ok(None)) => {
                    &&& old(dst)@.len() * T::width() == ring.payload_bytes
                    &&& ring.finds(seg@, from_entry_seq, None)
                    &&& final(self).ring() == old(self).ring()
                    &&& final(dst)@ == old(dst)@
                },
                (Some(ring), Err(e)) => {
                    &&& old(dst)@.len() * T::width() != ring.payload_bytes
                    &&& e is InvalidArgument
                    &&& e.text() == wrong_size_text(
                        old(dst)@.len() * T::width(),
                        ring.payload_bytes as nat,
                    )
                    &&& final(self).ring() == old(self).ring()
                    &&& final(dst)@ == old(dst)@
                },
                (None, _) => {
                    &&& r matches Ok(None)
                    &&& final(self).ring() is None
                    &&& final(dst)@ == old(dst)@
                },
            },
    {
        match self.inner.take() {
            Some(mut inner) => {
                let r = inner.read_into_as(seg, dst, from_entry_seq);
                self.inner = Some(inner);
                r
            },
            None => Ok(None),
        }
    }

    /// Read the next entry (one-copy path), allocating the destination.
    pub fn read(&mut self, seg: &Segment, from_entry_seq: Option<u64>) -> (r: Result<
        Option<(u64, Vec<u8>)>,
        ZeroChannelError,
    >)
        requires
            old(self).fits(seg@),
        ensures
            final(self).same_channel(old(self)),
            final(self).fits(seg@),
            match (old(self).ring(), r) {
                (Some(ring), Ok(Some((seq, data)))) => {
                    &&& final(self).ring() matches Some(next)
                    &&& ring.finds(seg@, from_entry_seq, Some(next.last()))
                    &&& next == ring.after(next.last())
                    &&& seq == next.last_entry_seq
                    &&& data@ == payload_at(seg@, ring.payload_bytes, next.last_read_idx)
                },
                (Some(ring), Ok(None)) => {
                    &&& ring.finds(seg@, from_entry_seq, None)
                    &&& final(self).ring() == old(self).ring()
                },
                (Some(_), Err(_)) => false,
                (None, _) => r matches Ok(None) && final(self).ring() is None,
            },
    {
        match self.inner.take() {
            Some(mut inner) => {
                let r = inner.read(seg, from_entry_seq);
                self.inner = Some(inner);
                r
            },
            None => Ok(None),
        }
    }

    /// Read the next entry (one-copy path) as elements of `T`, allocating the
    /// destination.
    pub fn read_as<T: Element>(&mut self, seg: &Segment, from_entry_seq: Option<u64>) -> (r: Result<
        Option<(u64, Vec<T>)>,
        ZeroChannelError,
    >)
        requires
            old(self).fits(seg@),
        ensures
            final(self).same_channel(old(self)),
            final(self).fits(seg@),
            match (old(self).ring(), r) {
                (Some(ring), Ok(Some((seq, data)))) => {
                    &&& whole_elements(ring.payload_bytes, T::width() as int)
                    &&& final(self).ring() matches Some(next)
                    &&& ring.finds(seg@, from_entry_seq, Some(next.last()))
                    &&& next == ring.after(next.last())
                    &&& seq == next.last_entry_seq
                    &&& data@ == decoding_of::<T>(
                        payload_at(seg@, ring.payload_bytes, next.last_read_idx),
                    )
                },
                (Some(ring), Ok(None)) => {
                    &&& whole_elements(ring.payload_bytes, T::width() as int)
                    &&& ring.finds(seg@, from_entry_seq, None)
                    &&& final(self).ring() == old(self).ring()
                },
                (Some(ring), Err(e)) => {
                    &&& !whole_elements(ring.payload_bytes, T::width() as int)
                    &&& e is InvalidArgument
                    &&& e.text() == partial_element_text(ring.payload_bytes as nat, T::width())
                    &&& final(self).ring() == old(self).ring()
                },
                (None, _) => r matches Ok(None) && final(self).ring() is None,
            },
    {
        match self.inner.take() {
            Some(mut inner) => {
                let r = inner.read_as::<T>(seg, from_entry_seq);
                self.inner = Some(inner);
                r
            },
            None => Ok(None),
        }
    }

    /// Reject a zero-copy read by a reader that does not hold the role.
    pub fn check_zero_copy(&self) -> (r: Result<(), ZeroChannelError>)
        ensures
            r is Ok <==> self.zero_copy(),
            r matches Err(e) ==> e is InvalidArgument && e.text()
                == "zero-copy reads require a reader built with new_zero_copy"@,
    {
        if !self.enable_zero_copy {
            return Err(
                ZeroChannelError::InvalidArgument(
                    String::from_str("zero-copy reads require a reader built with new_zero_copy"),
                ),
            );
        }
        Ok(())
    }

    /// Acquire the next entry in place (zero-copy path).
    ///
    /// Flips the slot's control word from `s` to `-s` so the writer skips the
    /// slot until [`RawReader::release`] hands it back.
    ///
    /// Requires the reader to have been constructed for zero-copy reading.
    pub fn try_acquire(&mut self, seg: &mut Segment, from_entry_seq: Option<u64>) -> (r: Result<
        Option<ReadHandle>,
        ZeroChannelError,
    >)
        requires
            old(self).fits(old(seg)@),
        ensures
            final(self).same_channel(old(self)),
            final(self).fits(final(seg)@),
            !old(self).zero_copy() ==> {
                &&& r matches Err(e)
                &&& e is InvalidArgument
                &&& e.text() == "zero-copy reads require a reader built with new_zero_copy"@
                &&& final(self).ring() == old(self).ring()
                &&& final(seg)@ == old(seg)@
            },
            old(self).zero_copy() ==> match (old(self).ring(), r) {
                (Some(ring), Ok(Some(handle))) => {
                    &&& final(self).ring() matches Some(next)
                    &&& ring.finds(old(seg)@, from_entry_seq, Some(next.last()))
                    &&& next == ring.after(next.last())
                    &&& handle.refers_to(
                        ring.payload_bytes,
                        next.last_read_idx,
                        next.last_entry_seq,
                    )
                    &&& handle.within(final(seg)@)
                    &&& final(seg)@ == put_seq(
                        old(seg)@,
                        ring.payload_bytes,
                        next.last_read_idx,
                        (-(next.last_entry_seq as i64)) as i64,
                    )
                },
                (Some(ring), Ok(None)) => {
                    &&& ring.finds(old(seg)@, from_entry_seq, None)
                    &&& final(self).ring() == old(self).ring()
                    &&& final(seg)@ == old(seg)@
                },
                (Some(_), Err(_)) => false,
                (None, _) => {
                    &&& r matches Ok(None)
                    &&& final(self).ring() is None
                    &&& final(seg)@ == old(seg)@
                },
            },
    {
        match self.check_zero_copy() {
            Ok(()) => {},
            Err(e) => {
                return Err(e);
            },
        }
        match self.inner.take() {
            Some(mut inner) => {
                let r = inner.try_acquire(seg, from_entry_seq);
                self.inner = Some(inner);
                r
            },
            None => Ok(None),
        }
    }

    /// Return a held slot to the ring, restoring its control word to
    /// `+entry_seq`. Does nothing while unconnected.
    pub fn release(&mut self, seg: &mut Segment, handle: ReadHandle)
        requires
            old(self).fits(old(seg)@),
            old(self).ring() matches Some(ring) ==> 0 <= handle.slot() < ring.entry_count,
        ensures
            final(self).same_channel(old(self)),
            final(self).ring() == old(self).ring(),
            final(self).fits(final(seg)@),
            final(seg)@ == match old(self).ring() {
                Some(ring) => put_seq(
                    old(seg)@,
                    ring.payload_bytes,
                    handle.slot(),
                    handle.seq() as i64,
                ),
                None => old(seg)@,
            },
    {
        match self.inner.take() {
            Some(mut inner) => {
                inner.release(seg, handle);
                self.inner = Some(inner);
            },
            None => {},
        }
    }

    /// Begin a read; `None` while unconnected.
    pub fn begin_read(&self, from_entry_seq: Option<u64>, pin: bool) -> (op: Option<ReadOp>)
        requires
            self.wf(),
        ensures
            op is None <==> self.ring() is None,
            op matches Some(op) ==> self.ring() matches Some(ring) && {
                &&& op.wf()
                &&& op.count() == ring.entry_count
                &&& op.probe() == (ring.last_read_idx + 1) % ring.entry_count
                &&& op.watermark() == ring.effective(from_entry_seq)
                &&& from_entry_seq matches Some(from) ==> op.watermark() == from
                &&& from_entry_seq is None ==> op.watermark() == ring.last_entry_seq
                &&& op.pins() == pin
                &&& op.attempt() == 1
                &&& op.phase() == ReadPhase::Watermark
            },
    {
        match &self.inner {
            Some(inner) => Some(inner.begin_read(from_entry_seq, pin)),
            None => None,
        }
    }

    /// Record that `entry` has been returned. Does nothing while unconnected.
    pub fn finish_read(&mut self, entry: Entry)
        requires
            old(self).wf(),
            old(self).ring() matches Some(ring) ==> entry.index < ring.entry_count,
        ensures
            final(self).same_channel(old(self)),
            final(self).wf(),
            final(self).ring() == match old(self).ring() {
                Some(ring) => Some(ring.after(entry)),
                None => None,
            },
    {
        match self.inner.take() {
            Some(mut inner) => {
                inner.finish_read(entry);
                self.inner = Some(inner);
            },
            None => {},
        }
    }

    /// Hand the copy that a read made over to the caller, if the read found an
    /// entry. Otherwise `dst` and the reader's position are as they were,
    /// whatever was copied on the way.
    pub fn deliver(&mut self, found: Option<Entry>, copy: &[u8], dst: &mut [u8]) -> (r: Option<u64>)
        requires
            old(self).wf(),
            copy@.len() == old(dst)@.len(),
            found matches Some(entry) ==> (old(self).ring() matches Some(ring) && entry.index
                < ring.entry_count),
        ensures
            final(self).same_channel(old(self)),
            final(self).wf(),
            match found {
                Some(entry) => {
                    &&& r == Some(entry.entry_seq)
                    &&& final(dst)@ == copy@
                    &&& final(self).ring() == Some(old(self).ring()->0.after(entry))
                },
                None => {
                    &&& r is None
                    &&& final(dst)@ == old(dst)@
                    &&& final(self).ring() == old(self).ring()
                },
            },
    {
        match self.inner.take() {
            Some(mut inner) => {
                let seq: Option<u64> = inner.deliver(found, copy, dst);
                self.inner = Some(inner);
                seq
            },
            None => None,
        }
    }

    /// Reject a destination that does not hold an entry exactly. Anything goes
    /// while the channel is unconnected, since nothing is read then.
    pub fn check_size(&self, len: usize) -> (r: Result<(), ZeroChannelError>)
        ensures
            match (self.ring(), r) {
                (Some(ring), Ok(())) => len == ring.payload_bytes,
                (Some(ring), Err(e)) => len != ring.payload_bytes && e is InvalidArgument
                    && e.text() == wrong_size_text(len as nat, ring.payload_bytes as nat),
                (None, _) => r is Ok,
            },
    {
        match &self.inner {
            Some(inner) => inner.check_size(len),
            None => Ok(()),
        }
    }

    /// A handle on `entry`; `None` while unconnected.
    pub fn handle(&self, entry: Entry) -> (handle: Option<ReadHandle>)
        requires
            self.wf(),
            self.ring() matches Some(ring) ==> entry.index < ring.entry_count,
        ensures
            handle is None <==> self.ring() is None,
            handle matches Some(h) ==> self.ring() matches Some(ring) && h.refers_to(
                ring.payload_bytes,
                entry.index as int,
                entry.entry_seq,
            ),
    {
        match &self.inner {
            Some(inner) => Some(inner.handle(entry)),
            None => None,
        }
    }

    /// The owner cell to give back when this reader goes away, if it holds one.
    pub fn held_role(&self) -> (cell: Option<usize>)
        ensures
            cell == if self.zero_copy() && self.ring() is Some {
                Some(OFF_ZC_READER_OWNER)
            } else {
                None
            },
    {
        if !self.enable_zero_copy {
            return None;
        }
        match &self.inner {
            Some(_) => Some(OFF_ZC_READER_OWNER),
            None => None,
        }
    }

    /// Hand the zero-copy reader role back, as the process `me`, if this reader
    /// holds it.
    pub fn close(self, seg: &mut Segment, me: u64)
        requires
            self.fits(old(seg)@),
        ensures
            final(seg)@ == if self.zero_copy() && self.ring() is Some && word_at(
                old(seg)@,
                OFF_ZC_READER_OWNER as int,
            ) == me {
                put_word(old(seg)@, OFF_ZC_READER_OWNER as int, 0)
            } else {
                old(seg)@
            },
    {
        match self.held_role() {
            Some(cell) => {
                proof {
                    let ring = self.ring()->0;
                    lemma_slot_bounds(ring.payload_bytes, ring.entry_count, 0);
                }
                release_role(seg, cell, me);
            },
            None => {},
        }
    }
}

} // verus!
