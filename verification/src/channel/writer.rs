//! Named, role-aware writer.
//!
//! [`RawWriter`] pairs the ring protocol's writer, which knows the ring but not
//! the operating system, with the channel name its segment comes from and the
//! exclusive writer role that keeps a second writer from silently shredding the
//! sequence numbering.

use vstd::prelude::*;
use vstd::string::StringExecFns;

use crate::error::ZeroChannelError;
use crate::lifecycle::{computable, declared, refusal, Connect, Request, Role};
use crate::metadata::{lemma_slot_bounds, Dtype, Header, OFF_WRITER_OWNER};
use crate::owner::release_role;
use crate::ring::{put_seq, ring_fits};
use crate::segment::{put_word, word_at, Segment};
use crate::writer::{
    all_held, attaches, busy_text, published, written, wrong_length_text, Publication, SlotClaim,
    WriterState,
};
use crate::zerocopy::WriteHandle;

verus! {

/// Single-writer end of a channel, operating on raw bytes.
///
/// This is the byte-level entry point: it knows the channel's name, the writer
/// role and deferred connection. Typed access is layered on top by
/// [`Writer`](crate::typed::Writer).
#[derive(Debug)]
pub struct RawWriter {
    name: String,
    dtype: Dtype,
    delayed_connect: bool,
    /// The ring protocol, once a segment exists.
    inner: Option<crate::writer::RawWriter>,
}

impl RawWriter {
    /// Name of the channel.
    pub closed spec fn name(&self) -> Seq<char> {
        self.name@
    }

    /// Element type.
    pub closed spec fn dtype(&self) -> Dtype {
        self.dtype
    }

    /// The channel may be used before its segment exists.
    pub closed spec fn delayed(&self) -> bool {
        self.delayed_connect
    }

    /// The writer's end of the ring, once connected.
    pub closed spec fn ring(&self) -> Option<WriterState> {
        match self.inner {
            Some(inner) => Some(inner@),
            None => None,
        }
    }

    /// The two writers differ in nothing but the ring.
    pub open spec fn same_channel(&self, other: &Self) -> bool {
        &&& self.name() == other.name()
        &&& self.dtype() == other.dtype()
        &&& self.delayed() == other.delayed()
    }

    /// The ring, once connected, is a valid one.
    pub open spec fn wf(&self) -> bool {
        self.ring() matches Some(ring) ==> ring.wf()
    }

    /// The writer can work on a segment of bytes `s`, if it is connected.
    pub open spec fn fits(&self, s: Seq<u8>) -> bool {
        self.ring() matches Some(ring) ==> ring.fits(s)
    }

    /// Begin to create or open a channel for writing, as the process `me`.
    ///
    /// `payload_bytes` must be a non-zero multiple of 8.
    ///
    /// Connecting claims the channel's writer role, which is exclusive: if a
    /// live process already holds it, connecting fails with
    /// [`ZeroChannelError::RoleConflict`]. A role left behind by a crashed
    /// writer is adopted.
    ///
    /// The writer is unconnected until [`RawWriter::bind`] is called with what
    /// connecting gave.
    pub fn new(
        name: &str,
        payload_bytes: Option<usize>,
        entry_count: Option<usize>,
        dtype: Dtype,
        delayed_connect: bool,
        me: u64,
    ) -> (r: Result<(Self, Connect), ZeroChannelError>)
        requires
            computable(payload_bytes, entry_count),
        ensures
            match r {
                Ok((writer, connect)) => {
                    &&& refusal(payload_bytes, entry_count) is None
                    &&& writer.name() == name@
                    &&& writer.dtype() == dtype
                    &&& writer.delayed() == delayed_connect
                    &&& writer.ring() is None
                    &&& connect.begun(
                        Request {
                            name: name@,
                            geometry: declared(payload_bytes, entry_count),
                            dtype,
                            delayed_connect,
                            reconnecting: false,
                            role: Some(Role::Writer),
                            me,
                        },
                    )
                },
                Err(e) => e is InvalidArgument && refusal(payload_bytes, entry_count) == Some(
                    e.text(),
                ),
            },
    {
        match Connect::open_or_create(
            name,
            payload_bytes,
            entry_count,
            dtype,
            delayed_connect,
            Some(Role::Writer),
            me,
        ) {
            Ok(connect) => Ok(
                (
                    RawWriter {
                        name: String::from_str(name),
                        dtype,
                        delayed_connect,
                        inner: None,
                    },
                    connect,
                ),
            ),
            Err(e) => Err(e),
        }
    }

    /// Bind the ring protocol of a segment whose writer role has been claimed.
    pub fn bind(&mut self, inner: crate::writer::RawWriter)
        ensures
            final(self).same_channel(old(self)),
            final(self).ring() == Some(inner@),
    {
        self.inner = Some(inner);
    }

    /// Bind the ring protocol to `seg`, described by `header`, recovering
    /// resume state from it.
    pub fn attach(&mut self, seg: &Segment, header: &Header)
        requires
            ring_fits(seg@, header.payload_bytes as int, header.entry_count as int),
        ensures
            final(self).same_channel(old(self)),
            final(self).ring() matches Some(ring) && attaches(*header, seg@, ring),
    {
        self.bind(crate::writer::RawWriter::attach(seg, header));
    }

    /// Payload bytes per entry (0 while a deferred channel is unconnected).
    pub fn payload_bytes(&self) -> (n: usize)
        ensures
            n == match self.ring() {
                Some(ring) => ring.payload_bytes,
                None => 0,
            },
    {
        match &self.inner {
            Some(inner) => inner.payload_bytes(),
            None => 0,
        }
    }

    /// Number of ring slots (0 while a deferred channel is unconnected).
    pub fn entry_count(&self) -> (n: usize)
        ensures
            n == match self.ring() {
                Some(ring) => ring.entry_count,
                None => 0,
            },
    {
        match &self.inner {
            Some(inner) => inner.entry_count(),
            None => 0,
        }
    }

    /// Sequence number of the most recently committed entry (0 if none).
    ///
    /// This is the writer's high watermark, mirrored in the segment header.
    pub fn last_entry_seq(&self) -> (seq: u64)
        ensures
            seq == match self.ring() {
                Some(ring) => ring.last_entry_seq,
                None => 0,
            },
    {
        match &self.inner {
            Some(inner) => inner.last_entry_seq(),
            None => 0,
        }
    }

    /// Begin to attach a deferred channel, as the process `me`; `None` when it
    /// is connected already.
    pub fn ensure_connected(&self, me: u64) -> (connect: Option<Connect>)
        ensures
            connect is None <==> self.ring() is Some,
            connect matches Some(c) ==> c.begun(
                Request {
                    name: self.name(),
                    geometry: None,
                    dtype: self.dtype(),
                    delayed_connect: self.delayed(),
                    reconnecting: true,
                    role: Some(Role::Writer),
                    me,
                },
            ),
    {
        match &self.inner {
            Some(_) => None,
            None => Some(
                Connect::try_attach(
                    self.name.as_str(),
                    self.dtype,
                    self.delayed_connect,
                    Some(Role::Writer),
                    me,
                ),
            ),
        }
    }

    /// Write one entry to the ring buffer (one-copy path).
    ///
    /// Does nothing while a deferred channel is still not connected.
    pub fn write(&mut self, seg: &mut Segment, data: &[u8]) -> (r: Result<(), ZeroChannelError>)
        requires
            old(self).fits(old(seg)@),
            old(self).ring() matches Some(ring) ==> ring.last_entry_seq < u64::MAX || data@.len()
                != ring.payload_bytes || all_held(ring.words(old(seg)@)),
        ensures
            final(self).same_channel(old(self)),
            final(self).fits(final(seg)@),
            match (old(self).ring(), r) {
                (Some(ring), Ok(())) => {
                    &&& data@.len() == ring.payload_bytes
                    &&& ring.target(old(seg)@) matches Some(index)
                    &&& final(self).ring() == Some(ring.after(index))
                    &&& final(seg)@ == written(
                        old(seg)@,
                        ring.payload_bytes,
                        ring.entry_count,
                        index,
                        data@,
                        (ring.last_entry_seq + 1) as u64,
                    )
                },
                (Some(ring), Err(e)) => {
                    &&& final(self).ring() == old(self).ring()
                    &&& final(seg)@ == old(seg)@
                    &&& if data@.len() != ring.payload_bytes {
                        e is InvalidArgument && e.text() == wrong_length_text(
                            ring.payload_bytes as nat,
                            data@.len(),
                        )
                    } else {
                        all_held(ring.words(old(seg)@)) && e is Busy && e.text() == busy_text(
                            ring.entry_count as nat,
                        )
                    }
                },
                (None, _) => r is Ok && final(self).ring() is None && final(seg)@ == old(seg)@,
            },
    {
        match self.inner.take() {
            Some(mut inner) => {
                let r = inner.write(seg, data);
                self.inner = Some(inner);
                r
            },
            None => Ok(()),
        }
    }

    /// Acquire the next ring slot for in-place construction (zero-copy path).
    ///
    /// Returns `Ok(None)` only when a deferred channel is still unconnected. The
    /// handle must be passed to [`RawWriter::commit`] to become visible.
    pub fn try_acquire(&mut self, seg: &mut Segment) -> (r: Result<
        Option<WriteHandle>,
        ZeroChannelError,
    >)
        requires
            old(self).fits(old(seg)@),
        ensures
            final(self).same_channel(old(self)),
            final(self).fits(final(seg)@),
            final(self).ring() == old(self).ring(),
            match (old(self).ring(), r) {
                (Some(ring), Ok(Some(handle))) => {
                    &&& ring.target(old(seg)@) matches Some(index)
                    &&& 0 <= index < ring.entry_count
                    &&& handle.refers_to(ring.payload_bytes, index)
                    &&& handle.within(final(seg)@)
                    &&& final(seg)@ == put_seq(old(seg)@, ring.payload_bytes, index, 0)
                },
                (Some(ring), Ok(None)) => false,
                (Some(ring), Err(e)) => {
                    &&& all_held(ring.words(old(seg)@))
                    &&& e is Busy
                    &&& e.text() == busy_text(ring.entry_count as nat)
                    &&& final(seg)@ == old(seg)@
                },
                (None, _) => r matches Ok(None) && final(seg)@ == old(seg)@,
            },
    {
        match self.inner.take() {
            Some(mut inner) => {
                let r = inner.try_acquire(seg);
                self.inner = Some(inner);
                match r {
                    Ok(handle) => Ok(Some(handle)),
                    Err(e) => Err(e),
                }
            },
            None => Ok(None),
        }
    }

    /// Publish a held slot and return its sequence number.
    pub fn commit(&mut self, seg: &mut Segment, handle: WriteHandle) -> (seq: u64)
        requires
            old(self).fits(old(seg)@),
            old(self).ring() matches Some(ring) && 0 <= handle.slot() < ring.entry_count
                && ring.last_entry_seq < u64::MAX,
        ensures
            final(self).same_channel(old(self)),
            final(self).fits(final(seg)@),
            old(self).ring() matches Some(ring) && {
                &&& seq == ring.last_entry_seq + 1
                &&& final(self).ring() == Some(ring.after(handle.slot()))
                &&& final(seg)@ == published(
                    old(seg)@,
                    ring.payload_bytes,
                    ring.entry_count,
                    handle.slot(),
                    seq,
                )
            },
    {
        match self.inner.take() {
            Some(mut inner) => {
                let seq: u64 = inner.commit(seg, handle);
                self.inner = Some(inner);
                seq
            },
            None => 0,
        }
    }

    /// Reject data that does not fill an entry exactly. Anything goes while the
    /// channel is unconnected, since nothing is written then.
    pub fn check_length(&self, len: usize) -> (r: Result<(), ZeroChannelError>)
        ensures
            match (self.ring(), r) {
                (Some(ring), Ok(())) => len == ring.payload_bytes,
                (Some(ring), Err(e)) => len != ring.payload_bytes && e is InvalidArgument
                    && e.text() == wrong_length_text(ring.payload_bytes as nat, len as nat),
                (None, _) => r is Ok,
            },
    {
        match &self.inner {
            Some(inner) => inner.check_length(len),
            None => Ok(()),
        }
    }

    /// Begin the search for a slot to write; `None` while unconnected.
    pub fn begin_claim(&self) -> (claim: Option<SlotClaim>)
        requires
            self.wf(),
        ensures
            claim is None <==> self.ring() is None,
            claim matches Some(c) ==> self.ring() matches Some(ring) && {
                &&& c.wf()
                &&& c.start() == ring.current_index
                &&& c.count() == ring.entry_count
                &&& c.tried() == 0
            },
    {
        match &self.inner {
            Some(inner) => Some(inner.begin_claim()),
            None => None,
        }
    }

    /// A handle on slot `index`; `None` while unconnected.
    pub fn handle(&self, index: usize) -> (handle: Option<WriteHandle>)
        requires
            self.wf(),
            self.ring() matches Some(ring) ==> index < ring.entry_count,
        ensures
            handle is None <==> self.ring() is None,
            handle matches Some(h) ==> self.ring() matches Some(ring) && h.refers_to(
                ring.payload_bytes,
                index as int,
            ),
    {
        match &self.inner {
            Some(inner) => Some(inner.handle(index)),
            None => None,
        }
    }

    /// Assign the next sequence number to slot `index`; `None` while
    /// unconnected.
    pub fn begin_publish(&mut self, index: usize) -> (plan: Option<Publication>)
        requires
            old(self).wf(),
            old(self).ring() matches Some(ring) ==> index < ring.entry_count && ring.last_entry_seq
                < u64::MAX,
        ensures
            final(self).same_channel(old(self)),
            final(self).wf(),
            match (old(self).ring(), plan) {
                (Some(ring), Some(p)) => {
                    &&& final(self).ring() == Some(ring.after(index as int))
                    &&& p.index == index
                    &&& p.entry_seq == ring.last_entry_seq + 1
                    &&& p.raw == p.entry_seq as i64
                    &&& p.write_index == (index + 1) % ring.entry_count
                },
                (None, None) => final(self).ring() is None,
                _ => false,
            },
    {
        match self.inner.take() {
            Some(mut inner) => {
                let plan = inner.begin_publish(index);
                self.inner = Some(inner);
                Some(plan)
            },
            None => None,
        }
    }

    /// The owner cell to give back when this writer goes away, if it holds one.
    pub fn held_role(&self) -> (cell: Option<usize>)
        ensures
            cell == match self.ring() {
                Some(_) => Some(OFF_WRITER_OWNER),
                None => None,
            },
    {
        match &self.inner {
            Some(_) => Some(OFF_WRITER_OWNER),
            None => None,
        }
    }

    /// Hand the writer role back, as the process `me`, so a successor can take
    /// it immediately.
    ///
    /// Only a clean exit gets here; a crash leaves the PID behind, which is
    /// exactly what the liveness check of a claim is there to resolve.
    pub fn close(self, seg: &mut Segment, me: u64)
        requires
            self.fits(old(seg)@),
        ensures
            final(seg)@ == if self.ring() is Some && word_at(old(seg)@, OFF_WRITER_OWNER as int)
                == me {
                put_word(old(seg)@, OFF_WRITER_OWNER as int, 0)
            } else {
                old(seg)@
            },
    {
        match self.held_role() {
            Some(cell) => {
                proof {
                    let ring = self.ring()->0;
                    lemma_slot_bounds(ring.payload_bytes, ring.entry_count, 0);
                }
                release_role(seg, cell, me);
            },
            None => {},
        }
    }
}

} // verus!
