//! Zero-copy slot handles.
//!
//! Both ends of the channel borrow a ring slot in place rather than copying
//! through it: [`WriteHandle`] is an exclusive, not-yet-published slot the
//! writer fills directly, and [`ReadHandle`] is a committed slot pinned against
//! overwrite while a reader looks at it. A handle names its slot by position;
//! the bytes it gives access to are those of the segment it was acquired on.

use vstd::prelude::*;

use crate::element::{
    check_elements, decode_all, decoding_of, encode_all, encoding_of, lemma_encoding_of,
    partial_element_text, whole_elements, Element,
};
use crate::error::ZeroChannelError;
use crate::metadata::{slot_at, SLOT_ALIGN};
use crate::segment::{splice, Segment};

verus! {

/// An exclusive, not-yet-published view of one ring slot.
///
/// The slot's control word has already been set to `0`, so readers skip it
/// while it is being filled. Write into [`WriteHandle::as_bytes_mut`] (or
/// [`WriteHandle::as_slice_mut`]) and commit the handle to publish it.
///
/// Dropping a handle without committing simply leaves the slot empty; the next
/// write reclaims it.
#[derive(Debug)]
pub struct WriteHandle {
    index: usize,
    offset: usize,
    len: usize,
}

impl WriteHandle {
    /// Ring index this handle refers to.
    pub closed spec fn slot(&self) -> int {
        self.index as int
    }

    /// Byte offset of the held payload.
    pub closed spec fn start(&self) -> int {
        self.offset as int
    }

    /// Length of the held payload in bytes.
    pub closed spec fn size(&self) -> int {
        self.len as int
    }

    /// The handle stands for slot `idx` of a ring with this payload size.
    pub open spec fn refers_to(&self, payload_bytes: int, idx: int) -> bool {
        &&& self.slot() == idx
        &&& self.start() == slot_at(payload_bytes, idx) + SLOT_ALIGN
        &&& self.size() == payload_bytes
    }

    /// The held payload lies inside a segment of bytes `s`.
    pub open spec fn within(&self, s: Seq<u8>) -> bool {
        0 <= self.start() && 0 <= self.size() && self.start() + self.size() <= s.len()
    }

    /// A handle on slot `index`, whose payload is `len` bytes at `offset`.
    pub(crate) fn new(index: usize, offset: usize, len: usize) -> (handle: Self)
        ensures
            handle.slot() == index,
            handle.start() == offset,
            handle.size() == len,
    {
        WriteHandle { index, offset, len }
    }

    /// Ring index this handle refers to.
    pub fn index(&self) -> (index: usize)
        ensures
            index == self.slot(),
    {
        self.index
    }

    /// Byte offset of the held payload within the segment.
    pub fn offset(&self) -> (offset: usize)
        ensures
            offset == self.start(),
    {
        self.offset
    }

    /// Length of the held payload in bytes.
    pub fn len(&self) -> (len: usize)
        ensures
            len == self.size(),
    {
        self.len
    }

    /// Mutable byte view of the held payload.
    pub fn as_bytes_mut<'a>(&mut self, seg: &'a mut Segment) -> (bytes: &'a mut [u8])
        requires
            old(self).within(old(seg)@),
        ensures
            *final(self) == *old(self),
            bytes@ == old(seg)@.subrange(old(self).start(), old(self).start() + old(self).size()),
            final(seg)@ == old(seg)@.subrange(0, old(self).start()) + final(bytes)@ + old(
                seg,
            )@.subrange(old(self).start() + old(self).size(), old(seg)@.len() as int),
    {
        seg.bytes_at_mut(self.offset, self.len)
    }

    /// Fill the held payload with `data`, as elements of `T`.
    pub fn as_slice_mut<T: Element>(&mut self, seg: &mut Segment, data: &[T]) -> (r: Result<
        (),
        ZeroChannelError,
    >)
        requires
            old(self).within(old(seg)@),
            whole_elements(old(self).size(), T::width() as int) ==> data@.len() * T::width()
                == old(self).size(),
        ensures
            *final(self) == *old(self),
            r is Ok <==> whole_elements(old(self).size(), T::width() as int),
            r is Ok ==> final(seg)@ == splice(old(seg)@, old(self).start(), encoding_of(data@)),
            r matches Err(e) ==> e is InvalidArgument && e.text() == partial_element_text(
                old(self).size() as nat,
                T::width(),
            ) && final(seg)@ == old(seg)@,
    {
        match check_elements(self.len, T::size()) {
            Ok(()) => {
                let bytes: Vec<u8> = encode_all(data);
                proof {
                    lemma_encoding_of(data@);
                }
                seg.copy_in(self.offset, bytes.as_slice());
                Ok(())
            },
            Err(e) => Err(e),
        }
    }
}

/// A borrowed, in-place view of one committed ring slot.
///
/// Acquiring it flips the slot's control word to `-entry_seq` so the writer
/// skips it. The view stays valid until the handle is released, which the
/// holder must do, or the slot is retired from the ring for good.
#[derive(Debug)]
pub struct ReadHandle {
    index: usize,
    entry_seq: u64,
    offset: usize,
    len: usize,
}

impl ReadHandle {
    /// Ring index this handle refers to.
    pub closed spec fn slot(&self) -> int {
        self.index as int
    }

    /// Sequence number of the held entry.
    pub closed spec fn seq(&self) -> u64 {
        self.entry_seq
    }

    /// Byte offset of the held payload.
    pub closed spec fn start(&self) -> int {
        self.offset as int
    }

    /// Length of the held payload in bytes.
    pub closed spec fn size(&self) -> int {
        self.len as int
    }

    /// The handle stands for entry `seq` in slot `idx` of a ring with this
    /// payload size.
    pub open spec fn refers_to(&self, payload_bytes: int, idx: int, seq: u64) -> bool {
        &&& self.slot() == idx
        &&& self.seq() == seq
        &&& self.start() == slot_at(payload_bytes, idx) + SLOT_ALIGN
        &&& self.size() == payload_bytes
    }

    /// The held payload lies inside a segment of bytes `s`.
    pub open spec fn within(&self, s: Seq<u8>) -> bool {
        0 <= self.start() && 0 <= self.size() && self.start() + self.size() <= s.len()
    }

    /// A handle on entry `entry_seq` in slot `index`, whose payload is `len`
    /// bytes at `offset`.
    pub(crate) fn new(index: usize, entry_seq: u64, offset: usize, len: usize) -> (handle: Self)
        ensures
            handle.slot() == index,
            handle.seq() == entry_seq,
            handle.start() == offset,
            handle.size() == len,
    {
        ReadHandle { index, entry_seq, offset, len }
    }

    /// Sequence number of the held entry.
    pub fn entry_seq(&self) -> (seq: u64)
        ensures
            seq == self.seq(),
    {
        self.entry_seq
    }

    /// Ring index this handle refers to.
    pub fn index(&self) -> (index: usize)
        ensures
            index == self.slot(),
    {
        self.index
    }

    /// Byte offset of the held payload within the segment.
    pub fn offset(&self) -> (offset: usize)
        ensures
            offset == self.start(),
    {
        self.offset
    }

    /// Length of the held payload in bytes.
    pub fn len(&self) -> (len: usize)
        ensures
            len == self.size(),
    {
        self.len
    }

    /// Byte view of the held payload.
    pub fn as_bytes<'a>(&self, seg: &'a Segment) -> (bytes: &'a [u8])
        requires
            self.within(seg@),
        ensures
            bytes@ == seg@.subrange(self.start(), self.start() + self.size()),
    {
        seg.bytes_at(self.offset, self.len)
    }

    /// The held payload as elements of `T`.
    pub fn as_slice<T: Element>(&self, seg: &Segment) -> (r: Result<Vec<T>, ZeroChannelError>)
        requires
            self.within(seg@),
        ensures
            r is Ok <==> whole_elements(self.size(), T::width() as int),
            r matches Ok(data) ==> data@ == decoding_of::<T>(
                seg@.subrange(self.start(), self.start() + self.size()),
            ),
            r matches Err(e) ==> e is InvalidArgument && e.text() == partial_element_text(
                self.size() as nat,
                T::width(),
            ),
    {
        match check_elements(self.len, T::size()) {
            Ok(()) => Ok(decode_all(self.as_bytes(seg))),
            Err(e) => Err(e),
        }
    }
}

} // verus!
