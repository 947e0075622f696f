//! Lending ring slots to a foreign runtime through its buffer protocol.
//!
//! A handle is a borrowed view of one ring slot: pinned for reading, or owned
//! and unpublished for writing. Exposing that view without copying means
//! exporting a buffer that points straight into shared memory, so the slot must
//! not be recycled while any consumer still references it. A lease counts its
//! exports and refuses to hand the slot back while any is alive.

use vstd::prelude::*;
use vstd::string::StringExecFns;

use crate::error::ZeroChannelError;
use crate::text::{decimal, push_decimal};
use crate::zerocopy::{ReadHandle, WriteHandle};

verus! {

/// The kind of exception to raise.
///
/// The distinction that matters to callers is whether retrying can help:
/// `BlockingIoError` is transient, `ChannelRoleConflict` is not.
#[derive(Debug, Clone, Copy, PartialEq, Eq, Structural)]
pub enum ExceptionKind {
    /// A bad argument.
    ValueError,
    /// A failure of the operating system.
    OsError,
    /// A transient failure.
    BlockingIoError,
    /// An exclusive channel role is already held by a live process.
    ChannelRoleConflict,
    /// A buffer cannot be exported, or is still exported.
    BufferError,
}

/// An exception to raise.
#[derive(Debug)]
pub struct Exception {
    /// Its kind.
    pub kind: ExceptionKind,
    /// Its text.
    pub text: String,
}

/// The kind of exception that matches a channel failure.
pub open spec fn exception_kind(e: ZeroChannelError) -> ExceptionKind {
    match e {
        ZeroChannelError::InvalidArgument(_) => ExceptionKind::ValueError,
        ZeroChannelError::OsError(_) => ExceptionKind::OsError,
        ZeroChannelError::Busy(_) => ExceptionKind::BlockingIoError,
        ZeroChannelError::RoleConflict(_) => ExceptionKind::ChannelRoleConflict,
    }
}

/// Translate a channel failure into the exception that matches it.
pub fn to_exception(e: ZeroChannelError) -> (x: Exception)
    ensures
        x.kind == exception_kind(e),
        x.text@ == e.text(),
{
    match e {
        ZeroChannelError::InvalidArgument(text) => Exception {
            kind: ExceptionKind::ValueError,
            text,
        },
        ZeroChannelError::OsError(text) => Exception { kind: ExceptionKind::OsError, text },
        ZeroChannelError::Busy(text) => Exception { kind: ExceptionKind::BlockingIoError, text },
        ZeroChannelError::RoleConflict(text) => Exception {
            kind: ExceptionKind::ChannelRoleConflict,
            text,
        },
    }
}

/// Text of the error for a destination array of the wrong length.
pub open spec fn wrong_out_text(expected: nat, got: nat) -> Seq<char> {
    "out must hold exactly "@ + decimal(expected) + " elements, got "@ + decimal(got)
}

/// Validate a caller-supplied destination array: contiguous, and exactly
/// `expected` elements long.
pub fn check_out(contiguous: bool, len: usize, expected: usize) -> (r: Result<(), Exception>)
    ensures
        r is Ok <==> contiguous && len == expected,
        r matches Err(x) ==> x.kind == ExceptionKind::ValueError && x.text@ == if !contiguous {
            "out must be a contiguous array"@
        } else {
            wrong_out_text(expected as nat, len as nat)
        },
{
    if !contiguous {
        return Err(
            Exception {
                kind: ExceptionKind::ValueError,
                text: String::from_str("out must be a contiguous array"),
            },
        );
    }
    if len != expected {
        let mut text = String::from_str("out must hold exactly ");
        push_decimal(&mut text, expected as u64);
        text.append(" elements, got ");
        push_decimal(&mut text, len as u64);
        return Err(Exception { kind: ExceptionKind::ValueError, text });
    }
    Ok(())
}

/// Where a read puts the entry it finds.
#[derive(Debug, Clone, Copy, PartialEq, Eq, Structural)]
pub enum ReadPlan {
    /// Nowhere: a deferred channel is still unconnected.
    Nothing,
    /// Into a fresh array of this many elements.
    Fresh(usize),
    /// Into the caller's array, of this many elements.
    Supplied(usize),
}

/// Plan a read of a channel with `payload_bytes` bytes per entry. `out` says
/// whether the caller's array, if one was supplied, is contiguous, and how many
/// elements it holds.
pub fn plan_read(
    connected: bool,
    payload_bytes: usize,
    format: Format,
    out: Option<(bool, usize)>,
) -> (r: Result<ReadPlan, Exception>)
    ensures
        ({
            let expected = payload_bytes / format_width(format);
            match r {
                Ok(plan) => {
                    &&& plan == if !connected {
                        ReadPlan::Nothing
                    } else if out is None {
                        ReadPlan::Fresh(expected)
                    } else {
                        ReadPlan::Supplied(expected)
                    }
                    &&& connected && out is Some ==> out == Some((true, expected))
                },
                Err(x) => {
                    &&& connected
                    &&& out matches Some((contiguous, len))
                    &&& !(contiguous && len == expected)
                    &&& x.kind == ExceptionKind::ValueError
                    &&& x.text@ == if !contiguous {
                        "out must be a contiguous array"@
                    } else {
                        wrong_out_text(expected as nat, len as nat)
                    }
                },
            }
        }),
{
    if !connected {
        return Ok(ReadPlan::Nothing);
    }
    let expected: usize = payload_bytes / format.itemsize();
    match out {
        Some((contiguous, len)) => match check_out(contiguous, len, expected) {
            Ok(()) => Ok(ReadPlan::Supplied(expected)),
            Err(x) => Err(x),
        },
        None => Ok(ReadPlan::Fresh(expected)),
    }
}

/// Buffer request flag: the consumer wants to write.
pub const WRITABLE: i32 = 0x0001;

/// Buffer request flag: the consumer wants the element format.
pub const FORMAT: i32 = 0x0004;

/// Buffer request flag: the consumer wants the shape.
pub const ND: i32 = 0x0008;

/// Buffer request flags: the consumer wants the strides, and so the shape.
pub const STRIDES: i32 = 0x0018;

/// All bits of `flag` are set in `flags`.
pub open spec fn requests(flags: i32, flag: i32) -> bool {
    flags & flag == flag
}

/// Element format of a lease.
#[derive(Debug, Clone, Copy, PartialEq, Eq, Structural)]
pub enum Format {
    /// Unsigned bytes.
    Byte,
    /// Double-precision floats.
    Double,
}

/// Bytes per element of a format.
pub open spec fn format_width(format: Format) -> usize {
    match format {
        Format::Byte => 1,
        Format::Double => 8,
    }
}

impl Format {
    /// Bytes per element.
    pub fn itemsize(self) -> (n: usize)
        ensures
            n == format_width(self),
    {
        match self {
            Format::Byte => 1,
            Format::Double => 8,
        }
    }

    /// The buffer protocol's code for this format.
    pub fn code(self) -> (code: char)
        ensures
            code == match self {
                Format::Byte => 'B',
                Format::Double => 'd',
            },
    {
        match self {
            Format::Byte => 'B',
            Format::Double => 'd',
        }
    }
}

/// A one-dimensional export of a ring slot, as the buffer protocol describes it.
#[derive(Debug, Clone, Copy, PartialEq, Eq, Structural)]
pub struct BufferView {
    /// Byte offset of the exported bytes within the segment.
    pub offset: usize,
    /// Number of bytes.
    pub len: usize,
    /// The consumer may not write.
    pub readonly: bool,
    /// Bytes per element.
    pub itemsize: usize,
    /// Number of elements.
    pub shape: usize,
    /// Bytes from one element to the next.
    pub stride: usize,
    /// The element format is reported.
    pub with_format: bool,
    /// The shape is reported.
    pub with_shape: bool,
    /// The strides are reported.
    pub with_strides: bool,
}

/// Describe an export of the `len` bytes at `offset`, reporting what the
/// consumer asks for in `flags`.
pub fn fill_view(
    is_null: bool,
    flags: i32,
    offset: usize,
    len: usize,
    format: Format,
    readonly: bool,
) -> (r: Result<BufferView, Exception>)
    ensures
        match r {
            Ok(view) => {
                &&& !is_null
                &&& !(readonly && requests(flags, WRITABLE))
                &&& view == (BufferView {
                    offset,
                    len,
                    readonly,
                    itemsize: format_width(format),
                    shape: len / format_width(format),
                    stride: format_width(format),
                    with_format: requests(flags, FORMAT),
                    with_shape: requests(flags, ND),
                    with_strides: requests(flags, STRIDES),
                })
            },
            Err(x) => {
                &&& x.kind == ExceptionKind::BufferError
                &&& if is_null {
                    x.text@ == "buffer view is null"@
                } else {
                    readonly && requests(flags, WRITABLE) && x.text@
                        == "a read handle exports a read-only buffer"@
                }
            },
        },
{
    if is_null {
        return Err(
            Exception {
                kind: ExceptionKind::BufferError,
                text: String::from_str("buffer view is null"),
            },
        );
    }
    if readonly && flags & WRITABLE == WRITABLE {
        return Err(
            Exception {
                kind: ExceptionKind::BufferError,
                text: String::from_str("a read handle exports a read-only buffer"),
            },
        );
    }
    Ok(
        BufferView {
            offset,
            len,
            readonly,
            itemsize: format.itemsize(),
            shape: len / format.itemsize(),
            stride: format.itemsize(),
            with_format: flags & FORMAT == FORMAT,
            with_shape: flags & ND == ND,
            with_strides: flags & STRIDES == STRIDES,
        },
    )
}

/// Text of the error for a handle finished while views into it are alive.
pub open spec fn outstanding_text(action: Seq<char>, n: nat) -> Seq<char> {
    "cannot "@ + action + " this handle: "@ + decimal(n) + " buffer export"@ + (if n == 1 {
        " is"@
    } else {
        "s are"@
    })
        + " still outstanding. Every memoryview or numpy array derived from `payload` \
         must be dropped first (`del arr`), since the ring slot is recycled as soon as the handle is \
         finished. Copy the data out (`bytes(...)`, `numpy.array(...)`) if it needs to outlive the \
         handle."@
}

/// The error for a handle finished while views into it are still alive.
pub fn outstanding_exports(action: &str, n: usize) -> (x: Exception)
    ensures
        x.kind == ExceptionKind::BufferError,
        x.text@ == outstanding_text(action@, n as nat),
{
    let mut text = String::from_str("cannot ");
    text.append(action);
    text.append(" this handle: ");
    push_decimal(&mut text, n as u64);
    text.append(" buffer export");
    if n == 1 {
        text.append(" is");
    } else {
        text.append("s are");
    }
    text.append(
        " still outstanding. Every memoryview or numpy array derived from `payload` \
         must be dropped first (`del arr`), since the ring slot is recycled as soon as the handle is \
         finished. Copy the data out (`bytes(...)`, `numpy.array(...)`) if it needs to outlive the \
         handle.",
    );
    Exception { kind: ExceptionKind::BufferError, text }
}

/// The error for exporting a handle that is finished.
fn finished(text: &str) -> (x: Exception)
    ensures
        x.kind == ExceptionKind::BufferError,
        x.text@ == text@,
{
    Exception { kind: ExceptionKind::BufferError, text: String::from_str(text) }
}

/// A pinned entry on loan.
///
/// The slot cannot change underfoot for as long as the lease lives, and must be
/// handed back in the end, or it is retired from the ring.
#[derive(Debug)]
pub struct ReadLease {
    handle: Option<ReadHandle>,
    entry_seq: u64,
    format: Format,
    exports: usize,
}

impl ReadLease {
    /// The handle, until the slot is handed back.
    pub closed spec fn held(&self) -> Option<ReadHandle> {
        self.handle
    }

    /// Sequence number of the entry.
    pub closed spec fn seq(&self) -> u64 {
        self.entry_seq
    }

    /// Element format.
    pub closed spec fn element(&self) -> Format {
        self.format
    }

    /// Number of views alive.
    pub closed spec fn views(&self) -> nat {
        self.exports as nat
    }

    /// Lend out `handle`.
    pub fn new(handle: ReadHandle, format: Format) -> (lease: Self)
        ensures
            lease.held() == Some(handle),
            lease.seq() == handle.seq(),
            lease.element() == format,
            lease.views() == 0,
    {
        let entry_seq: u64 = handle.entry_seq();
        ReadLease { handle: Some(handle), entry_seq, format, exports: 0 }
    }

    /// Sequence number of the held entry.
    pub fn entry_seq(&self) -> (seq: u64)
        ensures
            seq == self.seq(),
    {
        self.entry_seq
    }

    /// Element format of the views.
    pub fn format(&self) -> (format: Format)
        ensures
            format == self.element(),
    {
        self.format
    }

    /// True once the slot has been handed back to the ring.
    pub fn released(&self) -> (released: bool)
        ensures
            released <==> self.held() is None,
    {
        self.handle.is_none()
    }

    /// Number of views currently borrowing the payload.
    pub fn exports(&self) -> (n: usize)
        ensures
            n == self.views(),
    {
        self.exports
    }

    /// Whether there is a slot to hand back. Refused while any view into the
    /// payload is still alive.
    pub fn check_release(&self) -> (r: Result<bool, Exception>)
        ensures
            match r {
                Ok(held) => (held <==> self.held() is Some) && (held ==> self.views() == 0),
                Err(x) => {
                    &&& self.held() is Some
                    &&& self.views() > 0
                    &&& x.kind == ExceptionKind::BufferError
                    &&& x.text@ == outstanding_text("release"@, self.views())
                },
            },
    {
        if self.handle.is_none() {
            return Ok(false);
        }
        if self.exports != 0 {
            return Err(outstanding_exports("release", self.exports));
        }
        Ok(true)
    }

    /// Give up the handle, to be handed back to the ring. Idempotent; refused
    /// while any view into the payload is still alive, in which case the lease
    /// goes on and can be released once they are gone.
    pub fn release(&mut self) -> (r: Result<Option<ReadHandle>, Exception>)
        ensures
            final(self).seq() == old(self).seq(),
            final(self).element() == old(self).element(),
            final(self).views() == old(self).views(),
            match r {
                Ok(handle) => {
                    &&& handle == old(self).held()
                    &&& handle is Some ==> old(self).views() == 0
                    &&& final(self).held() is None
                },
                Err(x) => {
                    &&& old(self).held() is Some
                    &&& old(self).views() > 0
                    &&& final(self).held() == old(self).held()
                    &&& x.kind == ExceptionKind::BufferError
                    &&& x.text@ == outstanding_text("release"@, old(self).views())
                },
            },
    {
        match self.check_release() {
            Ok(true) => Ok(self.handle.take()),
            Ok(false) => Ok(None),
            Err(x) => Err(x),
        }
    }

    /// Export a view of the payload.
    pub fn export(&mut self, is_null: bool, flags: i32) -> (r: Result<BufferView, Exception>)
        requires
            old(self).views() < usize::MAX,
        ensures
            final(self).held() == old(self).held(),
            final(self).seq() == old(self).seq(),
            final(self).element() == old(self).element(),
            match r {
                Ok(view) => {
                    &&& old(self).held() matches Some(handle)
                    &&& !is_null
                    &&& !requests(flags, WRITABLE)
                    &&& final(self).views() == old(self).views() + 1
                    &&& view.offset == handle.start()
                    &&& view.len == handle.size()
                    &&& view.readonly
                    &&& view.itemsize == format_width(old(self).element())
                    &&& view.shape == view.len / view.itemsize
                    &&& view.stride == view.itemsize
                    &&& view.with_format == requests(flags, FORMAT)
                    &&& view.with_shape == requests(flags, ND)
                    &&& view.with_strides == requests(flags, STRIDES)
                },
                Err(x) => {
                    &&& final(self).views() == old(self).views()
                    &&& x.kind == ExceptionKind::BufferError
                    &&& if old(self).held() is None {
                        x.text@ == "this handle has already been released"@
                    } else if is_null {
                        x.text@ == "buffer view is null"@
                    } else {
                        requests(flags, WRITABLE) && x.text@
                            == "a read handle exports a read-only buffer"@
                    }
                },
            },
    {
        match &self.handle {
            Some(handle) => {
                match fill_view(
                    is_null,
                    flags,
                    handle.offset(),
                    handle.len(),
                    self.format,
                    true,
                ) {
                    Ok(view) => {
                        self.exports = self.exports + 1;
                        Ok(view)
                    },
                    Err(x) => Err(x),
                }
            },
            None => Err(finished("this handle has already been released")),
        }
    }

    /// A view of the payload is gone.
    pub fn unexport(&mut self)
        ensures
            final(self).held() == old(self).held(),
            final(self).seq() == old(self).seq(),
            final(self).element() == old(self).element(),
            final(self).views() == if old(self).views() > 0 {
                old(self).views() - 1
            } else {
                0
            },
    {
        self.exports = self.exports.saturating_sub(1);
    }
}

/// A claimed, unpublished slot on loan.
///
/// Readers skip the slot for as long as the lease lives. An abandoned lease
/// simply leaves the slot empty for the next write.
#[derive(Debug)]
pub struct WriteLease {
    handle: Option<WriteHandle>,
    format: Format,
    exports: usize,
}

impl WriteLease {
    /// The handle, until the entry is published.
    pub closed spec fn held(&self) -> Option<WriteHandle> {
        self.handle
    }

    /// Element format.
    pub closed spec fn element(&self) -> Format {
        self.format
    }

    /// Number of views alive.
    pub closed spec fn views(&self) -> nat {
        self.exports as nat
    }

    /// Lend out `handle`.
    pub fn new(handle: WriteHandle, format: Format) -> (lease: Self)
        ensures
            lease.held() == Some(handle),
            lease.element() == format,
            lease.views() == 0,
    {
        WriteLease { handle: Some(handle), format, exports: 0 }
    }

    /// Element format of the views.
    pub fn format(&self) -> (format: Format)
        ensures
            format == self.element(),
    {
        self.format
    }

    /// True once the entry has been published.
    pub fn committed(&self) -> (committed: bool)
        ensures
            committed <==> self.held() is None,
    {
        self.handle.is_none()
    }

    /// Number of views currently borrowing the payload.
    pub fn exports(&self) -> (n: usize)
        ensures
            n == self.views(),
    {
        self.exports
    }

    /// Whether the entry may be published. Refused once it has been, and while
    /// any view into the payload is still alive: writing through one after the
    /// entry is visible would corrupt a published entry.
    pub fn check_commit(&self) -> (r: Result<(), Exception>)
        ensures
            r is Ok <==> self.held() is Some && self.views() == 0,
            r matches Err(x) ==> if self.held() is None {
                x.kind == ExceptionKind::ValueError && x.text@
                    == "handle has already been committed"@
            } else {
                x.kind == ExceptionKind::BufferError && x.text@ == outstanding_text(
                    "commit"@,
                    self.views(),
                )
            },
    {
        if self.handle.is_none() {
            return Err(
                Exception {
                    kind: ExceptionKind::ValueError,
                    text: String::from_str("handle has already been committed"),
                },
            );
        }
        if self.exports != 0 {
            return Err(outstanding_exports("commit", self.exports));
        }
        Ok(())
    }

    /// Give up the handle, to be published.
    pub fn commit(&mut self) -> (r: Result<WriteHandle, Exception>)
        ensures
            final(self).element() == old(self).element(),
            final(self).views() == old(self).views(),
            match r {
                Ok(handle) => {
                    &&& old(self).held() == Some(handle)
                    &&& old(self).views() == 0
                    &&& final(self).held() is None
                },
                Err(x) => {
                    &&& final(self).held() == old(self).held()
                    &&& if old(self).held() is None {
                        x.kind == ExceptionKind::ValueError && x.text@
                            == "handle has already been committed"@
                    } else {
                        old(self).views() > 0 && x.kind == ExceptionKind::BufferError && x.text@
                            == outstanding_text("commit"@, old(self).views())
                    }
                },
            },
    {
        match self.check_commit() {
            Ok(()) => {},
            Err(x) => {
                return Err(x);
            },
        }
        match self.handle.take() {
            Some(handle) => Ok(handle),
            None => Err(finished("this handle has already been committed")),
        }
    }

    /// Whether leaving a block that holds the lease publishes the entry: on a
    /// clean exit it does, unless it was published already, and when the block
    /// raised it is abandoned.
    pub fn commits_on_exit(&self, raised: bool) -> (commit: bool)
        ensures
            commit <==> !raised && self.held() is Some,
    {
        !raised && self.handle.is_some()
    }

    /// Export a view of the payload.
    pub fn export(&mut self, is_null: bool, flags: i32) -> (r: Result<BufferView, Exception>)
        requires
            old(self).views() < usize::MAX,
        ensures
            final(self).held() == old(self).held(),
            final(self).element() == old(self).element(),
            match r {
                Ok(view) => {
                    &&& old(self).held() matches Some(handle)
                    &&& !is_null
                    &&& final(self).views() == old(self).views() + 1
                    &&& view.offset == handle.start()
                    &&& view.len == handle.size()
                    &&& !view.readonly
                    &&& view.itemsize == format_width(old(self).element())
                    &&& view.shape == view.len / view.itemsize
                    &&& view.stride == view.itemsize
                    &&& view.with_format == requests(flags, FORMAT)
                    &&& view.with_shape == requests(flags, ND)
                    &&& view.with_strides == requests(flags, STRIDES)
                },
                Err(x) => {
                    &&& final(self).views() == old(self).views()
                    &&& x.kind == ExceptionKind::BufferError
                    &&& if old(self).held() is None {
                        x.text@ == "this handle has already been committed"@
                    } else {
                        is_null && x.text@ == "buffer view is null"@
                    }
                },
            },
    {
        match &self.handle {
            Some(handle) => {
                match fill_view(
                    is_null,
                    flags,
                    handle.offset(),
                    handle.len(),
                    self.format,
                    false,
                ) {
                    Ok(view) => {
                        self.exports = self.exports + 1;
                        Ok(view)
                    },
                    Err(x) => Err(x),
                }
            },
            None => Err(finished("this handle has already been committed")),
        }
    }

    /// A view of the payload is gone.
    pub fn unexport(&mut self)
        ensures
            final(self).held() == old(self).held(),
            final(self).element() == old(self).element(),
            final(self).views() == if old(self).views() > 0 {
                old(self).views() - 1
            } else {
                0
            },
    {
        self.exports = self.exports.saturating_sub(1);
    }
}

} // verus!
