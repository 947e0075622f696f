//! What a foreign runtime is told about a slot on loan, and about a failure.

use vstd::prelude::*;

use crate::error::ZeroChannelError;
use crate::export::{
    exception_kind, format_width, outstanding_text, requests, ExceptionKind, Format, FORMAT, ND,
    STRIDES, WRITABLE,
};
use crate::text::decimal;

verus! {

/// Every kind of failure has an exception of its own; only the one for a busy
/// ring says that trying again can help.
pub proof fn lemma_failures_keep_apart(e: ZeroChannelError)
    ensures
        exception_kind(e) == ExceptionKind::ValueError <==> e is InvalidArgument,
        exception_kind(e) == ExceptionKind::OsError <==> e is OsError,
        exception_kind(e) == ExceptionKind::BlockingIoError <==> e is Busy,
        exception_kind(e) == ExceptionKind::ChannelRoleConflict <==> e is RoleConflict,
        exception_kind(e) != ExceptionKind::BufferError,
{
}

/// A byte takes one byte and a float eight.
pub proof fn lemma_format_widths()
    ensures
        format_width(Format::Byte) == 1,
        format_width(Format::Double) == 8,
{
}

/// What a consumer asks for is told by single bits: to write by the lowest, the
/// format by the third, the shape by the fourth, and the strides by the fifth,
/// which goes along with the shape.
pub proof fn lemma_requests_are_bits(flags: i32)
    ensures
        requests(flags, WRITABLE) <==> flags & 1 != 0,
        requests(flags, FORMAT) <==> flags & 4 != 0,
        requests(flags, ND) <==> flags & 8 != 0,
        requests(flags, STRIDES) <==> flags & 8 != 0 && flags & 16 != 0,
{
    assert(flags & 1 == 1 <==> flags & 1 != 0) by (bit_vector);
    assert(flags & 4 == 4 <==> flags & 4 != 0) by (bit_vector);
    assert(flags & 8 == 8 <==> flags & 8 != 0) by (bit_vector);
    assert(flags & 0x18 == 0x18 <==> flags & 8 != 0 && flags & 16 != 0) by (bit_vector);
}

/// The error for a handle that is still exported says what was refused and how
/// many exports there are.
pub proof fn lemma_outstanding_exports_are_counted(action: Seq<char>, n: nat)
    ensures
        outstanding_text(action, n) == "cannot "@ + action + " this handle: "@ + decimal(n)
            + " buffer export"@ + (if n == 1 {
            " is"@
        } else {
            "s are"@
        })
            + " still outstanding. Every memoryview or numpy array derived from `payload` \
             must be dropped first (`del arr`), since the ring slot is recycled as soon as the handle is \
             finished. Copy the data out (`bytes(...)`, `numpy.array(...)`) if it needs to outlive the \
             handle."@,
{
}

} // verus!
