//! Layout of a channel segment.
//!
//! Everything that describes *where* bytes live is here: header offsets, slot
//! stride, the magic latch, the element type tag. A segment is a header of nine
//! 64-bit words followed by the ring slots, and each slot is a signed 64-bit
//! `entry_seq` control word followed by the payload:
//!
//! | `entry_seq` | Meaning |
//! |---|---|
//! | `0` | empty, or a writer is mid-write |
//! | `> 0` | committed entry with sequence number `entry_seq` |
//! | `< 0` | committed entry `-entry_seq`, currently held by a reader |

use vstd::prelude::*;
use vstd::string::StringExecFns;

use crate::error::ZeroChannelError;
use crate::text::{decimal, push_decimal};

verus! {

/// Size of the prefix header: nine 64-bit words.
///
/// | Offset | Field | |
/// |---|---|---|
/// | `0..8` | `magic` and `version` | immutable |
/// | `8..16` | `payload_bytes` | immutable |
/// | `16..24` | `entry_count` | immutable |
/// | `24..32` | `dtype` | immutable |
/// | `32..40` | `segment_owner`: PID, `0` when unclaimed | mutable |
/// | `40..48` | `writer_owner`: PID, `0` when unclaimed | mutable |
/// | `48..56` | `zero_copy_reader_owner`: PID, `0` when unclaimed | mutable |
/// | `56..64` | `current_write_index` | mutable |
/// | `64..72` | `last_entry_seq` | mutable |
pub const HEADER_BYTES: usize = 72;

/// Byte offset of the combined `magic` and `version` word.
pub const OFF_MAGIC: usize = 0;

/// Byte offset of `payload_bytes`.
pub const OFF_PAYLOAD_BYTES: usize = 8;

/// Byte offset of `entry_count`.
pub const OFF_ENTRY_COUNT: usize = 16;

/// Byte offset of the `dtype` tag.
pub const OFF_DTYPE: usize = 24;

/// Byte offset of `segment_owner`, the PID of the process responsible for
/// unlinking the segment.
pub const OFF_SEGMENT_OWNER: usize = 32;

/// Byte offset of `writer_owner`, the PID of the process holding the writer
/// role.
pub const OFF_WRITER_OWNER: usize = 40;

/// Byte offset of `zero_copy_reader_owner`, the PID of the process holding the
/// zero-copy reader role.
pub const OFF_ZC_READER_OWNER: usize = 48;

/// Byte offset of `current_write_index`.
pub const OFF_WRITE_INDEX: usize = 56;

/// Byte offset of `last_entry_seq`, the writer's high watermark.
pub const OFF_LAST_ENTRY_SEQ: usize = 64;

/// Identifies the segment as a channel ring: ASCII `ZCHN`.
pub const MAGIC: u32 = 0x5A43_484E;

/// Layout revision, bumped whenever the byte layout changes.
pub const VERSION: u32 = 1;

/// `magic` in the high half, `version` in the low half.
pub const MAGIC_VERSION: u64 = 0x5A43_484E_0000_0001;

/// Number of values of a 32-bit half word.
pub const HALF_WORD: u64 = 0x1_0000_0000;

/// Required alignment, and size granularity, of a ring slot in bytes.
pub const SLOT_ALIGN: usize = 8;

/// How many times a read tries again after observing a torn entry.
pub const READ_RETRIES: usize = 4;

/// The magic word is the magic in the high half and the version in the low one.
pub proof fn lemma_magic_version()
    ensures
        MAGIC_VERSION == MAGIC * HALF_WORD + VERSION,
        MAGIC_VERSION / HALF_WORD == MAGIC,
        MAGIC_VERSION % HALF_WORD == VERSION,
        MAGIC_VERSION != 0,
{
}

/// Element type recorded in the channel header.
///
/// `U8` means "opaque bytes": a participant requesting it attaches to a channel
/// of any declared type. Every other variant requires an exact match.
#[derive(Debug, Clone, Copy, PartialEq, Eq, Structural)]
pub enum Dtype {
    /// Opaque bytes.
    U8,
    /// Signed 64-bit integers.
    I64,
    /// IEEE-754 double-precision floats.
    F64,
}

/// The stable code of an element type.
pub open spec fn dtype_code(dtype: Dtype) -> u64 {
    match dtype {
        Dtype::U8 => 0,
        Dtype::I64 => 1,
        Dtype::F64 => 2,
    }
}

/// The human-readable name of an element type code.
pub open spec fn dtype_name(code: u64) -> Seq<char> {
    if code == 0 {
        "u8"@
    } else if code == 1 {
        "i64"@
    } else if code == 2 {
        "f64"@
    } else {
        "unknown"@
    }
}

impl Dtype {
    /// Stable code stored in the header.
    pub fn code(self) -> (code: u64)
        ensures
            code == dtype_code(self),
    {
        match self {
            Dtype::U8 => 0,
            Dtype::I64 => 1,
            Dtype::F64 => 2,
        }
    }

    /// Human-readable name of a stored code, used in error messages.
    pub fn name_of_code(code: u64) -> (name: &'static str)
        ensures
            name@ == dtype_name(code),
    {
        match code {
            0 => "u8",
            1 => "i64",
            2 => "f64",
            _ => "unknown",
        }
    }

    /// Human-readable name of this type.
    pub fn name(self) -> (name: &'static str)
        ensures
            name@ == dtype_name(dtype_code(self)),
    {
        Dtype::name_of_code(self.code())
    }
}

/// Size in bytes of one ring slot: the control word and the payload.
pub open spec fn slot_bytes(payload_bytes: int) -> int {
    SLOT_ALIGN + payload_bytes
}

/// Size in bytes of a segment: the header and `entry_count` slots.
pub open spec fn segment_bytes(payload_bytes: int, entry_count: int) -> int {
    HEADER_BYTES + entry_count * slot_bytes(payload_bytes)
}

/// Byte offset of slot `idx`, which is that of its control word.
pub open spec fn slot_at(payload_bytes: int, idx: int) -> int {
    HEADER_BYTES + idx * slot_bytes(payload_bytes)
}

/// Slot `idx` ends where slot `idx + 1` starts, and the last slot ends where the
/// segment does.
pub proof fn lemma_slot_bounds(payload_bytes: int, entry_count: int, idx: int)
    requires
        0 <= payload_bytes,
        0 <= idx < entry_count,
    ensures
        HEADER_BYTES <= slot_at(payload_bytes, idx),
        slot_at(payload_bytes, idx) + slot_bytes(payload_bytes) == slot_at(payload_bytes, idx + 1),
        slot_at(payload_bytes, idx + 1) <= segment_bytes(payload_bytes, entry_count),
{
    let e = slot_bytes(payload_bytes);
    assert(idx * e + e == (idx + 1) * e) by (nonlinear_arith);
    assert((idx + 1) * e <= entry_count * e) by (nonlinear_arith)
        requires
            idx + 1 <= entry_count,
            0 <= e,
    ;
    assert(0 <= idx * e) by (nonlinear_arith)
        requires
            0 <= idx,
            0 <= e,
    ;
}

/// A segment holds each of its slots, and has more bytes than twice its slots.
pub proof fn lemma_addressable(payload_bytes: int, entry_count: int)
    requires
        0 <= payload_bytes,
        0 < entry_count,
    ensures
        slot_bytes(payload_bytes) <= segment_bytes(payload_bytes, entry_count),
        2 * entry_count <= segment_bytes(payload_bytes, entry_count),
{
    let e = slot_bytes(payload_bytes);
    assert(e <= entry_count * e && 2 * entry_count <= entry_count * e) by (nonlinear_arith)
        requires
            1 <= entry_count,
            2 <= e,
    ;
}

/// Different slots occupy disjoint byte ranges.
pub proof fn lemma_slots_disjoint(payload_bytes: int, i: int, j: int)
    requires
        0 <= payload_bytes,
        0 <= i < j,
    ensures
        slot_at(payload_bytes, i) + slot_bytes(payload_bytes) <= slot_at(payload_bytes, j),
{
    let e = slot_bytes(payload_bytes);
    assert(i * e + e == (i + 1) * e) by (nonlinear_arith);
    assert((i + 1) * e <= j * e) by (nonlinear_arith)
        requires
            i + 1 <= j,
            0 <= e,
    ;
}

/// Every control word is aligned: when the payload size is a multiple of the
/// slot alignment, so is the offset of every slot, and the payload behind it.
pub proof fn lemma_slots_aligned(payload_bytes: int, idx: int)
    requires
        0 <= payload_bytes,
        payload_bytes % SLOT_ALIGN as int == 0,
        0 <= idx,
    ensures
        slot_at(payload_bytes, idx) % SLOT_ALIGN as int == 0,
        (slot_at(payload_bytes, idx) + SLOT_ALIGN) % SLOT_ALIGN as int == 0,
    decreases idx,
{
    let e = slot_bytes(payload_bytes);
    if idx > 0 {
        lemma_slots_aligned(payload_bytes, idx - 1);
        assert((idx - 1) * e + e == idx * e) by (nonlinear_arith);
    } else {
        assert(idx * e == 0) by (nonlinear_arith)
            requires
                idx == 0,
        ;
    }
}

/// Size in bytes of one ring slot.
pub fn entry_bytes(payload_bytes: usize) -> (n: usize)
    requires
        slot_bytes(payload_bytes as int) <= usize::MAX,
    ensures
        n == slot_bytes(payload_bytes as int),
{
    SLOT_ALIGN + payload_bytes
}

/// Total allocation: the header and `entry_count` slots.
pub fn required_bytes(payload_bytes: usize, entry_count: usize) -> (n: usize)
    requires
        slot_bytes(payload_bytes as int) <= usize::MAX,
        segment_bytes(payload_bytes as int, entry_count as int) <= usize::MAX,
    ensures
        n == segment_bytes(payload_bytes as int, entry_count as int),
        n == 72 + entry_count * (8 + payload_bytes),
{
    HEADER_BYTES + entry_count * entry_bytes(payload_bytes)
}

/// Byte offset of the control word of ring slot `idx`.
pub fn slot_offset(payload_bytes: usize, idx: usize) -> (n: usize)
    requires
        slot_bytes(payload_bytes as int) <= usize::MAX,
        slot_at(payload_bytes as int, idx as int) <= usize::MAX,
    ensures
        n == slot_at(payload_bytes as int, idx as int),
        n == 72 + idx * (8 + payload_bytes),
{
    HEADER_BYTES + idx * entry_bytes(payload_bytes)
}

/// Byte offset of the payload of ring slot `idx`.
pub fn payload_offset(payload_bytes: usize, idx: usize) -> (n: usize)
    requires
        slot_bytes(payload_bytes as int) <= usize::MAX,
        slot_at(payload_bytes as int, idx as int) + SLOT_ALIGN <= usize::MAX,
    ensures
        n == slot_at(payload_bytes as int, idx as int) + SLOT_ALIGN,
        n == 80 + idx * (8 + payload_bytes),
{
    slot_offset(payload_bytes, idx) + SLOT_ALIGN
}

/// A geometry that keeps every control word aligned and holds something.
pub open spec fn geometry_ok(payload_bytes: int, entry_count: int) -> bool {
    &&& payload_bytes > 0
    &&& entry_count > 0
    &&& payload_bytes % SLOT_ALIGN as int == 0
}

/// Text of the error for a payload size that would misalign the slots.
pub open spec fn misaligned_text(payload_bytes: nat) -> Seq<char> {
    "payload must be a multiple of 8 bytes to keep slot entry_seq words aligned, got "@
        + decimal(payload_bytes)
}

/// Reject geometries that would misalign a slot control word.
pub fn check_geometry(payload_bytes: usize, entry_count: usize) -> (r: Result<(), ZeroChannelError>)
    ensures
        r is Ok <==> geometry_ok(payload_bytes as int, entry_count as int),
        r is Ok <==> 0 < payload_bytes && 0 < entry_count && payload_bytes % 8 == 0,
        r matches Err(e) ==> e is InvalidArgument && e.text() == if payload_bytes == 0
            || entry_count == 0 {
            "entry_length and entry_count must be non-zero"@
        } else {
            misaligned_text(payload_bytes as nat)
        },
{
    if payload_bytes == 0 || entry_count == 0 {
        return Err(
            ZeroChannelError::InvalidArgument(
                String::from_str("entry_length and entry_count must be non-zero"),
            ),
        );
    }
    if !payload_bytes.is_multiple_of(SLOT_ALIGN) {
        let mut msg = String::from_str(
            "payload must be a multiple of 8 bytes to keep slot entry_seq words aligned, got ",
        );
        push_decimal(&mut msg, payload_bytes as u64);
        return Err(ZeroChannelError::InvalidArgument(msg));
    }
    Ok(())
}

/// Decoded copy of the prefix header.
#[derive(Debug, Clone, Copy)]
pub struct Header {
    /// Payload bytes per ring slot, excluding the control word.
    pub payload_bytes: usize,
    /// Number of ring slots.
    pub entry_count: usize,
    /// The writer's next slot index, as last persisted.
    pub write_index: usize,
    /// Element type code.
    pub dtype: u64,
    /// The writer's high watermark, as last persisted.
    pub last_entry_seq: u64,
}

/// A channel of element type code `held` admits a participant of type
/// `requested`.
pub open spec fn dtype_admits(held: u64, requested: Dtype) -> bool {
    requested == Dtype::U8 || held == dtype_code(requested)
}

/// Text of the error for an element type that does not match the channel's.
pub open spec fn dtype_mismatch_text(held: u64, requested: Dtype) -> Seq<char> {
    "dtype mismatch: channel holds "@ + dtype_name(held) + ", requested "@ + dtype_name(
        dtype_code(requested),
    )
}

/// Validate that an existing header is compatible with the requested element
/// type. A request for [`Dtype::U8`] accepts any declared type.
pub fn check_dtype(header: &Header, requested: Dtype) -> (r: Result<(), ZeroChannelError>)
    ensures
        r is Ok <==> dtype_admits(header.dtype, requested),
        r is Ok <==> match requested {
            Dtype::U8 => true,
            Dtype::I64 => header.dtype == 1,
            Dtype::F64 => header.dtype == 2,
        },
        r matches Err(e) ==> e is InvalidArgument && e.text() == dtype_mismatch_text(
            header.dtype,
            requested,
        ),
{
    if requested == Dtype::U8 || header.dtype == requested.code() {
        return Ok(());
    }
    let mut msg = String::from_str("dtype mismatch: channel holds ");
    msg.append(Dtype::name_of_code(header.dtype));
    msg.append(", requested ");
    msg.append(requested.name());
    Err(ZeroChannelError::InvalidArgument(msg))
}

/// Text of the error for a header that declares another geometry.
pub open spec fn header_mismatch_text(
    payload_bytes: nat,
    entry_count: nat,
    header: Header,
) -> Seq<char> {
    "header mismatch: expected ("@ + decimal(payload_bytes) + " payload bytes, "@ + decimal(
        entry_count,
    ) + " entries), found ("@ + decimal(header.payload_bytes as nat) + " payload bytes, "@
        + decimal(header.entry_count as nat) + " entries)"@
}

/// Validate that the header matches supplied sizes.
pub fn validate_header(header: &Header, payload_bytes: usize, entry_count: usize) -> (r: Result<
    (),
    ZeroChannelError,
>)
    ensures
        r is Ok <==> header.payload_bytes == payload_bytes && header.entry_count == entry_count,
        r matches Err(e) ==> e is InvalidArgument && e.text() == header_mismatch_text(
            payload_bytes as nat,
            entry_count as nat,
            *header,
        ),
{
    if header.payload_bytes != payload_bytes || header.entry_count != entry_count {
        let mut msg = String::from_str("header mismatch: expected (");
        push_decimal(&mut msg, payload_bytes as u64);
        msg.append(" payload bytes, ");
        push_decimal(&mut msg, entry_count as u64);
        msg.append(" entries), found (");
        push_decimal(&mut msg, header.payload_bytes as u64);
        msg.append(" payload bytes, ");
        push_decimal(&mut msg, header.entry_count as u64);
        msg.append(" entries)");
        return Err(ZeroChannelError::InvalidArgument(msg));
    }
    Ok(())
}

} // verus!
