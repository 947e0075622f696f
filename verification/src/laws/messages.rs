//! What error messages say.

use vstd::prelude::*;

use crate::element::partial_element_text;
use crate::error::ZeroChannelError;
use crate::export::wrong_out_text;
use crate::header::foreign_magic_text;
use crate::lifecycle::{refusal, Request};
use crate::metadata::{
    dtype_mismatch_text, dtype_name, header_mismatch_text, misaligned_text, Dtype, Header,
};
use crate::reader::wrong_size_text;
use crate::ring::truncated_text;
use crate::text::decimal;
use crate::writer::{busy_text, wrong_length_text};

verus! {

/// The number that a run of decimal digits stands for.
pub open spec fn value_of(digits: Seq<char>) -> int
    decreases digits.len(),
{
    if digits.len() == 0 {
        0
    } else {
        10 * value_of(digits.drop_last()) + (digits.last() as int - '0' as int)
    }
}

/// A number is quoted in decimal digits that stand for it, without a leading
/// zero.
pub proof fn lemma_numbers_are_quoted_in_decimal(n: nat)
    ensures
        value_of(decimal(n)) == n,
        decimal(n).len() > 0,
        n > 0 ==> decimal(n)[0] != '0',
        n == 0 ==> decimal(n) == seq!['0'],
        forall|k: int| 0 <= k < decimal(n).len() ==> '0' <= #[trigger] decimal(n)[k] <= '9',
    decreases n,
{
    let d = decimal(n);
    if n >= 10 {
        lemma_numbers_are_quoted_in_decimal(n / 10);
        assert(d.drop_last() =~= decimal(n / 10));
        assert forall|k: int| 0 <= k < d.len() implies '0' <= #[trigger] d[k] <= '9' by {
            if k < d.len() - 1 {
                assert(d[k] == decimal(n / 10)[k]);
            }
        }
    } else {
        assert(d.drop_last() =~= Seq::<char>::empty());
        assert(value_of(d.drop_last()) == 0);
    }
}

/// Why sizes are refused.
pub proof fn lemma_refused_sizes(payload_bytes: Option<usize>, entry_count: Option<usize>)
    ensures
        (payload_bytes is Some) != (entry_count is Some) ==> refusal(payload_bytes, entry_count)
            == Some("entry_length and entry_count must both be supplied or both omitted"@),
        payload_bytes matches Some(pb) ==> (entry_count matches Some(n) ==> {
            &&& pb == 0 || n == 0 ==> refusal(payload_bytes, entry_count) == Some(
                "entry_length and entry_count must be non-zero"@,
            )
            &&& pb % 8 != 0 && n != 0 ==> refusal(payload_bytes, entry_count) == Some(
                "payload must be a multiple of 8 bytes to keep slot entry_seq words aligned, got "@
                    + decimal(pb as nat),
            )
        }),
{
}

/// Why a header is refused.
pub proof fn lemma_refused_headers(
    payload_bytes: nat,
    entry_count: nat,
    header: Header,
    requested: Dtype,
    magic: u64,
)
    ensures
        misaligned_text(payload_bytes)
            == "payload must be a multiple of 8 bytes to keep slot entry_seq words aligned, got "@
            + decimal(payload_bytes),
        header_mismatch_text(payload_bytes, entry_count, header) == "header mismatch: expected ("@
            + decimal(payload_bytes) + " payload bytes, "@ + decimal(entry_count)
            + " entries), found ("@ + decimal(header.payload_bytes as nat) + " payload bytes, "@
            + decimal(header.entry_count as nat) + " entries)"@,
        dtype_mismatch_text(header.dtype, requested) == "dtype mismatch: channel holds "@ + (
        match header.dtype {
            0 => "u8"@,
            1 => "i64"@,
            2 => "f64"@,
            _ => "unknown"@,
        }) + ", requested "@ + (match requested {
            Dtype::U8 => "u8"@,
            Dtype::I64 => "i64"@,
            Dtype::F64 => "f64"@,
        }),
        dtype_name(header.dtype) == match header.dtype {
            0 => "u8"@,
            1 => "i64"@,
            2 => "f64"@,
            _ => "unknown"@,
        },
        magic / 0x1_0000_0000 != 0x5A43_484E ==> foreign_magic_text(magic)
            == "shared memory segment is not a ZeroChannel ring"@,
        magic / 0x1_0000_0000 == 0x5A43_484E ==> foreign_magic_text(magic)
            == "ZeroChannel layout version mismatch: segment is v"@ + decimal(
            (magic % 0x1_0000_0000) as nat,
        ) + ", this build speaks v"@ + decimal(1),
{
}

/// Why a segment is refused, or is not there.
pub proof fn lemma_refused_segments(request: Request)
    ensures
        request.missing_text() == if request.reconnecting {
            "shared memory segment not available"@
        } else {
            "shared memory segment does not exist and sizes were not supplied"@
        },
        request.unopenable_text() == "shared memory segment '"@ + request.name
            + "' exists but could not be opened"@,
        request.too_small_text() == "abandoned segment '"@ + request.name
            + "' is too small for the requested geometry"@,
        truncated_text() == "shared memory segment is shorter than its header declares"@,
{
}

/// Why data, a destination or a type is refused, or a write has to wait.
pub proof fn lemma_refused_transfers(expected: nat, got: nat)
    ensures
        wrong_length_text(expected, got) == "expected "@ + decimal(expected)
            + " payload bytes, got "@ + decimal(got),
        wrong_size_text(got, expected) == "destination holds "@ + decimal(got)
            + " bytes, expected "@ + decimal(expected),
        wrong_out_text(expected, got) == "out must hold exactly "@ + decimal(expected)
            + " elements, got "@ + decimal(got),
        partial_element_text(got, expected) == "payload of "@ + decimal(got)
            + " bytes is not a whole number of "@ + decimal(expected) + "-byte elements"@,
        busy_text(expected) == "all "@ + decimal(expected) + " ring slots are held by a reader"@,
{
}

/// The text of an error is the one it was made with, whatever kind it is.
pub proof fn lemma_errors_keep_their_text(msg: String)
    ensures
        ZeroChannelError::InvalidArgument(msg).text() == msg@,
        ZeroChannelError::OsError(msg).text() == msg@,
        ZeroChannelError::Busy(msg).text() == msg@,
        ZeroChannelError::RoleConflict(msg).text() == msg@,
{
}

} // verus!
