//! Element types that may be stored in a channel payload.

use vstd::bytes::{
    lemma_auto_spec_u64_to_from_le_bytes, spec_u64_from_le_bytes, spec_u64_to_le_bytes,
    u64_from_le_bytes, u64_to_le_bytes,
};
use vstd::prelude::*;
use vstd::slice::slice_subrange;
use vstd::string::StringExecFns;

use crate::error::ZeroChannelError;
use crate::metadata::Dtype;
use crate::segment::{lemma_signed_word, lemma_unsigned_word, lemma_zero_bytes};
use crate::text::{decimal, push_decimal};

verus! {

/// Marker for types that may be stored directly in a channel payload.
///
/// An element occupies exactly `width()` bytes with no padding, and every run
/// of that many bytes is a valid element: encoding and decoding undo each other
/// in both directions.
pub trait Element: Copy {
    /// Type tag written to, and validated against, the channel header.
    spec fn tag() -> Dtype;

    /// Bytes per element.
    spec fn width() -> nat;

    /// The bytes that stand for this element in a payload.
    spec fn encoding(self) -> Seq<u8>;

    /// The element that `width()` bytes stand for.
    spec fn decoding(bytes: Seq<u8>) -> Self;

    /// An element has no padding.
    proof fn lemma_encoding_width(self)
        ensures
            self.encoding().len() == Self::width(),
    ;

    /// An element survives the trip through its bytes.
    proof fn lemma_decode_encoding(self)
        ensures
            Self::decoding(self.encoding()) == self,
    ;

    /// Every bit pattern is an element.
    proof fn lemma_encode_decoding(bytes: Seq<u8>)
        requires
            bytes.len() == Self::width(),
        ensures
            Self::decoding(bytes).encoding() == bytes,
    ;

    /// Type tag written to, and validated against, the channel header.
    fn dtype() -> (dtype: Dtype)
        ensures
            dtype == Self::tag(),
    ;

    /// Bytes per element.
    fn size() -> (n: usize)
        ensures
            n == Self::width(),
    ;

    /// Zero value, used to pre-size read buffers: its bytes are all zero.
    fn zero() -> (value: Self)
        ensures
            value.encoding() == Seq::new(Self::width(), |k: int| 0u8),
    ;

    /// Append the bytes of this element to `out`.
    fn encode(self, out: &mut Vec<u8>)
        ensures
            final(out)@ == old(out)@ + self.encoding(),
    ;

    /// The element held in `bytes`.
    fn decode(bytes: &[u8]) -> (value: Self)
        requires
            bytes@.len() == Self::width(),
        ensures
            value == Self::decoding(bytes@),
    ;
}

impl Element for u8 {
    open spec fn tag() -> Dtype {
        Dtype::U8
    }

    open spec fn width() -> nat {
        1
    }

    open spec fn encoding(self) -> Seq<u8> {
        seq![self]
    }

    open spec fn decoding(bytes: Seq<u8>) -> u8 {
        bytes[0]
    }

    proof fn lemma_encoding_width(self) {
    }

    proof fn lemma_decode_encoding(self) {
    }

    proof fn lemma_encode_decoding(bytes: Seq<u8>) {
        assert(Self::decoding(bytes).encoding() =~= bytes);
    }

    fn dtype() -> (dtype: Dtype) {
        Dtype::U8
    }

    fn size() -> (n: usize) {
        1
    }

    fn zero() -> (value: u8) {
        assert(0u8.encoding() =~= Seq::new(1, |k: int| 0u8));
        0
    }

    fn encode(self, out: &mut Vec<u8>) {
        out.push(self);
        assert(out@ =~= old(out)@ + self.encoding());
    }

    fn decode(bytes: &[u8]) -> (value: u8) {
        bytes[0]
    }
}

impl Element for i64 {
    open spec fn tag() -> Dtype {
        Dtype::I64
    }

    open spec fn width() -> nat {
        8
    }

    open spec fn encoding(self) -> Seq<u8> {
        spec_u64_to_le_bytes(self as u64)
    }

    open spec fn decoding(bytes: Seq<u8>) -> i64 {
        spec_u64_from_le_bytes(bytes) as i64
    }

    proof fn lemma_encoding_width(self) {
        lemma_auto_spec_u64_to_from_le_bytes();
    }

    proof fn lemma_decode_encoding(self) {
        lemma_auto_spec_u64_to_from_le_bytes();
        lemma_signed_word(self);
    }

    proof fn lemma_encode_decoding(bytes: Seq<u8>) {
        lemma_auto_spec_u64_to_from_le_bytes();
        lemma_unsigned_word(spec_u64_from_le_bytes(bytes));
    }

    fn dtype() -> (dtype: Dtype) {
        Dtype::I64
    }

    fn size() -> (n: usize) {
        8
    }

    fn zero() -> (value: i64) {
        proof {
            lemma_zero_bytes();
        }
        0
    }

    fn encode(self, out: &mut Vec<u8>) {
        let mut le: Vec<u8> = u64_to_le_bytes(self as u64);
        out.append(&mut le);
    }

    fn decode(bytes: &[u8]) -> (value: i64) {
        u64_from_le_bytes(bytes) as i64
    }
}

/// A double-precision float, held as its IEEE-754 bit pattern.
///
/// The channel moves floats without looking inside them; the bit pattern is
/// all it needs.
#[derive(Debug, Clone, Copy, PartialEq, Eq, Structural)]
pub struct F64Bits(pub u64);

impl Element for F64Bits {
    open spec fn tag() -> Dtype {
        Dtype::F64
    }

    open spec fn width() -> nat {
        8
    }

    open spec fn encoding(self) -> Seq<u8> {
        spec_u64_to_le_bytes(self.0)
    }

    open spec fn decoding(bytes: Seq<u8>) -> F64Bits {
        F64Bits(spec_u64_from_le_bytes(bytes))
    }

    proof fn lemma_encoding_width(self) {
        lemma_auto_spec_u64_to_from_le_bytes();
    }

    proof fn lemma_decode_encoding(self) {
        lemma_auto_spec_u64_to_from_le_bytes();
    }

    proof fn lemma_encode_decoding(bytes: Seq<u8>) {
        lemma_auto_spec_u64_to_from_le_bytes();
    }

    fn dtype() -> (dtype: Dtype) {
        Dtype::F64
    }

    fn size() -> (n: usize) {
        8
    }

    fn zero() -> (value: F64Bits) {
        proof {
            lemma_zero_bytes();
        }
        F64Bits(0)
    }

    fn encode(self, out: &mut Vec<u8>) {
        let mut le: Vec<u8> = u64_to_le_bytes(self.0);
        out.append(&mut le);
    }

    fn decode(bytes: &[u8]) -> (value: F64Bits) {
        F64Bits(u64_from_le_bytes(bytes))
    }
}

/// The bytes of a run of elements.
pub open spec fn encoding_of<T: Element>(data: Seq<T>) -> Seq<u8>
    decreases data.len(),
{
    if data.len() == 0 {
        Seq::empty()
    } else {
        encoding_of(data.drop_last()) + data.last().encoding()
    }
}

/// The elements that a run of bytes stands for.
pub open spec fn decoding_of<T: Element>(bytes: Seq<u8>) -> Seq<T> {
    Seq::new(
        bytes.len() / T::width(),
        |i: int| T::decoding(element_bytes::<T>(bytes, i)),
    )
}

/// The bytes that belong to element `i` of a run.
pub open spec fn element_bytes<T: Element>(bytes: Seq<u8>, i: int) -> Seq<u8> {
    bytes.subrange(i * T::width(), (i + 1) * T::width())
}

/// A run of elements has no padding, and element `i` sits at its own offset.
pub proof fn lemma_encoding_of<T: Element>(data: Seq<T>)
    ensures
        encoding_of(data).len() == data.len() * T::width(),
        forall|i: int|
            0 <= i < data.len() ==> #[trigger] element_bytes::<T>(encoding_of(data), i)
                == data[i].encoding(),
    decreases data.len(),
{
    let w = T::width() as int;
    if data.len() > 0 {
        let init = data.drop_last();
        let n = init.len() as int;
        lemma_encoding_of(init);
        data.last().lemma_encoding_width();
        assert((n + 1) * w == n * w + w) by (nonlinear_arith);
        assert forall|i: int| 0 <= i < data.len() implies #[trigger] element_bytes::<T>(
            encoding_of(data),
            i,
        ) == data[i].encoding() by {
            assert(0 <= i * w && (i + 1) * w == i * w + w && (i < n ==> (i + 1) * w <= n * w))
                by (nonlinear_arith)
                requires
                    0 <= i <= n,
                    0 <= w,
            ;
            if i < n {
                assert(init[i] == data[i]);
                assert(element_bytes::<T>(encoding_of(init), i) == init[i].encoding());
                assert(element_bytes::<T>(encoding_of(data), i) =~= element_bytes::<T>(
                    encoding_of(init),
                    i,
                ));
            } else {
                assert(element_bytes::<T>(encoding_of(data), i) =~= data.last().encoding());
            }
        }
    } else {
        assert(0 * w == 0) by (nonlinear_arith);
    }
}

/// Decoding gives back the elements that were encoded.
pub proof fn lemma_decode_encoding_of<T: Element>(data: Seq<T>)
    requires
        T::width() > 0,
    ensures
        decoding_of::<T>(encoding_of(data)) == data,
{
    let w = T::width() as int;
    let n = data.len() as int;
    lemma_encoding_of(data);
    assert((n * w) / w == n) by (nonlinear_arith)
        requires
            w > 0,
    ;
    assert forall|i: int| 0 <= i < data.len() implies decoding_of::<T>(encoding_of(data))[i]
        == data[i] by {
        assert(element_bytes::<T>(encoding_of(data), i) == data[i].encoding());
        data[i].lemma_decode_encoding();
    }
    assert(decoding_of::<T>(encoding_of(data)) =~= data);
}

/// Encoding gives back the bytes that were decoded.
pub proof fn lemma_encode_decoding_of<T: Element>(bytes: Seq<u8>)
    requires
        T::width() > 0,
        bytes.len() % T::width() == 0,
    ensures
        encoding_of(decoding_of::<T>(bytes)) == bytes,
{
    let w = T::width() as int;
    let data = decoding_of::<T>(bytes);
    let n = data.len() as int;
    lemma_encoding_of(data);
    assert(n * w == bytes.len()) by (nonlinear_arith)
        requires
            w > 0,
            n == bytes.len() as int / w,
            bytes.len() as int % w == 0,
    ;
    assert forall|k: int| 0 <= k < bytes.len() implies encoding_of(data)[k] == bytes[k] by {
        let i = k / w;
        assert(0 <= i < n && i * w <= k < (i + 1) * w && (i + 1) * w <= n * w && 0 <= i * w)
            by (nonlinear_arith)
            requires
                w > 0,
                0 <= k < n * w,
                i == k / w,
        ;
        let part = element_bytes::<T>(bytes, i);
        assert((i + 1) * w - i * w == w) by (nonlinear_arith);
        T::lemma_encode_decoding(part);
        assert(data[i] == T::decoding(part));
        assert(element_bytes::<T>(encoding_of(data), i) == part);
        assert(encoding_of(data)[k] == element_bytes::<T>(encoding_of(data), i)[k - i * w]);
        assert(bytes[k] == part[k - i * w]);
    }
    assert(encoding_of(data) =~= bytes);
}

/// Bytes decode to themselves.
pub proof fn lemma_decode_bytes(bytes: Seq<u8>)
    ensures
        decoding_of::<u8>(bytes) == bytes,
{
    assert forall|k: int| 0 <= k < bytes.len() implies decoding_of::<u8>(bytes)[k]
        == bytes[k] by {
        assert(element_bytes::<u8>(bytes, k)[0] == bytes[k]);
    }
    assert(decoding_of::<u8>(bytes) =~= bytes);
}

/// A payload of `len` bytes is a whole number of `width`-byte elements.
pub open spec fn whole_elements(len: int, width: int) -> bool {
    width != 0 && len % width == 0
}

/// Text of the error for a payload that is not a whole number of elements.
pub open spec fn partial_element_text(len: nat, width: nat) -> Seq<char> {
    "payload of "@ + decimal(len) + " bytes is not a whole number of "@ + decimal(width)
        + "-byte elements"@
}

/// Reject an element size that does not divide a payload of `len` bytes.
pub fn check_elements(len: usize, width: usize) -> (r: Result<(), ZeroChannelError>)
    ensures
        r is Ok <==> whole_elements(len as int, width as int),
        r is Ok <==> width > 0 && len % width == 0,
        r matches Err(e) ==> e is InvalidArgument && e.text() == partial_element_text(
            len as nat,
            width as nat,
        ),
{
    if width == 0 || len % width != 0 {
        let mut msg = String::from_str("payload of ");
        push_decimal(&mut msg, len as u64);
        msg.append(" bytes is not a whole number of ");
        push_decimal(&mut msg, width as u64);
        msg.append("-byte elements");
        return Err(ZeroChannelError::InvalidArgument(msg));
    }
    Ok(())
}

/// The bytes of a run of elements, as stored in a payload.
pub fn encode_all<T: Element>(data: &[T]) -> (bytes: Vec<u8>)
    ensures
        bytes@ == encoding_of(data@),
{
    let n: usize = data.len();
    let mut bytes: Vec<u8> = Vec::new();
    let mut i: usize = 0;
    while i < n
        invariant
            i <= n,
            n == data@.len(),
            bytes@ == encoding_of(data@.take(i as int)),
        decreases n - i,
    {
        data[i].encode(&mut bytes);
        i += 1;
        assert(data@.take(i as int).drop_last() =~= data@.take(i - 1));
    }
    assert(data@.take(n as int) =~= data@);
    bytes
}

/// The elements held in a payload.
pub fn decode_all<T: Element>(bytes: &[u8]) -> (data: Vec<T>)
    requires
        T::width() > 0,
        bytes@.len() % T::width() == 0,
    ensures
        data@ == decoding_of::<T>(bytes@),
{
    let w: usize = T::size();
    let total: usize = bytes.len();
    let n: usize = total / w;
    assert(n * w == bytes@.len()) by (nonlinear_arith)
        requires
            w > 0,
            n == bytes@.len() as int / w as int,
            bytes@.len() as int % w as int == 0,
    ;
    let mut data: Vec<T> = Vec::new();
    let mut i: usize = 0;
    let mut at: usize = 0;
    while i < n
        invariant
            i <= n,
            w == T::width(),
            w > 0,
            total == bytes@.len(),
            n * w == total,
            n == bytes@.len() as int / w as int,
            at == i * w,
            data@.len() == i,
            forall|k: int| 0 <= k < i ==> data@[k] == decoding_of::<T>(bytes@)[k],
        decreases n - i,
    {
        assert((i + 1) * w <= n * w && (i + 1) * w == i * w + w) by (nonlinear_arith)
            requires
                i < n,
                w > 0,
        ;
        data.push(T::decode(slice_subrange(bytes, at, at + w)));
        i += 1;
        at += w;
    }
    assert(data@ =~= decoding_of::<T>(bytes@));
    data
}

} // verus!
