//! The memory of a channel: a run of bytes addressed by offset.
//!
//! [`Segment`] is the plain-value form of a mapped shared-memory region. It
//! holds the bytes themselves, so every operation on it takes effect at once
//! and in program order. Control words are little-endian 64-bit integers, the
//! representation used by every supported target.

use vstd::bytes::{
    lemma_auto_spec_u64_to_from_le_bytes, spec_u64_from_le_bytes, spec_u64_to_le_bytes,
    spec_u64_to_le_bytes_to_open, u64_from_le_bytes, u64_to_le_bytes,
};
use vstd::prelude::*;
use vstd::slice::slice_subrange;

verus! {

/// `s` with the bytes starting at `off` replaced by `data`.
pub open spec fn splice(s: Seq<u8>, off: int, data: Seq<u8>) -> Seq<u8> {
    Seq::new(
        s.len(),
        |k: int|
            if off <= k < off + data.len() {
                data[k - off]
            } else {
                s[k]
            },
    )
}

/// The 64-bit word stored at byte offset `off` of `s`.
pub open spec fn word_at(s: Seq<u8>, off: int) -> u64 {
    spec_u64_from_le_bytes(s.subrange(off, off + 8))
}

/// `s` with the 64-bit word at byte offset `off` set to `v`.
pub open spec fn put_word(s: Seq<u8>, off: int, v: u64) -> Seq<u8> {
    splice(s, off, spec_u64_to_le_bytes(v))
}

/// Replacing bytes leaves every range that does not overlap them alone.
pub broadcast proof fn lemma_splice_frame(s: Seq<u8>, off: int, data: Seq<u8>, a: int, b: int)
    requires
        0 <= a <= b <= s.len(),
        b <= off || off + data.len() <= a,
    ensures
        #[trigger] splice(s, off, data).subrange(a, b) == s.subrange(a, b),
{
    assert(splice(s, off, data).subrange(a, b) =~= s.subrange(a, b));
}

/// The replaced bytes read back as what was put there.
pub broadcast proof fn lemma_splice_hit(s: Seq<u8>, off: int, data: Seq<u8>)
    requires
        0 <= off,
        off + data.len() <= s.len(),
    ensures
        #[trigger] splice(s, off, data).subrange(off, off + data.len()) == data,
{
    assert(splice(s, off, data).subrange(off, off + data.len()) =~= data);
}

/// A stored word reads back as the value stored.
pub broadcast proof fn lemma_put_word_hit(s: Seq<u8>, off: int, v: u64)
    requires
        0 <= off,
        off + 8 <= s.len(),
    ensures
        #[trigger] word_at(put_word(s, off, v), off) == v,
        put_word(s, off, v).len() == s.len(),
{
    lemma_auto_spec_u64_to_from_le_bytes();
    lemma_splice_hit(s, off, spec_u64_to_le_bytes(v));
}

/// Storing a word leaves the words that do not overlap it alone.
pub broadcast proof fn lemma_put_word_frame(s: Seq<u8>, off: int, v: u64, other: int)
    requires
        0 <= other,
        other + 8 <= s.len(),
        other + 8 <= off || off + 8 <= other,
    ensures
        #[trigger] word_at(put_word(s, off, v), other) == word_at(s, other),
{
    lemma_auto_spec_u64_to_from_le_bytes();
    lemma_splice_frame(s, off, spec_u64_to_le_bytes(v), other, other + 8);
}

/// Storing the word that is already there changes nothing.
pub proof fn lemma_put_word_same(s: Seq<u8>, off: int)
    requires
        0 <= off,
        off + 8 <= s.len(),
    ensures
        put_word(s, off, word_at(s, off)) == s,
{
    lemma_auto_spec_u64_to_from_le_bytes();
    let le = s.subrange(off, off + 8);
    assert(spec_u64_to_le_bytes(spec_u64_from_le_bytes(le)) == le);
    assert(put_word(s, off, word_at(s, off)) =~= s);
}

/// The word zero is stored as eight zero bytes.
pub proof fn lemma_zero_bytes()
    ensures
        spec_u64_to_le_bytes(0) == Seq::new(8, |k: int| 0u8),
{
    spec_u64_to_le_bytes_to_open(0);
    assert(0u64 & 0xff == 0) by (bit_vector);
    assert((0u64 >> 8) & 0xff == 0) by (bit_vector);
    assert((0u64 >> 16) & 0xff == 0) by (bit_vector);
    assert((0u64 >> 24) & 0xff == 0) by (bit_vector);
    assert((0u64 >> 32) & 0xff == 0) by (bit_vector);
    assert((0u64 >> 40) & 0xff == 0) by (bit_vector);
    assert((0u64 >> 48) & 0xff == 0) by (bit_vector);
    assert((0u64 >> 56) & 0xff == 0) by (bit_vector);
    assert(spec_u64_to_le_bytes(0) =~= Seq::new(8, |k: int| 0u8));
}

/// A signed word survives the trip through its unsigned storage form.
pub proof fn lemma_signed_word(v: i64)
    ensures
        (v as u64) as i64 == v,
{
    assert((v as u64) as i64 == v) by (bit_vector);
}

/// An unsigned word survives the trip through its signed form.
pub proof fn lemma_unsigned_word(w: u64)
    ensures
        (w as i64) as u64 == w,
{
    assert((w as i64) as u64 == w) by (bit_vector);
}

/// The bytes of a mapped channel.
pub struct Segment {
    bytes: Vec<u8>,
}

impl View for Segment {
    type V = Seq<u8>;

    closed spec fn view(&self) -> Seq<u8> {
        self.bytes@
    }
}

impl Segment {
    /// A segment of `size` zero bytes, as the operating system hands one out.
    pub fn zeroed(size: usize) -> (seg: Self)
        ensures
            seg@ == Seq::new(size as nat, |k: int| 0u8),
    {
        let mut bytes: Vec<u8> = Vec::with_capacity(size);
        let mut k: usize = 0;
        while k < size
            invariant
                k <= size,
                bytes@ == Seq::new(k as nat, |j: int| 0u8),
            decreases size - k,
        {
            bytes.push(0);
            k += 1;
            assert(bytes@ =~= Seq::new(k as nat, |j: int| 0u8));
        }
        Segment { bytes }
    }

    /// Number of bytes in the segment.
    pub fn len(&self) -> (n: usize)
        ensures
            n == self@.len(),
    {
        self.bytes.len()
    }

    /// The 64-bit word at byte offset `off`.
    pub fn load(&self, off: usize) -> (v: u64)
        requires
            off + 8 <= self@.len(),
        ensures
            v == word_at(self@, off as int),
    {
        assert(self.bytes.len() == self@.len());
        u64_from_le_bytes(slice_subrange(self.bytes.as_slice(), off, off + 8))
    }

    /// Set the 64-bit word at byte offset `off`.
    pub fn store(&mut self, off: usize, v: u64)
        requires
            off + 8 <= old(self)@.len(),
        ensures
            final(self)@ == put_word(old(self)@, off as int, v),
    {
        let le: Vec<u8> = u64_to_le_bytes(v);
        self.copy_in(off, le.as_slice());
    }

    /// Set the word at `off` to `desired` if it holds `expected`.
    ///
    /// The word found is returned either way: in `Ok` when the swap happened,
    /// in `Err` when it did not.
    pub fn compare_exchange(&mut self, off: usize, expected: u64, desired: u64) -> (r: Result<
        u64,
        u64,
    >)
        requires
            off + 8 <= old(self)@.len(),
        ensures
            word_at(old(self)@, off as int) == expected ==> r == Ok::<u64, u64>(expected)
                && final(self)@ == put_word(old(self)@, off as int, desired),
            word_at(old(self)@, off as int) != expected ==> r == Err::<u64, u64>(
                word_at(old(self)@, off as int),
            ) && final(self)@ == old(self)@,
    {
        let found: u64 = self.load(off);
        if found == expected {
            self.store(off, desired);
            Ok(found)
        } else {
            Err(found)
        }
    }

    /// The `len` bytes starting at byte offset `off`, borrowed in place.
    pub fn bytes_at(&self, off: usize, len: usize) -> (out: &[u8])
        requires
            off + len <= self@.len(),
        ensures
            out@ == self@.subrange(off as int, off + len),
    {
        assert(self.bytes.len() == self@.len());
        slice_subrange(self.bytes.as_slice(), off, off + len)
    }

    /// The `len` bytes starting at byte offset `off`, borrowed for writing.
    pub fn bytes_at_mut(&mut self, off: usize, len: usize) -> (out: &mut [u8])
        requires
            off + len <= old(self)@.len(),
        ensures
            out@ == old(self)@.subrange(off as int, off + len),
            final(self)@ == old(self)@.subrange(0, off as int) + final(out)@ + old(self)@.subrange(
                off + len,
                old(self)@.len() as int,
            ),
    {
        let (head, rest) = self.bytes.as_mut_slice().split_at_mut(off);
        let (mid, tail) = rest.split_at_mut(len);
        mid
    }

    /// Copy the bytes starting at byte offset `off` into `dst`, filling it.
    pub fn copy_out(&self, off: usize, dst: &mut [u8])
        requires
            off + old(dst)@.len() <= self@.len(),
        ensures
            final(dst)@ == self@.subrange(off as int, off + old(dst)@.len()),
    {
        let n: usize = dst.len();
        let mut k: usize = 0;
        while k < n
            invariant
                k <= n,
                n == old(dst)@.len(),
                dst@.len() == n,
                off + n <= self@.len(),
                forall|j: int| 0 <= j < k ==> dst@[j] == self@[off + j],
            decreases n - k,
        {
            assert(self.bytes.len() == self@.len());
            dst[k] = self.bytes[off + k];
            k += 1;
        }
        assert(dst@ =~= self@.subrange(off as int, off + n));
    }

    /// Replace the bytes starting at byte offset `off` by `data`.
    pub fn copy_in(&mut self, off: usize, data: &[u8])
        requires
            off + data@.len() <= old(self)@.len(),
        ensures
            final(self)@ == splice(old(self)@, off as int, data@),
    {
        let n: usize = data.len();
        let mut k: usize = 0;
        while k < n
            invariant
                k <= n,
                n == data@.len(),
                off + n <= old(self)@.len(),
                self@ == splice(old(self)@, off as int, data@.subrange(0, k as int)),
            decreases n - k,
        {
            assert(self.bytes.len() == self@.len());
            self.bytes[off + k] = data[k];
            k += 1;
            assert(self@ =~= splice(old(self)@, off as int, data@.subrange(0, k as int)));
        }
        assert(data@.subrange(0, n as int) =~= data@);
    }

    /// Set the first `n` bytes to zero.
    pub fn clear_prefix(&mut self, n: usize)
        requires
            n <= old(self)@.len(),
        ensures
            final(self)@ == splice(old(self)@, 0, Seq::new(n as nat, |k: int| 0u8)),
    {
        let mut k: usize = 0;
        while k < n
            invariant
                k <= n,
                n <= old(self)@.len(),
                self@ == splice(old(self)@, 0, Seq::new(k as nat, |j: int| 0u8)),
            decreases n - k,
        {
            self.bytes[k] = 0;
            k += 1;
            assert(self@ =~= splice(old(self)@, 0, Seq::new(k as nat, |j: int| 0u8)));
        }
    }
}

} // verus!
