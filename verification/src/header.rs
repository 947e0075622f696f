//! Creating, decoding and reading the prefix header.

use vstd::bytes::{
    lemma_auto_spec_u64_to_from_le_bytes, spec_u64_from_le_bytes, spec_u64_to_le_bytes,
};
use vstd::prelude::*;
use vstd::string::StringExecFns;

use crate::error::ZeroChannelError;
use crate::metadata::{
    dtype_code, lemma_magic_version, lemma_slot_bounds, required_bytes, segment_bytes, slot_at,
    slot_bytes, Dtype, Header, HALF_WORD, HEADER_BYTES, MAGIC, MAGIC_VERSION, OFF_DTYPE,
    OFF_ENTRY_COUNT, OFF_LAST_ENTRY_SEQ, OFF_MAGIC, OFF_PAYLOAD_BYTES, OFF_SEGMENT_OWNER,
    OFF_WRITER_OWNER, OFF_WRITE_INDEX, OFF_ZC_READER_OWNER, VERSION,
};
use crate::ring::{lemma_put_header, payload_at, payloads, ring_fits, seq_at, seqs};
use crate::segment::{lemma_zero_bytes, put_word, splice, word_at, Segment};
use crate::text::{decimal, push_decimal};

verus! {

/// One 64-bit store: `value` goes to byte offset `offset`.
#[derive(Debug, Clone, Copy)]
pub struct WordStore {
    /// Where to store.
    pub offset: usize,
    /// What to store.
    pub value: u64,
}

/// The stores that lay down a fresh header, in the order they must be made.
///
/// First the leading `clear` bytes of the segment are zeroed, then the `fields`
/// are stored in order, and the `latch` goes down last, behind a release fence.
/// Until it lands the segment reads as uninitialized, so a peer that attaches
/// mid-initialization backs off instead of consuming a half-written geometry.
#[derive(Debug)]
pub struct HeaderInit {
    /// How many leading bytes to zero.
    pub clear: usize,
    /// The geometry, the element type and the segment owner.
    pub fields: Vec<WordStore>,
    /// The magic word.
    pub latch: WordStore,
}

/// The fields stored by [`init_header`] before the magic word.
pub open spec fn init_fields(
    payload_bytes: usize,
    entry_count: usize,
    dtype: Dtype,
    owner_pid: u64,
) -> Seq<WordStore> {
    seq![
        WordStore { offset: OFF_PAYLOAD_BYTES, value: payload_bytes as u64 },
        WordStore { offset: OFF_ENTRY_COUNT, value: entry_count as u64 },
        WordStore { offset: OFF_DTYPE, value: dtype_code(dtype) },
        WordStore { offset: OFF_SEGMENT_OWNER, value: owner_pid },
    ]
}

/// `s` after the given stores, made in order.
pub open spec fn apply_stores(s: Seq<u8>, stores: Seq<WordStore>) -> Seq<u8>
    decreases stores.len(),
{
    if stores.len() == 0 {
        s
    } else {
        put_word(
            apply_stores(s, stores.drop_last()),
            stores.last().offset as int,
            stores.last().value,
        )
    }
}

/// `s` with its first `n` bytes zeroed.
pub open spec fn cleared(s: Seq<u8>, n: int) -> Seq<u8> {
    splice(s, 0, Seq::new(n as nat, |k: int| 0u8))
}

/// `s` after a fresh header has been laid down in it.
pub open spec fn header_image(
    s: Seq<u8>,
    payload_bytes: usize,
    entry_count: usize,
    dtype: Dtype,
    owner_pid: u64,
) -> Seq<u8> {
    put_word(
        apply_stores(
            cleared(s, segment_bytes(payload_bytes as int, entry_count as int)),
            init_fields(payload_bytes, entry_count, dtype, owner_pid),
        ),
        OFF_MAGIC as int,
        MAGIC_VERSION,
    )
}

/// Eight zero bytes are the word zero.
proof fn lemma_zero_word(s: Seq<u8>, off: int)
    requires
        0 <= off,
        off + 8 <= s.len(),
        forall|k: int| off <= k < off + 8 ==> s[k] == 0,
    ensures
        word_at(s, off) == 0,
{
    lemma_auto_spec_u64_to_from_le_bytes();
    lemma_zero_bytes();
    assert(s.subrange(off, off + 8) =~= spec_u64_to_le_bytes(0));
    assert(spec_u64_from_le_bytes(spec_u64_to_le_bytes(0)) == 0);
}

/// A cleared segment holds zero in every header word and control word.
proof fn lemma_cleared(s: Seq<u8>, payload_bytes: int, entry_count: int)
    requires
        ring_fits(s, payload_bytes, entry_count),
    ensures
        ({
            let t = cleared(s, segment_bytes(payload_bytes, entry_count));
            &&& t.len() == s.len()
            &&& forall|off: int|
                0 <= off && off + 8 <= HEADER_BYTES ==> #[trigger] word_at(t, off) == 0
            &&& seqs(t, payload_bytes, entry_count) == Seq::new(entry_count as nat, |i: int| 0i64)
            &&& payloads(t, payload_bytes, entry_count) == Seq::new(
                entry_count as nat,
                |i: int| Seq::new(payload_bytes as nat, |k: int| 0u8),
            )
        }),
{
    let n = segment_bytes(payload_bytes, entry_count);
    let t = cleared(s, n);
    lemma_slot_bounds(payload_bytes, entry_count, 0);
    assert forall|off: int| 0 <= off && off + 8 <= HEADER_BYTES implies #[trigger] word_at(t, off)
        == 0 by {
        lemma_zero_word(t, off);
    }
    assert forall|i: int| 0 <= i < entry_count implies seq_at(t, payload_bytes, i) == 0
        && payload_at(t, payload_bytes, i) == Seq::new(payload_bytes as nat, |k: int| 0u8) by {
        lemma_slot_bounds(payload_bytes, entry_count, i);
        lemma_zero_word(t, slot_at(payload_bytes, i));
        assert(payload_at(t, payload_bytes, i) =~= Seq::new(payload_bytes as nat, |k: int| 0u8));
    }
    assert(seqs(t, payload_bytes, entry_count) =~= Seq::new(entry_count as nat, |i: int| 0i64));
    assert(payloads(t, payload_bytes, entry_count) =~= Seq::new(
        entry_count as nat,
        |i: int| Seq::new(payload_bytes as nat, |k: int| 0u8),
    ));
}

/// What a fresh header says: the geometry, the element type and the owner, with
/// every other word zero and every slot empty.
pub proof fn lemma_header_image(
    s: Seq<u8>,
    payload_bytes: usize,
    entry_count: usize,
    dtype: Dtype,
    owner_pid: u64,
)
    requires
        ring_fits(s, payload_bytes as int, entry_count as int),
    ensures
        ({
            let t = header_image(s, payload_bytes, entry_count, dtype, owner_pid);
            &&& t.len() == s.len()
            &&& word_at(t, OFF_MAGIC as int) == MAGIC_VERSION
            &&& word_at(t, OFF_PAYLOAD_BYTES as int) == payload_bytes
            &&& word_at(t, OFF_ENTRY_COUNT as int) == entry_count
            &&& word_at(t, OFF_DTYPE as int) == dtype_code(dtype)
            &&& word_at(t, OFF_SEGMENT_OWNER as int) == owner_pid
            &&& word_at(t, OFF_WRITER_OWNER as int) == 0
            &&& word_at(t, OFF_ZC_READER_OWNER as int) == 0
            &&& word_at(t, OFF_WRITE_INDEX as int) == 0
            &&& word_at(t, OFF_LAST_ENTRY_SEQ as int) == 0
            &&& seqs(t, payload_bytes as int, entry_count as int) == Seq::new(
                entry_count as nat,
                |i: int| 0i64,
            )
            &&& payloads(t, payload_bytes as int, entry_count as int) == Seq::new(
                entry_count as nat,
                |i: int| Seq::new(payload_bytes as nat, |k: int| 0u8),
            )
        }),
{
    let pb = payload_bytes as int;
    let n = entry_count as int;
    let f = init_fields(payload_bytes, entry_count, dtype, owner_pid);
    let t0 = cleared(s, segment_bytes(pb, n));
    lemma_cleared(s, pb, n);
    let t1 = put_word(t0, OFF_PAYLOAD_BYTES as int, payload_bytes as u64);
    lemma_put_header(t0, pb, n, OFF_PAYLOAD_BYTES as int, payload_bytes as u64);
    let t2 = put_word(t1, OFF_ENTRY_COUNT as int, entry_count as u64);
    lemma_put_header(t1, pb, n, OFF_ENTRY_COUNT as int, entry_count as u64);
    let t3 = put_word(t2, OFF_DTYPE as int, dtype_code(dtype));
    lemma_put_header(t2, pb, n, OFF_DTYPE as int, dtype_code(dtype));
    let t4 = put_word(t3, OFF_SEGMENT_OWNER as int, owner_pid);
    lemma_put_header(t3, pb, n, OFF_SEGMENT_OWNER as int, owner_pid);
    lemma_put_header(t4, pb, n, OFF_MAGIC as int, MAGIC_VERSION);
    reveal_with_fuel(apply_stores, 5);
    assert(apply_stores(t0, f) == t4);
}

/// Initialization is atomic to a peer: after any number of the stores that
/// precede the magic word, the magic word is still zero.
pub proof fn lemma_unlatched(
    s: Seq<u8>,
    payload_bytes: usize,
    entry_count: usize,
    dtype: Dtype,
    owner_pid: u64,
    done: int,
)
    requires
        ring_fits(s, payload_bytes as int, entry_count as int),
        0 <= done <= init_fields(payload_bytes, entry_count, dtype, owner_pid).len(),
    ensures
        word_at(
            apply_stores(
                cleared(s, segment_bytes(payload_bytes as int, entry_count as int)),
                init_fields(payload_bytes, entry_count, dtype, owner_pid).take(done),
            ),
            OFF_MAGIC as int,
        ) == 0,
        apply_stores(
            cleared(s, segment_bytes(payload_bytes as int, entry_count as int)),
            init_fields(payload_bytes, entry_count, dtype, owner_pid).take(done),
        ).len() == s.len(),
    decreases done,
{
    let pb = payload_bytes as int;
    let n = entry_count as int;
    let f = init_fields(payload_bytes, entry_count, dtype, owner_pid);
    let t0 = cleared(s, segment_bytes(pb, n));
    lemma_cleared(s, pb, n);
    if done > 0 {
        lemma_unlatched(s, payload_bytes, entry_count, dtype, owner_pid, done - 1);
        assert(f.take(done).drop_last() =~= f.take(done - 1));
        let prev = apply_stores(t0, f.take(done - 1));
        lemma_put_header(prev, pb, n, f[done - 1].offset as int, f[done - 1].value);
    }
}

/// The stores that lay down a fresh header for this geometry.
///
/// `owner_pid` is stored before the magic word: whoever lays down the header
/// owns the segment, and publishing that under the same latch means no racing
/// peer can claim the deed out from under the creator.
pub fn header_init(
    payload_bytes: usize,
    entry_count: usize,
    dtype: Dtype,
    owner_pid: u64,
) -> (plan: HeaderInit)
    requires
        slot_bytes(payload_bytes as int) <= usize::MAX,
        segment_bytes(payload_bytes as int, entry_count as int) <= usize::MAX,
    ensures
        plan.clear == segment_bytes(payload_bytes as int, entry_count as int),
        plan.fields@ == init_fields(payload_bytes, entry_count, dtype, owner_pid),
        plan.latch == (WordStore { offset: OFF_MAGIC, value: MAGIC_VERSION }),
{
    let mut fields: Vec<WordStore> = Vec::new();
    fields.push(WordStore { offset: OFF_PAYLOAD_BYTES, value: payload_bytes as u64 });
    fields.push(WordStore { offset: OFF_ENTRY_COUNT, value: entry_count as u64 });
    fields.push(WordStore { offset: OFF_DTYPE, value: dtype.code() });
    fields.push(WordStore { offset: OFF_SEGMENT_OWNER, value: owner_pid });
    assert(fields@ =~= init_fields(payload_bytes, entry_count, dtype, owner_pid));
    HeaderInit {
        clear: required_bytes(payload_bytes, entry_count),
        fields,
        latch: WordStore { offset: OFF_MAGIC, value: MAGIC_VERSION },
    }
}

/// Write the immutable half of the header and zero the rest of the segment.
pub fn init_header(
    seg: &mut Segment,
    payload_bytes: usize,
    entry_count: usize,
    dtype: Dtype,
    owner_pid: u64,
)
    requires
        ring_fits(old(seg)@, payload_bytes as int, entry_count as int),
    ensures
        final(seg)@ == header_image(old(seg)@, payload_bytes, entry_count, dtype, owner_pid),
{
    let len: usize = seg.len();
    proof {
        lemma_slot_bounds(payload_bytes as int, entry_count as int, 0);
    }
    let plan = header_init(payload_bytes, entry_count, dtype, owner_pid);
    seg.clear_prefix(plan.clear);
    let ghost base = seg@;
    let count: usize = plan.fields.len();
    let mut k: usize = 0;
    while k < count
        invariant
            k <= count,
            count == plan.fields@.len(),
            plan.fields@ == init_fields(payload_bytes, entry_count, dtype, owner_pid),
            ring_fits(old(seg)@, payload_bytes as int, entry_count as int),
            base == cleared(old(seg)@, segment_bytes(payload_bytes as int, entry_count as int)),
            seg@ == apply_stores(base, plan.fields@.take(k as int)),
            seg@.len() == old(seg)@.len(),
            HEADER_BYTES <= old(seg)@.len(),
        decreases count - k,
    {
        let w: WordStore = plan.fields[k];
        seg.store(w.offset, w.value);
        k += 1;
        proof {
            assert(plan.fields@.take(k as int).drop_last() =~= plan.fields@.take(k - 1));
            lemma_unlatched(old(seg)@, payload_bytes, entry_count, dtype, owner_pid, k as int);
        }
    }
    assert(plan.fields@.take(count as int) =~= plan.fields@);
    seg.store(plan.latch.offset, plan.latch.value);
}

/// The header words that decoding looks at, as loaded from a segment.
#[derive(Debug, Clone, Copy)]
pub struct HeaderWords {
    /// The combined `magic` and `version` word.
    pub magic: u64,
    /// `payload_bytes`.
    pub payload_bytes: u64,
    /// `entry_count`.
    pub entry_count: u64,
    /// The `dtype` tag.
    pub dtype: u64,
    /// `current_write_index`.
    pub write_index: u64,
    /// `last_entry_seq`.
    pub last_entry_seq: u64,
}

/// The header words of the segment bytes `s`.
pub open spec fn header_words(s: Seq<u8>) -> HeaderWords {
    HeaderWords {
        magic: word_at(s, OFF_MAGIC as int),
        payload_bytes: word_at(s, OFF_PAYLOAD_BYTES as int),
        entry_count: word_at(s, OFF_ENTRY_COUNT as int),
        dtype: word_at(s, OFF_DTYPE as int),
        write_index: word_at(s, OFF_WRITE_INDEX as int),
        last_entry_seq: word_at(s, OFF_LAST_ENTRY_SEQ as int),
    }
}

/// The header that valid words decode to.
pub open spec fn header_of_words(words: HeaderWords) -> Header {
    Header {
        payload_bytes: words.payload_bytes as usize,
        entry_count: words.entry_count as usize,
        write_index: words.write_index as usize,
        dtype: words.dtype,
        last_entry_seq: words.last_entry_seq,
    }
}

/// Text of the error for a segment of another layout revision.
pub open spec fn version_mismatch_text(magic: u64) -> Seq<char> {
    "ZeroChannel layout version mismatch: segment is v"@ + decimal((magic % HALF_WORD) as nat)
        + ", this build speaks v"@ + decimal(VERSION as nat)
}

/// Text of the error for a magic word that is neither absent nor this layout's:
/// a foreign magic and a foreign version each have a text of their own.
pub open spec fn foreign_magic_text(magic: u64) -> Seq<char> {
    if magic / HALF_WORD != MAGIC {
        "shared memory segment is not a ZeroChannel ring"@
    } else {
        version_mismatch_text(magic)
    }
}

/// `r` is what decoding the words gives.
///
/// No magic yet means the segment exists but is not initialized.
pub open spec fn decodes_to(
    words: HeaderWords,
    r: Result<Option<Header>, ZeroChannelError>,
) -> bool {
    match r {
        Ok(None) => words.magic == 0,
        Ok(Some(header)) => words.magic == MAGIC_VERSION && header == header_of_words(words),
        Err(e) => {
            &&& words.magic != 0
            &&& words.magic != MAGIC_VERSION
            &&& e is InvalidArgument
            &&& e.text() == foreign_magic_text(words.magic)
        },
    }
}

/// Decode loaded header words, or explain why they are unusable.
pub fn decode_header(words: &HeaderWords) -> (r: Result<Option<Header>, ZeroChannelError>)
    ensures
        decodes_to(*words, r),
        words.magic == 0 <==> r matches Ok(None),
        words.magic == 0x5A43_484E_0000_0001 <==> r matches Ok(Some(_)),
        r matches Ok(Some(header)) ==> {
            &&& header.payload_bytes == words.payload_bytes as usize
            &&& header.entry_count == words.entry_count as usize
            &&& header.write_index == words.write_index as usize
            &&& header.dtype == words.dtype
            &&& header.last_entry_seq == words.last_entry_seq
        },
{
    proof {
        lemma_magic_version();
    }
    if words.magic == 0 {
        return Ok(None);
    }
    if words.magic != MAGIC_VERSION {
        if words.magic / HALF_WORD != MAGIC as u64 {
            return Err(
                ZeroChannelError::InvalidArgument(
                    String::from_str("shared memory segment is not a ZeroChannel ring"),
                ),
            );
        }
        let mut msg = String::from_str("ZeroChannel layout version mismatch: segment is v");
        push_decimal(&mut msg, words.magic % HALF_WORD);
        msg.append(", this build speaks v");
        push_decimal(&mut msg, VERSION as u64);
        return Err(ZeroChannelError::InvalidArgument(msg));
    }
    Ok(
        Some(
            Header {
                payload_bytes: words.payload_bytes as usize,
                entry_count: words.entry_count as usize,
                write_index: words.write_index as usize,
                dtype: words.dtype,
                last_entry_seq: words.last_entry_seq,
            },
        ),
    )
}

/// Load the header words of a segment.
pub fn load_header(seg: &Segment) -> (words: HeaderWords)
    requires
        HEADER_BYTES <= seg@.len(),
    ensures
        words == header_words(seg@),
{
    HeaderWords {
        magic: seg.load(OFF_MAGIC),
        payload_bytes: seg.load(OFF_PAYLOAD_BYTES),
        entry_count: seg.load(OFF_ENTRY_COUNT),
        dtype: seg.load(OFF_DTYPE),
        write_index: seg.load(OFF_WRITE_INDEX),
        last_entry_seq: seg.load(OFF_LAST_ENTRY_SEQ),
    }
}

/// Decode the prefix header of a segment, or explain why it is unusable.
///
/// `Ok(None)` means the segment carries no magic yet: either its creator has
/// not finished initializing it, or it died partway through.
pub fn read_header(seg: &Segment) -> (r: Result<Option<Header>, ZeroChannelError>)
    requires
        HEADER_BYTES <= seg@.len(),
    ensures
        decodes_to(header_words(seg@), r),
        word_at(seg@, 0) == 0 <==> r matches Ok(None),
        word_at(seg@, 0) == 0x5A43_484E_0000_0001 <==> r matches Ok(Some(_)),
        r matches Ok(Some(header)) ==> {
            &&& header.payload_bytes == word_at(seg@, 8) as usize
            &&& header.entry_count == word_at(seg@, 16) as usize
            &&& header.write_index == word_at(seg@, 56) as usize
            &&& header.dtype == word_at(seg@, 24)
            &&& header.last_entry_seq == word_at(seg@, 64)
        },
{
    decode_header(&load_header(seg))
}

/// A freshly initialized segment decodes to the geometry and element type it
/// was initialized with, an unwritten ring and a zero watermark.
pub proof fn lemma_fresh_header_decodes(
    s: Seq<u8>,
    payload_bytes: usize,
    entry_count: usize,
    dtype: Dtype,
    owner_pid: u64,
    r: Result<Option<Header>, ZeroChannelError>,
)
    requires
        ring_fits(s, payload_bytes as int, entry_count as int),
        decodes_to(
            header_words(header_image(s, payload_bytes, entry_count, dtype, owner_pid)),
            r,
        ),
    ensures
        r == Ok::<Option<Header>, ZeroChannelError>(
            Some(
                Header {
                    payload_bytes,
                    entry_count,
                    write_index: 0,
                    dtype: dtype_code(dtype),
                    last_entry_seq: 0,
                },
            ),
        ),
{
    lemma_header_image(s, payload_bytes, entry_count, dtype, owner_pid);
    lemma_magic_version();
}

/// The PID responsible for unlinking the segment (`0` when unclaimed).
pub fn segment_owner(seg: &Segment) -> (pid: u64)
    requires
        HEADER_BYTES <= seg@.len(),
    ensures
        pid == word_at(seg@, OFF_SEGMENT_OWNER as int),
{
    seg.load(OFF_SEGMENT_OWNER)
}

/// The PID holding the writer role (`0` when unclaimed).
pub fn writer_owner(seg: &Segment) -> (pid: u64)
    requires
        HEADER_BYTES <= seg@.len(),
    ensures
        pid == word_at(seg@, OFF_WRITER_OWNER as int),
{
    seg.load(OFF_WRITER_OWNER)
}

/// The PID holding the zero-copy reader role (`0` when unclaimed).
pub fn zc_reader_owner(seg: &Segment) -> (pid: u64)
    requires
        HEADER_BYTES <= seg@.len(),
    ensures
        pid == word_at(seg@, OFF_ZC_READER_OWNER as int),
{
    seg.load(OFF_ZC_READER_OWNER)
}

/// The writer's high watermark, as published in the header.
pub fn high_watermark(seg: &Segment) -> (seq: u64)
    requires
        HEADER_BYTES <= seg@.len(),
    ensures
        seq == word_at(seg@, OFF_LAST_ENTRY_SEQ as int),
{
    seg.load(OFF_LAST_ENTRY_SEQ)
}

} // verus!
