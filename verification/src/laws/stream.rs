//! A channel from the first entry on: what a run of writes leaves in the ring,
//! and what a run of reads makes of it.

use vstd::arithmetic::div_mod::{
    lemma_add_mod_noop, lemma_fundamental_div_mod, lemma_mod_bound, lemma_mod_multiples_vanish,
    lemma_mod_self_0, lemma_small_mod,
};
use vstd::prelude::*;

use crate::error::ZeroChannelError;
use crate::header::{decodes_to, header_image, header_words, lemma_header_image};
use crate::metadata::{
    lemma_addressable, lemma_magic_version, lemma_slot_bounds, segment_bytes, Dtype, Header,
    OFF_LAST_ENTRY_SEQ, OFF_WRITE_INDEX,
};
use crate::reader::{Entry, ReaderState};
use crate::ring::{payload_at, payloads, ring_fits, seqs};
use crate::segment::{lemma_unsigned_word, word_at};
use crate::writer::{
    attaches, free_slot, lemma_claim_fails, lemma_free_slot, lemma_written, magnitude, ring_index,
    written, WriterState,
};

verus! {

/// The writer and the bytes of its segment after the entries of `log` were
/// written, one after the other.
pub open spec fn after_writes(
    writer: WriterState,
    s: Seq<u8>,
    log: Seq<Seq<u8>>,
) -> (WriterState, Seq<u8>)
    decreases log.len(),
{
    if log.len() == 0 {
        (writer, s)
    } else {
        let (w, t) = after_writes(writer, s, log.drop_last());
        let index = w.target(t)->0;
        (
            w.after(index),
            written(
                t,
                w.payload_bytes,
                w.entry_count,
                index,
                log.last(),
                (w.last_entry_seq + 1) as u64,
            ),
        )
    }
}

/// A writer that has just attached to a fresh segment.
pub open spec fn newcomer(payload_bytes: usize, entry_count: usize) -> WriterState {
    WriterState {
        payload_bytes: payload_bytes as int,
        entry_count: entry_count as int,
        current_index: 0,
        last_entry_seq: 0,
    }
}

/// The entry that sits in slot `i` of a ring of `n` slots after `len` writes, or
/// zero when the slot was never used.
spec fn resident(i: int, len: int, n: int) -> int {
    if i < len {
        len - (len - 1 - i) % n
    } else {
        0
    }
}

/// The residents of a ring are its most recent entries, each in its own slot.
proof fn lemma_resident(i: int, len: int, n: int)
    requires
        0 <= i < n,
        0 <= len,
    ensures
        i < len ==> 1 <= resident(i, len, n) <= len && len - n < resident(i, len, n) && (resident(
            i,
            len,
            n,
        ) - 1) % n == i,
{
    if i < len {
        let x = len - 1 - i;
        let q = x / n;
        lemma_fundamental_div_mod(x, n);
        lemma_mod_bound(x, n);
        assert(0 <= q) by (nonlinear_arith)
            requires
                q == x / n,
                0 <= x,
                0 < n,
        ;
        assert(0 <= n * q) by (nonlinear_arith)
            requires
                0 <= q,
                0 < n,
        ;
        // resident - 1 is i and a number of whole laps.
        assert(resident(i, len, n) - 1 == i + n * q);
        lemma_mod_multiples_vanish(q, i, n);
        lemma_small_mod(i as nat, n as nat);
    }
}

/// Of the most recent entries, entry `e` is the resident of its slot.
proof fn lemma_resident_of(e: int, len: int, n: int)
    requires
        0 < n,
        1 <= e <= len,
        len - n < e,
    ensures
        0 <= (e - 1) % n < n,
        (e - 1) % n < len,
        resident((e - 1) % n, len, n) == e,
{
    let i = (e - 1) % n;
    lemma_mod_bound(e - 1, n);
    lemma_fundamental_div_mod(e - 1, n);
    let q = (e - 1) / n;
    assert(0 <= n * q) by (nonlinear_arith)
        requires
            q == (e - 1) / n,
            0 <= e - 1,
            0 < n,
    ;
    assert(i <= e - 1);
    assert(len - 1 - i == (len - e) + n * q);
    lemma_mod_multiples_vanish(q, len - e, n);
    lemma_small_mod((len - e) as nat, n as nat);
}

/// One more write replaces the resident of the next slot and no other.
proof fn lemma_resident_step(i: int, len: int, n: int)
    requires
        0 <= i < n,
        0 <= len,
    ensures
        0 <= len % n < n,
        resident(i, len + 1, n) == if i == len % n {
            len + 1
        } else {
            resident(i, len, n)
        },
{
    let c = len % n;
    lemma_mod_bound(len, n);
    lemma_fundamental_div_mod(len, n);
    let q = len / n;
    assert(0 <= n * q) by (nonlinear_arith)
        requires
            q == len / n,
            0 <= len,
            0 < n,
    ;
    if i == c {
        assert(len - i == 0 + n * q);
        lemma_mod_multiples_vanish(q, 0, n);
        lemma_small_mod(0, n as nat);
    } else if i < len {
        let y = len - i;
        lemma_mod_bound(y, n);
        lemma_fundamental_div_mod(y, n);
        let p = y / n;
        let r = y % n;
        if r == 0 {
            // A whole number of laps from i is the slot i again.
            assert(len == i + n * p);
            lemma_mod_multiples_vanish(p, i, n);
            lemma_small_mod(i as nat, n as nat);
            assert(false);
        }
        assert(y - 1 == (r - 1) + n * p);
        lemma_mod_multiples_vanish(p, r - 1, n);
        lemma_small_mod((r - 1) as nat, n as nat);
    } else if i == len {
        lemma_small_mod(len as nat, n as nat);
    }
}

/// The ring after a run of writes, slot by slot.
spec fn ring_after(t: Seq<u8>, pb: int, n: int, log: Seq<Seq<u8>>) -> bool {
    &&& forall|i: int|
        0 <= i < n ==> #[trigger] seqs(t, pb, n)[i] == resident(i, log.len() as int, n)
    &&& forall|i: int|
        0 <= i < n && i < log.len() ==> #[trigger] payloads(t, pb, n)[i] == log[resident(
            i,
            log.len() as int,
            n,
        ) - 1]
}

/// A run of writes to a fresh segment, by induction on its length.
proof fn lemma_run(
    s: Seq<u8>,
    payload_bytes: usize,
    entry_count: usize,
    dtype: Dtype,
    owner_pid: u64,
    log: Seq<Seq<u8>>,
)
    requires
        ring_fits(s, payload_bytes as int, entry_count as int),
        segment_bytes(payload_bytes as int, entry_count as int) <= usize::MAX,
        log.len() <= i64::MAX,
        forall|e: int| 0 <= e < log.len() ==> (#[trigger] log[e]).len() == payload_bytes,
    ensures
        ({
            let t0 = header_image(s, payload_bytes, entry_count, dtype, owner_pid);
            let (w, t) = after_writes(newcomer(payload_bytes, entry_count), t0, log);
            &&& w.payload_bytes == payload_bytes
            &&& w.entry_count == entry_count
            &&& w.current_index == log.len() as int % entry_count as int
            &&& w.last_entry_seq == log.len()
            &&& t.len() == s.len()
            &&& word_at(t, OFF_WRITE_INDEX as int) == log.len() as int % entry_count as int
            &&& word_at(t, OFF_LAST_ENTRY_SEQ as int) == log.len()
            &&& forall|off: int|
                0 <= off && off + 8 <= OFF_WRITE_INDEX ==> #[trigger] word_at(t, off) == word_at(
                    t0,
                    off,
                )
            &&& ring_after(t, payload_bytes as int, entry_count as int, log)
            &&& w.target(t) == Some(w.current_index)
        }),
    decreases log.len(),
{
    let pb = payload_bytes as int;
    let n = entry_count as int;
    let t0 = header_image(s, payload_bytes, entry_count, dtype, owner_pid);
    let w0 = newcomer(payload_bytes, entry_count);
    lemma_header_image(s, payload_bytes, entry_count, dtype, owner_pid);
    lemma_addressable(pb, n);
    let (w, t) = after_writes(w0, t0, log);
    let len = log.len() as int;
    if len == 0 {
        lemma_small_mod(0, n as nat);
    } else {
        let before = log.drop_last();
        assert forall|e: int| 0 <= e < before.len() implies (#[trigger] before[e]).len()
            == payload_bytes by {
            assert(log[e].len() == payload_bytes);
        }
        lemma_run(s, payload_bytes, entry_count, dtype, owner_pid, before);
        let (v, u) = after_writes(w0, t0, before);
        let c = v.current_index;
        lemma_mod_bound(len - 1, n);
        assert(log.last().len() == payload_bytes);
        lemma_written(u, pb, n, c, log.last(), len as u64);
        assert(v.after(c).current_index == len % n) by {
            lemma_next_slot(len - 1, n);
        }
        assert forall|i: int| 0 <= i < n implies #[trigger] seqs(t, pb, n)[i] == resident(
            i,
            len,
            n,
        ) by {
            lemma_resident_step(i, len - 1, n);
            assert(seqs(u, pb, n)[i] == resident(i, len - 1, n));
        }
        assert forall|i: int| 0 <= i < n && i < len implies #[trigger] payloads(t, pb, n)[i]
            == log[resident(i, len, n) - 1] by {
            lemma_resident_step(i, len - 1, n);
            lemma_resident(i, len, n);
            if i != c {
                if i == len - 1 {
                    lemma_small_mod(i as nat, n as nat);
                }
                lemma_resident(i, len - 1, n);
                assert(payloads(u, pb, n)[i] == before[resident(i, len - 1, n) - 1]);
            }
        }
    }
    // Nobody holds anything, so the next slot in turn is free.
    let cur = len % n;
    lemma_mod_bound(len, n);
    lemma_small_mod(cur as nat, n as nat);
    lemma_resident(cur, len, n);
    assert(w.words(t)[cur] >= 0) by {
        assert(seqs(t, pb, n)[cur] == resident(cur, len, n));
    }
    assert(ring_index(cur, 0, n) == cur);
    assert(free_slot(w.words(t), cur, 0) == Some(cur));
}

/// The slot after the one that `k` writes reach is the one that `k + 1` reach.
proof fn lemma_next_slot(k: int, n: int)
    requires
        0 <= k,
        0 < n,
    ensures
        (k % n + 1) % n == (k + 1) % n,
{
    lemma_add_mod_noop(k, 1, n);
    lemma_mod_bound(k, n);
    if n == 1 {
        assert((k % n + 1) % n == (k + 1) % n) by (nonlinear_arith)
            requires
                n == 1,
        ;
    } else {
        lemma_small_mod(1, n as nat);
    }
}

/// Entries written to a fresh channel that nobody pins go into the slots in
/// turn, numbered from one. Entry `e` of the most recent ones, as many as there
/// are slots, is in slot `(e - 1) % entry_count`, whole; slots that no write has
/// reached are empty; and the header says where the next entry goes and how many
/// were written.
pub proof fn lemma_writes_fill_the_ring_in_turn(
    s: Seq<u8>,
    payload_bytes: usize,
    entry_count: usize,
    dtype: Dtype,
    owner_pid: u64,
    log: Seq<Seq<u8>>,
    e: int,
    unused: int,
)
    requires
        0 < entry_count,
        72 + entry_count * (8 + payload_bytes) <= s.len(),
        72 + entry_count * (8 + payload_bytes) <= usize::MAX,
        log.len() <= i64::MAX,
        forall|k: int| 0 <= k < log.len() ==> (#[trigger] log[k]).len() == payload_bytes,
    ensures
        ({
            let t0 = header_image(s, payload_bytes, entry_count, dtype, owner_pid);
            let (w, t) = after_writes(newcomer(payload_bytes, entry_count), t0, log);
            let n = entry_count as int;
            let at = 72 + ((e - 1) % n) * (8 + payload_bytes);
            &&& w == (WriterState {
                payload_bytes: payload_bytes as int,
                entry_count: n,
                current_index: log.len() as int % n,
                last_entry_seq: log.len() as u64,
            })
            &&& t.len() == s.len()
            &&& word_at(t, 0) == word_at(t0, 0)
            &&& word_at(t, 8) == payload_bytes
            &&& word_at(t, 16) == entry_count
            &&& word_at(t, 24) == word_at(t0, 24)
            &&& word_at(t, 32) == owner_pid
            &&& word_at(t, 40) == 0
            &&& word_at(t, 48) == 0
            &&& word_at(t, 56) == log.len() as int % n
            &&& word_at(t, 64) == log.len()
            &&& 1 <= e <= log.len() && log.len() - n < e ==> {
                &&& word_at(t, at) == e
                &&& t.subrange(at + 8, at + 8 + payload_bytes) == log[e - 1]
            }
            &&& log.len() <= unused < n ==> word_at(t, 72 + unused * (8 + payload_bytes)) == 0
            &&& w.target(t) == Some(log.len() as int % n)
        }),
{
    let pb = payload_bytes as int;
    let n = entry_count as int;
    let t0 = header_image(s, payload_bytes, entry_count, dtype, owner_pid);
    lemma_header_image(s, payload_bytes, entry_count, dtype, owner_pid);
    lemma_run(s, payload_bytes, entry_count, dtype, owner_pid, log);
    let (w, t) = after_writes(newcomer(payload_bytes, entry_count), t0, log);
    let len = log.len() as int;
    if 1 <= e <= len && len - n < e {
        lemma_resident_of(e, len, n);
        let i = (e - 1) % n;
        lemma_slot_bounds(pb, n, i);
        assert(seqs(t, pb, n)[i] == e);
        assert(payloads(t, pb, n)[i] == log[e - 1]);
        lemma_unsigned_word(word_at(t, 72 + i * (8 + pb)));
    }
    if len <= unused < n {
        lemma_slot_bounds(pb, n, unused);
        assert(seqs(t, pb, n)[unused] == 0);
        lemma_unsigned_word(word_at(t, 72 + unused * (8 + pb)));
    }
}

/// A read of a channel that nobody pins gives the entry right after the
/// reader's position, or after the position that the caller names; when that
/// entry was overwritten, the oldest that is left; and nothing when the position
/// is at the end. What it gives is what was written.
pub proof fn lemma_reads_follow_the_writes(
    s: Seq<u8>,
    payload_bytes: usize,
    entry_count: usize,
    dtype: Dtype,
    owner_pid: u64,
    log: Seq<Seq<u8>>,
    reader: ReaderState,
    from_entry_seq: Option<u64>,
    position: int,
    found: Option<Entry>,
)
    requires
        0 < entry_count,
        72 + entry_count * (8 + payload_bytes) <= s.len(),
        72 + entry_count * (8 + payload_bytes) <= usize::MAX,
        log.len() <= i64::MAX,
        forall|k: int| 0 <= k < log.len() ==> (#[trigger] log[k]).len() == payload_bytes,
        reader.payload_bytes == payload_bytes,
        reader.entry_count == entry_count,
        0 <= reader.last_read_idx < entry_count,
        from_entry_seq is None ==> position == reader.last_entry_seq,
        from_entry_seq matches Some(from) ==> position == from,
        reader.finds(
            after_writes(
                newcomer(payload_bytes, entry_count),
                header_image(s, payload_bytes, entry_count, dtype, owner_pid),
                log,
            ).1,
            from_entry_seq,
            found,
        ),
    ensures
        position >= log.len() ==> found is None,
        position < log.len() ==> {
            let t = after_writes(
                newcomer(payload_bytes, entry_count),
                header_image(s, payload_bytes, entry_count, dtype, owner_pid),
                log,
            ).1;
            let e = if position + 1 > log.len() - entry_count {
                position + 1
            } else {
                log.len() - entry_count + 1
            };
            &&& found matches Some(entry)
            &&& entry.entry_seq == e
            &&& entry.index == (e - 1) % entry_count as int
            &&& payload_at(t, payload_bytes as int, entry.index as int) == log[e - 1]
            &&& reader.after(entry) == (ReaderState {
                payload_bytes: payload_bytes as int,
                entry_count: entry_count as int,
                last_entry_seq: e as u64,
                last_read_idx: (e - 1) % entry_count as int,
            })
        },
{
    let pb = payload_bytes as int;
    let n = entry_count as int;
    let t0 = header_image(s, payload_bytes, entry_count, dtype, owner_pid);
    lemma_run(s, payload_bytes, entry_count, dtype, owner_pid, log);
    let (w, t) = after_writes(newcomer(payload_bytes, entry_count), t0, log);
    let len = log.len() as int;
    let words = reader.words(t);
    let probe = (reader.last_read_idx + 1) % n;
    lemma_mod_bound(reader.last_read_idx + 1, n);
    if position < len {
        let e = if position + 1 > len - n {
            position + 1
        } else {
            len - n + 1
        };
        lemma_resident_of(e, len, n);
        let at = (e - 1) % n;
        assert(words[at] == e);
        assert forall|i: int| 0 <= i < n && #[trigger] words[i] > position implies words[i] >= e
            && (words[i] == e ==> i == at) by {
            assert(seqs(t, pb, n)[i] == resident(i, len, n));
            lemma_resident(i, len, n);
        }
        let entry = found->0;
        assert(found is Some);
        assert(words[entry.index as int] == entry.entry_seq);
        assert(entry.entry_seq == e);
        assert(entry.index == at);
        assert(payloads(t, pb, n)[at] == log[resident(at, len, n) - 1]);
        assert(payloads(t, pb, n)[at] == payload_at(t, pb, at));
    }
}

/// The reader after returning the first `k` of the entries `found`, one per
/// read.
pub open spec fn after_reads(reader: ReaderState, found: Seq<Entry>, k: int) -> ReaderState
    decreases k,
{
    if k <= 0 {
        reader
    } else {
        after_reads(reader, found, k - 1).after(found[k - 1])
    }
}

/// The first `k` entries of `found` are what `k` reads of the bytes `t` find, one
/// after the other.
pub open spec fn read_in_turn(reader: ReaderState, t: Seq<u8>, found: Seq<Entry>, k: int) -> bool
    decreases k,
{
    k <= 0 || (read_in_turn(reader, t, found, k - 1) && after_reads(reader, found, k - 1).finds(
        t,
        None,
        Some(found[k - 1]),
    ))
}

/// A reader that drains a channel gets every entry that is still there, in
/// order, one per read, with none skipped and none repeated: from the first on
/// when the ring was not lapped, else from the oldest that is left. Read number
/// `k` gives entry `k`, counted from there, and what was written under it.
pub proof fn lemma_draining_gives_the_whole_log(
    s: Seq<u8>,
    payload_bytes: usize,
    entry_count: usize,
    dtype: Dtype,
    owner_pid: u64,
    log: Seq<Seq<u8>>,
    found: Seq<Entry>,
    k: int,
)
    requires
        0 < entry_count,
        72 + entry_count * (8 + payload_bytes) <= s.len(),
        72 + entry_count * (8 + payload_bytes) <= usize::MAX,
        log.len() <= i64::MAX,
        forall|j: int| 0 <= j < log.len() ==> (#[trigger] log[j]).len() == payload_bytes,
        0 < k <= found.len(),
        read_in_turn(
            ReaderState {
                payload_bytes: payload_bytes as int,
                entry_count: entry_count as int,
                last_entry_seq: 0,
                last_read_idx: 0,
            },
            after_writes(
                newcomer(payload_bytes, entry_count),
                header_image(s, payload_bytes, entry_count, dtype, owner_pid),
                log,
            ).1,
            found,
            k,
        ),
    ensures
        ({
            let t = after_writes(
                newcomer(payload_bytes, entry_count),
                header_image(s, payload_bytes, entry_count, dtype, owner_pid),
                log,
            ).1;
            let lost = if log.len() > entry_count {
                log.len() - entry_count
            } else {
                0
            };
            &&& lost + k <= log.len()
            &&& found[k - 1].entry_seq == lost + k
            &&& payload_at(t, payload_bytes as int, found[k - 1].index as int) == log[lost + k - 1]
            &&& after_reads(
                ReaderState {
                    payload_bytes: payload_bytes as int,
                    entry_count: entry_count as int,
                    last_entry_seq: 0,
                    last_read_idx: 0,
                },
                found,
                k,
            ) == (ReaderState {
                payload_bytes: payload_bytes as int,
                entry_count: entry_count as int,
                last_entry_seq: (lost + k) as u64,
                last_read_idx: (lost + k - 1) % entry_count as int,
            })
        }),
    decreases k,
{
    let reader = ReaderState {
        payload_bytes: payload_bytes as int,
        entry_count: entry_count as int,
        last_entry_seq: 0,
        last_read_idx: 0,
    };
    let before = after_reads(reader, found, k - 1);
    let lost = if log.len() > entry_count {
        log.len() - entry_count
    } else {
        0
    };
    if k > 1 {
        lemma_draining_gives_the_whole_log(
            s,
            payload_bytes,
            entry_count,
            dtype,
            owner_pid,
            log,
            found,
            k - 1,
        );
        lemma_mod_bound(lost + k - 2, entry_count as int);
    }
    lemma_reads_follow_the_writes(
        s,
        payload_bytes,
        entry_count,
        dtype,
        owner_pid,
        log,
        before,
        None,
        before.last_entry_seq as int,
        Some(found[k - 1]),
    );
}

/// A writer that takes over a channel that nobody pins, whether its predecessor
/// left in good order or was killed between two writes, decodes from the header
/// what was written, and goes on with the very next entry in the very next slot.
pub proof fn lemma_successor_goes_on_where_the_writes_stopped(
    s: Seq<u8>,
    payload_bytes: usize,
    entry_count: usize,
    dtype: Dtype,
    owner_pid: u64,
    log: Seq<Seq<u8>>,
    r: Result<Option<Header>, ZeroChannelError>,
    resumed: WriterState,
)
    requires
        0 < entry_count,
        72 + entry_count * (8 + payload_bytes) <= s.len(),
        72 + entry_count * (8 + payload_bytes) <= usize::MAX,
        log.len() <= i64::MAX,
        forall|j: int| 0 <= j < log.len() ==> (#[trigger] log[j]).len() == payload_bytes,
        decodes_to(
            header_words(
                after_writes(
                    newcomer(payload_bytes, entry_count),
                    header_image(s, payload_bytes, entry_count, dtype, owner_pid),
                    log,
                ).1,
            ),
            r,
        ),
    ensures
        ({
            let t = after_writes(
                newcomer(payload_bytes, entry_count),
                header_image(s, payload_bytes, entry_count, dtype, owner_pid),
                log,
            ).1;
            let n = entry_count as int;
            &&& r matches Ok(Some(header))
            &&& header.payload_bytes == payload_bytes
            &&& header.entry_count == entry_count
            &&& header.write_index == log.len() as int % n
            &&& header.last_entry_seq == log.len()
            &&& header.dtype == match dtype {
                Dtype::U8 => 0u64,
                Dtype::I64 => 1,
                Dtype::F64 => 2,
            }
            &&& attaches(header, t, resumed) ==> {
                &&& resumed.payload_bytes == payload_bytes
                &&& resumed.entry_count == entry_count
                &&& resumed.current_index == log.len() as int % n
                &&& resumed.last_entry_seq == log.len()
                &&& resumed.target(t) == Some(log.len() as int % n)
            }
        }),
{
    let pb = payload_bytes as int;
    let n = entry_count as int;
    let t0 = header_image(s, payload_bytes, entry_count, dtype, owner_pid);
    lemma_header_image(s, payload_bytes, entry_count, dtype, owner_pid);
    lemma_magic_version();
    lemma_addressable(pb, n);
    lemma_run(s, payload_bytes, entry_count, dtype, owner_pid, log);
    let (w, t) = after_writes(newcomer(payload_bytes, entry_count), t0, log);
    let len = log.len() as int;
    let c = len % n;
    lemma_mod_bound(len, n);
    lemma_small_mod(c as nat, n as nat);
    let header = r->Ok_0->0;
    if attaches(header, t, resumed) {
        let words = resumed.words(t);
        let last = resumed.last_entry_seq;
        if last != len {
            let i = choose|i: int| 0 <= i < words.len() && magnitude(#[trigger] words[i]) == last;
            assert(seqs(t, pb, n)[i] == resident(i, len, n));
            lemma_resident(i, len, n);
        }
        assert(words[c] == resident(c, len, n));
        lemma_resident(c, len, n);
        if len > 0 && n > 1 && words[c] == len {
            // The last entry is in the slot before, not in this one.
            lemma_resident_of(len, len, n);
            lemma_next_slot(len - 1, n);
            lemma_mod_bound(len - 1, n);
            let last_slot = (len - 1) % n;
            if last_slot + 1 < n {
                lemma_small_mod((last_slot + 1) as nat, n as nat);
            } else {
                lemma_mod_self_0(n);
            }
            assert(false);
        }
    }
}

/// A read of any ring, whoever holds what, gives the oldest entry that is
/// committed, not held, and newer than the reader's position, or than the
/// position that the caller names. It gives nothing exactly when there is no
/// such entry, or the header does not promise one yet.
pub proof fn lemma_read_gives_the_oldest_newer_entry(
    reader: ReaderState,
    s: Seq<u8>,
    from_entry_seq: Option<u64>,
    position: int,
    found: Option<Entry>,
    i: int,
)
    requires
        reader.fits(s),
        from_entry_seq is None ==> position == reader.last_entry_seq,
        from_entry_seq matches Some(from) ==> position == from,
        reader.finds(s, from_entry_seq, found),
        0 <= i < reader.entry_count,
    ensures
        ({
            let word = word_at(s, 72 + i * (8 + reader.payload_bytes)) as i64;
            match found {
                Some(entry) => {
                    &&& word_at(s, 64) > position
                    &&& entry.entry_seq > position
                    &&& 0 <= entry.index < reader.entry_count
                    &&& word_at(s, 72 + entry.index * (8 + reader.payload_bytes)) as i64
                        == entry.entry_seq
                    &&& word > position ==> entry.entry_seq <= word
                },
                None => word_at(s, 64) <= position || word <= position,
            }
        }),
{
    let n = reader.entry_count;
    let probe = (reader.last_read_idx + 1) % n;
    lemma_mod_bound(reader.last_read_idx + 1, n);
    lemma_addressable(reader.payload_bytes, n);
    assert(reader.words(s)[i] == word_at(s, 72 + i * (8 + reader.payload_bytes)) as i64);
    if let Some(entry) = found {
        assert(reader.words(s)[entry.index as int] == word_at(
            s,
            72 + entry.index * (8 + reader.payload_bytes),
        ) as i64);
    }
}

/// Returning an entry moves the reader to it, and changes nothing else.
pub proof fn lemma_reading_moves_to_the_entry(reader: ReaderState, entry: Entry)
    ensures
        reader.after(entry).last_entry_seq == entry.entry_seq,
        reader.after(entry).last_read_idx == entry.index,
        reader.after(entry).payload_bytes == reader.payload_bytes,
        reader.after(entry).entry_count == reader.entry_count,
        reader.after(entry).wf() && entry.index < reader.entry_count ==> reader.after(entry).last()
            == entry,
{
}

/// A writer takes the first slot that no reader holds, going round from the one
/// after its last, and finds none exactly when every slot is held.
pub proof fn lemma_writes_skip_held_slots(writer: WriterState, s: Seq<u8>, i: int)
    requires
        writer.fits(s),
        0 <= i < writer.entry_count,
    ensures
        match writer.target(s) {
            Some(index) => {
                &&& 0 <= index < writer.entry_count
                &&& word_at(s, 72 + index * (8 + writer.payload_bytes)) as i64 >= 0
                // A slot that comes before it, going round, is held.
                &&& ({
                    let from = if i >= writer.current_index {
                        i
                    } else {
                        i + writer.entry_count
                    };
                    let to = if index >= writer.current_index {
                        index
                    } else {
                        index + writer.entry_count
                    };
                    from < to ==> (word_at(s, 72 + i * (8 + writer.payload_bytes)) as i64) < 0
                })
            },
            None => (word_at(s, 72 + i * (8 + writer.payload_bytes)) as i64) < 0,
        },
{
    let n = writer.entry_count;
    let start = writer.current_index;
    let words = writer.words(s);
    assert(words[i] == word_at(s, 72 + i * (8 + writer.payload_bytes)) as i64);
    lemma_free_slot(words, start, 0);
    lemma_claim_fails(words, start);
    if let Some(index) = writer.target(s) {
        assert(words[index] == word_at(s, 72 + index * (8 + writer.payload_bytes)) as i64);
        let k = choose|k: int|
            0 <= k < n && #[trigger] ring_index(start, k, n) == index && forall|j: int|
                0 <= j < k ==> words[#[trigger] ring_index(start, j, n)] < 0;
        let from = if i >= start {
            i
        } else {
            i + n
        };
        let to = if index >= start {
            index
        } else {
            index + n
        };
        if from < to {
            lemma_going_round(start, k, n, index);
            lemma_turn(start, from - start, n);
            assert(ring_index(start, from - start, n) == i);
        }
    }
}

/// How many slots on from `start` the slot `index` is.
proof fn lemma_going_round(start: int, step: int, n: int, index: int)
    requires
        0 <= start < n,
        0 <= step < n,
        0 <= index < n,
        ring_index(start, step, n) == index,
    ensures
        step == if index >= start {
            index - start
        } else {
            index + n - start
        },
{
    lemma_turn(start, step, n);
}

/// Going on by less than a lap wraps round at most once.
proof fn lemma_turn(start: int, step: int, n: int)
    requires
        0 <= start < n,
        0 <= step < n,
    ensures
        ring_index(start, step, n) == if start + step < n {
            start + step
        } else {
            start + step - n
        },
{
    if start + step < n {
        lemma_small_mod((start + step) as nat, n as nat);
    } else {
        lemma_mod_multiples_vanish(1, start + step - n, n);
        lemma_small_mod((start + step - n) as nat, n as nat);
    }
}

/// A published entry has the next number, and the next write starts looking at
/// the slot after it, going round.
pub proof fn lemma_publishing_moves_to_the_next_slot(writer: WriterState, index: int)
    requires
        writer.wf(),
        0 <= index < writer.entry_count,
        writer.last_entry_seq < u64::MAX,
    ensures
        writer.after(index).last_entry_seq == writer.last_entry_seq + 1,
        writer.after(index).current_index == if index + 1 == writer.entry_count {
            0
        } else {
            index + 1
        },
        writer.after(index).payload_bytes == writer.payload_bytes,
        writer.after(index).entry_count == writer.entry_count,
{
    if index + 1 == writer.entry_count {
        lemma_mod_self_0(writer.entry_count);
    } else {
        lemma_small_mod((index + 1) as nat, writer.entry_count as nat);
    }
}

} // verus!
