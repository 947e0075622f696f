//! What opening a channel comes to, from the sizes supplied and the words found.

use vstd::prelude::*;

use crate::channel::reader::{reader_role, RawReader};
use crate::channel::writer::RawWriter;
use crate::error::ZeroChannelError;
use crate::header::{
    decodes_to, foreign_magic_text, header_image, header_of_words, header_words, lemma_header_image,
    HeaderWords,
};
use crate::lifecycle::{
    computable, declared, lemma_creator_connects_and_owns, refusal, role_cell, Connect,
    ConnectEvent, ConnectPhase, Request, Role,
};
use crate::metadata::{
    dtype_admits, dtype_code, dtype_mismatch_text, geometry_ok, header_mismatch_text,
    lemma_magic_version, Dtype, Header,
};
use crate::owner::{OwnerClaim, OwnerPhase};
use crate::ring::ring_fits;
use crate::segment::word_at;

verus! {

/// Decoding a header gives back its words, whatever they are: the geometry, the
/// element type, where the next entry goes and how many were written. A header
/// without the magic word gives nothing, and one with another magic word an
/// error.
pub proof fn lemma_header_gives_back_its_words(
    s: Seq<u8>,
    r: Result<Option<Header>, ZeroChannelError>,
)
    requires
        decodes_to(header_words(s), r),
    ensures
        match r {
            Ok(Some(header)) => {
                &&& word_at(s, 0) == 0x5A43_484E_0000_0001
                &&& header.payload_bytes == word_at(s, 8) as usize
                &&& header.entry_count == word_at(s, 16) as usize
                &&& header.dtype == word_at(s, 24)
                &&& header.write_index == word_at(s, 56) as usize
                &&& header.last_entry_seq == word_at(s, 64)
                &&& word_at(s, 8) <= usize::MAX ==> header.payload_bytes == word_at(s, 8)
                &&& word_at(s, 16) <= usize::MAX ==> header.entry_count == word_at(s, 16)
                &&& word_at(s, 56) <= usize::MAX ==> header.write_index == word_at(s, 56)
            },
            Ok(None) => word_at(s, 0) == 0,
            Err(e) => {
                &&& word_at(s, 0) != 0
                &&& word_at(s, 0) != 0x5A43_484E_0000_0001
                &&& e is InvalidArgument
            },
        },
{
}

/// The same of loaded words.
pub proof fn lemma_words_decode_to_themselves(
    words: HeaderWords,
    r: Result<Option<Header>, ZeroChannelError>,
)
    requires
        decodes_to(words, r),
    ensures
        match r {
            Ok(Some(header)) => {
                &&& words.magic == 0x5A43_484E_0000_0001
                &&& header == (Header {
                    payload_bytes: words.payload_bytes as usize,
                    entry_count: words.entry_count as usize,
                    write_index: words.write_index as usize,
                    dtype: words.dtype,
                    last_entry_seq: words.last_entry_seq,
                })
            },
            Ok(None) => words.magic == 0,
            Err(e) => words.magic != 0 && words.magic != 0x5A43_484E_0000_0001
                && e is InvalidArgument,
        },
        header_of_words(words).write_index == words.write_index as usize,
        header_of_words(words).last_entry_seq == words.last_entry_seq,
{
}

/// The words of a segment are those at their places.
pub proof fn lemma_words_are_where_they_belong(s: Seq<u8>)
    ensures
        header_words(s).magic == word_at(s, 0),
        header_words(s).payload_bytes == word_at(s, 8),
        header_words(s).entry_count == word_at(s, 16),
        header_words(s).dtype == word_at(s, 24),
        header_words(s).write_index == word_at(s, 56),
        header_words(s).last_entry_seq == word_at(s, 64),
{
}

/// Sizes are supplied together or not at all. Every payload that is a multiple of
/// eight bytes, and every number of slots, is accepted, if only neither is zero.
pub proof fn lemma_which_sizes_are_accepted(
    payload_bytes: Option<usize>,
    entry_count: Option<usize>,
)
    ensures
        refusal(payload_bytes, entry_count) is None <==> match (payload_bytes, entry_count) {
            (Some(pb), Some(n)) => 0 < pb && 0 < n && pb % 8 == 0,
            (None, None) => true,
            _ => false,
        },
        payload_bytes matches Some(pb) ==> (entry_count matches Some(n) ==> {
            &&& geometry_ok(pb as int, n as int) <==> 0 < pb && 0 < n && pb % 8 == 0
            &&& 72 + n * (8 + pb) <= usize::MAX ==> computable(payload_bytes, entry_count)
        }),
        payload_bytes is None || entry_count is None ==> computable(payload_bytes, entry_count),
{
}

/// Whoever supplies sizes asks for exactly those, and creates the segment; who
/// supplies none attaches.
pub proof fn lemma_sizes_are_taken_as_supplied(
    connect: Connect,
    payload_bytes: Option<usize>,
    entry_count: Option<usize>,
    request: Request,
)
    requires
        connect.begun(request),
        request.geometry == declared(payload_bytes, entry_count),
        refusal(payload_bytes, entry_count) is None,
    ensures
        !connect.owner(),
        connect.request() == request,
        match (payload_bytes, entry_count) {
            (Some(pb), Some(n)) => {
                &&& connect.request().geometry == Some((pb, n))
                &&& connect.phase() is Create
            },
            _ => {
                &&& connect.request().geometry is None
                &&& connect.phase() is OpenExisting
            },
        },
{
}

/// A channel that is created has the sizes that were supplied, whatever they
/// are, and the element type, and belongs to its maker.
pub proof fn lemma_new_channel_has_the_supplied_sizes(
    s: Seq<u8>,
    payload_bytes: usize,
    entry_count: usize,
    role: Role,
    request: Request,
    begun: Connect,
    created: Connect,
    stamped: Connect,
    connected: Connect,
)
    requires
        begun.begun(request),
        request.geometry == declared(Some(payload_bytes), Some(entry_count)),
        request.role == Some(role),
        ring_fits(s, payload_bytes as int, entry_count as int),
        begun.follows(ConnectEvent::Created, created),
        created.request() == request,
        created.follows(
            ConnectEvent::Stamped(
                header_words(
                    header_image(s, payload_bytes, entry_count, request.dtype, request.me),
                ),
            ),
            stamped,
        ),
        stamped.request() == request,
        stamped.follows(
            ConnectEvent::Swapped(
                word_at(
                    header_image(s, payload_bytes, entry_count, request.dtype, request.me),
                    role_cell(role) as int,
                ),
            ),
            connected,
        ),
    ensures
        created.phase() is StampNew,
        created.owner(),
        connected.phase() is Finished,
        connected.owner(),
        connected.outcome() matches Ok(Some(header)) && header.payload_bytes == payload_bytes
            && header.entry_count == entry_count && header.write_index == 0
            && header.last_entry_seq == 0 && header.dtype == match request.dtype {
            Dtype::U8 => 0u64,
            Dtype::I64 => 1,
            Dtype::F64 => 2,
        },
{
    lemma_creator_connects_and_owns(
        s,
        payload_bytes,
        entry_count,
        role,
        begun,
        created,
        stamped,
        connected,
    );
}

/// A channel holds one type of element, and admits who asks for that type, or
/// for plain bytes.
pub proof fn lemma_who_is_admitted(held: Dtype, requested: Dtype)
    ensures
        dtype_admits(dtype_code(held), requested) <==> requested == held || requested == Dtype::U8,
        dtype_code(held) == dtype_code(requested) <==> held == requested,
{
}

/// The same of every code found in a header.
pub proof fn lemma_which_codes_admit(code: u64, requested: Dtype)
    ensures
        dtype_admits(code, requested) <==> match requested {
            Dtype::U8 => true,
            Dtype::I64 => code == 1,
            Dtype::F64 => code == 2,
        },
{
}

/// A participant without sizes attaches to every initialized channel that has a
/// geometry and admits its element type, and learns the geometry from it. One
/// that is not initialized, or has no geometry, is not there yet. Any other is
/// refused.
pub proof fn lemma_attaching(connect: Connect, len: usize, words: HeaderWords, next: Connect)
    requires
        connect.wf(),
        connect.phase() is OpenExisting,
        connect.follows(ConnectEvent::Opened { len, words }, next),
        next.request() == connect.request(),
    ensures
        !next.owner(),
        ({
            let blank = words.magic == 0 || (words.magic == 0x5A43_484E_0000_0001 && (
            words.payload_bytes as usize == 0 || words.entry_count as usize == 0));
            let admitted = match connect.request().dtype {
                Dtype::U8 => true,
                Dtype::I64 => words.dtype == 1,
                Dtype::F64 => words.dtype == 2,
            };
            let header = Header {
                payload_bytes: words.payload_bytes as usize,
                entry_count: words.entry_count as usize,
                write_index: words.write_index as usize,
                dtype: words.dtype,
                last_entry_seq: words.last_entry_seq,
            };
            if blank {
                &&& next.phase() is Finished
                &&& if connect.request().delayed_connect {
                    next.outcome() == Ok::<Option<Header>, ZeroChannelError>(None)
                } else {
                    next.outcome() matches Err(e) && e is OsError && e.text()
                        == connect.request().missing_text()
                }
            } else if words.magic == 0x5A43_484E_0000_0001 && admitted {
                match connect.request().role {
                    None => next.phase() is Finished && next.outcome() == Ok::<
                        Option<Header>,
                        ZeroChannelError,
                    >(Some(header)),
                    Some(_) => next.phase() == ConnectPhase::ClaimRole(
                        header,
                        OwnerClaim {
                            me: connect.request().me,
                            deed: false,
                            phase: OwnerPhase::TakeFree,
                        },
                    ),
                }
            } else {
                &&& next.phase() is Finished
                &&& next.outcome() matches Err(e) && e is InvalidArgument && e.text() == if words.magic
                    != 0x5A43_484E_0000_0001 {
                    foreign_magic_text(words.magic)
                } else {
                    dtype_mismatch_text(words.dtype, connect.request().dtype)
                }
            }
        }),
{
}

/// A participant without sizes that finds no segment waits for it, or fails.
pub proof fn lemma_attaching_to_nothing(connect: Connect, next: Connect)
    requires
        connect.wf(),
        connect.phase() is OpenExisting,
        connect.follows(ConnectEvent::Absent, next),
        next.request() == connect.request(),
    ensures
        !next.owner(),
        next.phase() is Finished,
        connect.request().delayed_connect ==> next.outcome() == Ok::<
            Option<Header>,
            ZeroChannelError,
        >(None),
        !connect.request().delayed_connect ==> (next.outcome() matches Err(e) && e is OsError
            && e.text() == connect.request().missing_text()),
{
}

/// A participant with sizes that finds the name taken accepts every channel of
/// those sizes that admits its element type, and bids for it; lays down a header
/// in one that has none and is large enough; and is refused by any other.
pub proof fn lemma_opening_with_sizes(
    connect: Connect,
    payload_bytes: usize,
    entry_count: usize,
    len: usize,
    words: HeaderWords,
    next: Connect,
)
    requires
        connect.wf(),
        connect.phase() is OpenTaken,
        connect.request().geometry == Some((payload_bytes, entry_count)),
        connect.follows(ConnectEvent::Opened { len, words }, next),
        next.request() == connect.request(),
    ensures
        !next.owner(),
        ({
            let admitted = match connect.request().dtype {
                Dtype::U8 => true,
                Dtype::I64 => words.dtype == 1,
                Dtype::F64 => words.dtype == 2,
            };
            if words.magic == 0x5A43_484E_0000_0001 && words.payload_bytes as usize
                == payload_bytes && words.entry_count as usize == entry_count && admitted {
                next.phase() == ConnectPhase::Bid(
                    Header {
                        payload_bytes,
                        entry_count,
                        write_index: words.write_index as usize,
                        dtype: words.dtype,
                        last_entry_seq: words.last_entry_seq,
                    },
                    OwnerClaim {
                        me: connect.request().me,
                        deed: true,
                        phase: OwnerPhase::TakeFree,
                    },
                )
            } else if words.magic == 0 && 72 + entry_count * (8 + payload_bytes) <= len {
                next.phase() is StampAbandoned
            } else {
                let found = Header {
                    payload_bytes: words.payload_bytes as usize,
                    entry_count: words.entry_count as usize,
                    write_index: words.write_index as usize,
                    dtype: words.dtype,
                    last_entry_seq: words.last_entry_seq,
                };
                &&& next.phase() is Finished
                &&& next.outcome() matches Err(e) && e is InvalidArgument && e.text() == if words.magic
                    == 0 {
                    connect.request().too_small_text()
                } else if words.magic != 0x5A43_484E_0000_0001 {
                    foreign_magic_text(words.magic)
                } else if found.payload_bytes != payload_bytes || found.entry_count
                    != entry_count {
                    header_mismatch_text(payload_bytes as nat, entry_count as nat, found)
                } else {
                    dtype_mismatch_text(words.dtype, connect.request().dtype)
                }
            }
        }),
{
}

/// Creation is tried first: it makes the participant the owner, or finds the
/// name taken, or fails.
pub proof fn lemma_creating(connect: Connect, event: ConnectEvent, next: Connect)
    requires
        connect.wf(),
        connect.phase() is Create,
        connect.follows(event, next),
    ensures
        event is Created ==> next.phase() is StampNew && next.owner(),
        event is NameTaken ==> next.phase() is OpenTaken && !next.owner(),
        event matches ConnectEvent::CreateFailed(why) ==> next.phase() is Finished && !next.owner()
            && (next.outcome() matches Err(e) && e is OsError && e.text()
            == "failed to create shared memory: "@ + why@),
{
}

/// A name that is taken by something that cannot be opened is an error.
pub proof fn lemma_taken_but_gone(connect: Connect, next: Connect)
    requires
        connect.wf(),
        connect.phase() is OpenTaken,
        connect.follows(ConnectEvent::Absent, next),
    ensures
        next.phase() is Finished,
        !next.owner(),
        next.outcome() matches Err(e) && e is OsError && e.text()
            == connect.request().unopenable_text(),
{
}

/// Whoever lays down a header that then reads as such owns the segment and goes
/// on with what the header says.
pub proof fn lemma_laying_down_a_header(connect: Connect, words: HeaderWords, next: Connect)
    requires
        connect.wf(),
        connect.phase() is StampNew || connect.phase() is StampAbandoned,
        connect.follows(ConnectEvent::Stamped(words), next),
        next.request() == connect.request(),
    ensures
        ({
            let header = Header {
                payload_bytes: words.payload_bytes as usize,
                entry_count: words.entry_count as usize,
                write_index: words.write_index as usize,
                dtype: words.dtype,
                last_entry_seq: words.last_entry_seq,
            };
            if words.magic == 0x5A43_484E_0000_0001 {
                &&& next.owner()
                &&& match connect.request().role {
                    None => next.phase() is Finished && next.outcome() == Ok::<
                        Option<Header>,
                        ZeroChannelError,
                    >(Some(header)),
                    Some(_) => next.phase() == ConnectPhase::ClaimRole(
                        header,
                        OwnerClaim {
                            me: connect.request().me,
                            deed: false,
                            phase: OwnerPhase::TakeFree,
                        },
                    ),
                }
            } else {
                &&& next.phase() is Finished
                &&& next.outcome() matches Err(e) && if words.magic == 0 {
                    e is OsError && e.text() == if connect.phase() is StampNew {
                        "freshly created segment has no header"@
                    } else {
                        "segment has no header after init"@
                    }
                } else {
                    e is InvalidArgument && e.text() == foreign_magic_text(words.magic)
                }
            }
        }),
{
}

/// Who creates a channel and who comes later agree on it: whoever attaches to a
/// fresh channel with the same element type, or as plain bytes, finds the sizes
/// its maker supplied; whoever asks for another element type is refused.
pub proof fn lemma_peers_agree_on_the_channel(
    s: Seq<u8>,
    payload_bytes: usize,
    entry_count: usize,
    dtype: Dtype,
    owner_pid: u64,
    connect: Connect,
    len: usize,
    next: Connect,
)
    requires
        ring_fits(s, payload_bytes as int, entry_count as int),
        0 < payload_bytes,
        connect.wf(),
        connect.phase() is OpenExisting,
        connect.request().role is None,
        connect.follows(
            ConnectEvent::Opened {
                len,
                words: header_words(
                    header_image(s, payload_bytes, entry_count, dtype, owner_pid),
                ),
            },
            next,
        ),
        next.request() == connect.request(),
    ensures
        next.phase() is Finished,
        connect.request().dtype == dtype || connect.request().dtype == Dtype::U8 ==> (
        next.outcome() matches Ok(Some(header)) && header.payload_bytes == payload_bytes
            && header.entry_count == entry_count && header.write_index == 0
            && header.last_entry_seq == 0),
        connect.request().dtype != dtype && connect.request().dtype != Dtype::U8 ==> (
        next.outcome() matches Err(e) && e is InvalidArgument),
{
    lemma_header_image(s, payload_bytes, entry_count, dtype, owner_pid);
    lemma_magic_version();
}

/// Who comes later with sizes of its own is accepted exactly when they are those
/// of the channel.
pub proof fn lemma_sizes_must_match_the_channel(
    s: Seq<u8>,
    payload_bytes: usize,
    entry_count: usize,
    dtype: Dtype,
    owner_pid: u64,
    connect: Connect,
    asked: (usize, usize),
    len: usize,
    next: Connect,
)
    requires
        ring_fits(s, payload_bytes as int, entry_count as int),
        connect.wf(),
        connect.phase() is OpenTaken,
        connect.request().geometry == Some(asked),
        connect.request().dtype == dtype,
        connect.follows(
            ConnectEvent::Opened {
                len,
                words: header_words(
                    header_image(s, payload_bytes, entry_count, dtype, owner_pid),
                ),
            },
            next,
        ),
    ensures
        asked == (payload_bytes, entry_count) ==> next.phase() is Bid,
        asked != (payload_bytes, entry_count) ==> next.phase() is Finished && (
        next.outcome() matches Err(e) && e is InvalidArgument),
{
    lemma_header_image(s, payload_bytes, entry_count, dtype, owner_pid);
    lemma_magic_version();
}

/// Only a reader that pins entries needs a role, and each role has a cell of its
/// own in the header.
pub proof fn lemma_roles_have_their_own_cells(role: Role, enable_zero_copy: bool)
    ensures
        role_cell(role) == match role {
            Role::Writer => 40usize,
            Role::ZeroCopyReader => 48,
        },
        reader_role(enable_zero_copy) is Some <==> enable_zero_copy,
        reader_role(enable_zero_copy) matches Some(r) ==> r == Role::ZeroCopyReader,
{
}

/// Connecting that is over stays over, with the same result.
pub proof fn lemma_finished_connecting_stays(connect: Connect, event: ConnectEvent, next: Connect)
    requires
        connect.phase() is Finished,
        connect.follows(event, next),
    ensures
        next.phase() is Finished,
        next.outcome() == connect.outcome(),
        next.owner() == connect.owner(),
{
}

/// Whatever a channel end does, it stays the end of the same channel: the name,
/// the element type and how it waits for the segment do not change, nor what it
/// reads for.
pub proof fn lemma_ends_stay_with_their_channel(
    reader: RawReader,
    other_reader: RawReader,
    writer: RawWriter,
    other_writer: RawWriter,
)
    ensures
        reader.same_channel(&other_reader) <==> reader.name() == other_reader.name()
            && reader.dtype() == other_reader.dtype() && reader.delayed() == other_reader.delayed()
            && reader.zero_copy() == other_reader.zero_copy(),
        writer.same_channel(&other_writer) <==> writer.name() == other_writer.name()
            && writer.dtype() == other_writer.dtype() && writer.delayed()
            == other_writer.delayed(),
{
}

/// An end that is not connected works on anything, and one that is connected on
/// every segment that holds its ring.
pub proof fn lemma_ends_work_on_every_segment(reader: RawReader, writer: RawWriter, s: Seq<u8>)
    ensures
        reader.ring() is None ==> reader.wf() && reader.fits(s),
        writer.ring() is None ==> writer.wf() && writer.fits(s),
        reader.ring() matches Some(ring) ==> (reader.wf() <==> ring.wf()) && (reader.fits(s)
            <==> ring.fits(s)),
        writer.ring() matches Some(ring) ==> (writer.wf() <==> ring.wf()) && (writer.fits(s)
            <==> ring.fits(s)),
{
}

} // verus!
