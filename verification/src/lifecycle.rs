//! Segment lifecycle: naming, mapping, ownership and exclusive roles.
//!
//! [`Connect`] turns a channel *name* into a mapped, accepted segment. It
//! decides whether to create the segment or attach to it, who is responsible
//! for unlinking it, and whether the exclusive role asked for can be had. It
//! performs nothing itself: each [`ConnectAction`] is carried out by whoever
//! talks to the operating system, and answered with a [`ConnectEvent`].

use vstd::prelude::*;
use vstd::string::StringExecFns;

use crate::error::ZeroChannelError;
use crate::header::{
    decode_header, foreign_magic_text, header_image, header_of_words, header_words,
    lemma_header_image, HeaderWords,
};
use crate::metadata::{
    check_dtype, check_geometry, dtype_admits, dtype_code, dtype_mismatch_text, geometry_ok,
    header_mismatch_text, lemma_addressable, misaligned_text, required_bytes, segment_bytes,
    validate_header, Dtype, Header, MAGIC_VERSION, OFF_SEGMENT_OWNER, OFF_WRITER_OWNER,
    OFF_ZC_READER_OWNER, SLOT_ALIGN,
};
use crate::owner::{role_conflict, role_conflict_text, OwnerAction, OwnerClaim, OwnerPhase};
use crate::ring::ring_fits;
use crate::segment::word_at;

verus! {

/// An exclusive role on a channel.
#[derive(Debug, Clone, Copy, PartialEq, Eq, Structural)]
pub enum Role {
    /// The one writer.
    Writer,
    /// The one reader that pins entries in place.
    ZeroCopyReader,
}

/// Byte offset of the owner cell of a role.
pub open spec fn role_cell(role: Role) -> usize {
    match role {
        Role::Writer => OFF_WRITER_OWNER,
        Role::ZeroCopyReader => OFF_ZC_READER_OWNER,
    }
}

/// Name of a role, used in error messages.
pub open spec fn role_label(role: Role) -> Seq<char> {
    match role {
        Role::Writer => "writer"@,
        Role::ZeroCopyReader => "zero-copy reader"@,
    }
}

impl Role {
    /// Byte offset of the owner cell of this role.
    pub fn cell(self) -> (cell: usize)
        ensures
            cell == role_cell(self),
    {
        match self {
            Role::Writer => OFF_WRITER_OWNER,
            Role::ZeroCopyReader => OFF_ZC_READER_OWNER,
        }
    }

    /// Name of this role, used in error messages.
    pub fn label(self) -> (label: &'static str)
        ensures
            label@ == role_label(self),
    {
        match self {
            Role::Writer => "writer",
            Role::ZeroCopyReader => "zero-copy reader",
        }
    }
}

/// What a participant asks for.
pub struct Request {
    /// Name of the channel.
    pub name: Seq<char>,
    /// Payload size and number of slots, for a participant willing to create
    /// the segment.
    pub geometry: Option<(usize, usize)>,
    /// Element type.
    pub dtype: Dtype,
    /// A missing segment is no error.
    pub delayed_connect: bool,
    /// A channel that was opened before is being connected now.
    pub reconnecting: bool,
    /// The exclusive role wanted, if any.
    pub role: Option<Role>,
    /// PID of the participant.
    pub me: u64,
}

impl Request {
    /// The geometry, if any, is a valid one whose size can be computed.
    pub open spec fn wf(self) -> bool {
        self.geometry matches Some((payload_bytes, entry_count)) ==> {
            &&& geometry_ok(payload_bytes as int, entry_count as int)
            &&& segment_bytes(payload_bytes as int, entry_count as int) <= usize::MAX
        }
    }

    /// An existing segment with this header is what was asked for.
    pub open spec fn accepts(self, header: Header) -> bool {
        &&& self.geometry == Some((header.payload_bytes, header.entry_count))
        &&& dtype_admits(header.dtype, self.dtype)
    }

    /// Text of the error for a segment that is not there.
    pub open spec fn missing_text(self) -> Seq<char> {
        if self.reconnecting {
            "shared memory segment not available"@
        } else {
            "shared memory segment does not exist and sizes were not supplied"@
        }
    }

    /// Text of the error for a name that is taken by something unusable.
    pub open spec fn unopenable_text(self) -> Seq<char> {
        "shared memory segment '"@ + self.name + "' exists but could not be opened"@
    }

    /// Text of the error for an uninitialized segment of the wrong size.
    pub open spec fn too_small_text(self) -> Seq<char> {
        "abandoned segment '"@ + self.name + "' is too small for the requested geometry"@
    }
}

/// The geometry that a participant declares, when it supplies both sizes.
pub open spec fn declared(
    payload_bytes: Option<usize>,
    entry_count: Option<usize>,
) -> Option<(usize, usize)> {
    match (payload_bytes, entry_count) {
        (Some(pb), Some(n)) => Some((pb, n)),
        _ => None,
    }
}

/// The size of the segment, if one with a valid geometry is declared, can be
/// computed.
pub open spec fn computable(payload_bytes: Option<usize>, entry_count: Option<usize>) -> bool {
    declared(payload_bytes, entry_count) matches Some((pb, n)) ==> geometry_ok(pb as int, n as int)
        ==> segment_bytes(pb as int, n as int) <= usize::MAX
}

/// Text of the error for sizes that are refused outright, if they are: sizes
/// must be supplied or omitted together, and must make a valid geometry.
pub open spec fn refusal(
    payload_bytes: Option<usize>,
    entry_count: Option<usize>,
) -> Option<Seq<char>> {
    match (payload_bytes, entry_count) {
        (Some(pb), Some(n)) => if pb == 0 || n == 0 {
            Some("entry_length and entry_count must be non-zero"@)
        } else if pb % SLOT_ALIGN != 0 {
            Some(misaligned_text(pb as nat))
        } else {
            None
        },
        (None, None) => None,
        _ => Some("entry_length and entry_count must both be supplied or both omitted"@),
    }
}

/// Where connecting stands.
#[derive(Debug, Clone, Copy)]
pub enum ConnectPhase {
    /// Creation is tried first, so the operating system arbitrates the race.
    Create,
    /// The segment was created and has no header yet.
    StampNew,
    /// The name was taken: another creator won the race, or a previous one died
    /// without unlinking.
    OpenTaken,
    /// A creator died between reserving the name and writing the header.
    StampAbandoned,
    /// Attach to what is already there.
    OpenExisting,
    /// The segment was accepted; bid for its deed.
    Bid(Header, OwnerClaim),
    /// The segment is mapped and accepted; claim the role.
    ClaimRole(Header, OwnerClaim),
    /// Over.
    Finished,
}

/// What connecting must do next.
#[derive(Debug, Clone, Copy)]
pub enum ConnectAction {
    /// Create the segment with this many bytes, unless the name is taken.
    Create {
        /// Bytes to reserve.
        size: usize,
    },
    /// Open the existing segment and load its header words.
    Open,
    /// Lay down a fresh header and load its words.
    Stamp {
        /// Payload bytes per ring slot.
        payload_bytes: usize,
        /// Number of ring slots.
        entry_count: usize,
        /// Element type.
        dtype: Dtype,
        /// PID responsible for unlinking.
        owner_pid: u64,
    },
    /// Compare the header word at `cell` with `expected` and set it to
    /// `desired` if they match, atomically.
    Swap {
        /// Byte offset of the owner cell.
        cell: usize,
        /// The owner the cell must still hold.
        expected: u64,
        /// The owner to put there.
        desired: u64,
    },
    /// Ask whether this process is alive.
    Probe(u32),
    /// Nothing: connecting is over.
    Finish,
}

/// The answer to a [`ConnectAction`].
#[derive(Debug)]
pub enum ConnectEvent {
    /// The segment was created.
    Created,
    /// The name is already taken.
    NameTaken,
    /// The operating system refused, with this explanation.
    CreateFailed(String),
    /// The existing segment was mapped.
    Opened {
        /// Mapped length in bytes.
        len: usize,
        /// Its header words. A word that does not lie within the mapping is
        /// taken for zero.
        words: HeaderWords,
    },
    /// There is no segment of that name.
    Absent,
    /// The header was laid down and now reads so.
    Stamped(HeaderWords),
    /// The word that a compare-and-swap found.
    Swapped(u64),
    /// Whether the process asked about is alive.
    Probed(bool),
}

/// Opening or creating a segment.
///
/// Supplying geometry is what marks a participant as willing to create the
/// segment; omitting it means "attach to what is already there". Creation is
/// attempted first so the operating system arbitrates the race, and an existing
/// segment is adopted on the second pass.
///
/// Geometry is also a bid for segment *ownership*, which is exclusive: exactly
/// one live process is responsible for unlinking the segment, and it unlinks on
/// a clean exit. A participant that attaches without geometry never bids. A
/// participant that bids while a live owner holds the deed is a tenant: it gets
/// the channel it asked for and leaves the name alone on the way out. Ownership
/// never moves away from a live holder; a deed left by a process that died is
/// adopted by the next bidder, which is what reclaims a leaked name.
#[derive(Debug)]
pub struct Connect {
    name: String,
    geometry: Option<(usize, usize)>,
    dtype: Dtype,
    delayed_connect: bool,
    reconnecting: bool,
    role: Option<Role>,
    me: u64,
    owner: bool,
    phase: ConnectPhase,
    outcome: Result<Option<Header>, ZeroChannelError>,
}

impl Connect {
    /// What is asked for.
    pub closed spec fn request(&self) -> Request {
        Request {
            name: self.name@,
            geometry: self.geometry,
            dtype: self.dtype,
            delayed_connect: self.delayed_connect,
            reconnecting: self.reconnecting,
            role: self.role,
            me: self.me,
        }
    }

    /// This participant is responsible for unlinking the segment.
    pub closed spec fn owner(&self) -> bool {
        self.owner
    }

    /// Where connecting stands.
    pub closed spec fn phase(&self) -> ConnectPhase {
        self.phase
    }

    /// The result, once connecting is over: the header of the segment, or
    /// `None` when it is not there and need not be.
    pub closed spec fn outcome(&self) -> Result<Option<Header>, ZeroChannelError> {
        self.outcome
    }

    /// Only a participant that declared a geometry creates, initializes or bids,
    /// and it bids only for a segment it has accepted. The segment is owned from
    /// its creation on, or once its deed is won or its header laid down.
    pub open spec fn wf(&self) -> bool {
        &&& self.request().wf()
        &&& match self.phase() {
            ConnectPhase::Create => self.request().geometry is Some && !self.owner(),
            ConnectPhase::StampNew => self.request().geometry is Some && self.owner(),
            ConnectPhase::OpenTaken => self.request().geometry is Some && !self.owner(),
            ConnectPhase::StampAbandoned => self.request().geometry is Some && !self.owner(),
            ConnectPhase::OpenExisting => self.request().geometry is None && !self.owner(),
            ConnectPhase::Bid(header, claim) => {
                &&& self.request().accepts(header)
                &&& !self.owner()
                &&& claim.me == self.request().me
                &&& claim.deed
                &&& !(claim.phase is Won)
                &&& !(claim.phase is Held)
            },
            ConnectPhase::ClaimRole(header, claim) => {
                &&& self.request().role is Some
                &&& self.owner() ==> self.request().geometry is Some
                &&& claim.me == self.request().me
                &&& !claim.deed
                &&& !(claim.phase is Won)
                &&& !(claim.phase is Held)
            },
            ConnectPhase::Finished => self.owner() ==> self.request().geometry is Some,
        }
    }

    /// Over, with an [`ZeroChannelError::InvalidArgument`] of this text.
    pub open spec fn rejected(&self, text: Seq<char>) -> bool {
        &&& self.phase() is Finished
        &&& self.outcome() matches Err(e)
        &&& e is InvalidArgument
        &&& e.text() == text
    }

    /// Over, with an [`ZeroChannelError::OsError`] of this text.
    pub open spec fn refused(&self, text: Seq<char>) -> bool {
        &&& self.phase() is Finished
        &&& self.outcome() matches Err(e)
        &&& e is OsError
        &&& e.text() == text
    }

    /// Over, because a live process holds the role.
    pub open spec fn conflicted(&self, holder: u64) -> bool {
        &&& self.phase() is Finished
        &&& self.outcome() matches Err(e)
        &&& e is RoleConflict
        &&& self.request().role matches Some(role)
        &&& e.text() == role_conflict_text(role_label(role), self.request().name, holder as nat)
    }

    /// Over, connected to the segment with this header.
    pub open spec fn connected(&self, header: Header) -> bool {
        self.phase() is Finished && self.outcome() == Ok::<Option<Header>, ZeroChannelError>(
            Some(header),
        )
    }

    /// The segment is not there: no error in delayed mode, one otherwise.
    pub open spec fn missing(&self) -> bool {
        if self.request().delayed_connect {
            self.phase() is Finished && self.outcome() == Ok::<Option<Header>, ZeroChannelError>(
                None,
            )
        } else {
            self.refused(self.request().missing_text())
        }
    }

    /// The segment with this header is ours to use: the role, if one is wanted,
    /// is claimed next.
    pub open spec fn settled(&self, header: Header) -> bool {
        match self.request().role {
            Some(_) => self.phase() == ConnectPhase::ClaimRole(
                header,
                OwnerClaim { me: self.request().me, deed: false, phase: OwnerPhase::TakeFree },
            ),
            None => self.connected(header),
        }
    }

    /// `next` is what follows when a fresh header reads as `words`.
    pub open spec fn stamped(&self, words: HeaderWords, next: Connect) -> bool {
        if words.magic == MAGIC_VERSION {
            next.settled(header_of_words(words))
        } else if words.magic == 0 {
            next.refused(
                if self.phase() is StampNew {
                    "freshly created segment has no header"@
                } else {
                    "segment has no header after init"@
                },
            )
        } else {
            next.rejected(foreign_magic_text(words.magic))
        }
    }

    /// `next` is what follows when a taken name turns out to be a segment of
    /// `len` bytes whose header reads as `words`.
    ///
    /// The bid is placed only once the segment has been accepted: a rejected
    /// open must not unlink a healthy segment on its way out. A segment without
    /// a header may be initialized by whoever supplied the geometry.
    pub open spec fn opened_taken(&self, len: usize, words: HeaderWords, next: Connect) -> bool {
        let request = self.request();
        let (payload_bytes, entry_count) = request.geometry->0;
        let header = header_of_words(words);
        if words.magic == MAGIC_VERSION {
            if header.payload_bytes != payload_bytes || header.entry_count != entry_count {
                next.rejected(
                    header_mismatch_text(payload_bytes as nat, entry_count as nat, header),
                )
            } else if !dtype_admits(header.dtype, request.dtype) {
                next.rejected(dtype_mismatch_text(header.dtype, request.dtype))
            } else {
                next.phase() == ConnectPhase::Bid(
                    header,
                    OwnerClaim { me: request.me, deed: true, phase: OwnerPhase::TakeFree },
                )
            }
        } else if words.magic == 0 {
            if len < segment_bytes(payload_bytes as int, entry_count as int) {
                next.rejected(request.too_small_text())
            } else {
                next.phase() is StampAbandoned
            }
        } else {
            next.rejected(foreign_magic_text(words.magic))
        }
    }

    /// `next` is what follows when the segment to attach to reads as `words`.
    ///
    /// A segment whose magic has not landed yet is treated as not yet existing:
    /// its creator is still initializing, or died trying.
    pub open spec fn opened_existing(&self, words: HeaderWords, next: Connect) -> bool {
        let header = header_of_words(words);
        if words.magic == 0 {
            next.missing()
        } else if words.magic != MAGIC_VERSION {
            next.rejected(foreign_magic_text(words.magic))
        } else if header.payload_bytes == 0 || header.entry_count == 0 {
            next.missing()
        } else if !dtype_admits(header.dtype, self.request().dtype) {
            next.rejected(dtype_mismatch_text(header.dtype, self.request().dtype))
        } else {
            next.settled(header)
        }
    }

    /// `next` is what follows when the bid for the deed reaches `phase`.
    /// Losing is no error: the participant is a tenant.
    pub open spec fn bid(
        &self,
        header: Header,
        claim: OwnerClaim,
        phase: OwnerPhase,
        next: Connect,
    ) -> bool {
        match phase {
            OwnerPhase::Won => next.settled(header) && next.owner(),
            OwnerPhase::Held(_) => next.settled(header) && !next.owner(),
            _ => next.phase() == ConnectPhase::Bid(header, OwnerClaim { phase, ..claim })
                && next.owner() == self.owner(),
        }
    }

    /// `next` is what follows when the claim on the role reaches `phase`.
    pub open spec fn claimed(
        &self,
        header: Header,
        claim: OwnerClaim,
        phase: OwnerPhase,
        next: Connect,
    ) -> bool {
        &&& next.owner() == self.owner()
        &&& match phase {
            OwnerPhase::Won => next.connected(header),
            OwnerPhase::Held(holder) => next.conflicted(holder),
            _ => next.phase() == ConnectPhase::ClaimRole(header, OwnerClaim { phase, ..claim }),
        }
    }

    /// `next` is what follows when the pending action is answered with `event`.
    /// An event that does not answer it changes nothing.
    pub open spec fn follows(&self, event: ConnectEvent, next: Connect) -> bool {
        match (self.phase(), event) {
            (ConnectPhase::Create, ConnectEvent::Created) => next.phase() is StampNew
                && next.owner(),
            (ConnectPhase::Create, ConnectEvent::NameTaken) => next.phase() is OpenTaken
                && next.owner() == self.owner(),
            (ConnectPhase::Create, ConnectEvent::CreateFailed(why)) => next.refused(
                "failed to create shared memory: "@ + why@,
            ) && next.owner() == self.owner(),
            (ConnectPhase::StampNew, ConnectEvent::Stamped(words)) => self.stamped(words, next)
                && next.owner() == self.owner(),
            (ConnectPhase::OpenTaken, ConnectEvent::Absent) => next.refused(
                self.request().unopenable_text(),
            ) && next.owner() == self.owner(),
            (ConnectPhase::OpenTaken, ConnectEvent::Opened { len, words }) => self.opened_taken(
                len,
                words,
                next,
            ) && next.owner() == self.owner(),
            (ConnectPhase::StampAbandoned, ConnectEvent::Stamped(words)) => self.stamped(
                words,
                next,
            ) && next.owner() == (self.owner() || words.magic == MAGIC_VERSION),
            (ConnectPhase::OpenExisting, ConnectEvent::Absent) => next.missing() && next.owner()
                == self.owner(),
            (ConnectPhase::OpenExisting, ConnectEvent::Opened { words, .. }) =>
                self.opened_existing(words, next) && next.owner() == self.owner(),
            (ConnectPhase::Bid(header, claim), ConnectEvent::Swapped(found)) => self.bid(
                header,
                claim,
                claim.after_swap(found),
                next,
            ),
            (ConnectPhase::Bid(header, claim), ConnectEvent::Probed(alive)) => self.bid(
                header,
                claim,
                claim.after_probe(alive),
                next,
            ),
            (ConnectPhase::ClaimRole(header, claim), ConnectEvent::Swapped(found)) => self.claimed(
                header,
                claim,
                claim.after_swap(found),
                next,
            ),
            (ConnectPhase::ClaimRole(header, claim), ConnectEvent::Probed(alive)) => self.claimed(
                header,
                claim,
                claim.after_probe(alive),
                next,
            ),
            _ => {
                &&& next.phase() == self.phase()
                &&& next.owner() == self.owner()
                &&& next.outcome() == self.outcome()
            },
        }
    }

    /// Connecting has begun, for this request, and nothing has been done yet.
    pub open spec fn begun(&self, request: Request) -> bool {
        &&& self.wf()
        &&& self.request() == request
        &&& !self.owner()
        &&& if request.geometry is Some {
            self.phase() is Create
        } else {
            self.phase() is OpenExisting
        }
    }

    /// Begin to open or create the segment called `name`.
    ///
    /// `payload_bytes` and `entry_count` declare the geometry and must both be
    /// supplied or both omitted.
    pub fn open_or_create(
        name: &str,
        payload_bytes: Option<usize>,
        entry_count: Option<usize>,
        dtype: Dtype,
        delayed_connect: bool,
        role: Option<Role>,
        me: u64,
    ) -> (r: Result<Self, ZeroChannelError>)
        requires
            computable(payload_bytes, entry_count),
        ensures
            match r {
                Ok(connect) => {
                    &&& refusal(payload_bytes, entry_count) is None
                    &&& connect.begun(
                        Request {
                            name: name@,
                            geometry: declared(payload_bytes, entry_count),
                            dtype,
                            delayed_connect,
                            reconnecting: false,
                            role,
                            me,
                        },
                    )
                    &&& match (payload_bytes, entry_count) {
                        (Some(pb), Some(n)) => connect.request().geometry == Some((pb, n)) && 0 < pb
                            && 0 < n && pb % 8 == 0,
                        (None, None) => connect.request().geometry is None,
                        _ => false,
                    }
                },
                Err(e) => e is InvalidArgument && refusal(payload_bytes, entry_count) == Some(
                    e.text(),
                ),
            },
    {
        let (geometry, phase) = match (payload_bytes, entry_count) {
            (Some(pb), Some(n)) => {
                match check_geometry(pb, n) {
                    Ok(()) => {},
                    Err(e) => {
                        return Err(e);
                    },
                }
                (Some((pb, n)), ConnectPhase::Create)
            },
            (None, None) => (None, ConnectPhase::OpenExisting),
            _ => {
                return Err(
                    ZeroChannelError::InvalidArgument(
                        String::from_str(
                            "entry_length and entry_count must both be supplied or both omitted",
                        ),
                    ),
                );
            },
        };
        Ok(
            Connect {
                name: String::from_str(name),
                geometry,
                dtype,
                delayed_connect,
                reconnecting: false,
                role,
                me,
                owner: false,
                phase,
                outcome: Ok(None),
            },
        )
    }

    /// Begin to attach a channel that was opened before its segment existed.
    pub fn try_attach(
        name: &str,
        dtype: Dtype,
        delayed_connect: bool,
        role: Option<Role>,
        me: u64,
    ) -> (connect: Self)
        ensures
            connect.begun(
                Request {
                    name: name@,
                    geometry: None,
                    dtype,
                    delayed_connect,
                    reconnecting: true,
                    role,
                    me,
                },
            ),
    {
        Connect {
            name: String::from_str(name),
            geometry: None,
            dtype,
            delayed_connect,
            reconnecting: true,
            role,
            me,
            owner: false,
            phase: ConnectPhase::OpenExisting,
            outcome: Ok(None),
        }
    }

    /// What to do next.
    pub fn action(&self) -> (action: ConnectAction)
        requires
            self.wf(),
        ensures
            match self.phase() {
                ConnectPhase::Create => {
                    &&& self.request().geometry matches Some((pb, n))
                    &&& action matches ConnectAction::Create { size }
                    &&& size == segment_bytes(pb as int, n as int)
                    &&& size == 72 + n * (8 + pb)
                },
                ConnectPhase::StampNew | ConnectPhase::StampAbandoned => {
                    &&& self.request().geometry matches Some((pb, n))
                    &&& action == ConnectAction::Stamp {
                        payload_bytes: pb,
                        entry_count: n,
                        dtype: self.request().dtype,
                        owner_pid: self.request().me,
                    }
                },
                ConnectPhase::OpenTaken | ConnectPhase::OpenExisting => action
                    == ConnectAction::Open,
                ConnectPhase::Bid(_, claim) => match claim.phase {
                    OwnerPhase::Probe(holder) => action == ConnectAction::Probe(holder as u32),
                    OwnerPhase::Adopt(holder) => action == (ConnectAction::Swap {
                        cell: OFF_SEGMENT_OWNER,
                        expected: holder,
                        desired: self.request().me,
                    }),
                    _ => action == (ConnectAction::Swap {
                        cell: OFF_SEGMENT_OWNER,
                        expected: 0,
                        desired: self.request().me,
                    }),
                },
                ConnectPhase::ClaimRole(_, claim) => match claim.phase {
                    OwnerPhase::Probe(holder) => action == ConnectAction::Probe(holder as u32),
                    OwnerPhase::Adopt(holder) => action == (ConnectAction::Swap {
                        cell: role_cell(self.request().role->0),
                        expected: holder,
                        desired: self.request().me,
                    }),
                    _ => action == (ConnectAction::Swap {
                        cell: role_cell(self.request().role->0),
                        expected: 0,
                        desired: self.request().me,
                    }),
                },
                ConnectPhase::Finished => action == ConnectAction::Finish,
            },
    {
        match self.phase {
            ConnectPhase::Create => {
                match self.geometry {
                    Some((pb, n)) => {
                        proof {
                            lemma_addressable(pb as int, n as int);
                        }
                        ConnectAction::Create { size: required_bytes(pb, n) }
                    },
                    None => ConnectAction::Finish,
                }
            },
            ConnectPhase::StampNew | ConnectPhase::StampAbandoned => {
                match self.geometry {
                    Some((pb, n)) => ConnectAction::Stamp {
                        payload_bytes: pb,
                        entry_count: n,
                        dtype: self.dtype,
                        owner_pid: self.me,
                    },
                    None => ConnectAction::Finish,
                }
            },
            ConnectPhase::OpenTaken | ConnectPhase::OpenExisting => ConnectAction::Open,
            ConnectPhase::Bid(_, claim) => owner_action(&claim, OFF_SEGMENT_OWNER),
            ConnectPhase::ClaimRole(_, claim) => {
                match self.role {
                    Some(role) => owner_action(&claim, role.cell()),
                    None => ConnectAction::Finish,
                }
            },
            ConnectPhase::Finished => ConnectAction::Finish,
        }
    }

    /// The header of the segment that was accepted, if one was.
    ///
    /// Accepting goes by the header alone. Whoever mapped the segment makes sure
    /// with [`check_mapped`](crate::ring::check_mapped) that the ring is there
    /// before touching it.
    pub fn accepted(&self) -> (header: Option<Header>)
        ensures
            header == match self.phase() {
                ConnectPhase::Bid(header, _) => Some(header),
                ConnectPhase::ClaimRole(header, _) => Some(header),
                ConnectPhase::Finished => match self.outcome() {
                    Ok(header) => header,
                    Err(_) => None,
                },
                _ => None,
            },
    {
        match self.phase {
            ConnectPhase::Bid(header, _) => Some(header),
            ConnectPhase::ClaimRole(header, _) => Some(header),
            ConnectPhase::Finished => {
                match &self.outcome {
                    Ok(header) => *header,
                    Err(_) => None,
                }
            },
            _ => None,
        }
    }

    /// End with an error.
    fn fail(&mut self, e: ZeroChannelError)
        ensures
            final(self).request() == old(self).request(),
            final(self).owner() == old(self).owner(),
            final(self).phase() is Finished,
            final(self).outcome() == Err::<Option<Header>, ZeroChannelError>(e),
    {
        self.outcome = Err(e);
        self.phase = ConnectPhase::Finished;
    }

    /// End without a segment.
    fn miss(&mut self)
        ensures
            final(self).request() == old(self).request(),
            final(self).owner() == old(self).owner(),
            final(self).missing(),
    {
        if self.delayed_connect {
            self.outcome = Ok(None);
            self.phase = ConnectPhase::Finished;
        } else if self.reconnecting {
            self.fail(
                ZeroChannelError::OsError(String::from_str("shared memory segment not available")),
            );
        } else {
            self.fail(
                ZeroChannelError::OsError(
                    String::from_str(
                        "shared memory segment does not exist and sizes were not supplied",
                    ),
                ),
            );
        }
    }

    /// Go on to the role, or end connected.
    fn settle(&mut self, header: Header)
        ensures
            final(self).request() == old(self).request(),
            final(self).owner() == old(self).owner(),
            final(self).settled(header),
    {
        match self.role {
            Some(_) => {
                self.phase = ConnectPhase::ClaimRole(header, OwnerClaim::role(self.me));
            },
            None => {
                self.outcome = Ok(Some(header));
                self.phase = ConnectPhase::Finished;
            },
        }
    }

    /// Go on with a bid for the deed.
    fn go_bid(&mut self, header: Header, claim: OwnerClaim)
        requires
            old(self).request().accepts(header),
            old(self).request().wf(),
            !old(self).owner(),
            claim.me == old(self).request().me,
            claim.deed,
        ensures
            final(self).wf(),
            final(self).request() == old(self).request(),
            old(self).bid(header, claim, claim.phase, *final(self)),
    {
        match claim.phase {
            OwnerPhase::Won => {
                self.owner = true;
                self.settle(header);
            },
            OwnerPhase::Held(_) => {
                self.owner = false;
                self.settle(header);
            },
            _ => {
                self.phase = ConnectPhase::Bid(header, claim);
            },
        }
    }

    /// Go on with a claim on the role.
    fn go_claim(&mut self, header: Header, claim: OwnerClaim)
        requires
            old(self).request().role is Some,
            old(self).request().wf(),
            old(self).owner() ==> old(self).request().geometry is Some,
            claim.me == old(self).request().me,
            !claim.deed,
        ensures
            final(self).wf(),
            final(self).request() == old(self).request(),
            old(self).claimed(header, claim, claim.phase, *final(self)),
    {
        match claim.phase {
            OwnerPhase::Won => {
                self.outcome = Ok(Some(header));
                self.phase = ConnectPhase::Finished;
            },
            OwnerPhase::Held(holder) => {
                let label: &str = match self.role {
                    Some(role) => role.label(),
                    None => "",
                };
                let e = role_conflict(label, self.name.as_str(), holder);
                self.fail(e);
            },
            _ => {
                self.phase = ConnectPhase::ClaimRole(header, claim);
            },
        }
    }

    /// A fresh header was laid down and reads as `words`.
    fn on_stamped(&mut self, words: HeaderWords, missing: &str)
        requires
            missing@ == if old(self).phase() is StampNew {
                "freshly created segment has no header"@
            } else {
                "segment has no header after init"@
            },
        ensures
            final(self).request() == old(self).request(),
            final(self).owner() == old(self).owner(),
            old(self).stamped(words, *final(self)),
    {
        match decode_header(&words) {
            Ok(Some(header)) => {
                self.settle(header);
            },
            Ok(None) => {
                self.fail(ZeroChannelError::OsError(String::from_str(missing)));
            },
            Err(e) => {
                self.fail(e);
            },
        }
    }

    /// The name was taken by a segment of `len` bytes that reads as `words`.
    fn on_opened_taken(&mut self, pb: usize, n: usize, len: usize, words: HeaderWords)
        requires
            old(self).wf(),
            old(self).phase() is OpenTaken,
            old(self).request().geometry == Some((pb, n)),
        ensures
            final(self).wf(),
            final(self).request() == old(self).request(),
            final(self).owner() == old(self).owner(),
            old(self).opened_taken(len, words, *final(self)),
    {
        match decode_header(&words) {
            Ok(Some(header)) => {
                match validate_header(&header, pb, n) {
                    Ok(()) => {
                        match check_dtype(&header, self.dtype) {
                            Ok(()) => {
                                self.phase = ConnectPhase::Bid(header, OwnerClaim::deed(self.me));
                            },
                            Err(e) => {
                                self.fail(e);
                            },
                        }
                    },
                    Err(e) => {
                        self.fail(e);
                    },
                }
            },
            Ok(None) => {
                proof {
                    lemma_addressable(pb as int, n as int);
                }
                if len < required_bytes(pb, n) {
                    let mut msg = String::from_str("abandoned segment '");
                    msg.append(self.name.as_str());
                    msg.append("' is too small for the requested geometry");
                    self.fail(ZeroChannelError::InvalidArgument(msg));
                } else {
                    self.phase = ConnectPhase::StampAbandoned;
                }
            },
            Err(e) => {
                self.fail(e);
            },
        }
    }

    /// The segment to attach to reads as `words`.
    fn on_opened_existing(&mut self, words: HeaderWords)
        ensures
            final(self).request() == old(self).request(),
            final(self).owner() == old(self).owner(),
            old(self).opened_existing(words, *final(self)),
    {
        match decode_header(&words) {
            Ok(Some(header)) => {
                if header.payload_bytes == 0 || header.entry_count == 0 {
                    self.miss();
                } else {
                    match check_dtype(&header, self.dtype) {
                        Ok(()) => {
                            self.settle(header);
                        },
                        Err(e) => {
                            self.fail(e);
                        },
                    }
                }
            },
            Ok(None) => {
                self.miss();
            },
            Err(e) => {
                self.fail(e);
            },
        }
    }

    /// Take in the answer to the pending action.
    pub fn advance(&mut self, event: ConnectEvent)
        requires
            old(self).wf(),
        ensures
            final(self).wf(),
            final(self).request() == old(self).request(),
            old(self).follows(event, *final(self)),
    {
        match (self.phase, event) {
            (ConnectPhase::Create, ConnectEvent::Created) => {
                self.owner = true;
                self.phase = ConnectPhase::StampNew;
            },
            (ConnectPhase::Create, ConnectEvent::NameTaken) => {
                self.phase = ConnectPhase::OpenTaken;
            },
            (ConnectPhase::Create, ConnectEvent::CreateFailed(why)) => {
                let mut msg = String::from_str("failed to create shared memory: ");
                msg.append(why.as_str());
                self.fail(ZeroChannelError::OsError(msg));
            },
            (ConnectPhase::StampNew, ConnectEvent::Stamped(words)) => {
                self.on_stamped(words, "freshly created segment has no header");
            },
            (ConnectPhase::OpenTaken, ConnectEvent::Absent) => {
                let mut msg = String::from_str("shared memory segment '");
                msg.append(self.name.as_str());
                msg.append("' exists but could not be opened");
                self.fail(ZeroChannelError::OsError(msg));
            },
            (ConnectPhase::OpenTaken, ConnectEvent::Opened { len, words }) => {
                if let Some((pb, n)) = self.geometry {
                    self.on_opened_taken(pb, n, len, words);
                }
            },
            (ConnectPhase::StampAbandoned, ConnectEvent::Stamped(words)) => {
                self.on_stamped(words, "segment has no header after init");
                // Laying down the header is what confers ownership.
                if words.magic == MAGIC_VERSION {
                    self.owner = true;
                }
            },
            (ConnectPhase::OpenExisting, ConnectEvent::Absent) => {
                self.miss();
            },
            (ConnectPhase::OpenExisting, ConnectEvent::Opened { words, .. }) => {
                self.on_opened_existing(words);
            },
            (ConnectPhase::Bid(header, claim), ConnectEvent::Swapped(found)) => {
                let mut claim: OwnerClaim = claim;
                claim.swapped(found);
                self.go_bid(header, claim);
            },
            (ConnectPhase::Bid(header, claim), ConnectEvent::Probed(alive)) => {
                let mut claim: OwnerClaim = claim;
                claim.probed(alive);
                self.go_bid(header, claim);
            },
            (ConnectPhase::ClaimRole(header, claim), ConnectEvent::Swapped(found)) => {
                let mut claim: OwnerClaim = claim;
                claim.swapped(found);
                self.go_claim(header, claim);
            },
            (ConnectPhase::ClaimRole(header, claim), ConnectEvent::Probed(alive)) => {
                let mut claim: OwnerClaim = claim;
                claim.probed(alive);
                self.go_claim(header, claim);
            },
            _ => {},
        }
    }

    /// Whether this participant is responsible for unlinking the segment. Holds
    /// at every point, also when connecting ended in an error.
    pub fn owns(&self) -> (owner: bool)
        ensures
            owner == self.owner(),
    {
        self.owner
    }

    /// The result of connecting.
    pub fn into_outcome(self) -> (r: Result<Option<Header>, ZeroChannelError>)
        ensures
            r == self.outcome(),
    {
        self.outcome
    }
}

/// The action of a claim, on the owner cell at byte offset `cell`.
fn owner_action(claim: &OwnerClaim, cell: usize) -> (action: ConnectAction)
    ensures
        action == match claim.phase {
            OwnerPhase::TakeFree => ConnectAction::Swap { cell, expected: 0, desired: claim.me },
            OwnerPhase::Probe(holder) => ConnectAction::Probe(holder as u32),
            OwnerPhase::Adopt(holder) => ConnectAction::Swap {
                cell,
                expected: holder,
                desired: claim.me,
            },
            _ => ConnectAction::Finish,
        },
{
    match claim.action() {
        OwnerAction::Swap { expected, desired } => ConnectAction::Swap { cell, expected, desired },
        OwnerAction::Probe(pid) => ConnectAction::Probe(pid),
        OwnerAction::Won => ConnectAction::Finish,
        OwnerAction::Held(_) => ConnectAction::Finish,
    }
}

/// A participant that attaches without geometry is a tenant: it never creates,
/// initializes or bids, and never owns the segment.
pub proof fn lemma_tenants_never_own(connect: Connect)
    requires
        connect.wf(),
        connect.request().geometry is None,
    ensures
        !connect.owner(),
        connect.phase() is OpenExisting || connect.phase() is ClaimRole
            || connect.phase() is Finished,
{
}

/// The deed is bid for only once the segment has been accepted: same geometry,
/// compatible element type.
pub proof fn lemma_bids_only_when_accepted(connect: Connect, header: Header, claim: OwnerClaim)
    requires
        connect.wf(),
        connect.phase() == ConnectPhase::Bid(header, claim),
    ensures
        connect.request().geometry == Some((header.payload_bytes, header.entry_count)),
        dtype_admits(header.dtype, connect.request().dtype),
        !connect.owner(),
{
}

/// A rejected open leaves the segment alone: a participant that is turned away
/// by an existing segment does not own it.
pub proof fn lemma_rejected_open_never_owns(connect: Connect, event: ConnectEvent, next: Connect)
    requires
        connect.wf(),
        connect.phase() is OpenTaken || connect.phase() is OpenExisting,
        connect.follows(event, next),
        next.phase() is Finished,
    ensures
        !next.owner(),
{
}

/// The deed never moves away from a live holder: a bid is won only by finding
/// the deed unclaimed, or by taking it over from a holder that was found dead.
pub proof fn lemma_deed_moves_only_from_the_dead(
    connect: Connect,
    header: Header,
    claim: OwnerClaim,
    event: ConnectEvent,
    next: Connect,
)
    requires
        connect.wf(),
        connect.phase() == ConnectPhase::Bid(header, claim),
        connect.follows(event, next),
        next.owner(),
    ensures
        event matches ConnectEvent::Swapped(found) && ((claim.phase is TakeFree && found == 0)
            || claim.phase == OwnerPhase::Adopt(found)),
{
}

/// Whoever creates a channel gets it, owns it, and finds in it the geometry and
/// element type asked for.
pub proof fn lemma_creator_connects_and_owns(
    s: Seq<u8>,
    payload_bytes: usize,
    entry_count: usize,
    role: Role,
    begun: Connect,
    created: Connect,
    stamped: Connect,
    connected: Connect,
)
    requires
        begun.begun(begun.request()),
        begun.request().geometry == Some((payload_bytes, entry_count)),
        begun.request().role == Some(role),
        ring_fits(s, payload_bytes as int, entry_count as int),
        begun.follows(ConnectEvent::Created, created),
        created.request() == begun.request(),
        created.follows(
            ConnectEvent::Stamped(
                header_words(
                    header_image(
                        s,
                        payload_bytes,
                        entry_count,
                        begun.request().dtype,
                        begun.request().me,
                    ),
                ),
            ),
            stamped,
        ),
        stamped.request() == begun.request(),
        stamped.follows(
            ConnectEvent::Swapped(
                word_at(
                    header_image(
                        s,
                        payload_bytes,
                        entry_count,
                        begun.request().dtype,
                        begun.request().me,
                    ),
                    role_cell(role) as int,
                ),
            ),
            connected,
        ),
    ensures
        connected.connected(
            Header {
                payload_bytes,
                entry_count,
                write_index: 0,
                dtype: dtype_code(begun.request().dtype),
                last_entry_seq: 0,
            },
        ),
        connected.owner(),
{
    lemma_header_image(s, payload_bytes, entry_count, begun.request().dtype, begun.request().me);
}

/// A role is exclusive among the living: while a live process holds it, the
/// claim of another ends in a conflict that names the holder.
pub proof fn lemma_live_holder_keeps_the_role(
    claiming: Connect,
    header: Header,
    holder: u64,
    probing: Connect,
    ended: Connect,
)
    requires
        claiming.wf(),
        claiming.settled(header),
        claiming.request().role is Some,
        holder != 0,
        claiming.follows(ConnectEvent::Swapped(holder), probing),
        probing.request() == claiming.request(),
        probing.follows(ConnectEvent::Probed(true), ended),
        ended.request() == claiming.request(),
    ensures
        ended.conflicted(holder),
{
}

/// A role left behind by a process that died is adopted.
pub proof fn lemma_dead_holders_role_is_adopted(
    claiming: Connect,
    header: Header,
    holder: u64,
    probing: Connect,
    adopting: Connect,
    ended: Connect,
)
    requires
        claiming.wf(),
        claiming.settled(header),
        claiming.request().role is Some,
        holder != 0,
        claiming.follows(ConnectEvent::Swapped(holder), probing),
        probing.request() == claiming.request(),
        probing.follows(ConnectEvent::Probed(false), adopting),
        adopting.request() == claiming.request(),
        adopting.follows(ConnectEvent::Swapped(holder), ended),
    ensures
        ended.connected(header),
{
}

} // verus!
