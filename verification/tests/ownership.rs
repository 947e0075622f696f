//! Owner cells, process liveness and connecting, one answer at a time.

use zerochannel::header::HeaderWords;
use zerochannel::lifecycle::{Connect, ConnectAction, ConnectEvent, Role};
use zerochannel::metadata::{MAGIC_VERSION, OFF_SEGMENT_OWNER, OFF_WRITER_OWNER};
use zerochannel::owner::{
    claim_role, claim_segment, may_signal, process_alive, release_role, OwnerAction, OwnerClaim,
    ProbeOutcome,
};
use zerochannel::ring::check_mapped;
use zerochannel::segment::Segment;
use zerochannel::{Dtype, ZeroChannelError};

fn words(magic: u64) -> HeaderWords {
    HeaderWords {
        magic,
        payload_bytes: 16,
        entry_count: 8,
        dtype: 2,
        write_index: 0,
        last_entry_seq: 0,
    }
}

fn begin(role: Option<Role>) -> Connect {
    Connect::open_or_create("/c", Some(16), Some(8), Dtype::F64, false, role, 7).unwrap()
}

fn attach(delayed: bool) -> Connect {
    Connect::try_attach("/c", Dtype::F64, delayed, Some(Role::Writer), 7)
}

fn message(connect: Connect) -> String {
    connect.into_outcome().unwrap_err().message()
}

#[test]
fn liveness() {
    assert!(process_alive(1, ProbeOutcome::Delivered));
    // Belongs to another user, but exists.
    assert!(process_alive(1, ProbeOutcome::NotPermitted));
    assert!(!process_alive(1, ProbeOutcome::Failed));
    // A handle can outlive the process it refers to.
    assert!(process_alive(1, ProbeOutcome::ExitCode(259)));
    assert!(!process_alive(1, ProbeOutcome::ExitCode(0)));
    assert!(!process_alive(0, ProbeOutcome::NotProbed));
    assert!(!process_alive(0, ProbeOutcome::Delivered));
    assert!(!process_alive(0, ProbeOutcome::ExitCode(259)));
}

#[test]
fn a_number_beyond_every_pid_is_dead() {
    // Signalling it would reach other processes, which says nothing of it.
    for outcome in [
        ProbeOutcome::Delivered,
        ProbeOutcome::NotPermitted,
        ProbeOutcome::Failed,
        ProbeOutcome::NotProbed,
    ] {
        assert!(!process_alive(u32::MAX, outcome));
        assert!(!process_alive(i32::MAX as u32 + 1, outcome));
    }
    assert!(process_alive(i32::MAX as u32, ProbeOutcome::Delivered));
    assert!(process_alive(i32::MAX as u32, ProbeOutcome::NotPermitted));
    assert!(may_signal(1) && may_signal(i32::MAX as u32));
    assert!(!may_signal(0) && !may_signal(i32::MAX as u32 + 1) && !may_signal(u32::MAX));
}

#[test]
fn accepting_goes_by_the_header_and_mapping_by_the_length() {
    let mut c = begin(None);
    assert!(c.accepted().is_none());
    c.advance(ConnectEvent::NameTaken);
    assert!(c.accepted().is_none());
    c.advance(ConnectEvent::Opened {
        len: 263,
        words: words(MAGIC_VERSION),
    });
    assert!(matches!(c.action(), ConnectAction::Swap { cell: 32, .. }));
    let header = c.accepted().unwrap();
    assert_eq!((header.payload_bytes, header.entry_count), (16, 8));

    let mut c = attach(true);
    c.advance(ConnectEvent::Opened {
        len: 263,
        words: words(MAGIC_VERSION),
    });
    assert!(matches!(c.action(), ConnectAction::Swap { cell: 40, .. }));
    assert!(c.accepted().is_some());
    c.advance(ConnectEvent::Swapped(0));
    assert!(matches!(c.action(), ConnectAction::Finish));
    assert_eq!(c.accepted().unwrap().payload_bytes, 16);
    assert_eq!(c.into_outcome().unwrap().unwrap().payload_bytes, 16);

    // The ring takes 264 bytes.
    assert!(check_mapped(&header, 264).is_ok());
    let e = check_mapped(&header, 263).unwrap_err();
    assert!(matches!(e, ZeroChannelError::InvalidArgument(_)));
    assert_eq!(
        e.message(),
        "shared memory segment is shorter than its header declares"
    );
    assert!(check_mapped(&header, 0).is_err());
}

#[test]
fn a_blank_stub_of_a_segment_is_not_there_yet() {
    let blank = HeaderWords {
        magic: 0,
        payload_bytes: 0,
        entry_count: 0,
        dtype: 0,
        write_index: 0,
        last_entry_seq: 0,
    };
    for len in [8, 71] {
        let mut c = attach(true);
        c.advance(ConnectEvent::Opened { len, words: blank });
        assert!(c.accepted().is_none());
        assert!(c.into_outcome().unwrap().is_none());

        let mut c = attach(false);
        c.advance(ConnectEvent::Opened { len, words: blank });
        assert!(c.accepted().is_none());
        assert_eq!(message(c), "shared memory segment not available");

        let mut c = begin(None);
        c.advance(ConnectEvent::NameTaken);
        c.advance(ConnectEvent::Opened { len, words: blank });
        assert!(!c.owns());
        assert_eq!(
            message(c),
            "abandoned segment '/c' is too small for the requested geometry"
        );
    }
}

#[test]
fn roles_are_claimed_adopted_and_released() {
    let mut seg = Segment::zeroed(72);
    let cell = OFF_WRITER_OWNER;
    claim_role(&mut seg, cell, "writer", "/c", 7, false).unwrap();
    assert_eq!(seg.load(cell), 7);
    let e = claim_role(&mut seg, cell, "writer", "/c", 8, true).unwrap_err();
    assert!(matches!(e, ZeroChannelError::RoleConflict(_)));
    assert_eq!(
        e.message(),
        "the writer role on channel '/c' is held by process 7"
    );
    // Held by another instance in the same process.
    assert!(claim_role(&mut seg, cell, "writer", "/c", 7, true).is_err());
    claim_role(&mut seg, cell, "writer", "/c", 8, false).unwrap();
    assert_eq!(seg.load(cell), 8);
    release_role(&mut seg, cell, 7);
    assert_eq!(seg.load(cell), 8);
    release_role(&mut seg, cell, 8);
    assert_eq!(seg.load(cell), 0);
}

#[test]
fn the_deed_is_won_lost_or_adopted() {
    let mut seg = Segment::zeroed(72);
    let cell = OFF_SEGMENT_OWNER;
    assert!(claim_segment(&mut seg, cell, 7, false));
    assert_eq!(seg.load(cell), 7);
    // Already ours: another instance in this process holds it.
    assert!(!claim_segment(&mut seg, cell, 7, false));
    assert!(!claim_segment(&mut seg, cell, 8, true));
    assert_eq!(seg.load(cell), 7);
    assert!(claim_segment(&mut seg, cell, 8, false));
    assert_eq!(seg.load(cell), 8);
}

#[test]
fn losing_the_race_to_adopt_starts_over() {
    let mut claim = OwnerClaim::role(7);
    assert_eq!(
        claim.action(),
        OwnerAction::Swap {
            expected: 0,
            desired: 7
        }
    );
    claim.swapped(5);
    assert_eq!(claim.action(), OwnerAction::Probe(5));
    claim.probed(false);
    assert_eq!(
        claim.action(),
        OwnerAction::Swap {
            expected: 5,
            desired: 7
        }
    );
    // Someone else adopted first.
    claim.swapped(6);
    assert_eq!(
        claim.action(),
        OwnerAction::Swap {
            expected: 0,
            desired: 7
        }
    );
    claim.swapped(6);
    claim.probed(true);
    assert_eq!(claim.action(), OwnerAction::Held(6));
    claim.swapped(0);
    assert_eq!(claim.action(), OwnerAction::Held(6));
}

#[test]
fn only_the_low_half_of_an_owner_is_a_pid() {
    let mut claim = OwnerClaim::deed(7);
    claim.swapped(0x1_0000_0005);
    assert_eq!(claim.action(), OwnerAction::Probe(5));
    claim.probed(false);
    claim.swapped(0x1_0000_0005);
    assert_eq!(claim.action(), OwnerAction::Won);
}

#[test]
fn a_creator_creates_stamps_and_claims() {
    let mut c = begin(Some(Role::Writer));
    match c.action() {
        ConnectAction::Create { size } => assert_eq!(size, 264),
        other => panic!("unexpected {other:?}"),
    }
    assert!(!c.owns());
    c.advance(ConnectEvent::Created);
    assert!(c.owns());
    match c.action() {
        ConnectAction::Stamp {
            payload_bytes,
            entry_count,
            dtype,
            owner_pid,
        } => {
            assert_eq!((payload_bytes, entry_count), (16, 8));
            assert_eq!((dtype, owner_pid), (Dtype::F64, 7));
        }
        other => panic!("unexpected {other:?}"),
    }
    c.advance(ConnectEvent::Stamped(words(MAGIC_VERSION)));
    match c.action() {
        ConnectAction::Swap {
            cell,
            expected,
            desired,
        } => assert_eq!((cell, expected, desired), (40, 0, 7)),
        other => panic!("unexpected {other:?}"),
    }
    c.advance(ConnectEvent::Swapped(0));
    assert!(matches!(c.action(), ConnectAction::Finish));
    assert!(c.owns());
    assert_eq!(c.into_outcome().unwrap().unwrap().entry_count, 8);
}

#[test]
fn a_refused_creation_passes_the_explanation_on() {
    let mut c = begin(None);
    c.advance(ConnectEvent::CreateFailed("no room".to_string()));
    assert!(matches!(c.action(), ConnectAction::Finish));
    assert_eq!(message(c), "failed to create shared memory: no room");
}

#[test]
fn a_header_that_does_not_land_is_an_error() {
    let mut c = begin(None);
    c.advance(ConnectEvent::Created);
    c.advance(ConnectEvent::Stamped(words(0)));
    // The fresh segment is still ours to unlink.
    assert!(c.owns());
    assert_eq!(message(c), "freshly created segment has no header");

    let mut c = begin(None);
    c.advance(ConnectEvent::NameTaken);
    c.advance(ConnectEvent::Opened {
        len: 264,
        words: words(0),
    });
    assert!(matches!(c.action(), ConnectAction::Stamp { .. }));
    c.advance(ConnectEvent::Stamped(words(0)));
    assert!(!c.owns());
    assert_eq!(message(c), "segment has no header after init");
}

#[test]
fn a_taken_name_that_cannot_be_opened_is_an_error() {
    let mut c = begin(None);
    c.advance(ConnectEvent::NameTaken);
    assert!(matches!(c.action(), ConnectAction::Open));
    c.advance(ConnectEvent::Absent);
    assert_eq!(
        message(c),
        "shared memory segment '/c' exists but could not be opened"
    );
}

#[test]
fn a_bid_is_placed_only_after_validation() {
    let mut c = begin(None);
    c.advance(ConnectEvent::NameTaken);
    let mut other = words(MAGIC_VERSION);
    other.entry_count = 9;
    c.advance(ConnectEvent::Opened {
        len: 4096,
        words: other,
    });
    assert!(matches!(c.action(), ConnectAction::Finish));
    assert!(!c.owns());
    assert_eq!(
        message(c),
        "header mismatch: expected (16 payload bytes, 8 entries), \
         found (16 payload bytes, 9 entries)"
    );

    let mut c = begin(None);
    c.advance(ConnectEvent::NameTaken);
    c.advance(ConnectEvent::Opened {
        len: 4096,
        words: words(MAGIC_VERSION),
    });
    match c.action() {
        ConnectAction::Swap { cell, desired, .. } => assert_eq!((cell, desired), (32, 7)),
        other => panic!("unexpected {other:?}"),
    }
    c.advance(ConnectEvent::Swapped(5));
    assert!(matches!(c.action(), ConnectAction::Probe(5)));
    c.advance(ConnectEvent::Probed(true));
    // A tenant: connected all the same.
    assert!(!c.owns());
    assert!(c.into_outcome().unwrap().is_some());
}

#[test]
fn an_adopted_deed_makes_an_owner() {
    let mut c = begin(Some(Role::ZeroCopyReader));
    c.advance(ConnectEvent::NameTaken);
    c.advance(ConnectEvent::Opened {
        len: 4096,
        words: words(MAGIC_VERSION),
    });
    c.advance(ConnectEvent::Swapped(5));
    c.advance(ConnectEvent::Probed(false));
    c.advance(ConnectEvent::Swapped(5));
    assert!(c.owns());
    match c.action() {
        ConnectAction::Swap { cell, .. } => assert_eq!(cell, 48),
        other => panic!("unexpected {other:?}"),
    }
    // The role is another matter.
    c.advance(ConnectEvent::Swapped(9));
    c.advance(ConnectEvent::Probed(true));
    assert!(c.owns());
    assert_eq!(
        message(c),
        "the zero-copy reader role on channel '/c' is held by process 9"
    );
}

#[test]
fn an_attach_waits_only_in_delayed_mode() {
    let mut c = attach(true);
    c.advance(ConnectEvent::Absent);
    assert!(c.into_outcome().unwrap().is_none());

    let mut c = attach(false);
    c.advance(ConnectEvent::Absent);
    assert_eq!(message(c), "shared memory segment not available");

    // A half-initialized segment, and one without a geometry, are not there yet.
    for w in [
        words(0),
        HeaderWords {
            entry_count: 0,
            ..words(MAGIC_VERSION)
        },
    ] {
        let mut c = attach(true);
        c.advance(ConnectEvent::Opened {
            len: 4096,
            words: w,
        });
        assert!(c.into_outcome().unwrap().is_none());
    }
}

#[test]
fn an_attach_checks_the_element_type() {
    let mut c = attach(true);
    c.advance(ConnectEvent::Opened {
        len: 4096,
        words: HeaderWords {
            dtype: 1,
            ..words(MAGIC_VERSION)
        },
    });
    assert_eq!(
        message(c),
        "dtype mismatch: channel holds i64, requested f64"
    );
}

#[test]
fn an_event_that_answers_nothing_changes_nothing() {
    let mut c = begin(None);
    c.advance(ConnectEvent::Swapped(0));
    c.advance(ConnectEvent::Absent);
    assert!(matches!(c.action(), ConnectAction::Create { size: 264 }));
    assert!(!c.owns());
}
