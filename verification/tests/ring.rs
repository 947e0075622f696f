//! The ring protocol on a plain segment, and its step machines one step at a
//! time.

use zerochannel::element::{check_elements, decode_all, encode_all};
use zerochannel::header::{
    decode_header, header_init, high_watermark, init_header, load_header, read_header, HeaderWords,
};
use zerochannel::metadata::{
    entry_bytes, payload_offset, required_bytes, slot_offset, Header, HEADER_BYTES, MAGIC_VERSION,
    OFF_LAST_ENTRY_SEQ, OFF_MAGIC, OFF_WRITE_INDEX,
};
use zerochannel::reader::{Entry, RawReader, ReadAction};
use zerochannel::ring::{ring_within, seq_cell, store_seq};
use zerochannel::segment::Segment;
use zerochannel::typed::scale;
use zerochannel::writer::{recover_state, RawWriter};
use zerochannel::{Dtype, Element, F64Bits, ZeroChannelError};

/// A fresh ring of `n` slots with eight payload bytes each.
fn ring(n: usize) -> (Segment, Header) {
    let mut seg = Segment::zeroed(required_bytes(8, n));
    init_header(&mut seg, 8, n, Dtype::I64, 99);
    let header = read_header(&seg).unwrap().unwrap();
    (seg, header)
}

fn words(seg: &Segment, n: usize) -> Vec<i64> {
    (0..n).map(|i| seq_cell(seg, 8, i)).collect()
}

#[test]
fn layout_formulas() {
    assert_eq!(entry_bytes(24), 32);
    assert_eq!(required_bytes(24, 3), 168);
    assert_eq!(slot_offset(24, 2), 136);
    assert_eq!(payload_offset(24, 2), 144);
    assert!(ring_within(168, 24, 3));
    assert!(!ring_within(167, 24, 3));
    assert!(!ring_within(168, 24, 0));
    assert!(!ring_within(71, 0, 1));
    assert!(ring_within(80, 0, 1));
    assert!(!ring_within(79, 0, 1));
    assert!(!ring_within(usize::MAX, usize::MAX, 1));
    assert!(!ring_within(usize::MAX, 8, usize::MAX));
}

#[test]
fn entry_lengths_scale_to_bytes() {
    assert_eq!(scale(Some(7), 8), Some(56));
    assert_eq!(scale(Some(usize::MAX), 8), Some(usize::MAX));
    assert_eq!(scale(Some(usize::MAX), 1), Some(usize::MAX));
    assert_eq!(scale(None, 8), None);
    // What cannot be computed is refused.
    let e = zerochannel::Float64Writer::new("/huge", Some(usize::MAX), Some(1), true, 1);
    assert!(matches!(e, Err(ZeroChannelError::InvalidArgument(_))));
}

#[test]
fn the_magic_goes_down_last() {
    let plan = header_init(16, 4, Dtype::F64, 31);
    assert_eq!(plan.clear, 168);
    let fields: Vec<(usize, u64)> = plan.fields.iter().map(|w| (w.offset, w.value)).collect();
    assert_eq!(fields, vec![(8, 16), (16, 4), (24, 2), (32, 31)]);
    assert_eq!((plan.latch.offset, plan.latch.value), (0, MAGIC_VERSION));

    // Until the latch lands the segment reads as uninitialized.
    let mut seg = Segment::zeroed(168);
    for w in &plan.fields {
        seg.store(w.offset, w.value);
        assert!(read_header(&seg).unwrap().is_none());
    }
    seg.store(plan.latch.offset, plan.latch.value);
    let header = read_header(&seg).unwrap().unwrap();
    assert_eq!((header.payload_bytes, header.entry_count), (16, 4));
    assert_eq!(header.dtype, 2);
}

#[test]
fn initializing_clears_the_ring_and_nothing_beyond_it() {
    let mut seg = Segment::zeroed(120);
    for i in 0..15 {
        seg.store(i * 8, u64::MAX);
    }
    init_header(&mut seg, 8, 2, Dtype::U8, 5);
    assert_eq!(words(&seg, 2), vec![0, 0]);
    assert_eq!(seg.bytes_at(80, 8), &[0u8; 8]);
    assert_eq!(seg.load(OFF_WRITE_INDEX), 0);
    assert_eq!(high_watermark(&seg), 0);
    assert_eq!(seg.load(104), u64::MAX);
}

#[test]
fn header_words_decode() {
    let mut words = HeaderWords {
        magic: MAGIC_VERSION,
        payload_bytes: 40,
        entry_count: 6,
        dtype: 1,
        write_index: 5,
        last_entry_seq: 77,
    };
    let header = decode_header(&words).unwrap().unwrap();
    assert_eq!(header.payload_bytes, 40);
    assert_eq!(header.entry_count, 6);
    assert_eq!(header.write_index, 5);
    assert_eq!(header.dtype, 1);
    assert_eq!(header.last_entry_seq, 77);
    words.magic = 0;
    assert!(decode_header(&words).unwrap().is_none());
    words.magic = MAGIC_VERSION + 1;
    assert_eq!(
        decode_header(&words).unwrap_err().message(),
        "ZeroChannel layout version mismatch: segment is v2, this build speaks v1"
    );
    words.magic = 1;
    assert_eq!(
        decode_header(&words).unwrap_err().message(),
        "shared memory segment is not a ZeroChannel ring"
    );
}

#[test]
fn elements_survive_the_trip_through_bytes() {
    let ints = [0i64, 1, -1, i64::MAX, i64::MIN];
    let bytes = encode_all(&ints);
    assert_eq!(bytes.len(), 40);
    assert_eq!(&bytes[16..24], &[255u8; 8]);
    assert_eq!(decode_all::<i64>(&bytes), ints);

    let floats = [F64Bits(1.5f64.to_bits()), F64Bits((-2.25f64).to_bits())];
    let bytes = encode_all(&floats);
    assert_eq!(&bytes[0..8], &1.5f64.to_le_bytes());
    assert_eq!(decode_all::<F64Bits>(&bytes), floats);

    assert_eq!(encode_all(&[3u8, 4]), vec![3, 4]);
    assert_eq!(decode_all::<u8>(&[3, 4]), vec![3, 4]);
    assert_eq!((u8::zero(), i64::zero(), F64Bits::zero()), (0, 0, F64Bits(0)));
    assert_eq!((u8::size(), i64::size(), F64Bits::size()), (1, 8, 8));
    assert_eq!((u8::dtype(), i64::dtype()), (Dtype::U8, Dtype::I64));
    assert_eq!(F64Bits::dtype(), Dtype::F64);
}

#[test]
fn partial_elements_are_rejected() {
    assert!(check_elements(16, 8).is_ok());
    assert_eq!(
        check_elements(12, 8).unwrap_err().message(),
        "payload of 12 bytes is not a whole number of 8-byte elements"
    );
    assert_eq!(
        check_elements(12, 0).unwrap_err().message(),
        "payload of 12 bytes is not a whole number of 0-byte elements"
    );
}

#[test]
fn writes_and_reads_check_their_lengths() {
    let (mut seg, header) = ring(2);
    let mut writer = RawWriter::attach(&seg, &header);
    let mut reader = RawReader::attach(&header);
    assert_eq!((writer.payload_bytes(), writer.entry_count()), (8, 2));
    assert_eq!((reader.payload_bytes(), reader.entry_count()), (8, 2));
    assert_eq!(
        writer.write(&mut seg, &[1, 2, 3]).unwrap_err().message(),
        "expected 8 payload bytes, got 3"
    );
    let mut dst = [7u8; 16];
    assert_eq!(
        reader.read_into(&seg, &mut dst, None).unwrap_err().message(),
        "destination holds 16 bytes, expected 8"
    );
    let mut dst = [7i64; 2];
    assert_eq!(
        reader
            .read_into_as(&seg, &mut dst, None)
            .unwrap_err()
            .message(),
        "destination holds 16 bytes, expected 8"
    );
    assert_eq!(dst, [7, 7]);
}

#[test]
fn a_write_changes_one_slot_the_index_and_the_watermark() {
    let (mut seg, header) = ring(2);
    let mut writer = RawWriter::attach(&seg, &header);
    writer.write(&mut seg, &[1, 2, 3, 4, 5, 6, 7, 8]).unwrap();
    assert_eq!(words(&seg, 2), vec![1, 0]);
    assert_eq!(
        seg.bytes_at(payload_offset(8, 0), 8),
        &[1, 2, 3, 4, 5, 6, 7, 8]
    );
    assert_eq!(seg.load(OFF_WRITE_INDEX), 1);
    assert_eq!(seg.load(OFF_LAST_ENTRY_SEQ), 1);
    writer.write(&mut seg, &[9; 8]).unwrap();
    assert_eq!(seg.load(OFF_WRITE_INDEX), 0);
    assert_eq!(words(&seg, 2), vec![1, 2]);
}

#[test]
fn a_busy_ring_says_how_many_slots_are_held() {
    let (mut seg, header) = ring(3);
    let mut writer = RawWriter::attach(&seg, &header);
    for i in 0..3 {
        store_seq(&mut seg, 8, i, -(i as i64 + 1));
    }
    let e = writer.write(&mut seg, &[0; 8]).unwrap_err();
    assert!(matches!(e, ZeroChannelError::Busy(_)));
    assert_eq!(e.message(), "all 3 ring slots are held by a reader");
    assert_eq!(words(&seg, 3), vec![-1, -2, -3]);
}

#[test]
fn acquire_and_release_restore_the_slot() {
    let (mut seg, header) = ring(2);
    let mut writer = RawWriter::attach(&seg, &header);
    let mut reader = RawReader::attach(&header);
    writer.write(&mut seg, &[5; 8]).unwrap();
    let before = seg.bytes_at(0, seg.len()).to_vec();
    let handle = reader.try_acquire(&mut seg, None).unwrap().unwrap();
    assert_eq!(words(&seg, 2), vec![-1, 0]);
    assert_eq!(handle.as_bytes(&seg), &[5; 8]);
    assert_eq!((handle.offset(), handle.len()), (80, 8));
    assert_eq!(
        handle.as_slice::<i64>(&seg).unwrap(),
        vec![0x0505_0505_0505_0505]
    );
    reader.release(&mut seg, handle);
    assert_eq!(seg.bytes_at(0, seg.len()), &before[..]);
}

#[test]
fn a_write_handle_exposes_its_slot() {
    let (mut seg, header) = ring(2);
    let mut writer = RawWriter::attach(&seg, &header);
    writer.write(&mut seg, &[5; 8]).unwrap();
    writer.write(&mut seg, &[6; 8]).unwrap();
    let mut handle = writer.try_acquire(&mut seg).unwrap();
    assert_eq!((handle.index(), handle.offset(), handle.len()), (0, 80, 8));
    // A freshly acquired slot still holds the bytes of the lap before.
    let bytes = handle.as_bytes_mut(&mut seg);
    assert_eq!(bytes, &[5; 8]);
    bytes[0] = 42;
    assert_eq!(words(&seg, 2), vec![0, 2]);
    assert_eq!(writer.commit(&mut seg, handle), 3);
    assert_eq!(seg.bytes_at(80, 8), &[42, 5, 5, 5, 5, 5, 5, 5]);
}

#[test]
fn recovery_takes_the_newest_of_ring_and_header() {
    // In order: the header is authoritative.
    assert_eq!(recover_state(&[3, 1, 2], 1, 1, 3), (3, 1));
    // The header lags behind a committed slot, and still points at it.
    assert_eq!(recover_state(&[4, 2, 3], 4, 0, 3), (4, 1));
    // The write index was persisted, the watermark was not.
    assert_eq!(recover_state(&[4, 2, 3], 2, 1, 3), (4, 1));
    // A slot held by a surviving reader still counts.
    assert_eq!(recover_state(&[-9, 2, 3], 3, 2, 3), (9, 2));
    assert_eq!(recover_state(&[i64::MIN], i64::MIN, 0, 0), (1 << 63, 0));
    // An empty ring, an index out of range.
    assert_eq!(recover_state(&[0, 0, 0], 0, 7, 0), (0, 1));
}

#[test]
fn a_crashed_writer_is_resumed_from() {
    let (mut seg, header) = ring(3);
    let mut writer = RawWriter::attach(&seg, &header);
    writer.write(&mut seg, &[1; 8]).unwrap();
    // Dies between committing the slot and persisting the header.
    store_seq(&mut seg, 8, 1, 2);
    let header = read_header(&seg).unwrap().unwrap();
    let mut successor = RawWriter::attach(&seg, &header);
    assert_eq!(successor.last_entry_seq(), 2);
    successor.write(&mut seg, &[3; 8]).unwrap();
    assert_eq!(words(&seg, 3), vec![1, 2, 3]);
}

#[test]
fn a_claim_goes_round_the_ring_once() {
    let (seg, header) = ring(3);
    let writer = RawWriter::attach(&seg, &header);
    let mut claim = writer.begin_claim();
    assert_eq!(claim.probe(), Some(0));
    assert!(!claim.observe(-1));
    assert_eq!(claim.probe(), Some(1));
    assert!(!claim.observe(-4));
    assert_eq!(claim.probe(), Some(2));
    assert!(claim.observe(7));
    assert_eq!(claim.probe(), Some(2));
    assert!(!claim.observe(-7));
    assert_eq!(claim.probe(), None);
    assert_eq!(
        claim.busy().message(),
        "all 3 ring slots are held by a reader"
    );
}

#[test]
fn a_publication_lists_its_stores() {
    let (seg, header) = ring(3);
    let mut writer = RawWriter::attach(&seg, &header);
    let plan = writer.begin_publish(2);
    assert_eq!((plan.index, plan.raw), (2, 1));
    assert_eq!((plan.write_index, plan.entry_seq), (0, 1));
    assert_eq!(writer.last_entry_seq(), 1);
}

/// Answer the next action of a read and check that it was the expected one.
fn expect_slot(op: &mut zerochannel::reader::ReadOp, index: usize, raw: i64) {
    match op.action() {
        ReadAction::LoadSlot(i) => assert_eq!(i, index),
        other => panic!("unexpected {other:?}"),
    }
    op.advance(raw as u64);
}

#[test]
fn an_up_to_date_reader_loads_one_word() {
    let (_seg, header) = ring(4);
    let reader = RawReader::attach(&header);
    let mut op = reader.begin_read(Some(9), false);
    assert!(matches!(op.action(), ReadAction::LoadWatermark));
    op.advance(9);
    assert!(matches!(op.action(), ReadAction::Finish(None)));
    // Further answers change nothing.
    op.advance(10);
    assert!(matches!(op.action(), ReadAction::Finish(None)));
}

#[test]
fn a_torn_entry_is_read_again() {
    let (_seg, header) = ring(3);
    let reader = RawReader::attach(&header);
    let mut op = reader.begin_read(Some(4), false);
    op.advance(6);
    // The slot after the one last read carries the very next entry.
    expect_slot(&mut op, 1, 5);
    assert!(matches!(op.action(), ReadAction::CopyThenLoad(1)));
    // The writer recycled it during the copy.
    op.advance(0);
    expect_slot(&mut op, 1, 8);
    expect_slot(&mut op, 0, 7);
    expect_slot(&mut op, 1, 8);
    expect_slot(&mut op, 2, 6);
    assert!(matches!(op.action(), ReadAction::CopyThenLoad(2)));
    op.advance(6);
    match op.action() {
        ReadAction::Finish(Some(entry)) => {
            assert_eq!(
                entry,
                Entry {
                    index: 2,
                    entry_seq: 6
                }
            );
        }
        other => panic!("unexpected {other:?}"),
    }
}

#[test]
fn a_read_gives_up_rather_than_spin() {
    let (_seg, header) = ring(2);
    let reader = RawReader::attach(&header);
    let mut op = reader.begin_read(None, false);
    op.advance(1);
    for attempt in 0..4 {
        expect_slot(&mut op, 1, 1);
        assert!(
            matches!(op.action(), ReadAction::CopyThenLoad(1)),
            "attempt {attempt}"
        );
        op.advance(0);
    }
    assert!(matches!(op.action(), ReadAction::Finish(None)));
}

#[test]
fn a_torn_copy_never_reaches_the_caller() {
    let (_seg, header) = ring(2);
    let mut reader = RawReader::attach(&header);
    let mut op = reader.begin_read(None, false);
    op.advance(1);
    let mut copy = [0u8; 8];
    while let ReadAction::LoadSlot(_) = op.action() {
        op.advance(1);
        if let ReadAction::CopyThenLoad(_) = op.action() {
            // A writer takes the slot halfway through the copy.
            copy[..4].fill(7);
            op.advance(0);
        }
    }
    let ReadAction::Finish(found) = op.action() else {
        panic!("unexpected {:?}", op.action());
    };
    let mut dst = [1u8; 8];
    assert_eq!(reader.deliver(found, &copy, &mut dst), None);
    assert_eq!(dst, [1; 8]);
    assert_eq!(reader.last_entry_seq(), 0);

    // A whole copy does, and moves the reader on.
    let entry = Entry {
        index: 1,
        entry_seq: 5,
    };
    assert_eq!(reader.deliver(Some(entry), &[9; 8], &mut dst), Some(5));
    assert_eq!(dst, [9; 8]);
    assert_eq!(reader.last_entry_seq(), 5);
}

#[test]
fn a_named_reader_hands_over_only_what_it_found() {
    let (_seg, header) = ring(2);
    let (mut reader, _) =
        zerochannel::RawReader::new("/c", None, None, Dtype::I64, true, 1).unwrap();
    let mut dst = [1u8; 8];
    // Unconnected, there is nothing to find.
    assert_eq!(reader.deliver(None, &[7; 8], &mut dst), None);
    reader.bind(&header);
    assert_eq!(reader.deliver(None, &[7; 8], &mut dst), None);
    assert_eq!(dst, [1; 8]);
    assert_eq!(reader.last_entry_seq(), 0);
    let entry = Entry {
        index: 1,
        entry_seq: 5,
    };
    assert_eq!(reader.deliver(Some(entry), &[9; 8], &mut dst), Some(5));
    assert_eq!(dst, [9; 8]);
    assert_eq!(reader.last_entry_seq(), 5);
}

#[test]
fn pinning_swaps_the_sign() {
    let (_seg, header) = ring(2);
    let reader = RawReader::attach(&header);
    let mut op = reader.begin_read(Some(2), true);
    op.advance(3);
    expect_slot(&mut op, 1, -3);
    expect_slot(&mut op, 0, 3);
    expect_slot(&mut op, 1, 2);
    match op.action() {
        ReadAction::Swap {
            index,
            expected,
            desired,
        } => assert_eq!((index, expected, desired), (0, 3, -3)),
        other => panic!("unexpected {other:?}"),
    }
    op.advance(3);
    assert!(matches!(op.action(), ReadAction::Finish(Some(_))));
}

#[test]
fn the_oldest_newer_entry_wins_wherever_it_sits() {
    let (mut seg, header) = ring(4);
    for (i, w) in [9i64, -7, 8, 0].iter().enumerate() {
        store_seq(&mut seg, 8, i, *w);
    }
    seg.store(OFF_LAST_ENTRY_SEQ, 9);
    let mut reader = RawReader::attach(&header);
    // Held entry 7 does not count.
    let (seq, _) = reader.read(&seg, Some(5)).unwrap().unwrap();
    assert_eq!(seq, 8);
    let (seq, _) = reader.read(&seg, None).unwrap().unwrap();
    assert_eq!(seq, 9);
    assert_eq!(reader.last_entry_seq(), 9);
    assert!(reader.read(&seg, None).unwrap().is_none());
    assert!(reader.read(&seg, Some(u64::MAX)).unwrap().is_none());
    assert_eq!(reader.writer_entry_seq(&seg), 9);
}

#[test]
fn a_promise_without_an_entry_reads_as_nothing_new() {
    let (mut seg, header) = ring(2);
    seg.store(OFF_LAST_ENTRY_SEQ, 3);
    let mut reader = RawReader::attach(&header);
    let mut dst = [1u8; 8];
    assert_eq!(reader.read_into(&seg, &mut dst, None).unwrap(), None);
    assert_eq!(dst, [1; 8]);
    assert!(reader.try_acquire(&mut seg, None).unwrap().is_none());
    assert!(reader.read_as::<i64>(&seg, None).unwrap().is_none());
}

#[test]
fn loaded_words_are_those_of_the_segment() {
    let (mut seg, _) = ring(2);
    seg.store(OFF_MAGIC, 3);
    seg.store(OFF_WRITE_INDEX, 1);
    let words = load_header(&seg);
    assert_eq!((words.magic, words.write_index), (3, 1));
    assert_eq!((words.payload_bytes, words.entry_count), (8, 2));
    assert_eq!((words.dtype, words.last_entry_seq), (1, 0));
    assert_eq!(HEADER_BYTES, 72);
}
