//! Leases on ring slots, and the errors that cross into a foreign runtime.

use zerochannel::export::{
    check_out, fill_view, outstanding_exports, plan_read, to_exception, ExceptionKind, Format,
    ReadLease, ReadPlan, WriteLease, FORMAT, ND, STRIDES, WRITABLE,
};
use zerochannel::header::{init_header, read_header};
use zerochannel::metadata::required_bytes;
use zerochannel::reader::RawReader;
use zerochannel::segment::Segment;
use zerochannel::writer::RawWriter;
use zerochannel::{Dtype, ZeroChannelError};

fn ring() -> (Segment, RawWriter, RawReader) {
    let mut seg = Segment::zeroed(required_bytes(16, 2));
    init_header(&mut seg, 16, 2, Dtype::F64, 1);
    let header = read_header(&seg).unwrap().unwrap();
    let writer = RawWriter::attach(&seg, &header);
    let reader = RawReader::attach(&header);
    (seg, writer, reader)
}

#[test]
fn failures_map_onto_exceptions() {
    let cases = [
        (
            ZeroChannelError::InvalidArgument("a".to_string()),
            ExceptionKind::ValueError,
        ),
        (
            ZeroChannelError::OsError("b".to_string()),
            ExceptionKind::OsError,
        ),
        (
            ZeroChannelError::Busy("c".to_string()),
            ExceptionKind::BlockingIoError,
        ),
        (
            ZeroChannelError::RoleConflict("d".to_string()),
            ExceptionKind::ChannelRoleConflict,
        ),
    ];
    for (e, kind) in cases {
        let text = e.message();
        let x = to_exception(e);
        assert_eq!(x.kind, kind);
        assert_eq!(x.text, text);
    }
}

#[test]
fn destination_arrays_are_validated() {
    assert!(check_out(true, 7, 7).is_ok());
    let x = check_out(false, 7, 7).unwrap_err();
    assert_eq!(x.kind, ExceptionKind::ValueError);
    assert_eq!(x.text, "out must be a contiguous array");
    let x = check_out(true, 6, 7).unwrap_err();
    assert_eq!(x.kind, ExceptionKind::ValueError);
    assert_eq!(x.text, "out must hold exactly 7 elements, got 6");
}

#[test]
fn a_read_is_planned_before_it_is_made() {
    // Unconnected: nothing is read, whatever array was supplied.
    let plan = plan_read(false, 0, Format::Byte, Some((false, 3))).unwrap();
    assert_eq!(plan, ReadPlan::Nothing);
    let plan = plan_read(true, 56, Format::Double, None).unwrap();
    assert_eq!(plan, ReadPlan::Fresh(7));
    let plan = plan_read(true, 56, Format::Double, Some((true, 7))).unwrap();
    assert_eq!(plan, ReadPlan::Supplied(7));
    let plan = plan_read(true, 56, Format::Byte, Some((true, 56))).unwrap();
    assert_eq!(plan, ReadPlan::Supplied(56));
    let x = plan_read(true, 56, Format::Double, Some((true, 56))).unwrap_err();
    assert_eq!(x.kind, ExceptionKind::ValueError);
    assert_eq!(x.text, "out must hold exactly 7 elements, got 56");
    let x = plan_read(true, 56, Format::Byte, Some((false, 56))).unwrap_err();
    assert_eq!(x.text, "out must be a contiguous array");
}

#[test]
fn a_view_reports_what_is_asked_for() {
    let view = fill_view(false, 0, 80, 16, Format::Double, false).unwrap();
    assert_eq!((view.offset, view.len), (80, 16));
    assert_eq!((view.itemsize, view.shape, view.stride), (8, 2, 8));
    assert!(!view.with_format && !view.with_shape && !view.with_strides);
    let view = fill_view(false, ND | FORMAT, 80, 16, Format::Byte, true).unwrap();
    assert_eq!((view.itemsize, view.shape, view.stride), (1, 16, 1));
    assert!(view.with_format && view.with_shape && !view.with_strides && view.readonly);
    let view = fill_view(false, STRIDES | WRITABLE, 80, 16, Format::Byte, false).unwrap();
    assert!(!view.with_format && view.with_shape && view.with_strides && !view.readonly);
    assert_eq!((Format::Byte.code(), Format::Double.code()), ('B', 'd'));

    let x = fill_view(true, 0, 80, 16, Format::Byte, true).unwrap_err();
    assert_eq!(x.kind, ExceptionKind::BufferError);
    assert_eq!(x.text, "buffer view is null");
    let x = fill_view(false, WRITABLE, 80, 16, Format::Byte, true).unwrap_err();
    assert_eq!(x.text, "a read handle exports a read-only buffer");
}

#[test]
fn outstanding_exports_are_counted_in_words() {
    let x = outstanding_exports("release", 1);
    assert_eq!(x.kind, ExceptionKind::BufferError);
    assert_eq!(
        x.text,
        "cannot release this handle: 1 buffer export is still outstanding. \
         Every memoryview or numpy array derived from `payload` must be dropped \
         first (`del arr`), since the ring slot is recycled as soon as the handle \
         is finished. Copy the data out (`bytes(...)`, `numpy.array(...)`) if it \
         needs to outlive the handle."
    );
    let x = outstanding_exports("commit", 12);
    assert!(x
        .text
        .starts_with("cannot commit this handle: 12 buffer exports are still"));
}

#[test]
fn a_read_lease_holds_its_slot_while_a_view_is_alive() {
    let (mut seg, mut writer, mut reader) = ring();
    writer.write(&mut seg, &[3; 16]).unwrap();
    let handle = reader.try_acquire(&mut seg, None).unwrap().unwrap();
    let mut lease = ReadLease::new(handle, Format::Double);
    assert_eq!(lease.entry_seq(), 1);
    assert_eq!(lease.format(), Format::Double);
    assert!(!lease.released());

    let view = lease.export(false, ND).unwrap();
    assert_eq!((view.offset, view.len, view.shape), (80, 16, 2));
    lease.export(false, 0).unwrap();
    assert_eq!(lease.exports(), 2);
    let x = lease.release().unwrap_err();
    assert!(x
        .text
        .starts_with("cannot release this handle: 2 buffer exports are"));
    assert!(lease.check_release().is_err());
    // A refused export does not count.
    assert!(lease.export(false, WRITABLE).is_err());
    assert_eq!(lease.exports(), 2);

    lease.unexport();
    lease.unexport();
    lease.unexport();
    assert_eq!(lease.exports(), 0);
    assert!(lease.check_release().unwrap());
    let handle = lease.release().unwrap().unwrap();
    reader.release(&mut seg, handle);
    assert!(lease.released());
    // Releasing again does nothing.
    assert!(lease.release().unwrap().is_none());
    assert!(!lease.check_release().unwrap());
    let x = lease.export(false, 0).unwrap_err();
    assert_eq!(x.kind, ExceptionKind::BufferError);
    assert_eq!(x.text, "this handle has already been released");
}

#[test]
fn a_write_lease_commits_once() {
    let (mut seg, mut writer, _reader) = ring();
    let handle = writer.try_acquire(&mut seg).unwrap();
    let mut lease = WriteLease::new(handle, Format::Byte);
    assert!(lease.commits_on_exit(false));
    assert!(!lease.commits_on_exit(true));
    let view = lease.export(false, WRITABLE).unwrap();
    assert!(!view.readonly);
    let x = lease.commit().unwrap_err();
    assert!(x
        .text
        .starts_with("cannot commit this handle: 1 buffer export is"));
    assert!(!lease.committed());
    lease.unexport();
    assert!(lease.check_commit().is_ok());
    let handle = lease.commit().unwrap();
    assert_eq!(writer.commit(&mut seg, handle), 1);
    assert!(lease.committed());
    assert!(!lease.commits_on_exit(false));
    let x = lease.commit().unwrap_err();
    assert_eq!(x.kind, ExceptionKind::ValueError);
    assert_eq!(x.text, "handle has already been committed");
    let x = lease.export(false, 0).unwrap_err();
    assert_eq!(x.text, "this handle has already been committed");
    assert_eq!(lease.exports(), 0);
    assert_eq!(lease.format(), Format::Byte);
}
