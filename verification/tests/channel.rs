//! Named channels end to end: segment creation and ownership, the exclusive
//! writer and zero-copy reader roles, deferred connection, and the ring protocol
//! as seen through the typed endpoints.
//!
//! The operating system is a table of named segments in memory. Everything that
//! a participant would ask of the real one is asked of it.

use std::cell::RefCell;
use std::collections::HashMap;
use std::rc::Rc;

use zerochannel::header::{
    init_header, load_header, read_header, segment_owner, writer_owner, zc_reader_owner,
};
use zerochannel::lifecycle::{Connect, ConnectAction, ConnectEvent};
use zerochannel::metadata::{
    required_bytes, Header, MAGIC, OFF_MAGIC, OFF_SEGMENT_OWNER, OFF_WRITER_OWNER, VERSION,
};
use zerochannel::owner::{process_alive, ProbeOutcome};
use zerochannel::ring::check_mapped;
use zerochannel::segment::Segment;
use zerochannel::{Dtype, Element, F64Bits, ReadHandle, WriteHandle, ZeroChannelError};

/// The process running the tests.
const ME: u64 = 4242;
/// Not a valid PID on any supported platform.
const DEAD: u64 = u32::MAX as u64;

type Shared = Rc<RefCell<Segment>>;

/// Named segments, as an operating system keeps them.
struct Os {
    names: RefCell<HashMap<String, Shared>>,
}

impl Os {
    fn boot() -> Rc<Os> {
        Rc::new(Os {
            names: RefCell::new(HashMap::new()),
        })
    }

    fn try_open(&self, name: &str) -> Option<Shared> {
        self.names.borrow().get(name).cloned()
    }

    /// Create a segment, or `None` when the name is taken.
    fn create(&self, name: &str, size: usize) -> Option<Shared> {
        if self.names.borrow().contains_key(name) {
            return None;
        }
        let seg = Rc::new(RefCell::new(Segment::zeroed(size)));
        self.names
            .borrow_mut()
            .insert(name.to_string(), seg.clone());
        Some(seg)
    }

    fn unlink(&self, name: &str) -> Result<(), ZeroChannelError> {
        self.names.borrow_mut().remove(name);
        Ok(())
    }

    fn alive(&self, pid: u32) -> bool {
        // Like a real kernel, it also delivers to a number that turns negative
        // as a PID: that reaches processes, if not the one meant.
        let outcome = if pid == 0 {
            ProbeOutcome::NotProbed
        } else if pid as u64 == ME || pid > i32::MAX as u32 {
            ProbeOutcome::Delivered
        } else {
            ProbeOutcome::Failed
        };
        process_alive(pid, outcome)
    }
}

/// A mapped segment, which unlinks its name on the way out if it is owned.
struct Mapping {
    os: Rc<Os>,
    name: String,
    seg: Shared,
    owner: bool,
}

impl Drop for Mapping {
    fn drop(&mut self) {
        if self.owner {
            self.os.unlink(&self.name).unwrap();
        }
    }
}

/// Carry out what connecting asks for until it is over.
fn drive(
    os: &Rc<Os>,
    name: &str,
    mut connect: Connect,
) -> Result<Option<(Mapping, Header)>, ZeroChannelError> {
    let mut mapping: Option<Mapping> = None;
    let map = |seg: Shared| Mapping {
        os: os.clone(),
        name: name.to_string(),
        seg,
        owner: false,
    };
    loop {
        let event = match connect.action() {
            ConnectAction::Create { size } => match os.create(name, size) {
                Some(seg) => {
                    mapping = Some(map(seg));
                    ConnectEvent::Created
                }
                None => ConnectEvent::NameTaken,
            },
            ConnectAction::Open => match os.try_open(name) {
                Some(seg) => {
                    let len = seg.borrow().len();
                    let words = load_header(&seg.borrow());
                    mapping = Some(map(seg));
                    ConnectEvent::Opened { len, words }
                }
                None => ConnectEvent::Absent,
            },
            ConnectAction::Stamp {
                payload_bytes,
                entry_count,
                dtype,
                owner_pid,
            } => {
                let seg = mapping.as_ref().unwrap().seg.clone();
                init_header(
                    &mut seg.borrow_mut(),
                    payload_bytes,
                    entry_count,
                    dtype,
                    owner_pid,
                );
                let words = load_header(&seg.borrow());
                ConnectEvent::Stamped(words)
            }
            ConnectAction::Swap {
                cell,
                expected,
                desired,
            } => {
                let seg = mapping.as_ref().unwrap().seg.clone();
                let found = match seg.borrow_mut().compare_exchange(cell, expected, desired) {
                    Ok(found) => found,
                    Err(found) => found,
                };
                ConnectEvent::Swapped(found)
            }
            ConnectAction::Probe(pid) => ConnectEvent::Probed(os.alive(pid)),
            ConnectAction::Finish => break,
        };
        connect.advance(event);
        if let Some(mapping) = mapping.as_mut() {
            mapping.owner = connect.owns();
            if let Some(header) = connect.accepted() {
                check_mapped(&header, mapping.seg.borrow().len())?;
            }
        }
    }
    Ok(connect
        .into_outcome()?
        .map(|header| (mapping.unwrap(), header)))
}

/// Values as the tests write them, and the elements that stand for them.
trait Value: Copy {
    type Stored: Element;
    fn store(self) -> Self::Stored;
    fn fetch(stored: Self::Stored) -> Self;
}

impl Value for u8 {
    type Stored = u8;
    fn store(self) -> u8 {
        self
    }
    fn fetch(stored: u8) -> u8 {
        stored
    }
}

impl Value for i64 {
    type Stored = i64;
    fn store(self) -> i64 {
        self
    }
    fn fetch(stored: i64) -> i64 {
        stored
    }
}

impl Value for f64 {
    type Stored = F64Bits;
    fn store(self) -> F64Bits {
        F64Bits(self.to_bits())
    }
    fn fetch(stored: F64Bits) -> f64 {
        f64::from_bits(stored.0)
    }
}

/// A segment that stands in for the one of an unconnected endpoint.
fn nowhere() -> Segment {
    Segment::zeroed(0)
}

struct Writer<V: Value> {
    os: Rc<Os>,
    name: String,
    end: Option<zerochannel::Writer<V::Stored>>,
    mapping: Option<Mapping>,
}

impl<V: Value> Writer<V> {
    fn new(
        os: &Rc<Os>,
        name: &str,
        entry_length: Option<usize>,
        entry_count: Option<usize>,
        delayed_connect: bool,
    ) -> Result<Self, ZeroChannelError> {
        let (end, connect) = zerochannel::Writer::<V::Stored>::new(
            name,
            entry_length,
            entry_count,
            delayed_connect,
            ME,
        )?;
        let mut this = Writer {
            os: os.clone(),
            name: name.to_string(),
            end: Some(end),
            mapping: None,
        };
        this.run(connect)?;
        Ok(this)
    }

    fn run(&mut self, connect: Connect) -> Result<(), ZeroChannelError> {
        if let Some((mapping, header)) = drive(&self.os, &self.name, connect)? {
            self.end
                .as_mut()
                .unwrap()
                .raw_mut()
                .attach(&mapping.seg.borrow(), &header);
            self.mapping = Some(mapping);
        }
        Ok(())
    }

    fn connect(&mut self) -> Result<(), ZeroChannelError> {
        match self.end.as_ref().unwrap().raw_ref().ensure_connected(ME) {
            Some(connect) => self.run(connect),
            None => Ok(()),
        }
    }

    fn last_entry_seq(&self) -> u64 {
        self.end.as_ref().unwrap().last_entry_seq()
    }

    fn entry_length(&self) -> usize {
        self.end.as_ref().unwrap().entry_length()
    }

    fn write(&mut self, data: &[V]) -> Result<(), ZeroChannelError> {
        self.connect()?;
        let stored: Vec<V::Stored> = data.iter().map(|v| v.store()).collect();
        let end = self.end.as_mut().unwrap();
        match &self.mapping {
            Some(mapping) => end.write(&mut mapping.seg.borrow_mut(), &stored),
            None => end.write(&mut nowhere(), &stored),
        }
    }

    fn try_acquire(&mut self) -> Result<Option<WriteHandle>, ZeroChannelError> {
        self.connect()?;
        let end = self.end.as_mut().unwrap();
        match &self.mapping {
            Some(mapping) => end.try_acquire(&mut mapping.seg.borrow_mut()),
            None => end.try_acquire(&mut nowhere()),
        }
    }

    fn fill(&mut self, handle: &mut WriteHandle, data: &[V]) -> Result<(), ZeroChannelError> {
        let stored: Vec<V::Stored> = data.iter().map(|v| v.store()).collect();
        let mapping = self.mapping.as_ref().unwrap();
        let mut seg = mapping.seg.borrow_mut();
        handle.as_slice_mut(&mut seg, &stored)
    }

    fn commit(&mut self, handle: WriteHandle) -> u64 {
        let mapping = self.mapping.as_ref().unwrap();
        let mut seg = mapping.seg.borrow_mut();
        self.end.as_mut().unwrap().commit(&mut seg, handle)
    }
}

impl<V: Value> Drop for Writer<V> {
    fn drop(&mut self) {
        if let (Some(end), Some(mapping)) = (self.end.take(), &self.mapping) {
            end.into_raw().close(&mut mapping.seg.borrow_mut(), ME);
        }
    }
}

struct Reader<V: Value> {
    os: Rc<Os>,
    name: String,
    end: Option<zerochannel::Reader<V::Stored>>,
    mapping: Option<Mapping>,
}

impl<V: Value> Reader<V> {
    fn new(
        os: &Rc<Os>,
        name: &str,
        entry_length: Option<usize>,
        entry_count: Option<usize>,
        delayed_connect: bool,
    ) -> Result<Self, ZeroChannelError> {
        let (end, connect) = zerochannel::Reader::<V::Stored>::new(
            name,
            entry_length,
            entry_count,
            delayed_connect,
            ME,
        )?;
        Self::start(os, name, end, connect)
    }

    fn new_zero_copy(
        os: &Rc<Os>,
        name: &str,
        entry_length: Option<usize>,
        entry_count: Option<usize>,
        delayed_connect: bool,
    ) -> Result<Self, ZeroChannelError> {
        let (end, connect) = zerochannel::Reader::<V::Stored>::new_zero_copy(
            name,
            entry_length,
            entry_count,
            delayed_connect,
            ME,
        )?;
        Self::start(os, name, end, connect)
    }

    fn start(
        os: &Rc<Os>,
        name: &str,
        end: zerochannel::Reader<V::Stored>,
        connect: Connect,
    ) -> Result<Self, ZeroChannelError> {
        let mut this = Reader {
            os: os.clone(),
            name: name.to_string(),
            end: Some(end),
            mapping: None,
        };
        this.run(connect)?;
        Ok(this)
    }

    fn run(&mut self, connect: Connect) -> Result<(), ZeroChannelError> {
        if let Some((mapping, header)) = drive(&self.os, &self.name, connect)? {
            self.end.as_mut().unwrap().raw_mut().bind(&header);
            self.mapping = Some(mapping);
        }
        Ok(())
    }

    fn connect(&mut self) -> Result<(), ZeroChannelError> {
        match self.end.as_ref().unwrap().raw_ref().connect(ME) {
            Some(connect) => self.run(connect),
            None => Ok(()),
        }
    }

    fn seg(&self) -> Shared {
        match &self.mapping {
            Some(mapping) => mapping.seg.clone(),
            None => Rc::new(RefCell::new(nowhere())),
        }
    }

    fn last_entry_seq(&self) -> u64 {
        self.end.as_ref().unwrap().last_entry_seq()
    }

    fn entry_length(&self) -> usize {
        self.end.as_ref().unwrap().entry_length()
    }

    fn writer_entry_seq(&self) -> u64 {
        let seg = self.seg();
        let seq = self.end.as_ref().unwrap().writer_entry_seq(&seg.borrow());
        seq
    }

    fn read(&mut self, from: Option<u64>) -> Result<Option<(u64, Vec<V>)>, ZeroChannelError> {
        self.connect()?;
        let seg = self.seg();
        let entry = self.end.as_mut().unwrap().read(&seg.borrow(), from)?;
        Ok(entry.map(|(seq, data)| (seq, data.into_iter().map(V::fetch).collect())))
    }

    fn read_into(
        &mut self,
        dst: &mut [V],
        from: Option<u64>,
    ) -> Result<Option<u64>, ZeroChannelError> {
        self.connect()?;
        let seg = self.seg();
        let mut stored: Vec<V::Stored> = dst.iter().map(|v| v.store()).collect();
        let end = self.end.as_mut().unwrap();
        let seq = end.read_into(&seg.borrow(), &mut stored, from)?;
        for (d, s) in dst.iter_mut().zip(stored) {
            *d = V::fetch(s);
        }
        Ok(seq)
    }

    fn try_acquire(&mut self, from: Option<u64>) -> Result<Option<ReadHandle>, ZeroChannelError> {
        self.connect()?;
        let seg = self.seg();
        let handle = self
            .end
            .as_mut()
            .unwrap()
            .try_acquire(&mut seg.borrow_mut(), from);
        handle
    }

    fn look(&self, handle: &ReadHandle) -> Vec<V> {
        let seg = self.seg();
        let stored: Vec<V::Stored> = handle.as_slice(&seg.borrow()).unwrap();
        stored.into_iter().map(V::fetch).collect()
    }

    fn release(&mut self, handle: ReadHandle) {
        let seg = self.seg();
        self.end
            .as_mut()
            .unwrap()
            .release(&mut seg.borrow_mut(), handle);
    }
}

impl<V: Value> Drop for Reader<V> {
    fn drop(&mut self) {
        if let (Some(end), Some(mapping)) = (self.end.take(), &self.mapping) {
            end.into_raw().close(&mut mapping.seg.borrow_mut(), ME);
        }
    }
}

type BytesWriter = Writer<u8>;
type BytesReader = Reader<u8>;
type Float64Writer = Writer<f64>;
type Float64Reader = Reader<f64>;

/// Drain every entry currently available, one scalar read at a time.
fn drain<V: Value>(reader: &mut Reader<V>) -> Vec<(u64, Vec<V>)> {
    let mut entries = Vec::new();
    while let Some(entry) = reader.read(None).unwrap() {
        entries.push(entry);
    }
    entries
}

#[test]
fn round_trip_single() {
    let os = Os::boot();
    let name = "/rt";
    let mut writer = Float64Writer::new(&os, name, Some(4), Some(16), false).unwrap();
    let mut reader = Float64Reader::new(&os, name, None, None, false).unwrap();

    writer.write(&[1.0, 2.0, 3.0, 4.0]).unwrap();

    assert_eq!(
        reader.read(None).unwrap(),
        Some((1, vec![1.0, 2.0, 3.0, 4.0]))
    );
    assert_eq!(reader.read(None).unwrap(), None);
}

#[test]
fn empty_read() {
    let os = Os::boot();
    let name = "/empty";
    let mut writer = Float64Writer::new(&os, name, Some(3), Some(8), false).unwrap();
    let mut reader = Float64Reader::new(&os, name, None, None, false).unwrap();

    assert!(reader.read(None).unwrap().is_none());

    writer.write(&[1.0, 2.0, 3.0]).unwrap();
    assert_eq!(reader.read(None).unwrap(), Some((1, vec![1.0, 2.0, 3.0])));
}

#[test]
fn reads_return_one_entry_at_a_time() {
    let os = Os::boot();
    let name = "/multi";
    let mut writer = Float64Writer::new(&os, name, Some(2), Some(16), false).unwrap();
    let mut reader = Float64Reader::new(&os, name, None, None, false).unwrap();

    for i in 0..5 {
        writer.write(&[i as f64, (i * 10) as f64]).unwrap();
    }

    for i in 0..5u64 {
        assert_eq!(
            reader.read(None).unwrap(),
            Some((i + 1, vec![i as f64, (i * 10) as f64]))
        );
    }
    assert!(reader.read(None).unwrap().is_none());
}

#[test]
fn entry_seq_is_consecutive_and_mirrored_in_the_header() {
    let os = Os::boot();
    let name = "/seq";
    let mut writer = Float64Writer::new(&os, name, Some(1), Some(32), false).unwrap();
    let reader = Float64Reader::new(&os, name, None, None, false).unwrap();

    assert_eq!(writer.last_entry_seq(), 0);
    assert_eq!(reader.writer_entry_seq(), 0);

    for i in 0..20u64 {
        writer.write(&[i as f64]).unwrap();
        assert_eq!(writer.last_entry_seq(), i + 1);
        assert_eq!(reader.writer_entry_seq(), i + 1);
    }
}

#[test]
fn lap_recovery() {
    let os = Os::boot();
    let name = "/lap";
    let total = 8usize;
    let mut writer = Float64Writer::new(&os, name, Some(2), Some(total), false).unwrap();
    let mut reader = Float64Reader::new(&os, name, None, None, false).unwrap();

    // Write one entry, read it so the reader has a bookmark
    writer.write(&[0.0, 0.0]).unwrap();
    assert_eq!(reader.read(None).unwrap(), Some((1, vec![0.0, 0.0])));

    // Overwrite the entire buffer plus extra to force a lap
    for i in 1..=(total + 3) {
        writer.write(&[i as f64, (i * 100) as f64]).unwrap();
    }

    // Only the `total` most recent entries survive; the reader resumes at
    // the oldest one still in the ring rather than at its stale bookmark.
    let entries = drain(&mut reader);
    assert_eq!(entries.len(), total);
    assert_eq!(entries[0].0, 5);
    for i in 1..entries.len() {
        assert_eq!(entries[i].0, entries[i - 1].0 + 1);
        assert!(entries[i].1[0] > entries[i - 1].1[0]);
    }
}

#[test]
fn rollover_ordering() {
    let os = Os::boot();
    let name = "/roll";
    let total = 4usize;
    let mut writer = Float64Writer::new(&os, name, Some(1), Some(total), false).unwrap();
    let mut reader = Float64Reader::new(&os, name, None, None, false).unwrap();

    // Write more entries than entry_count to force rollover
    for i in 0..(total + 2) {
        writer.write(&[(i + 1) as f64]).unwrap();
    }

    let entries = drain(&mut reader);
    assert_eq!(entries.len(), total);

    // Sequence numbers and values are both monotonically increasing.
    for i in 1..entries.len() {
        assert_eq!(entries[i].0, entries[i - 1].0 + 1);
        assert!(
            entries[i].1[0] > entries[i - 1].1[0],
            "entry {} ({}) not > entry {} ({})",
            i,
            entries[i].1[0],
            i - 1,
            entries[i - 1].1[0]
        );
    }
}

#[test]
fn delayed_connect_writer() {
    let os = Os::boot();
    let name = "/delay_w";
    let mut writer = Float64Writer::new(&os, name, None, None, true).unwrap();

    // Write should no-op when deferred
    writer.write(&[1.0]).unwrap();
    assert_eq!(writer.entry_length(), 0);
    assert_eq!(writer.last_entry_seq(), 0);
    assert!(writer.try_acquire().unwrap().is_none());

    // Create via reader
    let mut reader = Float64Reader::new(&os, name, Some(1), Some(8), false).unwrap();

    // Now writer should connect and work
    writer.write(&[42.0]).unwrap();
    assert_eq!(writer.entry_length(), 1);
    assert_eq!(reader.read(None).unwrap(), Some((1, vec![42.0])));
}

#[test]
fn delayed_connect_reader() {
    let os = Os::boot();
    let name = "/delay_r";
    let mut reader = Float64Reader::new(&os, name, None, None, true).unwrap();

    // Read should return nothing when deferred
    assert!(reader.read(None).unwrap().is_none());
    assert_eq!(reader.entry_length(), 0);
    assert_eq!(reader.writer_entry_seq(), 0);

    // Create via writer
    let mut writer = Float64Writer::new(&os, name, Some(2), Some(8), false).unwrap();
    writer.write(&[3.5, 2.75]).unwrap();

    // Reader should now connect and return data
    assert_eq!(reader.read(None).unwrap(), Some((1, vec![3.5, 2.75])));
    assert_eq!(reader.entry_length(), 2);
}

#[test]
fn header_validation_mismatch() {
    let os = Os::boot();
    let name = "/hdr";
    let _writer = Float64Writer::new(&os, name, Some(4), Some(16), false).unwrap();

    // Opening with wrong sizes should fail
    let result = Float64Reader::new(&os, name, Some(3), Some(16), false);
    assert!(result.is_err());

    let result = Float64Reader::new(&os, name, Some(4), Some(8), false);
    assert!(result.is_err());

    // A rejected open leaves the segment alone.
    assert!(os.try_open(name).is_some());
}

#[test]
fn zero_sizes_rejected() {
    let os = Os::boot();
    let result = Float64Writer::new(&os, "bad_zero", Some(0), Some(10), false);
    assert!(result.is_err());

    let result = Float64Writer::new(&os, "bad_zero2", Some(5), Some(0), false);
    assert!(result.is_err());
}

#[test]
fn write_wrong_length() {
    let os = Os::boot();
    let name = "/wlen";
    let mut writer = Float64Writer::new(&os, name, Some(3), Some(8), false).unwrap();

    let result = writer.write(&[1.0, 2.0]);
    assert!(result.is_err());

    let result = writer.write(&[1.0, 2.0, 3.0, 4.0]);
    assert!(result.is_err());
}

#[test]
fn read_delayed_then_write_then_read() {
    let os = Os::boot();
    let name = "/rdwr";
    let mut writer = Float64Writer::new(&os, name, Some(2), Some(16), false).unwrap();
    let mut reader = Float64Reader::new(&os, name, None, None, false).unwrap();

    // Read from empty: should be empty
    assert!(reader.read(None).unwrap().is_none());

    // Write some data
    writer.write(&[10.0, 20.0]).unwrap();
    writer.write(&[30.0, 40.0]).unwrap();

    // Read should get the written data, oldest first
    assert_eq!(reader.read(None).unwrap(), Some((1, vec![10.0, 20.0])));
    assert_eq!(reader.read(None).unwrap(), Some((2, vec![30.0, 40.0])));

    // Subsequent read should be empty (nothing new)
    assert!(reader.read(None).unwrap().is_none());
}

#[test]
fn from_entry_seq_override() {
    let os = Os::boot();
    let name = "/fromseq";
    let mut writer = Float64Writer::new(&os, name, Some(1), Some(16), false).unwrap();
    let mut reader = Float64Reader::new(&os, name, None, None, false).unwrap();

    for i in 0..5 {
        writer.write(&[i as f64]).unwrap();
    }

    // Consume everything.
    assert_eq!(drain(&mut reader).len(), 5);
    assert_eq!(reader.last_entry_seq(), 5);

    // Rewind by supplying an explicit watermark.
    assert_eq!(reader.read(Some(0)).unwrap(), Some((1, vec![0.0])));
    assert_eq!(reader.read(Some(3)).unwrap(), Some((4, vec![3.0])));

    // The override also moves the reader's own bookmark forward.
    assert_eq!(reader.last_entry_seq(), 4);
    assert_eq!(reader.read(None).unwrap(), Some((5, vec![4.0])));
}

#[test]
fn writer_restart_resumes_index() {
    let os = Os::boot();
    let name = "/restart";

    // Reader creates the segment (keeps the name alive across writer drops).
    let mut reader = Float64Reader::new(&os, name, Some(2), Some(8), false).unwrap();

    // Writer 1 attaches and writes 3 entries
    let mut writer1 = Float64Writer::new(&os, name, Some(2), Some(8), false).unwrap();
    writer1.write(&[1.0, 10.0]).unwrap();
    writer1.write(&[2.0, 20.0]).unwrap();
    writer1.write(&[3.0, 30.0]).unwrap();

    // Read the 3 entries written by writer 1
    assert_eq!(drain(&mut reader).len(), 3);

    // Writer 1 is dropped (simulating process exit)
    drop(writer1);

    // Writer 2 opens the same segment (simulating process restart). It
    // recovers `last_entry_seq` and `current_write_index` from the header.
    let mut writer2 = Float64Writer::new(&os, name, Some(2), Some(8), false).unwrap();
    assert_eq!(writer2.last_entry_seq(), 3);

    writer2.write(&[4.0, 40.0]).unwrap();
    writer2.write(&[5.0, 50.0]).unwrap();

    // Reader should see the new entries immediately
    let entries = drain(&mut reader);
    assert_eq!(entries, vec![(4, vec![4.0, 40.0]), (5, vec![5.0, 50.0])]);
}

#[test]
fn read_into_fills_caller_buffer() {
    let os = Os::boot();
    let name = "/readinto";
    let mut writer = Float64Writer::new(&os, name, Some(2), Some(16), false).unwrap();
    let mut reader = Float64Reader::new(&os, name, None, None, false).unwrap();

    writer.write(&[1.0, 2.0]).unwrap();
    writer.write(&[3.0, 4.0]).unwrap();

    let mut buf = [0.0f64; 2];
    assert_eq!(reader.read_into(&mut buf, None).unwrap(), Some(1));
    assert_eq!(buf, [1.0, 2.0]);
    assert_eq!(reader.read_into(&mut buf, None).unwrap(), Some(2));
    assert_eq!(buf, [3.0, 4.0]);

    // Nothing new: the buffer is left untouched.
    assert_eq!(reader.read_into(&mut buf, None).unwrap(), None);
    assert_eq!(buf, [3.0, 4.0]);
}

#[test]
fn read_into_wrong_length_rejected() {
    let os = Os::boot();
    let name = "/readintolen";
    let mut writer = Float64Writer::new(&os, name, Some(2), Some(8), false).unwrap();
    let mut reader = Float64Reader::new(&os, name, None, None, false).unwrap();
    writer.write(&[1.0, 2.0]).unwrap();

    let mut too_small = [0.0f64; 1];
    assert!(reader.read_into(&mut too_small, None).is_err());

    let mut too_big = [0.0f64; 3];
    assert!(reader.read_into(&mut too_big, None).is_err());
}

// Zero-copy handles

#[test]
fn write_handle_commit_round_trip() {
    let os = Os::boot();
    let name = "/whandle";
    let mut writer = Float64Writer::new(&os, name, Some(3), Some(8), false).unwrap();
    let mut reader = Float64Reader::new(&os, name, None, None, false).unwrap();

    let mut handle = writer.try_acquire().unwrap().unwrap();
    writer.fill(&mut handle, &[7.0, 8.0, 9.0]).unwrap();

    // Uncommitted slots carry entry_seq == 0 and stay invisible.
    assert!(reader.read(None).unwrap().is_none());

    assert_eq!(writer.commit(handle), 1);
    assert_eq!(reader.read(None).unwrap(), Some((1, vec![7.0, 8.0, 9.0])));
}

#[test]
fn read_handle_pins_slot_against_the_writer() {
    let os = Os::boot();
    let name = "/rhandle";
    let entry_count = 4usize;
    let mut writer = Float64Writer::new(&os, name, Some(1), Some(entry_count), false).unwrap();
    let mut reader = Float64Reader::new_zero_copy(&os, name, None, None, false).unwrap();

    writer.write(&[1.0]).unwrap();

    let handle = reader.try_acquire(None).unwrap().unwrap();
    assert_eq!(handle.entry_seq(), 1);
    assert_eq!(reader.look(&handle), &[1.0]);

    // Lap the ring several times; the held slot must be skipped.
    for i in 2..=(entry_count as u64 * 3) {
        writer.write(&[i as f64]).unwrap();
    }
    assert_eq!(reader.look(&handle), &[1.0]);

    reader.release(handle);

    // Released slots re-enter the rotation.
    writer.write(&[99.0]).unwrap();
}

#[test]
fn read_handle_advances_the_bookmark() {
    let os = Os::boot();
    let name = "/rhandleseq";
    let mut writer = Float64Writer::new(&os, name, Some(1), Some(8), false).unwrap();
    let mut reader = Float64Reader::new_zero_copy(&os, name, None, None, false).unwrap();

    writer.write(&[10.0]).unwrap();
    writer.write(&[20.0]).unwrap();

    let first = reader.try_acquire(None).unwrap().unwrap();
    assert_eq!(first.entry_seq(), 1);
    reader.release(first);

    assert_eq!(reader.read(None).unwrap(), Some((2, vec![20.0])));
    assert!(reader.try_acquire(None).unwrap().is_none());
}

#[test]
fn writer_is_busy_when_every_slot_is_held() {
    let os = Os::boot();
    let name = "/busy";
    let mut writer = Float64Writer::new(&os, name, Some(1), Some(2), false).unwrap();
    let mut reader = Float64Reader::new_zero_copy(&os, name, None, None, false).unwrap();

    writer.write(&[1.0]).unwrap();
    writer.write(&[2.0]).unwrap();

    let a = reader.try_acquire(None).unwrap().unwrap();
    let b = reader.try_acquire(None).unwrap().unwrap();
    assert_eq!((a.entry_seq(), b.entry_seq()), (1, 2));

    assert!(matches!(
        writer.write(&[3.0]),
        Err(ZeroChannelError::Busy(_))
    ));
    assert!(matches!(
        writer.try_acquire(),
        Err(ZeroChannelError::Busy(_))
    ));

    reader.release(a);
    reader.release(b);
    assert!(writer.write(&[3.0]).is_ok());
}

// Byte channels

#[test]
fn payload_not_multiple_of_eight_rejected() {
    let os = Os::boot();
    for bad in [1usize, 4, 12, 100, 1001] {
        let name = "/align";
        let result = BytesWriter::new(&os, name, Some(bad), Some(8), false);
        assert!(
            result.is_err(),
            "payload of {bad} bytes should have been rejected"
        );
    }
}

#[test]
fn payload_multiple_of_eight_accepted() {
    let os = Os::boot();
    let name = "/align_ok";
    let writer = BytesWriter::new(&os, name, Some(4096), Some(4), false);
    assert!(writer.is_ok());
}

#[test]
fn byte_round_trip() {
    let os = Os::boot();
    let name = "/bytes";
    let payload = 4096usize;
    let mut writer = BytesWriter::new(&os, name, Some(payload), Some(8), false).unwrap();
    let mut reader = BytesReader::new(&os, name, None, None, false).unwrap();

    let block: Vec<u8> = (0..payload).map(|i| (i % 251) as u8).collect();
    writer.write(&block).unwrap();

    let (seq, data) = reader.read(None).unwrap().unwrap();
    assert_eq!(seq, 1);
    assert_eq!(data, block);
}

#[test]
fn byte_wrong_length_rejected() {
    let os = Os::boot();
    let name = "/blen";
    let mut writer = BytesWriter::new(&os, name, Some(16), Some(8), false).unwrap();

    assert!(writer.write(&[0u8; 8]).is_err());
    assert!(writer.write(&[0u8; 24]).is_err());
    assert!(writer.write(&[0u8; 16]).is_ok());
}

#[test]
fn byte_lap_recovery() {
    let os = Os::boot();
    let name = "/blap";
    let total = 8usize;
    let mut writer = BytesWriter::new(&os, name, Some(8), Some(total), false).unwrap();
    let mut reader = BytesReader::new(&os, name, None, None, false).unwrap();

    writer.write(&0u64.to_le_bytes()).unwrap();
    assert_eq!(drain(&mut reader).len(), 1);

    // Overwrite the whole ring plus extra to force a lap
    for i in 1..=(total as u64 + 3) {
        writer.write(&i.to_le_bytes()).unwrap();
    }

    let entries = drain(&mut reader);
    assert_eq!(entries.len(), total);

    let value = |e: &Vec<u8>| u64::from_le_bytes(e[..8].try_into().unwrap());
    for i in 1..entries.len() {
        assert!(entries[i].0 > entries[i - 1].0);
        assert!(value(&entries[i].1) > value(&entries[i - 1].1));
    }
}

#[test]
fn f64_payload_readable_as_bytes() {
    let os = Os::boot();
    let name = "/xtype";
    let mut writer = Float64Writer::new(&os, name, Some(2), Some(8), false).unwrap();

    // Dtype::U8 is opaque and attaches to a channel of any declared type.
    let (mut raw, connect) =
        zerochannel::RawReader::new(name, None, None, Dtype::U8, false, ME).unwrap();
    let (mapping, header) = drive(&os, name, connect).unwrap().unwrap();
    raw.bind(&header);

    writer.write(&[1.5, -2.25]).unwrap();

    let (seq, data) = raw.read(&mapping.seg.borrow(), None).unwrap().unwrap();
    assert_eq!(seq, 1);
    assert_eq!(data.len(), 16);

    let a = f64::from_le_bytes(data[0..8].try_into().unwrap());
    let b = f64::from_le_bytes(data[8..16].try_into().unwrap());
    assert_eq!(a, 1.5);
    assert_eq!(b, -2.25);
}

#[test]
fn dtype_mismatch_rejected() {
    let os = Os::boot();
    let name = "/dtype";
    let _writer = Float64Writer::new(&os, name, Some(2), Some(8), false).unwrap();

    // Same geometry (2 x 8 bytes), different element type.
    let result = Reader::<i64>::new(&os, name, Some(2), Some(8), false);
    assert!(result.is_err());

    // Pure attach with a concrete type is also checked.
    let result = Reader::<i64>::new(&os, name, None, None, false);
    assert!(result.is_err());

    // Opaque attach is allowed.
    assert!(BytesReader::new(&os, name, None, None, false).is_ok());
}

// Exclusive roles

#[test]
fn second_writer_is_rejected_while_the_first_is_alive() {
    let os = Os::boot();
    let name = "/wexcl";
    let _writer = Float64Writer::new(&os, name, Some(1), Some(8), false).unwrap();

    // Two live writers diverge silently: each keeps its own sequence
    // counter, so entries overwrite one another with no gap in the
    // sequence numbers to reveal the loss.
    assert!(matches!(
        Float64Writer::new(&os, name, Some(1), Some(8), false),
        Err(ZeroChannelError::RoleConflict(_))
    ));
}

#[test]
fn writer_role_is_released_on_drop() {
    let os = Os::boot();
    let name = "/wrelease";
    let writer = Float64Writer::new(&os, name, Some(1), Some(8), false).unwrap();
    drop(writer);

    // A cleanly departed writer leaves the role free for its successor.
    assert!(Float64Writer::new(&os, name, Some(1), Some(8), false).is_ok());
}

#[test]
fn a_dead_writers_role_is_adopted() {
    let os = Os::boot();
    let name = "/wadopt";
    let keeper = Float64Reader::new(&os, name, Some(1), Some(8), false).unwrap();

    // Impersonate a writer that died without releasing its claim.
    // `u32::MAX` is not a valid PID on any supported platform, standing in
    // for the crash that a clean exit cannot cover.
    let seg = keeper.seg();
    seg.borrow_mut().store(OFF_WRITER_OWNER, DEAD);

    let writer = Float64Writer::new(&os, name, Some(1), Some(8), false).unwrap();
    assert_eq!(writer_owner(&seg.borrow()), ME);
    drop(writer);
    assert_eq!(writer_owner(&seg.borrow()), 0);
}

#[test]
fn second_zero_copy_reader_is_rejected() {
    let os = Os::boot();
    let name = "/zcexcl";
    let _writer = Float64Writer::new(&os, name, Some(1), Some(8), false).unwrap();
    let _reader = Float64Reader::new_zero_copy(&os, name, None, None, false).unwrap();

    assert!(matches!(
        Float64Reader::new_zero_copy(&os, name, None, None, false),
        Err(ZeroChannelError::RoleConflict(_))
    ));
}

#[test]
fn one_copy_readers_are_unrestricted() {
    let os = Os::boot();
    let name = "/swmr";
    let mut writer = Float64Writer::new(&os, name, Some(1), Some(8), false).unwrap();
    let _zc = Float64Reader::new_zero_copy(&os, name, None, None, false).unwrap();

    // The zero-copy claim must not constrain the SWMR path.
    let mut readers: Vec<_> = (0..4)
        .map(|_| Float64Reader::new(&os, name, None, None, false).unwrap())
        .collect();

    writer.write(&[7.0]).unwrap();
    for reader in &mut readers {
        assert_eq!(reader.read(None).unwrap(), Some((1, vec![7.0])));
    }
}

#[test]
fn try_acquire_requires_the_zero_copy_constructor() {
    let os = Os::boot();
    let name = "/zcgate";
    let mut writer = Float64Writer::new(&os, name, Some(1), Some(8), false).unwrap();
    let mut reader = Float64Reader::new(&os, name, None, None, false).unwrap();
    writer.write(&[1.0]).unwrap();

    assert!(matches!(
        reader.try_acquire(None),
        Err(ZeroChannelError::InvalidArgument(_))
    ));
}

#[test]
fn zero_copy_role_is_released_on_drop() {
    let os = Os::boot();
    let name = "/zcrelease";
    let writer = Float64Writer::new(&os, name, Some(1), Some(8), false).unwrap();
    let seg = writer.mapping.as_ref().unwrap().seg.clone();

    let reader = Float64Reader::new_zero_copy(&os, name, None, None, false).unwrap();
    assert_eq!(zc_reader_owner(&seg.borrow()), ME);
    drop(reader);
    assert_eq!(zc_reader_owner(&seg.borrow()), 0);

    assert!(Float64Reader::new_zero_copy(&os, name, None, None, false).is_ok());
}

// Header identity

#[test]
fn foreign_segment_is_rejected() {
    let os = Os::boot();
    let name = "/foreign";
    // Shared memory that is not a ZeroChannel ring at all.
    let seg = os.create(name, 4096).unwrap();
    seg.borrow_mut().store(0, 0xDEAD_BEEF_DEAD_BEEF);

    assert!(matches!(
        Float64Reader::new(&os, name, None, None, false),
        Err(ZeroChannelError::InvalidArgument(_))
    ));
}

#[test]
fn stale_layout_version_is_rejected() {
    let os = Os::boot();
    let name = "/oldver";
    let _writer = Float64Writer::new(&os, name, Some(1), Some(8), false).unwrap();

    // A segment left behind by an older build: right magic, wrong layout.
    // The opener-visible segment length is page-rounded by the OS, so a
    // size check cannot catch this; only the version can.
    let stale = ((MAGIC as u64) << 32) | (VERSION as u64 - 1);
    let seg = os.try_open(name).unwrap();
    seg.borrow_mut().store(OFF_MAGIC, stale);

    assert!(matches!(
        Float64Reader::new(&os, name, None, None, false),
        Err(ZeroChannelError::InvalidArgument(_))
    ));
}

#[test]
fn unlink_removes_the_segment() {
    let os = Os::boot();
    let name = "/unlink";
    let writer = Float64Writer::new(&os, name, Some(1), Some(8), false).unwrap();
    drop(writer);

    os.unlink(name).unwrap();

    // The name is gone, so a pure attach finds nothing.
    assert!(Float64Reader::new(&os, name, None, None, false).is_err());
    // Unlinking an absent segment is not an error.
    os.unlink(name).unwrap();
}

// Segment ownership

/// Leave behind an initialized segment that nobody owns, as a process
/// killed outright would: the mapping exists, but its creator's destructor
/// never ran, so the name was never unlinked.
fn orphan_segment(os: &Rc<Os>, name: &str, payload_bytes: usize, entry_count: usize) {
    let seg = os
        .create(name, required_bytes(payload_bytes, entry_count))
        .unwrap();
    init_header(
        &mut seg.borrow_mut(),
        payload_bytes,
        entry_count,
        Dtype::F64,
        ME,
    );
    assert_eq!(segment_owner(&seg.borrow()), ME);
    // `init_header` stamps the *calling* process as owner, but the test
    // process is very much alive. Overwrite the deed with a PID that
    // cannot be running so the segment reads as genuinely abandoned.
    seg.borrow_mut().store(OFF_SEGMENT_OWNER, DEAD);
}

#[test]
fn declaring_geometry_adopts_an_orphaned_segment() {
    let os = Os::boot();
    let name = "/adopt";
    orphan_segment(&os, name, 8, 8);
    assert!(
        os.try_open(name).is_some(),
        "the orphan should have survived"
    );

    // Declaring the shape claims the deed even though the mapping already
    // existed, so a clean exit reclaims the leaked name.
    let writer = Float64Writer::new(&os, name, Some(1), Some(8), false).unwrap();
    drop(writer);

    assert!(os.try_open(name).is_none());
}

#[test]
fn attaching_without_geometry_never_claims_ownership() {
    let os = Os::boot();
    let name = "/tenant";
    orphan_segment(&os, name, 8, 8);

    // A pure attach is a tenancy: it leaves the segment as it found it.
    let reader = Float64Reader::new(&os, name, None, None, false).unwrap();
    drop(reader);

    assert!(os.try_open(name).is_some());
    os.unlink(name).unwrap();
}

#[test]
fn a_tenant_outlives_the_owner_without_inheriting_the_deed() {
    let os = Os::boot();
    let name = "/outlive";
    let writer = Float64Writer::new(&os, name, Some(1), Some(8), false).unwrap();
    let reader = Float64Reader::new(&os, name, None, None, false).unwrap();

    // The owner leaving unlinks the name, but the tenant keeps its mapping.
    drop(writer);
    assert!(os.try_open(name).is_none());

    // Ownership does not transfer on the way out: the tenant drops without
    // trying to unlink a name it never held.
    drop(reader);
    os.unlink(name).unwrap();
}

#[test]
fn ownership_is_exclusive_among_geometry_suppliers() {
    let os = Os::boot();
    let name = "/exclusive";
    // Both ends declare the shape, but only the first to arrive owns it.
    let reader = Float64Reader::new(&os, name, Some(2), Some(8), false).unwrap();
    let writer = Float64Writer::new(&os, name, Some(2), Some(8), false).unwrap();

    // The later arrival is a tenant, so its exit leaves the channel intact
    // for the peer that is still running.
    drop(writer);
    assert!(os.try_open(name).is_some());

    drop(reader);
    assert!(os.try_open(name).is_none());
}

// Connecting, beyond the happy path

/// The text of the error that opening ends in.
fn refusal<T>(result: Result<T, ZeroChannelError>) -> String {
    match result {
        Ok(_) => panic!("opening should have failed"),
        Err(e) => e.message(),
    }
}

#[test]
fn sizes_are_supplied_together() {
    let os = Os::boot();
    let both = "entry_length and entry_count must both be supplied or both omitted";
    assert_eq!(
        refusal(Float64Writer::new(&os, "/half", Some(2), None, true)),
        both
    );
    assert_eq!(
        refusal(Float64Reader::new(&os, "/half", None, Some(2), true)),
        both
    );
    assert_eq!(
        refusal(Float64Writer::new(&os, "/zero", Some(0), Some(2), true)),
        "entry_length and entry_count must be non-zero"
    );
    assert_eq!(
        refusal(BytesWriter::new(&os, "/odd", Some(12), Some(2), true)),
        "payload must be a multiple of 8 bytes to keep slot entry_seq words aligned, got 12"
    );
}

#[test]
fn a_missing_segment_is_an_error_unless_deferred() {
    let os = Os::boot();
    let refused = Float64Reader::new(&os, "/nowhere", None, None, false);
    assert!(matches!(refused, Err(ZeroChannelError::OsError(_))));
    assert_eq!(
        refusal(Float64Writer::new(&os, "/nowhere", None, None, false)),
        "shared memory segment does not exist and sizes were not supplied"
    );
}

#[test]
fn a_mismatched_open_names_both_geometries() {
    let os = Os::boot();
    let _writer = Float64Writer::new(&os, "/shape", Some(4), Some(16), false).unwrap();
    assert_eq!(
        refusal(Float64Reader::new(&os, "/shape", Some(3), Some(16), false)),
        "header mismatch: expected (24 payload bytes, 16 entries), \
         found (32 payload bytes, 16 entries)"
    );
    assert_eq!(
        refusal(Reader::<i64>::new(&os, "/shape", None, None, false)),
        "dtype mismatch: channel holds f64, requested i64"
    );
}

#[test]
fn a_role_conflict_names_the_role_the_channel_and_the_holder() {
    let os = Os::boot();
    let _writer = Float64Writer::new(&os, "/roles", Some(1), Some(8), false).unwrap();
    let _reader = Float64Reader::new_zero_copy(&os, "/roles", None, None, false).unwrap();
    assert_eq!(
        refusal(Float64Writer::new(&os, "/roles", None, None, false)),
        "the writer role on channel '/roles' is held by process 4242"
    );
    assert_eq!(
        refusal(Float64Reader::new_zero_copy(
            &os, "/roles", None, None, false
        )),
        "the zero-copy reader role on channel '/roles' is held by process 4242"
    );
}

#[test]
fn an_abandoned_segment_is_initialized_by_the_next_geometry_supplier() {
    let os = Os::boot();
    // Reserved, but its creator died before laying down the header.
    os.create("/blank", 4096).unwrap();
    assert!(Float64Reader::new(&os, "/blank", None, None, true).is_ok());

    let writer = Float64Writer::new(&os, "/blank", Some(2), Some(8), false).unwrap();
    let seg = os.try_open("/blank").unwrap();
    assert_eq!(segment_owner(&seg.borrow()), ME);
    let header = read_header(&seg.borrow()).unwrap().unwrap();
    assert_eq!((header.payload_bytes, header.entry_count), (16, 8));

    // Laying down the header confers ownership.
    drop(writer);
    assert!(os.try_open("/blank").is_none());
}

#[test]
fn an_abandoned_segment_that_is_too_small_is_rejected() {
    let os = Os::boot();
    os.create("/tiny", 80).unwrap();
    assert_eq!(
        refusal(Float64Writer::new(&os, "/tiny", Some(2), Some(8), false)),
        "abandoned segment '/tiny' is too small for the requested geometry"
    );
    assert!(os.try_open("/tiny").is_some());
}

#[test]
fn a_foreign_magic_and_a_foreign_version_read_differently() {
    let os = Os::boot();
    let seg = os.create("/alien", 4096).unwrap();
    seg.borrow_mut().store(OFF_MAGIC, 0xDEAD_BEEF_DEAD_BEEF);
    assert_eq!(
        refusal(BytesReader::new(&os, "/alien", None, None, true)),
        "shared memory segment is not a ZeroChannel ring"
    );
    seg.borrow_mut()
        .store(OFF_MAGIC, ((MAGIC as u64) << 32) | 77);
    assert_eq!(
        refusal(BytesWriter::new(&os, "/alien", Some(8), Some(8), false)),
        "ZeroChannel layout version mismatch: segment is v77, this build speaks v1"
    );
}

#[test]
fn a_late_release_does_not_evict_an_adopter() {
    let os = Os::boot();
    let reader = Float64Reader::new(&os, "/late", Some(1), Some(4), false).unwrap();
    let writer = Float64Writer::new(&os, "/late", None, None, false).unwrap();
    let seg = reader.seg();
    // Someone else adopted the role in the meantime.
    seg.borrow_mut().store(OFF_WRITER_OWNER, 777);
    drop(writer);
    assert_eq!(writer_owner(&seg.borrow()), 777);
}

#[test]
fn pinned_and_abandoned_slots_keep_the_rest_of_the_ring_going() {
    let os = Os::boot();
    let mut writer = Writer::<i64>::new(&os, "/mix", Some(1), Some(3), false).unwrap();
    let mut pinning = Reader::<i64>::new_zero_copy(&os, "/mix", None, None, false).unwrap();
    let mut reader = Reader::<i64>::new(&os, "/mix", None, None, false).unwrap();

    for v in [-1i64, -2, -3] {
        writer.write(&[v]).unwrap();
    }
    let held = pinning.try_acquire(Some(1)).unwrap().unwrap();
    assert_eq!((held.index(), held.entry_seq()), (1, 2));
    // A held entry is invisible to everyone else.
    assert_eq!(reader.read(None).unwrap(), Some((1, vec![-1])));
    assert_eq!(reader.read(None).unwrap(), Some((3, vec![-3])));

    // An abandoned write handle leaves its slot to the next claim.
    let abandoned = writer.try_acquire().unwrap().unwrap();
    assert_eq!(abandoned.index(), 0);
    drop(abandoned);
    let mut handle = writer.try_acquire().unwrap().unwrap();
    assert_eq!(handle.index(), 0);
    writer.fill(&mut handle, &[-4]).unwrap();
    assert_eq!(writer.commit(handle), 4);
    assert_eq!(reader.read(None).unwrap(), Some((4, vec![-4])));

    // The writer steps over the held slot.
    writer.write(&[-5]).unwrap();
    assert_eq!(reader.read(None).unwrap(), Some((5, vec![-5])));
    assert_eq!(pinning.look(&held), vec![-2]);
    pinning.release(held);
    assert_eq!(reader.read(Some(0)).unwrap(), Some((2, vec![-2])));
}
