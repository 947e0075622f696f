//! ZeroChannel: lock-free single-writer, multi-reader channels over shared
//! memory.
//!
//! A channel is a ring of fixed-size entries in a named shared-memory segment.
//! Each ring slot carries a signed 64-bit `entry_seq` control word:
//!
//! | Value | Meaning |
//! |---|---|
//! | `0` | empty, or a writer is mid-write |
//! | `> 0` | committed entry with sequence number `entry_seq` |
//! | `< 0` | committed entry `-entry_seq` currently **held** by a reader |
//!
//! Sequence numbers are assigned by the writer and increase strictly by one.
//! The writer's high watermark is mirrored in the header so a reader can tell
//! whether anything newer than its own watermark exists without scanning the
//! ring.
//!
//! This crate holds every decision that a channel takes. The ring protocol
//! ([`writer`], [`reader`]) and the segment's life ([`lifecycle`], [`owner`])
//! are step machines: they say which word to load, store or swap next and what
//! to make of the answer, so the same verified code drives a plain [`segment`]
//! and memory shared with other processes. [`laws`] states what holds of a
//! channel as a whole.

pub mod channel;
pub mod element;
pub mod error;
pub mod export;
pub mod header;
pub mod laws;
pub mod lifecycle;
pub mod metadata;
pub mod owner;
pub mod reader;
pub mod ring;
pub mod segment;
pub mod text;
pub mod typed;
pub mod writer;
pub mod zerocopy;

pub use channel::reader::RawReader;
pub use channel::writer::RawWriter;
pub use element::{Element, F64Bits};
pub use error::ZeroChannelError;
pub use header::{
    high_watermark, init_header, read_header, segment_owner, writer_owner, zc_reader_owner,
};
pub use metadata::{
    check_dtype, check_geometry, entry_bytes, payload_offset, required_bytes, validate_header,
    Dtype, Header, HEADER_BYTES, MAGIC, MAGIC_VERSION, OFF_DTYPE, OFF_ENTRY_COUNT,
    OFF_LAST_ENTRY_SEQ, OFF_MAGIC, OFF_PAYLOAD_BYTES, OFF_SEGMENT_OWNER, OFF_WRITER_OWNER,
    OFF_WRITE_INDEX, OFF_ZC_READER_OWNER, READ_RETRIES, SLOT_ALIGN, VERSION,
};
pub use ring::seq_cell;
pub use typed::{BytesReader, BytesWriter, Float64Reader, Float64Writer, Reader, Writer};
pub use zerocopy::{ReadHandle, WriteHandle};
