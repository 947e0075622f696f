# ZeroChannel

Lock-free single-writer, multi-reader channels of fixed-size entries over shared
memory, verified with Verus.

A channel is a named segment: a 72-byte header followed by a ring of slots. Each
slot starts with a signed `entry_seq` control word: zero while it is empty or
being written, positive once an entry is committed, negative while a reader
holds that entry in place.

## Layout

| Path | Contents |
|---|---|
| `src/metadata.rs`, `src/header.rs` | Where bytes live; creating and decoding the header |
| `src/segment.rs`, `src/ring.rs` | The bytes of a segment, and the ring of slots seen through them |
| `src/writer.rs`, `src/reader.rs` | The two ends of the ring protocol |
| `src/zerocopy.rs`, `src/element.rs` | Slot handles and element types |
| `src/owner.rs`, `src/lifecycle.rs` | Exclusive roles, the segment deed, opening and creating |
| `src/channel/`, `src/typed.rs` | Named endpoints, in bytes and in elements |
| `src/export.rs` | Lending slots to a foreign runtime, and its exceptions |
| `src/laws/` | What holds of a channel as a whole |
| `tests/` | Tests of the library on plain segments |
| `app/` | Mapped memory, the operating system and the Python bindings |

## How it fits together

Every decision is taken in `src/`. The ring protocol and the life of a segment
are step machines (`SlotClaim`, `Publication`, `ReadOp`, `OwnerClaim`,
`Connect`): they name the next load, store, swap or system call and take in its
answer. `app/` carries the steps out with atomic operations and fences on mapped
memory. The library itself carries them out on a `Segment`, a plain run of
bytes, where every effect is stated to the byte.

A `Segment` is changed by one operation at a time. What other participants may
do to a slot in the middle of a read is modelled in `src/laws/history.rs`, as a
sequence of steps on that slot; there the writer's claim of a slot is one step.
