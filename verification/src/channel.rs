//! Named, role-aware channel endpoints.
//!
//! An endpoint pairs one end of the ring protocol with the channel name its
//! segment comes from, the element type it expects and the exclusive role it
//! holds. It may be opened before its segment exists and connect later.

pub mod reader;
pub mod writer;
