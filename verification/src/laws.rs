//! What holds of a channel as a whole.
//!
//! [`stream`] follows a channel from its first entry on: what a run of writes
//! leaves in the ring, what a run of reads makes of it, and how a successor goes
//! on. [`log`] relates the bytes of a segment to the entries written so far:
//! every operation of either end keeps that relation, and a read gives back what
//! was written. [`lap`] says which entries survive when the writer laps the ring,
//! [`restart`] what a writer recovers from a predecessor that died, [`attempts`]
//! what a read makes of each answer, and [`history`] why an unchanged control
//! word proves a copy whole.
//!
//! [`opening`] says what becomes of a request to open a channel, and [`roles`]
//! who holds what among the processes on it. [`layout`] gives the place of every
//! byte, [`elements`] the bytes of every element, [`lending`] what a foreign
//! runtime is told, and [`messages`] what errors say.

pub mod attempts;
pub mod elements;
pub mod history;
pub mod lap;
pub mod layout;
pub mod lending;
pub mod log;
pub mod messages;
pub mod opening;
pub mod restart;
pub mod roles;
pub mod stream;
