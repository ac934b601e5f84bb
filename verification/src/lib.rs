//! A cross-process shared-memory region with an in-band directory of
//! synchronization primitives.
//!
//! A creating process declares a layout (user data size, locks over byte
//! ranges, events), serializes that layout into the head of a mapping, and
//! publishes the mapping's OS name, possibly through a link file. Peers open
//! the mapping by name, parse the metadata region, re-validate every range,
//! and attach to the same primitives.
//!
//! This crate holds the layout engine and the lifecycle logic: alignment,
//! range validation, the metadata layout calculator, the configuration
//! builder, the creation-side serializer and the open-side parser. The
//! OS-specific mapping backend and the kernel side of each primitive are
//! consumed through interfaces and are supplied by the embedding program.

use vstd::prelude::*;

pub mod conf;
pub mod kinds;
pub mod layout;
pub mod naming;
pub mod range_index;

pub use conf::{SharedMem, SharedMemConf};
pub use kinds::{EventType, GenericEvent, GenericLock, LockType};

verus! {

/// Every lock body, event body and the user region start at an offset that is
/// a multiple of this alignment, so that primitive state words sit on natural
/// addresses.
pub const ADDR_ALIGN: u8 = 8;

/// Errors surfaced by the layout engine and by the embedding program's I/O
/// around it.
#[derive(Clone, Copy, Debug, PartialEq, Eq, Structural)]
pub enum SharedMemError {
    /// `create` was asked for a region with no user bytes.
    MapSizeZero,
    /// A lock range (length, user size) does not fit in the user region.
    RangeDoesNotFit(usize, usize),
    /// A lock range (offset, length) overlaps the lock at the given index.
    RangeOverlapsExisting(usize, usize, usize),
    /// The link file already exists and overwriting was not requested.
    LinkExists,
    /// Neither an OS name nor a usable link file was given to `open`.
    LinkDoesNotExist,
    /// Creating the link file failed.
    LinkCreateFailed,
    /// Opening the link file failed.
    LinkOpenFailed,
    /// Reading the link file failed.
    LinkReadFailed,
    /// Writing the OS name into the link file failed.
    LinkWriteFailed,
    /// The metadata region is structurally invalid: undersized mapping,
    /// unknown kind code, cursor overrun, or a final cursor mismatch.
    InvalidHeader,
}

} // verus!
