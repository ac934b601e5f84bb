//! The catalog of lock and event kinds, their wire codes and body sizes, and
//! the in-process descriptors that summarize one installed primitive.

use vstd::prelude::*;

verus! {

/// The known lock kinds. The kind decides how many bytes of primitive state
/// are reserved in the metadata region and which backend attaches to them.
#[derive(Clone, Copy, Debug, PartialEq, Eq, Structural)]
pub enum LockType {
    /// Mutually exclusive access to the protected range.
    Mutex,
    /// Multiple readers or one writer over the protected range.
    RwLock,
}

/// The known event kinds.
#[derive(Clone, Copy, Debug, PartialEq, Eq, Structural)]
pub enum EventType {
    /// Busy-waiting auto-reset event; its state lives outside the mapping.
    AutoBusy,
    /// Busy-waiting manual-reset event; its state lives outside the mapping.
    ManualBusy,
    /// Kernel-backed auto-reset event.
    Auto,
    /// Kernel-backed manual-reset event.
    Manual,
}

/// The wire code written as the `uid` field of a lock header.
pub open spec fn lock_uid_spec(t: LockType) -> u8 {
    match t {
        LockType::Mutex => 0,
        LockType::RwLock => 1,
    }
}

/// Bytes of primitive state reserved in the mapping for a lock of this kind.
pub open spec fn lock_body_size_spec(t: LockType) -> usize {
    match t {
        LockType::Mutex => 40,
        LockType::RwLock => 56,
    }
}

/// The lock kind denoted by a wire code, if any.
pub open spec fn lock_from_uid_spec(uid: u8) -> Option<LockType> {
    if uid == 0 {
        Some(LockType::Mutex)
    } else if uid == 1 {
        Some(LockType::RwLock)
    } else {
        None
    }
}

/// The wire code written as the `uid` field of an event header.
pub open spec fn event_uid_spec(t: EventType) -> u8 {
    match t {
        EventType::AutoBusy => 0,
        EventType::ManualBusy => 1,
        EventType::Auto => 2,
        EventType::Manual => 3,
    }
}

/// Bytes of primitive state reserved in the mapping for an event of this
/// kind. Busy events keep no state in the mapping at all.
pub open spec fn event_body_size_spec(t: EventType) -> usize {
    match t {
        EventType::AutoBusy => 0,
        EventType::ManualBusy => 0,
        EventType::Auto => 128,
        EventType::Manual => 128,
    }
}

/// The event kind denoted by a wire code, if any.
pub open spec fn event_from_uid_spec(uid: u8) -> Option<EventType> {
    if uid == 0 {
        Some(EventType::AutoBusy)
    } else if uid == 1 {
        Some(EventType::ManualBusy)
    } else if uid == 2 {
        Some(EventType::Auto)
    } else if uid == 3 {
        Some(EventType::Manual)
    } else {
        None
    }
}

impl LockType {
    /// The wire code of this kind.
    pub fn uid(self) -> (r: u8)
        ensures
            r == lock_uid_spec(self),
    {
        match self {
            LockType::Mutex => 0,
            LockType::RwLock => 1,
        }
    }

    /// Bytes of primitive state reserved in the mapping for this kind.
    pub fn body_size(self) -> (r: usize)
        ensures
            r == lock_body_size_spec(self),
    {
        match self {
            LockType::Mutex => 40,
            LockType::RwLock => 56,
        }
    }

    /// Decode a wire code read from a lock header.
    pub fn from_uid(uid: u8) -> (r: Option<LockType>)
        ensures
            r == lock_from_uid_spec(uid),
    {
        if uid == 0 {
            Some(LockType::Mutex)
        } else if uid == 1 {
            Some(LockType::RwLock)
        } else {
            None
        }
    }
}

impl EventType {
    /// The wire code of this kind.
    pub fn uid(self) -> (r: u8)
        ensures
            r == event_uid_spec(self),
    {
        match self {
            EventType::AutoBusy => 0,
            EventType::ManualBusy => 1,
            EventType::Auto => 2,
            EventType::Manual => 3,
        }
    }

    /// Bytes of primitive state reserved in the mapping for this kind.
    pub fn body_size(self) -> (r: usize)
        ensures
            r == event_body_size_spec(self),
    {
        match self {
            EventType::AutoBusy => 0,
            EventType::ManualBusy => 0,
            EventType::Auto => 128,
            EventType::Manual => 128,
        }
    }

    /// Decode a wire code read from an event header.
    pub fn from_uid(uid: u8) -> (r: Option<EventType>)
        ensures
            r == event_from_uid_spec(uid),
    {
        if uid == 0 {
            Some(EventType::AutoBusy)
        } else if uid == 1 {
            Some(EventType::ManualBusy)
        } else if uid == 2 {
            Some(EventType::Auto)
        } else if uid == 3 {
            Some(EventType::Manual)
        } else {
            None
        }
    }
}

/// In-process descriptor of one lock. `body_offset` and `data_offset` are
/// indices into the mapping: the primitive's state bytes and the first
/// protected user byte. Both are 0 while the configuration is only declared;
/// `create` and `open` fill them in.
#[derive(Clone, Copy, Debug, PartialEq, Eq, Structural)]
pub struct GenericLock {
    pub lock_type: LockType,
    pub offset: usize,
    pub length: usize,
    pub body_offset: usize,
    pub data_offset: usize,
}

/// In-process descriptor of one event.
#[derive(Clone, Copy, Debug, PartialEq, Eq, Structural)]
pub struct GenericEvent {
    pub event_type: EventType,
    pub body_offset: usize,
}

} // verus!
