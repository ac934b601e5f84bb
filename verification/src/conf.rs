//! The configuration builder and the create/open lifecycle.
//!
//! A [`SharedMemConf`] accumulates the declared layout: user size, link
//! path, OS name, locks and events. `create` turns it into a serialized
//! mapping image; `open` parses a foreign mapping image, re-validating every
//! step, and rebuilds an equivalent configuration.

use vstd::prelude::*;

use crate::kinds::{
    event_body_size_spec, lock_body_size_spec, EventType, GenericEvent, GenericLock, LockType,
};
use crate::layout::{
    advance_align_checked, align_up, align_value, cursor_after_events, cursor_after_locks,
    event_body_off, event_hdr_encoded, event_hdr_off, events_geom_eq, le64_at, le64_read,
    lemma_align8, lemma_cursor_events_geom, lemma_cursor_events_lb, lemma_cursor_events_step,
    lemma_cursor_events_count, lemma_cursor_events_take_le, lemma_cursor_locks_count,
    lemma_cursor_locks_geom, lemma_cursor_locks_lb, lemma_cursor_locks_step,
    lemma_cursor_locks_take_le, lemma_le64_grow, lemma_lock_hdr_grow,
    lemma_meta_size_bounds, lock_body_off, lock_geom_eq, lock_hdr_encoded, lock_hdr_off,
    locks_geom_eq, meta_region_encoded, pad_buf_to_align, push_lock_header, push_u64_le, push_zeros, read_u64_le,
    spec_meta_size, EVENT_HEADER_SIZE, LOCK_HEADER_SIZE, META_HEADER_SIZE,
};
use crate::naming::{is_synth_name, synth_os_name};
use crate::range_index::{
    find_overlapping, lemma_locks_wf_geom, lock_range_valid_spec, locks_disjoint_spec, locks_wf,
    ranges_disjoint_spec,
};
use crate::SharedMemError;

verus! {

/// The abstract state of a configuration: what the contracts of every
/// builder and lifecycle function speak about.
pub ghost struct ConfView {
    /// This process created the mapping (and owns the link file).
    pub owner: bool,
    /// An existing link file may be truncated and replaced.
    pub overwrite_link: bool,
    /// Filesystem path at which the OS name is published, if any.
    pub link_path: Option<Seq<char>>,
    /// Requested OS-visible object name, if any.
    pub os_path: Option<Seq<char>>,
    /// Bytes of the user region.
    pub size: usize,
    /// Running tally of metadata bytes; authoritative only after create/open.
    pub meta_size: usize,
    /// Declared locks, in insertion order.
    pub locks: Seq<GenericLock>,
    /// Declared events, in insertion order.
    pub events: Seq<GenericEvent>,
}

/// The running tally contribution of the declared locks: header and body
/// bytes, without alignment padding.
pub open spec fn locks_tally(locks: Seq<GenericLock>) -> int
    decreases locks.len(),
{
    if locks.len() == 0 {
        0
    } else {
        locks_tally(locks.drop_last()) + LOCK_HEADER_SIZE + lock_body_size_spec(
            locks.last().lock_type,
        )
    }
}

/// The running tally contribution of the declared events.
pub open spec fn events_tally(events: Seq<GenericEvent>) -> int
    decreases events.len(),
{
    if events.len() == 0 {
        0
    } else {
        events_tally(events.drop_last()) + EVENT_HEADER_SIZE + event_body_size_spec(
            events.last().event_type,
        )
    }
}

/// The builder's running metadata tally: header plus per-primitive header
/// and body bytes. It ignores alignment padding; the authoritative size is
/// `spec_meta_size`, recomputed at create time.
pub open spec fn approx_meta_size(locks: Seq<GenericLock>, events: Seq<GenericEvent>) -> int {
    META_HEADER_SIZE + locks_tally(locks) + events_tally(events)
}

/// The lock tally is never negative.
pub proof fn lemma_locks_tally_nonneg(locks: Seq<GenericLock>)
    ensures
        locks_tally(locks) >= 0,
    decreases locks.len(),
{
    if locks.len() > 0 {
        lemma_locks_tally_nonneg(locks.drop_last());
    }
}

/// The event tally is never negative.
pub proof fn lemma_events_tally_nonneg(events: Seq<GenericEvent>)
    ensures
        events_tally(events) >= 0,
    decreases events.len(),
{
    if events.len() > 0 {
        lemma_events_tally_nonneg(events.drop_last());
    }
}

/// `x` clamped into `usize`.
pub open spec fn sat_usize(x: int) -> usize {
    if x > usize::MAX {
        usize::MAX
    } else {
        x as usize
    }
}

/// Configuration used to describe a shared memory mapping before opening or
/// creating it.
#[derive(Debug)]
pub struct SharedMemConf {
    owner: bool,
    overwrite_existing_link: bool,
    link_path: Option<String>,
    wanted_os_path: Option<String>,
    size: usize,
    meta_size: usize,
    lock_data: Vec<GenericLock>,
    event_data: Vec<GenericEvent>,
}

impl View for SharedMemConf {
    type V = ConfView;

    closed spec fn view(&self) -> ConfView {
        ConfView {
            owner: self.owner,
            overwrite_link: self.overwrite_existing_link,
            link_path: match self.link_path {
                Some(p) => Some(p@),
                None => None,
            },
            os_path: match self.wanted_os_path {
                Some(p) => Some(p@),
                None => None,
            },
            size: self.size,
            meta_size: self.meta_size,
            locks: self.lock_data@,
            events: self.event_data@,
        }
    }
}

/// What `add_lock` guarantees when it succeeds: the range was acceptable and
/// disjoint from every earlier lock, the lock was appended, and the tally
/// grew by the lock's header and body bytes (clamped).
pub open spec fn add_lock_ok(
    pre: ConfView,
    post: ConfView,
    lock_type: LockType,
    offset: usize,
    length: usize,
    body_offset: usize,
    data_offset: usize,
) -> bool {
    &&& lock_range_valid_spec(pre.size, offset, length)
    &&& forall|j: int|
        0 <= j < pre.locks.len() && (#[trigger] pre.locks[j]).length > 0 && length > 0
            ==> ranges_disjoint_spec(pre.locks[j].offset, pre.locks[j].length, offset, length)
    &&& post.locks == pre.locks.push(
        (GenericLock { lock_type, offset, length, body_offset, data_offset }),
    )
    &&& post.events == pre.events
    &&& post.meta_size == sat_usize(
        pre.meta_size + LOCK_HEADER_SIZE + lock_body_size_spec(lock_type),
    )
    &&& post.size == pre.size
    &&& post.owner == pre.owner
    &&& post.overwrite_link == pre.overwrite_link
    &&& post.link_path == pre.link_path
    &&& post.os_path == pre.os_path
}

/// What `add_lock` guarantees when it fails: which error comes with which
/// inputs. A range that does not fit reports the length and the user size;
/// an overlapping range reports the range and the index of an existing lock
/// it intersects.
pub open spec fn add_lock_err(
    pre: ConfView,
    e: SharedMemError,
    offset: usize,
    length: usize,
) -> bool {
    match e {
        SharedMemError::RangeDoesNotFit(l, s) => {
            &&& l == length
            &&& s == pre.size
            &&& !lock_range_valid_spec(pre.size, offset, length)
        },
        SharedMemError::RangeOverlapsExisting(o, l, idx) => {
            &&& o == offset
            &&& l == length
            &&& length > 0
            &&& lock_range_valid_spec(pre.size, offset, length)
            &&& idx < pre.locks.len()
            &&& pre.locks[idx as int].length > 0
            &&& !ranges_disjoint_spec(
                pre.locks[idx as int].offset,
                pre.locks[idx as int].length,
                offset,
                length,
            )
        },
        _ => false,
    }
}

/// How `open` reaches the mapping: by the requested OS name, or by the OS
/// name published in a link file.
#[derive(Debug)]
pub enum OpenTarget {
    /// Open the mapping under this OS name.
    OsPath(String),
    /// Read the OS name from the link file at this path, then open it.
    LinkFile(String),
}

/// The byte region `b` is a well-formed serialization of the configuration
/// `(user_size, locks, events)`: the metadata region encodes it, the lock
/// ranges are valid and disjoint, and the whole declared extent fits in `b`.
pub open spec fn parseable(
    b: Seq<u8>,
    user_size: usize,
    locks: Seq<GenericLock>,
    events: Seq<GenericEvent>,
) -> bool {
    &&& meta_region_encoded(b, user_size, locks, events)
    &&& locks_wf(user_size, locks)
    &&& spec_meta_size(locks, events) + user_size <= b.len()
}

impl SharedMemConf {
    /// The configuration's invariant: every declared lock fits and ranges
    /// are pairwise disjoint, and the tally tracks the declared primitives.
    pub open spec fn wf(self) -> bool {
        &&& locks_wf(self@.size, self@.locks)
        &&& self@.meta_size == sat_usize(approx_meta_size(self@.locks, self@.events))
    }

    /// Validate a lock range against the mapping size.
    fn valid_lock_range(map_size: usize, offset: usize, length: usize) -> (r: bool)
        ensures
            r == lock_range_valid_spec(map_size, offset, length),
    {
        if length == 0 {
            offset == 0
        } else {
            length <= map_size && offset <= map_size - length
        }
    }

    /// Validates the range, checks it against the range index, then appends
    /// the lock and grows the tally.
    fn add_lock_impl(
        &mut self,
        lock_type: LockType,
        offset: usize,
        length: usize,
        body_offset: usize,
        data_offset: usize,
    ) -> (r: Result<(), SharedMemError>)
        requires
            old(self).wf(),
        ensures
            final(self).wf(),
            match r {
                Ok(()) => add_lock_ok(
                    old(self)@,
                    final(self)@,
                    lock_type,
                    offset,
                    length,
                    body_offset,
                    data_offset,
                ),
                Err(e) => {
                    &&& add_lock_err(old(self)@, e, offset, length)
                    &&& *final(self) == *old(self)
                },
            },
    {
        if !Self::valid_lock_range(self.size, offset, length) {
            return Err(SharedMemError::RangeDoesNotFit(length, self.size));
        }
        if length != 0 {
            match find_overlapping(&self.lock_data, offset, length) {
                Some(existing_lock) => {
                    return Err(
                        SharedMemError::RangeOverlapsExisting(offset, length, existing_lock),
                    );
                },
                None => {},
            }
        }
        let new_lock = GenericLock { lock_type, offset, length, body_offset, data_offset };
        let inc: usize = LOCK_HEADER_SIZE + lock_type.body_size();
        if self.meta_size > usize::MAX - inc {
            self.meta_size = usize::MAX;
        } else {
            self.meta_size = self.meta_size + inc;
        }
        self.lock_data.push(new_lock);
        proof {
            let locks = self.lock_data@;
            let inc_spec = LOCK_HEADER_SIZE + lock_body_size_spec(lock_type);
            assert(locks.drop_last() =~= old(self).lock_data@);
            assert(locks.last() == new_lock);
            assert(locks_tally(locks) == locks_tally(old(self).lock_data@) + inc_spec);
            lemma_locks_tally_nonneg(old(self).lock_data@);
            lemma_events_tally_nonneg(old(self).event_data@);
            assert(approx_meta_size(locks, self.event_data@) == approx_meta_size(
                old(self).lock_data@,
                old(self).event_data@,
            ) + inc_spec);
            assert(self@.meta_size == sat_usize(approx_meta_size(self@.locks, self@.events)));
            assert(forall|i: int|
                0 <= i < locks.len() - 1 ==> locks[i] == old(self).lock_data@[i]);
        }
        Ok(())
    }

    /// Appends the event and grows the tally.
    fn add_event_impl(&mut self, event_type: EventType, body_offset: usize) -> (r: Result<
        (),
        SharedMemError,
    >)
        requires
            old(self).wf(),
        ensures
            final(self).wf(),
            r is Ok,
            final(self)@.events == old(self)@.events.push(
                (GenericEvent { event_type, body_offset }),
            ),
            final(self)@.locks == old(self)@.locks,
            final(self)@.meta_size == sat_usize(
                old(self)@.meta_size + EVENT_HEADER_SIZE + event_body_size_spec(event_type),
            ),
            final(self)@.size == old(self)@.size,
            final(self)@.owner == old(self)@.owner,
            final(self)@.overwrite_link == old(self)@.overwrite_link,
            final(self)@.link_path == old(self)@.link_path,
            final(self)@.os_path == old(self)@.os_path,
    {
        let new_event = GenericEvent { event_type, body_offset };
        let inc: usize = EVENT_HEADER_SIZE + event_type.body_size();
        if self.meta_size > usize::MAX - inc {
            self.meta_size = usize::MAX;
        } else {
            self.meta_size = self.meta_size + inc;
        }
        self.event_data.push(new_event);
        proof {
            let events = self.event_data@;
            let inc_spec = EVENT_HEADER_SIZE + event_body_size_spec(event_type);
            assert(events.drop_last() =~= old(self).event_data@);
            assert(events.last() == new_event);
            assert(events_tally(events) == events_tally(old(self).event_data@) + inc_spec);
            lemma_locks_tally_nonneg(old(self).lock_data@);
            lemma_events_tally_nonneg(old(self).event_data@);
            assert(approx_meta_size(self.lock_data@, events) == approx_meta_size(
                old(self).lock_data@,
                old(self).event_data@,
            ) + inc_spec);
        }
        Ok(())
    }

    /// Sets the size of the usable memory in the mapping. The declared locks
    /// must still fit the new size.
    pub fn set_size(self, wanted_size: usize) -> (r: SharedMemConf)
        requires
            self.wf(),
            locks_wf(wanted_size, self@.locks),
        ensures
            r.wf(),
            r@ == (ConfView { size: wanted_size, ..self@ }),
    {
        let mut c = self;
        c.size = wanted_size;
        c
    }

    /// Sets the path for the link file.
    pub fn set_link_path(self, link_path: &str) -> (r: SharedMemConf)
        requires
            self.wf(),
        ensures
            r.wf(),
            r@ == (ConfView { link_path: Some(link_path@), ..self@ }),
    {
        let mut c = self;
        c.link_path = Some(link_path.to_owned());
        c
    }

    /// Sets a specific unique name to be used when creating the mapping.
    pub fn set_os_path(self, unique_id: &str) -> (r: SharedMemConf)
        requires
            self.wf(),
        ensures
            r.wf(),
            r@ == (ConfView { os_path: Some(unique_id@), ..self@ }),
    {
        let mut c = self;
        c.wanted_os_path = Some(unique_id.to_owned());
        c
    }

    /// Forces the creation of the link file regardless of whether the file
    /// already exists.
    pub fn overwrite_link(self) -> (r: SharedMemConf)
        requires
            self.wf(),
        ensures
            r.wf(),
            r@ == (ConfView { overwrite_link: true, ..self@ }),
    {
        let mut c = self;
        c.overwrite_existing_link = true;
        c
    }

    /// Adds a lock of the specified kind over a range of user bytes.
    pub fn add_lock(
        self,
        lock_type: LockType,
        offset: usize,
        length: usize,
    ) -> (r: Result<SharedMemConf, SharedMemError>)
        requires
            self.wf(),
        ensures
            match r {
                Ok(c) => {
                    &&& c.wf()
                    &&& add_lock_ok(self@, c@, lock_type, offset, length, 0, 0)
                },
                Err(e) => add_lock_err(self@, e, offset, length),
            },
    {
        let mut c = self;
        match c.add_lock_impl(lock_type, offset, length, 0, 0) {
            Ok(()) => Ok(c),
            Err(e) => Err(e),
        }
    }

    /// Adds an event of the specified kind.
    pub fn add_event(self, event_type: EventType) -> (r: Result<
        SharedMemConf,
        SharedMemError,
    >)
        requires
            self.wf(),
        ensures
            match r {
                Ok(c) => {
                    &&& c.wf()
                    &&& c@ == (ConfView {
                        events: self@.events.push((GenericEvent { event_type, body_offset: 0 })),
                        meta_size: sat_usize(
                            self@.meta_size + EVENT_HEADER_SIZE + event_body_size_spec(event_type),
                        ),
                        ..self@
                    })
                },
                Err(_) => false,
            },
    {
        let mut c = self;
        match c.add_event_impl(event_type, 0) {
            Ok(()) => Ok(c),
            Err(e) => Err(e),
        }
    }

    /// Returns the currently set link path value.
    pub fn get_link_path(&self) -> (r: Option<&String>)
        ensures
            match r {
                Some(p) => self@.link_path == Some(p@),
                None => self@.link_path is None,
            },
    {
        match &self.link_path {
            Some(p) => Some(p),
            None => None,
        }
    }

    /// Returns the currently set OS name value.
    pub fn get_os_path(&self) -> (r: Option<&str>)
        ensures
            match r {
                Some(p) => self@.os_path == Some(p@),
                None => self@.os_path is None,
            },
    {
        match &self.wanted_os_path {
            Some(p) => Some(p.as_str()),
            None => None,
        }
    }

    /// Returns the current size of the user data.
    pub fn get_size(&self) -> (r: usize)
        ensures
            r == self@.size,
    {
        self.size
    }

    /// Returns the current tally of the size that the metadata will take.
    pub fn get_metadata_size(&self) -> (r: usize)
        ensures
            r == self@.meta_size,
    {
        self.meta_size
    }

    /// Returns the current number of locks.
    pub fn num_locks(&self) -> (r: usize)
        ensures
            r == self@.locks.len(),
    {
        self.lock_data.len()
    }

    /// Returns the current number of events.
    pub fn num_events(&self) -> (r: usize)
        ensures
            r == self@.events.len(),
    {
        self.event_data.len()
    }

    /// True when an existing link file may be truncated and replaced.
    pub fn is_overwrite_link(&self) -> (r: bool)
        ensures
            r == self@.overwrite_link,
    {
        self.overwrite_existing_link
    }

    /// True for the process that created the mapping.
    pub fn is_owner(&self) -> (r: bool)
        ensures
            r == self@.owner,
    {
        self.owner
    }

    /// Returns the lock descriptor at the given index.
    pub fn get_lock(&self, lock_index: usize) -> (r: &GenericLock)
        requires
            lock_index < self@.locks.len(),
        ensures
            *r == self@.locks[lock_index as int],
    {
        &self.lock_data[lock_index]
    }

    /// Returns the event descriptor at the given index.
    pub fn get_event(&self, event_index: usize) -> (r: &GenericEvent)
        requires
            event_index < self@.events.len(),
        ensures
            *r == self@.events[event_index as int],
    {
        &self.event_data[event_index]
    }

    /// What `open` should attach through: the requested OS name if one was
    /// set, else the link file to read one from; with neither, nothing can
    /// be opened.
    pub fn open_target(&self) -> (r: Result<OpenTarget, SharedMemError>)
        ensures
            match r {
                Ok(t) => match t {
                    OpenTarget::OsPath(p) => self@.os_path == Some(p@),
                    OpenTarget::LinkFile(p) => self@.os_path is None && self@.link_path == Some(
                        p@,
                    ),
                },
                Err(e) => {
                    &&& e == SharedMemError::LinkDoesNotExist
                    &&& self@.os_path is None
                    &&& self@.link_path is None
                },
            },
    {
        match &self.wanted_os_path {
            Some(p) => Ok(OpenTarget::OsPath(p.clone())),
            None => match &self.link_path {
                Some(p) => Ok(OpenTarget::LinkFile(p.clone())),
                None => Err(SharedMemError::LinkDoesNotExist),
            },
        }
    }

    /// Walks the declared locks and events in order and computes the exact
    /// number of bytes the metadata region occupies, padding included.
    fn calculate_metadata_size(&self) -> (r: usize)
        requires
            spec_meta_size(self@.locks, self@.events) <= usize::MAX,
        ensures
            r == spec_meta_size(self@.locks, self@.events),
    {
        let ghost locks = self.lock_data@;
        let ghost events = self.event_data@;
        proof {
            lemma_meta_size_bounds(locks, events);
        }
        let mut meta_size: usize = META_HEADER_SIZE;
        let mut i: usize = 0;
        while i < self.lock_data.len()
            invariant
                i <= locks.len(),
                locks == self.lock_data@,
                events == self.event_data@,
                spec_meta_size(locks, events) <= usize::MAX,
                meta_size == cursor_after_locks(locks.take(i as int)),
            decreases locks.len() - i,
        {
            proof {
                lemma_cursor_locks_step(locks, i as int);
                lemma_cursor_locks_take_le(locks, i as int + 1);
                lemma_cursor_events_lb(locks, events);
                lemma_meta_size_bounds(locks, events);
                lemma_cursor_locks_lb(locks.take(i as int));
                lemma_align8(cursor_after_locks(locks.take(i as int)) + LOCK_HEADER_SIZE);
            }
            meta_size = meta_size + LOCK_HEADER_SIZE;
            align_value(&mut meta_size, crate::ADDR_ALIGN);
            let l = self.lock_data[i];
            meta_size = meta_size + l.lock_type.body_size();
            i = i + 1;
        }
        proof {
            assert(locks.take(locks.len() as int) =~= locks);
        }
        let mut j: usize = 0;
        while j < self.event_data.len()
            invariant
                j <= events.len(),
                locks == self.lock_data@,
                events == self.event_data@,
                spec_meta_size(locks, events) <= usize::MAX,
                meta_size == cursor_after_events(locks, events.take(j as int)),
            decreases events.len() - j,
        {
            proof {
                lemma_cursor_events_step(locks, events, j as int);
                lemma_cursor_events_take_le(locks, events, j as int + 1);
                lemma_meta_size_bounds(locks, events);
                lemma_cursor_events_lb(locks, events.take(j as int));
                lemma_align8(cursor_after_events(locks, events.take(j as int)) + EVENT_HEADER_SIZE);
            }
            meta_size = meta_size + EVENT_HEADER_SIZE;
            align_value(&mut meta_size, crate::ADDR_ALIGN);
            let e = self.event_data[j];
            meta_size = meta_size + e.event_type.body_size();
            j = j + 1;
        }
        proof {
            assert(events.take(events.len() as int) =~= events);
            lemma_cursor_events_lb(locks, events);
        }
        align_value(&mut meta_size, crate::ADDR_ALIGN);
        meta_size
    }

    /// Creates a shared memory mapping image from the current config values:
    /// it computes the authoritative layout, serializes the header and every
    /// descriptor at its computed position, zeroes all padding, bodies and
    /// the user region, and fills in each descriptor's body and data offset.
    /// The embedding program maps `meta_size + user_size` bytes under the
    /// chosen OS name, copies the image in, publishes the name through the
    /// link file if one was requested, and initializes each primitive as its
    /// owner.
    #[verifier::rlimit(100)]
    pub fn create(self) -> (r: Result<SharedMem, SharedMemError>)
        requires
            self.wf(),
            spec_meta_size(self@.locks, self@.events) + self@.size <= usize::MAX,
        ensures
            r is Err <==> self@.size == 0,
            match r {
                Ok(sm) => {
                    &&& attached_wf(sm@)
                    &&& sm@.conf.size == self@.size
                    &&& locks_geom_eq(sm@.conf.locks, self@.locks)
                    &&& events_geom_eq(sm@.conf.events, self@.events)
                    &&& sm@.conf.meta_size == spec_meta_size(self@.locks, self@.events)
                    &&& sm@.conf.owner == (self@.link_path is Some)
                    &&& sm@.conf.overwrite_link == self@.overwrite_link
                    &&& sm@.conf.link_path == self@.link_path
                    &&& sm@.conf.os_path == self@.os_path
                    &&& sm@.data.len() == sm@.conf.meta_size + self@.size
                    &&& (forall|k: int|
                        sm@.conf.meta_size <= k < sm@.data.len() ==> sm@.data[k] == 0u8)
                    &&& parseable(sm@.data, sm@.conf.size, sm@.conf.locks, sm@.conf.events)
                    &&& sm@.user_offset == sm@.conf.meta_size
                    &&& match self@.os_path {
                        Some(p) => sm@.os_path == p,
                        None => is_synth_name(sm@.os_path),
                    }
                },
                Err(e) => e == SharedMemError::MapSizeZero,
            },
    {
        let mut conf = self;
        if conf.size == 0 {
            return Err(SharedMemError::MapSizeZero);
        }
        conf.owner = conf.link_path.is_some();
        let unique_id: String = match &conf.wanted_os_path {
            Some(s) => s.clone(),
            None => synth_os_name(),
        };
        let ghost locks0 = conf.lock_data@;
        let ghost events0 = conf.event_data@;
        let ghost size0 = conf.size;
        let meta_size = conf.calculate_metadata_size();
        proof {
            lemma_meta_size_bounds(locks0, events0);
        }
        let mut buf: Vec<u8> = Vec::new();
        push_u64_le(&mut buf, meta_size as u64);
        let ghost h1 = buf@;
        push_u64_le(&mut buf, conf.size as u64);
        let ghost h2 = buf@;
        push_u64_le(&mut buf, conf.lock_data.len() as u64);
        let ghost h3 = buf@;
        push_u64_le(&mut buf, conf.event_data.len() as u64);
        proof {
            lemma_le64_grow(h1, h2, 0);
            lemma_le64_grow(h2, h3, 0);
            lemma_le64_grow(h2, h3, 8);
            lemma_le64_grow(h3, buf@, 0);
            lemma_le64_grow(h3, buf@, 8);
            lemma_le64_grow(h3, buf@, 16);
        }
        let mut new_locks: Vec<GenericLock> = Vec::new();
        let mut i: usize = 0;
        while i < conf.lock_data.len()
            invariant
                i <= locks0.len(),
                conf.lock_data@ == locks0,
                conf.event_data@ == events0,
                conf.size == size0,
                locks_wf(size0, locks0),
                meta_size == spec_meta_size(locks0, events0),
                meta_size + size0 <= usize::MAX,
                new_locks@.len() == i,
                locks_geom_eq(new_locks@, locks0.take(i as int)),
                forall|k: int|
                    0 <= k < i ==> {
                        &&& (#[trigger] new_locks@[k]).body_offset == lock_body_off(new_locks@, k)
                        &&& (new_locks@[k].body_offset as int) % 8 == 0
                        &&& new_locks@[k].data_offset == meta_size + new_locks@[k].offset
                    },
                buf.len() == cursor_after_locks(new_locks@),
                buf.len() <= meta_size,
                le64_at(buf@, 0, meta_size as u64),
                le64_at(buf@, 8, size0 as u64),
                le64_at(buf@, 16, locks0.len() as u64),
                le64_at(buf@, 24, events0.len() as u64),
                forall|k: int|
                    0 <= k < i ==> #[trigger] lock_hdr_encoded(
                        buf@,
                        lock_hdr_off(new_locks@, k),
                        new_locks@[k],
                    ),
            decreases locks0.len() - i,
        {
            proof {
                lemma_cursor_locks_geom(new_locks@, locks0.take(i as int));
                lemma_cursor_locks_step(locks0, i as int);
                lemma_cursor_locks_take_le(locks0, i as int + 1);
                lemma_cursor_events_lb(locks0, events0);
                lemma_meta_size_bounds(locks0, events0);
                lemma_cursor_locks_lb(locks0.take(i as int));
                lemma_align8(cursor_after_locks(locks0.take(i as int)) + LOCK_HEADER_SIZE);
            }
            let l = conf.lock_data[i];
            let hdr_off = buf.len();
            let ghost nl_pre = new_locks@;
            let ghost b0 = buf@;
            push_lock_header(&mut buf, l.lock_type.uid(), l.offset as u64, l.length as u64);
            let ghost b1 = buf@;
            pad_buf_to_align(&mut buf);
            let body_off = buf.len();
            push_zeros(&mut buf, l.lock_type.body_size());
            proof {
                assert(lock_range_valid_spec(size0, l.offset, l.length));
            }
            let data_off = meta_size + l.offset;
            let new_l = GenericLock {
                lock_type: l.lock_type,
                offset: l.offset,
                length: l.length,
                body_offset: body_off,
                data_offset: data_off,
            };
            new_locks.push(new_l);
            i = i + 1;
            proof {
                assert(forall|k: int| 0 <= k < b1.len() ==> buf@[k] == b1[k]);
                assert(forall|k: int| 0 <= k < b0.len() ==> buf@[k] == b0[k]);
                lemma_le64_grow(b0, buf@, 0);
                lemma_le64_grow(b0, buf@, 8);
                lemma_le64_grow(b0, buf@, 16);
                lemma_le64_grow(b0, buf@, 24);
                assert(new_locks@.drop_last() =~= nl_pre);
                assert(new_locks@.last() == new_l);
                assert forall|k: int| 0 <= k < i - 1 implies #[trigger] lock_hdr_encoded(
                    buf@,
                    lock_hdr_off(new_locks@, k),
                    new_locks@[k],
                ) by {
                    assert(new_locks@[k] == nl_pre[k]);
                    assert(new_locks@.take(k) =~= nl_pre.take(k));
                    lemma_lock_hdr_grow(b0, buf@, lock_hdr_off(nl_pre, k), nl_pre[k]);
                }
                lemma_le64_grow(b1, buf@, hdr_off as int + 8);
                lemma_le64_grow(b1, buf@, hdr_off as int + 16);
                assert(new_locks@.take(i as int - 1) =~= nl_pre);
                assert(lock_hdr_off(new_locks@, i as int - 1) == hdr_off);
                assert(buf@[hdr_off as int] == crate::kinds::lock_uid_spec(l.lock_type));
                assert(lock_hdr_encoded(buf@, hdr_off as int, new_l));
                lemma_align8(hdr_off + LOCK_HEADER_SIZE);
                assert(body_off == align_up(hdr_off + LOCK_HEADER_SIZE, 8));
                assert(buf.len() == cursor_after_locks(new_locks@));
                assert forall|k: int|
                    0 <= k < i implies lock_geom_eq(
                    #[trigger] new_locks@[k],
                    locks0.take(i as int)[k],
                ) by {
                    assert(locks0.take(i as int)[k] == locks0[k]);
                    if k < i - 1 {
                        assert(new_locks@[k] == nl_pre[k]);
                        assert(lock_geom_eq(nl_pre[k], locks0.take(i as int - 1)[k]));
                        assert(locks0.take(i as int - 1)[k] == locks0[k]);
                    }
                }
                assert forall|k: int|
                    0 <= k < i implies {
                    &&& (#[trigger] new_locks@[k]).body_offset == lock_body_off(new_locks@, k)
                    &&& (new_locks@[k].body_offset as int) % 8 == 0
                    &&& new_locks@[k].data_offset == meta_size + new_locks@[k].offset
                } by {
                    if k < i - 1 {
                        assert(new_locks@[k] == nl_pre[k]);
                        assert(new_locks@.take(k) =~= nl_pre.take(k));
                    }
                }
            }
        }
        proof {
            assert(locks0.take(locks0.len() as int) =~= locks0);
        }
        let ghost locksf = new_locks@;
        conf.lock_data = new_locks;
        let mut new_events: Vec<GenericEvent> = Vec::new();
        let mut j: usize = 0;
        while j < conf.event_data.len()
            invariant
                j <= events0.len(),
                conf.lock_data@ == locksf,
                conf.event_data@ == events0,
                conf.size == size0,
                locks_wf(size0, locks0),
                locks_geom_eq(locksf, locks0),
                meta_size == spec_meta_size(locks0, events0),
                meta_size + size0 <= usize::MAX,
                new_events@.len() == j,
                events_geom_eq(new_events@, events0.take(j as int)),
                forall|k: int|
                    0 <= k < j ==> {
                        &&& (#[trigger] new_events@[k]).body_offset == event_body_off(
                            locksf,
                            new_events@,
                            k,
                        )
                        &&& (new_events@[k].body_offset as int) % 8 == 0
                    },
                buf.len() == cursor_after_events(locksf, new_events@),
                buf.len() <= meta_size,
                le64_at(buf@, 0, meta_size as u64),
                le64_at(buf@, 8, size0 as u64),
                le64_at(buf@, 16, locks0.len() as u64),
                le64_at(buf@, 24, events0.len() as u64),
                forall|k: int|
                    0 <= k < locksf.len() ==> #[trigger] lock_hdr_encoded(
                        buf@,
                        lock_hdr_off(locksf, k),
                        locksf[k],
                    ),
                forall|k: int|
                    0 <= k < locksf.len() ==> {
                        &&& (#[trigger] locksf[k]).body_offset == lock_body_off(locksf, k)
                        &&& (locksf[k].body_offset as int) % 8 == 0
                        &&& locksf[k].data_offset == meta_size + locksf[k].offset
                    },
                forall|k: int|
                    0 <= k < j ==> #[trigger] event_hdr_encoded(
                        buf@,
                        event_hdr_off(locksf, new_events@, k),
                        new_events@[k],
                    ),
            decreases events0.len() - j,
        {
            proof {
                lemma_cursor_events_geom(locksf, new_events@, locks0, events0.take(j as int));
                lemma_cursor_events_step(locks0, events0, j as int);
                lemma_cursor_events_take_le(locks0, events0, j as int + 1);
                lemma_meta_size_bounds(locks0, events0);
                lemma_cursor_events_lb(locks0, events0.take(j as int));
                lemma_align8(cursor_after_events(locks0, events0.take(j as int)) + EVENT_HEADER_SIZE);
            }
            let e = conf.event_data[j];
            let hdr_off = buf.len();
            let ghost ne_pre = new_events@;
            let ghost b0 = buf@;
            buf.push(e.event_type.uid());
            let ghost b1 = buf@;
            pad_buf_to_align(&mut buf);
            let body_off = buf.len();
            push_zeros(&mut buf, e.event_type.body_size());
            let new_e = GenericEvent { event_type: e.event_type, body_offset: body_off };
            new_events.push(new_e);
            j = j + 1;
            proof {
                assert(forall|k: int| 0 <= k < b1.len() ==> buf@[k] == b1[k]);
                assert(forall|k: int| 0 <= k < b0.len() ==> buf@[k] == b0[k]);
                lemma_le64_grow(b0, buf@, 0);
                lemma_le64_grow(b0, buf@, 8);
                lemma_le64_grow(b0, buf@, 16);
                lemma_le64_grow(b0, buf@, 24);
                assert(new_events@.drop_last() =~= ne_pre);
                assert(new_events@.last() == new_e);
                assert forall|k: int| 0 <= k < locksf.len() implies #[trigger] lock_hdr_encoded(
                    buf@,
                    lock_hdr_off(locksf, k),
                    locksf[k],
                ) by {
                    lemma_lock_hdr_grow(b0, buf@, lock_hdr_off(locksf, k), locksf[k]);
                }
                assert forall|k: int| 0 <= k < j - 1 implies #[trigger] event_hdr_encoded(
                    buf@,
                    event_hdr_off(locksf, new_events@, k),
                    new_events@[k],
                ) by {
                    assert(new_events@[k] == ne_pre[k]);
                    assert(new_events@.take(k) =~= ne_pre.take(k));
                    assert(event_hdr_encoded(b0, event_hdr_off(locksf, ne_pre, k), ne_pre[k]));
                }
                assert(new_events@.take(j as int - 1) =~= ne_pre);
                assert(event_hdr_off(locksf, new_events@, j as int - 1) == hdr_off);
                assert(buf@[hdr_off as int] == crate::kinds::event_uid_spec(e.event_type));
                assert(event_hdr_encoded(buf@, hdr_off as int, new_e));
                lemma_align8(hdr_off + EVENT_HEADER_SIZE);
                assert(body_off == align_up(hdr_off + EVENT_HEADER_SIZE, 8));
                assert(buf.len() == cursor_after_events(locksf, new_events@));
                assert forall|k: int|
                    0 <= k < j implies (#[trigger] new_events@[k]).event_type == events0.take(
                    j as int,
                )[k].event_type by {
                    assert(events0.take(j as int)[k] == events0[k]);
                    if k < j - 1 {
                        assert(new_events@[k] == ne_pre[k]);
                        assert(ne_pre[k].event_type == events0.take(j as int - 1)[k].event_type);
                        assert(events0.take(j as int - 1)[k] == events0[k]);
                    }
                }
                assert forall|k: int|
                    0 <= k < j implies {
                    &&& (#[trigger] new_events@[k]).body_offset == event_body_off(
                        locksf,
                        new_events@,
                        k,
                    )
                    &&& (new_events@[k].body_offset as int) % 8 == 0
                } by {
                    if k < j - 1 {
                        assert(new_events@[k] == ne_pre[k]);
                        assert(new_events@.take(k) =~= ne_pre.take(k));
                    }
                }
            }
        }
        proof {
            assert(events0.take(events0.len() as int) =~= events0);
        }
        let ghost eventsf = new_events@;
        conf.event_data = new_events;
        let ghost b_pre_pad = buf@;
        pad_buf_to_align(&mut buf);
        proof {
            lemma_cursor_events_geom(locksf, eventsf, locks0, events0);
            lemma_meta_size_bounds(locks0, events0);
            assert(buf.len() == meta_size);
            assert(forall|k: int| 0 <= k < b_pre_pad.len() ==> buf@[k] == b_pre_pad[k]);
            lemma_le64_grow(b_pre_pad, buf@, 0);
            lemma_le64_grow(b_pre_pad, buf@, 8);
            lemma_le64_grow(b_pre_pad, buf@, 16);
            lemma_le64_grow(b_pre_pad, buf@, 24);
            assert forall|k: int| 0 <= k < locksf.len() implies #[trigger] lock_hdr_encoded(
                buf@,
                lock_hdr_off(locksf, k),
                locksf[k],
            ) by {
                lemma_lock_hdr_grow(b_pre_pad, buf@, lock_hdr_off(locksf, k), locksf[k]);
            }
            assert forall|k: int| 0 <= k < eventsf.len() implies #[trigger] event_hdr_encoded(
                buf@,
                event_hdr_off(locksf, eventsf, k),
                eventsf[k],
            ) by {
                assert(event_hdr_encoded(b_pre_pad, event_hdr_off(locksf, eventsf, k), eventsf[k]));
            }
        }
        let ghost b_meta = buf@;
        push_zeros(&mut buf, conf.size);
        proof {
            assert(forall|k: int| 0 <= k < b_meta.len() ==> buf@[k] == b_meta[k]);
            lemma_le64_grow(b_meta, buf@, 0);
            lemma_le64_grow(b_meta, buf@, 8);
            lemma_le64_grow(b_meta, buf@, 16);
            lemma_le64_grow(b_meta, buf@, 24);
            assert forall|k: int| 0 <= k < locksf.len() implies #[trigger] lock_hdr_encoded(
                buf@,
                lock_hdr_off(locksf, k),
                locksf[k],
            ) by {
                lemma_lock_hdr_grow(b_meta, buf@, lock_hdr_off(locksf, k), locksf[k]);
            }
            assert forall|k: int| 0 <= k < eventsf.len() implies #[trigger] event_hdr_encoded(
                buf@,
                event_hdr_off(locksf, eventsf, k),
                eventsf[k],
            ) by {
                assert(event_hdr_encoded(b_meta, event_hdr_off(locksf, eventsf, k), eventsf[k]));
            }
        }
        conf.meta_size = meta_size;
        let sm = SharedMem { conf, data: buf, user_offset: meta_size, os_path: unique_id };
        proof {
            lemma_locks_wf_geom(size0, locks0, locksf);
            assert(meta_region_encoded(sm@.data, size0, locksf, eventsf));
            assert(attached_wf(sm@));
        }
        Ok(sm)
    }

    /// Opens a shared memory mapping image: it parses the header, walks every
    /// descriptor re-validating bounds, kind codes, ranges and overlap at
    /// each step, and rebuilds the configuration the creator declared. Locks
    /// and events declared on this builder are discarded. The embedding
    /// program resolves the OS name (see [`Self::open_target`]), obtains the
    /// mapping bytes, and initializes each primitive as a non-owner.
    ///
    /// Every well-formed image is accepted (the quantified clause), and an
    /// accepted image is exactly a serialization of the configuration that
    /// comes back: parsing is the partial inverse of serialization.
    #[verifier::rlimit(100)]
    pub fn open(self, os_path: &str, map_data: Vec<u8>) -> (r: Result<SharedMem, SharedMemError>)
        ensures
            forall|us: usize, L: Seq<GenericLock>, E: Seq<GenericEvent>|
                #[trigger] parseable(map_data@, us, L, E) ==> r is Ok,
            map_data@.len() < META_HEADER_SIZE ==> r == Err::<SharedMem, SharedMemError>(
                SharedMemError::InvalidHeader,
            ),
            match r {
                Ok(sm) => {
                    &&& attached_wf(sm@)
                    &&& parseable(map_data@, sm@.conf.size, sm@.conf.locks, sm@.conf.events)
                    &&& sm@.data == map_data@
                    &&& sm@.conf.owner == false
                    &&& sm@.conf.overwrite_link == self@.overwrite_link
                    &&& sm@.conf.link_path == self@.link_path
                    &&& sm@.conf.os_path == self@.os_path
                    &&& sm@.user_offset == sm@.conf.meta_size
                    &&& sm@.os_path == os_path@
                    &&& le64_read(map_data@, 0) == sm@.conf.meta_size as u64
                },
                Err(_) => true,
            },
    {
        let mut conf = self;
        conf.lock_data = Vec::new();
        conf.event_data = Vec::new();
        conf.meta_size = META_HEADER_SIZE;
        conf.owner = false;
        let ghost b = map_data@;
        proof {
            assert(conf.lock_data@ =~= Seq::<GenericLock>::empty());
            assert(conf.event_data@ =~= Seq::<GenericEvent>::empty());
        }
        if map_data.len() < META_HEADER_SIZE {
            proof {
                assert forall|us: usize, L: Seq<GenericLock>, E: Seq<GenericEvent>| !#[trigger] parseable(
                    b,
                    us,
                    L,
                    E,
                ) by {
                    if parseable(b, us, L, E) {
                        lemma_meta_size_bounds(L, E);
                    }
                }
            }
            return Err(SharedMemError::InvalidHeader);
        }
        let meta_fld = read_u64_le(&map_data, 0);
        let user_fld = read_u64_le(&map_data, 8);
        let num_locks = read_u64_le(&map_data, 16);
        let num_events = read_u64_le(&map_data, 24);
        let map_len_u64: u64 = map_data.len() as u64;
        if meta_fld > map_len_u64 || user_fld > map_len_u64 - meta_fld || meta_fld
            < META_HEADER_SIZE as u64 {
            proof {
                assert forall|us: usize, L: Seq<GenericLock>, E: Seq<GenericEvent>| !#[trigger] parseable(
                    b,
                    us,
                    L,
                    E,
                ) by {
                    if parseable(b, us, L, E) {
                        lemma_meta_size_bounds(L, E);
                    }
                }
            }
            return Err(SharedMemError::InvalidHeader);
        }
        conf.size = user_fld as usize;
        let user_off: usize = meta_fld as usize;
        let mut cursor: usize = META_HEADER_SIZE;
        proof {
            assert forall|us: usize, L: Seq<GenericLock>, E: Seq<GenericEvent>| #[trigger] parseable(
                b,
                us,
                L,
                E,
            ) implies {
                &&& L.len() == num_locks as int
                &&& E.len() == num_events as int
                &&& us == conf.size
                &&& locks_geom_eq(conf.lock_data@, L.take(0))
            } by {
                lemma_cursor_locks_count(L);
                lemma_cursor_events_count(L, E);
                lemma_meta_size_bounds(L, E);
                assert(L.take(0) =~= Seq::<GenericLock>::empty());
            }
        }
        let mut i: u64 = 0;
        while i < num_locks
            invariant
                i <= num_locks,
                map_data.len() >= META_HEADER_SIZE,
                map_data@ == b,
                meta_fld == le64_read(b, 0),
                user_fld == le64_read(b, 8),
                num_locks == le64_read(b, 16),
                num_events == le64_read(b, 24),
                meta_fld as int + user_fld as int <= map_data.len(),
                meta_fld <= usize::MAX as u64,
                user_off == meta_fld as usize,
                user_off as u64 == meta_fld,
                user_off <= map_data.len(),
                user_off >= META_HEADER_SIZE,
                conf.size as u64 == user_fld,
                conf.wf(),
                conf@.owner == false,
                conf@.overwrite_link == self@.overwrite_link,
                conf@.link_path == self@.link_path,
                conf@.os_path == self@.os_path,
                conf@.size == conf.size,
                conf.event_data@.len() == 0,
                conf.lock_data@.len() == i as int,
                cursor == cursor_after_locks(conf.lock_data@),
                META_HEADER_SIZE <= cursor <= user_off,
                forall|k: int|
                    0 <= k < i ==> #[trigger] lock_hdr_encoded(
                        b,
                        lock_hdr_off(conf.lock_data@, k),
                        conf.lock_data@[k],
                    ),
                forall|k: int|
                    0 <= k < i ==> {
                        &&& (#[trigger] conf.lock_data@[k]).body_offset == lock_body_off(
                            conf.lock_data@,
                            k,
                        )
                        &&& (conf.lock_data@[k].body_offset as int) % 8 == 0
                        &&& conf.lock_data@[k].data_offset == user_off + conf.lock_data@[k].offset
                    },
                forall|us: usize, L: Seq<GenericLock>, E: Seq<GenericEvent>|
                    #[trigger] parseable(b, us, L, E) ==> {
                        &&& L.len() == num_locks as int
                        &&& E.len() == num_events as int
                        &&& us == conf.size
                        &&& locks_geom_eq(conf.lock_data@, L.take(i as int))
                    },
            decreases num_locks - i,
        {
            let ghost locks_pre = conf.lock_data@;
            let ghost c0 = cursor;
            proof {
                assert forall|us: usize, L: Seq<GenericLock>, E: Seq<GenericEvent>| #[trigger] parseable(
                    b,
                    us,
                    L,
                    E,
                ) implies {
                    &&& (i as int) < L.len()
                    &&& lock_hdr_off(L, i as int) == c0
                    &&& lock_hdr_encoded(b, c0 as int, L[i as int])
                    &&& align_up(c0 + LOCK_HEADER_SIZE, 8) == lock_body_off(L, i as int)
                    &&& lock_body_off(L, i as int) + lock_body_size_spec(L[i as int].lock_type)
                        == cursor_after_locks(L.take(i as int + 1))
                    &&& cursor_after_locks(L.take(i as int + 1)) <= user_off
                    &&& lock_range_valid_spec(us, L[i as int].offset, L[i as int].length)
                    &&& (forall|q: int|
                        0 <= q < i as int && (#[trigger] L[q]).length > 0 && L[i as int].length > 0
                            ==> locks_disjoint_spec(L[q], L[i as int]))
                } by {
                    lemma_cursor_locks_geom(locks_pre, L.take(i as int));
                    lemma_cursor_locks_step(L, i as int);
                    lemma_cursor_locks_take_le(L, i as int + 1);
                    lemma_cursor_events_lb(L, E);
                    lemma_meta_size_bounds(L, E);
                    lemma_cursor_locks_lb(L.take(i as int));
                    lemma_align8(cursor_after_locks(L.take(i as int)) + LOCK_HEADER_SIZE);
                }
            }
            let hdr_off = cursor;
            if !advance_align_checked(&mut cursor, LOCK_HEADER_SIZE, user_off) {
                proof {
                    assert forall|us: usize, L: Seq<GenericLock>, E: Seq<GenericEvent>| !#[trigger] parseable(
                        b,
                        us,
                        L,
                        E,
                    ) by {
                        if parseable(b, us, L, E) {
                            lemma_align8(c0 + LOCK_HEADER_SIZE);
                        }
                    }
                }
                return Err(SharedMemError::InvalidHeader);
            }
            let uid = map_data[hdr_off];
            let offset_fld = read_u64_le(&map_data, hdr_off + 8);
            let length_fld = read_u64_le(&map_data, hdr_off + 16);
            let lock_type = match LockType::from_uid(uid) {
                Some(t) => t,
                None => {
                    proof {
                        assert forall|us: usize, L: Seq<GenericLock>, E: Seq<GenericEvent>| !#[trigger] parseable(
                            b,
                            us,
                            L,
                            E,
                        ) by {}
                    }
                    return Err(SharedMemError::InvalidHeader);
                },
            };
            if offset_fld > usize::MAX as u64 || length_fld > usize::MAX as u64 {
                proof {
                    assert forall|us: usize, L: Seq<GenericLock>, E: Seq<GenericEvent>| !#[trigger] parseable(
                        b,
                        us,
                        L,
                        E,
                    ) by {}
                }
                return Err(SharedMemError::InvalidHeader);
            }
            let offset = offset_fld as usize;
            let length = length_fld as usize;
            let data_off: usize = if offset <= conf.size {
                user_off + offset
            } else {
                0
            };
            match conf.add_lock_impl(lock_type, offset, length, cursor, data_off) {
                Ok(()) => {},
                Err(e) => {
                    proof {
                        assert forall|us: usize, L: Seq<GenericLock>, E: Seq<GenericEvent>| !#[trigger] parseable(
                            b,
                            us,
                            L,
                            E,
                        ) by {
                            if parseable(b, us, L, E) {
                                assert(locks_geom_eq(locks_pre, L.take(i as int)));
                                assert(forall|q: int|
                                    0 <= q < i as int ==> lock_geom_eq(
                                        #[trigger] locks_pre[q],
                                        L.take(i as int)[q],
                                    ));
                                assert(forall|q: int|
                                    0 <= q < i as int ==> L.take(i as int)[q] == L[q]);
                            }
                        }
                    }
                    return Err(e);
                },
            }
            let body_size = lock_type.body_size();
            if user_off - cursor < body_size {
                proof {
                    assert forall|us: usize, L: Seq<GenericLock>, E: Seq<GenericEvent>| !#[trigger] parseable(
                        b,
                        us,
                        L,
                        E,
                    ) by {}
                }
                return Err(SharedMemError::InvalidHeader);
            }
            let ghost body_off = cursor;
            cursor = cursor + body_size;
            i = i + 1;
            proof {
                assert(conf.lock_data@.drop_last() =~= locks_pre);
                let nl = conf.lock_data@.last();
                assert(nl.lock_type == lock_type && nl.offset == offset && nl.length == length
                    && nl.body_offset == body_off && nl.data_offset == data_off);
                assert(conf.lock_data@.take(i as int - 1) =~= locks_pre);
                assert(lock_hdr_off(conf.lock_data@, i as int - 1) == c0);
                lemma_cursor_locks_step(conf.lock_data@, i as int - 1);
                assert(cursor == cursor_after_locks(conf.lock_data@));
                lemma_align8(c0 + LOCK_HEADER_SIZE);
                assert(lock_range_valid_spec(conf.size, offset, length));
                assert(offset <= conf.size);
                assert(lock_hdr_encoded(b, c0 as int, nl));
                assert forall|k: int| 0 <= k < i implies #[trigger] lock_hdr_encoded(
                    b,
                    lock_hdr_off(conf.lock_data@, k),
                    conf.lock_data@[k],
                ) by {
                    if k < i - 1 {
                        assert(conf.lock_data@[k] == locks_pre[k]);
                        assert(conf.lock_data@.take(k) =~= locks_pre.take(k));
                    }
                }
                assert forall|k: int|
                    0 <= k < i implies {
                    &&& (#[trigger] conf.lock_data@[k]).body_offset == lock_body_off(
                        conf.lock_data@,
                        k,
                    )
                    &&& (conf.lock_data@[k].body_offset as int) % 8 == 0
                    &&& conf.lock_data@[k].data_offset == user_off + conf.lock_data@[k].offset
                } by {
                    if k < i - 1 {
                        assert(conf.lock_data@[k] == locks_pre[k]);
                        assert(conf.lock_data@.take(k) =~= locks_pre.take(k));
                    }
                }
                assert forall|us: usize, L: Seq<GenericLock>, E: Seq<GenericEvent>| #[trigger] parseable(
                    b,
                    us,
                    L,
                    E,
                ) implies locks_geom_eq(conf.lock_data@, L.take(i as int)) by {
                    assert(lock_hdr_encoded(b, c0 as int, L[i as int - 1]));
                    assert(lock_geom_eq(nl, L[i as int - 1]));
                    assert forall|q: int|
                        0 <= q < i implies lock_geom_eq(
                        #[trigger] conf.lock_data@[q],
                        L.take(i as int)[q],
                    ) by {
                        assert(L.take(i as int)[q] == L[q]);
                        if q < i - 1 {
                            assert(conf.lock_data@[q] == locks_pre[q]);
                            assert(lock_geom_eq(locks_pre[q], L.take(i as int - 1)[q]));
                            assert(L.take(i as int - 1)[q] == L[q]);
                        }
                    }
                }
            }
        }
        proof {
            assert forall|us: usize, L: Seq<GenericLock>, E: Seq<GenericEvent>| #[trigger] parseable(
                b,
                us,
                L,
                E,
            ) implies locks_geom_eq(conf.lock_data@, L) by {
                assert(L.take(L.len() as int) =~= L);
            }
        }
        let ghost locksf = conf.lock_data@;
        let mut j: u64 = 0;
        while j < num_events
            invariant
                j <= num_events,
                map_data.len() >= META_HEADER_SIZE,
                map_data@ == b,
                meta_fld == le64_read(b, 0),
                user_fld == le64_read(b, 8),
                num_locks == le64_read(b, 16),
                num_events == le64_read(b, 24),
                meta_fld as int + user_fld as int <= map_data.len(),
                meta_fld <= usize::MAX as u64,
                user_off == meta_fld as usize,
                user_off as u64 == meta_fld,
                user_off <= map_data.len(),
                user_off >= META_HEADER_SIZE,
                conf.size as u64 == user_fld,
                conf.wf(),
                conf@.owner == false,
                conf@.overwrite_link == self@.overwrite_link,
                conf@.link_path == self@.link_path,
                conf@.os_path == self@.os_path,
                conf@.size == conf.size,
                conf.lock_data@ == locksf,
                locksf.len() == num_locks as int,
                conf.event_data@.len() == j as int,
                cursor == cursor_after_events(locksf, conf.event_data@),
                META_HEADER_SIZE <= cursor <= user_off,
                forall|k: int|
                    0 <= k < locksf.len() ==> #[trigger] lock_hdr_encoded(
                        b,
                        lock_hdr_off(locksf, k),
                        locksf[k],
                    ),
                forall|k: int|
                    0 <= k < locksf.len() ==> {
                        &&& (#[trigger] locksf[k]).body_offset == lock_body_off(locksf, k)
                        &&& (locksf[k].body_offset as int) % 8 == 0
                        &&& locksf[k].data_offset == user_off + locksf[k].offset
                    },
                forall|k: int|
                    0 <= k < j ==> #[trigger] event_hdr_encoded(
                        b,
                        event_hdr_off(locksf, conf.event_data@, k),
                        conf.event_data@[k],
                    ),
                forall|k: int|
                    0 <= k < j ==> {
                        &&& (#[trigger] conf.event_data@[k]).body_offset == event_body_off(
                            locksf,
                            conf.event_data@,
                            k,
                        )
                        &&& (conf.event_data@[k].body_offset as int) % 8 == 0
                    },
                forall|us: usize, L: Seq<GenericLock>, E: Seq<GenericEvent>|
                    #[trigger] parseable(b, us, L, E) ==> {
                        &&& L.len() == num_locks as int
                        &&& E.len() == num_events as int
                        &&& us == conf.size
                        &&& locks_geom_eq(locksf, L)
                        &&& events_geom_eq(conf.event_data@, E.take(j as int))
                    },
            decreases num_events - j,
        {
            let ghost events_pre = conf.event_data@;
            let ghost c0 = cursor;
            proof {
                assert forall|us: usize, L: Seq<GenericLock>, E: Seq<GenericEvent>| #[trigger] parseable(
                    b,
                    us,
                    L,
                    E,
                ) implies {
                    &&& (j as int) < E.len()
                    &&& event_hdr_off(L, E, j as int) == c0
                    &&& event_hdr_encoded(b, c0 as int, E[j as int])
                    &&& align_up(c0 + EVENT_HEADER_SIZE, 8) == event_body_off(L, E, j as int)
                    &&& event_body_off(L, E, j as int) + event_body_size_spec(
                        E[j as int].event_type,
                    ) == cursor_after_events(L, E.take(j as int + 1))
                    &&& cursor_after_events(L, E.take(j as int + 1)) <= user_off
                } by {
                    lemma_cursor_events_geom(locksf, events_pre, L, E.take(j as int));
                    lemma_cursor_events_step(L, E, j as int);
                    lemma_cursor_events_take_le(L, E, j as int + 1);
                    lemma_meta_size_bounds(L, E);
                    lemma_cursor_events_lb(L, E.take(j as int));
                    lemma_align8(cursor_after_events(L, E.take(j as int)) + EVENT_HEADER_SIZE);
                }
            }
            let hdr_off = cursor;
            if !advance_align_checked(&mut cursor, EVENT_HEADER_SIZE, user_off) {
                proof {
                    assert forall|us: usize, L: Seq<GenericLock>, E: Seq<GenericEvent>| !#[trigger] parseable(
                        b,
                        us,
                        L,
                        E,
                    ) by {
                        if parseable(b, us, L, E) {
                            lemma_align8(c0 + EVENT_HEADER_SIZE);
                        }
                    }
                }
                return Err(SharedMemError::InvalidHeader);
            }
            let uid = map_data[hdr_off];
            let event_type = match EventType::from_uid(uid) {
                Some(t) => t,
                None => {
                    proof {
                        assert forall|us: usize, L: Seq<GenericLock>, E: Seq<GenericEvent>| !#[trigger] parseable(
                            b,
                            us,
                            L,
                            E,
                        ) by {}
                    }
                    return Err(SharedMemError::InvalidHeader);
                },
            };
            match conf.add_event_impl(event_type, cursor) {
                Ok(()) => {},
                Err(e) => {
                    return Err(e);
                },
            }
            let body_size = event_type.body_size();
            if body_size != 0 {
                if user_off - cursor < body_size {
                    proof {
                        assert forall|us: usize, L: Seq<GenericLock>, E: Seq<GenericEvent>| !#[trigger] parseable(
                            b,
                            us,
                            L,
                            E,
                        ) by {}
                    }
                    return Err(SharedMemError::InvalidHeader);
                }
                cursor = cursor + body_size;
            }
            let ghost body_off = align_up(c0 + EVENT_HEADER_SIZE, 8);
            j = j + 1;
            proof {
                assert(conf.event_data@.drop_last() =~= events_pre);
                let ne = conf.event_data@.last();
                assert(ne.event_type == event_type && ne.body_offset as int == body_off);
                assert(conf.event_data@.take(j as int - 1) =~= events_pre);
                assert(event_hdr_off(locksf, conf.event_data@, j as int - 1) == c0);
                lemma_cursor_events_step(locksf, conf.event_data@, j as int - 1);
                assert(cursor == cursor_after_events(locksf, conf.event_data@));
                lemma_align8(c0 + EVENT_HEADER_SIZE);
                assert(event_hdr_encoded(b, c0 as int, ne));
                assert forall|k: int| 0 <= k < j implies #[trigger] event_hdr_encoded(
                    b,
                    event_hdr_off(locksf, conf.event_data@, k),
                    conf.event_data@[k],
                ) by {
                    if k < j - 1 {
                        assert(conf.event_data@[k] == events_pre[k]);
                        assert(conf.event_data@.take(k) =~= events_pre.take(k));
                    }
                }
                assert forall|k: int|
                    0 <= k < j implies {
                    &&& (#[trigger] conf.event_data@[k]).body_offset == event_body_off(
                        locksf,
                        conf.event_data@,
                        k,
                    )
                    &&& (conf.event_data@[k].body_offset as int) % 8 == 0
                } by {
                    if k < j - 1 {
                        assert(conf.event_data@[k] == events_pre[k]);
                        assert(conf.event_data@.take(k) =~= events_pre.take(k));
                    }
                }
                assert forall|us: usize, L: Seq<GenericLock>, E: Seq<GenericEvent>| #[trigger] parseable(
                    b,
                    us,
                    L,
                    E,
                ) implies events_geom_eq(conf.event_data@, E.take(j as int)) by {
                    assert(event_hdr_encoded(b, c0 as int, E[j as int - 1]));
                    assert(ne.event_type == E[j as int - 1].event_type);
                    assert forall|q: int|
                        0 <= q < j implies (#[trigger] conf.event_data@[q]).event_type == E.take(
                        j as int,
                    )[q].event_type by {
                        assert(E.take(j as int)[q] == E[q]);
                        if q < j - 1 {
                            assert(conf.event_data@[q] == events_pre[q]);
                            assert(events_pre[q].event_type == E.take(j as int - 1)[q].event_type);
                            assert(E.take(j as int - 1)[q] == E[q]);
                        }
                    }
                }
            }
        }
        let ghost eventsf = conf.event_data@;
        proof {
            assert forall|us: usize, L: Seq<GenericLock>, E: Seq<GenericEvent>| #[trigger] parseable(
                b,
                us,
                L,
                E,
            ) implies align_up(cursor as int, 8) == user_off && cursor_after_events(locksf, eventsf)
                == cursor by {
                assert(E.take(E.len() as int) =~= E);
                assert(events_geom_eq(eventsf, E));
                lemma_cursor_events_geom(locksf, eventsf, L, E);
                lemma_meta_size_bounds(L, E);
            }
        }
        if !advance_align_checked(&mut cursor, 0, user_off) {
            proof {
                assert forall|us: usize, L: Seq<GenericLock>, E: Seq<GenericEvent>| !#[trigger] parseable(
                    b,
                    us,
                    L,
                    E,
                ) by {}
            }
            return Err(SharedMemError::InvalidHeader);
        }
        if cursor != user_off {
            proof {
                assert forall|us: usize, L: Seq<GenericLock>, E: Seq<GenericEvent>| !#[trigger] parseable(
                    b,
                    us,
                    L,
                    E,
                ) by {}
            }
            return Err(SharedMemError::InvalidHeader);
        }
        conf.meta_size = cursor;
        let sm = SharedMem { conf, data: map_data, user_offset: cursor, os_path: os_path.to_owned() };
        proof {
            lemma_meta_size_bounds(locksf, eventsf);
            assert(sm@.conf.meta_size == spec_meta_size(locksf, eventsf));
            assert(le64_at(b, 0, spec_meta_size(locksf, eventsf) as u64));
            assert(meta_region_encoded(b, sm@.conf.size, locksf, eventsf));
            assert(attached_wf(sm@));
            assert(parseable(b, sm@.conf.size, locksf, eventsf));
        }
        Ok(sm)
    }
}

impl Default for SharedMemConf {
    /// An empty configuration: no user bytes, no locks, no events, and a
    /// tally holding just the metadata header.
    fn default() -> (r: Self)
        ensures
            r.wf(),
            r@.owner == false,
            r@.overwrite_link == false,
            r@.link_path is None,
            r@.os_path is None,
            r@.size == 0,
            r@.meta_size == META_HEADER_SIZE,
            r@.locks == Seq::<GenericLock>::empty(),
            r@.events == Seq::<GenericEvent>::empty(),
    {
        let r = SharedMemConf {
            owner: false,
            overwrite_existing_link: false,
            link_path: None,
            wanted_os_path: None,
            size: 0,
            meta_size: META_HEADER_SIZE,
            lock_data: Vec::new(),
            event_data: Vec::new(),
        };
        proof {
            assert(r@.locks =~= Seq::<GenericLock>::empty());
            assert(r@.events =~= Seq::<GenericEvent>::empty());
        }
        r
    }
}

/// An attached shared-memory region: the parsed configuration, the mapping
/// image, the user region's offset in it, and the OS name the mapping lives
/// under.
#[derive(Debug)]
pub struct SharedMem {
    conf: SharedMemConf,
    data: Vec<u8>,
    user_offset: usize,
    os_path: String,
}

/// The abstract state of an attached region.
pub ghost struct MemView {
    pub conf: ConfView,
    pub data: Seq<u8>,
    pub user_offset: usize,
    pub os_path: Seq<char>,
}

impl View for SharedMem {
    type V = MemView;

    closed spec fn view(&self) -> MemView {
        MemView {
            conf: self.conf@,
            data: self.data@,
            user_offset: self.user_offset,
            os_path: self.os_path@,
        }
    }
}

/// What holds of every attached region, created or opened: the configuration
/// is valid, its `meta_size` is the authoritative layout size, every
/// descriptor offset is the one the layout assigns — each body and the user
/// region aligned — and the mapping image carries the serialized metadata.
pub open spec fn attached_wf(m: MemView) -> bool {
    &&& locks_wf(m.conf.size, m.conf.locks)
    &&& m.conf.meta_size == spec_meta_size(m.conf.locks, m.conf.events)
    &&& m.user_offset == m.conf.meta_size
    &&& (m.conf.meta_size as int) % (crate::ADDR_ALIGN as int) == 0
    &&& forall|i: int|
        0 <= i < m.conf.locks.len() ==> {
            &&& (#[trigger] m.conf.locks[i]).body_offset == lock_body_off(m.conf.locks, i)
            &&& (m.conf.locks[i].body_offset as int) % (crate::ADDR_ALIGN as int) == 0
            &&& m.conf.locks[i].data_offset == m.conf.meta_size + m.conf.locks[i].offset
        }
    &&& forall|j: int|
        0 <= j < m.conf.events.len() ==> {
            &&& (#[trigger] m.conf.events[j]).body_offset == event_body_off(
                m.conf.locks,
                m.conf.events,
                j,
            )
            &&& (m.conf.events[j].body_offset as int) % (crate::ADDR_ALIGN as int) == 0
        }
    &&& m.conf.meta_size + m.conf.size <= m.data.len()
    &&& meta_region_encoded(m.data, m.conf.size, m.conf.locks, m.conf.events)
}

impl SharedMem {
    /// The configuration describing this region.
    pub fn get_conf(&self) -> (r: &SharedMemConf)
        ensures
            r@ == self@.conf,
    {
        &self.conf
    }

    /// The OS name the mapping lives under.
    pub fn get_os_path(&self) -> (r: &str)
        ensures
            r@ == self@.os_path,
    {
        self.os_path.as_str()
    }

    /// The full mapping image: metadata region followed by the user region.
    pub fn get_map_data(&self) -> (r: &Vec<u8>)
        ensures
            r@ == self@.data,
    {
        &self.data
    }

    /// The byte offset of the user region inside the mapping.
    pub fn get_user_offset(&self) -> (r: usize)
        ensures
            r == self@.user_offset,
    {
        self.user_offset
    }

    /// Takes the mapping image out of the handle.
    pub fn into_map_data(self) -> (r: Vec<u8>)
        ensures
            r@ == self@.data,
    {
        self.data
    }
}


} // verus!
