//! The metadata layout: alignment, little-endian fields, the byte positions
//! of every header and body, and the predicate that says a byte region
//! encodes a given configuration.
//!
//! The metadata region is laid out as
//!
//! ```text
//! MetaDataHeader (32 bytes): u64 meta_size, u64 user_size,
//!                            u64 num_locks, u64 num_events
//! per lock:  LockHeader (24 bytes: u8 uid, 7 pad bytes,
//!            u64 offset, u64 length), pad to ADDR_ALIGN, lock body
//! per event: EventHeader (1 byte: u8 uid), pad to ADDR_ALIGN, event body
//! pad to ADDR_ALIGN, then the user region
//! ```
//!
//! with every integer little-endian and every body and the user region
//! starting at a multiple of [`crate::ADDR_ALIGN`].

use vstd::prelude::*;

use crate::kinds::{
    event_body_size_spec, event_uid_spec, lock_body_size_spec, lock_uid_spec, GenericEvent,
    GenericLock,
};
use crate::ADDR_ALIGN;

verus! {

/// Size in bytes of the serialized `MetaDataHeader`.
pub const META_HEADER_SIZE: usize = 32;

/// Size in bytes of one serialized `LockHeader`.
pub const LOCK_HEADER_SIZE: usize = 24;

/// Size in bytes of one serialized `EventHeader`.
pub const EVENT_HEADER_SIZE: usize = 1;

/// `pos` rounded up to the next multiple of `align`.
pub open spec fn align_up(pos: int, align: int) -> int
    recommends
        0 <= pos,
        0 < align,
{
    if pos % align == 0 {
        pos
    } else {
        pos + (align - pos % align)
    }
}

/// Rounding up to the pointer alignment moves a position forward by less than
/// one alignment unit and lands on a multiple of it.
pub proof fn lemma_align8(pos: int)
    requires
        0 <= pos,
    ensures
        pos <= align_up(pos, 8) < pos + 8,
        align_up(pos, 8) % 8 == 0,
{
}

/// Changes `val` to the next multiple of `align`, returning the number of pad
/// bytes that were required to align it.
pub fn align_value(val: &mut usize, align: u8) -> (pad: u8)
    requires
        0 < align,
        align_up(*old(val) as int, align as int) <= usize::MAX,
    ensures
        *final(val) == align_up(*old(val) as int, align as int),
        pad == *final(val) - *old(val),
        pad < align,
{
    let rem: usize = *val % (align as usize);
    if rem != 0 {
        let pad: usize = align as usize - rem;
        *val = *val + pad;
        pad as u8
    } else {
        0
    }
}

/// The little-endian 64-bit value stored at `b[off .. off + 8]`.
pub open spec fn le64_read(b: Seq<u8>, off: int) -> u64
    recommends
        0 <= off,
        off + 8 <= b.len(),
{
    (b[off] as u64) | ((b[off + 1] as u64) << 8u64) | ((b[off + 2] as u64) << 16u64) | ((b[off
        + 3] as u64) << 24u64) | ((b[off + 4] as u64) << 32u64) | ((b[off + 5] as u64) << 40u64)
        | ((b[off + 6] as u64) << 48u64) | ((b[off + 7] as u64) << 56u64)
}

/// `v` is stored little-endian at `b[off .. off + 8]`, in bounds.
pub open spec fn le64_at(b: Seq<u8>, off: int, v: u64) -> bool {
    &&& 0 <= off
    &&& off + 8 <= b.len()
    &&& le64_read(b, off) == v
}

proof fn lemma_le64_assemble(v: u64, b0: u8, b1: u8, b2: u8, b3: u8, b4: u8, b5: u8, b6: u8, b7: u8)
    by (bit_vector)
    requires
        b0 == (v & 0xff) as u8,
        b1 == ((v >> 8u64) & 0xff) as u8,
        b2 == ((v >> 16u64) & 0xff) as u8,
        b3 == ((v >> 24u64) & 0xff) as u8,
        b4 == ((v >> 32u64) & 0xff) as u8,
        b5 == ((v >> 40u64) & 0xff) as u8,
        b6 == ((v >> 48u64) & 0xff) as u8,
        b7 == ((v >> 56u64) & 0xff) as u8,
    ensures
        (b0 as u64) | ((b1 as u64) << 8u64) | ((b2 as u64) << 16u64) | ((b3 as u64) << 24u64) | ((
        b4 as u64) << 32u64) | ((b5 as u64) << 40u64) | ((b6 as u64) << 48u64) | ((b7 as u64)
            << 56u64) == v,
{
}

/// Appends the eight little-endian bytes of `v` to `buf`.
pub fn push_u64_le(buf: &mut Vec<u8>, v: u64)
    requires
        old(buf).len() + 8 <= usize::MAX,
    ensures
        final(buf).len() == old(buf).len() + 8,
        forall|k: int| 0 <= k < old(buf).len() ==> final(buf)@[k] == old(buf)@[k],
        le64_at(final(buf)@, old(buf).len() as int, v),
{
    let b0: u8 = (v & 0xff) as u8;
    let b1: u8 = ((v >> 8u64) & 0xff) as u8;
    let b2: u8 = ((v >> 16u64) & 0xff) as u8;
    let b3: u8 = ((v >> 24u64) & 0xff) as u8;
    let b4: u8 = ((v >> 32u64) & 0xff) as u8;
    let b5: u8 = ((v >> 40u64) & 0xff) as u8;
    let b6: u8 = ((v >> 48u64) & 0xff) as u8;
    let b7: u8 = ((v >> 56u64) & 0xff) as u8;
    buf.push(b0);
    buf.push(b1);
    buf.push(b2);
    buf.push(b3);
    buf.push(b4);
    buf.push(b5);
    buf.push(b6);
    buf.push(b7);
    proof {
        lemma_le64_assemble(v, b0, b1, b2, b3, b4, b5, b6, b7);
        assert(final(buf)@.subrange(0, old(buf).len() as int) =~= old(buf)@);
    }
}

/// Reads the little-endian 64-bit value at `b[off .. off + 8]`.
pub fn read_u64_le(b: &Vec<u8>, off: usize) -> (r: u64)
    requires
        off + 8 <= b.len(),
    ensures
        r == le64_read(b@, off as int),
{
    (b[off] as u64) | ((b[off + 1] as u64) << 8u64) | ((b[off + 2] as u64) << 16u64) | ((b[off
        + 3] as u64) << 24u64) | ((b[off + 4] as u64) << 32u64) | ((b[off + 5] as u64) << 40u64)
        | ((b[off + 6] as u64) << 48u64) | ((b[off + 7] as u64) << 56u64)
}

/// Appends `n` zero bytes to `buf`.
pub fn push_zeros(buf: &mut Vec<u8>, n: usize)
    requires
        old(buf).len() + n <= usize::MAX,
    ensures
        final(buf).len() == old(buf).len() + n,
        forall|k: int| 0 <= k < old(buf).len() ==> final(buf)@[k] == old(buf)@[k],
        forall|k: int| old(buf).len() <= k < final(buf).len() ==> final(buf)@[k] == 0u8,
{
    let mut i: usize = 0;
    while i < n
        invariant
            i <= n,
            buf.len() == old(buf).len() + i,
            buf@.subrange(0, old(buf).len() as int) =~= old(buf)@,
            forall|k: int| old(buf).len() <= k < buf.len() ==> buf@[k] == 0u8,
        decreases n - i,
    {
        buf.push(0u8);
        i = i + 1;
        proof {
            assert(buf@.subrange(0, old(buf).len() as int) =~= old(buf)@);
        }
    }
}

/// Appends zero bytes to `buf` until its length is a multiple of the pointer
/// alignment.
pub fn pad_buf_to_align(buf: &mut Vec<u8>)
    requires
        align_up(old(buf).len() as int, 8) <= usize::MAX,
    ensures
        final(buf).len() == align_up(old(buf).len() as int, 8),
        forall|k: int| 0 <= k < old(buf).len() ==> final(buf)@[k] == old(buf)@[k],
        forall|k: int| old(buf).len() <= k < final(buf).len() ==> final(buf)@[k] == 0u8,
{
    let mut pos: usize = buf.len();
    let pad = align_value(&mut pos, ADDR_ALIGN);
    push_zeros(buf, pad as usize);
}

/// Appends one serialized lock header: the kind code, seven pad bytes, then
/// the range offset and length, little-endian.
pub fn push_lock_header(buf: &mut Vec<u8>, uid: u8, offset: u64, length: u64)
    requires
        old(buf).len() + LOCK_HEADER_SIZE <= usize::MAX,
    ensures
        final(buf).len() == old(buf).len() + LOCK_HEADER_SIZE,
        forall|k: int| 0 <= k < old(buf).len() ==> final(buf)@[k] == old(buf)@[k],
        final(buf)@[old(buf).len() as int] == uid,
        le64_at(final(buf)@, old(buf).len() as int + 8, offset),
        le64_at(final(buf)@, old(buf).len() as int + 16, length),
{
    let ghost base = buf.len() as int;
    buf.push(uid);
    push_zeros(buf, 7);
    push_u64_le(buf, offset);
    let ghost b2 = buf@;
    push_u64_le(buf, length);
    proof {
        lemma_le64_grow(b2, buf@, base + 8);
    }
}

/// The cursor position after the headers and bodies of all locks in `locks`,
/// starting just past the metadata header.
pub open spec fn cursor_after_locks(locks: Seq<GenericLock>) -> int
    decreases locks.len(),
{
    if locks.len() == 0 {
        META_HEADER_SIZE as int
    } else {
        align_up(cursor_after_locks(locks.drop_last()) + LOCK_HEADER_SIZE, ADDR_ALIGN as int)
            + lock_body_size_spec(locks.last().lock_type)
    }
}

/// The cursor position after all locks and then the headers and bodies of all
/// events in `events`.
pub open spec fn cursor_after_events(locks: Seq<GenericLock>, events: Seq<GenericEvent>) -> int
    decreases events.len(),
{
    if events.len() == 0 {
        cursor_after_locks(locks)
    } else {
        align_up(
            cursor_after_events(locks, events.drop_last()) + EVENT_HEADER_SIZE,
            ADDR_ALIGN as int,
        ) + event_body_size_spec(events.last().event_type)
    }
}

/// The exact number of bytes the metadata region occupies for the given lock
/// and event sequences: header, per-primitive headers, padding and bodies,
/// padded so that the user region is aligned.
pub open spec fn spec_meta_size(locks: Seq<GenericLock>, events: Seq<GenericEvent>) -> int {
    align_up(cursor_after_events(locks, events), ADDR_ALIGN as int)
}

/// Byte position of the header of lock `i`.
pub open spec fn lock_hdr_off(locks: Seq<GenericLock>, i: int) -> int {
    cursor_after_locks(locks.take(i))
}

/// Byte position of the body of lock `i`.
pub open spec fn lock_body_off(locks: Seq<GenericLock>, i: int) -> int {
    align_up(lock_hdr_off(locks, i) + LOCK_HEADER_SIZE, ADDR_ALIGN as int)
}

/// Byte position of the header of event `j`.
pub open spec fn event_hdr_off(locks: Seq<GenericLock>, events: Seq<GenericEvent>, j: int) -> int {
    cursor_after_events(locks, events.take(j))
}

/// Byte position of the body of event `j`.
pub open spec fn event_body_off(locks: Seq<GenericLock>, events: Seq<GenericEvent>, j: int) -> int {
    align_up(event_hdr_off(locks, events, j) + EVENT_HEADER_SIZE, ADDR_ALIGN as int)
}

/// Unfolds `cursor_after_locks` at prefix length `i`.
pub proof fn lemma_cursor_locks_step(locks: Seq<GenericLock>, i: int)
    requires
        0 <= i < locks.len(),
    ensures
        cursor_after_locks(locks.take(i + 1)) == align_up(
            cursor_after_locks(locks.take(i)) + LOCK_HEADER_SIZE,
            ADDR_ALIGN as int,
        ) + lock_body_size_spec(locks[i].lock_type),
{
    assert(locks.take(i + 1).drop_last() =~= locks.take(i));
    assert(locks.take(i + 1).last() == locks[i]);
}

/// Unfolds `cursor_after_events` at prefix length `j`.
pub proof fn lemma_cursor_events_step(locks: Seq<GenericLock>, events: Seq<GenericEvent>, j: int)
    requires
        0 <= j < events.len(),
    ensures
        cursor_after_events(locks, events.take(j + 1)) == align_up(
            cursor_after_events(locks, events.take(j)) + EVENT_HEADER_SIZE,
            ADDR_ALIGN as int,
        ) + event_body_size_spec(events[j].event_type),
{
    assert(events.take(j + 1).drop_last() =~= events.take(j));
    assert(events.take(j + 1).last() == events[j]);
}

/// The lock cursor never sits before the end of the metadata header.
pub proof fn lemma_cursor_locks_lb(locks: Seq<GenericLock>)
    ensures
        cursor_after_locks(locks) >= META_HEADER_SIZE,
    decreases locks.len(),
{
    if locks.len() > 0 {
        lemma_cursor_locks_lb(locks.drop_last());
        lemma_align8(cursor_after_locks(locks.drop_last()) + LOCK_HEADER_SIZE);
    }
}

/// The event cursor never sits before the lock cursor.
pub proof fn lemma_cursor_events_lb(locks: Seq<GenericLock>, events: Seq<GenericEvent>)
    ensures
        cursor_after_events(locks, events) >= cursor_after_locks(locks),
        cursor_after_events(locks, events) >= META_HEADER_SIZE,
    decreases events.len(),
{
    lemma_cursor_locks_lb(locks);
    if events.len() > 0 {
        lemma_cursor_events_lb(locks, events.drop_last());
        lemma_align8(cursor_after_events(locks, events.drop_last()) + EVENT_HEADER_SIZE);
    }
}

/// The lock cursor grows with the prefix it has covered.
pub proof fn lemma_cursor_locks_take_le(locks: Seq<GenericLock>, i: int)
    requires
        0 <= i <= locks.len(),
    ensures
        cursor_after_locks(locks.take(i)) <= cursor_after_locks(locks),
    decreases locks.len() - i,
{
    if i == locks.len() {
        assert(locks.take(i) =~= locks);
    } else {
        lemma_cursor_locks_step(locks, i);
        lemma_cursor_locks_lb(locks.take(i));
        lemma_align8(cursor_after_locks(locks.take(i)) + LOCK_HEADER_SIZE);
        lemma_cursor_locks_take_le(locks, i + 1);
    }
}

/// The event cursor grows with the prefix it has covered.
pub proof fn lemma_cursor_events_take_le(
    locks: Seq<GenericLock>,
    events: Seq<GenericEvent>,
    j: int,
)
    requires
        0 <= j <= events.len(),
    ensures
        cursor_after_events(locks, events.take(j)) <= cursor_after_events(locks, events),
    decreases events.len() - j,
{
    if j == events.len() {
        assert(events.take(j) =~= events);
    } else {
        lemma_cursor_events_step(locks, events, j);
        lemma_cursor_events_lb(locks, events.take(j));
        lemma_align8(cursor_after_events(locks, events.take(j)) + EVENT_HEADER_SIZE);
        lemma_cursor_events_take_le(locks, events, j + 1);
    }
}

/// The whole metadata region, bounds included, sits after every cursor
/// position reached while walking it.
pub proof fn lemma_meta_size_bounds(locks: Seq<GenericLock>, events: Seq<GenericEvent>)
    ensures
        spec_meta_size(locks, events) >= cursor_after_events(locks, events),
        spec_meta_size(locks, events) >= cursor_after_locks(locks),
        spec_meta_size(locks, events) >= META_HEADER_SIZE,
        spec_meta_size(locks, events) % 8 == 0,
{
    lemma_cursor_events_lb(locks, events);
    lemma_align8(cursor_after_events(locks, events));
}

/// The header of lock `l` is serialized at `b[off .. off + 24]`: its kind
/// code at `off`, its range offset at `off + 8` and its range length at
/// `off + 16`, both little-endian.
pub open spec fn lock_hdr_encoded(b: Seq<u8>, off: int, l: GenericLock) -> bool {
    &&& 0 <= off
    &&& off + LOCK_HEADER_SIZE <= b.len()
    &&& b[off] == lock_uid_spec(l.lock_type)
    &&& le64_read(b, off + 8) == l.offset as u64
    &&& le64_read(b, off + 16) == l.length as u64
}

/// The header of event `e` is serialized at `b[off]`: its kind code.
pub open spec fn event_hdr_encoded(b: Seq<u8>, off: int, e: GenericEvent) -> bool {
    &&& 0 <= off
    &&& off + EVENT_HEADER_SIZE <= b.len()
    &&& b[off] == event_uid_spec(e.event_type)
}

/// The byte region `b` carries a serialized metadata region describing
/// exactly `locks`, `events` and `user_size`: the four header fields, then
/// every lock header and every event header at its computed position.
pub open spec fn meta_region_encoded(
    b: Seq<u8>,
    user_size: usize,
    locks: Seq<GenericLock>,
    events: Seq<GenericEvent>,
) -> bool {
    &&& spec_meta_size(locks, events) <= b.len()
    &&& le64_at(b, 0, spec_meta_size(locks, events) as u64)
    &&& le64_read(b, 8) == user_size as u64
    &&& le64_read(b, 16) == locks.len() as u64
    &&& le64_read(b, 24) == events.len() as u64
    &&& forall|i: int|
        0 <= i < locks.len() ==> lock_hdr_encoded(b, lock_hdr_off(locks, i), #[trigger] locks[i])
    &&& forall|j: int|
        0 <= j < events.len() ==> event_hdr_encoded(
            b,
            event_hdr_off(locks, events, j),
            #[trigger] events[j],
        )
}

/// Two locks describe the same kind and the same byte range.
pub open spec fn lock_geom_eq(a: GenericLock, b: GenericLock) -> bool {
    &&& a.lock_type == b.lock_type
    &&& a.offset == b.offset
    &&& a.length == b.length
}

/// Two lock sequences agree on kinds and byte ranges throughout.
pub open spec fn locks_geom_eq(a: Seq<GenericLock>, b: Seq<GenericLock>) -> bool {
    &&& a.len() == b.len()
    &&& forall|i: int| 0 <= i < a.len() ==> lock_geom_eq(#[trigger] a[i], b[i])
}

/// Two event sequences agree on kinds throughout.
pub open spec fn events_geom_eq(a: Seq<GenericEvent>, b: Seq<GenericEvent>) -> bool {
    &&& a.len() == b.len()
    &&& forall|i: int| 0 <= i < a.len() ==> (#[trigger] a[i]).event_type == b[i].event_type
}

/// The cursor depends on the lock kinds alone.
pub proof fn lemma_cursor_locks_geom(a: Seq<GenericLock>, b: Seq<GenericLock>)
    requires
        locks_geom_eq(a, b),
    ensures
        cursor_after_locks(a) == cursor_after_locks(b),
    decreases a.len(),
{
    if a.len() > 0 {
        assert(locks_geom_eq(a.drop_last(), b.drop_last()));
        lemma_cursor_locks_geom(a.drop_last(), b.drop_last());
        assert(lock_geom_eq(a[a.len() - 1], b[a.len() - 1]));
    }
}

/// The cursor depends on the lock and event kinds alone.
pub proof fn lemma_cursor_events_geom(
    la: Seq<GenericLock>,
    ea: Seq<GenericEvent>,
    lb: Seq<GenericLock>,
    eb: Seq<GenericEvent>,
)
    requires
        locks_geom_eq(la, lb),
        events_geom_eq(ea, eb),
    ensures
        cursor_after_events(la, ea) == cursor_after_events(lb, eb),
        spec_meta_size(la, ea) == spec_meta_size(lb, eb),
    decreases ea.len(),
{
    if ea.len() == 0 {
        lemma_cursor_locks_geom(la, lb);
    } else {
        assert(events_geom_eq(ea.drop_last(), eb.drop_last()));
        lemma_cursor_events_geom(la, ea.drop_last(), lb, eb.drop_last());
        assert(ea[ea.len() - 1].event_type == eb[ea.len() - 1].event_type);
    }
}

/// A little-endian field is unchanged when bytes are only appended.
pub proof fn lemma_le64_grow(b1: Seq<u8>, b2: Seq<u8>, off: int)
    requires
        b1.len() <= b2.len(),
        forall|k: int| 0 <= k < b1.len() ==> b2[k] == b1[k],
        0 <= off,
        off + 8 <= b1.len(),
    ensures
        le64_read(b2, off) == le64_read(b1, off),
{
}

/// A serialized lock header is unchanged when bytes are only appended.
pub proof fn lemma_lock_hdr_grow(b1: Seq<u8>, b2: Seq<u8>, off: int, l: GenericLock)
    requires
        b1.len() <= b2.len(),
        forall|k: int| 0 <= k < b1.len() ==> b2[k] == b1[k],
        lock_hdr_encoded(b1, off, l),
    ensures
        lock_hdr_encoded(b2, off, l),
{
    lemma_le64_grow(b1, b2, off + 8);
    lemma_le64_grow(b1, b2, off + 16);
}

/// Advances `cursor` by `n` bytes and then aligns it, reporting failure
/// instead of ever moving past `limit`.
pub fn advance_align_checked(cursor: &mut usize, n: usize, limit: usize) -> (ok: bool)
    requires
        *old(cursor) <= limit,
    ensures
        ok ==> *final(cursor) == align_up(*old(cursor) + n, 8) && *final(cursor) <= limit,
        !ok ==> align_up(*old(cursor) + n, 8) > limit && *final(cursor) <= limit,
{
    if limit - *cursor < n {
        proof {
            lemma_align8((*cursor + n) as int);
        }
        return false;
    }
    *cursor = *cursor + n;
    let rem: usize = *cursor % 8;
    if rem != 0 {
        let pad: usize = 8 - rem;
        if limit - *cursor < pad {
            return false;
        }
        *cursor = *cursor + pad;
    }
    true
}

/// Each lock costs at least its header; so a bounded region bounds the
/// number of locks it can describe.
pub proof fn lemma_cursor_locks_count(locks: Seq<GenericLock>)
    ensures
        cursor_after_locks(locks) >= META_HEADER_SIZE + LOCK_HEADER_SIZE * locks.len(),
    decreases locks.len(),
{
    if locks.len() > 0 {
        lemma_cursor_locks_count(locks.drop_last());
        lemma_align8(cursor_after_locks(locks.drop_last()) + LOCK_HEADER_SIZE);
    }
}

/// Each event costs at least its header byte.
pub proof fn lemma_cursor_events_count(locks: Seq<GenericLock>, events: Seq<GenericEvent>)
    ensures
        cursor_after_events(locks, events) >= cursor_after_locks(locks) + EVENT_HEADER_SIZE
            * events.len(),
    decreases events.len(),
{
    if events.len() > 0 {
        lemma_cursor_events_count(locks, events.drop_last());
        lemma_cursor_events_lb(locks, events.drop_last());
        lemma_align8(cursor_after_events(locks, events.drop_last()) + EVENT_HEADER_SIZE);
    }
}

/// Lock kind codes are distinct.
pub proof fn lemma_lock_uid_injective(t1: crate::kinds::LockType, t2: crate::kinds::LockType)
    requires
        lock_uid_spec(t1) == lock_uid_spec(t2),
    ensures
        t1 == t2,
{
}

/// Event kind codes are distinct.
pub proof fn lemma_event_uid_injective(t1: crate::kinds::EventType, t2: crate::kinds::EventType)
    requires
        event_uid_spec(t1) == event_uid_spec(t2),
    ensures
        t1 == t2,
{
}

proof fn lemma_locks_decode_unique(b: Seq<u8>, l1: Seq<GenericLock>, l2: Seq<GenericLock>, i: int)
    requires
        l1.len() == l2.len(),
        0 <= i <= l1.len(),
        forall|k: int|
            0 <= k < l1.len() ==> #[trigger] lock_hdr_encoded(b, lock_hdr_off(l1, k), l1[k]),
        forall|k: int|
            0 <= k < l2.len() ==> #[trigger] lock_hdr_encoded(b, lock_hdr_off(l2, k), l2[k]),
    ensures
        forall|k: int| 0 <= k < i ==> lock_geom_eq(#[trigger] l1[k], l2[k]),
        cursor_after_locks(l1.take(i)) == cursor_after_locks(l2.take(i)),
    decreases i,
{
    if i > 0 {
        lemma_locks_decode_unique(b, l1, l2, i - 1);
        let off = lock_hdr_off(l1, i - 1);
        assert(lock_hdr_off(l2, i - 1) == off);
        assert(lock_hdr_encoded(b, off, l1[i - 1]));
        assert(lock_hdr_encoded(b, off, l2[i - 1]));
        lemma_lock_uid_injective(l1[i - 1].lock_type, l2[i - 1].lock_type);
        assert(lock_geom_eq(l1[i - 1], l2[i - 1]));
        lemma_cursor_locks_step(l1, i - 1);
        lemma_cursor_locks_step(l2, i - 1);
    } else {
        assert(l1.take(0) =~= l2.take(0));
    }
}

proof fn lemma_events_decode_unique(
    b: Seq<u8>,
    locks: Seq<GenericLock>,
    e1: Seq<GenericEvent>,
    e2: Seq<GenericEvent>,
    j: int,
)
    requires
        e1.len() == e2.len(),
        0 <= j <= e1.len(),
        forall|k: int|
            0 <= k < e1.len() ==> #[trigger] event_hdr_encoded(b, event_hdr_off(locks, e1, k), e1[k]),
        forall|k: int|
            0 <= k < e2.len() ==> #[trigger] event_hdr_encoded(b, event_hdr_off(locks, e2, k), e2[k]),
    ensures
        forall|k: int| 0 <= k < j ==> (#[trigger] e1[k]).event_type == e2[k].event_type,
        cursor_after_events(locks, e1.take(j)) == cursor_after_events(locks, e2.take(j)),
    decreases j,
{
    if j > 0 {
        lemma_events_decode_unique(b, locks, e1, e2, j - 1);
        let off = event_hdr_off(locks, e1, j - 1);
        assert(event_hdr_off(locks, e2, j - 1) == off);
        assert(event_hdr_encoded(b, off, e1[j - 1]));
        assert(event_hdr_encoded(b, off, e2[j - 1]));
        lemma_event_uid_injective(e1[j - 1].event_type, e2[j - 1].event_type);
        lemma_cursor_events_step(locks, e1, j - 1);
        lemma_cursor_events_step(locks, e2, j - 1);
    } else {
        assert(e1.take(0) =~= e2.take(0));
    }
}

/// Law: a metadata region determines its configuration. Two configurations
/// that one byte region encodes agree on the user size, on every lock's kind
/// and byte range, and on every event's kind; so parsing a well-formed
/// region twice yields equal configurations, and a region written from a
/// configuration parses back to it.
pub proof fn lemma_meta_region_unique(
    b: Seq<u8>,
    us1: usize,
    l1: Seq<GenericLock>,
    e1: Seq<GenericEvent>,
    us2: usize,
    l2: Seq<GenericLock>,
    e2: Seq<GenericEvent>,
)
    requires
        b.len() <= usize::MAX,
        meta_region_encoded(b, us1, l1, e1),
        meta_region_encoded(b, us2, l2, e2),
    ensures
        us1 == us2,
        locks_geom_eq(l1, l2),
        events_geom_eq(e1, e2),
        spec_meta_size(l1, e1) == spec_meta_size(l2, e2),
{
    lemma_cursor_locks_count(l1);
    lemma_cursor_locks_count(l2);
    lemma_cursor_events_count(l1, e1);
    lemma_cursor_events_count(l2, e2);
    lemma_meta_size_bounds(l1, e1);
    lemma_meta_size_bounds(l2, e2);
    assert(l1.len() <= usize::MAX && l2.len() <= usize::MAX);
    assert(e1.len() <= usize::MAX && e2.len() <= usize::MAX);
    assert(l1.len() == l2.len());
    assert(e1.len() == e2.len());
    lemma_locks_decode_unique(b, l1, l2, l1.len() as int);
    assert(locks_geom_eq(l1, l2));
    assert(locks_geom_eq(l2, l1));
    assert forall|k: int| 0 <= k < e2.len() implies event_hdr_encoded(
        b,
        event_hdr_off(l1, e2, k),
        #[trigger] e2[k],
    ) by {
        lemma_cursor_events_geom(l2, e2.take(k), l1, e2.take(k));
    }
    lemma_events_decode_unique(b, l1, e1, e2, e1.len() as int);
    assert(events_geom_eq(e1, e2));
    lemma_cursor_events_geom(l1, e1, l2, e2);
}

} // verus!
