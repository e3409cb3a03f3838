//! The sliding window: a bounded ring buffer of seconds that drops its
//! oldest entry when a new one arrives at a full buffer.

use vstd::prelude::*;
use ringbuf::traits::{Consumer, Observer, RingBuffer};
use ringbuf::HeapRb;
use crate::tally::Second;

verus! {

/// A ring buffer of seconds, oldest first.
#[verifier::external_body]
pub struct Window {
    ring: HeapRb<Second>,
}

/// The seconds that a window holds, oldest first.
pub uninterp spec fn window_items(w: Window) -> Seq<Second>;

/// The number of seconds that a window was made to hold.
pub uninterp spec fn window_capacity(w: Window) -> nat;

/// `s` after `x` has arrived at a window of `capacity` places: `x` is the
/// newest entry, and the oldest one has left if the window was full.
pub open spec fn slide<T>(s: Seq<T>, x: T, capacity: nat) -> Seq<T> {
    if s.len() < capacity {
        s.push(x)
    } else {
        s.drop_first().push(x)
    }
}

/// `HeapRb::new`: an empty ring buffer of the given capacity. The call
/// panics for a capacity of zero, which the precondition leaves out.
#[verifier::external_body]
pub(crate) fn window_new(capacity: usize) -> (w: Window)
    requires
        capacity > 0,
    ensures
        window_items(w) == Seq::<Second>::empty(),
        window_capacity(w) == capacity,
{
    Window { ring: HeapRb::new(capacity) }
}

/// `RingBuffer::push_overwrite`: the item becomes the newest entry; if the
/// buffer held as many items as its capacity, the oldest one is removed
/// first. The capacity stays what it was.
#[verifier::external_body]
pub(crate) fn window_push(w: &mut Window, item: Second)
    ensures
        window_capacity(*final(w)) == window_capacity(*old(w)),
        window_items(*final(w)) == slide(window_items(*old(w)), item, window_capacity(*old(w))),
{
    w.ring.push_overwrite(item);
}

/// `Consumer::as_slices`: two slices that hold, one after the other, the
/// contents of the buffer from the oldest item to the newest.
#[verifier::external_body]
pub(crate) fn window_slices(w: &Window) -> (parts: (&[Second], &[Second]))
    ensures
        parts.0@ + parts.1@ == window_items(*w),
{
    w.ring.as_slices()
}

/// `Observer::occupied_len`: the number of items in the buffer.
#[verifier::external_body]
pub(crate) fn window_len(w: &Window) -> (n: usize)
    ensures
        n == window_items(*w).len(),
{
    w.ring.occupied_len()
}

/// `Observer::is_empty`: whether the buffer holds no item.
#[verifier::external_body]
pub(crate) fn window_is_empty(w: &Window) -> (b: bool)
    ensures
        b == (window_items(*w).len() == 0),
{
    w.ring.is_empty()
}

} // verus!
