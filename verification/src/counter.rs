//! Counters that one thread writes and another reads.
use std::sync::atomic::{AtomicI32, Ordering};
use vstd::prelude::*;

verus! {

/// Reads a counter that another thread writes. Nothing is known of what
/// comes back.
pub fn read_counter(counter: &AtomicI32) -> i32 {
    counter.load(Ordering::Relaxed)
}

/// Writes a counter that another thread reads.
pub fn write_counter(counter: &AtomicI32, value: i32) {
    counter.store(value, Ordering::Relaxed);
}

} // verus!
