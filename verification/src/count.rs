//! The rules of the strong count.
use vstd::prelude::*;

verus! {

/// Only one reference is left: its owner has the allocation alone.
pub open spec fn is_unique(strong: nat) -> bool {
    strong == 1
}

/// What can be taken out of an allocation with `strong` references: the value,
/// or nothing as long as others refer to it.
pub open spec fn taken<T>(strong: nat, data: T) -> Option<T> {
    if is_unique(strong) {
        Some(data)
    } else {
        None
    }
}

/// What an owner may have for its own of an allocation with `strong`
/// references: the value itself, or a clone of it if others refer to it.
pub open spec fn made_own<T: Clone>(strong: nat, data: T, own: T) -> bool {
    if is_unique(strong) {
        own == data
    } else {
        call_ensures(T::clone, (&data,), own)
    }
}

/// The count that a new reference finds is too large for one more.
///
/// A 64-bit count cannot be driven to its end, so only a shorter one is
/// guarded, and well before it wraps.
pub open spec fn overflows(old: nat) -> bool {
    usize::BITS != 64 && old >= isize::MAX
}

/// The count can grow by one.
pub open spec fn has_room(strong: nat) -> bool {
    strong < usize::MAX && !overflows(strong)
}

/// Tells whether `old`, the count that a new reference found, has left the
/// guarded range.
pub fn check_overflow(old: usize) -> (over: bool)
    ensures
        over == overflows(old as nat),
{
    usize::BITS != 64 && old >= isize::MAX as usize
}

} // verus!
