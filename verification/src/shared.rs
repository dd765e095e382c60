//! [`Asc`], the handle that threads share.
//!
//! An [`Asc`] lives in an allocation of `std`'s [`Arc`], which counts the
//! handles and frees the value with the last of them; no weak pointer to it is
//! ever made. How many other handles there are at any moment is up to the rest
//! of the program, so the contracts here speak of the count that an operation
//! meets: [`Asc::counts`] says of a number that it is a strong count of the
//! handle's allocation.
//! [`Heap`](crate::heap::Heap) has the same operations where that number is
//! known.
use std::cmp::Ordering;
use std::fmt;
use std::ops::Deref;
use std::sync::Arc;

use vstd::prelude::*;
use vstd::std_specs::cmp::{PartialEqSpec, PartialEqSpecImpl, PartialOrdSpec, PartialOrdSpecImpl};
use vstd::std_specs::convert::FromSpecImpl;

use crate::count::{is_unique, made_own};

verus! {

/// Which allocation a handle is to.
///
/// To Verus an [`Arc`] is the value that it points to, and two allocations with
/// equal values are equal. A `Place` tells them apart: every allocation has one
/// of its own, and a handle carries the place of its allocation. It takes no
/// room at run time, and only the functions below that call `std`'s [`Arc`] set
/// it.
#[verifier::external_body]
#[derive(Clone, Copy, PartialEq, Eq, PartialOrd, Ord, Hash)]
pub struct Place {
    nothing: (),
}

/// Atomic strong count: a drop-in replacement for [`Arc`] where no weak
/// references are needed.
///
/// Comparison, hashing and formatting are those of the value.
#[derive(Eq, Ord, Hash)]
pub struct Asc<T> {
    inner: Arc<T>,
    place: Place,
}

impl<T> View for Asc<T> {
    type V = T;

    /// The value in the allocation.
    closed spec fn view(&self) -> T {
        *self.inner
    }
}

/// `Arc::new`: a new allocation with `data` in it, whose strong count starts at
/// one. That its place is that of no other live allocation is left unsaid.
#[verifier::external_body]
fn arc_new<T>(data: T) -> (this: Asc<T>)
    ensures
        this@ == data,
        this.counts(1),
{
    Asc { inner: Arc::new(data), place: Place { nothing: () } }
}

/// `Arc::clone`: another pointer to the same allocation, whose strong count it
/// raises by one. A count that cannot be raised ends the program; it does not
/// unwind.
#[verifier::external_body]
fn arc_clone<T>(this: &Asc<T>) -> (other: Asc<T>)
    ensures
        other == *this,
        this.raised_for(other),
    no_unwind
{
    Asc { inner: Arc::clone(&this.inner), place: this.place }
}

/// `Arc::strong_count`: the number of strong pointers to the allocation. The
/// one at hand is among them, so it is at least one. What more it is depends on
/// the rest of the program, and is left unsaid.
#[verifier::external_body]
fn arc_strong_count<T>(this: &Asc<T>) -> (n: usize)
    ensures
        n >= 1,
    opens_invariants none
{
    Arc::strong_count(&this.inner)
}

/// `Arc::ptr_eq`: whether two pointers are to one allocation. If they are, they
/// are to one value.
#[verifier::external_body]
fn arc_ptr_eq<T>(this: &Asc<T>, other: &Asc<T>) -> (same: bool)
    ensures
        same == (this.place() == other.place()),
        same ==> this@ == other@,
{
    Arc::ptr_eq(&this.inner, &other.inner)
}

/// `Arc::try_unwrap`: the value, if the strong count that the call finds is
/// one; otherwise the same pointer back. What the count is depends on the rest
/// of the program.
#[verifier::external_body]
fn arc_try_unwrap<T>(this: Asc<T>) -> (result: Result<T, Asc<T>>)
    ensures
        match result {
            Ok(data) => data == this@,
            Err(back) => back == this,
        },
        this.found_unique(result is Ok),
    opens_invariants none
{
    let place = this.place;
    match Arc::try_unwrap(this.inner) {
        Ok(data) => Ok(data),
        Err(inner) => Err(Asc { inner, place }),
    }
}

/// `Arc::into_inner`: the value, if the strong count that the call finds is
/// one; otherwise nothing, and the pointer is dropped. What the count is
/// depends on the rest of the program.
#[verifier::external_body]
fn arc_into_inner<T>(this: Asc<T>) -> (data: Option<T>)
    ensures
        data matches Some(data) ==> data == this@,
        this.found_unique(data is Some),
    opens_invariants none
{
    Arc::into_inner(this.inner)
}

/// `Arc::get_mut`: the value for change, if there is no other pointer to the
/// allocation; otherwise nothing, and nothing changes. There being no weak
/// pointers, the strong count that the call finds decides, and what it is
/// depends on the rest of the program.
#[verifier::external_body]
fn arc_get_mut<T>(this: &mut Asc<T>) -> (lent: Option<&mut T>)
    ensures
        final(this).place() == old(this).place(),
        match lent {
            Some(data) => *data == old(this)@ && final(this)@ == *final(data),
            None => *final(this) == *old(this),
        },
        old(this).found_unique(lent is Some),
    opens_invariants none
{
    Arc::get_mut(&mut this.inner)
}

/// `Arc::make_mut`: the value for change, in the allocation at hand if there is
/// no other pointer to it, and otherwise a clone of it in a new one. (With weak
/// pointers alone beside it the value would move; a handle has none.) Either
/// way the pointer is to what is lent. The strong count that the call finds
/// decides, and what it is depends on the rest of the program.
#[verifier::external_body]
fn arc_make_mut<T: Clone>(this: &mut Asc<T>) -> (data: &mut T)
    ensures
        if final(this).place() == old(this).place() {
            *data == old(this)@
        } else {
            call_ensures(T::clone, (&old(this)@,), *data)
        },
        final(this)@ == *final(data),
        old(this).found_unique(final(this).place() == old(this).place()),
{
    Arc::make_mut(&mut this.inner)
}

impl<T> Asc<T> {
    /// The allocation that the handle is to.
    pub closed spec fn place(self) -> Place {
        self.place
    }

    /// `n` is a strong count of the handle's allocation: `Arc::strong_count`
    /// gives it at some moment.
    pub closed spec fn counts(self, n: usize) -> bool {
        call_ensures(arc_strong_count::<T>, (&self,), n)
    }

    /// A handle is one of those that its allocation counts.
    pub proof fn lemma_counted(self, n: usize)
        requires
            self.counts(n),
        ensures
            n >= 1,
    {
    }

    /// An operation on this handle met a strong count, and `unique` tells
    /// whether that was one.
    pub open spec fn found_unique(self, unique: bool) -> bool {
        exists|n: usize| #[trigger] self.counts(n) && unique == is_unique(n as nat)
    }

    /// The strong count was raised by one for `other`.
    pub open spec fn raised_for(self, other: Self) -> bool {
        exists|n: usize| #[trigger]
            self.counts(n) && n < usize::MAX && other.counts((n + 1) as usize)
    }

    /// Moves `data` into a new allocation, with this handle to it.
    #[inline]
    #[must_use]
    pub fn new(data: T) -> (this: Self)
        ensures
            this@ == data,
            this.counts(1),
    {
        arc_new(data)
    }

    /// Takes the value out of the allocation if this is the only handle to it.
    ///
    /// # Errors
    ///
    /// Returns the handle if there are others to the same allocation.
    #[inline]
    pub fn try_unwrap(this: Self) -> (result: Result<T, Self>)
        ensures
            match result {
                Ok(data) => data == this@,
                Err(back) => back == this,
            },
            this.found_unique(result is Ok),
        opens_invariants none
    {
        arc_try_unwrap(this)
    }

    /// Gives the handle up, and takes the value out if it was the only one.
    ///
    /// Of several threads that give up all handles to an allocation in this
    /// way, exactly one gets the value.
    #[inline]
    #[must_use]
    pub fn into_inner(this: Self) -> (data: Option<T>)
        ensures
            data matches Some(data) ==> data == this@,
            this.found_unique(data is Some),
        opens_invariants none
    {
        arc_into_inner(this)
    }

    /// Makes another handle to the same allocation.
    #[inline]
    #[must_use]
    pub fn shallow_clone(&self) -> (other: Self)
        ensures
            other == *self,
            other.place() == self.place(),
            other@ == self@,
            self.raised_for(other),
        no_unwind
    {
        arc_clone(self)
    }

    /// The number of handles to the allocation.
    #[inline]
    #[must_use]
    pub fn strong_count(this: &Self) -> (n: usize)
        ensures
            n >= 1,
            this.counts(n),
        opens_invariants none
    {
        arc_strong_count(this)
    }

    /// Tells whether two handles are to the same allocation.
    #[inline]
    #[must_use]
    pub fn ptr_eq(this: &Self, other: &Self) -> (same: bool)
        ensures
            same == (this.place() == other.place()),
            same ==> this@ == other@,
    {
        arc_ptr_eq(this, other)
    }

    /// Lends the value for change if this is the only handle to it.
    #[inline]
    #[must_use]
    pub fn get_mut(this: &mut Self) -> (lent: Option<&mut T>)
        ensures
            final(this).place() == old(this).place(),
            match lent {
                Some(data) => *data == old(this)@ && final(this)@ == *final(data),
                None => *final(this) == *old(this),
            },
            old(this).found_unique(lent is Some),
        opens_invariants none
    {
        arc_get_mut(this)
    }
}

impl<T: Clone> Asc<T> {
    /// Gives the handle up for the value, or for a clone of it if there are
    /// other handles.
    #[inline]
    #[must_use]
    pub fn unwrap_or_clone(this: Self) -> (data: T)
        ensures
            data == this@ || call_ensures(T::clone, (&this@,), data),
            exists|n: usize| #[trigger] this.counts(n) && made_own(n as nat, this@, data),
    {
        Self::own_or_clone(Self::try_unwrap(this))
    }

    /// What [`Asc::unwrap_or_clone`] makes of the result of
    /// [`Asc::try_unwrap`]: the value, or a clone of what the handle is to.
    #[inline]
    #[must_use]
    pub fn own_or_clone(result: Result<T, Self>) -> (own: T)
        ensures
            match result {
                Ok(data) => own == data,
                Err(this) => call_ensures(T::clone, (&this@,), own),
            },
    {
        match result {
            Ok(data) => data,
            Err(this) => T::clone(&this),
        }
    }

    /// Lends the value for change. If there are other handles, this one first
    /// moves to a new allocation with a clone of the value.
    #[inline]
    #[must_use]
    pub fn make_mut(this: &mut Self) -> (data: &mut T)
        ensures
            if final(this).place() == old(this).place() {
                *data == old(this)@
            } else {
                call_ensures(T::clone, (&old(this)@,), *data)
            },
            final(this)@ == *final(data),
            old(this).found_unique(final(this).place() == old(this).place()),
    {
        arc_make_mut(this)
    }
}

impl<T> Deref for Asc<T> {
    type Target = T;

    #[inline]
    fn deref(&self) -> (data: &T)
        ensures
            *data == self@,
    {
        &self.inner
    }
}

impl<T> Clone for Asc<T> {
    #[inline]
    fn clone(&self) -> (other: Self)
        ensures
            other == *self,
            other.place() == self.place(),
            other@ == self@,
            call_ensures(Asc::<T>::shallow_clone, (self,), other),
            self.raised_for(other),
    {
        self.shallow_clone()
    }
}

impl<T: PartialEq> PartialEq for Asc<T> {
    #[inline]
    fn eq(&self, other: &Self) -> (equal: bool)
        ensures
            call_ensures(T::eq, (&self@, &other@), equal),
    {
        **self == **other
    }
}

impl<T: PartialEq> PartialEqSpecImpl for Asc<T> {
    open spec fn obeys_eq_spec() -> bool {
        T::obeys_eq_spec()
    }

    open spec fn eq_spec(&self, other: &Self) -> bool {
        self@.eq_spec(&other@)
    }
}

impl<T: PartialOrd> PartialOrd for Asc<T> {
    #[inline]
    fn partial_cmp(&self, other: &Self) -> (order: Option<Ordering>)
        ensures
            call_ensures(T::partial_cmp, (&self@, &other@), order),
    {
        (**self).partial_cmp(&**other)
    }
}

impl<T: PartialOrd> PartialOrdSpecImpl for Asc<T> {
    open spec fn obeys_partial_cmp_spec() -> bool {
        T::obeys_partial_cmp_spec()
    }

    open spec fn partial_cmp_spec(&self, other: &Self) -> Option<Ordering> {
        self@.partial_cmp_spec(&other@)
    }
}

impl<T> From<T> for Asc<T> {
    #[inline]
    fn from(value: T) -> (this: Self)
        ensures
            this@ == value,
            this.counts(1),
    {
        Asc::new(value)
    }
}

impl<T> FromSpecImpl<T> for Asc<T> {
    open spec fn obeys_from_spec() -> bool {
        false
    }

    /// Which allocation a new handle is to is not a matter of the value, so
    /// there is no one result to name.
    closed spec fn from_spec(value: T) -> Self {
        arbitrary()
    }
}

impl<T: Default> Default for Asc<T> {
    #[inline]
    fn default() -> (this: Self)
        ensures
            call_ensures(T::default, (), this@),
            this.counts(1),
    {
        Asc::new(T::default())
    }
}

/// `std`'s formatter, which a value writes itself to.
#[verifier::external_type_specification]
#[verifier::external_body]
pub struct ExFormatter<'a>(fmt::Formatter<'a>);

/// The error of a formatter that could not write.
#[verifier::external_type_specification]
#[verifier::external_body]
pub struct ExFmtError(fmt::Error);

impl<T: fmt::Debug> fmt::Debug for Asc<T> {
    /// `Debug` of the [`Arc`], which is that of the value. Nothing is claimed of
    /// what is written.
    #[inline]
    #[verifier::external_body]
    fn fmt(&self, f: &mut fmt::Formatter<'_>) -> fmt::Result {
        fmt::Debug::fmt(&self.inner, f)
    }
}

impl<T: fmt::Display> fmt::Display for Asc<T> {
    /// `Display` of the [`Arc`], which is that of the value. Nothing is claimed
    /// of what is written.
    #[inline]
    #[verifier::external_body]
    fn fmt(&self, f: &mut fmt::Formatter<'_>) -> fmt::Result {
        fmt::Display::fmt(&self.inner, f)
    }
}

impl<T> fmt::Pointer for Asc<T> {
    /// `Pointer` of the [`Arc`], the address of the value. Nothing is claimed
    /// of what is written.
    #[inline]
    #[verifier::external_body]
    fn fmt(&self, f: &mut fmt::Formatter<'_>) -> fmt::Result {
        fmt::Pointer::fmt(&self.inner, f)
    }
}

} // verus!
