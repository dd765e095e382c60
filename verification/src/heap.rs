//! Reference counting on memory that is a plain value.
//!
//! A [`Heap`] owns its allocations and hands out [`Handle`]s to them. Every
//! operation is the one that a reference-counted pointer makes on its
//! allocation, and since the heap is passed along, each contract says what
//! becomes of the counts: the heap's state is a [`Ledger`], and an operation
//! takes it to exactly one next ledger.
use vstd::prelude::*;

use crate::count::{check_overflow, has_room, is_unique, made_own, taken};
use crate::ledger::{Entry, Ledger};

verus! {

/// An allocation: the strong count, and the value.
struct Inner<T> {
    strong: usize,
    data: T,
}

/// A reference to an allocation of a [`Heap`].
pub struct Handle {
    inner: usize,
    holder: Ghost<nat>,
}

impl Handle {
    /// The address of the allocation.
    pub closed spec fn at(self) -> nat {
        self.inner as nat
    }

    /// The holder number of this reference.
    pub closed spec fn id(self) -> nat {
        self.holder@
    }
}

/// Allocations with a strong count each.
pub struct Heap<T> {
    cells: Vec<Option<Inner<T>>>,
    holders: Ghost<Map<nat, nat>>,
    raw: Ghost<Set<nat>>,
    next: Ghost<nat>,
}

/// The live allocations among `cells`, by index.
spec fn entries_of<T>(cells: Seq<Option<Inner<T>>>) -> Map<nat, Entry<T>> {
    Map::new(
        |at: nat| at < cells.len() && cells[at as int] is Some,
        |at: nat|
            Entry { strong: cells[at as int]->0.strong as nat, data: cells[at as int]->0.data },
    )
}

impl<T> View for Heap<T> {
    type V = Ledger<T>;

    closed spec fn view(&self) -> Ledger<T> {
        Ledger {
            entries: entries_of(self.cells@),
            holders: self.holders@,
            raw: self.raw@,
            next: self.next@,
        }
    }
}

impl<T> Heap<T> {
    /// The counts are in order.
    pub open spec fn wf(self) -> bool {
        self@.inv()
    }

    /// `h` is a handle to an allocation of this heap.
    pub open spec fn owns(self, h: Handle) -> bool {
        self@.owns(h.id(), h.at())
    }

    /// A heap with no allocation in it.
    pub fn new() -> (heap: Self)
        ensures
            heap.wf(),
            heap@ == Ledger::<T>::empty(),
    {
        let heap = Heap {
            cells: Vec::new(),
            holders: Ghost(Map::empty()),
            raw: Ghost(Set::empty()),
            next: Ghost(0),
        };
        proof {
            Ledger::<T>::lemma_empty_inv();
        }
        assert(heap@ =~= Ledger::<T>::empty());
        heap
    }

    /// An index that holds no allocation, or the number of cells if none is
    /// free.
    fn free_slot(&self) -> (at: usize)
        ensures
            at <= self.cells.len(),
            at < self.cells.len() ==> self.cells[at as int] is None,
    {
        let mut at: usize = 0;
        while at < self.cells.len()
            invariant
                at <= self.cells.len(),
            decreases self.cells.len() - at,
        {
            if self.cells[at].is_none() {
                return at;
            }
            at = at + 1;
        }
        at
    }

    /// Allocates room for `data` and makes the first reference to it.
    pub fn create(&mut self, data: T) -> (this: Handle)
        requires
            old(self).wf(),
        ensures
            final(self).wf(),
            !old(self)@.entries.contains_key(this.at()),
            this.id() == old(self)@.next,
            final(self)@ == old(self)@.create(this.at(), data),
            final(self).owns(this),
    {
        let ghost pre = self@;
        let at: usize = self.free_slot();
        let inner = Some(Inner { strong: 1, data });
        if at == self.cells.len() {
            self.cells.push(inner);
        } else {
            self.cells[at] = inner;
        }
        let this = Handle { inner: at, holder: Ghost(self.next@) };
        proof {
            self.holders@ = self.holders@.insert(pre.next, at as nat);
            self.next@ = pre.next + 1;
            assert(!pre.entries.contains_key(at as nat));
            assert(self@ =~= pre.create(at as nat, data));
            pre.lemma_create_inv(at as nat, data);
        }
        this
    }

    /// One more reference to the allocation. The count must have room for it.
    pub fn shallow_clone(&mut self, this: &Handle) -> (other: Handle)
        requires
            old(self).wf(),
            old(self).owns(*this),
            has_room(old(self)@.strong(this.at())),
        ensures
            final(self).wf(),
            other.at() == this.at(),
            other.id() == old(self)@.next,
            final(self)@ == old(self)@.retain(this.at()),
            final(self).owns(*this),
            final(self).owns(other),
    {
        let ghost pre = self@;
        let at: usize = this.inner;
        assert(pre.entries.contains_key(at as nat));
        match &mut self.cells[at] {
            Some(inner) => {
                inner.strong = inner.strong + 1;
            },
            None => {},
        }
        let other = Handle { inner: at, holder: Ghost(self.next@) };
        proof {
            self.holders@ = self.holders@.insert(pre.next, at as nat);
            self.next@ = pre.next + 1;
            assert(self@ =~= pre.retain(at as nat));
            pre.lemma_retain_inv(at as nat);
        }
        other
    }

    /// One more reference to the allocation, if the count has room for it.
    pub fn checked_clone(&mut self, this: &Handle) -> (other: Option<Handle>)
        requires
            old(self).wf(),
            old(self).owns(*this),
        ensures
            final(self).wf(),
            final(self).owns(*this),
            match other {
                Some(other) => {
                    &&& has_room(old(self)@.strong(this.at()))
                    &&& other.at() == this.at()
                    &&& other.id() == old(self)@.next
                    &&& final(self)@ == old(self)@.retain(this.at())
                    &&& final(self).owns(other)
                },
                None => {
                    &&& !has_room(old(self)@.strong(this.at()))
                    &&& final(self)@ == old(self)@
                },
            },
    {
        let old_count: usize = self.strong_count(this);
        if old_count == usize::MAX || check_overflow(old_count) {
            None
        } else {
            Some(self.shallow_clone(this))
        }
    }

    /// Frees the allocation at `at`, and hands its value over.
    fn destroy(&mut self, at: usize) -> (data: T)
        requires
            old(self)@.entries.contains_key(at as nat),
        ensures
            data == old(self)@.data(at as nat),
            final(self)@ == (Ledger { entries: old(self)@.entries.remove(at as nat), ..old(self)@ }),
    {
        let ghost pre = self@;
        let cell = self.cells[at].take();
        assert(self@.entries =~= pre.entries.remove(at as nat));
        match cell {
            Some(inner) => inner.data,
            None => vstd::pervasive::unreached(),
        }
    }

    /// Gives a reference up. The value is destroyed with the last one.
    pub fn drop(&mut self, this: Handle)
        requires
            old(self).wf(),
            old(self).owns(this),
        ensures
            final(self).wf(),
            final(self)@ == old(self)@.release(this.id()),
    {
        let ghost pre = self@;
        let at: usize = this.inner;
        assert(pre.entries.contains_key(at as nat));
        proof {
            pre.lemma_release_inv(this.id());
            self.holders@ = self.holders@.remove(this.id());
            self.raw@ = self.raw@.remove(this.id());
        }
        let mut last: bool = false;
        match &mut self.cells[at] {
            Some(inner) => {
                last = inner.strong == 1;
                inner.strong = inner.strong - 1;
            },
            None => {},
        }
        if last {
            let _data = self.destroy(at);
        }
        assert(self@ =~= pre.release(this.id()));
    }

    /// Takes the value out of the allocation if this is the only reference.
    ///
    /// # Errors
    ///
    /// Returns the handle if there are other references.
    pub fn try_unwrap(&mut self, this: Handle) -> (result: Result<T, Handle>)
        requires
            old(self).wf(),
            old(self).owns(this),
        ensures
            final(self).wf(),
            is_unique(old(self)@.strong(this.at())) ==> {
                &&& result == Ok::<T, Handle>(old(self)@.data(this.at()))
                &&& final(self)@ == old(self)@.release(this.id())
            },
            !is_unique(old(self)@.strong(this.at())) ==> {
                &&& result == Err::<T, Handle>(this)
                &&& final(self)@ == old(self)@
            },
    {
        if self.strong_count(&this) != 1 {
            return Err(this);
        }
        let ghost pre = self@;
        proof {
            pre.lemma_release_inv(this.id());
            self.holders@ = self.holders@.remove(this.id());
            self.raw@ = self.raw@.remove(this.id());
        }
        let data = self.destroy(this.inner);
        assert(self@ =~= pre.release(this.id()));
        Ok(data)
    }

    /// Gives a reference up, and takes the value out if it was the only one.
    pub fn into_inner(&mut self, this: Handle) -> (data: Option<T>)
        requires
            old(self).wf(),
            old(self).owns(this),
        ensures
            final(self).wf(),
            final(self)@ == old(self)@.release(this.id()),
            data == taken(old(self)@.strong(this.at()), old(self)@.data(this.at())),
    {
        match self.try_unwrap(this) {
            Ok(data) => Some(data),
            Err(this) => {
                self.drop(this);
                None
            },
        }
    }

    /// The value in the allocation.
    pub fn deref(&self, this: &Handle) -> (data: &T)
        requires
            self.wf(),
            self.owns(*this),
        ensures
            *data == self@.data(this.at()),
    {
        assert(self@.entries.contains_key(this.at()));
        match &self.cells[this.inner] {
            Some(inner) => &inner.data,
            None => vstd::pervasive::unreached(),
        }
    }

    /// The number of references to the allocation.
    pub fn strong_count(&self, this: &Handle) -> (n: usize)
        requires
            self.wf(),
            self.owns(*this),
        ensures
            n == self@.strong(this.at()),
            n >= 1,
    {
        assert(self@.entries.contains_key(this.at()));
        match &self.cells[this.inner] {
            Some(inner) => inner.strong,
            None => vstd::pervasive::unreached(),
        }
    }

    /// Tells whether two handles refer to one allocation.
    pub fn ptr_eq(this: &Handle, other: &Handle) -> (same: bool)
        ensures
            same == (this.at() == other.at()),
    {
        this.inner == other.inner
    }

    /// Lends the value for change if this is the only reference.
    pub fn get_mut(&mut self, this: &mut Handle) -> (lent: Option<&mut T>)
        requires
            old(self).wf(),
            old(self).owns(*old(this)),
        ensures
            *final(this) == *old(this),
            final(self).wf(),
            (lent is Some) == is_unique(old(self)@.strong(old(this).at())),
            match lent {
                Some(data) => {
                    &&& *data == old(self)@.data(old(this).at())
                    &&& final(self)@ == old(self)@.write(old(this).at(), *final(data))
                },
                None => final(self)@ == old(self)@,
            },
    {
        if self.strong_count(this) == 1 {
            Some(self.get_mut_unchecked(this))
        } else {
            None
        }
    }

    /// Lends the value for change. This must be the only reference.
    pub fn get_mut_unchecked(&mut self, this: &mut Handle) -> (data: &mut T)
        requires
            old(self).wf(),
            old(self).owns(*old(this)),
            is_unique(old(self)@.strong(old(this).at())),
        ensures
            *final(this) == *old(this),
            *data == old(self)@.data(old(this).at()),
            final(self).wf(),
            final(self)@ == old(self)@.write(old(this).at(), *final(data)),
    {
        let at: usize = this.inner;
        let ghost pre = self@;
        assert(self@.entries.contains_key(at as nat));
        match &mut self.cells[at] {
            Some(inner) => {
                let data = &mut inner.data;
                proof {
                    pre.lemma_write_inv(at as nat, *final(data));
                }
                assert(after_borrow(self)@ =~= pre.write(at as nat, *final(data)));
                data
            },
            None => vstd::pervasive::unreached(),
        }
    }

    /// The address of the allocation, which stays owned by the handle.
    pub fn as_ptr(this: &Handle) -> (at: usize)
        ensures
            at == this.at(),
    {
        this.inner
    }

    /// Turns a handle into a bare address. The reference still counts, and the
    /// allocation lives on, until [`Heap::from_raw`] takes the address back.
    pub fn into_raw(&mut self, this: Handle) -> (at: usize)
        requires
            old(self).wf(),
            old(self).owns(this),
        ensures
            at == this.at(),
            final(self).wf(),
            final(self)@ == old(self)@.expose(this.id()),
            final(self)@.exposes(this.id(), at as nat),
    {
        proof {
            self@.lemma_expose_inv(this.id());
            self.raw@ = self.raw@.insert(this.id());
        }
        this.inner
    }

    /// Turns an address from [`Heap::into_raw`] back into a handle. There must
    /// be such a reference that has not been taken back yet.
    pub fn from_raw(&mut self, at: usize) -> (this: Handle)
        requires
            old(self).wf(),
            exists|h: nat| old(self)@.exposes(h, at as nat),
        ensures
            this.at() == at,
            old(self)@.exposes(this.id(), this.at()),
            final(self).wf(),
            final(self)@ == old(self)@.reclaim(this.id()),
            final(self).owns(this),
    {
        let ghost h = choose|h: nat| self@.exposes(h, at as nat);
        proof {
            self@.lemma_reclaim_inv(h);
            self.raw@ = self.raw@.remove(h);
        }
        Handle { inner: at, holder: Ghost(h) }
    }
}

impl<T: Clone> Heap<T> {
    /// Gives a reference up for the value: the value itself if this was the
    /// only reference, and a clone of it if not.
    pub fn unwrap_or_clone(&mut self, this: Handle) -> (data: T)
        requires
            old(self).wf(),
            old(self).owns(this),
        ensures
            final(self).wf(),
            final(self)@ == old(self)@.release(this.id()),
            made_own(old(self)@.strong(this.at()), old(self)@.data(this.at()), data),
    {
        match self.try_unwrap(this) {
            Ok(data) => data,
            Err(this) => {
                let data = T::clone(self.deref(&this));
                self.drop(this);
                data
            },
        }
    }

    /// Lends the value for change. If there are other references, the handle
    /// first moves to a new allocation with a clone of the value.
    pub fn make_mut(&mut self, this: &mut Handle) -> (data: &mut T)
        requires
            old(self).wf(),
            old(self).owns(*old(this)),
        ensures
            final(self).wf(),
            made_own(old(self)@.strong(old(this).at()), old(self)@.data(old(this).at()), *data),
            is_unique(old(self)@.strong(old(this).at())) ==> {
                &&& *final(this) == *old(this)
                &&& final(self)@ == old(self)@.write(old(this).at(), *final(data))
            },
            !is_unique(old(self)@.strong(old(this).at())) ==> {
                &&& !old(self)@.entries.contains_key(final(this).at())
                &&& final(this).id() == old(self)@.next
                &&& final(self)@ == old(self)@.create(final(this).at(), *data).release(
                    old(this).id(),
                ).write(final(this).at(), *final(data))
            },
            final(self).owns(*final(this)),
    {
        if self.strong_count(this) > 1 {
            let data = T::clone(self.deref(this));
            let mut fresh = self.create(data);
            std::mem::swap(this, &mut fresh);
            self.drop(fresh);
        }
        self.get_mut_unchecked(this)
    }
}

} // verus!
