//! The ledger: which allocations are live, and who holds each of them.
//!
//! A [`Ledger`] is the mathematical state that the strong counts describe. It
//! has no run-time form of its own; [`Heap`](crate::heap::Heap) is a program
//! whose state it is.
use vstd::prelude::*;

verus! {

/// One live allocation: its strong count and the value in it.
pub struct Entry<T> {
    pub strong: nat,
    pub data: T,
}

/// The live allocations by address, and the references to them.
///
/// Every reference ever made has a number of its own, its *holder* number, so
/// that two references to one allocation can be told apart.
#[verifier::ext_equal]
pub struct Ledger<T> {
    /// The live allocations.
    pub entries: Map<nat, Entry<T>>,
    /// For each reference that has not been given up, the address it refers to.
    pub holders: Map<nat, nat>,
    /// Those of `holders` that are out as raw pointers, with no handle to them.
    pub raw: Set<nat>,
    /// The next holder number.
    pub next: nat,
}

impl<T> Ledger<T> {
    /// Nothing allocated, nothing held.
    pub open spec fn empty() -> Self {
        Ledger { entries: Map::empty(), holders: Map::empty(), raw: Set::empty(), next: 0 }
    }

    /// The references to the allocation at `at`.
    pub open spec fn holders_of(self, at: nat) -> Set<nat> {
        self.holders.dom().filter(|h: nat| self.holders[h] == at)
    }

    /// The strong count of an allocation is the number of references to it, an
    /// allocation is live exactly as long as there is one, and no reference
    /// dangles.
    pub open spec fn inv(self) -> bool {
        &&& self.entries.dom().finite()
        &&& self.holders.dom().finite()
        &&& forall|h: nat| #[trigger]
            self.holders.contains_key(h) ==> h < self.next && self.entries.contains_key(
                self.holders[h],
            )
        &&& forall|at: nat| #[trigger]
            self.entries.contains_key(at) ==> {
                &&& self.entries[at].strong == self.holders_of(at).len()
                &&& self.entries[at].strong >= 1
            }
        &&& self.raw.subset_of(self.holders.dom())
    }

    /// Reference `h` is a handle to the allocation at `at`.
    pub open spec fn owns(self, h: nat, at: nat) -> bool {
        &&& self.holders.contains_key(h)
        &&& !self.raw.contains(h)
        &&& self.holders[h] == at
    }

    /// Reference `h` is out as a raw pointer to the allocation at `at`.
    pub open spec fn exposes(self, h: nat, at: nat) -> bool {
        &&& self.holders.contains_key(h)
        &&& self.raw.contains(h)
        &&& self.holders[h] == at
    }

    /// The strong count of the allocation at `at`.
    pub open spec fn strong(self, at: nat) -> nat {
        self.entries[at].strong
    }

    /// The value in the allocation at `at`.
    pub open spec fn data(self, at: nat) -> T {
        self.entries[at].data
    }

    /// A new allocation at the free address `at`, with one reference to it.
    pub open spec fn create(self, at: nat, data: T) -> Self {
        Ledger {
            entries: self.entries.insert(at, Entry { strong: 1, data }),
            holders: self.holders.insert(self.next, at),
            raw: self.raw,
            next: self.next + 1,
        }
    }

    /// One more reference to the allocation at `at`.
    pub open spec fn retain(self, at: nat) -> Self {
        let entry = Entry { strong: self.strong(at) + 1, data: self.data(at) };
        Ledger {
            entries: self.entries.insert(at, entry),
            holders: self.holders.insert(self.next, at),
            raw: self.raw,
            next: self.next + 1,
        }
    }

    /// Reference `h` is given up. With the last one the allocation goes.
    pub open spec fn release(self, h: nat) -> Self {
        let at = self.holders[h];
        let entry = Entry { strong: (self.strong(at) - 1) as nat, data: self.data(at) };
        Ledger {
            entries: if self.strong(at) == 1 {
                self.entries.remove(at)
            } else {
                self.entries.insert(at, entry)
            },
            holders: self.holders.remove(h),
            raw: self.raw.remove(h),
            next: self.next,
        }
    }

    /// The value at `at` is replaced by `data`.
    pub open spec fn write(self, at: nat, data: T) -> Self {
        let entry = Entry { strong: self.strong(at), data };
        Ledger { entries: self.entries.insert(at, entry), ..self }
    }

    /// The handle `h` becomes a raw pointer.
    pub open spec fn expose(self, h: nat) -> Self {
        Ledger { raw: self.raw.insert(h), ..self }
    }

    /// The raw pointer `h` becomes a handle again.
    pub open spec fn reclaim(self, h: nat) -> Self {
        Ledger { raw: self.raw.remove(h), ..self }
    }

    /// The empty ledger is in order.
    pub proof fn lemma_empty_inv()
        ensures
            Self::empty().inv(),
    {
    }

    /// A new allocation keeps the ledger in order.
    pub proof fn lemma_create_inv(self, at: nat, data: T)
        requires
            self.inv(),
            !self.entries.contains_key(at),
        ensures
            self.create(at, data).inv(),
            self.create(at, data).owns(self.next, at),
    {
        let post = self.create(at, data);
        assert forall|a: nat| #[trigger] post.entries.contains_key(a) implies {
            &&& post.entries[a].strong == post.holders_of(a).len()
            &&& post.entries[a].strong >= 1
        } by {
            if a == at {
                assert(self.holders_of(at) =~= Set::empty());
                assert(post.holders_of(at) =~= Set::empty().insert(self.next));
            } else {
                assert(self.entries.contains_key(a));
                assert(post.holders_of(a) =~= self.holders_of(a));
            }
        }
    }

    /// One more reference keeps the ledger in order.
    pub proof fn lemma_retain_inv(self, at: nat)
        requires
            self.inv(),
            self.entries.contains_key(at),
        ensures
            self.retain(at).inv(),
            self.retain(at).owns(self.next, at),
    {
        let post = self.retain(at);
        assert forall|a: nat| #[trigger] post.entries.contains_key(a) implies {
            &&& post.entries[a].strong == post.holders_of(a).len()
            &&& post.entries[a].strong >= 1
        } by {
            assert(self.entries.contains_key(a));
            if a == at {
                assert(post.holders_of(at) =~= self.holders_of(at).insert(self.next));
            } else {
                assert(post.holders_of(a) =~= self.holders_of(a));
            }
        }
    }

    /// Giving a reference up keeps the ledger in order.
    pub proof fn lemma_release_inv(self, h: nat)
        requires
            self.inv(),
            self.holders.contains_key(h),
        ensures
            self.release(h).inv(),
    {
        let at = self.holders[h];
        let post = self.release(h);
        assert(self.entries.contains_key(at));
        assert(self.holders_of(at).contains(h));
        assert(post.holders_of(at) =~= self.holders_of(at).remove(h));
        assert forall|a: nat| #[trigger] post.entries.contains_key(a) implies {
            &&& post.entries[a].strong == post.holders_of(a).len()
            &&& post.entries[a].strong >= 1
        } by {
            assert(self.entries.contains_key(a));
            if a != at {
                assert(post.holders_of(a) =~= self.holders_of(a));
            }
        }
        assert forall|g: nat| #[trigger] post.holders.contains_key(g) implies g < post.next
            && post.entries.contains_key(post.holders[g]) by {
            assert(self.holders.contains_key(g));
            if self.holders[g] == at && self.strong(at) == 1 {
                assert(post.holders_of(at).contains(g));
                assert(post.holders_of(at).len() == 0);
            }
        }
    }

    /// Writing a value keeps the ledger in order.
    pub proof fn lemma_write_inv(self, at: nat, data: T)
        requires
            self.inv(),
            self.entries.contains_key(at),
        ensures
            self.write(at, data).inv(),
    {
        let post = self.write(at, data);
        assert forall|a: nat| #[trigger] post.entries.contains_key(a) implies {
            &&& post.entries[a].strong == post.holders_of(a).len()
            &&& post.entries[a].strong >= 1
        } by {
            assert(self.entries.contains_key(a));
            assert(post.holders_of(a) =~= self.holders_of(a));
        }
    }

    /// Making a handle a raw pointer keeps the ledger in order.
    pub proof fn lemma_expose_inv(self, h: nat)
        requires
            self.inv(),
            self.holders.contains_key(h),
        ensures
            self.expose(h).inv(),
    {
        assert forall|a: nat| #[trigger] self.expose(h).entries.contains_key(a) implies {
            &&& self.expose(h).entries[a].strong == self.expose(h).holders_of(a).len()
            &&& self.expose(h).entries[a].strong >= 1
        } by {
            assert(self.expose(h).holders_of(a) =~= self.holders_of(a));
        }
    }

    /// Taking a raw pointer back keeps the ledger in order.
    pub proof fn lemma_reclaim_inv(self, h: nat)
        requires
            self.inv(),
        ensures
            self.reclaim(h).inv(),
    {
        assert forall|a: nat| #[trigger] self.reclaim(h).entries.contains_key(a) implies {
            &&& self.reclaim(h).entries[a].strong == self.reclaim(h).holders_of(a).len()
            &&& self.reclaim(h).entries[a].strong >= 1
        } by {
            assert(self.reclaim(h).holders_of(a) =~= self.holders_of(a));
        }
    }
}

} // verus!
