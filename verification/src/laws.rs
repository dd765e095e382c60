//! What holds of reference counting as a whole.
//!
//! [`Op`] lists what can be done to the references of a heap, and
//! [`step`] is the ledger that each leads to; the contracts of
//! [`Heap`](crate::heap::Heap) use the same ledgers. The laws speak of single
//! steps, and of every sequence of them. The last are about the handles
//! that threads share.
use vstd::laws_eq::{obeys_eq, obeys_eq_spec_properties};
use vstd::prelude::*;
use vstd::std_specs::cmp::PartialEqSpec;

use crate::count::{is_unique, made_own};
use crate::ledger::Ledger;
use crate::shared::Asc;

verus! {

/// An operation on the references of a heap; `h` is the reference that makes
/// it.
pub enum Op<T> {
    /// A new allocation at `at`.
    Create { at: nat, data: T },
    /// `shallow_clone`.
    Clone { h: nat },
    /// `drop`; also `into_inner` and `unwrap_or_clone`, which give the handle
    /// up too.
    Drop { h: nat },
    /// `try_unwrap`.
    TryUnwrap { h: nat },
    /// `get_mut`, with `data` written through what it lends.
    GetMut { h: nat, data: T },
    /// `make_mut`, with `data` written through what it lends. If the value is
    /// shared, `copy` is its clone, and goes to `at`.
    MakeMut { h: nat, at: nat, copy: T, data: T },
    /// `into_raw`.
    IntoRaw { h: nat },
    /// `from_raw`, which makes the raw pointer `h` a handle again.
    FromRaw { h: nat },
}

/// The reference that makes an operation.
pub open spec fn actor<T>(op: Op<T>) -> Option<nat> {
    match op {
        Op::Create { at, data } => None,
        Op::Clone { h } => Some(h),
        Op::Drop { h } => Some(h),
        Op::TryUnwrap { h } => Some(h),
        Op::GetMut { h, data } => Some(h),
        Op::MakeMut { h, at, copy, data } => Some(h),
        Op::IntoRaw { h } => Some(h),
        Op::FromRaw { h } => Some(h),
    }
}

/// `h` is a handle.
pub open spec fn is_handle<T>(l: Ledger<T>, h: nat) -> bool {
    l.holders.contains_key(h) && !l.raw.contains(h)
}

/// The operation can be made: its handle exists, and a new allocation goes to
/// a free address.
pub open spec fn enabled<T>(l: Ledger<T>, op: Op<T>) -> bool {
    match op {
        Op::Create { at, data } => !l.entries.contains_key(at),
        Op::Clone { h } => is_handle(l, h),
        Op::Drop { h } => is_handle(l, h),
        Op::TryUnwrap { h } => is_handle(l, h),
        Op::GetMut { h, data } => is_handle(l, h),
        Op::MakeMut { h, at, copy, data } => is_handle(l, h) && !l.entries.contains_key(at),
        Op::IntoRaw { h } => is_handle(l, h),
        Op::FromRaw { h } => l.holders.contains_key(h) && l.raw.contains(h),
    }
}

/// The ledger after `make_mut`.
pub open spec fn after_make_mut<T>(l: Ledger<T>, h: nat, at: nat, copy: T, data: T) -> Ledger<T> {
    if is_unique(l.strong(l.holders[h])) {
        l.write(l.holders[h], data)
    } else {
        l.create(at, copy).release(h).write(at, data)
    }
}

/// The ledger after an operation.
pub open spec fn step<T>(l: Ledger<T>, op: Op<T>) -> Ledger<T> {
    match op {
        Op::Create { at, data } => l.create(at, data),
        Op::Clone { h } => l.retain(l.holders[h]),
        Op::Drop { h } => l.release(h),
        Op::TryUnwrap { h } => if is_unique(l.strong(l.holders[h])) {
            l.release(h)
        } else {
            l
        },
        Op::GetMut { h, data } => if is_unique(l.strong(l.holders[h])) {
            l.write(l.holders[h], data)
        } else {
            l
        },
        Op::MakeMut { h, at, copy, data } => after_make_mut(l, h, at, copy, data),
        Op::IntoRaw { h } => l.expose(h),
        Op::FromRaw { h } => l.reclaim(h),
    }
}

/// The ledger after all of `ops`, first to last.
pub open spec fn run<T>(l: Ledger<T>, ops: Seq<Op<T>>) -> Ledger<T>
    decreases ops.len(),
{
    if ops.len() == 0 {
        l
    } else {
        step(run(l, ops.drop_last()), ops.last())
    }
}

/// Each of `ops` can be made when its turn comes.
pub open spec fn all_enabled<T>(l: Ledger<T>, ops: Seq<Op<T>>) -> bool
    decreases ops.len(),
{
    ops.len() == 0 || (all_enabled(l, ops.drop_last()) && enabled(
        run(l, ops.drop_last()),
        ops.last(),
    ))
}

/// How many allocations an operation makes.
pub open spec fn births<T>(l: Ledger<T>, op: Op<T>) -> nat {
    match op {
        Op::Create { at, data } => 1,
        Op::MakeMut { h, at, copy, data } => if is_unique(l.strong(l.holders[h])) {
            0
        } else {
            1
        },
        _ => 0,
    }
}

/// How many allocations an operation frees: one, when the last reference is
/// dropped or unwrapped.
pub open spec fn deaths<T>(l: Ledger<T>, op: Op<T>) -> nat {
    match op {
        Op::Drop { h } | Op::TryUnwrap { h } => if is_unique(l.strong(l.holders[h])) {
            1
        } else {
            0
        },
        _ => 0,
    }
}

/// How many allocations `ops` make.
pub open spec fn all_births<T>(l: Ledger<T>, ops: Seq<Op<T>>) -> nat
    decreases ops.len(),
{
    if ops.len() == 0 {
        0
    } else {
        all_births(l, ops.drop_last()) + births(run(l, ops.drop_last()), ops.last())
    }
}

/// How many allocations `ops` free.
pub open spec fn all_deaths<T>(l: Ledger<T>, ops: Seq<Op<T>>) -> nat
    decreases ops.len(),
{
    if ops.len() == 0 {
        0
    } else {
        all_deaths(l, ops.drop_last()) + deaths(run(l, ops.drop_last()), ops.last())
    }
}

/// Every operation keeps each strong count equal to the number of references,
/// and leaves no reference dangling.
pub proof fn law_step_keeps_counts<T>(l: Ledger<T>, op: Op<T>)
    requires
        l.inv(),
        enabled(l, op),
    ensures
        step(l, op).inv(),
{
    match op {
        Op::Create { at, data } => l.lemma_create_inv(at, data),
        Op::Clone { h } => l.lemma_retain_inv(l.holders[h]),
        Op::Drop { h } => l.lemma_release_inv(h),
        Op::TryUnwrap { h } => l.lemma_release_inv(h),
        Op::GetMut { h, data } => l.lemma_write_inv(l.holders[h], data),
        Op::MakeMut { h, at, copy, data } => {
            l.lemma_write_inv(l.holders[h], data);
            l.lemma_create_inv(at, copy);
            l.create(at, copy).lemma_release_inv(h);
            l.create(at, copy).release(h).lemma_write_inv(at, data);
        },
        Op::IntoRaw { h } => l.lemma_expose_inv(h),
        Op::FromRaw { h } => l.lemma_reclaim_inv(h),
    }
}

/// However the references are used, every strong count is the number of
/// references to its allocation, and no reference dangles.
pub proof fn law_run_keeps_counts<T>(l: Ledger<T>, ops: Seq<Op<T>>)
    requires
        l.inv(),
        all_enabled(l, ops),
    ensures
        run(l, ops).inv(),
    decreases ops.len(),
{
    if ops.len() > 0 {
        law_run_keeps_counts(l, ops.drop_last());
        law_step_keeps_counts(run(l, ops.drop_last()), ops.last());
    }
}

/// An operation changes the number of live allocations by what it makes and
/// what it frees.
proof fn lemma_step_balance<T>(l: Ledger<T>, op: Op<T>)
    requires
        l.inv(),
        enabled(l, op),
    ensures
        l.entries.dom().len() + births(l, op) == step(l, op).entries.dom().len() + deaths(l, op),
{
    let post = step(l, op);
    match op {
        Op::Create { at, data } => {},
        Op::Clone { h } => {
            assert(post.entries.dom() =~= l.entries.dom());
        },
        Op::Drop { h } | Op::TryUnwrap { h } => {
            assert(l.entries.contains_key(l.holders[h]));
            if !is_unique(l.strong(l.holders[h])) {
                assert(post.entries.dom() =~= l.entries.dom());
            }
        },
        Op::GetMut { h, data } => {
            assert(post.entries.dom() =~= l.entries.dom());
        },
        Op::MakeMut { h, at, copy, data } => {
            assert(l.entries.contains_key(l.holders[h]));
            if is_unique(l.strong(l.holders[h])) {
                assert(post.entries.dom() =~= l.entries.dom());
            } else {
                assert(post.entries.dom() =~= l.entries.dom().insert(at));
            }
        },
        Op::IntoRaw { h } => {},
        Op::FromRaw { h } => {},
    }
}

/// Every allocation is freed at most once, and nothing else is freed: those
/// made are those freed and those still live.
pub proof fn law_freed_once<T>(ops: Seq<Op<T>>)
    requires
        all_enabled(Ledger::<T>::empty(), ops),
    ensures
        all_births(Ledger::<T>::empty(), ops) == all_deaths(Ledger::<T>::empty(), ops) + run(
            Ledger::<T>::empty(),
            ops,
        ).entries.dom().len(),
    decreases ops.len(),
{
    let start = Ledger::<T>::empty();
    Ledger::<T>::lemma_empty_inv();
    if ops.len() > 0 {
        law_freed_once(ops.drop_last());
        law_run_keeps_counts(start, ops.drop_last());
        lemma_step_balance(run(start, ops.drop_last()), ops.last());
    }
}

/// With no reference left, no allocation is left.
pub proof fn law_nothing_leaks<T>(l: Ledger<T>)
    requires
        l.inv(),
        l.holders.dom() =~= Set::empty(),
    ensures
        l.entries.dom() =~= Set::empty(),
{
    assert forall|at: nat| !l.entries.contains_key(at) by {
        if l.entries.contains_key(at) {
            assert(l.holders_of(at) =~= Set::empty());
        }
    }
}

/// A handle always has its allocation.
pub proof fn law_handle_is_live<T>(l: Ledger<T>, h: nat, at: nat)
    requires
        l.inv(),
        l.owns(h, at),
    ensures
        l.entries.contains_key(at),
        l.strong(at) >= 1,
{
}

/// A count of one means that there is no other reference.
pub proof fn law_unique_means_alone<T>(l: Ledger<T>, h: nat)
    requires
        l.inv(),
        l.holders.contains_key(h),
    ensures
        is_unique(l.strong(l.holders[h])) <==> l.holders_of(l.holders[h]) =~= set![h],
{
    let set = l.holders_of(l.holders[h]);
    assert(l.entries.contains_key(l.holders[h]));
    assert(set.contains(h));
    if is_unique(l.strong(l.holders[h])) {
        assert(set.remove(h).len() == 0);
        assert(set =~= set![h]);
    } else if set =~= set![h] {
        assert(set![h].len() == 1);
    }
}

/// An allocation goes with its last reference, and not before.
pub proof fn law_freed_with_last<T>(l: Ledger<T>, h: nat)
    requires
        l.inv(),
        l.holders.contains_key(h),
    ensures
        l.release(h).entries.contains_key(l.holders[h]) <==> exists|g: nat|
            g != h && #[trigger] l.holders.contains_key(g) && l.holders[g] == l.holders[h],
{
    let at = l.holders[h];
    let post = l.release(h);
    l.lemma_release_inv(h);
    if post.entries.contains_key(at) {
        let g = post.holders_of(at).choose();
        assert(post.holders_of(at).contains(g));
        assert(l.holders.contains_key(g));
    } else {
        assert forall|g: nat| g != h && #[trigger] l.holders.contains_key(g) implies l.holders[g]
            != at by {
            assert(post.holders.contains_key(g));
        }
    }
}

/// Dropping a clone undoes the cloning.
pub proof fn law_clone_then_drop<T>(l: Ledger<T>, at: nat)
    requires
        l.inv(),
        l.entries.contains_key(at),
    ensures
        l.retain(at).release(l.next) == (Ledger { next: l.next + 1, ..l }),
{
    let post = l.retain(at).release(l.next);
    assert(!l.holders.contains_key(l.next));
    assert(!l.raw.contains(l.next));
    assert(post.entries =~= l.entries);
    assert(post.holders =~= l.holders);
    assert(post.raw =~= l.raw);
}

/// The ledger after `k` clones of references to `at`.
pub open spec fn after_clones<T>(l: Ledger<T>, at: nat, k: nat) -> Ledger<T>
    decreases k,
{
    if k == 0 {
        l
    } else {
        after_clones(l, at, (k - 1) as nat).retain(at)
    }
}

/// The ledger after the `k` references from number `first` on are dropped, the
/// newest first.
pub open spec fn after_drops<T>(l: Ledger<T>, first: nat, k: nat) -> Ledger<T>
    decreases k,
{
    if k == 0 {
        l
    } else {
        after_drops(l.release((first + k - 1) as nat), first, (k - 1) as nat)
    }
}

/// Dropping does not look at the next holder number.
proof fn lemma_drops_keep_next<T>(l: Ledger<T>, next: nat, first: nat, k: nat)
    ensures
        after_drops(Ledger { next, ..l }, first, k) == (Ledger { next, ..after_drops(l, first, k) }),
    decreases k,
{
    if k > 0 {
        let h = (first + k - 1) as nat;
        assert((Ledger { next, ..l }).release(h) == (Ledger { next, ..l.release(h) }));
        lemma_drops_keep_next(l.release(h), next, first, (k - 1) as nat);
    }
}

/// Any number of clones raises the count by just that number, and once they
/// are all dropped every count is what it was.
pub proof fn law_clones_add_up<T>(l: Ledger<T>, at: nat, k: nat)
    requires
        l.inv(),
        l.entries.contains_key(at),
    ensures
        after_clones(l, at, k).inv(),
        after_clones(l, at, k).entries.contains_key(at),
        after_clones(l, at, k).next == l.next + k,
        after_clones(l, at, k).strong(at) == l.strong(at) + k,
        after_drops(after_clones(l, at, k), l.next, k) == (Ledger { next: l.next + k, ..l }),
    decreases k,
{
    if k > 0 {
        let before = after_clones(l, at, (k - 1) as nat);
        law_clones_add_up(l, at, (k - 1) as nat);
        before.lemma_retain_inv(at);
        law_clone_then_drop(before, at);
        lemma_drops_keep_next(before, l.next + k, l.next, (k - 1) as nat);
    }
}

/// No operation disturbs another reference: it still refers to the same
/// allocation, which is still live and has the same value in it.
pub proof fn law_others_undisturbed<T>(l: Ledger<T>, op: Op<T>, g: nat)
    requires
        l.inv(),
        enabled(l, op),
        l.holders.contains_key(g),
        actor(op) != Some(g),
    ensures
        step(l, op).holders.contains_key(g),
        step(l, op).holders[g] == l.holders[g],
        step(l, op).raw.contains(g) == l.raw.contains(g),
        step(l, op).entries.contains_key(l.holders[g]),
        step(l, op).data(l.holders[g]) == l.data(l.holders[g]),
{
    assert(l.entries.contains_key(l.holders[g]));
    assert(!l.holders.contains_key(l.next));
    match actor(op) {
        Some(h) => {
            assert(l.entries.contains_key(l.holders[h]));
            law_unique_means_alone(l, h);
            if l.holders[g] == l.holders[h] {
                assert(l.holders_of(l.holders[h]).contains(g));
            }
        },
        None => {},
    }
}

/// After `make_mut` its handle is the only one to its allocation, with the
/// value that was written in it; and where the value was shared, the count of
/// the allocation that the handle left is one less.
pub proof fn law_make_mut_separates<T>(l: Ledger<T>, h: nat, at: nat, copy: T, data: T)
    requires
        l.inv(),
        is_handle(l, h),
        !l.entries.contains_key(at),
    ensures
        ({
            let from = l.holders[h];
            let post = after_make_mut(l, h, at, copy, data);
            let own = if is_unique(l.strong(from)) {
                h
            } else {
                l.next
            };
            &&& is_handle(post, own)
            &&& is_unique(post.strong(post.holders[own]))
            &&& post.data(post.holders[own]) == data
            &&& !is_unique(l.strong(from)) ==> {
                &&& post.holders[own] != from
                &&& post.entries.contains_key(from)
                &&& post.strong(from) == l.strong(from) - 1
                &&& post.data(from) == l.data(from)
            }
        }),
{
    assert(l.entries.contains_key(l.holders[h]));
    assert(!l.holders.contains_key(l.next));
}

/// Every count of at least one occurs: with a first reference and enough clones
/// of it, there is a heap in which a handle to `data` is one of `strong`.
pub proof fn law_every_count_occurs<T>(data: T, strong: nat) -> (ops: Seq<Op<T>>)
    requires
        strong >= 1,
    ensures
        all_enabled(Ledger::<T>::empty(), ops),
        run(Ledger::<T>::empty(), ops).owns(0, 0),
        run(Ledger::<T>::empty(), ops).strong(0) == strong,
        run(Ledger::<T>::empty(), ops).data(0) == data,
    decreases strong,
{
    let start = Ledger::<T>::empty();
    Ledger::<T>::lemma_empty_inv();
    if strong == 1 {
        let none: Seq<Op<T>> = Seq::empty();
        let ops = none.push(Op::Create { at: 0, data });
        assert(ops.drop_last() =~= none);
        assert(run(start, none) == start);
        assert(all_enabled(start, none));
        ops
    } else {
        let before = law_every_count_occurs(data, (strong - 1) as nat);
        let ops = before.push(Op::Clone { h: 0 });
        assert(ops.drop_last() =~= before);
        law_run_keeps_counts(start, before);
        ops
    }
}

/// A raw pointer turned back into a handle is the handle that it was made of,
/// and meanwhile the counts stay as they were.
pub proof fn law_raw_round_trip<T>(l: Ledger<T>, h: nat, at: nat)
    requires
        l.inv(),
        l.owns(h, at),
    ensures
        l.expose(h).exposes(h, at),
        l.expose(h).entries == l.entries,
        l.expose(h).reclaim(h) == l,
{
    assert(l.expose(h).reclaim(h).raw =~= l.raw);
}

/// Equality is that of the values: where it is an equivalence relation on them,
/// it is one on handles.
pub proof fn law_eq_relation<T: PartialEq>()
    requires
        obeys_eq::<T>(),
    ensures
        obeys_eq::<Asc<T>>(),
{
    reveal(obeys_eq_spec_properties);
    assert forall|x: Asc<T>, y: Asc<T>| #[trigger] x.eq_spec(&y) <==> y.eq_spec(&x) by {
        assert(x@.eq_spec(&y@) <==> y@.eq_spec(&x@));
    }
    assert forall|x: Asc<T>, y: Asc<T>, z: Asc<T>|
        x.eq_spec(&y) && #[trigger] y.eq_spec(&z) implies #[trigger] x.eq_spec(&z) by {
        assert(x@.eq_spec(&y@) && y@.eq_spec(&z@));
    }
}

/// The values alone decide equality, and sharing an allocation is no shortcut:
/// two handles to one value are equal exactly if that value is equal to itself.
pub proof fn law_eq_of_values<T: PartialEq>(a: Asc<T>, b: Asc<T>)
    ensures
        a.eq_spec(&b) == a@.eq_spec(&b@),
        a@ == b@ ==> a.eq_spec(&b) == a@.eq_spec(&a@),
{
}

/// `try_unwrap` gives the value exactly if the strong count that it meets is
/// one. It refuses only if there is another handle, and then gives the handle
/// back as it was.
pub proof fn law_unwrap_exactly_if_unique<T>(this: Asc<T>, result: Result<T, Asc<T>>)
    requires
        call_ensures(Asc::<T>::try_unwrap, (this,), result),
    ensures
        exists|n: usize| #[trigger]
            this.counts(n) && match result {
                Ok(data) => n == 1 && data == this@,
                Err(back) => n > 1 && back == this && back.place() == this.place(),
            },
{
    let n = choose|n: usize| #[trigger] this.counts(n) && (result is Ok) == is_unique(n as nat);
    this.lemma_counted(n);
}

/// `into_inner` gives the value exactly if the strong count that it meets is
/// one, and gives nothing only if there is another handle.
pub proof fn law_into_inner_exactly_if_unique<T>(this: Asc<T>, result: Option<T>)
    requires
        call_ensures(Asc::<T>::into_inner, (this,), result),
    ensures
        exists|n: usize| #[trigger]
            this.counts(n) && match result {
                Some(data) => n == 1 && data == this@,
                None => n > 1,
            },
{
    let n = choose|n: usize| #[trigger] this.counts(n) && (result is Some) == is_unique(n as nat);
    this.lemma_counted(n);
}

/// `get_mut` lends the value exactly if the strong count that it meets is one,
/// and lends nothing only if there is another handle.
pub proof fn law_lent_exactly_if_unique<T>(this: &mut Asc<T>, lent: Option<&mut T>)
    requires
        call_ensures(Asc::<T>::get_mut, (this,), lent),
    ensures
        exists|n: usize| #[trigger]
            old(this).counts(n) && match lent {
                Some(data) => {
                    n == 1 && *data == old(this)@ && final(this)@ == *final(data)
                },
                None => n > 1 && *final(this) == *old(this),
            },
{
    let n = choose|n: usize| #[trigger]
        old(this).counts(n) && (lent is Some) == is_unique(n as nat);
    old(this).lemma_counted(n);
}

/// `unwrap_or_clone` gives the value itself exactly if the strong count that it
/// meets is one, and otherwise a clone of it.
pub proof fn law_cloned_exactly_if_shared<T: Clone>(this: Asc<T>, own: T)
    requires
        call_ensures(Asc::<T>::unwrap_or_clone, (this,), own),
    ensures
        exists|n: usize| #[trigger]
            this.counts(n) && if n == 1 {
                own == this@
            } else {
                n > 1 && call_ensures(T::clone, (&this@,), own)
            },
{
    let n = choose|n: usize| #[trigger] this.counts(n) && made_own(n as nat, this@, own);
    this.lemma_counted(n);
}

/// A new handle is one of one, and each clone makes one more to the same
/// allocation, for which `strong_count` accounts.
pub proof fn law_clone_counts_one_more<T>(data: T, this: Asc<T>, other: Asc<T>)
    requires
        call_ensures(Asc::<T>::new, (data,), this),
        call_ensures(Asc::<T>::shallow_clone, (&this,), other),
    ensures
        this.counts(1),
        other.place() == this.place(),
        other@ == data,
        exists|n: usize| #[trigger]
            this.counts(n) && n < usize::MAX && other.counts((n + 1) as usize),
{
}

/// What `strong_count` gives is a strong count of the allocation, so of at
/// least the handle that was asked.
pub proof fn law_strong_count_is_a_count<T>(this: Asc<T>, n: usize)
    requires
        call_ensures(Asc::<T>::strong_count, (&this,), n),
    ensures
        this.counts(n),
        n >= 1,
{
}

} // verus!
