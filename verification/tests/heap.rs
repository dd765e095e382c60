use std::sync::Arc;

use asc::count::check_overflow;
use asc::heap::Heap;

#[test]
fn into_raw_from_raw_roundtrip() {
    let mut heap = Heap::new();
    let a = heap.create(42i32);
    let ptr = heap.into_raw(a);
    let a = heap.from_raw(ptr);
    assert_eq!(*heap.deref(&a), 42);
    assert_eq!(heap.strong_count(&a), 1);
}

#[test]
fn as_ptr_borrowed() {
    let mut heap = Heap::new();
    let a = heap.create(7u32);
    let b = heap.shallow_clone(&a);
    let ptr = Heap::<u32>::as_ptr(&a);
    // The handle still owns the allocation.
    assert_eq!(Heap::<u32>::as_ptr(&b), ptr);
    assert_eq!(*heap.deref(&a), 7);
}

#[test]
fn get_mut_unchecked_direct() {
    let mut heap = Heap::new();
    let mut a = heap.create(5i32);
    *heap.get_mut_unchecked(&mut a) = 15;
    assert_eq!(*heap.deref(&a), 15);
    assert_eq!(heap.strong_count(&a), 1);
}

#[test]
fn counts_follow_clone_and_drop() {
    let mut heap = Heap::new();
    let a = heap.create(String::from("x"));
    assert_eq!(heap.strong_count(&a), 1);
    let b = heap.shallow_clone(&a);
    let c = heap.shallow_clone(&b);
    assert_eq!(heap.strong_count(&a), 3);
    heap.drop(b);
    assert_eq!(heap.strong_count(&c), 2);
    heap.drop(a);
    assert_eq!(heap.strong_count(&c), 1);
    assert_eq!(heap.deref(&c), "x");
}

#[test]
fn last_drop_frees_the_value() {
    let witness = Arc::new(());
    let mut heap = Heap::new();
    let a = heap.create(witness.clone());
    let b = heap.shallow_clone(&a);
    heap.drop(a);
    assert_eq!(Arc::strong_count(&witness), 2);
    heap.drop(b);
    assert_eq!(Arc::strong_count(&witness), 1);
}

#[test]
fn freed_cells_are_used_again() {
    let mut heap = Heap::new();
    let a = heap.create(1u8);
    let b = heap.create(2u8);
    let at = Heap::<u8>::as_ptr(&a);
    heap.drop(a);
    let c = heap.create(3u8);
    assert_eq!(Heap::<u8>::as_ptr(&c), at);
    assert_eq!(*heap.deref(&b), 2);
    assert_eq!(*heap.deref(&c), 3);
}

#[test]
fn unwrap_needs_the_only_reference() {
    let mut heap = Heap::new();
    let a = heap.create(String::from("v"));
    let b = heap.shallow_clone(&a);
    let a = match heap.try_unwrap(a) {
        Ok(_) => panic!("shared"),
        Err(a) => a,
    };
    assert_eq!(heap.strong_count(&a), 2);
    assert!(heap.into_inner(b).is_none());
    assert_eq!(heap.strong_count(&a), 1);
    assert_eq!(heap.into_inner(a), Some(String::from("v")));
}

#[test]
fn unwrap_or_clone_both_ways() {
    let mut heap = Heap::new();
    let a = heap.create(vec![1, 2]);
    let b = heap.shallow_clone(&a);
    assert_eq!(heap.unwrap_or_clone(a), vec![1, 2]);
    assert_eq!(heap.strong_count(&b), 1);
    assert_eq!(heap.unwrap_or_clone(b), vec![1, 2]);
}

#[test]
fn get_mut_only_when_alone() {
    let mut heap = Heap::new();
    let mut a = heap.create(10);
    *heap.get_mut(&mut a).unwrap() = 20;
    let b = heap.shallow_clone(&a);
    assert!(heap.get_mut(&mut a).is_none());
    assert_eq!(*heap.deref(&b), 20);
}

#[test]
fn make_mut_leaves_the_others() {
    let mut heap = Heap::new();
    let mut a = heap.create(String::from("original"));
    let b = heap.shallow_clone(&a);
    assert!(Heap::<String>::ptr_eq(&a, &b));
    heap.make_mut(&mut a).push_str(" modified");
    assert!(!Heap::<String>::ptr_eq(&a, &b));
    assert_eq!(heap.deref(&a), "original modified");
    assert_eq!(heap.deref(&b), "original");
    assert_eq!(heap.strong_count(&a), 1);
    assert_eq!(heap.strong_count(&b), 1);
    let at = Heap::<String>::as_ptr(&a);
    heap.make_mut(&mut a).push('!');
    assert_eq!(Heap::<String>::as_ptr(&a), at);
    assert_eq!(heap.deref(&a), "original modified!");
}

#[test]
fn raw_pointer_keeps_its_count() {
    let mut heap = Heap::new();
    let a = heap.create(6u16);
    let b = heap.shallow_clone(&a);
    let raw = heap.into_raw(b);
    assert_eq!(heap.strong_count(&a), 2);
    heap.drop(a);
    let c = heap.from_raw(raw);
    assert_eq!(heap.strong_count(&c), 1);
    assert_eq!(heap.into_inner(c), Some(6));
}

#[test]
fn checked_clone_counts() {
    let mut heap = Heap::new();
    let a = heap.create('c');
    let b = heap.checked_clone(&a).unwrap();
    assert!(Heap::<char>::ptr_eq(&a, &b));
    assert_eq!(heap.strong_count(&a), 2);
    assert_eq!(*heap.deref(&b), 'c');
}

// A value whose clone can be told from it.
struct Copied(u32);

impl Clone for Copied {
    fn clone(&self) -> Self {
        Copied(self.0 + 1)
    }
}

#[test]
fn shared_cell_is_cloned_once() {
    let mut heap = Heap::new();
    let mut a = heap.create(Copied(0));
    let b = heap.shallow_clone(&a);
    assert_eq!(heap.make_mut(&mut a).0, 1);
    assert_eq!(heap.make_mut(&mut a).0, 1);
    let c = heap.shallow_clone(&b);
    assert_eq!(heap.unwrap_or_clone(c).0, 1);
    assert_eq!(heap.unwrap_or_clone(b).0, 0);
}

#[test]
fn overflow_is_guarded_on_short_counts_only() {
    assert!(!check_overflow(1));
    assert_eq!(check_overflow(usize::MAX), usize::BITS != 64);
}
